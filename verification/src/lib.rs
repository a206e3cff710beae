//! Terminal plotting primitives: a Braille sub-pixel canvas, terminal colors,
//! a character grid for composing frames, and the layout of plot frames.

pub mod color;
pub mod chars;
pub mod canvas;
pub mod braille;
pub mod line;
pub mod textout;
pub mod text;
pub mod layout;
pub mod frame;
pub mod svg;
pub mod options;
pub mod marks;
pub mod legend;
pub mod terminal;
pub mod style;
pub mod annotate;
pub mod plan;
pub mod multiplot;
pub mod frame3d;
pub mod marching;
