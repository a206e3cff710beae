//! Plot options: dash types, point symbols, axis pairs, placements and the other
//! small enumerations that configure series, axes and legends.

use vstd::prelude::*;

use crate::canvas::{dash, dot, dot_dash, dot_dot_dash, small_dot, solid, DashPattern};

verus! {

/// Auto-or-fixed value for axis configuration.
#[derive(Debug, Clone)]
pub enum AutoOption<T> {
    /// Automatically determined.
    Auto,
    /// Fixed to a specific value.
    Fix(T),
}

/// Which axis pair a series is plotted against.
#[derive(Debug, Clone, Copy, PartialEq, Eq, Structural, Default)]
pub enum AxisPair {
    /// Primary x and y axes (bottom, left).
    #[default]
    X1Y1,
    /// Primary x, secondary y (bottom, right).
    X1Y2,
    /// Secondary x, primary y (top, left).
    X2Y1,
    /// Secondary x and y axes (top, right).
    X2Y2,
}

/// Dash type for line rendering.
#[derive(Debug, Clone, Copy, PartialEq, Eq, Structural)]
pub enum DashType {
    /// Continuous line (every pixel drawn).
    Solid,
    /// Long dashes (6 on, 4 off).
    Dash,
    /// Dots (2 on, 4 off).
    Dot,
    /// Alternating dot-dash (2-4-6-4).
    DotDash,
    /// Dot-dot-dash pattern (2-4-2-4-6-4).
    DotDotDash,
    /// Fine dots (1 on, 3 off), used for grid lines.
    SmallDot,
}

/// The on/off segment lengths of each dash type.
pub open spec fn dash_segments(d: DashType) -> Seq<usize> {
    match d {
        DashType::Solid => seq![1usize],
        DashType::Dash => seq![6usize, 4],
        DashType::Dot => seq![2usize, 4],
        DashType::DotDash => seq![2usize, 4, 6, 4],
        DashType::DotDotDash => seq![2usize, 4, 2, 4, 6, 4],
        DashType::SmallDot => seq![1usize, 3],
    }
}

impl DashType {
    /// Converts to the canvas layer's dash pattern.
    pub fn to_pattern(self) -> (p: DashPattern)
        ensures
            p.segments@ == dash_segments(self),
    {
        match self {
            DashType::Solid => solid(),
            DashType::Dash => dash(),
            DashType::Dot => dot(),
            DashType::DotDash => dot_dash(),
            DashType::DotDotDash => dot_dot_dash(),
            DashType::SmallDot => small_dot(),
        }
    }
}

/// Point marker symbol for scatter plots.
#[derive(Debug, Clone, Copy, PartialEq, Eq, Structural, Default)]
pub enum PointSymbol {
    /// Single Braille dot.
    #[default]
    Dot,
    /// Small cross pattern (5 dots).
    Cross,
    /// Small circle pattern (ring of dots).
    Circle,
    /// Small diamond pattern.
    Diamond,
    /// Small triangle pattern.
    Triangle,
    /// Small square pattern.
    Square,
}

/// Text alignment.
#[derive(Debug, Clone, Copy, PartialEq, Eq, Structural)]
pub enum AlignType {
    /// Left-aligned text.
    AlignLeft,
    /// Right-aligned text.
    AlignRight,
    /// Center-aligned text.
    AlignCenter,
    /// Top-aligned text.
    AlignTop,
    /// Bottom-aligned text.
    AlignBottom,
}

/// Options for axis ticks.
#[derive(Debug, Clone)]
pub enum TickOption {
    /// Place ticks on the axis line rather than the border.
    OnAxis,
    /// Mirror ticks to the opposite border.
    Mirror,
    /// Draw ticks inward (default is outward).
    Inward,
    /// Printf-style format string for tick labels.
    Format(String),
}

/// Legend placement position.
#[derive(Debug, Clone, Copy, PartialEq, Eq, Structural, Default)]
pub enum Placement {
    /// Top-right corner (default).
    #[default]
    TopRight,
    /// Top-left corner.
    TopLeft,
    /// Bottom-right corner.
    BottomRight,
    /// Bottom-left corner.
    BottomLeft,
}

/// Options for legend display.
#[derive(Debug, Clone)]
pub enum LegendOption {
    /// Reverse the order of entries.
    Reverse,
    /// Horizontal layout instead of vertical.
    Horizontal,
    /// Legend placement corner.
    Placement(Placement),
    /// Legend title.
    Title(String),
}

/// Rendering style for 3D surfaces.
#[derive(Debug, Clone, Copy, PartialEq, Eq, Structural)]
pub enum SurfaceStyle {
    /// Wireframe mesh (no hidden-line removal).
    Wireframe,
    /// Wireframe with hidden-line removal via z-buffer.
    HiddenLine,
    /// Filled surface with color-mapped density shading.
    Filled,
}

/// Colormap type for mapping scalar values to colors.
#[derive(Debug, Clone, Copy, PartialEq, Eq, Structural)]
pub enum ColorMapType {
    /// Blue, cyan, green, yellow, red, magenta, white (heat ramp).
    Heat,
    /// Density only, in white (grayscale-like).
    Gray,
    /// Full rainbow: blue, cyan, green, yellow, red, magenta.
    Rainbow,
    /// Blue (low), white (mid), red (high) diverging map.
    BlueRed,
}

} // verus!
