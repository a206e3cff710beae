# ploot

A terminal plotting library that draws charts with Unicode Braille characters: each
terminal cell holds a 2×4 grid of sub-pixels, colored with ANSI codes.

`src/` is the verified library (Verus). It holds the integer and text logic of the
plotter, each function with a contract:

- `color`, `canvas`, `braille`, `line`, `textout`: terminal colors and their additive
  mixing, dash patterns, the Braille canvas, Bresenham lines, rendering to text;
- `marks`: point markers, bars, error bars, box-and-whisker glyphs, grid lines, cell
  fills by density and by ordered dithering;
- `text`, `layout`, `frame`, `frame3d`, `legend`, `annotate`, `multiplot`: the character
  grid, the layout of a plot frame, its border and ticks, the legend overlay, arrows,
  and the composition of several plots;
- `options`, `style`, `plan`: plot options, how a series' style is resolved, and the
  order in which series are drawn;
- `marching`: the case table of marching squares (which cell edges a contour joins);
- `svg`, `terminal`: SVG export of rendered text, and terminal size decisions.

`app/` wraps the library with the data-facing API (figures, axes, series) and what
computes with floating point (data ranges, ticks, coordinate mapping, projections,
colormaps, contour interpolation, depth tests) or does I/O.

`tests/` exercises the library on concrete values.
