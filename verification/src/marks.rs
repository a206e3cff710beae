//! Marks drawn on a Braille canvas at integer sub-pixel positions: point markers,
//! filled rectangles, error bars, box-and-whisker glyphs, and cell fills by density.

use vstd::prelude::*;

use crate::braille::{
    lemma_painted_clip, lemma_painted_compose, lemma_painted_empty, lemma_painted_equiv, painted,
    single_pixel, BrailleCanvas, CanvasView,
};
use crate::canvas::{pattern_on, pattern_valid, DashPattern};
use crate::color::TermColor;
use crate::options::PointSymbol;

verus! {

/// The sub-pixels of the rectangle with columns `x0..=x1` and rows `y0..=y1`
/// (empty when `x0 > x1` or `y0 > y1`).
pub open spec fn rect(x0: int, x1: int, y0: int, y1: int) -> spec_fn(int, int) -> bool {
    |px: int, py: int| x0 <= px <= x1 && y0 <= py <= y1
}

/// The union of two pixel sets.
pub open spec fn union(a: spec_fn(int, int) -> bool, b: spec_fn(int, int) -> bool) -> spec_fn(
    int,
    int,
) -> bool {
    |px: int, py: int| a(px, py) || b(px, py)
}

/// The empty pixel set.
pub open spec fn no_pixels() -> spec_fn(int, int) -> bool {
    |px: int, py: int| false
}

/// Paints the on-canvas part of the rectangle `x0..=x1` × `y0..=y1`, on top of the
/// pixels `acc` already painted since the canvas was `v0`.
fn paint_rect_acc(
    canvas: &mut BrailleCanvas,
    x0: i128,
    x1: i128,
    y0: i128,
    y1: i128,
    color: TermColor,
    Ghost(v0): Ghost<CanvasView>,
    Ghost(acc): Ghost<spec_fn(int, int) -> bool>,
)
    requires
        v0.wf(),
        old(canvas)@.wf(),
        painted(v0, old(canvas)@, acc, color),
    ensures
        final(canvas)@.wf(),
        painted(v0, final(canvas)@, union(acc, rect(x0 as int, x1 as int, y0 as int, y1 as int)), color),
{
    let pw = canvas.pixel_width() as i128;
    let ph = canvas.pixel_height() as i128;
    let xlo: i128 = if x0 < 0 { 0 } else { x0 };
    let xhi: i128 = if x1 > pw - 1 { pw - 1 } else { x1 };
    let ylo: i128 = if y0 < 0 { 0 } else { y0 };
    let yhi: i128 = if y1 > ph - 1 { ph - 1 } else { y1 };
    let ghost done_rows = |y: int| |px: int, py: int| acc(px, py) || (xlo <= px <= xhi && ylo <= py < y);
    proof {
        lemma_painted_equiv(v0, canvas@, acc, done_rows(ylo as int), color);
    }
    let mut y = ylo;
    while y <= yhi
        invariant
            v0.wf(),
            canvas@.wf(),
            canvas@.cw == v0.cw,
            canvas@.ch == v0.ch,
            pw == v0.pw(),
            ph == v0.ph(),
            ylo <= y,
            y <= yhi + 1 || y == ylo,
            0 <= ylo,
            yhi <= ph - 1,
            0 <= xlo,
            xhi <= pw - 1,
            done_rows == (|y: int| |px: int, py: int| acc(px, py) || (xlo <= px <= xhi && ylo <= py < y)),
            painted(v0, canvas@, done_rows(y as int), color),
        decreases yhi + 1 - y,
    {
        let ghost row_start = done_rows(y as int);
        let mut x = xlo;
        proof {
            lemma_painted_equiv(
                v0,
                canvas@,
                row_start,
                |px: int, py: int| row_start(px, py) || (xlo <= px < x && py == y),
                color,
            );
        }
        while x <= xhi
            invariant
                v0.wf(),
                canvas@.wf(),
                canvas@.cw == v0.cw,
                canvas@.ch == v0.ch,
                pw == v0.pw(),
                0 <= xlo <= x,
                x <= xhi + 1 || x == xlo,
                xhi <= pw - 1,
                0 <= y <= ph - 1,
                ph == v0.ph(),
                painted(v0, canvas@, |px: int, py: int| row_start(px, py) || (xlo <= px < x && py == y), color),
            decreases xhi + 1 - x,
        {
            let ghost before = canvas@;
            let ghost s_before = |px: int, py: int| row_start(px, py) || (xlo <= px < x && py == y);
            canvas.set_pixel(x as usize, y as usize, color);
            proof {
                lemma_painted_compose(
                    v0,
                    before,
                    canvas@,
                    s_before,
                    single_pixel(x as int, y as int),
                    |px: int, py: int| row_start(px, py) || (xlo <= px < x + 1 && py == y),
                    color,
                );
            }
            x = x + 1;
        }
        proof {
            lemma_painted_equiv(
                v0,
                canvas@,
                |px: int, py: int| row_start(px, py) || (xlo <= px < x && py == y),
                done_rows(y + 1),
                color,
            );
        }
        y = y + 1;
    }
    proof {
        lemma_painted_clip(
            v0,
            canvas@,
            done_rows(y as int),
            union(acc, rect(x0 as int, x1 as int, y0 as int, y1 as int)),
            color,
        );
    }
}

/// Paints the on-canvas part of the rectangle with columns `x0..=x1` and rows `y0..=y1`;
/// nothing when `x0 > x1` or `y0 > y1`.
pub fn paint_rect(canvas: &mut BrailleCanvas, x0: i128, x1: i128, y0: i128, y1: i128, color: TermColor)
    requires
        old(canvas)@.wf(),
    ensures
        final(canvas)@.wf(),
        painted(old(canvas)@, final(canvas)@, rect(x0 as int, x1 as int, y0 as int, y1 as int), color),
{
    let ghost v0 = canvas@;
    proof {
        lemma_painted_empty(v0, no_pixels(), color);
    }
    paint_rect_acc(canvas, x0, x1, y0, y1, color, Ghost(v0), Ghost(no_pixels()));
    proof {
        lemma_painted_equiv(
            v0,
            canvas@,
            union(no_pixels(), rect(x0 as int, x1 as int, y0 as int, y1 as int)),
            rect(x0 as int, x1 as int, y0 as int, y1 as int),
            color,
        );
    }
}

/// The pixel `(x, y)` when it lies in `0..pw` × `0..ph`, else nothing.
pub open spec fn clipped_pixel(x: int, y: int, pw: int, ph: int) -> spec_fn(int, int) -> bool {
    |px: int, py: int| px == x && py == y && 0 <= x < pw && 0 <= y < ph
}

/// Sets the sub-pixel `(x, y)` when it lies within `0..pw` × `0..ph`.
pub fn set_if_valid(canvas: &mut BrailleCanvas, x: i32, y: i32, pw: i32, ph: i32, color: TermColor)
    requires
        old(canvas)@.wf(),
    ensures
        final(canvas)@.wf(),
        painted(old(canvas)@, final(canvas)@, clipped_pixel(x as int, y as int, pw as int, ph as int), color),
{
    let ghost v0 = canvas@;
    if x >= 0 && y >= 0 && x < pw && y < ph {
        canvas.set_pixel(x as usize, y as usize, color);
        proof {
            lemma_painted_equiv(
                v0,
                canvas@,
                single_pixel(x as int, y as int),
                clipped_pixel(x as int, y as int, pw as int, ph as int),
                color,
            );
        }
    } else {
        proof {
            lemma_painted_empty(v0, clipped_pixel(x as int, y as int, pw as int, ph as int), color);
        }
    }
}

/// The offsets from the marker's center that each symbol sets.
pub open spec fn marker_offsets(symbol: PointSymbol) -> Seq<(int, int)> {
    match symbol {
        PointSymbol::Dot => seq![(0, 0)],
        PointSymbol::Cross => seq![(0, 0), (-1, 0), (1, 0), (0, -1), (0, 1)],
        PointSymbol::Circle => seq![(-1, -1), (0, -1), (1, -1), (-1, 0), (1, 0), (-1, 1), (0, 1), (1, 1)],
        PointSymbol::Diamond => seq![(0, -1), (-1, 0), (1, 0), (0, 1)],
        PointSymbol::Triangle => seq![(0, -1), (-1, 1), (0, 1), (1, 1)],
        PointSymbol::Square => seq![(-1, -1), (0, -1), (1, -1), (-1, 0), (1, 0), (-1, 1), (0, 1), (1, 1)],
    }
}

/// The offsets of an executable list, as integers.
pub open spec fn int_offsets(offs: Seq<(i32, i32)>) -> Seq<(int, int)> {
    offs.map_values(|p: (i32, i32)| (p.0 as int, p.1 as int))
}

/// The sub-pixels at the first `n` offsets of `offs` from `(x, y)` that lie within
/// `0..pw` × `0..ph`.
pub open spec fn offset_pixels(x: int, y: int, offs: Seq<(int, int)>, n: int, pw: int, ph: int) -> spec_fn(
    int,
    int,
) -> bool {
    |px: int, py: int|
        0 <= px < pw && 0 <= py < ph && exists|k: int|
            0 <= k < n && px == x + (#[trigger] offs[k]).0 && py == y + offs[k].1
}

/// The sub-pixels of the marker `symbol` centered at `(x, y)`.
pub open spec fn marker_pixels(x: int, y: int, symbol: PointSymbol) -> spec_fn(int, int) -> bool {
    |px: int, py: int|
        exists|k: int|
            0 <= k < marker_offsets(symbol).len() && px == x + (#[trigger] marker_offsets(symbol)[k]).0
                && py == y + marker_offsets(symbol)[k].1
}

fn marker_offsets_exec(symbol: PointSymbol) -> (offs: Vec<(i32, i32)>)
    ensures
        int_offsets(offs@) == marker_offsets(symbol),
        forall|k: int| 0 <= k < offs@.len() ==> -1 <= #[trigger] offs@[k].0 <= 1 && -1 <= offs@[k].1 <= 1,
{
    let offs = match symbol {
        PointSymbol::Dot => vec![(0i32, 0i32)],
        PointSymbol::Cross => vec![(0i32, 0i32), (-1, 0), (1, 0), (0, -1), (0, 1)],
        PointSymbol::Circle => vec![(-1i32, -1i32), (0, -1), (1, -1), (-1, 0), (1, 0), (-1, 1), (0, 1), (1, 1)],
        PointSymbol::Diamond => vec![(0i32, -1i32), (-1, 0), (1, 0), (0, 1)],
        PointSymbol::Triangle => vec![(0i32, -1i32), (-1, 1), (0, 1), (1, 1)],
        PointSymbol::Square => vec![(-1i32, -1i32), (0, -1), (1, -1), (-1, 0), (1, 0), (-1, 1), (0, 1), (1, 1)],
    };
    assert(int_offsets(offs@) =~= marker_offsets(symbol));
    offs
}

/// Draws the point marker `symbol` centered at sub-pixel `(x, y)`; the parts that
/// fall off the canvas are dropped.
pub fn draw_marker(canvas: &mut BrailleCanvas, x: i32, y: i32, color: TermColor, symbol: PointSymbol)
    requires
        old(canvas)@.wf(),
        old(canvas)@.pw() <= i32::MAX,
        old(canvas)@.ph() <= i32::MAX,
        symbol != PointSymbol::Dot ==> i32::MIN < x < i32::MAX && i32::MIN < y < i32::MAX,
    ensures
        final(canvas)@.wf(),
        painted(old(canvas)@, final(canvas)@, marker_pixels(x as int, y as int, symbol), color),
{
    let ghost v0 = canvas@;
    let pw = canvas.pixel_width() as i32;
    let ph = canvas.pixel_height() as i32;
    let offs = marker_offsets_exec(symbol);
    let ghost o = int_offsets(offs@);
    proof {
        lemma_painted_empty(v0, offset_pixels(x as int, y as int, o, 0, pw as int, ph as int), color);
    }
    let mut i: usize = 0;
    while i < offs.len()
        invariant
            v0.wf(),
            canvas@.wf(),
            canvas@.cw == v0.cw,
            canvas@.ch == v0.ch,
            o == int_offsets(offs@),
            o == marker_offsets(symbol),
            forall|k: int| 0 <= k < offs@.len() ==> -1 <= #[trigger] offs@[k].0 <= 1 && -1 <= offs@[k].1 <= 1,
            i <= o.len(),
            pw == v0.pw(),
            ph == v0.ph(),
            symbol != PointSymbol::Dot ==> i32::MIN < x < i32::MAX && i32::MIN < y < i32::MAX,
            painted(v0, canvas@, offset_pixels(x as int, y as int, o, i as int, pw as int, ph as int), color),
        decreases o.len() - i,
    {
        let ghost before = canvas@;
        let (dx, dy) = offs[i];
        assert(-1 <= offs@[i as int].0 <= 1 && -1 <= offs@[i as int].1 <= 1);
        assert(o[i as int] == (offs@[i as int].0 as int, offs@[i as int].1 as int));
        set_if_valid(canvas, x + dx, y + dy, pw, ph, color);
        proof {
            let s0 = offset_pixels(x as int, y as int, o, i as int, pw as int, ph as int);
            let s1 = offset_pixels(x as int, y as int, o, i + 1, pw as int, ph as int);
            let sp = clipped_pixel(x + dx, y + dy, pw as int, ph as int);
            assert forall|px: int, py: int| #[trigger] s1(px, py) == (s0(px, py) || sp(px, py)) by {
                if s1(px, py) {
                    let w = choose|w: int| 0 <= w < i + 1 && px == x + (#[trigger] o[w]).0 && py == y + o[w].1;
                    if w < i {
                        assert(s0(px, py));
                    }
                }
                if s0(px, py) {
                    let w = choose|w: int| 0 <= w < i && px == x + (#[trigger] o[w]).0 && py == y + o[w].1;
                    assert(s1(px, py));
                }
                if sp(px, py) {
                    assert(o[i as int] == (offs@[i as int].0 as int, offs@[i as int].1 as int));
                    assert(s1(px, py));
                }
            }
            lemma_painted_compose(v0, before, canvas@, s0, sp, s1, color);
        }
        i += 1;
    }
    proof {
        let s = offset_pixels(x as int, y as int, o, o.len() as int, pw as int, ph as int);
        let m = marker_pixels(x as int, y as int, symbol);
        assert forall|px: int, py: int| v0.in_bounds(px, py) implies #[trigger] m(px, py) == s(px, py) by {
            if m(px, py) {
                let w = choose|w: int| 0 <= w < o.len() && px == x + (#[trigger] o[w]).0 && py == y + o[w].1;
                assert(s(px, py));
            }
            if s(px, py) {
                let w = choose|w: int| 0 <= w < o.len() && px == x + (#[trigger] o[w]).0 && py == y + o[w].1;
                assert(m(px, py));
            }
        }
        lemma_painted_clip(v0, canvas@, s, m, color);
    }
}

} // verus!

verus! {

/// The smaller of two integers.
pub open spec fn imin(a: int, b: int) -> int {
    if a <= b { a } else { b }
}

/// The larger of two integers.
pub open spec fn imax(a: int, b: int) -> int {
    if a >= b { a } else { b }
}

/// Fills the on-canvas part of the box with columns `x_left..=x_right` and rows
/// `y_top..=y_bottom` (one bar of a bar chart).
pub fn fill_box(canvas: &mut BrailleCanvas, x_left: usize, x_right: usize, y_top: usize, y_bottom: usize, color: TermColor)
    requires
        old(canvas)@.wf(),
    ensures
        final(canvas)@.wf(),
        painted(
            old(canvas)@,
            final(canvas)@,
            rect(x_left as int, x_right as int, y_top as int, y_bottom as int),
            color,
        ),
{
    paint_rect(canvas, x_left as i128, x_right as i128, y_top as i128, y_bottom as i128, color);
}

/// The pixels a fill-between column sets: rows `y_top..=y_bottom` of column `ix`, when
/// the column lies on a canvas `pw` sub-pixels wide.
pub open spec fn column_pixels(ix: int, y_top: int, y_bottom: int, pw: int) -> spec_fn(int, int) -> bool {
    |px: int, py: int| 0 <= ix < pw && rect(ix, ix, y_top, y_bottom)(px, py)
}

/// Fills rows `y_top..=y_bottom` of sub-pixel column `ix` (one column of the area
/// between two curves); a column off the canvas draws nothing.
pub fn fill_column(canvas: &mut BrailleCanvas, ix: i32, y_top: usize, y_bottom: usize, color: TermColor)
    requires
        old(canvas)@.wf(),
    ensures
        final(canvas)@.wf(),
        painted(
            old(canvas)@,
            final(canvas)@,
            column_pixels(ix as int, y_top as int, y_bottom as int, old(canvas)@.pw()),
            color,
        ),
{
    let ghost v0 = canvas@;
    let pw = canvas.pixel_width();
    if ix < 0 || ix as i128 >= pw as i128 {
        proof {
            lemma_painted_empty(v0, column_pixels(ix as int, y_top as int, y_bottom as int, v0.pw()), color);
        }
        return;
    }
    paint_rect(canvas, ix as i128, ix as i128, y_top as i128, y_bottom as i128, color);
    proof {
        lemma_painted_equiv(
            v0,
            canvas@,
            rect(ix as int, ix as int, y_top as int, y_bottom as int),
            column_pixels(ix as int, y_top as int, y_bottom as int, v0.pw()),
            color,
        );
    }
}

/// Half the cap width, rounded toward zero.
pub open spec fn half_cap(cap_width: int) -> int {
    if cap_width >= 0 { cap_width / 2 } else { -((-cap_width) / 2) }
}

/// The pixels of a vertical error bar at column `ix` between rows `a` and `b` (in
/// either order), with horizontal caps of half-width `half_cap(cap_width)` at both
/// ends; nothing when the column is off a canvas `pw` sub-pixels wide.
pub open spec fn y_error_bar_pixels(ix: int, a: int, b: int, cap_width: int, pw: int) -> spec_fn(
    int,
    int,
) -> bool {
    let top = imin(a, b);
    let bottom = imax(a, b);
    let hc = half_cap(cap_width);
    |px: int, py: int|
        0 <= ix < pw && (rect(ix, ix, top, bottom)(px, py) || rect(ix - hc, ix + hc, top, top)(px, py)
            || rect(ix - hc, ix + hc, bottom, bottom)(px, py))
}

/// The pixels of a horizontal error bar on row `iy` between columns `a` and `b` (in
/// either order), with vertical caps of half-height `half_cap(cap_width)` at both
/// ends; nothing when the row is off a canvas `ph` sub-pixels tall.
pub open spec fn x_error_bar_pixels(iy: int, a: int, b: int, cap_width: int, ph: int) -> spec_fn(
    int,
    int,
) -> bool {
    let left = imin(a, b);
    let right = imax(a, b);
    let hc = half_cap(cap_width);
    |px: int, py: int|
        0 <= iy < ph && (rect(left, right, iy, iy)(px, py) || rect(left, left, iy - hc, iy + hc)(px, py)
            || rect(right, right, iy - hc, iy + hc)(px, py))
}

fn half_cap_exec(cap_width: i32) -> (h: i128)
    ensures
        h == half_cap(cap_width as int),
{
    if cap_width >= 0 {
        (cap_width / 2) as i128
    } else {
        let m: i128 = -(cap_width as i128);
        -(m / 2)
    }
}

/// Draws one vertical error bar: column `ix` from row `min(a, b)` to row `max(a, b)`,
/// and caps `cap_width / 2` sub-pixels to each side at both ends.
pub fn draw_y_error_bar(canvas: &mut BrailleCanvas, ix: i32, a: i32, b: i32, cap_width: i32, color: TermColor)
    requires
        old(canvas)@.wf(),
    ensures
        final(canvas)@.wf(),
        painted(
            old(canvas)@,
            final(canvas)@,
            y_error_bar_pixels(ix as int, a as int, b as int, cap_width as int, old(canvas)@.pw()),
            color,
        ),
{
    let ghost v0 = canvas@;
    let ghost target = y_error_bar_pixels(ix as int, a as int, b as int, cap_width as int, v0.pw());
    let pw = canvas.pixel_width();
    if ix < 0 || ix as i128 >= pw as i128 {
        proof {
            lemma_painted_empty(v0, target, color);
        }
        return;
    }
    let top: i128 = if a <= b { a as i128 } else { b as i128 };
    let bottom: i128 = if a <= b { b as i128 } else { a as i128 };
    let hc = half_cap_exec(cap_width);
    let x = ix as i128;
    proof {
        lemma_painted_empty(v0, no_pixels(), color);
    }
    paint_rect_acc(canvas, x, x, top, bottom, color, Ghost(v0), Ghost(no_pixels()));
    let ghost s1 = union(no_pixels(), rect(x as int, x as int, top as int, bottom as int));
    paint_rect_acc(canvas, x - hc, x + hc, top, top, color, Ghost(v0), Ghost(s1));
    let ghost s2 = union(s1, rect(x - hc, x + hc, top as int, top as int));
    paint_rect_acc(canvas, x - hc, x + hc, bottom, bottom, color, Ghost(v0), Ghost(s2));
    proof {
        lemma_painted_equiv(v0, canvas@, union(s2, rect(x - hc, x + hc, bottom as int, bottom as int)), target, color);
    }
}

/// Draws one horizontal error bar: row `iy` from column `min(a, b)` to column
/// `max(a, b)`, and caps `cap_width / 2` sub-pixels above and below at both ends.
pub fn draw_x_error_bar(canvas: &mut BrailleCanvas, iy: i32, a: i32, b: i32, cap_width: i32, color: TermColor)
    requires
        old(canvas)@.wf(),
    ensures
        final(canvas)@.wf(),
        painted(
            old(canvas)@,
            final(canvas)@,
            x_error_bar_pixels(iy as int, a as int, b as int, cap_width as int, old(canvas)@.ph()),
            color,
        ),
{
    let ghost v0 = canvas@;
    let ghost target = x_error_bar_pixels(iy as int, a as int, b as int, cap_width as int, v0.ph());
    let ph = canvas.pixel_height();
    if iy < 0 || iy as i128 >= ph as i128 {
        proof {
            lemma_painted_empty(v0, target, color);
        }
        return;
    }
    let left: i128 = if a <= b { a as i128 } else { b as i128 };
    let right: i128 = if a <= b { b as i128 } else { a as i128 };
    let hc = half_cap_exec(cap_width);
    let y = iy as i128;
    proof {
        lemma_painted_empty(v0, no_pixels(), color);
    }
    paint_rect_acc(canvas, left, right, y, y, color, Ghost(v0), Ghost(no_pixels()));
    let ghost s1 = union(no_pixels(), rect(left as int, right as int, y as int, y as int));
    paint_rect_acc(canvas, left, left, y - hc, y + hc, color, Ghost(v0), Ghost(s1));
    let ghost s2 = union(s1, rect(left as int, left as int, y - hc, y + hc));
    paint_rect_acc(canvas, right, right, y - hc, y + hc, color, Ghost(v0), Ghost(s2));
    proof {
        lemma_painted_equiv(v0, canvas@, union(s2, rect(right as int, right as int, y - hc, y + hc)), target, color);
    }
}

} // verus!

verus! {

/// Half-width of the whisker caps for a box of half-width `half_w`: half of it,
/// at least one sub-pixel.
pub open spec fn cap_half(half_w: int) -> int {
    imax(half_w / 2, 1)
}

/// The pixels of one box-and-whisker glyph centered on column `cx` of a canvas `pw` × `ph`
/// sub-pixels, from the rows of its minimum, first quartile, median, third quartile and
/// maximum: a whisker from the lower to the higher extreme; a box outline between the
/// quartile rows (its top and bottom rows clamped to the canvas) `half_w` to each side;
/// the median row across the box; and caps `cap_half(half_w)` to each side at both
/// extremes. Nothing when the center column is off the canvas.
pub open spec fn box_whisker_pixels(
    cx: int,
    y_min: int,
    y_q1: int,
    y_med: int,
    y_q3: int,
    y_max: int,
    half_w: int,
    pw: int,
    ph: int,
) -> spec_fn(int, int) -> bool {
    let lo = imin(y_min, y_max);
    let hi = imax(y_min, y_max);
    let bt = imax(imin(y_q1, y_q3), 0);
    let bb = imin(imax(y_q1, y_q3), ph - 1);
    let cap = cap_half(half_w);
    |px: int, py: int|
        0 <= cx < pw && (rect(cx, cx, lo, hi)(px, py) || rect(cx - half_w, cx - half_w, bt, bb)(px, py)
            || rect(cx + half_w, cx + half_w, bt, bb)(px, py) || rect(cx - half_w, cx + half_w, bt, bt)(
            px,
            py,
        ) || rect(cx - half_w, cx + half_w, bb, bb)(px, py) || rect(cx - half_w, cx + half_w, y_med, y_med)(
            px,
            py,
        ) || rect(cx - cap, cx + cap, lo, lo)(px, py) || rect(cx - cap, cx + cap, hi, hi)(px, py))
}

/// Draws one box-and-whisker glyph (see `box_whisker_pixels`) from the sub-pixel rows
/// of its five statistics, centered on column `cx`, with box half-width `half_w`.
pub fn draw_box_whisker(
    canvas: &mut BrailleCanvas,
    cx: i32,
    y_min: i32,
    y_q1: i32,
    y_med: i32,
    y_q3: i32,
    y_max: i32,
    half_w: i32,
    color: TermColor,
)
    requires
        old(canvas)@.wf(),
        half_w >= 1,
    ensures
        final(canvas)@.wf(),
        painted(
            old(canvas)@,
            final(canvas)@,
            box_whisker_pixels(
                cx as int,
                y_min as int,
                y_q1 as int,
                y_med as int,
                y_q3 as int,
                y_max as int,
                half_w as int,
                old(canvas)@.pw(),
                old(canvas)@.ph(),
            ),
            color,
        ),
{
    let ghost v0 = canvas@;
    let ghost target = box_whisker_pixels(
        cx as int,
        y_min as int,
        y_q1 as int,
        y_med as int,
        y_q3 as int,
        y_max as int,
        half_w as int,
        v0.pw(),
        v0.ph(),
    );
    let pw = canvas.pixel_width() as i128;
    let ph = canvas.pixel_height() as i128;
    if cx < 0 || cx as i128 >= pw {
        proof {
            lemma_painted_empty(v0, target, color);
        }
        return;
    }
    let x = cx as i128;
    let hw = half_w as i128;
    let cap: i128 = if half_w / 2 >= 1 { (half_w / 2) as i128 } else { 1 };
    let lo: i128 = if y_min <= y_max { y_min as i128 } else { y_max as i128 };
    let hi: i128 = if y_min <= y_max { y_max as i128 } else { y_min as i128 };
    let qlo: i128 = if y_q1 <= y_q3 { y_q1 as i128 } else { y_q3 as i128 };
    let qhi: i128 = if y_q1 <= y_q3 { y_q3 as i128 } else { y_q1 as i128 };
    let bt: i128 = if qlo >= 0 { qlo } else { 0 };
    let bb: i128 = if qhi <= ph - 1 { qhi } else { ph - 1 };
    let med = y_med as i128;
    proof {
        lemma_painted_empty(v0, no_pixels(), color);
    }
    paint_rect_acc(canvas, x, x, lo, hi, color, Ghost(v0), Ghost(no_pixels()));
    let ghost s1 = union(no_pixels(), rect(x as int, x as int, lo as int, hi as int));
    paint_rect_acc(canvas, x - hw, x - hw, bt, bb, color, Ghost(v0), Ghost(s1));
    let ghost s2 = union(s1, rect(x - hw, x - hw, bt as int, bb as int));
    paint_rect_acc(canvas, x + hw, x + hw, bt, bb, color, Ghost(v0), Ghost(s2));
    let ghost s3 = union(s2, rect(x + hw, x + hw, bt as int, bb as int));
    paint_rect_acc(canvas, x - hw, x + hw, bt, bt, color, Ghost(v0), Ghost(s3));
    let ghost s4 = union(s3, rect(x - hw, x + hw, bt as int, bt as int));
    paint_rect_acc(canvas, x - hw, x + hw, bb, bb, color, Ghost(v0), Ghost(s4));
    let ghost s5 = union(s4, rect(x - hw, x + hw, bb as int, bb as int));
    paint_rect_acc(canvas, x - hw, x + hw, med, med, color, Ghost(v0), Ghost(s5));
    let ghost s6 = union(s5, rect(x - hw, x + hw, med as int, med as int));
    paint_rect_acc(canvas, x - cap, x + cap, lo, lo, color, Ghost(v0), Ghost(s6));
    let ghost s7 = union(s6, rect(x - cap, x + cap, lo as int, lo as int));
    paint_rect_acc(canvas, x - cap, x + cap, hi, hi, color, Ghost(v0), Ghost(s7));
    proof {
        assert(cap == cap_half(half_w as int));
        lemma_painted_equiv(v0, canvas@, union(s7, rect(x - cap, x + cap, hi as int, hi as int)), target, color);
    }
}

/// Sub-pixel fill order within a 2×4 Braille cell for perceptually uniform density:
/// `(column, row)` positions, spread evenly across the cell as the count grows.
pub const DENSITY_FILL_ORDER: [(usize, usize); 8] = [
    (0, 0),
    (1, 3),
    (1, 1),
    (0, 2),
    (0, 1),
    (1, 0),
    (1, 2),
    (0, 3),
];

/// The density fill order, as a sequence.
pub open spec fn density_order() -> Seq<(usize, usize)> {
    seq![(0usize, 0usize), (1, 3), (1, 1), (0, 2), (0, 1), (1, 0), (1, 2), (0, 3)]
}

/// The sub-pixels set by filling `n` dots of cell `(cx, cy)`: the first `min(n, 8)`
/// positions of the density fill order.
pub open spec fn density_pixels(cx: int, cy: int, n: int) -> spec_fn(int, int) -> bool {
    |px: int, py: int|
        exists|k: int|
            0 <= k < imin(n, 8) && px == 2 * cx + (#[trigger] density_order()[k]).0 && py == 4 * cy
                + density_order()[k].1
}

/// Fills `n` dots (at most 8) of character cell `(char_x, char_y)` following the
/// density fill order.
pub fn fill_cell_density(canvas: &mut BrailleCanvas, char_x: usize, char_y: usize, n: usize, color: TermColor)
    requires
        old(canvas)@.wf(),
        char_x * 2 + 1 <= usize::MAX,
        char_y * 4 + 3 <= usize::MAX,
    ensures
        final(canvas)@.wf(),
        painted(old(canvas)@, final(canvas)@, density_pixels(char_x as int, char_y as int, n as int), color),
{
    let ghost v0 = canvas@;
    let ghost d = density_order();
    assert(DENSITY_FILL_ORDER@ =~= d);
    let count: usize = if n < 8 { n } else { 8 };
    let base_px = char_x * 2;
    let base_py = char_y * 4;
    let ghost upto = |m: int| |px: int, py: int|
        exists|k: int| 0 <= k < m && px == base_px + (#[trigger] d[k]).0 && py == base_py + d[k].1;
    proof {
        lemma_painted_empty(v0, upto(0), color);
    }
    let mut i: usize = 0;
    while i < count
        invariant
            v0.wf(),
            canvas@.wf(),
            i <= count <= 8,
            d == density_order(),
            DENSITY_FILL_ORDER@ == d,
            base_px == char_x * 2,
            base_py == char_y * 4,
            char_x * 2 + 1 <= usize::MAX,
            char_y * 4 + 3 <= usize::MAX,
            upto == (|m: int| |px: int, py: int|
                exists|k: int| 0 <= k < m && px == base_px + (#[trigger] d[k]).0 && py == base_py + d[k].1),
            painted(v0, canvas@, upto(i as int), color),
        decreases count - i,
    {
        let ghost before = canvas@;
        let (col, row) = DENSITY_FILL_ORDER[i];
        assert(col < 2 && row < 4);
        canvas.set_pixel(base_px + col, base_py + row, color);
        proof {
            let s0 = upto(i as int);
            let s1 = upto(i + 1);
            let sp = single_pixel(base_px + col, base_py + row);
            assert forall|px: int, py: int| #[trigger] s1(px, py) == (s0(px, py) || sp(px, py)) by {
                if s1(px, py) {
                    let w = choose|w: int| 0 <= w < i + 1 && px == base_px + (#[trigger] d[w]).0 && py == base_py + d[w].1;
                    if w < i {
                        assert(s0(px, py));
                    }
                }
                if s0(px, py) {
                    let w = choose|w: int| 0 <= w < i && px == base_px + (#[trigger] d[w]).0 && py == base_py + d[w].1;
                    assert(s1(px, py));
                }
                if sp(px, py) {
                    assert(d[i as int] == (col, row));
                    assert(s1(px, py));
                }
            }
            lemma_painted_compose(v0, before, canvas@, s0, sp, s1, color);
        }
        i += 1;
    }
    proof {
        let t = density_pixels(char_x as int, char_y as int, n as int);
        assert forall|px: int, py: int| #[trigger] t(px, py) == upto(count as int)(px, py) by {
            if t(px, py) {
                let w = choose|w: int|
                    0 <= w < imin(n as int, 8) && px == 2 * char_x + (#[trigger] density_order()[w]).0 && py == 4
                        * char_y + density_order()[w].1;
                assert(upto(count as int)(px, py));
            }
            if upto(count as int)(px, py) {
                let w = choose|w: int| 0 <= w < count && px == base_px + (#[trigger] d[w]).0 && py == base_py + d[w].1;
                assert(t(px, py));
            }
        }
        lemma_painted_equiv(v0, canvas@, upto(count as int), t, color);
    }
}

/// The eight positions of the density fill order are distinct cells of the 2×4 grid,
/// so filling all eight lights the whole cell.
pub proof fn law_density_order_covers_cell(cx: int, cy: int, px: int, py: int)
    requires
        2 * cx <= px < 2 * cx + 2,
        4 * cy <= py < 4 * cy + 4,
    ensures
        forall|i: int, j: int| 0 <= i < j < 8 ==> density_order()[i] != density_order()[j],
        forall|k: int| 0 <= k < 8 ==> (#[trigger] density_order()[k]).0 < 2 && density_order()[k].1 < 4,
        density_pixels(cx, cy, 8)(px, py),
{
    let d = density_order();
    let k: int = if px - 2 * cx == 0 {
        if py - 4 * cy == 0 { 0 } else if py - 4 * cy == 1 { 4 } else if py - 4 * cy == 2 { 3 } else { 7 }
    } else {
        if py - 4 * cy == 0 { 5 } else if py - 4 * cy == 1 { 2 } else if py - 4 * cy == 2 { 6 } else { 1 }
    };
    assert(px == 2 * cx + d[k].0 && py == 4 * cy + d[k].1);
}

} // verus!

verus! {

/// Standard 8×8 Bayer ordered dither matrix (values 0–63).
pub const BAYER_8X8: [[u8; 8]; 8] = [
    [0, 32, 8, 40, 2, 34, 10, 42],
    [48, 16, 56, 24, 50, 18, 58, 26],
    [12, 44, 4, 36, 14, 46, 6, 38],
    [60, 28, 52, 20, 62, 30, 54, 22],
    [3, 35, 11, 43, 1, 33, 9, 41],
    [51, 19, 59, 27, 49, 17, 57, 25],
    [15, 47, 7, 39, 13, 45, 5, 37],
    [63, 31, 55, 23, 61, 29, 53, 21],
];

/// The Bayer threshold rank of global sub-pixel `(x, y)`: the matrix entry at row
/// `y mod 8`, column `x mod 8`.
pub open spec fn bayer_rank(x: int, y: int) -> int {
    BAYER_8X8@[y % 8]@[x % 8] as int
}

/// The sub-pixels of cell `(cx, cy)` whose Bayer rank is below `level`.
pub open spec fn dither_pixels(cx: int, cy: int, level: int) -> spec_fn(int, int) -> bool {
    |px: int, py: int| rect(2 * cx, 2 * cx + 1, 4 * cy, 4 * cy + 3)(px, py) && bayer_rank(px, py) < level
}

/// Fills the sub-pixels of character cell `(char_x, char_y)` by ordered dithering: a
/// sub-pixel is set when its Bayer rank is below `level` (0 fills nothing, 64 fills
/// everything, and each level in between adds the positions of one more rank).
pub fn fill_cell_dithered(canvas: &mut BrailleCanvas, char_x: usize, char_y: usize, level: u32, color: TermColor)
    requires
        old(canvas)@.wf(),
        char_x * 2 + 1 <= usize::MAX,
        char_y * 4 + 3 <= usize::MAX,
    ensures
        final(canvas)@.wf(),
        painted(old(canvas)@, final(canvas)@, dither_pixels(char_x as int, char_y as int, level as int), color),
{
    let ghost v0 = canvas@;
    let ghost gx0 = char_x * 2;
    let ghost gy0 = char_y * 4;
    let ghost done = |r: int, c: int| |px: int, py: int|
        ((gy0 <= py < gy0 + r && gx0 <= px < gx0 + 2) || (py == gy0 + r && gx0 <= px < gx0 + c))
            && bayer_rank(px, py) < level;
    proof {
        lemma_painted_empty(v0, done(0, 0), color);
    }
    let mut row: usize = 0;
    while row < 4
        invariant
            v0.wf(),
            canvas@.wf(),
            row <= 4,
            gx0 == char_x * 2,
            gy0 == char_y * 4,
            char_x * 2 + 1 <= usize::MAX,
            char_y * 4 + 3 <= usize::MAX,
            done == (|r: int, c: int| |px: int, py: int|
                ((gy0 <= py < gy0 + r && gx0 <= px < gx0 + 2) || (py == gy0 + r && gx0 <= px < gx0 + c))
                    && bayer_rank(px, py) < level),
            painted(v0, canvas@, done(row as int, 0), color),
        decreases 4 - row,
    {
        let mut col: usize = 0;
        while col < 2
            invariant
                v0.wf(),
                canvas@.wf(),
                row < 4,
                col <= 2,
                gx0 == char_x * 2,
                gy0 == char_y * 4,
                char_x * 2 + 1 <= usize::MAX,
                char_y * 4 + 3 <= usize::MAX,
                done == (|r: int, c: int| |px: int, py: int|
                    ((gy0 <= py < gy0 + r && gx0 <= px < gx0 + 2) || (py == gy0 + r && gx0 <= px < gx0 + c))
                        && bayer_rank(px, py) < level),
                painted(v0, canvas@, done(row as int, col as int), color),
            decreases 2 - col,
        {
            let gx = char_x * 2 + col;
            let gy = char_y * 4 + row;
            let ghost before = canvas@;
            let rank = BAYER_8X8[gy % 8][gx % 8];
            if (rank as u32) < level {
                canvas.set_pixel(gx, gy, color);
                proof {
                    lemma_painted_compose(
                        v0,
                        before,
                        canvas@,
                        done(row as int, col as int),
                        single_pixel(gx as int, gy as int),
                        done(row as int, col + 1),
                        color,
                    );
                }
            } else {
                proof {
                    lemma_painted_equiv(v0, canvas@, done(row as int, col as int), done(row as int, col + 1), color);
                }
            }
            col += 1;
        }
        proof {
            lemma_painted_equiv(v0, canvas@, done(row as int, 2), done(row + 1, 0), color);
        }
        row += 1;
    }
    proof {
        lemma_painted_equiv(
            v0,
            canvas@,
            done(4, 0),
            dither_pixels(char_x as int, char_y as int, level as int),
            color,
        );
    }
}

} // verus!

verus! {

/// The pixels of a dashed vertical grid line at column `ix` of a canvas `pw` × `ph`
/// sub-pixels: the rows whose step (the row number) is on in the pattern `segs`;
/// nothing when the column is off the canvas.
pub open spec fn grid_column_pixels(ix: int, pw: int, ph: int, segs: Seq<usize>) -> spec_fn(int, int) -> bool {
    |px: int, py: int| 0 <= ix < pw && px == ix && 0 <= py < ph && pattern_on(segs, py)
}

/// The pixels of a dashed horizontal grid line at row `iy`: the columns whose step
/// (the column number) is on in `segs`; nothing when the row is off the canvas.
pub open spec fn grid_row_pixels(iy: int, pw: int, ph: int, segs: Seq<usize>) -> spec_fn(int, int) -> bool {
    |px: int, py: int| 0 <= iy < ph && py == iy && 0 <= px < pw && pattern_on(segs, px)
}

/// Draws a dashed vertical grid line across the canvas at sub-pixel column `ix`.
pub fn draw_grid_column(canvas: &mut BrailleCanvas, ix: i32, color: TermColor, dash: &DashPattern)
    requires
        old(canvas)@.wf(),
        pattern_valid(dash.segments@),
    ensures
        final(canvas)@.wf(),
        painted(
            old(canvas)@,
            final(canvas)@,
            grid_column_pixels(ix as int, old(canvas)@.pw(), old(canvas)@.ph(), dash.segments@),
            color,
        ),
{
    let ghost v0 = canvas@;
    let ghost segs = dash.segments@;
    let ghost target = grid_column_pixels(ix as int, v0.pw(), v0.ph(), segs);
    let pw = canvas.pixel_width();
    let ph = canvas.pixel_height();
    if ix < 0 || ix as i128 >= pw as i128 {
        proof {
            lemma_painted_empty(v0, target, color);
        }
        return;
    }
    let x = ix as usize;
    let ghost upto = |m: int| |px: int, py: int| px == x && 0 <= py < m && pattern_on(segs, py);
    proof {
        lemma_painted_empty(v0, upto(0), color);
    }
    let mut y: usize = 0;
    while y < ph
        invariant
            v0.wf(),
            canvas@.wf(),
            canvas@.cw == v0.cw,
            canvas@.ch == v0.ch,
            y <= ph,
            ph == v0.ph(),
            segs == dash.segments@,
            pattern_valid(segs),
            upto == (|m: int| |px: int, py: int| px == x && 0 <= py < m && pattern_on(segs, py)),
            painted(v0, canvas@, upto(y as int), color),
        decreases ph - y,
    {
        let ghost before = canvas@;
        if dash.is_on(y) {
            canvas.set_pixel(x, y, color);
            proof {
                lemma_painted_compose(v0, before, canvas@, upto(y as int), single_pixel(x as int, y as int), upto(y + 1), color);
            }
        } else {
            proof {
                lemma_painted_equiv(v0, canvas@, upto(y as int), upto(y + 1), color);
            }
        }
        y += 1;
    }
    proof {
        lemma_painted_equiv(v0, canvas@, upto(ph as int), target, color);
    }
}

/// Draws a dashed horizontal grid line across the canvas at sub-pixel row `iy`.
pub fn draw_grid_row(canvas: &mut BrailleCanvas, iy: i32, color: TermColor, dash: &DashPattern)
    requires
        old(canvas)@.wf(),
        pattern_valid(dash.segments@),
    ensures
        final(canvas)@.wf(),
        painted(
            old(canvas)@,
            final(canvas)@,
            grid_row_pixels(iy as int, old(canvas)@.pw(), old(canvas)@.ph(), dash.segments@),
            color,
        ),
{
    let ghost v0 = canvas@;
    let ghost segs = dash.segments@;
    let ghost target = grid_row_pixels(iy as int, v0.pw(), v0.ph(), segs);
    let pw = canvas.pixel_width();
    let ph = canvas.pixel_height();
    if iy < 0 || iy as i128 >= ph as i128 {
        proof {
            lemma_painted_empty(v0, target, color);
        }
        return;
    }
    let y = iy as usize;
    let ghost upto = |m: int| |px: int, py: int| py == y && 0 <= px < m && pattern_on(segs, px);
    proof {
        lemma_painted_empty(v0, upto(0), color);
    }
    let mut x: usize = 0;
    while x < pw
        invariant
            v0.wf(),
            canvas@.wf(),
            canvas@.cw == v0.cw,
            canvas@.ch == v0.ch,
            x <= pw,
            pw == v0.pw(),
            segs == dash.segments@,
            pattern_valid(segs),
            upto == (|m: int| |px: int, py: int| py == y && 0 <= px < m && pattern_on(segs, px)),
            painted(v0, canvas@, upto(x as int), color),
        decreases pw - x,
    {
        let ghost before = canvas@;
        if dash.is_on(x) {
            canvas.set_pixel(x, y, color);
            proof {
                lemma_painted_compose(v0, before, canvas@, upto(x as int), single_pixel(x as int, y as int), upto(x + 1), color);
            }
        } else {
            proof {
                lemma_painted_equiv(v0, canvas@, upto(x as int), upto(x + 1), color);
            }
        }
        x += 1;
    }
    proof {
        lemma_painted_equiv(v0, canvas@, upto(pw as int), target, color);
    }
}

} // verus!

verus! {

/// Every Bayer rank lies in `0..64`.
proof fn lemma_bayer_ranks_below_64(r: int, c: int)
    requires
        0 <= r < 8,
        0 <= c < 8,
    ensures
        BAYER_8X8@[r]@[c] < 64,
{
    let m = BAYER_8X8@;
    assert(m[0]@ =~= seq![0u8, 32, 8, 40, 2, 34, 10, 42]);
    assert(m[1]@ =~= seq![48u8, 16, 56, 24, 50, 18, 58, 26]);
    assert(m[2]@ =~= seq![12u8, 44, 4, 36, 14, 46, 6, 38]);
    assert(m[3]@ =~= seq![60u8, 28, 52, 20, 62, 30, 54, 22]);
    assert(m[4]@ =~= seq![3u8, 35, 11, 43, 1, 33, 9, 41]);
    assert(m[5]@ =~= seq![51u8, 19, 59, 27, 49, 17, 57, 25]);
    assert(m[6]@ =~= seq![15u8, 47, 7, 39, 13, 45, 5, 37]);
    assert(m[7]@ =~= seq![63u8, 31, 55, 23, 61, 29, 53, 21]);
}

/// The Bayer matrix read row by row.
spec fn bayer_flat() -> Seq<int> {
    seq![
        0, 32, 8, 40, 2, 34, 10, 42,
        48, 16, 56, 24, 50, 18, 58, 26,
        12, 44, 4, 36, 14, 46, 6, 38,
        60, 28, 52, 20, 62, 30, 54, 22,
        3, 35, 11, 43, 1, 33, 9, 41,
        51, 19, 59, 27, 49, 17, 57, 25,
        15, 47, 7, 39, 13, 45, 5, 37,
        63, 31, 55, 23, 61, 29, 53, 21,
    ]
}

/// For each rank, the row-major position in the Bayer matrix that holds it.
spec fn bayer_position_of_rank() -> Seq<int> {
    seq![
        0, 36, 4, 32, 18, 54, 22, 50,
        2, 38, 6, 34, 16, 52, 20, 48,
        9, 45, 13, 41, 27, 63, 31, 59,
        11, 47, 15, 43, 25, 61, 29, 57,
        1, 37, 5, 33, 19, 55, 23, 51,
        3, 39, 7, 35, 17, 53, 21, 49,
        8, 44, 12, 40, 26, 62, 30, 58,
        10, 46, 14, 42, 24, 60, 28, 56,
    ]
}

/// The matrix entry at `(r, c)` is entry `8 r + c` of the matrix read row by row.
proof fn lemma_bayer_flat(r: int, c: int)
    requires
        0 <= r < 8,
        0 <= c < 8,
    ensures
        BAYER_8X8@[r]@[c] == bayer_flat()[r * 8 + c],
{
    let m = BAYER_8X8@;
    let f = bayer_flat();
    assert(m[0]@ =~= seq![0u8, 32, 8, 40, 2, 34, 10, 42]);
    assert(m[1]@ =~= seq![48u8, 16, 56, 24, 50, 18, 58, 26]);
    assert(m[2]@ =~= seq![12u8, 44, 4, 36, 14, 46, 6, 38]);
    assert(m[3]@ =~= seq![60u8, 28, 52, 20, 62, 30, 54, 22]);
    assert(m[4]@ =~= seq![3u8, 35, 11, 43, 1, 33, 9, 41]);
    assert(m[5]@ =~= seq![51u8, 19, 59, 27, 49, 17, 57, 25]);
    assert(m[6]@ =~= seq![15u8, 47, 7, 39, 13, 45, 5, 37]);
    assert(m[7]@ =~= seq![63u8, 31, 55, 23, 61, 29, 53, 21]);
    assert(f[r * 8 + c] == f.subrange(r * 8, r * 8 + 8)[c]);
}

/// The first `n` positions of the matrix hold ranks whose recorded position is their own.
spec fn ranks_round_trip(n: nat) -> bool
    decreases n,
{
    n == 0 || ({
        let i = n - 1;
        &&& 0 <= bayer_flat()[i] < 64
        &&& bayer_position_of_rank()[bayer_flat()[i]] == i
        &&& ranks_round_trip((n - 1) as nat)
    })
}

/// The first `n` ranks are recorded at positions holding them.
spec fn positions_round_trip(n: nat) -> bool
    decreases n,
{
    n == 0 || ({
        let w = n - 1;
        &&& 0 <= bayer_position_of_rank()[w] < 64
        &&& bayer_flat()[bayer_position_of_rank()[w]] == w
        &&& positions_round_trip((n - 1) as nat)
    })
}

proof fn lemma_round_trips_unfold(n: nat, i: int)
    requires
        0 <= i < n,
        ranks_round_trip(n),
        positions_round_trip(n),
    ensures
        0 <= bayer_flat()[i] < 64,
        bayer_position_of_rank()[bayer_flat()[i]] == i,
        0 <= bayer_position_of_rank()[i] < 64,
        bayer_flat()[bayer_position_of_rank()[i]] == i,
    decreases n,
{
    if i < n - 1 {
        lemma_round_trips_unfold((n - 1) as nat, i);
    }
}

/// Every rank in `0..64` sits at exactly one position of the 8×8 Bayer matrix: equal
/// ranks of two sub-pixels mean equal positions within the tile, and each rank occurs.
pub proof fn law_bayer_ranks_are_a_permutation(x1: int, y1: int, x2: int, y2: int, v: int)
    ensures
        bayer_rank(x1, y1) == bayer_rank(x2, y2) ==> x1 % 8 == x2 % 8 && y1 % 8 == y2 % 8,
        0 <= v < 64 ==> exists|x: int, y: int| 0 <= x < 8 && 0 <= y < 8 && #[trigger] bayer_rank(x, y) == v,
{
    let f = bayer_flat();
    let p = bayer_position_of_rank();
    assert(ranks_round_trip(64)) by {
        reveal_with_fuel(ranks_round_trip, 65);
    }
    assert(positions_round_trip(64)) by {
        reveal_with_fuel(positions_round_trip, 65);
    }
    lemma_bayer_flat(y1 % 8, x1 % 8);
    lemma_bayer_flat(y2 % 8, x2 % 8);
    let i1 = (y1 % 8) * 8 + x1 % 8;
    let i2 = (y2 % 8) * 8 + x2 % 8;
    lemma_round_trips_unfold(64, i1);
    lemma_round_trips_unfold(64, i2);
    if 0 <= v < 64 {
        lemma_round_trips_unfold(64, v);
        let x = p[v] % 8;
        let y = p[v] / 8;
        lemma_bayer_flat(y, x);
        assert(bayer_rank(x, y) == v);
    }
}

/// Dithering at level 0 sets nothing and at level 64 sets the whole cell.
pub proof fn law_dither_extremes(cx: int, cy: int, px: int, py: int)
    requires
        cx >= 0,
        cy >= 0,
    ensures
        !dither_pixels(cx, cy, 0)(px, py),
        rect(2 * cx, 2 * cx + 1, 4 * cy, 4 * cy + 3)(px, py) ==> dither_pixels(cx, cy, 64)(px, py),
{
    if rect(2 * cx, 2 * cx + 1, 4 * cy, 4 * cy + 3)(px, py) {
        lemma_bayer_ranks_below_64(py % 8, px % 8);
    }
}

/// Raising the dither level only adds sub-pixels.
pub proof fn law_dither_monotone(cx: int, cy: int, l1: int, l2: int, px: int, py: int)
    requires
        l1 <= l2,
    ensures
        dither_pixels(cx, cy, l1)(px, py) ==> dither_pixels(cx, cy, l2)(px, py),
{
}

} // verus!
