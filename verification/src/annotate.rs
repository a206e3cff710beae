//! Annotations on the text grid: snapping a position into the canvas area, and
//! arrows drawn with line characters.

use vstd::prelude::*;

use crate::color::TermColor;
use crate::frame::sat_sub;
use crate::layout::Layout;
use crate::text::{apply_puts, lemma_apply_puts_append, lemma_apply_puts_push, Put, TextGrid};

verus! {

/// The smaller of two integers.
pub open spec fn min_of(a: int, b: int) -> int {
    if a <= b { a } else { b }
}

/// The grid position of canvas cell `(char_col, char_row)`, clamped to the last column
/// and row of the canvas.
pub fn cell_in_canvas(layout: &Layout, char_col: usize, char_row: usize) -> (p: (usize, usize))
    requires
        layout.canvas_col + layout.canvas_char_width <= usize::MAX,
        layout.canvas_row + layout.canvas_char_height <= usize::MAX,
    ensures
        p.0 == layout.canvas_col + min_of(char_col as int, sat_sub(layout.canvas_char_width as int, 1)),
        p.1 == layout.canvas_row + min_of(char_row as int, sat_sub(layout.canvas_char_height as int, 1)),
{
    let last_col = if layout.canvas_char_width >= 1 { layout.canvas_char_width - 1 } else { 0 };
    let last_row = if layout.canvas_char_height >= 1 { layout.canvas_char_height - 1 } else { 0 };
    let c = if char_col <= last_col { char_col } else { last_col };
    let r = if char_row <= last_row { char_row } else { last_row };
    (layout.canvas_col + c, layout.canvas_row + r)
}

/// The placements of an arrow from `(fc, fr)` to `(tc, tr)`: a horizontal one is a run
/// of `'─'` over its columns, a vertical one a run of `'│'` over its rows, each ended by
/// an arrowhead at the target when `head` is set (pointing right or down when the target
/// lies past the start, else left or up); a diagonal arrow draws nothing.
pub open spec fn arrow_puts(fc: int, fr: int, tc: int, tr: int, color: TermColor, head: bool) -> Seq<Put> {
    if fr == tr {
        let left = min_of(fc, tc);
        let right = if fc <= tc { tc } else { fc };
        Seq::new((right - left + 1) as nat, |i: int| (left + i, fr, '─', color)) + (if head {
            seq![(tc, tr, if tc > fc { '→' } else { '←' }, color)]
        } else {
            seq![]
        })
    } else if fc == tc {
        let top = min_of(fr, tr);
        let bottom = if fr <= tr { tr } else { fr };
        Seq::new((bottom - top + 1) as nat, |i: int| (fc, top + i, '│', color)) + (if head {
            seq![(tc, tr, if tr > fr { '↓' } else { '↑' }, color)]
        } else {
            seq![]
        })
    } else {
        seq![]
    }
}

fn put_one(grid: &mut TextGrid, col: usize, row: usize, ch: char, color: TermColor)
    requires
        old(grid)@.wf(),
    ensures
        final(grid)@.wf(),
        final(grid)@ == apply_puts(old(grid)@, seq![(col as int, row as int, ch, color)]),
{
    let ghost v = grid@;
    grid.put_char(col, row, ch, color);
    proof {
        lemma_apply_puts_push(v, seq![], (col as int, row as int, ch, color));
        assert(Seq::<Put>::empty() + seq![(col as int, row as int, ch, color)] =~= seq![(col as int, row as int, ch, color)]);
    }
}

/// Draws `ch` at every column from `left` to `right` (both included) on `row`.
fn run_across(grid: &mut TextGrid, left: usize, right: usize, row: usize, ch: char, color: TermColor)
    requires
        old(grid)@.wf(),
        left <= right,
    ensures
        final(grid)@.wf(),
        final(grid)@ == apply_puts(
            old(grid)@,
            Seq::new((right - left + 1) as nat, |i: int| (left + i, row as int, ch, color)),
        ),
{
    let ghost g0 = grid@;
    let mut c = left;
    assert(apply_puts(g0, Seq::new(0, |i: int| (left + i, row as int, ch, color))) == g0);
    loop
        invariant_except_break
            grid@.wf(),
            left <= c <= right,
            grid@ == apply_puts(g0, Seq::new((c - left) as nat, |i: int| (left + i, row as int, ch, color))),
        ensures
            grid@.wf(),
            grid@ == apply_puts(g0, Seq::new((right - left + 1) as nat, |i: int| (left + i, row as int, ch, color))),
        decreases right - c,
    {
        let ghost done = Seq::new((c - left) as nat, |i: int| (left + i, row as int, ch, color));
        put_one(grid, c, row, ch, color);
        proof {
            lemma_apply_puts_append(g0, done, seq![(c as int, row as int, ch, color)]);
            assert(done + seq![(c as int, row as int, ch, color)] =~= Seq::new(
                (c - left + 1) as nat,
                |i: int| (left + i, row as int, ch, color),
            ));
        }
        if c == right {
            break;
        }
        c += 1;
    }
}

/// Draws `ch` at every row from `top` to `bottom` (both included) in column `col`.
fn run_down(grid: &mut TextGrid, col: usize, top: usize, bottom: usize, ch: char, color: TermColor)
    requires
        old(grid)@.wf(),
        top <= bottom,
    ensures
        final(grid)@.wf(),
        final(grid)@ == apply_puts(
            old(grid)@,
            Seq::new((bottom - top + 1) as nat, |i: int| (col as int, top + i, ch, color)),
        ),
{
    let ghost g0 = grid@;
    let mut r = top;
    assert(apply_puts(g0, Seq::new(0, |i: int| (col as int, top + i, ch, color))) == g0);
    loop
        invariant_except_break
            grid@.wf(),
            top <= r <= bottom,
            grid@ == apply_puts(g0, Seq::new((r - top) as nat, |i: int| (col as int, top + i, ch, color))),
        ensures
            grid@.wf(),
            grid@ == apply_puts(g0, Seq::new((bottom - top + 1) as nat, |i: int| (col as int, top + i, ch, color))),
        decreases bottom - r,
    {
        let ghost done = Seq::new((r - top) as nat, |i: int| (col as int, top + i, ch, color));
        put_one(grid, col, r, ch, color);
        proof {
            lemma_apply_puts_append(g0, done, seq![(col as int, r as int, ch, color)]);
            assert(done + seq![(col as int, r as int, ch, color)] =~= Seq::new(
                (r - top + 1) as nat,
                |i: int| (col as int, top + i, ch, color),
            ));
        }
        if r == bottom {
            break;
        }
        r += 1;
    }
}

/// Draws an arrow between two grid positions with line characters (see `arrow_puts`).
pub fn draw_arrow(
    grid: &mut TextGrid,
    from_col: usize,
    from_row: usize,
    to_col: usize,
    to_row: usize,
    color: TermColor,
    head: bool,
)
    requires
        old(grid)@.wf(),
    ensures
        final(grid)@.wf(),
        final(grid)@ == apply_puts(
            old(grid)@,
            arrow_puts(from_col as int, from_row as int, to_col as int, to_row as int, color, head),
        ),
{
    let ghost g0 = grid@;
    if from_row == to_row {
        let (left, right) = if from_col <= to_col { (from_col, to_col) } else { (to_col, from_col) };
        run_across(grid, left, right, from_row, '─', color);
        let ghost body = Seq::new((right - left + 1) as nat, |i: int| (left + i, from_row as int, '─', color));
        if head {
            let tip = if to_col > from_col { '→' } else { '←' };
            put_one(grid, to_col, to_row, tip, color);
            proof {
                lemma_apply_puts_append(g0, body, seq![(to_col as int, to_row as int, tip, color)]);
            }
        } else {
            assert(body + Seq::<Put>::empty() =~= body);
        }
    } else if from_col == to_col {
        let (top, bottom) = if from_row <= to_row { (from_row, to_row) } else { (to_row, from_row) };
        run_down(grid, from_col, top, bottom, '│', color);
        let ghost body = Seq::new((bottom - top + 1) as nat, |i: int| (from_col as int, top + i, '│', color));
        if head {
            let tip = if to_row > from_row { '↓' } else { '↑' };
            put_one(grid, to_col, to_row, tip, color);
            proof {
                lemma_apply_puts_append(g0, body, seq![(to_col as int, to_row as int, tip, color)]);
            }
        } else {
            assert(body + Seq::<Put>::empty() =~= body);
        }
    } else {
        assert(apply_puts(g0, Seq::<Put>::empty()) == g0);
    }
}

} // verus!
