//! The frame of a 3D plot: the canvas size left by the title and label rows, and the
//! border around the canvas, clamped to the grid.

use vstd::prelude::*;

use crate::annotate::min_of;
use crate::color::TermColor;
use crate::frame::{put1, sat_sub};
use crate::layout::count;
use crate::text::{apply_puts, concat_puts, lemma_apply_puts_append, lemma_apply_puts_push, Put, TextGrid};

verus! {

/// The canvas size of a 3D plot in a `width` × `height` area, as `(width, height)`:
/// two border columns and, besides the two border rows, a row for the title and one
/// for the axis labels when there are any; at least one cell each way.
pub fn frame3d_canvas_size(width: usize, height: usize, has_title: bool, has_label: bool) -> (r: (usize, usize))
    ensures
        r.0 == (if sat_sub(width as int, 2) >= 1 { sat_sub(width as int, 2) } else { 1 }),
        r.1 == (if sat_sub(height as int, count(has_title) + count(has_label) + 2) >= 1 {
            sat_sub(height as int, count(has_title) + count(has_label) + 2)
        } else {
            1
        }),
{
    let title_rows: usize = if has_title { 1 } else { 0 };
    let label_rows: usize = if has_label { 1 } else { 0 };
    let reserved = title_rows + label_rows + 2;
    let ch = if height > reserved { height - reserved } else { 0 };
    let cw = if width > 2 { width - 2 } else { 0 };
    (if cw >= 1 { cw } else { 1 }, if ch >= 1 { ch } else { 1 })
}

/// The edge characters of the `c`-th column inside the border.
pub open spec fn top_bottom_fn(top: int, bottom: int) -> spec_fn(int) -> Seq<Put> {
    |c: int| put1(1 + c, top, '─') + put1(1 + c, bottom, '─')
}

/// The edge characters of the `r`-th row inside the border.
pub open spec fn sides_fn(top: int, right: int) -> spec_fn(int) -> Seq<Put> {
    |r: int| put1(0, top + 1 + r, '│') + put1(right, top + 1 + r, '│')
}

/// The border of a 3D plot's canvas of `cw` × `chh` cells below `title_rows` rows, on a
/// `w` × `h` grid: the corners, then the top and bottom edges, then the sides; the right
/// column and the bottom row are clamped to the grid's last column and row, and the
/// edges stop at the grid.
pub open spec fn frame3d_puts(w: int, h: int, title_rows: int, cw: int, chh: int) -> Seq<Put> {
    let top = title_rows;
    let right = min_of(cw + 1, w - 1);
    let bottom = min_of(title_rows + chh + 1, h - 1);
    put1(0, top, '┌') + put1(right, top, '┐') + put1(0, bottom, '└') + put1(right, bottom, '┘') + concat_puts(
        top_bottom_fn(top, bottom),
        sat_sub(min_of(cw + 1, w), 1),
    ) + concat_puts(sides_fn(top, right), sat_sub(min_of(title_rows + chh + 1, h), top + 1))
}

fn put_one(grid: &mut TextGrid, col: usize, row: usize, ch: char)
    requires
        old(grid)@.wf(),
    ensures
        final(grid)@.wf(),
        final(grid)@ == apply_puts(old(grid)@, put1(col as int, row as int, ch)),
{
    let ghost v = grid@;
    grid.put_char(col, row, ch, TermColor::Default);
    proof {
        lemma_apply_puts_push(v, seq![], (col as int, row as int, ch, TermColor::Default));
        assert(Seq::<Put>::empty() + put1(col as int, row as int, ch) =~= put1(col as int, row as int, ch));
    }
}

/// Draws the border of a 3D plot's canvas (see `frame3d_puts`).
pub fn draw_frame3d(grid: &mut TextGrid, title_rows: usize, canvas_width: usize, canvas_height: usize)
    requires
        old(grid)@.wf(),
        old(grid)@.w >= 1,
        old(grid)@.h >= 1,
        title_rows + canvas_height + 1 <= usize::MAX,
        canvas_width + 1 <= usize::MAX,
    ensures
        final(grid)@.wf(),
        final(grid)@ == apply_puts(
            old(grid)@,
            frame3d_puts(
                old(grid)@.w as int,
                old(grid)@.h as int,
                title_rows as int,
                canvas_width as int,
                canvas_height as int,
            ),
        ),
{
    let ghost g0 = grid@;
    let width = grid.width();
    let height = grid.height();
    let top = title_rows;
    let right_edge = canvas_width + 1;
    let bottom_edge = title_rows + canvas_height + 1;
    let right = if right_edge <= width - 1 { right_edge } else { width - 1 };
    let bottom = if bottom_edge <= height - 1 { bottom_edge } else { height - 1 };

    let ghost d0: Seq<Put> = seq![];
    assert(apply_puts(g0, d0) == g0);
    put_one(grid, 0, top, '┌');
    proof { lemma_apply_puts_append(g0, d0, put1(0, top as int, '┌')); }
    let ghost d1 = d0 + put1(0, top as int, '┌');
    put_one(grid, right, top, '┐');
    proof { lemma_apply_puts_append(g0, d1, put1(right as int, top as int, '┐')); }
    let ghost d2 = d1 + put1(right as int, top as int, '┐');
    put_one(grid, 0, bottom, '└');
    proof { lemma_apply_puts_append(g0, d2, put1(0, bottom as int, '└')); }
    let ghost d3 = d2 + put1(0, bottom as int, '└');
    put_one(grid, right, bottom, '┘');
    proof { lemma_apply_puts_append(g0, d3, put1(right as int, bottom as int, '┘')); }
    let ghost d4 = d3 + put1(right as int, bottom as int, '┘');

    let col_end = if right_edge <= width { right_edge } else { width };
    let ghost hf = top_bottom_fn(top as int, bottom as int);
    let mut c: usize = 1;
    assert(d4 + concat_puts(hf, 0) =~= d4);
    while c < col_end
        invariant
            grid@.wf(),
            1 <= c,
            c <= col_end || c == 1,
            hf == top_bottom_fn(top as int, bottom as int),
            grid@ == apply_puts(g0, d4 + concat_puts(hf, c - 1)),
        decreases col_end - c,
    {
        let ghost dd = d4 + concat_puts(hf, c - 1);
        put_one(grid, c, top, '─');
        proof { lemma_apply_puts_append(g0, dd, put1(c as int, top as int, '─')); }
        put_one(grid, c, bottom, '─');
        proof {
            lemma_apply_puts_append(g0, dd + put1(c as int, top as int, '─'), put1(c as int, bottom as int, '─'));
            assert(dd + put1(c as int, top as int, '─') + put1(c as int, bottom as int, '─') =~= d4 + concat_puts(hf, c as int));
        }
        c += 1;
    }
    let ghost d5 = d4 + concat_puts(hf, sat_sub(col_end as int, 1));
    assert(grid@ == apply_puts(g0, d5));

    let row_end = if bottom_edge <= height { bottom_edge } else { height };
    let ghost sf = sides_fn(top as int, right as int);
    let mut r: usize = top + 1;
    assert(d5 + concat_puts(sf, 0) =~= d5);
    while r < row_end
        invariant
            grid@.wf(),
            top + 1 <= r,
            r <= row_end || r == top + 1,
            sf == sides_fn(top as int, right as int),
            grid@ == apply_puts(g0, d5 + concat_puts(sf, r - top - 1)),
        decreases row_end - r,
    {
        let ghost dd = d5 + concat_puts(sf, r - top - 1);
        put_one(grid, 0, r, '│');
        proof { lemma_apply_puts_append(g0, dd, put1(0, r as int, '│')); }
        put_one(grid, right, r, '│');
        proof {
            lemma_apply_puts_append(g0, dd + put1(0, r as int, '│'), put1(right as int, r as int, '│'));
            assert(dd + put1(0, r as int, '│') + put1(right as int, r as int, '│') =~= d5 + concat_puts(sf, r - top));
        }
        r += 1;
    }
    assert(d5 + concat_puts(sf, sat_sub(row_end as int, top + 1)) =~= frame3d_puts(
        width as int,
        height as int,
        title_rows as int,
        canvas_width as int,
        canvas_height as int,
    ));
}

} // verus!
