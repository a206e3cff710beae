//! Character grid for compositing text, borders, and Braille canvas output.

use vstd::prelude::*;

use crate::braille::{BrailleCanvas, CanvasView};
use crate::chars::str_chars;
use crate::color::TermColor;
use crate::textout::{
    braille_char, colored_row, ends_with_reset, escapes_are_codes, join_lines, join_rows, lemma_codes_colored,
    lemma_codes_join, lemma_colored_closes, lemma_colored_default, lemma_join_lines_push, lemma_shown_join,
    push_chars, push_colored_row, row_cells, shown_cells, string_push,
};

verus! {

/// Abstract state of a text grid: its size and the character and color of each
/// position, in row-major order.
#[verifier::ext_equal]
pub struct GridView {
    pub w: nat,
    pub h: nat,
    pub chars: Seq<char>,
    pub colors: Seq<TermColor>,
}

impl GridView {
    /// One character and one color per position, and the size fits in a `usize`.
    pub open spec fn wf(self) -> bool {
        &&& self.chars.len() == self.w * self.h
        &&& self.colors.len() == self.w * self.h
        &&& self.w * self.h <= usize::MAX
    }

    /// Index of position `(col, row)`.
    pub open spec fn index(self, col: int, row: int) -> int {
        row * self.w + col
    }

    /// The character at `(col, row)`.
    pub open spec fn char_at(self, col: int, row: int) -> char {
        self.chars[self.index(col, row)]
    }

    /// The color at `(col, row)`.
    pub open spec fn color_at(self, col: int, row: int) -> TermColor {
        self.colors[self.index(col, row)]
    }
}

/// A grid of the given size filled with spaces in the default color.
pub open spec fn blank_grid(w: nat, h: nat) -> GridView {
    GridView {
        w,
        h,
        chars: Seq::new(w * h, |i: int| ' '),
        colors: Seq::new(w * h, |i: int| TermColor::Default),
    }
}

/// `v` with the character at `(col, row)` replaced, when that position is on the grid.
pub open spec fn grid_put(v: GridView, col: int, row: int, ch: char, color: TermColor) -> GridView {
    if 0 <= col < v.w && 0 <= row < v.h {
        GridView {
            w: v.w,
            h: v.h,
            chars: v.chars.update(v.index(col, row), ch),
            colors: v.colors.update(v.index(col, row), color),
        }
    } else {
        v
    }
}

/// Whether index `k` is one of the on-grid positions written by a string of length `len`
/// starting at `(col, row)`.
pub open spec fn in_span(v: GridView, col: int, row: int, len: int, k: int) -> bool {
    &&& 0 <= row < v.h
    &&& v.index(col, row) <= k
    &&& k < v.index(col, row) + len
    &&& k < v.index(v.w as int, row)
}

/// `v` with the string `s` written left to right from `(col, row)`; characters that
/// fall beyond the right edge (or on a row off the grid) are dropped.
pub open spec fn grid_put_str(v: GridView, col: int, row: int, s: Seq<char>, color: TermColor) -> GridView {
    GridView {
        w: v.w,
        h: v.h,
        chars: Seq::new(
            v.chars.len(),
            |k: int|
                if in_span(v, col, row, s.len() as int, k) {
                    s[k - v.index(col, row)]
                } else {
                    v.chars[k]
                },
        ),
        colors: Seq::new(
            v.colors.len(),
            |k: int|
                if in_span(v, col, row, s.len() as int, k) {
                    color
                } else {
                    v.colors[k]
                },
        ),
    }
}

/// Where a string of length `len` starts when centered in `[col_start, col_start + width)`:
/// at `col_start` when it does not fit, else offset by half the free space (rounded down).
pub open spec fn centered_start(col_start: int, width: int, len: int) -> int {
    if len >= width {
        col_start
    } else {
        col_start + (width - len) / 2
    }
}

/// Centering splits the free space evenly: a string shorter than the span starts
/// so that the space left of it is the space right of it, or one less; a string that
/// does not fit starts at the span's left edge.
pub proof fn law_centered_start_balanced(col_start: int, width: int, len: int)
    requires
        len >= 0,
    ensures
        ({
            let st = centered_start(col_start, width, len);
            let left = st - col_start;
            let right = col_start + width - (st + len);
            &&& len < width ==> 0 <= left <= right <= left + 1
            &&& len >= width ==> st == col_start
        }),
{
}

/// Whether grid position `(gc, gr)` is covered by a canvas of `cw` × `ch` cells placed
/// with its top-left cell at `(co, ro)`.
pub open spec fn in_rect(gc: int, gr: int, co: int, ro: int, cw: int, ch: int) -> bool {
    ro <= gr < ro + ch && co <= gc < co + cw
}

/// `new` is `old` with the Braille canvas `c` copied in with its top-left cell at
/// `(co, ro)`: each covered position takes the cell's Braille character and color;
/// every other position, and the parts of the canvas beyond the grid, are unchanged
/// or dropped.
pub open spec fn blitted(old: GridView, new: GridView, c: CanvasView, co: int, ro: int) -> bool {
    &&& new.w == old.w
    &&& new.h == old.h
    &&& new.chars.len() == old.chars.len()
    &&& new.colors.len() == old.colors.len()
    &&& forall|gc: int, gr: int|
        0 <= gc < old.w && 0 <= gr < old.h ==> #[trigger] new.char_at(gc, gr) == (if in_rect(
            gc,
            gr,
            co,
            ro,
            c.cw as int,
            c.ch as int,
        ) {
            braille_char(c.cells[(gr - ro) * c.cw + (gc - co)])
        } else {
            old.char_at(gc, gr)
        })
    &&& forall|gc: int, gr: int|
        0 <= gc < old.w && 0 <= gr < old.h ==> #[trigger] new.color_at(gc, gr) == (if in_rect(
            gc,
            gr,
            co,
            ro,
            c.cw as int,
            c.ch as int,
        ) {
            c.colors[(gr - ro) * c.cw + (gc - co)]
        } else {
            old.color_at(gc, gr)
        })
}

/// The characters of row `r` of a grid.
pub open spec fn grid_row_chars(v: GridView, r: int) -> Seq<char> {
    v.chars.subrange(r * v.w, r * v.w + v.w)
}

/// The colors of row `r` of a grid.
pub open spec fn grid_row_colors(v: GridView, r: int) -> Seq<TermColor> {
    v.colors.subrange(r * v.w, r * v.w + v.w)
}

/// The grid as plain text: one line per row.
pub open spec fn grid_plain_text(v: GridView) -> Seq<char> {
    join_lines(Seq::new(v.h, |r: int| grid_row_chars(v, r)))
}

/// The grid as text with ANSI color codes: one line per row.
pub open spec fn grid_colored_text(v: GridView) -> Seq<char> {
    join_lines(Seq::new(v.h, |r: int| colored_row(grid_row_chars(v, r), grid_row_colors(v, r))))
}

proof fn lemma_row_bounds(w: int, h: int, row: int)
    requires
        0 <= row < h,
        0 <= w,
    ensures
        0 <= row * w,
        row * w + w <= w * h,
{
    assert(row * w + w <= w * h) by (nonlinear_arith)
        requires
            0 <= row < h,
            0 <= w,
    ;
    assert(0 <= row * w) by (nonlinear_arith)
        requires
            0 <= row,
            0 <= w,
    ;
}

proof fn lemma_index_in_range(w: int, h: int, col: int, row: int)
    requires
        0 <= row < h,
        0 <= col < w,
    ensures
        0 <= row * w + col < w * h,
        0 <= row * w,
        row * w + w <= w * h,
{
    assert(0 <= row * w + col < w * h) by (nonlinear_arith)
        requires
            0 <= row < h,
            0 <= col < w,
    ;
    assert(row * w + w <= w * h) by (nonlinear_arith)
        requires
            0 <= row < h,
            0 <= w,
    ;
    assert(0 <= row * w) by (nonlinear_arith)
        requires
            0 <= row,
            0 <= w,
    ;
}

/// The colored rendering of a grid: when no grid character is the escape character,
/// every escape in it is a color code or the reset; a grid whose cells all have the
/// default color renders with no escape (colored and plain renderings agree); and each
/// line whose last cell has a non-default color ends with the reset.
pub proof fn law_grid_render_codes(v: GridView)
    requires
        v.wf(),
    ensures
        (forall|k: int| 0 <= k < v.chars.len() ==> #[trigger] v.chars[k] != '\x1b') ==> escapes_are_codes(
            grid_colored_text(v),
        ),
        (forall|k: int| 0 <= k < v.colors.len() ==> #[trigger] v.colors[k] == TermColor::Default)
            ==> grid_colored_text(v) == grid_plain_text(v),
        forall|r: int|
            0 <= r < v.h && v.w > 0 && #[trigger] v.color_at(v.w - 1, r) != TermColor::Default
                ==> ends_with_reset(colored_row(grid_row_chars(v, r), grid_row_colors(v, r))),
{
    let colored = Seq::new(v.h, |r: int| colored_row(grid_row_chars(v, r), grid_row_colors(v, r)));
    let plain = Seq::new(v.h, |r: int| grid_row_chars(v, r));
    if forall|k: int| 0 <= k < v.chars.len() ==> #[trigger] v.chars[k] != '\x1b' {
        assert forall|r: int| 0 <= r < colored.len() implies escapes_are_codes(#[trigger] colored[r]) by {
            let chars = grid_row_chars(v, r);
            lemma_row_bounds(v.w as int, v.h as int, r);
            assert forall|k: int| 0 <= k < chars.len() implies chars[k] != '\x1b' by {
                assert(chars[k] == v.chars[r * v.w + k]);
            }
            lemma_codes_colored(chars, grid_row_colors(v, r), 0, TermColor::Default);
        }
        lemma_codes_join(colored);
    }
    if forall|k: int| 0 <= k < v.colors.len() ==> #[trigger] v.colors[k] == TermColor::Default {
        assert forall|r: int| 0 <= r < colored.len() implies #[trigger] colored[r] == plain[r] by {
            let chars = grid_row_chars(v, r);
            let cols = grid_row_colors(v, r);
            lemma_row_bounds(v.w as int, v.h as int, r);
            assert forall|k: int| 0 <= k < chars.len() implies cols[k] == TermColor::Default by {
                assert(cols[k] == v.colors[r * v.w + k]);
            }
            lemma_colored_default(chars, cols, 0);
            assert(chars.subrange(0, chars.len() as int) =~= chars);
        }
        assert(colored =~= plain);
    }
    assert forall|r: int|
        0 <= r < v.h && v.w > 0 && #[trigger] v.color_at(v.w - 1, r) != TermColor::Default implies ends_with_reset(
        colored_row(grid_row_chars(v, r), grid_row_colors(v, r)),
    ) by {
        lemma_row_bounds(v.w as int, v.h as int, r);
        let chars = grid_row_chars(v, r);
        let cols = grid_row_colors(v, r);
        assert(cols[chars.len() - 1] == v.color_at(v.w - 1, r));
        lemma_colored_closes(chars, cols, 0, TermColor::Default);
    }
}

/// What a terminal shows for a rendered grid with no escape character in it: row by
/// row, each position's character in that position's color, with a newline (in the
/// default color) between rows.
pub proof fn law_grid_render_shows_cells(v: GridView)
    requires
        v.wf(),
        forall|k: int| 0 <= k < v.chars.len() ==> #[trigger] v.chars[k] != '\x1b',
    ensures
        shown_cells(grid_colored_text(v), TermColor::Default) == join_rows(
            Seq::new(v.h, |r: int| Seq::new(v.w, |c: int| (v.char_at(c, r), v.color_at(c, r)))),
            ('\n', TermColor::Default),
        ),
{
    let cs = Seq::new(v.h, |r: int| grid_row_chars(v, r));
    let ks = Seq::new(v.h, |r: int| grid_row_colors(v, r));
    assert forall|r: int| 0 <= r < cs.len() implies (#[trigger] cs[r]).len() == ks[r].len() by {
        lemma_row_bounds(v.w as int, v.h as int, r);
    }
    assert forall|r: int, k: int| 0 <= r < cs.len() && 0 <= k < cs[r].len() implies #[trigger] cs[r][k] != '\x1b' by {
        lemma_row_bounds(v.w as int, v.h as int, r);
        assert(cs[r][k] == v.chars[r * v.w + k]);
    }
    lemma_shown_join(cs, ks, Seq::empty());
    assert(Seq::new(cs.len(), |r: int| colored_row(cs[r], ks[r])) =~= Seq::new(
        v.h,
        |r: int| colored_row(grid_row_chars(v, r), grid_row_colors(v, r)),
    ));
    let want = Seq::new(v.h, |r: int| Seq::new(v.w, |c: int| (v.char_at(c, r), v.color_at(c, r))));
    assert forall|r: int| 0 <= r < v.h implies #[trigger] row_cells(cs[r], ks[r]) == want[r] by {
        lemma_row_bounds(v.w as int, v.h as int, r);
        assert(row_cells(cs[r], ks[r]) =~= want[r]);
    }
    assert(Seq::new(cs.len(), |r: int| row_cells(cs[r], ks[r])) =~= want);
    let j = join_lines(Seq::new(cs.len(), |r: int| colored_row(cs[r], ks[r])));
    assert(j + Seq::<char>::empty() =~= j);
    assert(join_rows(want, ('\n', TermColor::Default)) + Seq::<(char, TermColor)>::empty() =~= join_rows(
        want,
        ('\n', TermColor::Default),
    ));
}

/// The rows of the canvas before row `n` are done.
pub open spec fn rows_done(ro: int, n: int) -> spec_fn(int, int) -> bool {
    |gc: int, gr: int| gr - ro < n
}

/// The rows of the canvas before row `r`, and the cells of row `r` before column `k`, are done.
pub open spec fn cells_done(co: int, ro: int, r: int, k: int) -> spec_fn(int, int) -> bool {
    |gc: int, gr: int| gr - ro < r || (gr - ro == r && gc - co < k)
}

/// `v` is `v0` with the covered positions selected by `done` copied from canvas `c`.
pub open spec fn blit_progress(
    v0: GridView,
    v: GridView,
    c: CanvasView,
    co: int,
    ro: int,
    done: spec_fn(int, int) -> bool,
) -> bool {
    &&& v.w == v0.w
    &&& v.h == v0.h
    &&& v.chars.len() == v0.chars.len()
    &&& v.colors.len() == v0.colors.len()
    &&& forall|gc: int, gr: int|
        0 <= gc < v0.w && 0 <= gr < v0.h ==> #[trigger] v.char_at(gc, gr) == (if in_rect(
            gc,
            gr,
            co,
            ro,
            c.cw as int,
            c.ch as int,
        ) && done(gc, gr) {
            braille_char(c.cells[(gr - ro) * c.cw + (gc - co)])
        } else {
            v0.char_at(gc, gr)
        })
    &&& forall|gc: int, gr: int|
        0 <= gc < v0.w && 0 <= gr < v0.h ==> #[trigger] v.color_at(gc, gr) == (if in_rect(
            gc,
            gr,
            co,
            ro,
            c.cw as int,
            c.ch as int,
        ) && done(gc, gr) {
            c.colors[(gr - ro) * c.cw + (gc - co)]
        } else {
            v0.color_at(gc, gr)
        })
}

proof fn lemma_blit_progress_equiv(
    v0: GridView,
    v: GridView,
    c: CanvasView,
    co: int,
    ro: int,
    d1: spec_fn(int, int) -> bool,
    d2: spec_fn(int, int) -> bool,
)
    requires
        blit_progress(v0, v, c, co, ro, d1),
        forall|gc: int, gr: int|
            0 <= gc < v0.w && 0 <= gr < v0.h && in_rect(gc, gr, co, ro, c.cw as int, c.ch as int)
                ==> #[trigger] d1(gc, gr) == d2(gc, gr),
    ensures
        blit_progress(v0, v, c, co, ro, d2),
{
    assert forall|gc: int, gr: int| 0 <= gc < v0.w && 0 <= gr < v0.h implies #[trigger] v.char_at(gc, gr) == (if in_rect(
        gc,
        gr,
        co,
        ro,
        c.cw as int,
        c.ch as int,
    ) && d2(gc, gr) {
        braille_char(c.cells[(gr - ro) * c.cw + (gc - co)])
    } else {
        v0.char_at(gc, gr)
    }) by {
        if in_rect(gc, gr, co, ro, c.cw as int, c.ch as int) {
            assert(d1(gc, gr) == d2(gc, gr));
        }
    }
    assert forall|gc: int, gr: int| 0 <= gc < v0.w && 0 <= gr < v0.h implies #[trigger] v.color_at(gc, gr) == (if in_rect(
        gc,
        gr,
        co,
        ro,
        c.cw as int,
        c.ch as int,
    ) && d2(gc, gr) {
        c.colors[(gr - ro) * c.cw + (gc - co)]
    } else {
        v0.color_at(gc, gr)
    }) by {
        if in_rect(gc, gr, co, ro, c.cw as int, c.ch as int) {
            assert(d1(gc, gr) == d2(gc, gr));
        }
    }
}

proof fn lemma_blit_progress_init(v0: GridView, c: CanvasView, co: int, ro: int)
    ensures
        blit_progress(v0, v0, c, co, ro, rows_done(ro, 0)),
{
    assert forall|gc: int, gr: int| 0 <= gc < v0.w && 0 <= gr < v0.h implies #[trigger] v0.char_at(gc, gr) == (if in_rect(
        gc,
        gr,
        co,
        ro,
        c.cw as int,
        c.ch as int,
    ) && rows_done(ro, 0)(gc, gr) {
        braille_char(c.cells[(gr - ro) * c.cw + (gc - co)])
    } else {
        v0.char_at(gc, gr)
    }) by {
    }
    assert forall|gc: int, gr: int| 0 <= gc < v0.w && 0 <= gr < v0.h implies #[trigger] v0.color_at(gc, gr) == (if in_rect(
        gc,
        gr,
        co,
        ro,
        c.cw as int,
        c.ch as int,
    ) && rows_done(ro, 0)(gc, gr) {
        c.colors[(gr - ro) * c.cw + (gc - co)]
    } else {
        v0.color_at(gc, gr)
    }) by {
    }
}

proof fn lemma_blit_step(
    v0: GridView,
    before: GridView,
    after: GridView,
    c: CanvasView,
    co: int,
    ro: int,
    r: int,
    k: int,
)
    requires
        v0.wf(),
        c.wf(),
        0 <= r < c.ch,
        0 <= k < c.cw,
        0 <= co + k < v0.w,
        0 <= ro + r < v0.h,
        co >= 0,
        ro >= 0,
        blit_progress(v0, before, c, co, ro, cells_done(co, ro, r, k)),
        after == grid_put(
            before,
            co + k,
            ro + r,
            braille_char(c.cells[r * c.cw + k]),
            c.colors[r * c.cw + k],
        ),
    ensures
        blit_progress(v0, after, c, co, ro, cells_done(co, ro, r, k + 1)),
{
    let w = v0.w as int;
    lemma_index_in_range(w, v0.h as int, co + k, ro + r);
    assert forall|gc: int, gr: int| 0 <= gc < v0.w && 0 <= gr < v0.h implies #[trigger] after.char_at(gc, gr) == (if in_rect(
        gc,
        gr,
        co,
        ro,
        c.cw as int,
        c.ch as int,
    ) && cells_done(co, ro, r, k + 1)(gc, gr) {
        braille_char(c.cells[(gr - ro) * c.cw + (gc - co)])
    } else {
        v0.char_at(gc, gr)
    }) by {
        lemma_index_in_range(w, v0.h as int, gc, gr);
        assert(before.char_at(gc, gr) == before.char_at(gc, gr));
        assert(before.color_at(gc, gr) == before.color_at(gc, gr));
        if gr * w + gc == (ro + r) * w + (co + k) {
            lemma_index_injective(w, gc, gr, co + k, ro + r);
            assert(gr == ro + r && gc == co + k);
            assert(after.chars[(ro + r) * w + (co + k)] == braille_char(c.cells[r * c.cw + k]));
            assert(after.colors[(ro + r) * w + (co + k)] == c.colors[r * c.cw + k]);
            assert(in_rect(gc, gr, co, ro, c.cw as int, c.ch as int));
            assert(cells_done(co, ro, r, k + 1)(gc, gr));
            assert((gr - ro) * c.cw + (gc - co) == r * c.cw + k);
            assert(after.char_at(gc, gr) == after.chars[(ro + r) * w + (co + k)]);
        } else {
            assert(!(gr == ro + r && gc == co + k));
            assert(after.chars[gr * w + gc] == before.chars[gr * w + gc]);
            assert(after.colors[gr * w + gc] == before.colors[gr * w + gc]);
            assert(cells_done(co, ro, r, k + 1)(gc, gr) == cells_done(co, ro, r, k)(gc, gr));
            assert(after.char_at(gc, gr) == before.char_at(gc, gr));
            assert(after.color_at(gc, gr) == before.color_at(gc, gr));
        }
    }
    assert forall|gc: int, gr: int| 0 <= gc < v0.w && 0 <= gr < v0.h implies #[trigger] after.color_at(gc, gr) == (if in_rect(
        gc,
        gr,
        co,
        ro,
        c.cw as int,
        c.ch as int,
    ) && cells_done(co, ro, r, k + 1)(gc, gr) {
        c.colors[(gr - ro) * c.cw + (gc - co)]
    } else {
        v0.color_at(gc, gr)
    }) by {
        lemma_index_in_range(w, v0.h as int, gc, gr);
        assert(before.char_at(gc, gr) == before.char_at(gc, gr));
        assert(before.color_at(gc, gr) == before.color_at(gc, gr));
        if gr * w + gc == (ro + r) * w + (co + k) {
            lemma_index_injective(w, gc, gr, co + k, ro + r);
            assert(gr == ro + r && gc == co + k);
            assert(after.chars[(ro + r) * w + (co + k)] == braille_char(c.cells[r * c.cw + k]));
            assert(after.colors[(ro + r) * w + (co + k)] == c.colors[r * c.cw + k]);
            assert(in_rect(gc, gr, co, ro, c.cw as int, c.ch as int));
            assert(cells_done(co, ro, r, k + 1)(gc, gr));
            assert((gr - ro) * c.cw + (gc - co) == r * c.cw + k);
            assert(after.char_at(gc, gr) == after.chars[(ro + r) * w + (co + k)]);
        } else {
            assert(!(gr == ro + r && gc == co + k));
            assert(after.chars[gr * w + gc] == before.chars[gr * w + gc]);
            assert(after.colors[gr * w + gc] == before.colors[gr * w + gc]);
            assert(cells_done(co, ro, r, k + 1)(gc, gr) == cells_done(co, ro, r, k)(gc, gr));
            assert(after.char_at(gc, gr) == before.char_at(gc, gr));
            assert(after.color_at(gc, gr) == before.color_at(gc, gr));
        }
    }
}

proof fn lemma_index_injective(w: int, c1: int, r1: int, c2: int, r2: int)
    requires
        0 <= c1 < w,
        0 <= c2 < w,
        0 <= r1,
        0 <= r2,
        r1 * w + c1 == r2 * w + c2,
    ensures
        r1 == r2,
        c1 == c2,
{
    if r1 < r2 {
        assert(r1 * w + c1 < r2 * w + c2) by (nonlinear_arith)
            requires
                r1 < r2,
                0 <= c1 < w,
                0 <= c2,
        ;
    } else if r2 < r1 {
        assert(r2 * w + c2 < r1 * w + c1) by (nonlinear_arith)
            requires
                r2 < r1,
                0 <= c2 < w,
                0 <= c1,
        ;
    }
}

/// A single character placement: column, row, character and color.
pub type Put = (int, int, char, TermColor);

/// `v` after applying the placements `ops` in order (off-grid ones are dropped).
pub open spec fn apply_puts(v: GridView, ops: Seq<Put>) -> GridView
    decreases ops.len(),
{
    if ops.len() == 0 {
        v
    } else {
        let last = ops.last();
        grid_put(apply_puts(v, ops.drop_last()), last.0, last.1, last.2, last.3)
    }
}

/// The placements that write `s` left to right from `(col, row)`.
pub open spec fn str_puts(col: int, row: int, s: Seq<char>, color: TermColor) -> Seq<Put> {
    Seq::new(s.len(), |i: int| (col + i, row, s[i], color))
}

/// The placements of `f(0)`, `f(1)`, …, `f(n - 1)`, in that order.
pub open spec fn concat_puts(f: spec_fn(int) -> Seq<Put>, n: int) -> Seq<Put>
    decreases n,
{
    if n <= 0 {
        Seq::empty()
    } else {
        concat_puts(f, n - 1) + f(n - 1)
    }
}

/// Applying two lists of placements one after the other is applying their concatenation.
pub proof fn lemma_apply_puts_append(v: GridView, a: Seq<Put>, b: Seq<Put>)
    ensures
        apply_puts(v, a + b) == apply_puts(apply_puts(v, a), b),
    decreases b.len(),
{
    if b.len() == 0 {
        assert(a + b =~= a);
    } else {
        assert((a + b).drop_last() =~= a + b.drop_last());
        lemma_apply_puts_append(v, a, b.drop_last());
    }
}

/// Placements keep a grid's size and well-formedness.
pub proof fn lemma_apply_puts_wf(v: GridView, ops: Seq<Put>)
    requires
        v.wf(),
    ensures
        apply_puts(v, ops).wf(),
        apply_puts(v, ops).w == v.w,
        apply_puts(v, ops).h == v.h,
    decreases ops.len(),
{
    if ops.len() > 0 {
        lemma_apply_puts_wf(v, ops.drop_last());
        let last = ops.last();
        let u = apply_puts(v, ops.drop_last());
        if 0 <= last.0 < u.w && 0 <= last.1 < u.h {
            lemma_index_in_range(u.w as int, u.h as int, last.0, last.1);
        }
    }
}

/// Writing a string is placing its characters one by one.
pub proof fn lemma_put_str_as_puts(v: GridView, col: int, row: int, s: Seq<char>, color: TermColor)
    requires
        v.wf(),
        col >= 0,
    ensures
        grid_put_str(v, col, row, s, color) == apply_puts(v, str_puts(col, row, s, color)),
    decreases s.len(),
{
    if s.len() == 0 {
        assert(grid_put_str(v, col, row, s, color) =~= v);
    } else {
        let s0 = s.drop_last();
        lemma_put_str_as_puts(v, col, row, s0, color);
        assert(str_puts(col, row, s, color).drop_last() =~= str_puts(col, row, s0, color));
        let u = grid_put_str(v, col, row, s0, color);
        let k = s.len() - 1;
        let lhs = grid_put_str(v, col, row, s, color);
        let rhs = grid_put(u, col + k, row, s[k], color);
        if 0 <= col + k < v.w && 0 <= row < v.h {
            lemma_index_in_range(v.w as int, v.h as int, col + k, row);
        }
        assert(lhs.chars =~= rhs.chars);
        assert(lhs.colors =~= rhs.colors);
    }
}

/// Reading back a written string: on a row of the grid, each character of `s` that
/// falls on the grid is found at its column with the given color, and every other
/// position keeps its character and color.
pub proof fn law_put_str_read_back(
    v: GridView,
    col: int,
    row: int,
    s: Seq<char>,
    color: TermColor,
    c: int,
    r: int,
)
    requires
        v.wf(),
        0 <= col,
        0 <= row < v.h,
        0 <= c < v.w,
        0 <= r < v.h,
    ensures
        ({
            let u = grid_put_str(v, col, row, s, color);
            &&& u.wf()
            &&& (r == row && col <= c < col + s.len()) ==> u.char_at(c, r) == s[c - col]
                && u.color_at(c, r) == color
            &&& !(r == row && col <= c < col + s.len()) ==> u.char_at(c, r) == v.char_at(c, r)
                && u.color_at(c, r) == v.color_at(c, r)
        }),
{
    lemma_index_in_range(v.w as int, v.h as int, c, r);
    lemma_index_in_range(v.w as int, v.h as int, 0, row);
    let k = v.index(c, r);
    if r == row {
        assert(v.index(v.w as int, row) == v.index(0, row) + v.w) by (nonlinear_arith);
    } else if r < row {
        assert(v.index(c, r) < v.index(0, row)) by (nonlinear_arith)
            requires
                r < row,
                0 <= c < v.w,
        ;
    } else {
        assert(v.index(c, r) >= v.index(v.w as int, row)) by (nonlinear_arith)
            requires
                r > row,
                0 <= c,
        ;
    }
}

/// Applying one more placement.
pub proof fn lemma_apply_puts_push(v: GridView, a: Seq<Put>, op: Put)
    ensures
        apply_puts(v, a + seq![op]) == grid_put(apply_puts(v, a), op.0, op.1, op.2, op.3),
{
    assert((a + seq![op]).drop_last() =~= a);
}

/// Character grid for compositing text, borders, and Braille canvas output.
pub struct TextGrid {
    width: usize,
    height: usize,
    chars: Vec<char>,
    colors: Vec<TermColor>,
}

impl View for TextGrid {
    type V = GridView;

    closed spec fn view(&self) -> GridView {
        GridView {
            w: self.width as nat,
            h: self.height as nat,
            chars: self.chars@,
            colors: self.colors@,
        }
    }
}

impl TextGrid {
    /// Creates a new grid filled with spaces.
    pub fn new(width: usize, height: usize) -> (g: Self)
        requires
            width * height <= usize::MAX,
        ensures
            g@ == blank_grid(width as nat, height as nat),
            g@.wf(),
    {
        let size = width * height;
        let mut chars: Vec<char> = Vec::new();
        let mut colors: Vec<TermColor> = Vec::new();
        let mut k: usize = 0;
        while k < size
            invariant
                k <= size,
                chars@ == Seq::new(k as nat, |i: int| ' '),
                colors@ == Seq::new(k as nat, |i: int| TermColor::Default),
            decreases size - k,
        {
            chars.push(' ');
            colors.push(TermColor::Default);
            k += 1;
            assert(chars@ =~= Seq::new(k as nat, |i: int| ' '));
            assert(colors@ =~= Seq::new(k as nat, |i: int| TermColor::Default));
        }
        TextGrid { width, height, chars, colors }
    }

    /// Width of the grid in characters.
    pub fn width(&self) -> (w: usize)
        ensures
            w == self@.w,
    {
        self.width
    }

    /// Height of the grid in rows.
    pub fn height(&self) -> (h: usize)
        ensures
            h == self@.h,
    {
        self.height
    }

    /// Sets a character at the given position.
    pub fn put_char(&mut self, col: usize, row: usize, ch: char, color: TermColor)
        requires
            old(self)@.wf(),
        ensures
            final(self)@ == grid_put(old(self)@, col as int, row as int, ch, color),
            final(self)@.wf(),
    {
        if col < self.width && row < self.height {
            proof {
                lemma_index_in_range(self.width as int, self.height as int, col as int, row as int);
            }
            let idx = row * self.width + col;
            self.chars.set(idx, ch);
            self.colors.set(idx, color);
        }
    }

    /// Writes a string starting at `(col, row)`, left-aligned.
    pub fn put_str(&mut self, col: usize, row: usize, s: &str, color: TermColor)
        requires
            old(self)@.wf(),
            col + s@.len() <= usize::MAX + 1,
        ensures
            final(self)@ == grid_put_str(old(self)@, col as int, row as int, s@, color),
            final(self)@.wf(),
    {
        let cs = str_chars(s);
        self.put_chars(col, row, &cs, color);
    }

    /// Writes a sequence of characters starting at `(col, row)`, left-aligned.
    pub fn put_chars(&mut self, col: usize, row: usize, cs: &Vec<char>, color: TermColor)
        requires
            old(self)@.wf(),
            col + cs@.len() <= usize::MAX + 1,
        ensures
            final(self)@ == grid_put_str(old(self)@, col as int, row as int, cs@, color),
            final(self)@.wf(),
    {
        let ghost v0 = self@;
        let mut i: usize = 0;
        assert(self@ =~= grid_put_str(v0, col as int, row as int, cs@.take(0), color));
        while i < cs.len()
            invariant
                v0.wf(),
                self@.wf(),
                i <= cs@.len(),
                col + cs@.len() <= usize::MAX + 1,
                self@ == grid_put_str(v0, col as int, row as int, cs@.take(i as int), color),
            decreases cs.len() - i,
        {
            let ghost before = self@;
            self.put_char(col + i, row, cs[i], color);
            i += 1;
            proof {
                let after = grid_put_str(v0, col as int, row as int, cs@.take(i as int), color);
                if col + i - 1 < v0.w && row < v0.h {
                    lemma_index_in_range(v0.w as int, v0.h as int, col + i - 1, row as int);
                }
                assert(self@.chars =~= after.chars);
                assert(self@.colors =~= after.colors);
            }
        }
        assert(cs@.take(cs@.len() as int) =~= cs@);
    }

    /// Composites a BrailleCanvas into the grid at the given offset.
    pub fn blit_braille(&mut self, canvas: &BrailleCanvas, col_offset: usize, row_offset: usize)
        requires
            old(self)@.wf(),
            canvas@.wf(),
        ensures
            final(self)@.wf(),
            blitted(old(self)@, final(self)@, canvas@, col_offset as int, row_offset as int),
    {
        self.blit_braille_direct(canvas, col_offset, row_offset);
    }

    /// Direct blit from canvas data.
    fn blit_braille_direct(&mut self, canvas: &BrailleCanvas, col_offset: usize, row_offset: usize)
        requires
            old(self)@.wf(),
            canvas@.wf(),
        ensures
            final(self)@.wf(),
            blitted(old(self)@, final(self)@, canvas@, col_offset as int, row_offset as int),
    {
        let ghost v0 = self@;
        let ghost c = canvas@;
        let cw = canvas.char_width();
        let ch = canvas.char_height();
        let ghost co = col_offset as int;
        let ghost ro = row_offset as int;
        let mut crow: usize = 0;
        proof {
            lemma_blit_progress_init(v0, c, co, ro);
        }
        while crow < ch
            invariant
                self@.wf(),
                v0.wf(),
                c == canvas@,
                c.wf(),
                cw == c.cw,
                ch == c.ch,
                co == col_offset,
                ro == row_offset,
                crow <= ch,
                crow == 0 || row_offset + crow <= self@.h,
                blit_progress(v0, self@, c, co, ro, rows_done(ro, crow as int)),
            ensures
                self@.wf(),
                blit_progress(v0, self@, c, co, ro, rows_done(ro, ch as int)),
            decreases ch - crow,
        {
            let grid_row = row_offset + crow;
            if grid_row >= self.height {
                proof {
                    lemma_blit_progress_equiv(v0, self@, c, co, ro, rows_done(ro, crow as int), rows_done(ro, ch as int));
                }
                break;
            }
            let mut ccol: usize = 0;
            proof {
                lemma_blit_progress_equiv(v0, self@, c, co, ro, rows_done(ro, crow as int), cells_done(co, ro, crow as int, 0));
            }
            while ccol < cw
                invariant
                    self@.wf(),
                    v0.wf(),
                    c == canvas@,
                    c.wf(),
                    cw == c.cw,
                    ch == c.ch,
                    co == col_offset,
                    ro == row_offset,
                    crow < ch,
                    grid_row == row_offset + crow,
                    grid_row < self@.h,
                    ccol <= cw,
                    ccol == 0 || col_offset + ccol <= self@.w,
                    blit_progress(v0, self@, c, co, ro, cells_done(co, ro, crow as int, ccol as int)),
                ensures
                    self@.wf(),
                    blit_progress(v0, self@, c, co, ro, rows_done(ro, crow + 1)),
                decreases cw - ccol,
            {
                let grid_col = col_offset + ccol;
                if grid_col >= self.width {
                    proof {
                        lemma_blit_progress_equiv(v0, self@, c, co, ro, cells_done(co, ro, crow as int, ccol as int), rows_done(ro, crow + 1));
                    }
                    break;
                }
                proof {
                    crate::braille::lemma_cell_index_in_range(c, crow as int, ccol as int);
                }
                let cidx = crow * cw + ccol;
                let byte = canvas.cell_byte(cidx);
                let color = canvas.cell_color(cidx);
                let g = crate::textout::braille_glyph(byte);
                let ghost before = self@;
                self.put_char(grid_col, grid_row, g, color);
                proof {
                    lemma_blit_step(v0, before, self@, c, co, ro, crow as int, ccol as int);
                }
                ccol += 1;
            }
            proof {
                if ccol == cw {
                    lemma_blit_progress_equiv(v0, self@, c, co, ro, cells_done(co, ro, crow as int, ccol as int), rows_done(ro, crow + 1));
                }
            }
            crow += 1;
        }
        proof {
            lemma_blit_progress_equiv(v0, self@, c, co, ro, rows_done(ro, ch as int), |gc: int, gr: int| true);
        }
    }

    /// Writes a string centered within `[col_start, col_start + width)`.
    pub fn put_str_centered(
        &mut self,
        col_start: usize,
        width: usize,
        row: usize,
        s: &str,
        color: TermColor,
    )
        requires
            old(self)@.wf(),
            centered_start(col_start as int, width as int, s@.len() as int) + s@.len() <= usize::MAX
                + 1,
            centered_start(col_start as int, width as int, s@.len() as int) <= usize::MAX,
        ensures
            final(self)@ == grid_put_str(
                old(self)@,
                centered_start(col_start as int, width as int, s@.len() as int),
                row as int,
                s@,
                color,
            ),
            final(self)@.wf(),
    {
        let cs = str_chars(s);
        let len = cs.len();
        if len >= width {
            self.put_chars(col_start, row, &cs, color);
        } else {
            let offset = (width - len) / 2;
            self.put_chars(col_start + offset, row, &cs, color);
        }
    }

    /// Writes a string right-aligned ending at column `col_end` (exclusive); a string
    /// longer than `col_end` is not written.
    pub fn put_str_right_aligned(&mut self, col_end: usize, row: usize, s: &str, color: TermColor)
        requires
            old(self)@.wf(),
        ensures
            final(self)@ == (if s@.len() <= col_end {
                grid_put_str(old(self)@, col_end - s@.len(), row as int, s@, color)
            } else {
                old(self)@
            }),
            final(self)@.wf(),
    {
        let cs = str_chars(s);
        let len = cs.len();
        if len <= col_end {
            self.put_chars(col_end - len, row, &cs, color);
        }
    }
    /// Renders the grid to a string with ANSI color codes.
    pub fn render(&self) -> (s: String)
        requires
            self@.wf(),
        ensures
            s@ == grid_colored_text(self@),
    {
        let ghost v = self@;
        let ghost rows = Seq::new(v.h, |r: int| colored_row(grid_row_chars(v, r), grid_row_colors(v, r)));
        let mut out = String::new();
        let w = self.width;
        let h = self.height;
        let mut row: usize = 0;
        while row < h
            invariant
                v == self@,
                v.wf(),
                w == v.w,
                h == v.h,
                row <= h,
                rows == Seq::new(v.h, |r: int| colored_row(grid_row_chars(v, r), grid_row_colors(v, r))),
                row == 0 ==> out@ == Seq::<char>::empty(),
                row > 0 ==> out@ == join_lines(rows.take(row as int)) + (if row < h {
                    seq!['\n']
                } else {
                    Seq::<char>::empty()
                }),
            decreases h - row,
        {
            let mut row_chars: Vec<char> = Vec::new();
            let mut row_colors: Vec<TermColor> = Vec::new();
            let mut col: usize = 0;
            while col < w
                invariant
                    v == self@,
                    v.wf(),
                    w == v.w,
                    h == v.h,
                    row < h,
                    col <= w,
                    row_chars@ == grid_row_chars(v, row as int).take(col as int),
                    row_colors@ == grid_row_colors(v, row as int).take(col as int),
                decreases w - col,
            {
                proof {
                    lemma_index_in_range(w as int, h as int, col as int, row as int);
                }
                let idx = row * w + col;
                row_chars.push(self.chars[idx]);
                row_colors.push(self.colors[idx]);
                col += 1;
                assert(row_chars@ =~= grid_row_chars(v, row as int).take(col as int));
                assert(row_colors@ =~= grid_row_colors(v, row as int).take(col as int));
            }
            proof {
                lemma_row_bounds(w as int, h as int, row as int);
                assert(row_chars@ =~= grid_row_chars(v, row as int));
                assert(row_colors@ =~= grid_row_colors(v, row as int));
                lemma_join_lines_push(rows, row as int);
            }
            push_colored_row(&mut out, &row_chars, &row_colors);
            if row < h - 1 {
                string_push(&mut out, '\n');
            }
            row += 1;
            proof {
                assert(out@ =~= join_lines(rows.take(row as int)) + (if row < h {
                    seq!['\n']
                } else {
                    Seq::<char>::empty()
                }));
            }
        }
        assert(rows.take(h as int) =~= rows);
        out
    }

    /// Renders without color codes.
    pub fn render_plain(&self) -> (s: String)
        requires
            self@.wf(),
        ensures
            s@ == grid_plain_text(self@),
    {
        let ghost v = self@;
        let ghost rows = Seq::new(v.h, |r: int| grid_row_chars(v, r));
        let mut out = String::new();
        let w = self.width;
        let h = self.height;
        let mut row: usize = 0;
        while row < h
            invariant
                v == self@,
                v.wf(),
                w == v.w,
                h == v.h,
                row <= h,
                rows == Seq::new(v.h, |r: int| grid_row_chars(v, r)),
                row == 0 ==> out@ == Seq::<char>::empty(),
                row > 0 ==> out@ == join_lines(rows.take(row as int)) + (if row < h {
                    seq!['\n']
                } else {
                    Seq::<char>::empty()
                }),
            decreases h - row,
        {
            let mut row_chars: Vec<char> = Vec::new();
            let mut col: usize = 0;
            while col < w
                invariant
                    v == self@,
                    v.wf(),
                    w == v.w,
                    h == v.h,
                    row < h,
                    col <= w,
                    row_chars@ == grid_row_chars(v, row as int).take(col as int),
                decreases w - col,
            {
                proof {
                    lemma_index_in_range(w as int, h as int, col as int, row as int);
                }
                let idx = row * w + col;
                row_chars.push(self.chars[idx]);
                col += 1;
                assert(row_chars@ =~= grid_row_chars(v, row as int).take(col as int));
            }
            proof {
                lemma_row_bounds(w as int, h as int, row as int);
                assert(row_chars@ =~= grid_row_chars(v, row as int));
                lemma_join_lines_push(rows, row as int);
            }
            push_chars(&mut out, &row_chars);
            if row < h - 1 {
                string_push(&mut out, '\n');
            }
            row += 1;
            proof {
                assert(out@ =~= join_lines(rows.take(row as int)) + (if row < h {
                    seq!['\n']
                } else {
                    Seq::<char>::empty()
                }));
            }
        }
        assert(rows.take(h as int) =~= rows);
        out
    }
}

} // verus!
