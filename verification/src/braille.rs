//! Dense Braille canvas: 2×4 sub-pixels per character cell, one color per cell.

use vstd::prelude::*;

use crate::canvas::{pattern_on, pattern_valid, pixel_bit, pixel_mask, solid, DashPattern};
use crate::line::{
    bres_state, lemma_bres_state, line_point, line_steps, abs, dir, bres_step, law_line_endpoints,
    law_line_in_box_and_distinct, max2, min2,
};
use crate::color::{spec_mix, TermColor};
use crate::textout::{
    braille_char, braille_glyph, colored_row, escapes_are_codes, join_lines, join_rows, lemma_codes_colored,
    lemma_codes_join, lemma_colored_default, lemma_join_lines_push, lemma_shown_join, push_chars,
    push_colored_row, row_cells, shown_cells, string_push,
};

verus! {

/// Abstract state of a Braille canvas: its size in character cells, the dot
/// pattern of each cell and the color of each cell, both in row-major order.
pub struct CanvasView {
    pub cw: nat,
    pub ch: nat,
    pub cells: Seq<u8>,
    pub colors: Seq<TermColor>,
}

impl CanvasView {
    /// Both per-cell sequences have one entry per cell, and the pixel dimensions
    /// fit in a `usize`.
    pub open spec fn wf(self) -> bool {
        &&& self.cells.len() == self.cw * self.ch
        &&& self.colors.len() == self.cw * self.ch
        &&& self.cw * self.ch <= usize::MAX
        &&& self.cw * 2 <= usize::MAX
        &&& self.ch * 4 <= usize::MAX
    }

    /// Width in sub-pixels.
    pub open spec fn pw(self) -> int {
        (self.cw * 2) as int
    }

    /// Height in sub-pixels.
    pub open spec fn ph(self) -> int {
        (self.ch * 4) as int
    }

    /// Whether sub-pixel `(x, y)` lies on the canvas.
    pub open spec fn in_bounds(self, x: int, y: int) -> bool {
        0 <= x < self.pw() && 0 <= y < self.ph()
    }

    /// Index of the cell holding sub-pixel `(x, y)`.
    pub open spec fn cell_index(self, x: int, y: int) -> int {
        (y / 4) * self.cw + x / 2
    }

    /// Whether sub-pixel `(x, y)` is set.
    pub open spec fn lit(self, x: int, y: int) -> bool {
        self.cells[self.cell_index(x, y)] & pixel_bit(y % 4, x % 2) != 0
    }
}

/// The pixel set holding the single sub-pixel `(x, y)`.
pub open spec fn single_pixel(x: int, y: int) -> spec_fn(int, int) -> bool {
    |px: int, py: int| px == x && py == y
}

/// The dot pattern made of the eight flags of one cell: `a0..a3` are the left
/// column top to bottom, `b0..b3` the right column.
pub open spec fn mask8(
    a0: bool,
    a1: bool,
    a2: bool,
    a3: bool,
    b0: bool,
    b1: bool,
    b2: bool,
    b3: bool,
) -> u8 {
    (if a0 { 0x01u8 } else { 0u8 }) | (if a1 { 0x02u8 } else { 0u8 }) | (if a2 { 0x04u8 } else { 0u8 })
        | (if a3 { 0x40u8 } else { 0u8 }) | (if b0 { 0x08u8 } else { 0u8 }) | (if b1 { 0x10u8 } else { 0u8 })
        | (if b2 { 0x20u8 } else { 0u8 }) | (if b3 { 0x80u8 } else { 0u8 })
}

/// The dots of cell `i` (of a canvas `cw` cells wide) that the pixel set `s` covers.
pub open spec fn cell_mask(s: spec_fn(int, int) -> bool, cw: int, i: int) -> u8 {
    let x = (i % cw) * 2;
    let y = (i / cw) * 4;
    mask8(
        s(x, y),
        s(x, y + 1),
        s(x, y + 2),
        s(x, y + 3),
        s(x + 1, y),
        s(x + 1, y + 1),
        s(x + 1, y + 2),
        s(x + 1, y + 3),
    )
}

/// `new` is `old` with every on-canvas sub-pixel of the set `s` set in color `color`:
/// each cell gains the dots of `s` that fall in it, and a cell that `s` touches has
/// `color` mixed into its color; everything else is unchanged.
pub open spec fn painted(
    old: CanvasView,
    new: CanvasView,
    s: spec_fn(int, int) -> bool,
    color: TermColor,
) -> bool {
    &&& new.cw == old.cw
    &&& new.ch == old.ch
    &&& new.cells.len() == old.cells.len()
    &&& new.colors.len() == old.colors.len()
    &&& forall|i: int|
        0 <= i < old.cells.len() ==> #[trigger] new.cells[i] == (old.cells[i] | cell_mask(
            s,
            old.cw as int,
            i,
        ))
    &&& forall|i: int|
        0 <= i < old.colors.len() ==> #[trigger] new.colors[i] == (if cell_mask(s, old.cw as int, i)
            != 0 {
            spec_mix(old.colors[i], color)
        } else {
            old.colors[i]
        })
}

proof fn lemma_mask8_union(
    a0: bool,
    a1: bool,
    a2: bool,
    a3: bool,
    a4: bool,
    a5: bool,
    a6: bool,
    a7: bool,
    b0: bool,
    b1: bool,
    b2: bool,
    b3: bool,
    b4: bool,
    b5: bool,
    b6: bool,
    b7: bool,
)
    by (bit_vector)
    ensures
        mask8(a0 || b0, a1 || b1, a2 || b2, a3 || b3, a4 || b4, a5 || b5, a6 || b6, a7 || b7)
            == mask8(a0, a1, a2, a3, a4, a5, a6, a7) | mask8(b0, b1, b2, b3, b4, b5, b6, b7),
{
}

proof fn lemma_or_facts(x: u8, m1: u8, m2: u8)
    by (bit_vector)
    ensures
        ((x | m1) | m2) == (x | (m1 | m2)),
        ((m1 | m2) != 0) == (m1 != 0 || m2 != 0),
        (x | 0) == x,
{
}

/// Painting two pixel sets one after the other in the same color is painting their union.
pub proof fn lemma_painted_compose(
    a: CanvasView,
    b: CanvasView,
    d: CanvasView,
    s1: spec_fn(int, int) -> bool,
    s2: spec_fn(int, int) -> bool,
    s3: spec_fn(int, int) -> bool,
    color: TermColor,
)
    requires
        painted(a, b, s1, color),
        painted(b, d, s2, color),
        forall|x: int, y: int| #[trigger] s3(x, y) == (s1(x, y) || s2(x, y)),
    ensures
        painted(a, d, s3, color),
{
    let cw = a.cw as int;
    assert forall|i: int| 0 <= i < a.cells.len() implies #[trigger] d.cells[i] == (a.cells[i]
        | cell_mask(s3, cw, i)) by {
        let x = (i % cw) * 2;
        let y = (i / cw) * 4;
        lemma_mask8_union(
            s1(x, y), s1(x, y + 1), s1(x, y + 2), s1(x, y + 3),
            s1(x + 1, y), s1(x + 1, y + 1), s1(x + 1, y + 2), s1(x + 1, y + 3),
            s2(x, y), s2(x, y + 1), s2(x, y + 2), s2(x, y + 3),
            s2(x + 1, y), s2(x + 1, y + 1), s2(x + 1, y + 2), s2(x + 1, y + 3),
        );
        assert(cell_mask(s3, cw, i) == cell_mask(s1, cw, i) | cell_mask(s2, cw, i));
        lemma_or_facts(a.cells[i], cell_mask(s1, cw, i), cell_mask(s2, cw, i));
    }
    assert forall|i: int| 0 <= i < a.colors.len() implies #[trigger] d.colors[i] == (if cell_mask(
        s3,
        cw,
        i,
    ) != 0 {
        spec_mix(a.colors[i], color)
    } else {
        a.colors[i]
    }) by {
        let x = (i % cw) * 2;
        let y = (i / cw) * 4;
        lemma_mask8_union(
            s1(x, y), s1(x, y + 1), s1(x, y + 2), s1(x, y + 3),
            s1(x + 1, y), s1(x + 1, y + 1), s1(x + 1, y + 2), s1(x + 1, y + 3),
            s2(x, y), s2(x, y + 1), s2(x, y + 2), s2(x, y + 3),
            s2(x + 1, y), s2(x + 1, y + 1), s2(x + 1, y + 2), s2(x + 1, y + 3),
        );
        lemma_or_facts(0, cell_mask(s1, cw, i), cell_mask(s2, cw, i));
        crate::color::law_mix_associative(a.colors[i], color, color);
        crate::color::law_mix_idempotent(color);
    }
}

/// Painting an empty pixel set changes nothing; painting is unaffected by replacing
/// the set with an equivalent one.
pub proof fn lemma_painted_equiv(
    a: CanvasView,
    b: CanvasView,
    s1: spec_fn(int, int) -> bool,
    s2: spec_fn(int, int) -> bool,
    color: TermColor,
)
    requires
        painted(a, b, s1, color),
        forall|x: int, y: int| #[trigger] s2(x, y) == s1(x, y),
    ensures
        painted(a, b, s2, color),
{
    let cw = a.cw as int;
    assert forall|i: int| 0 <= i < a.cells.len() implies #[trigger] cell_mask(s2, cw, i) == cell_mask(
        s1,
        cw,
        i,
    ) by {
        let x = (i % cw) * 2;
        let y = (i / cw) * 4;
        assert(s2(x, y) == s1(x, y));
        assert(s2(x, y + 1) == s1(x, y + 1));
        assert(s2(x, y + 2) == s1(x, y + 2));
        assert(s2(x, y + 3) == s1(x, y + 3));
        assert(s2(x + 1, y) == s1(x + 1, y));
        assert(s2(x + 1, y + 1) == s1(x + 1, y + 1));
        assert(s2(x + 1, y + 2) == s1(x + 1, y + 2));
        assert(s2(x + 1, y + 3) == s1(x + 1, y + 3));
    }
}

/// Only the on-canvas part of a pixel set matters: two sets that agree on the canvas
/// paint alike.
pub proof fn lemma_painted_clip(
    a: CanvasView,
    b: CanvasView,
    s1: spec_fn(int, int) -> bool,
    s2: spec_fn(int, int) -> bool,
    color: TermColor,
)
    requires
        a.wf(),
        painted(a, b, s1, color),
        forall|x: int, y: int| a.in_bounds(x, y) ==> #[trigger] s2(x, y) == s1(x, y),
    ensures
        painted(a, b, s2, color),
{
    let cw = a.cw as int;
    assert forall|i: int| 0 <= i < a.cells.len() implies #[trigger] cell_mask(s2, cw, i) == cell_mask(
        s1,
        cw,
        i,
    ) by {
        lemma_cell_position(a, i);
        let x = (i % cw) * 2;
        let y = (i / cw) * 4;
        assert(s2(x, y) == s1(x, y));
        assert(s2(x, y + 1) == s1(x, y + 1));
        assert(s2(x, y + 2) == s1(x, y + 2));
        assert(s2(x, y + 3) == s1(x, y + 3));
        assert(s2(x + 1, y) == s1(x + 1, y));
        assert(s2(x + 1, y + 1) == s1(x + 1, y + 1));
        assert(s2(x + 1, y + 2) == s1(x + 1, y + 2));
        assert(s2(x + 1, y + 3) == s1(x + 1, y + 3));
    }
}

/// Painting the empty set leaves a canvas as it is.
pub proof fn lemma_painted_empty(a: CanvasView, s: spec_fn(int, int) -> bool, color: TermColor)
    requires
        forall|x: int, y: int| !#[trigger] s(x, y),
    ensures
        painted(a, a, s, color),
{
    assert(mask8(false, false, false, false, false, false, false, false) == 0) by (bit_vector);
    assert forall|i: int| 0 <= i < a.cells.len() implies #[trigger] a.cells[i] == (a.cells[i]
        | cell_mask(s, a.cw as int, i)) by {
        let x = (i % a.cw as int) * 2;
        let y = (i / a.cw as int) * 4;
        assert(!s(x, y) && !s(x, y + 1) && !s(x, y + 2) && !s(x, y + 3));
        assert(!s(x + 1, y) && !s(x + 1, y + 1) && !s(x + 1, y + 2) && !s(x + 1, y + 3));
        lemma_or_facts(a.cells[i], 0, 0);
    }
    assert forall|i: int| 0 <= i < a.colors.len() implies #[trigger] cell_mask(s, a.cw as int, i) == 0 by {
        let x = (i % a.cw as int) * 2;
        let y = (i / a.cw as int) * 4;
        assert(!s(x, y) && !s(x, y + 1) && !s(x, y + 2) && !s(x, y + 3));
        assert(!s(x + 1, y) && !s(x + 1, y + 1) && !s(x + 1, y + 2) && !s(x + 1, y + 3));
    }
}

proof fn lemma_mask8_singles()
    by (bit_vector)
    ensures
        mask8(false, false, false, false, false, false, false, false) == 0,
        mask8(true, false, false, false, false, false, false, false) == 0x01,
        mask8(false, true, false, false, false, false, false, false) == 0x02,
        mask8(false, false, true, false, false, false, false, false) == 0x04,
        mask8(false, false, false, true, false, false, false, false) == 0x40,
        mask8(false, false, false, false, true, false, false, false) == 0x08,
        mask8(false, false, false, false, false, true, false, false) == 0x10,
        mask8(false, false, false, false, false, false, true, false) == 0x20,
        mask8(false, false, false, false, false, false, false, true) == 0x80,
{
}

/// The position of cell `i` in the grid, and the fact that its sub-pixels lie on the canvas.
proof fn lemma_cell_position(v: CanvasView, i: int)
    requires
        v.wf(),
        0 <= i < v.cw * v.ch,
    ensures
        v.cw > 0,
        i == (i / v.cw as int) * v.cw + i % v.cw as int,
        0 <= i % (v.cw as int) < v.cw,
        0 <= i / (v.cw as int) < v.ch,
{
    let cw = v.cw as int;
    assert(cw > 0) by (nonlinear_arith)
        requires
            0 <= i < cw * v.ch,
            cw >= 0,
    ;
    vstd::arithmetic::div_mod::lemma_fundamental_div_mod(i, cw);
    let q = i / cw;
    let r = i % cw;
    assert(0 <= q < v.ch) by (nonlinear_arith)
        requires
            i == cw * q + r,
            0 <= r < cw,
            0 <= i < cw * v.ch,
            cw > 0,
    ;
}

/// The dots that a single sub-pixel `(x, y)` contributes to cell `i`: its own bit in its
/// own cell when it is on the canvas, nothing otherwise.
proof fn lemma_single_pixel(v: CanvasView, x: int, y: int, i: int)
    requires
        v.wf(),
        0 <= i < v.cw * v.ch,
    ensures
        cell_mask(single_pixel(x, y), v.cw as int, i) == (if v.in_bounds(x, y)
            && i == v.cell_index(x, y) {
            pixel_bit(y % 4, x % 2)
        } else {
            0u8
        }),
{
    let cw = v.cw as int;
    lemma_cell_position(v, i);
    lemma_mask8_singles();
    let cc = i % cw;
    let cr = i / cw;
    if v.in_bounds(x, y) {
        let qx = x / 2;
        let qy = y / 4;
        assert(qx < cw);
        let idx = qy * cw + qx;
        if i == idx {
            vstd::arithmetic::div_mod::lemma_fundamental_div_mod_converse(idx, cw, qy, qx);
        } else {
            assert(cc != qx || cr != qy);
        }
    }
}


proof fn lemma_mask8_bits(
    c: u8,
    a0: bool,
    a1: bool,
    a2: bool,
    a3: bool,
    b0: bool,
    b1: bool,
    b2: bool,
    b3: bool,
)
    by (bit_vector)
    ensures
        ((c | mask8(a0, a1, a2, a3, b0, b1, b2, b3)) & 0x01 != 0) == ((c & 0x01 != 0) || a0),
        ((c | mask8(a0, a1, a2, a3, b0, b1, b2, b3)) & 0x02 != 0) == ((c & 0x02 != 0) || a1),
        ((c | mask8(a0, a1, a2, a3, b0, b1, b2, b3)) & 0x04 != 0) == ((c & 0x04 != 0) || a2),
        ((c | mask8(a0, a1, a2, a3, b0, b1, b2, b3)) & 0x40 != 0) == ((c & 0x40 != 0) || a3),
        ((c | mask8(a0, a1, a2, a3, b0, b1, b2, b3)) & 0x08 != 0) == ((c & 0x08 != 0) || b0),
        ((c | mask8(a0, a1, a2, a3, b0, b1, b2, b3)) & 0x10 != 0) == ((c & 0x10 != 0) || b1),
        ((c | mask8(a0, a1, a2, a3, b0, b1, b2, b3)) & 0x20 != 0) == ((c & 0x20 != 0) || b2),
        ((c | mask8(a0, a1, a2, a3, b0, b1, b2, b3)) & 0x80 != 0) == ((c & 0x80 != 0) || b3),
{
}

/// Painting a pixel set sets exactly its on-canvas pixels: afterwards a sub-pixel is
/// set when it was set before or belongs to the set. In particular painting never
/// clears a sub-pixel.
pub proof fn law_painted_pixels(
    old: CanvasView,
    new: CanvasView,
    s: spec_fn(int, int) -> bool,
    color: TermColor,
    x: int,
    y: int,
)
    requires
        old.wf(),
        painted(old, new, s, color),
        old.in_bounds(x, y),
    ensures
        new.lit(x, y) == (old.lit(x, y) || s(x, y)),
{
    let cw = old.cw as int;
    let qx = x / 2;
    let qy = y / 4;
    let i = qy * cw + qx;
    let ch = old.ch as int;
    assert(0 <= qx < cw && 0 <= qy < ch);
    assert(0 <= i < cw * ch) by (nonlinear_arith)
        requires
            0 <= qx < cw,
            0 <= qy < ch,
            i == qy * cw + qx,
    ;
    vstd::arithmetic::div_mod::lemma_fundamental_div_mod_converse(i, cw, qy, qx);
    let bx = (i % cw) * 2;
    let by = (i / cw) * 4;
    assert(bx + x % 2 == x && by + y % 4 == y);
    lemma_mask8_bits(
        old.cells[i],
        s(bx, by),
        s(bx, by + 1),
        s(bx, by + 2),
        s(bx, by + 3),
        s(bx + 1, by),
        s(bx + 1, by + 1),
        s(bx + 1, by + 2),
        s(bx + 1, by + 3),
    );
}

/// A line only lights dots inside the bounding box of its end points: every dot that
/// drawing it turns on lies between the end points in both directions.
pub proof fn law_line_stays_in_box(
    old: CanvasView,
    new: CanvasView,
    x0: int,
    y0: int,
    x1: int,
    y1: int,
    segs: Seq<usize>,
    color: TermColor,
    x: int,
    y: int,
)
    requires
        old.wf(),
        painted(old, new, line_pixels(x0, y0, x1, y1, segs), color),
        old.in_bounds(x, y),
        new.lit(x, y),
        !old.lit(x, y),
    ensures
        min2(x0, x1) <= x <= max2(x0, x1),
        min2(y0, y1) <= y <= max2(y0, y1),
{
    law_painted_pixels(old, new, line_pixels(x0, y0, x1, y1, segs), color, x, y);
    let k = choose|k: int|
        0 <= k < line_steps(x0, y0, x1, y1) + 1 && #[trigger] line_point(x0, y0, x1, y1, k) == (x, y)
            && pattern_on(segs, k);
    law_line_in_box_and_distinct(x0, y0, x1, y1, k, k);
}

/// A solid line between two dots of a blank canvas lights both end points and one
/// distinct dot per step: `max(|dx|, |dy|) + 1` dots in all.
pub proof fn law_solid_line_dots(
    old: CanvasView,
    new: CanvasView,
    x0: int,
    y0: int,
    x1: int,
    y1: int,
    color: TermColor,
)
    requires
        old.wf(),
        painted(old, new, line_pixels(x0, y0, x1, y1, seq![1usize]), color),
        old.in_bounds(x0, y0),
        old.in_bounds(x1, y1),
        forall|x: int, y: int| old.in_bounds(x, y) ==> !#[trigger] old.lit(x, y),
    ensures
        new.lit(x0, y0),
        new.lit(x1, y1),
        Set::new(|p: (int, int)| old.in_bounds(p.0, p.1) && new.lit(p.0, p.1)).finite(),
        Set::new(|p: (int, int)| old.in_bounds(p.0, p.1) && new.lit(p.0, p.1)).len() == line_steps(
            x0,
            y0,
            x1,
            y1,
        ) + 1,
{
    let n = line_steps(x0, y0, x1, y1);
    let segs = seq![1usize];
    let sp = line_pixels(x0, y0, x1, y1, segs);
    let f = |k: int| line_point(x0, y0, x1, y1, k);
    let ks = vstd::set_lib::set_int_range(0, n + 1);
    let lit_set = Set::new(|p: (int, int)| old.in_bounds(p.0, p.1) && new.lit(p.0, p.1));
    law_line_endpoints(x0, y0, x1, y1);
    assert(n >= 0);
    law_painted_pixels(old, new, sp, color, x0, y0);
    assert(sp(x0, y0)) by {
        assert(line_point(x0, y0, x1, y1, 0) == (x0, y0));
    }
    law_painted_pixels(old, new, sp, color, x1, y1);
    assert(sp(x1, y1)) by {
        assert(line_point(x0, y0, x1, y1, n) == (x1, y1));
    }
    assert forall|p: (int, int)| lit_set.contains(p) <==> ks.map(f).contains(p) by {
        if lit_set.contains(p) {
            law_painted_pixels(old, new, sp, color, p.0, p.1);
            let k = choose|k: int|
                0 <= k < n + 1 && #[trigger] line_point(x0, y0, x1, y1, k) == (p.0, p.1) && pattern_on(
                    segs,
                    k,
                );
            assert(ks.contains(k) && f(k) == p);
        }
        if ks.map(f).contains(p) {
            let k = choose|k: int| ks.contains(k) && f(k) == p;
            law_line_in_box_and_distinct(x0, y0, x1, y1, k, k);
            assert(old.in_bounds(p.0, p.1));
            law_painted_pixels(old, new, sp, color, p.0, p.1);
            assert(sp(p.0, p.1));
        }
    }
    assert(lit_set =~= ks.map(f));
    assert forall|a: int, b: int| ks.contains(a) && ks.contains(b) && #[trigger] f(a) == #[trigger] f(b) implies a
        == b by {
        law_line_in_box_and_distinct(x0, y0, x1, y1, a, b);
    }
    assert(vstd::relations::injective_on(f, ks));
    vstd::set_lib::lemma_int_range(0, n + 1);
    vstd::set_lib::lemma_map_size(ks, lit_set, f);
}

/// Dense Braille canvas using `Vec<u8>` dot patterns and `Vec<TermColor>` per-cell colors.
pub struct BrailleCanvas {
    char_width: usize,
    char_height: usize,
    /// Dot pattern for each character cell (row-major).
    cells: Vec<u8>,
    /// Foreground color for each character cell (additive RGB mixing).
    colors: Vec<TermColor>,
}

impl View for BrailleCanvas {
    type V = CanvasView;

    closed spec fn view(&self) -> CanvasView {
        CanvasView {
            cw: self.char_width as nat,
            ch: self.char_height as nat,
            cells: self.cells@,
            colors: self.colors@,
        }
    }
}

/// A blank canvas: every cell without dots and in the default color.
pub open spec fn blank_view(cw: nat, ch: nat) -> CanvasView {
    CanvasView {
        cw,
        ch,
        cells: Seq::new(cw * ch, |i: int| 0u8),
        colors: Seq::new(cw * ch, |i: int| TermColor::Default),
    }
}

impl BrailleCanvas {
    /// Creates a new canvas with the given character dimensions.
    pub fn new(char_width: usize, char_height: usize) -> (c: Self)
        requires
            char_width * char_height <= usize::MAX,
            char_width * 2 <= usize::MAX,
            char_height * 4 <= usize::MAX,
        ensures
            c@ == blank_view(char_width as nat, char_height as nat),
            c@.wf(),
    {
        let size = char_width * char_height;
        let mut cells: Vec<u8> = Vec::new();
        let mut colors: Vec<TermColor> = Vec::new();
        let mut k: usize = 0;
        while k < size
            invariant
                k <= size,
                cells@ == Seq::new(k as nat, |i: int| 0u8),
                colors@ == Seq::new(k as nat, |i: int| TermColor::Default),
            decreases size - k,
        {
            cells.push(0);
            colors.push(TermColor::Default);
            k += 1;
            assert(cells@ =~= Seq::new(k as nat, |i: int| 0u8));
            assert(colors@ =~= Seq::new(k as nat, |i: int| TermColor::Default));
        }
        let c = BrailleCanvas { char_width, char_height, cells, colors };
        assert(c@ =~= blank_view(char_width as nat, char_height as nat));
        c
    }

    /// Pixel width (2 sub-pixels per character column).
    pub fn pixel_width(&self) -> (w: usize)
        requires
            self@.wf(),
        ensures
            w == self@.pw(),
    {
        self.char_width * 2
    }

    /// Pixel height (4 sub-pixels per character row).
    pub fn pixel_height(&self) -> (h: usize)
        requires
            self@.wf(),
        ensures
            h == self@.ph(),
    {
        self.char_height * 4
    }

    /// Character width of the canvas.
    pub fn char_width(&self) -> (w: usize)
        ensures
            w == self@.cw,
    {
        self.char_width
    }

    /// Character height of the canvas.
    pub fn char_height(&self) -> (h: usize)
        ensures
            h == self@.ch,
    {
        self.char_height
    }

    /// Returns the dot pattern byte for a cell at the given flat index.
    pub fn cell_byte(&self, idx: usize) -> (b: u8)
        requires
            idx < self@.cells.len(),
        ensures
            b == self@.cells[idx as int],
    {
        self.cells[idx]
    }

    /// Returns the color for a cell at the given flat index.
    pub fn cell_color(&self, idx: usize) -> (c: TermColor)
        requires
            idx < self@.colors.len(),
        ensures
            c == self@.colors[idx as int],
    {
        self.colors[idx]
    }

    /// Sets a single sub-pixel. Out-of-bounds coordinates are silently ignored.
    pub fn set_pixel(&mut self, x: usize, y: usize, color: TermColor)
        requires
            old(self)@.wf(),
        ensures
            final(self)@.wf(),
            painted(old(self)@, final(self)@, single_pixel(x as int, y as int), color),
    {
        let ghost v0 = self@;
        if x >= self.pixel_width() || y >= self.pixel_height() {
            proof {
                assert forall|i: int| 0 <= i < v0.cells.len() implies #[trigger] v0.cells[i] == (
                v0.cells[i] | cell_mask(single_pixel(x as int, y as int), v0.cw as int, i))
                    by {
                    lemma_single_pixel(v0, x as int, y as int, i);
                    lemma_or_facts(v0.cells[i], 0, 0);
                }
                assert forall|i: int| 0 <= i < v0.colors.len() implies #[trigger] cell_mask(
                    single_pixel(x as int, y as int),
                    v0.cw as int,
                    i,
                ) == 0 by {
                    lemma_single_pixel(v0, x as int, y as int, i);
                }
            }
            return;
        }
        let col = x / 2;
        let row = y / 4;
        proof {
            assert(row < self.char_height);
            assert(row * self.char_width + col < self.char_width * self.char_height) by (nonlinear_arith)
                requires
                    row < self.char_height,
                    col < self.char_width,
            ;
        }
        let idx = row * self.char_width + col;
        let bit = pixel_mask(y % 4, x % 2);
        let byte = self.cells[idx] | bit;
        self.cells.set(idx, byte);
        let mixed = self.colors[idx].mix(color);
        self.colors.set(idx, mixed);
        proof {
            let v1 = self@;
            assert forall|i: int| 0 <= i < v0.cells.len() implies #[trigger] v1.cells[i] == (
            v0.cells[i] | cell_mask(single_pixel(x as int, y as int), v0.cw as int, i)) by {
                lemma_single_pixel(v0, x as int, y as int, i);
                lemma_or_facts(v0.cells[i], 0, 0);
            }
            assert forall|i: int| 0 <= i < v0.colors.len() implies #[trigger] v1.colors[i] == (
            if cell_mask(single_pixel(x as int, y as int), v0.cw as int, i) != 0 {
                spec_mix(v0.colors[i], color)
            } else {
                v0.colors[i]
            }) by {
                lemma_single_pixel(v0, x as int, y as int, i);
                assert(pixel_bit(y as int % 4, x as int % 2) != 0);
            }
        }
    }
}

/// The sub-pixels drawn by the first `m` steps of a line from `(x0, y0)` to `(x1, y1)`
/// under the dash pattern `segs`: the points whose step is "on" and whose coordinates
/// are not negative.
pub open spec fn line_pixels_upto(
    x0: int,
    y0: int,
    x1: int,
    y1: int,
    segs: Seq<usize>,
    m: int,
) -> spec_fn(int, int) -> bool {
    |px: int, py: int|
        px >= 0 && py >= 0 && exists|k: int|
            0 <= k < m && #[trigger] line_point(x0, y0, x1, y1, k) == (px, py) && pattern_on(segs, k)
}

/// The sub-pixels drawn for a whole line from `(x0, y0)` to `(x1, y1)` under `segs`.
pub open spec fn line_pixels(x0: int, y0: int, x1: int, y1: int, segs: Seq<usize>) -> spec_fn(
    int,
    int,
) -> bool {
    line_pixels_upto(x0, y0, x1, y1, segs, line_steps(x0, y0, x1, y1) + 1)
}

proof fn lemma_line_upto_step(
    x0: int,
    y0: int,
    x1: int,
    y1: int,
    segs: Seq<usize>,
    k: int,
    drawn: bool,
)
    requires
        k >= 0,
        drawn == (pattern_on(segs, k) && line_point(x0, y0, x1, y1, k).0 >= 0 && line_point(
            x0,
            y0,
            x1,
            y1,
            k,
        ).1 >= 0),
    ensures
        forall|px: int, py: int|
            #[trigger] line_pixels_upto(x0, y0, x1, y1, segs, k + 1)(px, py) == (line_pixels_upto(
                x0,
                y0,
                x1,
                y1,
                segs,
                k,
            )(px, py) || (drawn && line_point(x0, y0, x1, y1, k) == (px, py))),
{
    assert forall|px: int, py: int|
        #[trigger] line_pixels_upto(x0, y0, x1, y1, segs, k + 1)(px, py) == (line_pixels_upto(
            x0,
            y0,
            x1,
            y1,
            segs,
            k,
        )(px, py) || (drawn && line_point(x0, y0, x1, y1, k) == (px, py))) by {
        if line_pixels_upto(x0, y0, x1, y1, segs, k + 1)(px, py) {
            let w = choose|w: int|
                0 <= w < k + 1 && #[trigger] line_point(x0, y0, x1, y1, w) == (px, py)
                    && pattern_on(segs, w);
            if w < k {
                assert(line_pixels_upto(x0, y0, x1, y1, segs, k)(px, py));
            }
        }
        if drawn && line_point(x0, y0, x1, y1, k) == (px, py) {
            assert(line_pixels_upto(x0, y0, x1, y1, segs, k + 1)(px, py));
        }
        if line_pixels_upto(x0, y0, x1, y1, segs, k)(px, py) {
            let w = choose|w: int|
                0 <= w < k && #[trigger] line_point(x0, y0, x1, y1, w) == (px, py)
                    && pattern_on(segs, w);
            assert(line_pixels_upto(x0, y0, x1, y1, segs, k + 1)(px, py));
        }
    }
}

impl BrailleCanvas {
    /// Draws a line using Bresenham's algorithm with optional dash pattern.
    pub fn draw_line(
        &mut self,
        x0: i32,
        y0: i32,
        x1: i32,
        y1: i32,
        color: TermColor,
        dash: &DashPattern,
    )
        requires
            old(self)@.wf(),
            pattern_valid(dash.segments@),
        ensures
            final(self)@.wf(),
            painted(
                old(self)@,
                final(self)@,
                line_pixels(x0 as int, y0 as int, x1 as int, y1 as int, dash.segments@),
                color,
            ),
    {
        let ghost v0 = self@;
        let ghost segs = dash.segments@;
        let ghost gx0 = x0 as int;
        let ghost gy0 = y0 as int;
        let ghost gx1 = x1 as int;
        let ghost gy1 = y1 as int;
        let ghost n = line_steps(gx0, gy0, gx1, gy1);
        let dx: i64 = if x1 as i64 >= x0 as i64 { x1 as i64 - x0 as i64 } else { x0 as i64 - x1 as i64 };
        let dy: i64 = if y1 as i64 >= y0 as i64 { -(y1 as i64 - y0 as i64) } else { -(y0 as i64 - y1 as i64) };
        let sx: i32 = if x0 < x1 { 1 } else { -1 };
        let sy: i32 = if y0 < y1 { 1 } else { -1 };
        let mut err: i64 = dx + dy;
        let mut x = x0;
        let mut y = y0;
        let mut step: usize = 0;
        proof {
            lemma_painted_empty(v0, line_pixels_upto(gx0, gy0, gx1, gy1, segs, 0), color);
        }
        loop
            invariant_except_break
                self@.wf(),
                0 <= step <= n,
                n == line_steps(gx0, gy0, gx1, gy1),
                gx0 == x0 as int,
                gy0 == y0 as int,
                gx1 == x1 as int,
                gy1 == y1 as int,
                dx == abs(gx1 - gx0),
                dy == -abs(gy1 - gy0),
                sx == dir(gx0, gx1),
                sy == dir(gy0, gy1),
                pattern_valid(segs),
                segs == dash.segments@,
                (x as int, y as int, err as int) == bres_state(gx0, gy0, gx1, gy1, step as nat),
                painted(v0, self@, line_pixels_upto(gx0, gy0, gx1, gy1, segs, step as int), color),
            ensures
                self@.wf(),
                painted(v0, self@, line_pixels_upto(gx0, gy0, gx1, gy1, segs, n + 1), color),
            decreases n - step,
        {
            proof {
                lemma_bres_state(gx0, gy0, gx1, gy1, step as nat);
                let st = bres_state(gx0, gy0, gx1, gy1, step as nat);
                assert(crate::line::bres_inv(gx0, gy0, gx1, gy1, step as int, st));
                let a = abs(gx1 - gx0);
                let b = abs(gy1 - gy0);
                let i = crate::line::progress(gx0, gx1, st.0);
                let j = crate::line::progress(gy0, gy1, st.1);
                assert(st.2 == (a * j - b * i) + a - b) by (nonlinear_arith)
                    requires
                        st.2 == a * (j + 1) - b * (i + 1),
                ;
                assert(a <= 0x1_0000_0000 && b <= 0x1_0000_0000);
                assert(-0x4_0000_0000 <= err <= 0x4_0000_0000);
            }
            let ghost before = self@;
            let ghost k = step as int;
            let on = dash.is_on(step);
            proof {
                lemma_line_upto_step(gx0, gy0, gx1, gy1, segs, k, on && x >= 0 && y >= 0);
            }
            if on && x >= 0 && y >= 0 {
                self.set_pixel(x as usize, y as usize, color);
                proof {
                    lemma_painted_compose(
                        v0,
                        before,
                        self@,
                        line_pixels_upto(gx0, gy0, gx1, gy1, segs, k),
                        single_pixel(x as int, y as int),
                        line_pixels_upto(gx0, gy0, gx1, gy1, segs, k + 1),
                        color,
                    );
                }
            } else {
                proof {
                    lemma_painted_equiv(
                        v0,
                        self@,
                        line_pixels_upto(gx0, gy0, gx1, gy1, segs, k),
                        line_pixels_upto(gx0, gy0, gx1, gy1, segs, k + 1),
                        color,
                    );
                }
            }
            if x == x1 && y == y1 {
                assert(k == n);
                break;
            }
            proof {
                lemma_bres_state(gx0, gy0, gx1, gy1, (step + 1) as nat);
                let nx = bres_state(gx0, gy0, gx1, gy1, (step + 1) as nat);
                assert(i32::MIN <= nx.0 <= i32::MAX);
                assert(i32::MIN <= nx.1 <= i32::MAX);
            }
            let e2 = 2 * err;
            if e2 >= dy {
                err += dy;
                x += sx;
            }
            if e2 <= dx {
                err += dx;
                y += sy;
            }
            step += 1;
        }
    }

    /// Draws a solid line (convenience wrapper).
    pub fn draw_line_solid(&mut self, x0: i32, y0: i32, x1: i32, y1: i32, color: TermColor)
        requires
            old(self)@.wf(),
        ensures
            final(self)@.wf(),
            painted(
                old(self)@,
                final(self)@,
                line_pixels(x0 as int, y0 as int, x1 as int, y1 as int, seq![1usize]),
                color,
            ),
    {
        let d = solid();
        proof {
            assert(d.segments@.len() == 1);
        }
        self.draw_line(x0, y0, x1, y1, color, &d);
    }
}

/// The Braille characters of row `r` of a canvas.
pub open spec fn canvas_row_chars(v: CanvasView, r: int) -> Seq<char> {
    Seq::new(v.cw, |c: int| braille_char(v.cells[r * v.cw + c]))
}

/// The colors of row `r` of a canvas.
pub open spec fn canvas_row_colors(v: CanvasView, r: int) -> Seq<TermColor> {
    v.colors.subrange(r * v.cw, r * v.cw + v.cw)
}

/// The canvas as plain Braille text: one line per character row.
pub open spec fn canvas_plain_text(v: CanvasView) -> Seq<char> {
    join_lines(Seq::new(v.ch, |r: int| canvas_row_chars(v, r)))
}

/// The canvas as Braille text with ANSI color codes: one line per character row.
pub open spec fn canvas_colored_text(v: CanvasView) -> Seq<char> {
    join_lines(
        Seq::new(v.ch, |r: int| colored_row(canvas_row_chars(v, r), canvas_row_colors(v, r))),
    )
}

/// The colored rendering of a canvas uses escapes only for color codes and the reset,
/// and a canvas whose cells all have the default color renders with no escape at all:
/// its colored and plain renderings are the same text.
pub proof fn law_canvas_render_codes(v: CanvasView)
    requires
        v.wf(),
    ensures
        escapes_are_codes(canvas_colored_text(v)),
        (forall|i: int| 0 <= i < v.colors.len() ==> #[trigger] v.colors[i] == TermColor::Default)
            ==> canvas_colored_text(v) == canvas_plain_text(v),
{
    let colored = Seq::new(v.ch, |r: int| colored_row(canvas_row_chars(v, r), canvas_row_colors(v, r)));
    let plain = Seq::new(v.ch, |r: int| canvas_row_chars(v, r));
    assert forall|r: int| 0 <= r < colored.len() implies escapes_are_codes(#[trigger] colored[r]) by {
        let chars = canvas_row_chars(v, r);
        assert forall|k: int| 0 <= k < chars.len() implies chars[k] != '\x1b' by {
            let b = v.cells[r * v.cw + k];
            assert(braille_char(b) as int == 0x2800 + b);
        }
        lemma_codes_colored(chars, canvas_row_colors(v, r), 0, TermColor::Default);
    }
    lemma_codes_join(colored);
    if forall|i: int| 0 <= i < v.colors.len() ==> #[trigger] v.colors[i] == TermColor::Default {
        assert forall|r: int| 0 <= r < colored.len() implies #[trigger] colored[r] == plain[r] by {
            let chars = canvas_row_chars(v, r);
            let cols = canvas_row_colors(v, r);
            if v.cw > 0 {
                lemma_row_in_range(v.cw as int, v.ch as int, r, v.cw - 1);
                lemma_row_in_range(v.cw as int, v.ch as int, r, 0);
            }
            assert forall|k: int| 0 <= k < chars.len() implies cols[k] == TermColor::Default by {
                lemma_row_in_range(v.cw as int, v.ch as int, r, k);
                assert(cols[k] == v.colors[r * v.cw + k]);
            }
            lemma_colored_default(chars, cols, 0);
            assert(chars.subrange(0, chars.len() as int) =~= chars);
        }
        assert(colored =~= plain);
    }
}

/// What a terminal shows for a rendered canvas: row by row, each cell's Braille
/// character in that cell's color, with a newline (in the default color) between rows.
pub proof fn law_canvas_render_shows_cells(v: CanvasView)
    requires
        v.wf(),
    ensures
        shown_cells(canvas_colored_text(v), TermColor::Default) == join_rows(
            Seq::new(
                v.ch,
                |r: int| Seq::new(v.cw, |c: int| (braille_char(v.cells[r * v.cw + c]), v.colors[r * v.cw + c])),
            ),
            ('\n', TermColor::Default),
        ),
{
    let cs = Seq::new(v.ch, |r: int| canvas_row_chars(v, r));
    let ks = Seq::new(v.ch, |r: int| canvas_row_colors(v, r));
    assert forall|r: int| 0 <= r < cs.len() implies (#[trigger] cs[r]).len() == ks[r].len() by {
        lemma_row_span(v.cw as int, v.ch as int, r);
    }
    assert forall|r: int, k: int| 0 <= r < cs.len() && 0 <= k < cs[r].len() implies #[trigger] cs[r][k] != '\x1b' by {
        let b = v.cells[r * v.cw + k];
        assert(braille_char(b) as int == 0x2800 + b);
    }
    lemma_shown_join(cs, ks, Seq::empty());
    assert(Seq::new(cs.len(), |r: int| colored_row(cs[r], ks[r])) =~= Seq::new(
        v.ch,
        |r: int| colored_row(canvas_row_chars(v, r), canvas_row_colors(v, r)),
    ));
    let want = Seq::new(
        v.ch,
        |r: int| Seq::new(v.cw, |c: int| (braille_char(v.cells[r * v.cw + c]), v.colors[r * v.cw + c])),
    );
    assert forall|r: int| 0 <= r < v.ch implies #[trigger] row_cells(cs[r], ks[r]) == want[r] by {
        lemma_row_span(v.cw as int, v.ch as int, r);
        assert forall|c: int| 0 <= c < v.cw implies ks[r][c] == v.colors[r * v.cw + c] by {
            lemma_row_in_range(v.cw as int, v.ch as int, r, c);
        }
        assert(row_cells(cs[r], ks[r]) =~= want[r]);
    }
    assert(Seq::new(cs.len(), |r: int| row_cells(cs[r], ks[r])) =~= want);
    let j = join_lines(Seq::new(cs.len(), |r: int| colored_row(cs[r], ks[r])));
    assert(j + Seq::<char>::empty() =~= j);
    assert(join_rows(want, ('\n', TermColor::Default)) + Seq::<(char, TermColor)>::empty() =~= join_rows(
        want,
        ('\n', TermColor::Default),
    ));
}

proof fn lemma_row_span(cw: int, ch: int, r: int)
    requires
        0 <= r < ch,
        0 <= cw,
    ensures
        0 <= r * cw,
        r * cw + cw <= cw * ch,
{
    assert(0 <= r * cw) by (nonlinear_arith)
        requires
            0 <= r,
            0 <= cw,
    ;
    assert(r * cw + cw <= cw * ch) by (nonlinear_arith)
        requires
            0 <= r < ch,
            0 <= cw,
    ;
}

proof fn lemma_row_in_range(cw: int, ch: int, r: int, c: int)
    requires
        0 <= r < ch,
        0 <= c < cw,
    ensures
        0 <= r * cw + c < cw * ch,
{
    assert(0 <= r * cw + c < cw * ch) by (nonlinear_arith)
        requires
            0 <= r < ch,
            0 <= c < cw,
    ;
}

/// A cell position of a well-formed canvas indexes its cell sequences.
pub proof fn lemma_cell_index_in_range(v: CanvasView, r: int, c: int)
    requires
        v.wf(),
        0 <= r < v.ch,
        0 <= c < v.cw,
    ensures
        0 <= r * v.cw + c < v.cells.len(),
        r * v.cw + c <= usize::MAX,
{
    lemma_row_in_range(v.cw as int, v.ch as int, r, c);
}

proof fn lemma_row_end(cw: int, ch: int, r: int)
    requires
        0 <= r < ch,
        0 <= cw,
    ensures
        0 <= r * cw,
        r * cw + cw <= cw * ch,
{
    assert(0 <= r * cw) by (nonlinear_arith)
        requires
            0 <= r,
            0 <= cw,
    ;
    assert(r * cw + cw <= cw * ch) by (nonlinear_arith)
        requires
            0 <= r < ch,
            0 <= cw,
    ;
}

impl BrailleCanvas {
    /// Clears all cells to blank.
    pub fn clear(&mut self)
        requires
            old(self)@.wf(),
        ensures
            final(self)@ == blank_view(old(self)@.cw, old(self)@.ch),
            final(self)@.wf(),
    {
        let n = self.cells.len();
        let mut k: usize = 0;
        while k < n
            invariant
                n == self.cells@.len(),
                self.colors@.len() == n,
                n == self.char_width * self.char_height,
                self.char_width == old(self).char_width,
                self.char_height == old(self).char_height,
                k <= n,
                forall|i: int| 0 <= i < k ==> self.cells@[i] == 0u8,
                forall|i: int| 0 <= i < k ==> self.colors@[i] == TermColor::Default,
            decreases n - k,
        {
            self.cells.set(k, 0);
            self.colors.set(k, TermColor::Default);
            k += 1;
        }
        assert(self.cells@ =~= blank_view(self.char_width as nat, self.char_height as nat).cells);
        assert(self.colors@ =~= blank_view(self.char_width as nat, self.char_height as nat).colors);
    }

    /// Renders the canvas to a string with ANSI color codes.
    pub fn render(&self) -> (s: String)
        requires
            self@.wf(),
        ensures
            s@ == canvas_colored_text(self@),
    {
        let ghost v = self@;
        let ghost rows = Seq::new(
            v.ch,
            |r: int| colored_row(canvas_row_chars(v, r), canvas_row_colors(v, r)),
        );
        let mut out = String::new();
        let w = self.char_width;
        let h = self.char_height;
        let mut row: usize = 0;
        while row < h
            invariant
                v == self@,
                v.wf(),
                w == v.cw,
                h == v.ch,
                row <= h,
                rows == Seq::new(
                    v.ch,
                    |r: int| colored_row(canvas_row_chars(v, r), canvas_row_colors(v, r)),
                ),
                row == 0 ==> out@ == Seq::<char>::empty(),
                row > 0 ==> out@ == join_lines(rows.take(row as int)) + (if row < h {
                    seq!['\n']
                } else {
                    Seq::<char>::empty()
                }),
            decreases h - row,
        {
            let mut row_chars: Vec<char> = Vec::new();
            let mut row_colors: Vec<TermColor> = Vec::new();
            let mut col: usize = 0;
            while col < w
                invariant
                    v == self@,
                    v.wf(),
                    w == v.cw,
                    h == v.ch,
                    row < h,
                    col <= w,
                    row_chars@ == canvas_row_chars(v, row as int).take(col as int),
                    row_colors@ == canvas_row_colors(v, row as int).take(col as int),
                decreases w - col,
            {
                proof {
                    lemma_row_in_range(w as int, h as int, row as int, col as int);
                    lemma_row_end(w as int, h as int, row as int);
                }
                let idx = row * w + col;
                row_chars.push(braille_glyph(self.cells[idx]));
                row_colors.push(self.colors[idx]);
                col += 1;
                assert(row_chars@ =~= canvas_row_chars(v, row as int).take(col as int));
                assert(row_colors@ =~= canvas_row_colors(v, row as int).take(col as int));
            }
            proof {
                lemma_row_end(w as int, h as int, row as int);
                assert(row_chars@ =~= canvas_row_chars(v, row as int));
                assert(row_colors@ =~= canvas_row_colors(v, row as int));
                lemma_join_lines_push(rows, row as int);
            }
            let ghost before = out@;
            push_colored_row(&mut out, &row_chars, &row_colors);
            if row < h - 1 {
                string_push(&mut out, '\n');
            }
            row += 1;
            proof {
                if row == 1 {
                    assert(out@ =~= join_lines(rows.take(row as int)) + (if row < h {
                        seq!['\n']
                    } else {
                        Seq::<char>::empty()
                    }));
                } else {
                    assert(out@ =~= join_lines(rows.take(row as int)) + (if row < h {
                        seq!['\n']
                    } else {
                        Seq::<char>::empty()
                    }));
                }
            }
        }
        assert(rows.take(h as int) =~= rows);
        out
    }

    /// Renders without color codes (plain Braille characters).
    pub fn render_plain(&self) -> (s: String)
        requires
            self@.wf(),
        ensures
            s@ == canvas_plain_text(self@),
    {
        let ghost v = self@;
        let ghost rows = Seq::new(v.ch, |r: int| canvas_row_chars(v, r));
        let mut out = String::new();
        let w = self.char_width;
        let h = self.char_height;
        let mut row: usize = 0;
        while row < h
            invariant
                v == self@,
                v.wf(),
                w == v.cw,
                h == v.ch,
                row <= h,
                rows == Seq::new(v.ch, |r: int| canvas_row_chars(v, r)),
                row == 0 ==> out@ == Seq::<char>::empty(),
                row > 0 ==> out@ == join_lines(rows.take(row as int)) + (if row < h {
                    seq!['\n']
                } else {
                    Seq::<char>::empty()
                }),
            decreases h - row,
        {
            let mut row_chars: Vec<char> = Vec::new();
            let mut col: usize = 0;
            while col < w
                invariant
                    v == self@,
                    v.wf(),
                    w == v.cw,
                    h == v.ch,
                    row < h,
                    col <= w,
                    row_chars@ == canvas_row_chars(v, row as int).take(col as int),
                decreases w - col,
            {
                proof {
                    lemma_row_in_range(w as int, h as int, row as int, col as int);
                }
                let idx = row * w + col;
                row_chars.push(braille_glyph(self.cells[idx]));
                col += 1;
                assert(row_chars@ =~= canvas_row_chars(v, row as int).take(col as int));
            }
            proof {
                assert(row_chars@ =~= canvas_row_chars(v, row as int));
                lemma_join_lines_push(rows, row as int);
            }
            push_chars(&mut out, &row_chars);
            if row < h - 1 {
                string_push(&mut out, '\n');
            }
            row += 1;
            proof {
                assert(out@ =~= join_lines(rows.take(row as int)) + (if row < h {
                    seq!['\n']
                } else {
                    Seq::<char>::empty()
                }));
            }
        }
        assert(rows.take(h as int) =~= rows);
        out
    }
}

} // verus!
