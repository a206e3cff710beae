//! Drawing the plot frame: border, tick marks and labels, title and axis labels.

use vstd::prelude::*;

use crate::chars::str_chars;
use crate::color::TermColor;
use crate::layout::{byte_len, string_byte_len, Layout, LayoutConfig, TickLabels};
use crate::text::{
    apply_puts, blank_grid, centered_start, concat_puts, lemma_apply_puts_append,
    lemma_apply_puts_wf, lemma_put_str_as_puts, grid_put_str, str_puts, GridView, Put, TextGrid,
};

verus! {

/// One placement in the default color.
pub open spec fn put1(col: int, row: int, c: char) -> Seq<Put> {
    seq![(col, row, c, TermColor::Default)]
}

/// `a - b`, or 0 when that would be negative.
pub open spec fn sat_sub(a: int, b: int) -> int {
    if a >= b { a - b } else { 0 }
}

/// A horizontal border from column `from` to `to` on `row`: the two corner characters
/// at the ends and `mid` in between.
pub open spec fn hline_puts(row: int, from: int, to: int, left: char, mid: char, right: char) -> Seq<Put> {
    put1(from, row, left) + Seq::new(sat_sub(to, from + 1) as nat, |i: int| (from + 1 + i, row, mid, TermColor::Default))
        + put1(to, row, right)
}

/// The vertical borders: `'│'` at columns `bl` and `br` on rows `r0..r1`.
pub open spec fn side_puts(bl: int, br: int, r0: int, r1: int) -> Seq<Put> {
    concat_puts(side_fn(bl, br, r0), r1 - r0)
}

/// The two side-border placements of the `i`-th canvas row.
pub open spec fn side_fn(bl: int, br: int, r0: int) -> spec_fn(int) -> Seq<Put> {
    |i: int| put1(bl, r0 + i, '│') + put1(br, r0 + i, '│')
}

/// Cells between consecutive ticks when `n` ticks span `extent` cells (at least 1).
pub open spec fn tick_step(n: int, extent: int) -> int {
    if n > 1 {
        let s = (extent - 1) / (n - 1);
        if s >= 1 { s } else { 1 }
    } else {
        1
    }
}

/// Canvas row of the `i`-th of `n` y ticks (ascending values from the bottom);
/// a single tick sits in the middle.
pub open spec fn y_tick_cell(n: int, i: int, extent: int) -> int {
    if n > 1 { (n - 1 - i) * tick_step(n, extent) } else { extent / 2 }
}

/// Canvas column of the `j`-th of `n` x ticks; a single tick sits in the middle.
pub open spec fn x_tick_cell(n: int, j: int, extent: int) -> int {
    if n > 1 { j * tick_step(n, extent) } else { extent / 2 }
}

/// `s` right-aligned to end before column `end`, or nothing when it does not fit.
pub open spec fn right_puts(end: int, row: int, s: Seq<char>) -> Seq<Put> {
    if s.len() <= end { str_puts(end - s.len(), row, s, TermColor::Default) } else { Seq::empty() }
}

/// `s` written downwards from `(col, row)`.
pub open spec fn vertical_puts(col: int, row: int, s: Seq<char>) -> Seq<Put> {
    Seq::new(s.len(), |i: int| (col, row + i, s[i], TermColor::Default))
}

/// The title, centered on the whole width, when the layout has a title row.
pub open spec fn title_puts(l: Layout, c: LayoutConfig) -> Seq<Put> {
    if l.title_row is Some && c.title is Some {
        let t = c.title->0@;
        str_puts(centered_start(0, c.total_width as int, t.len() as int), l.title_row->0 as int, t, TermColor::Default)
    } else {
        Seq::empty()
    }
}

/// The border around the canvas: top and bottom lines with corners, then the sides.
pub open spec fn border_puts(l: Layout) -> Seq<Put> {
    let bt = l.canvas_row - 1;
    let bb = l.canvas_row + l.canvas_char_height;
    let bl = l.canvas_col - 1;
    let br = l.canvas_col + l.canvas_char_width;
    hline_puts(bt, bl, br, '┌', '─', '┐') + hline_puts(bb, bl, br, '└', '─', '┘') + side_puts(
        bl,
        br,
        l.canvas_row as int,
        bb,
    )
}

/// The y ticks: each label right-aligned against the tick column, then `'┤'` on the
/// left border at the tick's row.
pub open spec fn ytick_puts(l: Layout, labels: Seq<String>) -> Seq<Put> {
    concat_puts(ytick_fn(l, labels), labels.len() as int)
}

/// The placements of the `i`-th y tick.
pub open spec fn ytick_fn(l: Layout, labels: Seq<String>) -> spec_fn(int) -> Seq<Put> {
    |i: int|
        {
            let row = l.canvas_row + y_tick_cell(labels.len() as int, i, l.canvas_char_height as int);
            right_puts(l.y_tick_col_end as int, row, labels[i]@) + put1(l.canvas_col - 1, row, '┤')
        }
}

/// The y2 ticks: each label from the y2 tick column, then `'├'` on the right border.
pub open spec fn y2tick_puts(l: Layout, c: LayoutConfig) -> Seq<Put> {
    if c.y2_ticks is Some && l.y2_tick_col_start is Some {
        let labels = c.y2_ticks->0.labels@;
        concat_puts(y2tick_fn(l, labels, l.y2_tick_col_start->0 as int), labels.len() as int)
    } else {
        Seq::empty()
    }
}

/// The placements of the `i`-th y2 tick, whose labels start at column `start`.
pub open spec fn y2tick_fn(l: Layout, labels: Seq<String>, start: int) -> spec_fn(int) -> Seq<Put> {
    |i: int|
        {
            let row = l.canvas_row + y_tick_cell(labels.len() as int, i, l.canvas_char_height as int);
            str_puts(start, row, labels[i]@, TermColor::Default) + put1(
                l.canvas_col + l.canvas_char_width,
                row,
                '├',
            )
        }
}

/// Column of the `j`-th of `n` x ticks in the grid.
pub open spec fn x_tick_col(l: Layout, n: int, j: int) -> int {
    l.canvas_col + x_tick_cell(n, j, l.canvas_char_width as int)
}

/// Where an x tick label starts: half its byte length left of the tick, not before column 0.
pub open spec fn x_label_start(l: Layout, n: int, j: int, label: Seq<char>) -> int {
    sat_sub(x_tick_col(l, n, j), byte_len(label) / 2)
}

/// The x ticks: `'┬'` on the bottom border, then the label below it on the x tick row.
pub open spec fn xtick_puts(l: Layout, labels: Seq<String>) -> Seq<Put> {
    concat_puts(
        xtick_fn(l, labels, l.canvas_row + l.canvas_char_height, l.x_tick_row as int, '┬'),
        labels.len() as int,
    )
}

/// The placements of the `j`-th tick of a horizontal axis: `mark` on the border row
/// `border`, then the label on row `label_row`.
pub open spec fn xtick_fn(l: Layout, labels: Seq<String>, border: int, label_row: int, mark: char) -> spec_fn(
    int,
) -> Seq<Put> {
    |j: int|
        put1(x_tick_col(l, labels.len() as int, j), border, mark) + str_puts(
            x_label_start(l, labels.len() as int, j, labels[j]@),
            label_row,
            labels[j]@,
            TermColor::Default,
        )
}

/// The x2 ticks: `'┴'` on the top border, then the label on the x2 tick row.
pub open spec fn x2tick_puts(l: Layout, c: LayoutConfig) -> Seq<Put> {
    if c.x2_ticks is Some && l.x2_tick_row is Some {
        let labels = c.x2_ticks->0.labels@;
        concat_puts(
            xtick_fn(l, labels, l.canvas_row - 1, l.x2_tick_row->0 as int, '┴'),
            labels.len() as int,
        )
    } else {
        Seq::empty()
    }
}

/// An axis label centered under (or over) the canvas on `row`.
pub open spec fn hlabel_puts(l: Layout, row: Option<usize>, label: Option<String>) -> Seq<Put> {
    if row is Some && label is Some {
        let t = label->0@;
        str_puts(
            centered_start(l.canvas_col as int, l.canvas_char_width as int, t.len() as int),
            row->0 as int,
            t,
            TermColor::Default,
        )
    } else {
        Seq::empty()
    }
}

/// Row where a vertical label starts: centered on the canvas height (from its top when
/// it is taller).
pub open spec fn vlabel_start(l: Layout, n: int) -> int {
    l.canvas_row + sat_sub(l.canvas_char_height as int, n) / 2
}

/// A y axis label written downwards in column `col`, centered on the canvas height.
pub open spec fn vlabel_puts(l: Layout, col: Option<usize>, label: Option<String>) -> Seq<Put> {
    if col is Some && label is Some {
        let t = label->0@;
        vertical_puts(col->0 as int, vlabel_start(l, t.len() as int), t)
    } else {
        Seq::empty()
    }
}

/// The x axes read left to right: the mark of the `j`-th tick of a horizontal axis
/// (x or x2, on any border row) is in the column of the `j`-th of as many ticks on the
/// other; on a canvas tick-aligned for `n > 1` ticks, tick 0 is in the first canvas
/// column, tick `n - 1` in the last, and a later tick is always further right.
pub proof fn law_x_axes_tick_columns(
    l: Layout,
    labels: Seq<String>,
    labels2: Seq<String>,
    border: int,
    border2: int,
    row: int,
    row2: int,
    j: int,
    k: int,
)
    requires
        labels.len() == labels2.len(),
        0 <= j < labels.len(),
        0 <= k < labels.len(),
    ensures
        xtick_fn(l, labels, border, row, '┬')(j)[0].0 == xtick_fn(l, labels2, border2, row2, '┴')(j)[0].0,
        xtick_fn(l, labels, border, row, '┬')(j)[0].1 == border,
        xtick_fn(l, labels, border, row, '┬')(j)[0].2 == '┬',
        ({
            let n = labels.len() as int;
            let w = l.canvas_char_width as int;
            n > 1 && w >= n && (w - 1) % (n - 1) == 0 ==> {
                &&& xtick_fn(l, labels, border, row, '┬')(0)[0].0 == l.canvas_col
                &&& xtick_fn(l, labels, border, row, '┬')(n - 1)[0].0 == l.canvas_col + w - 1
                &&& (j < k ==> xtick_fn(l, labels, border, row, '┬')(j)[0].0 < xtick_fn(
                    l,
                    labels,
                    border,
                    row,
                    '┬',
                )(k)[0].0)
            }
        }),
{
    let n = labels.len() as int;
    let w = l.canvas_char_width as int;
    if n > 1 && w >= n && (w - 1) % (n - 1) == 0 {
        let st = (w - 1) / (n - 1);
        vstd::arithmetic::div_mod::lemma_fundamental_div_mod(w - 1, n - 1);
        assert(st >= 1) by (nonlinear_arith)
            requires
                st == (w - 1) / (n - 1),
                w - 1 >= n - 1,
                n - 1 >= 1,
        ;
        assert(tick_step(n, w) == st);
        assert((n - 1) * st == w - 1) by (nonlinear_arith)
            requires
                (n - 1) * st + (w - 1) % (n - 1) == w - 1,
                (w - 1) % (n - 1) == 0,
        ;
        assert(0 * st == 0) by (nonlinear_arith);
        if j < k {
            assert(j * st < k * st) by (nonlinear_arith)
                requires
                    j < k,
                    st >= 1,
            ;
        }
    }
}

/// The y2 axis reads like the y axis: with as many y2 ticks as y ticks, the mark of the
/// `i`-th y2 tick (`'├'` on the right border) is on the row of the mark of the `i`-th y
/// tick (`'┤'` on the left border). On a canvas tick-aligned for `n > 1` ticks, tick 0
/// is on the last canvas row, tick `n - 1` on the first, and a later tick is always
/// higher up.
pub proof fn law_y_axes_tick_rows(
    l: Layout,
    ylabels: Seq<String>,
    y2labels: Seq<String>,
    start: int,
    i: int,
    j: int,
)
    requires
        ylabels.len() == y2labels.len(),
        0 <= i < ylabels.len(),
        0 <= j < ylabels.len(),
    ensures
        y2tick_fn(l, y2labels, start)(i).last().1 == ytick_fn(l, ylabels)(i).last().1,
        y2tick_fn(l, y2labels, start)(i).last().2 == '├',
        ytick_fn(l, ylabels)(i).last().2 == '┤',
        ({
            let n = ylabels.len() as int;
            let h = l.canvas_char_height as int;
            n > 1 && h >= n && (h - 1) % (n - 1) == 0 ==> {
                &&& ytick_fn(l, ylabels)(0).last().1 == l.canvas_row + h - 1
                &&& ytick_fn(l, ylabels)(n - 1).last().1 == l.canvas_row
                &&& (i < j ==> ytick_fn(l, ylabels)(j).last().1 < ytick_fn(l, ylabels)(i).last().1)
            }
        }),
{
    let n = ylabels.len() as int;
    let h = l.canvas_char_height as int;
    let row_i = l.canvas_row + y_tick_cell(n, i, h);
    let a = right_puts(l.y_tick_col_end as int, row_i, ylabels[i]@);
    assert((a + put1(l.canvas_col - 1, row_i, '┤')).last() == (l.canvas_col - 1, row_i, '┤', TermColor::Default));
    let b = str_puts(start, row_i, y2labels[i]@, TermColor::Default);
    assert((b + put1(l.canvas_col + l.canvas_char_width, row_i, '├')).last() == (
        l.canvas_col + l.canvas_char_width,
        row_i,
        '├',
        TermColor::Default,
    ));
    if n > 1 && h >= n && (h - 1) % (n - 1) == 0 {
        let st = (h - 1) / (n - 1);
        vstd::arithmetic::div_mod::lemma_fundamental_div_mod(h - 1, n - 1);
        assert(st >= 1) by (nonlinear_arith)
            requires
                st == (h - 1) / (n - 1),
                h - 1 >= n - 1,
                n - 1 >= 1,
        ;
        assert(tick_step(n, h) == st);
        assert((n - 1 - 0) * st == h - 1) by (nonlinear_arith)
            requires
                (n - 1) * st + (h - 1) % (n - 1) == h - 1,
                (h - 1) % (n - 1) == 0,
        ;
        let row_0 = l.canvas_row + y_tick_cell(n, 0, h);
        let a0 = right_puts(l.y_tick_col_end as int, row_0, ylabels[0]@);
        assert((a0 + put1(l.canvas_col - 1, row_0, '┤')).last().1 == row_0);
        let row_t = l.canvas_row + y_tick_cell(n, n - 1, h);
        let at = right_puts(l.y_tick_col_end as int, row_t, ylabels[n - 1]@);
        assert((at + put1(l.canvas_col - 1, row_t, '┤')).last().1 == row_t);
        assert((n - 1 - (n - 1)) * st == 0) by (nonlinear_arith);
        if i < j {
            let row_j = l.canvas_row + y_tick_cell(n, j, h);
            let aj = right_puts(l.y_tick_col_end as int, row_j, ylabels[j]@);
            assert((aj + put1(l.canvas_col - 1, row_j, '┤')).last().1 == row_j);
            assert((n - 1 - j) * st < (n - 1 - i) * st) by (nonlinear_arith)
                requires
                    i < j,
                    st >= 1,
            ;
        }
    }
}

/// Every placement of the frame, in drawing order: title, border, y ticks, y2 ticks,
/// x ticks, x2 ticks, x label, x2 label, y label, y2 label.
pub open spec fn frame_puts(l: Layout, c: LayoutConfig, x: TickLabels, y: TickLabels) -> Seq<Put> {
    title_puts(l, c) + border_puts(l) + ytick_puts(l, y.labels@) + y2tick_puts(l, c) + xtick_puts(
        l,
        x.labels@,
    ) + x2tick_puts(l, c) + hlabel_puts(l, l.x_label_row, c.x_label) + hlabel_puts(
        l,
        l.x2_label_row,
        c.x2_label,
    ) + vlabel_puts(l, l.y_label_col, c.y_label) + vlabel_puts(l, l.y2_label_col, c.y2_label)
}

} // verus!

verus! {

fn draw_char(grid: &mut TextGrid, col: usize, row: usize, c: char, Ghost(g0): Ghost<GridView>, Ghost(done): Ghost<Seq<Put>>)
    requires
        old(grid)@.wf(),
        old(grid)@ == apply_puts(g0, done),
    ensures
        final(grid)@.wf(),
        final(grid)@ == apply_puts(g0, done + put1(col as int, row as int, c)),
{
    grid.put_char(col, row, c, TermColor::Default);
    proof {
        crate::text::lemma_apply_puts_push(g0, done, (col as int, row as int, c, TermColor::Default));
    }
}

fn draw_chars(grid: &mut TextGrid, col: usize, row: usize, cs: &Vec<char>, Ghost(g0): Ghost<GridView>, Ghost(done): Ghost<Seq<Put>>)
    requires
        old(grid)@.wf(),
        old(grid)@ == apply_puts(g0, done),
        col + cs@.len() <= usize::MAX + 1,
    ensures
        final(grid)@.wf(),
        final(grid)@ == apply_puts(g0, done + str_puts(col as int, row as int, cs@, TermColor::Default)),
{
    let ghost before = grid@;
    grid.put_chars(col, row, cs, TermColor::Default);
    proof {
        lemma_put_str_as_puts(before, col as int, row as int, cs@, TermColor::Default);
        lemma_apply_puts_append(g0, done, str_puts(col as int, row as int, cs@, TermColor::Default));
    }
}

} // verus!

verus! {

proof fn lemma_concat_step(f: spec_fn(int) -> Seq<Put>, i: int)
    requires
        i >= 0,
    ensures
        concat_puts(f, i + 1) == concat_puts(f, i) + f(i),
{
}

fn draw_hline(
    grid: &mut TextGrid,
    row: usize,
    from: usize,
    to: usize,
    left: char,
    mid: char,
    right: char,
    Ghost(g0): Ghost<GridView>,
    Ghost(done): Ghost<Seq<Put>>,
)
    requires
        old(grid)@.wf(),
        old(grid)@ == apply_puts(g0, done),
        from < usize::MAX,
    ensures
        final(grid)@.wf(),
        final(grid)@ == apply_puts(g0, done + hline_puts(row as int, from as int, to as int, left, mid, right)),
{
    draw_char(grid, from, row, left, Ghost(g0), Ghost(done));
    let ghost d1 = done + put1(from as int, row as int, left);
    let mut c = from + 1;
    assert(d1 + Seq::new(0, |i: int| (from + 1 + i, row as int, mid, TermColor::Default)) =~= d1);
    while c < to
        invariant
            grid@.wf(),
            from < c,
            c <= to || c == from + 1,
            grid@ == apply_puts(
                g0,
                d1 + Seq::new((c - from - 1) as nat, |i: int| (from + 1 + i, row as int, mid, TermColor::Default)),
            ),
        decreases to - c,
    {
        let ghost dd = d1 + Seq::new((c - from - 1) as nat, |i: int| (from + 1 + i, row as int, mid, TermColor::Default));
        draw_char(grid, c, row, mid, Ghost(g0), Ghost(dd));
        c += 1;
        assert(dd + put1((c - 1) as int, row as int, mid) =~= d1 + Seq::new(
            (c - from - 1) as nat,
            |i: int| (from + 1 + i, row as int, mid, TermColor::Default),
        ));
    }
    let ghost d2 = d1 + Seq::new((c - from - 1) as nat, |i: int| (from + 1 + i, row as int, mid, TermColor::Default));
    draw_char(grid, to, row, right, Ghost(g0), Ghost(d2));
    assert(d2 + put1(to as int, row as int, right) =~= done + hline_puts(
        row as int,
        from as int,
        to as int,
        left,
        mid,
        right,
    ));
}

fn draw_sides(
    grid: &mut TextGrid,
    bl: usize,
    br: usize,
    r0: usize,
    r1: usize,
    Ghost(g0): Ghost<GridView>,
    Ghost(done): Ghost<Seq<Put>>,
)
    requires
        old(grid)@.wf(),
        old(grid)@ == apply_puts(g0, done),
    ensures
        final(grid)@.wf(),
        final(grid)@ == apply_puts(g0, done + side_puts(bl as int, br as int, r0 as int, r1 as int)),
{
    let ghost f = side_fn(bl as int, br as int, r0 as int);
    let mut r = r0;
    assert(done + concat_puts(f, 0) =~= done);
    while r < r1
        invariant
            grid@.wf(),
            r0 <= r,
            r <= r1 || r == r0,
            f == side_fn(bl as int, br as int, r0 as int),
            grid@ == apply_puts(g0, done + concat_puts(f, r - r0)),
        decreases r1 - r,
    {
        let ghost dd = done + concat_puts(f, r - r0);
        draw_char(grid, bl, r, '│', Ghost(g0), Ghost(dd));
        draw_char(grid, br, r, '│', Ghost(g0), Ghost(dd + put1(bl as int, r as int, '│')));
        proof {
            lemma_concat_step(f, r - r0);
            assert(dd + put1(bl as int, r as int, '│') + put1(br as int, r as int, '│') =~= done
                + concat_puts(f, r - r0 + 1));
        }
        r += 1;
    }
    if r1 <= r0 {
        assert(done + side_puts(bl as int, br as int, r0 as int, r1 as int) =~= done);
    }
}

} // verus!

verus! {

/// Cells between consecutive ticks, as `tick_step`.
fn tick_step_exec(n: usize, extent: usize) -> (s: usize)
    requires
        n > 1 ==> extent >= 1,
    ensures
        s == tick_step(n as int, extent as int),
{
    if n > 1 {
        let s = (extent - 1) / (n - 1);
        if s >= 1 { s } else { 1 }
    } else {
        1
    }
}

/// The y ticks need no arithmetic beyond `usize`.
pub open spec fn yticks_fit(l: Layout, n: int) -> bool {
    &&& (n > 1 ==> l.canvas_char_height >= 1)
    &&& forall|i: int| 0 <= i < n ==> l.canvas_row + #[trigger] y_tick_cell(n, i, l.canvas_char_height as int) <= usize::MAX
}

/// The ticks of a horizontal axis need no arithmetic beyond `usize`.
pub open spec fn xticks_fit(l: Layout, labels: Seq<String>) -> bool {
    let n = labels.len() as int;
    &&& (n > 1 ==> l.canvas_char_width >= 1)
    &&& forall|j: int|
        0 <= j < n ==> x_tick_col(l, n, j) <= usize::MAX && #[trigger] x_label_start(l, n, j, labels[j]@)
            + labels[j]@.len() <= usize::MAX + 1
}

fn draw_y_ticks(
    grid: &mut TextGrid,
    l: &Layout,
    labels: &Vec<String>,
    Ghost(g0): Ghost<GridView>,
    Ghost(done): Ghost<Seq<Put>>,
)
    requires
        old(grid)@.wf(),
        old(grid)@ == apply_puts(g0, done),
        l.canvas_col >= 1,
        yticks_fit(*l, labels@.len() as int),
    ensures
        final(grid)@.wf(),
        final(grid)@ == apply_puts(g0, done + ytick_puts(*l, labels@)),
{
    let n = labels.len();
    let ghost f = ytick_fn(*l, labels@);
    let step = tick_step_exec(n, l.canvas_char_height);
    let mut i: usize = 0;
    assert(done + concat_puts(f, 0) =~= done);
    while i < n
        invariant
            grid@.wf(),
            n == labels@.len(),
            i <= n,
            l.canvas_col >= 1,
            yticks_fit(*l, n as int),
            step == tick_step(n as int, l.canvas_char_height as int),
            f == ytick_fn(*l, labels@),
            grid@ == apply_puts(g0, done + concat_puts(f, i as int)),
        decreases n - i,
    {
        let ghost dd = done + concat_puts(f, i as int);
        assert(l.canvas_row + y_tick_cell(n as int, i as int, l.canvas_char_height as int) <= usize::MAX);
        let cell_row = if n > 1 { (n - 1 - i) * step } else { l.canvas_char_height / 2 };
        let grid_row = l.canvas_row + cell_row;
        let cs = str_chars(labels[i].as_str());
        let len = cs.len();
        let end = l.y_tick_col_end;
        let ghost rp = right_puts(end as int, grid_row as int, labels@[i as int]@);
        if len <= end {
            draw_chars(grid, end - len, grid_row, &cs, Ghost(g0), Ghost(dd));
        } else {
            assert(dd + rp =~= dd);
        }
        draw_char(grid, l.canvas_col - 1, grid_row, '┤', Ghost(g0), Ghost(dd + rp));
        proof {
            lemma_concat_step(f, i as int);
            assert(dd + rp + put1(l.canvas_col - 1, grid_row as int, '┤') =~= done + concat_puts(f, i + 1));
        }
        i += 1;
    }
}

fn draw_y2_ticks(
    grid: &mut TextGrid,
    l: &Layout,
    labels: &Vec<String>,
    start: usize,
    Ghost(g0): Ghost<GridView>,
    Ghost(done): Ghost<Seq<Put>>,
)
    requires
        old(grid)@.wf(),
        old(grid)@ == apply_puts(g0, done),
        l.canvas_col + l.canvas_char_width <= usize::MAX,
        yticks_fit(*l, labels@.len() as int),
        forall|i: int| 0 <= i < labels@.len() ==> start + (#[trigger] labels@[i])@.len() <= usize::MAX + 1,
    ensures
        final(grid)@.wf(),
        final(grid)@ == apply_puts(g0, done + concat_puts(y2tick_fn(*l, labels@, start as int), labels@.len() as int)),
{
    let n = labels.len();
    let ghost f = y2tick_fn(*l, labels@, start as int);
    let step = tick_step_exec(n, l.canvas_char_height);
    let mut i: usize = 0;
    assert(done + concat_puts(f, 0) =~= done);
    while i < n
        invariant
            grid@.wf(),
            n == labels@.len(),
            i <= n,
            l.canvas_col + l.canvas_char_width <= usize::MAX,
            yticks_fit(*l, n as int),
            forall|i: int| 0 <= i < labels@.len() ==> start + (#[trigger] labels@[i])@.len() <= usize::MAX + 1,
            step == tick_step(n as int, l.canvas_char_height as int),
            f == y2tick_fn(*l, labels@, start as int),
            grid@ == apply_puts(g0, done + concat_puts(f, i as int)),
        decreases n - i,
    {
        let ghost dd = done + concat_puts(f, i as int);
        assert(l.canvas_row + y_tick_cell(n as int, i as int, l.canvas_char_height as int) <= usize::MAX);
        let cell_row = if n > 1 { (n - 1 - i) * step } else { l.canvas_char_height / 2 };
        let grid_row = l.canvas_row + cell_row;
        let cs = str_chars(labels[i].as_str());
        assert(start + labels@[i as int]@.len() <= usize::MAX + 1);
        draw_chars(grid, start, grid_row, &cs, Ghost(g0), Ghost(dd));
        let ghost sp = str_puts(start as int, grid_row as int, cs@, TermColor::Default);
        draw_char(grid, l.canvas_col + l.canvas_char_width, grid_row, '├', Ghost(g0), Ghost(dd + sp));
        proof {
            lemma_concat_step(f, i as int);
            assert(dd + sp + put1(l.canvas_col + l.canvas_char_width, grid_row as int, '├') =~= done
                + concat_puts(f, i + 1));
        }
        i += 1;
    }
}

fn draw_x_ticks(
    grid: &mut TextGrid,
    l: &Layout,
    labels: &Vec<String>,
    border: usize,
    label_row: usize,
    mark: char,
    Ghost(g0): Ghost<GridView>,
    Ghost(done): Ghost<Seq<Put>>,
)
    requires
        old(grid)@.wf(),
        old(grid)@ == apply_puts(g0, done),
        xticks_fit(*l, labels@),
    ensures
        final(grid)@.wf(),
        final(grid)@ == apply_puts(
            g0,
            done + concat_puts(xtick_fn(*l, labels@, border as int, label_row as int, mark), labels@.len() as int),
        ),
{
    let n = labels.len();
    let ghost f = xtick_fn(*l, labels@, border as int, label_row as int, mark);
    let step = tick_step_exec(n, l.canvas_char_width);
    let mut j: usize = 0;
    assert(done + concat_puts(f, 0) =~= done);
    while j < n
        invariant
            grid@.wf(),
            n == labels@.len(),
            j <= n,
            xticks_fit(*l, labels@),
            step == tick_step(n as int, l.canvas_char_width as int),
            f == xtick_fn(*l, labels@, border as int, label_row as int, mark),
            grid@ == apply_puts(g0, done + concat_puts(f, j as int)),
        decreases n - j,
    {
        let ghost dd = done + concat_puts(f, j as int);
        assert(x_label_start(*l, n as int, j as int, labels@[j as int]@) + labels@[j as int]@.len() <= usize::MAX + 1);
        assert(x_tick_col(*l, n as int, j as int) <= usize::MAX);
        let cell_col = if n > 1 { j * step } else { l.canvas_char_width / 2 };
        let grid_col = l.canvas_col + cell_col;
        draw_char(grid, grid_col, border, mark, Ghost(g0), Ghost(dd));
        let ghost d2 = dd + put1(grid_col as int, border as int, mark);
        let blen = string_byte_len(&labels[j]);
        let label_start = grid_col.saturating_sub(blen / 2);
        let cs = str_chars(labels[j].as_str());
        draw_chars(grid, label_start, label_row, &cs, Ghost(g0), Ghost(d2));
        proof {
            lemma_concat_step(f, j as int);
            assert(d2 + str_puts(label_start as int, label_row as int, cs@, TermColor::Default) =~= done
                + concat_puts(f, j + 1));
        }
        j += 1;
    }
}

fn draw_vertical(
    grid: &mut TextGrid,
    col: usize,
    start_row: usize,
    cs: &Vec<char>,
    Ghost(g0): Ghost<GridView>,
    Ghost(done): Ghost<Seq<Put>>,
)
    requires
        old(grid)@.wf(),
        old(grid)@ == apply_puts(g0, done),
        start_row + cs@.len() <= usize::MAX + 1,
    ensures
        final(grid)@.wf(),
        final(grid)@ == apply_puts(g0, done + vertical_puts(col as int, start_row as int, cs@)),
{
    let mut i: usize = 0;
    assert(done + vertical_puts(col as int, start_row as int, cs@.take(0)) =~= done);
    while i < cs.len()
        invariant
            grid@.wf(),
            i <= cs@.len(),
            start_row + cs@.len() <= usize::MAX + 1,
            grid@ == apply_puts(g0, done + vertical_puts(col as int, start_row as int, cs@.take(i as int))),
        decreases cs.len() - i,
    {
        let ghost dd = done + vertical_puts(col as int, start_row as int, cs@.take(i as int));
        draw_char(grid, col, start_row + i, cs[i], Ghost(g0), Ghost(dd));
        i += 1;
        assert(dd + put1(col as int, (start_row + i - 1) as int, cs@[i - 1]) =~= done + vertical_puts(
            col as int,
            start_row as int,
            cs@.take(i as int),
        ));
    }
    assert(cs@.take(cs@.len() as int) =~= cs@);
}

} // verus!

verus! {

/// A horizontal label needs no arithmetic beyond `usize`.
pub open spec fn hlabel_fits(l: Layout, row: Option<usize>, label: Option<String>) -> bool {
    row is Some && label is Some ==> centered_start(
        l.canvas_col as int,
        l.canvas_char_width as int,
        label->0@.len() as int,
    ) + label->0@.len() <= usize::MAX + 1
}

/// A vertical label needs no arithmetic beyond `usize`.
pub open spec fn vlabel_fits(l: Layout, col: Option<usize>, label: Option<String>) -> bool {
    col is Some && label is Some ==> vlabel_start(l, label->0@.len() as int) + label->0@.len() <= usize::MAX
        + 1
}

/// The frame of layout `l` for config `c` can be drawn without arithmetic overflow:
/// the grid fits in memory, the canvas has a border cell on each side, and every label
/// ends within `usize`.
pub open spec fn frame_ok(l: Layout, c: LayoutConfig, x: TickLabels, y: TickLabels) -> bool {
    &&& c.total_width * c.total_height <= usize::MAX
    &&& l.canvas_row >= 1
    &&& l.canvas_col >= 1
    &&& l.canvas_row + l.canvas_char_height <= usize::MAX
    &&& l.canvas_col + l.canvas_char_width <= usize::MAX
    &&& (l.title_row is Some && c.title is Some ==> centered_start(
        0,
        c.total_width as int,
        c.title->0@.len() as int,
    ) + c.title->0@.len() <= usize::MAX + 1)
    &&& yticks_fit(l, y.labels@.len() as int)
    &&& (c.y2_ticks is Some && l.y2_tick_col_start is Some ==> {
        &&& yticks_fit(l, c.y2_ticks->0.labels@.len() as int)
        &&& forall|i: int|
            0 <= i < c.y2_ticks->0.labels@.len() ==> l.y2_tick_col_start->0 + (
            #[trigger] c.y2_ticks->0.labels@[i])@.len() <= usize::MAX + 1
    })
    &&& xticks_fit(l, x.labels@)
    &&& (c.x2_ticks is Some && l.x2_tick_row is Some ==> xticks_fit(l, c.x2_ticks->0.labels@))
    &&& hlabel_fits(l, l.x_label_row, c.x_label)
    &&& hlabel_fits(l, l.x2_label_row, c.x2_label)
    &&& vlabel_fits(l, l.y_label_col, c.y_label)
    &&& vlabel_fits(l, l.y2_label_col, c.y2_label)
}

fn draw_hlabel(
    grid: &mut TextGrid,
    l: &Layout,
    row: Option<usize>,
    label: &Option<String>,
    Ghost(g0): Ghost<GridView>,
    Ghost(done): Ghost<Seq<Put>>,
)
    requires
        old(grid)@.wf(),
        old(grid)@ == apply_puts(g0, done),
        l.canvas_col + l.canvas_char_width <= usize::MAX,
        hlabel_fits(*l, row, *label),
    ensures
        final(grid)@.wf(),
        final(grid)@ == apply_puts(g0, done + hlabel_puts(*l, row, *label)),
{
    if let Some(r) = row {
        if let Some(t) = label {
            let cs = str_chars(t.as_str());
            let len = cs.len();
            let w = l.canvas_char_width;
            let start = if len >= w { l.canvas_col } else { l.canvas_col + (w - len) / 2 };
            draw_chars(grid, start, r, &cs, Ghost(g0), Ghost(done));
            return;
        }
    }
    assert(done + hlabel_puts(*l, row, *label) =~= done);
}

fn draw_vlabel(
    grid: &mut TextGrid,
    l: &Layout,
    col: Option<usize>,
    label: &Option<String>,
    Ghost(g0): Ghost<GridView>,
    Ghost(done): Ghost<Seq<Put>>,
)
    requires
        old(grid)@.wf(),
        old(grid)@ == apply_puts(g0, done),
        l.canvas_row + l.canvas_char_height <= usize::MAX,
        vlabel_fits(*l, col, *label),
    ensures
        final(grid)@.wf(),
        final(grid)@ == apply_puts(g0, done + vlabel_puts(*l, col, *label)),
{
    if let Some(c) = col {
        if let Some(t) = label {
            let cs = str_chars(t.as_str());
            let start_row = l.canvas_row + l.canvas_char_height.saturating_sub(cs.len()) / 2;
            draw_vertical(grid, c, start_row, &cs, Ghost(g0), Ghost(done));
            return;
        }
    }
    assert(done + vlabel_puts(*l, col, *label) =~= done);
}

/// Renders the frame (border, ticks, labels, title) into a TextGrid.
pub fn render_frame(layout: &Layout, config: &LayoutConfig, x_ticks: &TickLabels, y_ticks: &TickLabels) -> (g: TextGrid)
    requires
        frame_ok(*layout, *config, *x_ticks, *y_ticks),
    ensures
        g@.wf(),
        g@ == apply_puts(
            blank_grid(config.total_width as nat, config.total_height as nat),
            frame_puts(*layout, *config, *x_ticks, *y_ticks),
        ),
{
    let l = layout;
    let mut grid = TextGrid::new(config.total_width, config.total_height);
    let ghost g0 = grid@;
    let ghost d0 = Seq::<Put>::empty();
    assert(apply_puts(g0, d0) == g0);

    // Title
    let ghost d1 = d0 + title_puts(*l, *config);
    if let Some(row) = l.title_row {
        if let Some(title) = &config.title {
            let cs = str_chars(title.as_str());
            let len = cs.len();
            let start = if len >= config.total_width { 0 } else { (config.total_width - len) / 2 };
            draw_chars(&mut grid, start, row, &cs, Ghost(g0), Ghost(d0));
        } else {
            assert(d1 =~= d0);
        }
    } else {
        assert(d1 =~= d0);
    }

    // Border
    let border_top = l.canvas_row - 1;
    let border_bottom = l.canvas_row + l.canvas_char_height;
    let border_left = l.canvas_col - 1;
    let border_right = l.canvas_col + l.canvas_char_width;
    draw_hline(&mut grid, border_top, border_left, border_right, '┌', '─', '┐', Ghost(g0), Ghost(d1));
    let ghost d2 = d1 + hline_puts(border_top as int, border_left as int, border_right as int, '┌', '─', '┐');
    draw_hline(&mut grid, border_bottom, border_left, border_right, '└', '─', '┘', Ghost(g0), Ghost(d2));
    let ghost d3 = d2 + hline_puts(border_bottom as int, border_left as int, border_right as int, '└', '─', '┘');
    draw_sides(&mut grid, border_left, border_right, l.canvas_row, border_bottom, Ghost(g0), Ghost(d3));
    let ghost d4 = d3 + side_puts(border_left as int, border_right as int, l.canvas_row as int, border_bottom as int);
    assert(d4 =~= d1 + border_puts(*l));

    // Y ticks
    draw_y_ticks(&mut grid, l, &y_ticks.labels, Ghost(g0), Ghost(d4));
    let ghost d5 = d4 + ytick_puts(*l, y_ticks.labels@);

    // Y2 ticks
    let ghost d6 = d5 + y2tick_puts(*l, *config);
    if let Some(y2) = &config.y2_ticks {
        if let Some(start) = l.y2_tick_col_start {
            draw_y2_ticks(&mut grid, l, &y2.labels, start, Ghost(g0), Ghost(d5));
        } else {
            assert(d6 =~= d5);
        }
    } else {
        assert(d6 =~= d5);
    }

    // X ticks
    draw_x_ticks(&mut grid, l, &x_ticks.labels, border_bottom, l.x_tick_row, '┬', Ghost(g0), Ghost(d6));
    let ghost d7 = d6 + xtick_puts(*l, x_ticks.labels@);

    // X2 ticks
    let ghost d8 = d7 + x2tick_puts(*l, *config);
    if let Some(x2) = &config.x2_ticks {
        if let Some(x2_row) = l.x2_tick_row {
            draw_x_ticks(&mut grid, l, &x2.labels, border_top, x2_row, '┴', Ghost(g0), Ghost(d7));
        } else {
            assert(d8 =~= d7);
        }
    } else {
        assert(d8 =~= d7);
    }

    // Axis labels
    draw_hlabel(&mut grid, l, l.x_label_row, &config.x_label, Ghost(g0), Ghost(d8));
    let ghost d9 = d8 + hlabel_puts(*l, l.x_label_row, config.x_label);
    draw_hlabel(&mut grid, l, l.x2_label_row, &config.x2_label, Ghost(g0), Ghost(d9));
    let ghost d10 = d9 + hlabel_puts(*l, l.x2_label_row, config.x2_label);
    draw_vlabel(&mut grid, l, l.y_label_col, &config.y_label, Ghost(g0), Ghost(d10));
    let ghost d11 = d10 + vlabel_puts(*l, l.y_label_col, config.y_label);
    draw_vlabel(&mut grid, l, l.y2_label_col, &config.y2_label, Ghost(g0), Ghost(d11));
    let ghost d12 = d11 + vlabel_puts(*l, l.y2_label_col, config.y2_label);
    assert(d12 =~= frame_puts(*layout, *config, *x_ticks, *y_ticks));
    grid
}

} // verus!
