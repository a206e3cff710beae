//! Space allocation for a plot frame: where the title, tick labels, axis labels and
//! the Braille canvas go within a fixed character area.

use vstd::prelude::*;

verus! {

/// Length in bytes of the UTF-8 encoding of a character sequence.
pub open spec fn byte_len(s: Seq<char>) -> int {
    vstd::utf8::encode_utf8(s).len() as usize as int
}

/// Returns the length in bytes of a string.
pub fn string_byte_len(s: &String) -> (n: usize)
    ensures
        n == byte_len(s@),
{
    s.as_str().len()
}

/// The formatted labels of an axis' ticks, in ascending order of value.
pub struct TickLabels {
    /// One label per tick.
    pub labels: Vec<String>,
}

/// Width needed for a column of tick labels: the longest label in bytes, at least 1.
pub open spec fn label_width(labels: Seq<String>) -> int
    decreases labels.len(),
{
    if labels.len() == 0 {
        1
    } else {
        let w = label_width(labels.drop_last());
        let l = byte_len(labels.last()@);
        if l > w { l } else { w }
    }
}

proof fn lemma_label_width_pos(labels: Seq<String>)
    ensures
        label_width(labels) >= 1,
    decreases labels.len(),
{
    if labels.len() > 0 {
        lemma_label_width_pos(labels.drop_last());
    }
}

/// Computes the width of a column of tick labels.
pub fn tick_label_width(ticks: &TickLabels) -> (w: usize)
    ensures
        w == label_width(ticks.labels@),
{
    let mut w: usize = 1;
    let mut i: usize = 0;
    while i < ticks.labels.len()
        invariant
            i <= ticks.labels@.len(),
            w == label_width(ticks.labels@.take(i as int)),
        decreases ticks.labels.len() - i,
    {
        let l = string_byte_len(&ticks.labels[i]);
        assert(ticks.labels@.take(i + 1).drop_last() =~= ticks.labels@.take(i as int));
        if l > w {
            w = l;
        }
        i += 1;
    }
    assert(ticks.labels@.take(ticks.labels@.len() as int) =~= ticks.labels@);
    w
}

/// Configuration for the layout engine.
pub struct LayoutConfig {
    /// Total output width in characters.
    pub total_width: usize,
    /// Total output height in rows.
    pub total_height: usize,
    /// Plot title.
    pub title: Option<String>,
    /// Primary x-axis label.
    pub x_label: Option<String>,
    /// Primary y-axis label.
    pub y_label: Option<String>,
    /// Secondary x-axis label (top).
    pub x2_label: Option<String>,
    /// Secondary y-axis label (right).
    pub y2_label: Option<String>,
    /// Optional secondary x-axis ticks.
    pub x2_ticks: Option<TickLabels>,
    /// Optional secondary y-axis ticks.
    pub y2_ticks: Option<TickLabels>,
}

/// Computed layout positions.
pub struct Layout {
    /// Row where the title is drawn (if present).
    pub title_row: Option<usize>,
    /// Column offset where the Braille canvas starts.
    pub canvas_col: usize,
    /// Row offset where the Braille canvas starts.
    pub canvas_row: usize,
    /// Character width of the Braille canvas area.
    pub canvas_char_width: usize,
    /// Character height of the Braille canvas area.
    pub canvas_char_height: usize,
    /// Row where x-axis tick labels appear.
    pub x_tick_row: usize,
    /// Row where the x-axis label appears (if present).
    pub x_label_row: Option<usize>,
    /// Column where y-axis tick labels end (right edge of y-tick area).
    pub y_tick_col_end: usize,
    /// Width allocated for y-axis tick labels.
    pub y_tick_width: usize,
    /// Column where the y-axis label appears (if present).
    pub y_label_col: Option<usize>,
    /// Row where x2-axis tick labels appear (if secondary x-axis active).
    pub x2_tick_row: Option<usize>,
    /// Row where x2-axis label appears (if present).
    pub x2_label_row: Option<usize>,
    /// Column where y2-axis tick labels start (left edge of y2-tick area).
    pub y2_tick_col_start: Option<usize>,
    /// Width allocated for y2-axis tick labels.
    pub y2_tick_width: Option<usize>,
    /// Column where the y2-axis label appears (if present).
    pub y2_label_col: Option<usize>,
}

/// 1 when `b`, else 0.
pub open spec fn count(b: bool) -> int {
    if b { 1 } else { 0 }
}

/// Shrinks a canvas dimension `d` (≥ 1) so that `n` ticks (when more than one) divide
/// it into equal steps: `d - 1` becomes a multiple of `n - 1`.
pub open spec fn tick_aligned(d: int, n: int) -> int {
    if n > 1 { d - (d - 1) % (n - 1) } else { d }
}

/// Rows above the canvas: title, x2 label, x2 ticks, in that order, then the top border.
pub open spec fn rows_above(c: LayoutConfig) -> int {
    count(c.title is Some) + count(c.x2_label is Some) + count(c.x2_ticks is Some)
}

/// Rows the decorations take: those above the canvas, two borders, the x tick row and
/// the x label row when there is an x label.
pub open spec fn vertical_overhead(c: LayoutConfig) -> int {
    rows_above(c) + 2 + 1 + count(c.x_label is Some)
}

/// Width of the y2 tick column (labels plus one space), 0 without y2 ticks.
pub open spec fn y2_tick_col_width(c: LayoutConfig) -> int {
    match c.y2_ticks {
        Some(t) => label_width(t.labels@) + 1,
        None => 0,
    }
}

/// Columns left of the canvas' left border: the y label column pair (when there is a
/// y label) and the y tick column (labels plus one space).
pub open spec fn cols_left(c: LayoutConfig, y_ticks: TickLabels) -> int {
    2 * count(c.y_label is Some) + label_width(y_ticks.labels@) + 1
}

/// Columns the decorations take: those left of the canvas, two borders, the y2 tick
/// column and the y2 label column pair.
pub open spec fn horizontal_overhead(c: LayoutConfig, y_ticks: TickLabels) -> int {
    cols_left(c, y_ticks) + 2 + y2_tick_col_width(c) + 2 * count(c.y2_label is Some)
}

/// Height of the canvas: what the decorations leave (at least 1), shrunk to tick alignment.
pub open spec fn canvas_height(c: LayoutConfig, y_ticks: TickLabels) -> int {
    fitted(c.total_height as int, vertical_overhead(c), y_ticks.labels@.len() as int)
}

/// Width of the canvas: what the decorations leave (at least 1), shrunk to tick alignment.
pub open spec fn canvas_width(c: LayoutConfig, x_ticks: TickLabels, y_ticks: TickLabels) -> int {
    fitted(c.total_width as int, horizontal_overhead(c, y_ticks), x_ticks.labels@.len() as int)
}

proof fn lemma_tick_aligned(d: int, n: int)
    requires
        d >= 1,
    ensures
        1 <= tick_aligned(d, n) <= d,
        n > 1 ==> (tick_aligned(d, n) - 1) % (n - 1) == 0,
{
    if n > 1 {
        vstd::arithmetic::div_mod::lemma_mod_bound(d - 1, n - 1);
        vstd::arithmetic::div_mod::lemma_fundamental_div_mod(d - 1, n - 1);
        let q = (d - 1) / (n - 1);
        let r = (d - 1) % (n - 1);
        assert(tick_aligned(d, n) - 1 == (n - 1) * q);
        vstd::arithmetic::div_mod::lemma_mod_multiples_basic(q, n - 1);
        vstd::arithmetic::mul::lemma_mul_is_commutative(q, n - 1);
    }
}

/// What remains of `total` after `overhead` (at least 1), shrunk to tick alignment.
pub open spec fn fitted(total: int, overhead: int, n: int) -> int {
    let free = total - overhead;
    tick_aligned(if free >= 1 { free } else { 1 }, n)
}

fn fit_dim(total: usize, overhead: usize, n: usize) -> (d: usize)
    ensures
        d == fitted(total as int, overhead as int, n as int),
        1 <= d,
        d <= total || d == 1,
{
    let mut d = total.saturating_sub(overhead);
    if d < 1 {
        d = 1;
    }
    proof {
        lemma_tick_aligned(d as int, n as int);
    }
    if n > 1 {
        d -= (d - 1) % (n - 1);
    }
    d
}

/// Computes the layout from a config and tick sets.
pub fn compute_layout(config: &LayoutConfig, x_ticks: &TickLabels, y_ticks: &TickLabels) -> (l: Layout)
    requires
        horizontal_overhead(*config, *y_ticks) + 2 <= usize::MAX,
    ensures
        l.canvas_char_height == canvas_height(*config, *y_ticks),
        l.canvas_char_width == canvas_width(*config, *x_ticks, *y_ticks),
        l.title_row == (if config.title is Some { Some(0usize) } else { None }),
        l.x2_label_row == (if config.x2_label is Some { Some(count(config.title is Some) as usize) } else { None }),
        l.x2_tick_row == (if config.x2_ticks is Some {
            Some((count(config.title is Some) + count(config.x2_label is Some)) as usize)
        } else {
            None
        }),
        l.canvas_row == rows_above(*config) + 1,
        l.x_tick_row == rows_above(*config) + 1 + canvas_height(*config, *y_ticks) + 1,
        l.x_label_row == (if config.x_label is Some {
            Some((rows_above(*config) + canvas_height(*config, *y_ticks) + 3) as usize)
        } else {
            None
        }),
        l.y_tick_width == label_width(y_ticks.labels@),
        l.y_tick_col_end == cols_left(*config, *y_ticks),
        l.y_label_col == (if config.y_label is Some { Some(0usize) } else { None }),
        l.canvas_col == cols_left(*config, *y_ticks) + 1,
        l.y2_tick_col_start == (if config.y2_ticks is Some {
            Some((cols_left(*config, *y_ticks) + 1 + canvas_width(*config, *x_ticks, *y_ticks) + 1) as usize)
        } else {
            None
        }),
        l.y2_tick_width == (match config.y2_ticks {
            Some(t) => Some(label_width(t.labels@) as usize),
            None => None,
        }),
        l.y2_label_col == (if config.y2_label is Some {
            Some((cols_left(*config, *y_ticks) + 1 + canvas_width(*config, *x_ticks, *y_ticks) + 1
                + y2_tick_col_width(*config)) as usize)
        } else {
            None
        }),
{
    let has_title = config.title.is_some();
    let has_x_label = config.x_label.is_some();
    let has_y_label = config.y_label.is_some();
    let has_x2 = config.x2_ticks.is_some();
    let has_x2_label = config.x2_label.is_some();
    let has_y2 = config.y2_ticks.is_some();
    let has_y2_label = config.y2_label.is_some();

    let y_tick_width = tick_label_width(y_ticks);
    let y2_tick_width: usize = match &config.y2_ticks {
        Some(t) => tick_label_width(t),
        None => 0,
    };
    proof {
        lemma_label_width_pos(y_ticks.labels@);
        if config.y2_ticks is Some {
            lemma_label_width_pos(config.y2_ticks->0.labels@);
        }
    }

    // Vertical budget
    let title_rows: usize = if has_title { 1 } else { 0 };
    let x2_label_rows: usize = if has_x2_label { 1 } else { 0 };
    let x2_tick_rows: usize = if has_x2 { 1 } else { 0 };
    let border_rows: usize = 2;
    let x_tick_rows: usize = 1;
    let x_label_rows: usize = if has_x_label { 1 } else { 0 };

    let vertical_overhead =
        title_rows + x2_label_rows + x2_tick_rows + border_rows + x_tick_rows + x_label_rows;
    let n_y = y_ticks.labels.len();
    let canvas_char_height = fit_dim(config.total_height, vertical_overhead, n_y);

    // Horizontal budget
    let y_label_cols: usize = if has_y_label { 2 } else { 0 };
    let border_cols: usize = 2;
    let y_tick_col_width = y_tick_width + 1;
    let y2_tick_col_width: usize = if has_y2 { y2_tick_width + 1 } else { 0 };
    let y2_label_cols: usize = if has_y2_label { 2 } else { 0 };

    let horizontal_overhead =
        y_label_cols + y_tick_col_width + border_cols + y2_tick_col_width + y2_label_cols;
    let n_x = x_ticks.labels.len();
    let canvas_char_width = fit_dim(config.total_width, horizontal_overhead, n_x);

    // Positions (top to bottom)
    let title_row = if has_title { Some(0) } else { None };
    let mut current_row = title_rows;
    let x2_label_row = if has_x2_label {
        let row = current_row;
        current_row += 1;
        Some(row)
    } else {
        None
    };
    let x2_tick_row = if has_x2 {
        let row = current_row;
        current_row += 1;
        Some(row)
    } else {
        None
    };
    current_row += 1;  // top border
    let canvas_row_start = current_row;
    current_row += canvas_char_height;
    current_row += 1;  // bottom border
    let x_tick_row = current_row;
    current_row += 1;
    let x_label_row = if has_x_label { Some(current_row) } else { None };

    // Horizontal positions (left to right)
    let y_label_col = if has_y_label { Some(0) } else { None };
    let canvas_col_start = y_label_cols + y_tick_col_width + 1;
    let y2_tick_col_start = if has_y2 {
        Some(canvas_col_start + canvas_char_width + 1)
    } else {
        None
    };
    let y2_label_col = if has_y2_label {
        Some(canvas_col_start + canvas_char_width + 1 + y2_tick_col_width)
    } else {
        None
    };

    Layout {
        title_row,
        canvas_col: canvas_col_start,
        canvas_row: canvas_row_start,
        canvas_char_width,
        canvas_char_height,
        x_tick_row,
        x_label_row,
        y_tick_col_end: y_label_cols + y_tick_col_width,
        y_tick_width,
        y_label_col,
        x2_tick_row,
        x2_label_row,
        y2_tick_col_start,
        y2_tick_width: if has_y2 { Some(y2_tick_width) } else { None },
        y2_label_col,
    }
}

/// The canvas sits below its top border and right of the y tick column and its left
/// border: its first row (`rows_above + 1`) is at least 1 and its first column
/// (`cols_left + 1`) at least 3, one tick label column, a space and the border.
pub proof fn law_canvas_margins(c: LayoutConfig, y_ticks: TickLabels)
    ensures
        rows_above(c) + 1 >= 1,
        cols_left(c, y_ticks) + 1 >= 3,
{
    lemma_label_width_pos(y_ticks.labels@);
}

/// The canvas is at least one cell in each direction and tick-aligned: with more than
/// one tick on an axis, the ticks divide the canvas into equal whole-cell steps, so the
/// last tick lands on the border.
pub proof fn law_canvas_tick_aligned(c: LayoutConfig, x_ticks: TickLabels, y_ticks: TickLabels)
    ensures
        canvas_height(c, y_ticks) >= 1,
        canvas_width(c, x_ticks, y_ticks) >= 1,
        y_ticks.labels@.len() > 1 ==> (canvas_height(c, y_ticks) - 1) % (y_ticks.labels@.len() - 1) == 0,
        x_ticks.labels@.len() > 1 ==> (canvas_width(c, x_ticks, y_ticks) - 1) % (x_ticks.labels@.len() - 1)
            == 0,
{
    let fh = c.total_height - vertical_overhead(c);
    let fw = c.total_width - horizontal_overhead(c, y_ticks);
    lemma_tick_aligned(if fh >= 1 { fh } else { 1 }, y_ticks.labels@.len() as int);
    lemma_tick_aligned(if fw >= 1 { fw } else { 1 }, x_ticks.labels@.len() as int);
}

/// When the area leaves room for a canvas, the frame fits in it: the decorations and
/// the canvas together take no more rows than the total height and no more columns
/// than the total width.
pub proof fn law_layout_fits(c: LayoutConfig, x_ticks: TickLabels, y_ticks: TickLabels)
    ensures
        c.total_height >= vertical_overhead(c) + 1 ==> vertical_overhead(c) + canvas_height(c, y_ticks)
            <= c.total_height,
        c.total_width >= horizontal_overhead(c, y_ticks) + 1 ==> horizontal_overhead(c, y_ticks)
            + canvas_width(c, x_ticks, y_ticks) <= c.total_width,
{
    let fh = c.total_height - vertical_overhead(c);
    let fw = c.total_width - horizontal_overhead(c, y_ticks);
    lemma_tick_aligned(if fh >= 1 { fh } else { 1 }, y_ticks.labels@.len() as int);
    lemma_tick_aligned(if fw >= 1 { fw } else { 1 }, x_ticks.labels@.len() as int);
}

} // verus!
