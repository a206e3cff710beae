//! Composing several rendered plots into one multiplot: the size of each cell, which
//! plots go in which row, and the text of the whole grid.

use vstd::prelude::*;

use crate::chars::str_chars;
use crate::frame::sat_sub;
use crate::layout::{byte_len, count};
use crate::legend::spaces;
use crate::svg::{lines_of, split_lines};
use crate::textout::push_chars;

verus! {

/// At least 1.
pub open spec fn at_least_one(n: int) -> int {
    if n >= 1 { n } else { 1 }
}

/// The size of each cell of a `rows` × `cols` multiplot in a `width` × `height` area,
/// as `(width, height)`: the area (less a title row, when there is a title) divided
/// evenly, rounding down.
pub fn multiplot_cell_size(width: usize, height: usize, has_title: bool, rows: usize, cols: usize) -> (r: (usize, usize))
    ensures
        r.0 == width as int / at_least_one(cols as int),
        r.1 == sat_sub(height as int, count(has_title)) / at_least_one(rows as int),
{
    let title_rows: usize = if has_title { 1 } else { 0 };
    let avail: usize = if height >= title_rows { height - title_rows } else { 0 };
    let r = if rows >= 1 { rows } else { 1 };
    let c = if cols >= 1 { cols } else { 1 };
    (width / c, avail / r)
}

/// The plots of grid row `r` (row-major, `cols` per row) among the first `c` columns:
/// the indices `r * cols + j` for `j < c` that are below `n`.
pub open spec fn row_slots(n: int, r: int, cols: int, c: int) -> Seq<usize>
    decreases c,
{
    if c <= 0 {
        seq![]
    } else {
        row_slots(n, r, cols, c - 1) + (if r * cols + c - 1 < n {
            seq![(r * cols + c - 1) as usize]
        } else {
            seq![]
        })
    }
}

/// The plots of row `r` are numbered row by row: with `cols` columns the row holds the
/// plot numbers `r * cols`, `r * cols + 1`, … up to the last plot or the end of the row,
/// in that order.
pub proof fn law_row_slots_row_major(n: int, r: int, cols: int, c: int)
    requires
        0 <= n <= usize::MAX,
        0 <= r,
        0 <= c <= cols,
    ensures
        ({
            let base = r * cols;
            let len = if n - base <= 0 { 0 } else if n - base >= c { c } else { n - base };
            &&& row_slots(n, r, cols, c).len() == len
            &&& forall|k: int| 0 <= k < len ==> #[trigger] row_slots(n, r, cols, c)[k] == base + k
        }),
    decreases c,
{
    if c > 0 {
        law_row_slots_row_major(n, r, cols, c - 1);
        assert(0 <= r * cols) by (nonlinear_arith)
            requires
                0 <= r,
                0 <= c <= cols,
        ;
    }
}

/// Which plots go in each row of a `rows` × `cols` multiplot of `n_plots` plots:
/// row-major order, a row holding the indices that exist.
pub fn multiplot_slots(n_plots: usize, rows: usize, cols: usize) -> (slots: Vec<Vec<usize>>)
    requires
        rows * cols <= usize::MAX + 1,
    ensures
        slots@.len() == rows,
        forall|r: int| 0 <= r < rows ==> (#[trigger] slots@[r])@ == row_slots(n_plots as int, r, cols as int, cols as int),
{
    let mut slots: Vec<Vec<usize>> = Vec::new();
    let mut r: usize = 0;
    while r < rows
        invariant
            r <= rows,
            rows * cols <= usize::MAX + 1,
            slots@.len() == r,
            forall|k: int| 0 <= k < r ==> (#[trigger] slots@[k])@ == row_slots(n_plots as int, k, cols as int, cols as int),
        decreases rows - r,
    {
        let mut row: Vec<usize> = Vec::new();
        let mut c: usize = 0;
        while c < cols
            invariant
                c <= cols,
                r < rows,
                rows * cols <= usize::MAX + 1,
                row@ == row_slots(n_plots as int, r as int, cols as int, c as int),
            decreases cols - c,
        {
            assert(r * cols + c < rows * cols) by (nonlinear_arith)
                requires
                    r < rows,
                    c < cols,
            ;
            let idx = r * cols + c;
            if idx < n_plots {
                row.push(idx);
            }
            c += 1;
            assert(row@ =~= row_slots(n_plots as int, r as int, cols as int, c as int));
        }
        slots.push(row);
        r += 1;
    }
    slots
}

/// The title line: the title centered in `width` columns (its length counted in bytes),
/// padded with spaces on both sides, and a newline.
pub open spec fn title_line(t: Seq<char>, width: int) -> Seq<char> {
    let pad = sat_sub(width, byte_len(t)) / 2;
    spaces(pad) + t + spaces(sat_sub(width, pad + byte_len(t))) + seq!['\n']
}

/// Line `i` of a rendered plot, or `sub_width` spaces when it has fewer lines.
pub open spec fn cell_line(r: Seq<char>, i: int, sub_width: int) -> Seq<char> {
    if i < lines_of(r).len() {
        lines_of(r)[i]
    } else {
        spaces(sub_width)
    }
}

/// Line `i` of each of the first `k` plots of a row, side by side.
pub open spec fn joined_line(rs: Seq<String>, i: int, sub_width: int, k: int) -> Seq<char>
    decreases k,
{
    if k <= 0 {
        seq![]
    } else {
        joined_line(rs, i, sub_width, k - 1) + cell_line(rs[k - 1]@, i, sub_width)
    }
}

/// The most lines among the first `k` plots of a row.
pub open spec fn max_line_count(rs: Seq<String>, k: int) -> int
    decreases k,
{
    if k <= 0 {
        0
    } else {
        let m = max_line_count(rs, k - 1);
        let l = lines_of(rs[k - 1]@).len() as int;
        if l > m { l } else { m }
    }
}

/// The first `m` lines of a row of plots, each ended by a newline.
pub open spec fn block_lines(rs: Seq<String>, sub_width: int, m: int) -> Seq<char>
    decreases m,
{
    if m <= 0 {
        seq![]
    } else {
        block_lines(rs, sub_width, m - 1) + joined_line(rs, m - 1, sub_width, rs.len() as int) + seq!['\n']
    }
}

/// The text of a row of plots: as many lines as its tallest plot has.
pub open spec fn block_text(rs: Seq<String>, sub_width: int) -> Seq<char> {
    block_lines(rs, sub_width, max_line_count(rs, rs.len() as int))
}

/// The text of the first `n` rows of plots.
pub open spec fn blocks_text(rows: Seq<Vec<String>>, sub_width: int, n: int) -> Seq<char>
    decreases n,
{
    if n <= 0 {
        seq![]
    } else {
        blocks_text(rows, sub_width, n - 1) + block_text(rows[n - 1]@, sub_width)
    }
}

/// `s` without a final newline.
pub open spec fn drop_final_newline(s: Seq<char>) -> Seq<char> {
    if s.len() > 0 && s.last() == '\n' {
        s.drop_last()
    } else {
        s
    }
}

/// The text of a multiplot: the title line when there is a title, then each row of
/// rendered plots with their lines side by side; no newline at the end.
pub open spec fn multiplot_text(title: Option<Seq<char>>, width: int, sub_width: int, rows: Seq<Vec<String>>) -> Seq<char> {
    drop_final_newline(
        (match title {
            Some(t) => title_line(t, width),
            None => seq![],
        }) + blocks_text(rows, sub_width, rows.len() as int),
    )
}

fn push_spaces(out: &mut Vec<char>, n: usize)
    ensures
        final(out)@ == old(out)@ + spaces(n as int),
{
    let ghost start = out@;
    let mut k: usize = 0;
    while k < n
        invariant
            k <= n,
            out@ == start + spaces(k as int),
        decreases n - k,
    {
        out.push(' ');
        k += 1;
        assert(out@ =~= start + spaces(k as int));
    }
}

fn push_all(out: &mut Vec<char>, v: &Vec<char>)
    ensures
        final(out)@ == old(out)@ + v@,
{
    let ghost start = out@;
    let mut k: usize = 0;
    while k < v.len()
        invariant
            k <= v@.len(),
            out@ == start + v@.take(k as int),
        decreases v.len() - k,
    {
        out.push(v[k]);
        k += 1;
        assert(out@ =~= start + v@.take(k as int));
    }
    assert(v@.take(v@.len() as int) =~= v@);
}

/// The lines of each rendered plot of a row.
fn row_lines(rs: &Vec<String>) -> (ls: Vec<Vec<Vec<char>>>)
    ensures
        ls@.len() == rs@.len(),
        forall|k: int| 0 <= k < rs@.len() ==> (#[trigger] ls@[k])@.len() == lines_of(rs@[k]@).len(),
        forall|k: int, i: int|
            0 <= k < rs@.len() && 0 <= i < lines_of(rs@[k]@).len() ==> (#[trigger] ls@[k]@[i])@ == lines_of(
                rs@[k]@,
            )[i],
{
    let mut ls: Vec<Vec<Vec<char>>> = Vec::new();
    let mut k: usize = 0;
    while k < rs.len()
        invariant
            k <= rs@.len(),
            ls@.len() == k,
            forall|j: int| 0 <= j < k ==> (#[trigger] ls@[j])@.len() == lines_of(rs@[j]@).len(),
            forall|j: int, i: int|
                0 <= j < k && 0 <= i < lines_of(rs@[j]@).len() ==> (#[trigger] ls@[j]@[i])@ == lines_of(rs@[j]@)[i],
        decreases rs.len() - k,
    {
        let cs = str_chars(rs[k].as_str());
        let lines = split_lines(&cs);
        ls.push(lines);
        k += 1;
    }
    ls
}

fn push_block(out: &mut Vec<char>, rs: &Vec<String>, sub_width: usize)
    ensures
        final(out)@ == old(out)@ + block_text(rs@, sub_width as int),
{
    let ghost start = out@;
    let ls = row_lines(rs);
    let n = rs.len();
    let mut max_lines: usize = 0;
    let mut k: usize = 0;
    while k < n
        invariant
            k <= n,
            n == rs@.len(),
            ls@.len() == n,
            forall|j: int| 0 <= j < n ==> (#[trigger] ls@[j])@.len() == lines_of(rs@[j]@).len(),
            max_lines == max_line_count(rs@, k as int),
        decreases n - k,
    {
        if ls[k].len() > max_lines {
            max_lines = ls[k].len();
        }
        k += 1;
    }
    let mut i: usize = 0;
    while i < max_lines
        invariant
            i <= max_lines,
            n == rs@.len(),
            ls@.len() == n,
            max_lines == max_line_count(rs@, n as int),
            forall|j: int| 0 <= j < n ==> (#[trigger] ls@[j])@.len() == lines_of(rs@[j]@).len(),
            forall|j: int, l: int|
                0 <= j < n && 0 <= l < lines_of(rs@[j]@).len() ==> (#[trigger] ls@[j]@[l])@ == lines_of(rs@[j]@)[l],
            out@ == start + block_lines(rs@, sub_width as int, i as int),
        decreases max_lines - i,
    {
        let ghost line_start = out@;
        let mut k: usize = 0;
        while k < n
            invariant
                k <= n,
                n == rs@.len(),
                ls@.len() == n,
                forall|j: int| 0 <= j < n ==> (#[trigger] ls@[j])@.len() == lines_of(rs@[j]@).len(),
                forall|j: int, l: int|
                    0 <= j < n && 0 <= l < lines_of(rs@[j]@).len() ==> (#[trigger] ls@[j]@[l])@ == lines_of(rs@[j]@)[l],
                out@ == line_start + joined_line(rs@, i as int, sub_width as int, k as int),
            decreases n - k,
        {
            if i < ls[k].len() {
                push_all(out, &ls[k][i]);
            } else {
                push_spaces(out, sub_width);
            }
            k += 1;
            assert(out@ =~= line_start + joined_line(rs@, i as int, sub_width as int, k as int));
        }
        out.push('\n');
        i += 1;
        assert(out@ =~= start + block_lines(rs@, sub_width as int, i as int));
    }
}

/// Composes a multiplot from its title, the total width, the cell width, and the
/// rendered plots of each row (see `multiplot_text`).
pub fn compose_multiplot(title: Option<&str>, width: usize, sub_width: usize, rows: &Vec<Vec<String>>) -> (s: String)
    ensures
        s@ == multiplot_text(
            match title {
                Some(t) => Some(t@),
                None => None,
            },
            width as int,
            sub_width as int,
            rows@,
        ),
{
    let mut out: Vec<char> = Vec::new();
    match title {
        Some(t) => {
            let cs = str_chars(t);
            let len = t.len();
            let pad = (if width >= len { width - len } else { 0 }) / 2;
            push_spaces(&mut out, pad);
            push_all(&mut out, &cs);
            let rest = width - pad;
            let trail = if rest >= len { rest - len } else { 0 };
            push_spaces(&mut out, trail);
            out.push('\n');
            assert(out@ =~= title_line(t@, width as int));
        },
        None => {
        },
    }
    let ghost head = out@;
    let mut j: usize = 0;
    while j < rows.len()
        invariant
            j <= rows@.len(),
            out@ == head + blocks_text(rows@, sub_width as int, j as int),
        decreases rows.len() - j,
    {
        push_block(&mut out, &rows[j], sub_width);
        j += 1;
        assert(out@ =~= head + blocks_text(rows@, sub_width as int, j as int));
    }
    if out.len() > 0 && out[out.len() - 1] == '\n' {
        out.pop();
    }
    let mut s = String::new();
    push_chars(&mut s, &out);
    s
}

} // verus!
