//! The legend overlay: which series get an entry, how big the legend box is, where
//! it goes, and the characters it writes onto the text grid.

use vstd::prelude::*;

use crate::color::{palette_color, TermColor};
use crate::frame::{put1, sat_sub};
use crate::layout::{byte_len, string_byte_len};
use crate::options::{DashType, LegendOption, Placement, PointSymbol};
use crate::style::{
    find_caption, first_caption, first_color, first_dash, first_symbol, resolve_dash,
    resolve_point_symbol, resolve_series_color, StyleOption,
};
use crate::chars::str_chars;
use crate::text::{
    apply_puts, centered_start, concat_puts, lemma_apply_puts_append, lemma_apply_puts_push,
    lemma_put_str_as_puts, str_puts, Put, TextGrid,
};

verus! {

/// Legend configuration.
#[derive(Debug, Clone)]
pub struct LegendConfig {
    /// Whether the legend is visible.
    pub enabled: bool,
    /// Corner placement within the plot area.
    pub placement: Placement,
    /// Lay entries out horizontally instead of vertically.
    pub horizontal: bool,
    /// Reverse entry order.
    pub reverse: bool,
    /// Optional title shown above legend entries.
    pub title: Option<String>,
}

impl Default for LegendConfig {
    fn default() -> (c: Self)
        ensures
            c.enabled,
            c.placement == Placement::TopRight,
            !c.horizontal,
            !c.reverse,
            c.title is None,
    {
        LegendConfig {
            enabled: true,
            placement: Placement::TopRight,
            horizontal: false,
            reverse: false,
            title: None,
        }
    }
}

/// Whether the options list asks for reversed order.
pub open spec fn asks_reverse(opts: Seq<LegendOption>) -> bool {
    exists|i: int| 0 <= i < opts.len() && #[trigger] opts[i] is Reverse
}

/// Whether the options list asks for a horizontal layout.
pub open spec fn asks_horizontal(opts: Seq<LegendOption>) -> bool {
    exists|i: int| 0 <= i < opts.len() && #[trigger] opts[i] is Horizontal
}

/// The placement given by the last `Placement` option, if any.
pub open spec fn last_placement(opts: Seq<LegendOption>) -> Option<Placement>
    decreases opts.len(),
{
    if opts.len() == 0 {
        None
    } else {
        match opts.last() {
            LegendOption::Placement(p) => Some(p),
            _ => last_placement(opts.drop_last()),
        }
    }
}

/// The title given by the last `Title` option, if any.
pub open spec fn last_title(opts: Seq<LegendOption>) -> Option<String>
    decreases opts.len(),
{
    if opts.len() == 0 {
        None
    } else {
        match opts.last() {
            LegendOption::Title(t) => Some(t),
            _ => last_title(opts.drop_last()),
        }
    }
}

impl LegendConfig {
    /// Applies legend options in order: `Reverse` and `Horizontal` switch their flag on,
    /// `Placement` and `Title` replace the current value (the last one wins).
    pub fn set_options(&mut self, options: &[LegendOption])
        ensures
            final(self).enabled == old(self).enabled,
            final(self).reverse == (old(self).reverse || asks_reverse(options@)),
            final(self).horizontal == (old(self).horizontal || asks_horizontal(options@)),
            final(self).placement == (match last_placement(options@) {
                Some(p) => p,
                None => old(self).placement,
            }),
            final(self).title == (match last_title(options@) {
                Some(t) => Some(t),
                None => old(self).title,
            }),
    {
        let ghost c0 = *self;
        let mut i: usize = 0;
        while i < options.len()
            invariant
                i <= options@.len(),
                self.enabled == c0.enabled,
                self.reverse == (c0.reverse || asks_reverse(options@.take(i as int))),
                self.horizontal == (c0.horizontal || asks_horizontal(options@.take(i as int))),
                self.placement == (match last_placement(options@.take(i as int)) {
                    Some(p) => p,
                    None => c0.placement,
                }),
                self.title == (match last_title(options@.take(i as int)) {
                    Some(t) => Some(t),
                    None => c0.title,
                }),
            decreases options.len() - i,
        {
            let ghost pre = options@.take(i as int);
            let ghost post = options@.take(i + 1);
            assert(post.drop_last() =~= pre);
            assert(post.last() == options@[i as int]);
            match &options[i] {
                LegendOption::Reverse => {
                    self.reverse = true;
                },
                LegendOption::Horizontal => {
                    self.horizontal = true;
                },
                LegendOption::Placement(p) => {
                    self.placement = *p;
                },
                LegendOption::Title(t) => {
                    self.title = Some(t.clone());
                },
            }
            proof {
                if asks_reverse(post) {
                    let w = choose|w: int| 0 <= w < post.len() && #[trigger] post[w] is Reverse;
                    if w < i {
                        assert(pre[w] is Reverse);
                    }
                }
                if asks_reverse(pre) {
                    let w = choose|w: int| 0 <= w < pre.len() && #[trigger] pre[w] is Reverse;
                    assert(post[w] is Reverse);
                }
                if options@[i as int] is Reverse {
                    assert(post[i as int] is Reverse);
                }
                if asks_horizontal(post) {
                    let w = choose|w: int| 0 <= w < post.len() && #[trigger] post[w] is Horizontal;
                    if w < i {
                        assert(pre[w] is Horizontal);
                    }
                }
                if asks_horizontal(pre) {
                    let w = choose|w: int| 0 <= w < pre.len() && #[trigger] pre[w] is Horizontal;
                    assert(post[w] is Horizontal);
                }
                if options@[i as int] is Horizontal {
                    assert(post[i as int] is Horizontal);
                }
            }
            i += 1;
        }
        assert(options@.take(options@.len() as int) =~= options@);
    }

    /// Turns the legend off.
    pub fn disable(&mut self)
        ensures
            !final(self).enabled,
            final(self).placement == old(self).placement,
            final(self).horizontal == old(self).horizontal,
            final(self).reverse == old(self).reverse,
            final(self).title == old(self).title,
    {
        self.enabled = false;
    }
}

/// The kind of a plotted series, as far as the legend tells kinds apart.
#[derive(Debug, Clone, Copy, PartialEq, Eq, Structural)]
pub enum SeriesKind {
    Lines,
    Points,
    LinesPoints,
    Boxes,
    FillBetween,
    YErrorBars,
    XErrorBars,
    YErrorLines,
    XErrorLines,
    BoxAndWhisker,
    Heatmap,
    Contour,
    HeatmapContour,
}

/// What the legend needs to know of one series: its kind and its options, in order.
pub struct LegendSeries {
    pub kind: SeriesKind,
    pub options: Vec<StyleOption>,
}

/// One row of the legend.
pub struct LegendEntry {
    pub caption: String,
    pub color: TermColor,
    pub is_line: bool,
    pub is_point: bool,
    pub dash: DashType,
    pub symbol: PointSymbol,
}

/// Whether a series of this kind shows a line swatch and whether it shows a marker:
/// points show only a marker, lines-and-points both, every other kind a line.
pub open spec fn swatch_kind(k: SeriesKind) -> (bool, bool) {
    match k {
        SeriesKind::Points => (false, true),
        SeriesKind::LinesPoints => (true, true),
        _ => (true, false),
    }
}

/// The legend entry of the `idx`-th series, when it has a caption: its color (else the
/// palette color of its index), dash (else solid) and symbol (else a dot).
pub open spec fn entry_of(idx: int, s: LegendSeries) -> Seq<LegendEntry> {
    match first_caption(s.options@) {
        Some(c) => seq![
            LegendEntry {
                caption: c,
                color: match first_color(s.options@) {
                    Some(col) => col,
                    None => palette_color(idx),
                },
                is_line: swatch_kind(s.kind).0,
                is_point: swatch_kind(s.kind).1,
                dash: match first_dash(s.options@) {
                    Some(d) => d,
                    None => DashType::Solid,
                },
                symbol: match first_symbol(s.options@) {
                    Some(p) => p,
                    None => PointSymbol::Dot,
                },
            },
        ],
        None => seq![],
    }
}

/// The entries of the first `m` series, in series order.
pub open spec fn entries_upto(series: Seq<LegendSeries>, m: int) -> Seq<LegendEntry>
    decreases m,
{
    if m <= 0 {
        seq![]
    } else {
        entries_upto(series, m - 1) + entry_of(m - 1, series[m - 1])
    }
}

/// The legend entries of a list of series: one per series with a caption, in order.
pub open spec fn legend_entries(series: Seq<LegendSeries>) -> Seq<LegendEntry> {
    entries_upto(series, series.len() as int)
}

proof fn lemma_entry_captions_upto(series: Seq<LegendSeries>, m: int)
    requires
        0 <= m <= series.len(),
    ensures
        entries_upto(series, m).map_values(|e: LegendEntry| e.caption) == series.take(m).filter_map(
            |s: LegendSeries| first_caption(s.options@),
        ),
    decreases m,
{
    let f = |s: LegendSeries| first_caption(s.options@);
    if m > 0 {
        lemma_entry_captions_upto(series, m - 1);
        assert(series.take(m).drop_last() =~= series.take(m - 1));
        assert(series.take(m).last() == series[m - 1]);
        let a = entries_upto(series, m - 1);
        let b = entry_of(m - 1, series[m - 1]);
        assert((a + b).map_values(|e: LegendEntry| e.caption) =~= a.map_values(|e: LegendEntry| e.caption)
            + b.map_values(|e: LegendEntry| e.caption));
        match first_caption(series[m - 1].options@) {
            Some(c) => {
                assert(b.map_values(|e: LegendEntry| e.caption) =~= seq![c]);
            },
            None => {
                assert(b.map_values(|e: LegendEntry| e.caption) =~= Seq::<String>::empty());
            },
        }
    } else {
        assert(series.take(0) =~= Seq::<LegendSeries>::empty());
        assert(entries_upto(series, 0).map_values(|e: LegendEntry| e.caption) =~= Seq::<String>::empty());
    }
}

/// The legend lists the captioned series in order, one entry each: the captions of its
/// entries are, in order, the first captions of exactly the series that have one.
pub proof fn law_legend_entries_are_captioned_series(series: Seq<LegendSeries>)
    ensures
        legend_entries(series).map_values(|e: LegendEntry| e.caption) == series.filter_map(
            |s: LegendSeries| first_caption(s.options@),
        ),
{
    lemma_entry_captions_upto(series, series.len() as int);
    assert(series.take(series.len() as int) =~= series);
}

/// Collects the legend entries of the series that have a caption, in series order.
pub fn collect_entries(series: &[LegendSeries]) -> (es: Vec<LegendEntry>)
    ensures
        es@ == legend_entries(series@),
{
    let mut es: Vec<LegendEntry> = Vec::new();
    let mut idx: usize = 0;
    while idx < series.len()
        invariant
            idx <= series@.len(),
            es@ == entries_upto(series@, idx as int),
        decreases series.len() - idx,
    {
        let s = &series[idx];
        let caption = find_caption(s.options.as_slice());
        if let Some(caption) = caption {
            let color = resolve_series_color(s.options.as_slice(), idx);
            let dash = resolve_dash(s.options.as_slice());
            let symbol = resolve_point_symbol(s.options.as_slice());
            let (is_line, is_point) = match s.kind {
                SeriesKind::Points => (false, true),
                SeriesKind::LinesPoints => (true, true),
                _ => (true, false),
            };
            es.push(LegendEntry { caption, color, is_line, is_point, dash, symbol });
        }
        idx += 1;
        assert(es@ =~= entries_upto(series@, idx as int));
    }
    es
}

} // verus!

verus! {

/// The three characters of the line swatch of a dash type.
pub open spec fn swatch_chars(d: DashType) -> Seq<char> {
    match d {
        DashType::Solid => seq!['─', '─', '─'],
        DashType::Dash => seq!['╶', '─', '╴'],
        DashType::Dot => seq!['·', '·', '·'],
        DashType::DotDash => seq!['·', '─', '·'],
        DashType::DotDotDash => seq!['·', '·', '─'],
        DashType::SmallDot => seq!['·', '·', '·'],
    }
}

/// The character standing for a point symbol.
pub open spec fn marker_char(p: PointSymbol) -> char {
    match p {
        PointSymbol::Dot => '·',
        PointSymbol::Cross => '+',
        PointSymbol::Circle => 'o',
        PointSymbol::Diamond => '◇',
        PointSymbol::Triangle => '△',
        PointSymbol::Square => '□',
    }
}

/// The swatch of an entry at `(col, row)`: the dash type's three characters in the
/// entry's color for a line; for a marker only, a space, the marker in the entry's
/// color, and a space.
pub open spec fn swatch_puts(col: int, row: int, e: LegendEntry) -> Seq<Put> {
    if e.is_line {
        str_puts(col, row, swatch_chars(e.dash), e.color)
    } else if e.is_point {
        put1(col, row, ' ') + seq![(col + 1, row, marker_char(e.symbol), e.color)] + put1(col + 2, row, ' ')
    } else {
        seq![]
    }
}

/// One entry at `(col, row)`: its swatch, a space after the four swatch columns, then
/// the caption.
#[verifier::opaque]
pub open spec fn entry_puts(col: int, row: int, e: LegendEntry) -> Seq<Put> {
    swatch_puts(col, row, e) + put1(col + 4, row, ' ') + str_puts(col + 5, row, e.caption@, TermColor::Default)
}

/// The longest caption among the first `k` entries, in bytes (0 without entries).
pub open spec fn max_caption_bytes(es: Seq<LegendEntry>, k: int) -> int
    decreases k,
{
    if k <= 0 {
        0
    } else {
        let m = max_caption_bytes(es, k - 1);
        let l = byte_len(es[k - 1].caption@);
        if l > m { l } else { m }
    }
}

/// The width of the first `k` entries laid out in a row: swatch, space, caption (in
/// bytes) and a space each.
pub open spec fn row_width(es: Seq<LegendEntry>, k: int) -> int
    decreases k,
{
    if k <= 0 {
        0
    } else {
        row_width(es, k - 1) + 6 + byte_len(es[k - 1].caption@)
    }
}

/// Width of the legend box, borders included.
pub open spec fn box_width(es: Seq<LegendEntry>, horizontal: bool) -> int {
    if horizontal {
        row_width(es, es.len() as int) + 3
    } else {
        max_caption_bytes(es, es.len() as int) + 9
    }
}

/// Height of the legend box, borders included: one row of entries when horizontal,
/// else one row per entry plus one for a title.
pub open spec fn box_height(es: Seq<LegendEntry>, horizontal: bool, has_title: bool) -> int {
    if horizontal {
        3
    } else {
        es.len() + 2 + (if has_title { 1int } else { 0 })
    }
}

/// Top-left corner of the legend box in the canvas area at `(cc, cr)` of `cw` × `chh`
/// characters: a right-hand box keeps one column free on its right, a bottom box
/// touches the bottom; a box too big for the area stays at its left or top edge.
pub open spec fn legend_origin(p: Placement, bw: int, bh: int, cc: int, cr: int, cw: int, chh: int) -> (int, int) {
    match p {
        Placement::TopRight => (cc + sat_sub(cw, bw + 1), cr),
        Placement::TopLeft => (cc, cr),
        Placement::BottomRight => (cc + sat_sub(cw, bw + 1), cr + sat_sub(chh, bh)),
        Placement::BottomLeft => (cc, cr + sat_sub(chh, bh)),
    }
}

/// The border and blank interior of a `bw` × `bh` box at `(sc, sr)`: the four corners,
/// the top and bottom edges, the side edges, then every interior position blanked.
pub open spec fn box_puts(sc: int, sr: int, bw: int, bh: int) -> Seq<Put> {
    put1(sc, sr, '┌') + put1(sc + bw - 1, sr, '┐') + put1(sc, sr + bh - 1, '└') + put1(sc + bw - 1, sr + bh - 1, '┘')
        + concat_puts(hedge_fn(sc, sr, bh), bw - 2) + concat_puts(vedge_fn(sc, sr, bw), bh - 2) + concat_puts(
        blank_fn(sc, sr, bw),
        bh - 2,
    )
}

/// The two edge characters of the `c`-th interior column.
pub open spec fn hedge_fn(sc: int, sr: int, bh: int) -> spec_fn(int) -> Seq<Put> {
    |c: int| put1(sc + 1 + c, sr, '─') + put1(sc + 1 + c, sr + bh - 1, '─')
}

/// The two edge characters of the `r`-th interior row.
pub open spec fn vedge_fn(sc: int, sr: int, bw: int) -> spec_fn(int) -> Seq<Put> {
    |r: int| put1(sc, sr + 1 + r, '│') + put1(sc + bw - 1, sr + 1 + r, '│')
}

/// `n` spaces.
pub open spec fn spaces(n: int) -> Seq<char> {
    Seq::new(n as nat, |i: int| ' ')
}

/// The blanks of the `r`-th interior row.
pub open spec fn blank_fn(sc: int, sr: int, bw: int) -> spec_fn(int) -> Seq<Put> {
    |r: int| str_puts(sc + 1, sr + 1 + r, spaces(bw - 2), TermColor::Default)
}

/// The title centered on the first interior row, when there is one.
pub open spec fn legend_title_puts(sc: int, sr: int, bw: int, title: Option<String>) -> Seq<Put> {
    match title {
        Some(t) => str_puts(centered_start(sc + 1, bw - 2, t@.len() as int), sr + 1, t@, TermColor::Default),
        None => seq![],
    }
}

/// The entries from row `row0`: side by side from column `sc + 1` when horizontal,
/// else one per row from column `sc + 2`.
pub open spec fn entries_puts(es: Seq<LegendEntry>, horizontal: bool, sc: int, row0: int) -> Seq<Put> {
    if horizontal {
        concat_puts(row_entry_fn(es, sc, row0), es.len() as int)
    } else {
        concat_puts(column_entry_fn(es, sc, row0), es.len() as int)
    }
}

/// The `k`-th entry of a horizontal legend, after the widths of the entries before it.
pub open spec fn row_entry_fn(es: Seq<LegendEntry>, sc: int, row0: int) -> spec_fn(int) -> Seq<Put> {
    |k: int| entry_puts(sc + 1 + row_width(es, k), row0, es[k])
}

/// The `i`-th entry of a vertical legend, on its own row.
pub open spec fn column_entry_fn(es: Seq<LegendEntry>, sc: int, row0: int) -> spec_fn(int) -> Seq<Put> {
    |i: int| entry_puts(sc + 2, row0 + i, es[i])
}

/// Every placement of a legend with entries `es` over the canvas area at `(cc, cr)`
/// of `cw` × `chh` characters: the box, the title, then the entries.
pub open spec fn legend_puts(
    es: Seq<LegendEntry>,
    legend: LegendConfig,
    cc: int,
    cr: int,
    cw: int,
    chh: int,
) -> Seq<Put> {
    let bw = box_width(es, legend.horizontal);
    let bh = box_height(es, legend.horizontal, legend.title is Some);
    let o = legend_origin(legend.placement, bw, bh, cc, cr, cw, chh);
    let row0 = if legend.title is Some { o.1 + 2 } else { o.1 + 1 };
    box_puts(o.0, o.1, bw, bh) + legend_title_puts(o.0, o.1, bw, legend.title) + entries_puts(
        es,
        legend.horizontal,
        o.0,
        row0,
    )
}

/// The entries in display order.
pub open spec fn ordered_entries(series: Seq<LegendSeries>, reverse: bool) -> Seq<LegendEntry> {
    if reverse {
        legend_entries(series).reverse()
    } else {
        legend_entries(series)
    }
}

/// Room the captions of the first `k` entries take: bytes, characters and six columns each.
pub open spec fn captions_room(es: Seq<LegendEntry>, k: int) -> int
    decreases k,
{
    if k <= 0 {
        0
    } else {
        captions_room(es, k - 1) + byte_len(es[k - 1].caption@) + es[k - 1].caption@.len() + 6
    }
}

/// The legend's coordinates stay within `usize`.
pub open spec fn legend_fits(
    es: Seq<LegendEntry>,
    title: Option<String>,
    cc: int,
    cr: int,
    cw: int,
    chh: int,
) -> bool {
    let tl = match title {
        Some(t) => t@.len() as int,
        None => 0,
    };
    cc + cw + cr + chh + captions_room(es, es.len() as int) + tl + 3 * es.len() + 16 <= usize::MAX
}

} // verus!

verus! {

proof fn lemma_byte_len_bounds(s: Seq<char>)
    ensures
        0 <= byte_len(s) <= usize::MAX,
{
}

/// The room of a prefix bounds its layout width, its widest caption, and grows with
/// the prefix.
proof fn lemma_room(es: Seq<LegendEntry>, k: int)
    requires
        0 <= k <= es.len(),
    ensures
        row_width(es, k) <= captions_room(es, k),
        0 <= max_caption_bytes(es, k) <= captions_room(es, k),
        0 <= row_width(es, k),
        forall|j: int| 0 <= j <= k ==> #[trigger] captions_room(es, j) <= captions_room(es, k),
        forall|j: int| 0 <= j < k ==> row_width(es, j) + 6 + (#[trigger] es[j]).caption@.len() <= captions_room(es, k),
        forall|j: int| 0 <= j < k ==> (#[trigger] es[j]).caption@.len() <= captions_room(es, k),
    decreases k,
{
    if k > 0 {
        lemma_room(es, k - 1);
        lemma_byte_len_bounds(es[k - 1].caption@);
    }
}

fn put_one(grid: &mut TextGrid, col: usize, row: usize, ch: char, color: TermColor)
    requires
        old(grid)@.wf(),
    ensures
        final(grid)@.wf(),
        final(grid)@ == apply_puts(old(grid)@, seq![(col as int, row as int, ch, color)]),
{
    let ghost v = grid@;
    grid.put_char(col, row, ch, color);
    proof {
        lemma_apply_puts_push(v, seq![], (col as int, row as int, ch, color));
        assert(Seq::<Put>::empty() + seq![(col as int, row as int, ch, color)] =~= seq![(col as int, row as int, ch, color)]);
    }
}

fn put_run(grid: &mut TextGrid, col: usize, row: usize, cs: &Vec<char>, color: TermColor)
    requires
        old(grid)@.wf(),
        col + cs@.len() <= usize::MAX + 1,
    ensures
        final(grid)@.wf(),
        final(grid)@ == apply_puts(old(grid)@, str_puts(col as int, row as int, cs@, color)),
{
    let ghost v = grid@;
    grid.put_chars(col, row, cs, color);
    proof {
        lemma_put_str_as_puts(v, col as int, row as int, cs@, color);
    }
}

fn swatch_vec(d: DashType) -> (v: Vec<char>)
    ensures
        v@ == swatch_chars(d),
{
    let v = match d {
        DashType::Solid => vec!['─', '─', '─'],
        DashType::Dash => vec!['╶', '─', '╴'],
        DashType::Dot => vec!['·', '·', '·'],
        DashType::DotDash => vec!['·', '─', '·'],
        DashType::DotDotDash => vec!['·', '·', '─'],
        DashType::SmallDot => vec!['·', '·', '·'],
    };
    assert(v@ =~= swatch_chars(d));
    v
}

fn marker_of(p: PointSymbol) -> (c: char)
    ensures
        c == marker_char(p),
{
    match p {
        PointSymbol::Dot => '·',
        PointSymbol::Cross => '+',
        PointSymbol::Circle => 'o',
        PointSymbol::Diamond => '◇',
        PointSymbol::Triangle => '△',
        PointSymbol::Square => '□',
    }
}

/// Draws the swatch of a legend entry at `(col, row)` (see `swatch_puts`).
pub fn draw_swatch(grid: &mut TextGrid, col: usize, row: usize, entry: &LegendEntry)
    requires
        old(grid)@.wf(),
        col + 3 <= usize::MAX,
    ensures
        final(grid)@.wf(),
        final(grid)@ == apply_puts(old(grid)@, swatch_puts(col as int, row as int, *entry)),
{
    let ghost g0 = grid@;
    if entry.is_line {
        let cs = swatch_vec(entry.dash);
        put_run(grid, col, row, &cs, entry.color);
    } else if entry.is_point {
        let marker = marker_of(entry.symbol);
        put_one(grid, col, row, ' ', TermColor::Default);
        let ghost d1 = put1(col as int, row as int, ' ');
        put_one(grid, col + 1, row, marker, entry.color);
        proof {
            lemma_apply_puts_append(g0, d1, seq![(col + 1, row as int, marker, entry.color)]);
        }
        let ghost d2 = d1 + seq![(col + 1, row as int, marker, entry.color)];
        put_one(grid, col + 2, row, ' ', TermColor::Default);
        proof {
            lemma_apply_puts_append(g0, d2, put1(col + 2, row as int, ' '));
            assert(d2 + put1(col + 2, row as int, ' ') =~= swatch_puts(col as int, row as int, *entry));
        }
    } else {
        assert(grid@ =~= apply_puts(g0, swatch_puts(col as int, row as int, *entry)));
    }
}

fn draw_entry(grid: &mut TextGrid, col: usize, row: usize, entry: &LegendEntry)
    requires
        old(grid)@.wf(),
        col + 5 + entry.caption@.len() <= usize::MAX,
    ensures
        final(grid)@.wf(),
        final(grid)@ == apply_puts(old(grid)@, entry_puts(col as int, row as int, *entry)),
{
    let ghost g0 = grid@;
    reveal(entry_puts);
    draw_swatch(grid, col, row, entry);
    let ghost d1 = swatch_puts(col as int, row as int, *entry);
    put_one(grid, col + 4, row, ' ', TermColor::Default);
    proof {
        lemma_apply_puts_append(g0, d1, put1(col + 4, row as int, ' '));
    }
    let ghost d2 = d1 + put1(col + 4, row as int, ' ');
    let cs = str_chars(entry.caption.as_str());
    put_run(grid, col + 5, row, &cs, TermColor::Default);
    proof {
        lemma_apply_puts_append(g0, d2, str_puts(col + 5, row as int, entry.caption@, TermColor::Default));
    }
}

fn draw_box(grid: &mut TextGrid, sc: usize, sr: usize, bw: usize, bh: usize)
    requires
        old(grid)@.wf(),
        bw >= 2,
        bh >= 2,
        sc + bw <= usize::MAX,
        sr + bh <= usize::MAX,
    ensures
        final(grid)@.wf(),
        final(grid)@ == apply_puts(old(grid)@, box_puts(sc as int, sr as int, bw as int, bh as int)),
{
    let ghost g0 = grid@;
    let ghost d0: Seq<Put> = seq![];
    assert(apply_puts(g0, d0) == g0);
    put_one(grid, sc, sr, '┌', TermColor::Default);
    proof { lemma_apply_puts_append(g0, d0, put1(sc as int, sr as int, '┌')); }
    let ghost d1 = d0 + put1(sc as int, sr as int, '┌');
    put_one(grid, sc + bw - 1, sr, '┐', TermColor::Default);
    proof { lemma_apply_puts_append(g0, d1, put1(sc + bw - 1, sr as int, '┐')); }
    let ghost d2 = d1 + put1(sc + bw - 1, sr as int, '┐');
    put_one(grid, sc, sr + bh - 1, '└', TermColor::Default);
    proof { lemma_apply_puts_append(g0, d2, put1(sc as int, sr + bh - 1, '└')); }
    let ghost d3 = d2 + put1(sc as int, sr + bh - 1, '└');
    put_one(grid, sc + bw - 1, sr + bh - 1, '┘', TermColor::Default);
    proof { lemma_apply_puts_append(g0, d3, put1(sc + bw - 1, sr + bh - 1, '┘')); }
    let ghost d4 = d3 + put1(sc + bw - 1, sr + bh - 1, '┘');
    let ghost hf = hedge_fn(sc as int, sr as int, bh as int);
    let mut c: usize = 0;
    assert(d4 + concat_puts(hf, 0) =~= d4);
    while c < bw - 2
        invariant
            grid@.wf(),
            c <= bw - 2,
            bw >= 2,
            bh >= 2,
            sc + bw <= usize::MAX,
            sr + bh <= usize::MAX,
            hf == hedge_fn(sc as int, sr as int, bh as int),
            grid@ == apply_puts(g0, d4 + concat_puts(hf, c as int)),
        decreases bw - 2 - c,
    {
        let ghost dd = d4 + concat_puts(hf, c as int);
        put_one(grid, sc + 1 + c, sr, '─', TermColor::Default);
        proof { lemma_apply_puts_append(g0, dd, put1(sc + 1 + c, sr as int, '─')); }
        put_one(grid, sc + 1 + c, sr + bh - 1, '─', TermColor::Default);
        proof {
            lemma_apply_puts_append(g0, dd + put1(sc + 1 + c, sr as int, '─'), put1(sc + 1 + c, sr + bh - 1, '─'));
            assert(dd + put1(sc + 1 + c, sr as int, '─') + put1(sc + 1 + c, sr + bh - 1, '─') =~= d4 + concat_puts(hf, c + 1));
        }
        c += 1;
    }
    let ghost d5 = d4 + concat_puts(hf, (bw - 2) as int);
    let ghost vf = vedge_fn(sc as int, sr as int, bw as int);
    let mut r: usize = 0;
    assert(d5 + concat_puts(vf, 0) =~= d5);
    while r < bh - 2
        invariant
            grid@.wf(),
            r <= bh - 2,
            bw >= 2,
            bh >= 2,
            sc + bw <= usize::MAX,
            sr + bh <= usize::MAX,
            vf == vedge_fn(sc as int, sr as int, bw as int),
            grid@ == apply_puts(g0, d5 + concat_puts(vf, r as int)),
        decreases bh - 2 - r,
    {
        let ghost dd = d5 + concat_puts(vf, r as int);
        put_one(grid, sc, sr + 1 + r, '│', TermColor::Default);
        proof { lemma_apply_puts_append(g0, dd, put1(sc as int, sr + 1 + r, '│')); }
        put_one(grid, sc + bw - 1, sr + 1 + r, '│', TermColor::Default);
        proof {
            lemma_apply_puts_append(g0, dd + put1(sc as int, sr + 1 + r, '│'), put1(sc + bw - 1, sr + 1 + r, '│'));
            assert(dd + put1(sc as int, sr + 1 + r, '│') + put1(sc + bw - 1, sr + 1 + r, '│') =~= d5 + concat_puts(vf, r + 1));
        }
        r += 1;
    }
    let ghost d6 = d5 + concat_puts(vf, (bh - 2) as int);
    let mut blanks: Vec<char> = Vec::new();
    let mut k: usize = 0;
    while k < bw - 2
        invariant
            k <= bw - 2,
            blanks@ == spaces(k as int),
        decreases bw - 2 - k,
    {
        blanks.push(' ');
        k += 1;
        assert(blanks@ =~= spaces(k as int));
    }
    let ghost bf = blank_fn(sc as int, sr as int, bw as int);
    let mut r: usize = 0;
    assert(d6 + concat_puts(bf, 0) =~= d6);
    while r < bh - 2
        invariant
            grid@.wf(),
            r <= bh - 2,
            bw >= 2,
            bh >= 2,
            sc + bw <= usize::MAX,
            sr + bh <= usize::MAX,
            blanks@ == spaces(bw - 2),
            bf == blank_fn(sc as int, sr as int, bw as int),
            grid@ == apply_puts(g0, d6 + concat_puts(bf, r as int)),
        decreases bh - 2 - r,
    {
        let ghost dd = d6 + concat_puts(bf, r as int);
        put_run(grid, sc + 1, sr + 1 + r, &blanks, TermColor::Default);
        proof {
            lemma_apply_puts_append(g0, dd, str_puts(sc + 1, sr + 1 + r, spaces(bw - 2), TermColor::Default));
            assert(dd + str_puts(sc + 1, sr + 1 + r, spaces(bw - 2), TermColor::Default) =~= d6 + concat_puts(bf, r + 1));
        }
        r += 1;
    }
    assert(d6 + concat_puts(bf, (bh - 2) as int) =~= box_puts(sc as int, sr as int, bw as int, bh as int));
}

fn reverse_entries(v: Vec<LegendEntry>) -> (r: Vec<LegendEntry>)
    ensures
        r@ == v@.reverse(),
{
    let ghost orig = v@;
    let mut v = v;
    let mut r: Vec<LegendEntry> = Vec::new();
    assert(r@ + v@.reverse() =~= orig.reverse());
    while v.len() > 0
        invariant
            r@ + v@.reverse() == orig.reverse(),
        decreases v.len(),
    {
        let ghost pre = v@;
        let e = v.pop().unwrap();
        proof {
            assert(pre.reverse() =~= seq![e] + v@.reverse());
        }
        r.push(e);
        assert(r@ + v@.reverse() =~= orig.reverse());
    }
    assert(r@ =~= orig.reverse());
    r
}

} // verus!

verus! {


fn legend_box_width(entries: &Vec<LegendEntry>, horizontal: bool) -> (bw: usize)
    requires
        captions_room(entries@, entries@.len() as int) <= usize::MAX - 16,
    ensures
        bw == box_width(entries@, horizontal),
{
    let ghost es = entries@;
    let n = entries.len();
    proof {
        lemma_room(es, n as int);
    }
    if horizontal {
        let mut w: usize = 0;
        let mut k: usize = 0;
        while k < n
            invariant
                k <= n,
                n == es.len(),
                es == entries@,
                w == row_width(es, k as int),
                captions_room(es, n as int) <= usize::MAX - 16,
                forall|j: int| 0 <= j <= n ==> #[trigger] captions_room(es, j) <= captions_room(es, n as int),
            decreases n - k,
        {
            proof {
                lemma_room(es, k + 1);
                assert(captions_room(es, k + 1) <= captions_room(es, n as int));
                lemma_byte_len_bounds(es[k as int].caption@);
            }
            w = w + 6 + string_byte_len(&entries[k].caption);
            k += 1;
        }
        proof {
            lemma_room(es, n as int);
        }
        w + 3
    } else {
        let mut m: usize = 0;
        let mut k: usize = 0;
        while k < n
            invariant
                k <= n,
                n == es.len(),
                es == entries@,
                m == max_caption_bytes(es, k as int),
                captions_room(es, n as int) <= usize::MAX - 16,
                forall|j: int| 0 <= j <= n ==> #[trigger] captions_room(es, j) <= captions_room(es, n as int),
            decreases n - k,
        {
            proof {
                lemma_room(es, k + 1);
                assert(captions_room(es, k + 1) <= captions_room(es, n as int));
            }
            let l = string_byte_len(&entries[k].caption);
            if l > m {
                m = l;
            }
            k += 1;
        }
        m + 9
    }
}

fn draw_entries_row(grid: &mut TextGrid, entries: &Vec<LegendEntry>, sc: usize, row0: usize)
    requires
        old(grid)@.wf(),
        captions_room(entries@, entries@.len() as int) + sc + 16 <= usize::MAX,
    ensures
        final(grid)@.wf(),
        final(grid)@ == apply_puts(old(grid)@, concat_puts(row_entry_fn(entries@, sc as int, row0 as int), entries@.len() as int)),
{
    let ghost es = entries@;
    let ghost g0 = grid@;
    let ghost f = row_entry_fn(es, sc as int, row0 as int);
    let n = entries.len();
    proof {
        lemma_room(es, n as int);
    }
    let mut col = sc + 1;
    let mut k: usize = 0;
    while k < n
        invariant
            grid@.wf(),
            k <= n,
            n == es.len(),
            es == entries@,
            col == sc + 1 + row_width(es, k as int),
            captions_room(es, n as int) + sc + 16 <= usize::MAX,
            forall|j: int| 0 <= j <= n ==> #[trigger] captions_room(es, j) <= captions_room(es, n as int),
            forall|j: int| 0 <= j < n ==> row_width(es, j) + 6 + (#[trigger] es[j]).caption@.len() <= captions_room(es, n as int),
            f == row_entry_fn(es, sc as int, row0 as int),
            grid@ == apply_puts(g0, concat_puts(f, k as int)),
        decreases n - k,
    {
        let ghost dd = concat_puts(f, k as int);
        proof {
            lemma_room(es, k + 1);
            assert(captions_room(es, k + 1) <= captions_room(es, n as int));
            lemma_byte_len_bounds(es[k as int].caption@);
            assert(row_width(es, k as int) + 6 + es[k as int].caption@.len() <= captions_room(es, n as int));
        }
        draw_entry(grid, col, row0, &entries[k]);
        proof {
            lemma_apply_puts_append(g0, dd, entry_puts(col as int, row0 as int, es[k as int]));
        }
        col = col + 6 + string_byte_len(&entries[k].caption);
        k += 1;
    }
}

fn draw_entries_column(grid: &mut TextGrid, entries: &Vec<LegendEntry>, sc: usize, row0: usize)
    requires
        old(grid)@.wf(),
        row0 + entries@.len() <= usize::MAX,
        captions_room(entries@, entries@.len() as int) + sc + 16 <= usize::MAX,
    ensures
        final(grid)@.wf(),
        final(grid)@ == apply_puts(old(grid)@, concat_puts(column_entry_fn(entries@, sc as int, row0 as int), entries@.len() as int)),
{
    let ghost es = entries@;
    let ghost g0 = grid@;
    let ghost f = column_entry_fn(es, sc as int, row0 as int);
    let n = entries.len();
    proof {
        lemma_room(es, n as int);
    }
    let mut i: usize = 0;
    while i < n
        invariant
            grid@.wf(),
            i <= n,
            n == es.len(),
            es == entries@,
            row0 + n <= usize::MAX,
            captions_room(es, n as int) + sc + 16 <= usize::MAX,
            forall|j: int| 0 <= j < n ==> (#[trigger] es[j]).caption@.len() <= captions_room(es, n as int),
            f == column_entry_fn(es, sc as int, row0 as int),
            grid@ == apply_puts(g0, concat_puts(f, i as int)),
        decreases n - i,
    {
        let ghost dd = concat_puts(f, i as int);
        proof {
            assert(es[i as int].caption@.len() <= captions_room(es, n as int));
        }
        draw_entry(grid, sc + 2, row0 + i, &entries[i]);
        proof {
            lemma_apply_puts_append(g0, dd, entry_puts(sc + 2, row0 + i, es[i as int]));
        }
        i += 1;
    }
}

fn sat_sub_exec(a: usize, b: usize) -> (r: usize)
    ensures
        r == sat_sub(a as int, b as int),
{
    if a >= b { a - b } else { 0 }
}

fn legend_origin_exec(
    placement: Placement,
    bw: usize,
    bh: usize,
    cc: usize,
    cr: usize,
    cw: usize,
    chh: usize,
) -> (o: (usize, usize))
    requires
        cc + cw <= usize::MAX,
        cr + chh <= usize::MAX,
        bw < usize::MAX,
    ensures
        o.0 as int == legend_origin(placement, bw as int, bh as int, cc as int, cr as int, cw as int, chh as int).0,
        o.1 as int == legend_origin(placement, bw as int, bh as int, cc as int, cr as int, cw as int, chh as int).1,
        o.0 <= cc + cw,
        o.1 <= cr + chh,
{
    match placement {
        Placement::TopRight => (cc + sat_sub_exec(cw, bw + 1), cr),
        Placement::TopLeft => (cc, cr),
        Placement::BottomRight => (cc + sat_sub_exec(cw, bw + 1), cr + sat_sub_exec(chh, bh)),
        Placement::BottomLeft => (cc, cr + sat_sub_exec(chh, bh)),
    }
}

fn draw_title(grid: &mut TextGrid, sc: usize, sr: usize, bw: usize, title: &Option<String>)
    requires
        old(grid)@.wf(),
        bw >= 2,
        sc + bw <= usize::MAX,
        sr + 1 <= usize::MAX,
        title is Some ==> sc + bw + title->0@.len() <= usize::MAX,
    ensures
        final(grid)@.wf(),
        final(grid)@ == apply_puts(old(grid)@, legend_title_puts(sc as int, sr as int, bw as int, *title)),
{
    let ghost before = grid@;
    match title {
        Some(t) => {
            grid.put_str_centered(sc + 1, bw - 2, sr + 1, t.as_str(), TermColor::Default);
            proof {
                lemma_put_str_as_puts(
                    before,
                    centered_start(sc + 1, bw - 2, t@.len() as int),
                    sr + 1,
                    t@,
                    TermColor::Default,
                );
            }
        },
        None => {
        },
    }
}

fn draw_legend_box(
    grid: &mut TextGrid,
    entries: &Vec<LegendEntry>,
    legend: &LegendConfig,
    cc: usize,
    cr: usize,
    cw: usize,
    chh: usize,
)
    requires
        old(grid)@.wf(),
        legend_fits(entries@, legend.title, cc as int, cr as int, cw as int, chh as int),
    ensures
        final(grid)@.wf(),
        final(grid)@ == apply_puts(old(grid)@, legend_puts(entries@, *legend, cc as int, cr as int, cw as int, chh as int)),
{
    let ghost es = entries@;
    let n = entries.len();
    proof {
        lemma_room(es, n as int);
    }
    let bw = legend_box_width(entries, legend.horizontal);
    let bh: usize = if legend.horizontal {
        3
    } else if legend.title.is_some() {
        n + 3
    } else {
        n + 2
    };
    assert(bh == box_height(es, legend.horizontal, legend.title is Some));
    let (sc, sr) = legend_origin_exec(legend.placement, bw, bh, cc, cr, cw, chh);
    let ghost g0 = grid@;
    draw_box(grid, sc, sr, bw, bh);
    let ghost d1 = box_puts(sc as int, sr as int, bw as int, bh as int);
    draw_title(grid, sc, sr, bw, &legend.title);
    proof {
        lemma_apply_puts_append(g0, d1, legend_title_puts(sc as int, sr as int, bw as int, legend.title));
    }
    let ghost d2 = d1 + legend_title_puts(sc as int, sr as int, bw as int, legend.title);
    let row0: usize = if legend.title.is_some() { sr + 2 } else { sr + 1 };
    if legend.horizontal {
        draw_entries_row(grid, entries, sc, row0);
    } else {
        draw_entries_column(grid, entries, sc, row0);
    }
    proof {
        lemma_apply_puts_append(g0, d2, entries_puts(es, legend.horizontal, sc as int, row0 as int));
    }
}

/// Draws the legend over the canvas area at `(canvas_col, canvas_row)`, which is
/// `canvas_width` × `canvas_height` characters: nothing when the legend is disabled
/// or no series has a caption; else the box, title and entries of `legend_puts`, the
/// entries in series order or reversed. Only a legend that is drawn needs its sizes to
/// fit in a `usize` (`legend_fits`).
pub fn draw_legend(
    grid: &mut TextGrid,
    series: &[LegendSeries],
    legend: &LegendConfig,
    canvas_col: usize,
    canvas_row: usize,
    canvas_width: usize,
    canvas_height: usize,
)
    requires
        old(grid)@.wf(),
        legend.enabled && legend_entries(series@).len() > 0 ==> legend_fits(
            ordered_entries(series@, legend.reverse),
            legend.title,
            canvas_col as int,
            canvas_row as int,
            canvas_width as int,
            canvas_height as int,
        ),
    ensures
        final(grid)@.wf(),
        final(grid)@ == (if !legend.enabled || legend_entries(series@).len() == 0 {
            old(grid)@
        } else {
            apply_puts(
                old(grid)@,
                legend_puts(
                    ordered_entries(series@, legend.reverse),
                    *legend,
                    canvas_col as int,
                    canvas_row as int,
                    canvas_width as int,
                    canvas_height as int,
                ),
            )
        }),
{
    if !legend.enabled {
        return;
    }
    let fwd = collect_entries(series);
    if fwd.len() == 0 {
        return;
    }
    let entries = if legend.reverse { reverse_entries(fwd) } else { fwd };
    draw_legend_box(grid, &entries, legend, canvas_col, canvas_row, canvas_width, canvas_height);
}

} // verus!

verus! {

/// Where each placement puts the legend box, for every box and area size: a left-hand
/// box starts at the area's left edge and a top box at its top edge; a right-hand box
/// ends one column before the area's right edge and a bottom box on its last row,
/// except that a box too wide (or too tall) for the area falls back to the left (or top)
/// edge.
pub proof fn law_legend_placement_edges(p: Placement, bw: int, bh: int, cc: int, cr: int, cw: int, chh: int)
    ensures
        (p == Placement::TopLeft || p == Placement::BottomLeft) ==> legend_origin(p, bw, bh, cc, cr, cw, chh).0
            == cc,
        (p == Placement::TopLeft || p == Placement::TopRight) ==> legend_origin(p, bw, bh, cc, cr, cw, chh).1
            == cr,
        (p == Placement::TopRight || p == Placement::BottomRight) ==> legend_origin(p, bw, bh, cc, cr, cw, chh).0
            == (if bw + 1 <= cw { cc + cw - (bw + 1) } else { cc }),
        (p == Placement::BottomLeft || p == Placement::BottomRight) ==> legend_origin(p, bw, bh, cc, cr, cw, chh).1
            == (if bh <= chh { cr + chh - bh } else { cr }),
{
}

/// A legend box that fits in the canvas area stays inside it: when the area is at least
/// one column wider than the box and at least as tall, every placement puts the box
/// within the area (a right-hand box with a free column on its right, a bottom box on
/// the area's last row).
pub proof fn law_legend_inside(p: Placement, bw: int, bh: int, cc: int, cr: int, cw: int, chh: int)
    requires
        bw >= 0,
        bh >= 0,
        bw + 1 <= cw,
        bh <= chh,
    ensures
        cc <= legend_origin(p, bw, bh, cc, cr, cw, chh).0,
        legend_origin(p, bw, bh, cc, cr, cw, chh).0 + bw <= cc + cw,
        cr <= legend_origin(p, bw, bh, cc, cr, cw, chh).1,
        legend_origin(p, bw, bh, cc, cr, cw, chh).1 + bh <= cr + chh,
        (p == Placement::TopRight || p == Placement::BottomRight) ==> legend_origin(p, bw, bh, cc, cr, cw, chh).0
            + bw + 1 == cc + cw,
        (p == Placement::BottomLeft || p == Placement::BottomRight) ==> legend_origin(p, bw, bh, cc, cr, cw, chh).1
            + bh == cr + chh,
{
}

} // verus!
