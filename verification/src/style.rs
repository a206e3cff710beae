//! Per-series style options and how a series' effective style is resolved from
//! them: the first option of each kind wins, else a default applies.

use vstd::prelude::*;

use crate::color::{palette_color, TermColor, PALETTE};
use crate::options::{AxisPair, ColorMapType, DashType, PointSymbol};

verus! {

/// A per-series plot option. The box width, whose value is fractional, is carried
/// as `BoxWidth` without its value; none of the decisions here reads it.
#[derive(Debug, Clone)]
pub enum StyleOption {
    /// Series label shown in the legend.
    Caption(String),
    /// Series color (overrides the automatic palette).
    Color(TermColor),
    /// Dash pattern for lines.
    LineStyle(DashType),
    /// Line width (1 = normal, 2+ = denser dash patterns).
    LineWidth(u32),
    /// Point marker symbol.
    Symbol(PointSymbol),
    /// Which axis pair to plot against.
    Axes(AxisPair),
    /// Border color for boxes.
    BorderColor(TermColor),
    /// Box width as a fraction of the spacing.
    BoxWidth,
    /// Colormap for heatmap and surface rendering.
    ColorMap(ColorMapType),
    /// Number of auto-generated contour levels.
    ContourLevels(usize),
}

/// The first caption among the options.
pub open spec fn first_caption(opts: Seq<StyleOption>) -> Option<String>
    decreases opts.len(),
{
    if opts.len() == 0 {
        None
    } else {
        match opts[0] {
            StyleOption::Caption(c) => Some(c),
            _ => first_caption(opts.drop_first()),
        }
    }
}

/// The first color among the options.
pub open spec fn first_color(opts: Seq<StyleOption>) -> Option<TermColor>
    decreases opts.len(),
{
    if opts.len() == 0 {
        None
    } else {
        match opts[0] {
            StyleOption::Color(c) => Some(c),
            _ => first_color(opts.drop_first()),
        }
    }
}

/// The first line style among the options.
pub open spec fn first_dash(opts: Seq<StyleOption>) -> Option<DashType>
    decreases opts.len(),
{
    if opts.len() == 0 {
        None
    } else {
        match opts[0] {
            StyleOption::LineStyle(d) => Some(d),
            _ => first_dash(opts.drop_first()),
        }
    }
}

/// The first point symbol among the options.
pub open spec fn first_symbol(opts: Seq<StyleOption>) -> Option<PointSymbol>
    decreases opts.len(),
{
    if opts.len() == 0 {
        None
    } else {
        match opts[0] {
            StyleOption::Symbol(p) => Some(p),
            _ => first_symbol(opts.drop_first()),
        }
    }
}

/// The first colormap among the options.
pub open spec fn first_colormap(opts: Seq<StyleOption>) -> Option<ColorMapType>
    decreases opts.len(),
{
    if opts.len() == 0 {
        None
    } else {
        match opts[0] {
            StyleOption::ColorMap(m) => Some(m),
            _ => first_colormap(opts.drop_first()),
        }
    }
}

/// The first axis pair among the options.
pub open spec fn first_axes(opts: Seq<StyleOption>) -> Option<AxisPair>
    decreases opts.len(),
{
    if opts.len() == 0 {
        None
    } else {
        match opts[0] {
            StyleOption::Axes(a) => Some(a),
            _ => first_axes(opts.drop_first()),
        }
    }
}

/// The first contour level count among the options.
pub open spec fn first_contour_levels(opts: Seq<StyleOption>) -> Option<usize>
    decreases opts.len(),
{
    if opts.len() == 0 {
        None
    } else {
        match opts[0] {
            StyleOption::ContourLevels(n) => Some(n),
            _ => first_contour_levels(opts.drop_first()),
        }
    }
}

/// Returns the first caption among the options, if any.
pub fn find_caption(opts: &[StyleOption]) -> (r: Option<String>)
    ensures
        r == first_caption(opts@),
{
    let mut i: usize = 0;
    assert(opts@.subrange(0, opts@.len() as int) =~= opts@);
    while i < opts.len()
        invariant
            i <= opts@.len(),
            first_caption(opts@) == first_caption(opts@.subrange(i as int, opts@.len() as int)),
        decreases opts.len() - i,
    {
        let ghost rest = opts@.subrange(i as int, opts@.len() as int);
        assert(rest.drop_first() =~= opts@.subrange(i + 1, opts@.len() as int));
        if let StyleOption::Caption(c) = &opts[i] {
            return Some(c.clone());
        }
        i += 1;
    }
    None
}

/// The color a series is drawn in: its first `Color` option, else the palette color
/// of its index (cycling every seven series).
pub fn resolve_series_color(opts: &[StyleOption], series_idx: usize) -> (c: TermColor)
    ensures
        c == (match first_color(opts@) {
            Some(col) => col,
            None => palette_color(series_idx as int),
        }),
{
    let mut i: usize = 0;
    assert(opts@.subrange(0, opts@.len() as int) =~= opts@);
    while i < opts.len()
        invariant
            i <= opts@.len(),
            first_color(opts@) == first_color(opts@.subrange(i as int, opts@.len() as int)),
        decreases opts.len() - i,
    {
        let ghost rest = opts@.subrange(i as int, opts@.len() as int);
        assert(rest.drop_first() =~= opts@.subrange(i + 1, opts@.len() as int));
        if let StyleOption::Color(c) = &opts[i] {
            return *c;
        }
        i += 1;
    }
    let k = series_idx % 7;
    assert(PALETTE@[k as int] == palette_color(series_idx as int));
    PALETTE[k]
}

/// The dash type of a series' lines: its first `LineStyle` option, else solid.
pub fn resolve_dash(opts: &[StyleOption]) -> (d: DashType)
    ensures
        d == (match first_dash(opts@) {
            Some(x) => x,
            None => DashType::Solid,
        }),
{
    let mut i: usize = 0;
    assert(opts@.subrange(0, opts@.len() as int) =~= opts@);
    while i < opts.len()
        invariant
            i <= opts@.len(),
            first_dash(opts@) == first_dash(opts@.subrange(i as int, opts@.len() as int)),
        decreases opts.len() - i,
    {
        let ghost rest = opts@.subrange(i as int, opts@.len() as int);
        assert(rest.drop_first() =~= opts@.subrange(i + 1, opts@.len() as int));
        if let StyleOption::LineStyle(d) = &opts[i] {
            return *d;
        }
        i += 1;
    }
    DashType::Solid
}

/// The marker of a series' points: its first `Symbol` option, else a dot.
pub fn resolve_point_symbol(opts: &[StyleOption]) -> (p: PointSymbol)
    ensures
        p == (match first_symbol(opts@) {
            Some(x) => x,
            None => PointSymbol::Dot,
        }),
{
    let mut i: usize = 0;
    assert(opts@.subrange(0, opts@.len() as int) =~= opts@);
    while i < opts.len()
        invariant
            i <= opts@.len(),
            first_symbol(opts@) == first_symbol(opts@.subrange(i as int, opts@.len() as int)),
        decreases opts.len() - i,
    {
        let ghost rest = opts@.subrange(i as int, opts@.len() as int);
        assert(rest.drop_first() =~= opts@.subrange(i + 1, opts@.len() as int));
        if let StyleOption::Symbol(p) = &opts[i] {
            return *p;
        }
        i += 1;
    }
    PointSymbol::Dot
}

/// The colormap of a series: its first `ColorMap` option, else the heat map.
pub fn resolve_colormap(opts: &[StyleOption]) -> (m: ColorMapType)
    ensures
        m == (match first_colormap(opts@) {
            Some(x) => x,
            None => ColorMapType::Heat,
        }),
{
    let mut i: usize = 0;
    assert(opts@.subrange(0, opts@.len() as int) =~= opts@);
    while i < opts.len()
        invariant
            i <= opts@.len(),
            first_colormap(opts@) == first_colormap(opts@.subrange(i as int, opts@.len() as int)),
        decreases opts.len() - i,
    {
        let ghost rest = opts@.subrange(i as int, opts@.len() as int);
        assert(rest.drop_first() =~= opts@.subrange(i + 1, opts@.len() as int));
        if let StyleOption::ColorMap(m) = &opts[i] {
            return *m;
        }
        i += 1;
    }
    ColorMapType::Heat
}

/// The axis pair a series is plotted against: its first `Axes` option, else the
/// primary pair.
pub fn resolve_axis_pair(opts: &[StyleOption]) -> (a: AxisPair)
    ensures
        a == (match first_axes(opts@) {
            Some(x) => x,
            None => AxisPair::X1Y1,
        }),
{
    let mut i: usize = 0;
    assert(opts@.subrange(0, opts@.len() as int) =~= opts@);
    while i < opts.len()
        invariant
            i <= opts@.len(),
            first_axes(opts@) == first_axes(opts@.subrange(i as int, opts@.len() as int)),
        decreases opts.len() - i,
    {
        let ghost rest = opts@.subrange(i as int, opts@.len() as int);
        assert(rest.drop_first() =~= opts@.subrange(i + 1, opts@.len() as int));
        if let StyleOption::Axes(a) = &opts[i] {
            return *a;
        }
        i += 1;
    }
    AxisPair::X1Y1
}

/// How many contour levels to generate: the first `ContourLevels` option, else 8.
pub fn resolve_contour_count(opts: &[StyleOption]) -> (n: usize)
    ensures
        n == (match first_contour_levels(opts@) {
            Some(x) => x,
            None => 8,
        }),
{
    let mut i: usize = 0;
    assert(opts@.subrange(0, opts@.len() as int) =~= opts@);
    while i < opts.len()
        invariant
            i <= opts@.len(),
            first_contour_levels(opts@) == first_contour_levels(opts@.subrange(i as int, opts@.len() as int)),
        decreases opts.len() - i,
    {
        let ghost rest = opts@.subrange(i as int, opts@.len() as int);
        assert(rest.drop_first() =~= opts@.subrange(i + 1, opts@.len() as int));
        if let StyleOption::ContourLevels(n) = &opts[i] {
            return *n;
        }
        i += 1;
    }
    8
}

/// Automatic series colors: the palette is walked in order, one step per series,
/// whether or not the series names its own color.
pub struct ColorCycle {
    /// Palette index for the next series.
    pub next: usize,
}

impl ColorCycle {
    /// A cycle starting at the first palette color.
    pub fn new() -> (c: Self)
        ensures
            c.next == 0,
    {
        ColorCycle { next: 0 }
    }

    /// Returns the next palette color and steps past it.
    pub fn next_auto_color(&mut self) -> (c: TermColor)
        requires
            old(self).next < usize::MAX,
        ensures
            c == palette_color(old(self).next as int),
            final(self).next == old(self).next + 1,
    {
        let k = self.next % 7;
        assert(PALETTE@[k as int] == palette_color(self.next as int));
        let c = PALETTE[k];
        self.next = self.next + 1;
        c
    }

    /// The color of a new series with the given options: its first `Color` option,
    /// else the next palette color. Either way the cycle steps once, so palette colors
    /// stay tied to series positions.
    pub fn resolve_color(&mut self, options: &[StyleOption]) -> (c: TermColor)
        requires
            old(self).next < usize::MAX,
        ensures
            c == (match first_color(options@) {
                Some(col) => col,
                None => palette_color(old(self).next as int),
            }),
            final(self).next == old(self).next + 1,
    {
        let idx = self.next;
        let c = resolve_series_color(options, idx);
        self.next = self.next + 1;
        c
    }
}

/// The first option giving a caption decides it: when option `i` is `Caption(v)` and no
/// earlier option is a `Caption`, the series takes `v`; with no `Caption` option it takes
/// none (and falls back to its default).
pub proof fn law_first_caption_wins(opts: Seq<StyleOption>, i: int, v: String)
    ensures
        0 <= i < opts.len() && opts[i] == StyleOption::Caption(v) && (forall|j: int|
            0 <= j < i ==> !(#[trigger] opts[j] is Caption)) ==> first_caption(opts) == Some(v),
        (forall|j: int| 0 <= j < opts.len() ==> !(#[trigger] opts[j] is Caption)) ==> first_caption(opts) is None,
    decreases opts.len(),
{
    if opts.len() > 0 {
        let rest = opts.drop_first();
        law_first_caption_wins(rest, i - 1, v);
        if 0 <= i < opts.len() && opts[i] == StyleOption::Caption(v) && (forall|j: int|
            0 <= j < i ==> !(#[trigger] opts[j] is Caption)) {
            if i > 0 {
                assert(!(opts[0] is Caption));
                assert forall|j: int| 0 <= j < i - 1 implies !(#[trigger] rest[j] is Caption) by {
                    assert(rest[j] == opts[j + 1]);
                }
                assert(rest[i - 1] == opts[i]);
            }
        }
        if forall|j: int| 0 <= j < opts.len() ==> !(#[trigger] opts[j] is Caption) {
            assert(!(opts[0] is Caption));
            assert forall|j: int| 0 <= j < rest.len() implies !(#[trigger] rest[j] is Caption) by {
                assert(rest[j] == opts[j + 1]);
            }
        }
    }
}

/// The first option giving a color decides it: when option `i` is `Color(v)` and no
/// earlier option is a `Color`, the series takes `v`; with no `Color` option it takes
/// none (and falls back to its default).
pub proof fn law_first_color_wins(opts: Seq<StyleOption>, i: int, v: TermColor)
    ensures
        0 <= i < opts.len() && opts[i] == StyleOption::Color(v) && (forall|j: int|
            0 <= j < i ==> !(#[trigger] opts[j] is Color)) ==> first_color(opts) == Some(v),
        (forall|j: int| 0 <= j < opts.len() ==> !(#[trigger] opts[j] is Color)) ==> first_color(opts) is None,
    decreases opts.len(),
{
    if opts.len() > 0 {
        let rest = opts.drop_first();
        law_first_color_wins(rest, i - 1, v);
        if 0 <= i < opts.len() && opts[i] == StyleOption::Color(v) && (forall|j: int|
            0 <= j < i ==> !(#[trigger] opts[j] is Color)) {
            if i > 0 {
                assert(!(opts[0] is Color));
                assert forall|j: int| 0 <= j < i - 1 implies !(#[trigger] rest[j] is Color) by {
                    assert(rest[j] == opts[j + 1]);
                }
                assert(rest[i - 1] == opts[i]);
            }
        }
        if forall|j: int| 0 <= j < opts.len() ==> !(#[trigger] opts[j] is Color) {
            assert(!(opts[0] is Color));
            assert forall|j: int| 0 <= j < rest.len() implies !(#[trigger] rest[j] is Color) by {
                assert(rest[j] == opts[j + 1]);
            }
        }
    }
}

/// The first option giving a line style decides it: when option `i` is `LineStyle(v)` and no
/// earlier option is a `LineStyle`, the series takes `v`; with no `LineStyle` option it takes
/// none (and falls back to its default).
pub proof fn law_first_dash_wins(opts: Seq<StyleOption>, i: int, v: DashType)
    ensures
        0 <= i < opts.len() && opts[i] == StyleOption::LineStyle(v) && (forall|j: int|
            0 <= j < i ==> !(#[trigger] opts[j] is LineStyle)) ==> first_dash(opts) == Some(v),
        (forall|j: int| 0 <= j < opts.len() ==> !(#[trigger] opts[j] is LineStyle)) ==> first_dash(opts) is None,
    decreases opts.len(),
{
    if opts.len() > 0 {
        let rest = opts.drop_first();
        law_first_dash_wins(rest, i - 1, v);
        if 0 <= i < opts.len() && opts[i] == StyleOption::LineStyle(v) && (forall|j: int|
            0 <= j < i ==> !(#[trigger] opts[j] is LineStyle)) {
            if i > 0 {
                assert(!(opts[0] is LineStyle));
                assert forall|j: int| 0 <= j < i - 1 implies !(#[trigger] rest[j] is LineStyle) by {
                    assert(rest[j] == opts[j + 1]);
                }
                assert(rest[i - 1] == opts[i]);
            }
        }
        if forall|j: int| 0 <= j < opts.len() ==> !(#[trigger] opts[j] is LineStyle) {
            assert(!(opts[0] is LineStyle));
            assert forall|j: int| 0 <= j < rest.len() implies !(#[trigger] rest[j] is LineStyle) by {
                assert(rest[j] == opts[j + 1]);
            }
        }
    }
}

/// The first option giving a point symbol decides it: when option `i` is `Symbol(v)` and no
/// earlier option is a `Symbol`, the series takes `v`; with no `Symbol` option it takes
/// none (and falls back to its default).
pub proof fn law_first_symbol_wins(opts: Seq<StyleOption>, i: int, v: PointSymbol)
    ensures
        0 <= i < opts.len() && opts[i] == StyleOption::Symbol(v) && (forall|j: int|
            0 <= j < i ==> !(#[trigger] opts[j] is Symbol)) ==> first_symbol(opts) == Some(v),
        (forall|j: int| 0 <= j < opts.len() ==> !(#[trigger] opts[j] is Symbol)) ==> first_symbol(opts) is None,
    decreases opts.len(),
{
    if opts.len() > 0 {
        let rest = opts.drop_first();
        law_first_symbol_wins(rest, i - 1, v);
        if 0 <= i < opts.len() && opts[i] == StyleOption::Symbol(v) && (forall|j: int|
            0 <= j < i ==> !(#[trigger] opts[j] is Symbol)) {
            if i > 0 {
                assert(!(opts[0] is Symbol));
                assert forall|j: int| 0 <= j < i - 1 implies !(#[trigger] rest[j] is Symbol) by {
                    assert(rest[j] == opts[j + 1]);
                }
                assert(rest[i - 1] == opts[i]);
            }
        }
        if forall|j: int| 0 <= j < opts.len() ==> !(#[trigger] opts[j] is Symbol) {
            assert(!(opts[0] is Symbol));
            assert forall|j: int| 0 <= j < rest.len() implies !(#[trigger] rest[j] is Symbol) by {
                assert(rest[j] == opts[j + 1]);
            }
        }
    }
}

/// The first option giving a colormap decides it: when option `i` is `ColorMap(v)` and no
/// earlier option is a `ColorMap`, the series takes `v`; with no `ColorMap` option it takes
/// none (and falls back to its default).
pub proof fn law_first_colormap_wins(opts: Seq<StyleOption>, i: int, v: ColorMapType)
    ensures
        0 <= i < opts.len() && opts[i] == StyleOption::ColorMap(v) && (forall|j: int|
            0 <= j < i ==> !(#[trigger] opts[j] is ColorMap)) ==> first_colormap(opts) == Some(v),
        (forall|j: int| 0 <= j < opts.len() ==> !(#[trigger] opts[j] is ColorMap)) ==> first_colormap(opts) is None,
    decreases opts.len(),
{
    if opts.len() > 0 {
        let rest = opts.drop_first();
        law_first_colormap_wins(rest, i - 1, v);
        if 0 <= i < opts.len() && opts[i] == StyleOption::ColorMap(v) && (forall|j: int|
            0 <= j < i ==> !(#[trigger] opts[j] is ColorMap)) {
            if i > 0 {
                assert(!(opts[0] is ColorMap));
                assert forall|j: int| 0 <= j < i - 1 implies !(#[trigger] rest[j] is ColorMap) by {
                    assert(rest[j] == opts[j + 1]);
                }
                assert(rest[i - 1] == opts[i]);
            }
        }
        if forall|j: int| 0 <= j < opts.len() ==> !(#[trigger] opts[j] is ColorMap) {
            assert(!(opts[0] is ColorMap));
            assert forall|j: int| 0 <= j < rest.len() implies !(#[trigger] rest[j] is ColorMap) by {
                assert(rest[j] == opts[j + 1]);
            }
        }
    }
}

/// The first option giving an axis pair decides it: when option `i` is `Axes(v)` and no
/// earlier option is a `Axes`, the series takes `v`; with no `Axes` option it takes
/// none (and falls back to its default).
pub proof fn law_first_axes_wins(opts: Seq<StyleOption>, i: int, v: AxisPair)
    ensures
        0 <= i < opts.len() && opts[i] == StyleOption::Axes(v) && (forall|j: int|
            0 <= j < i ==> !(#[trigger] opts[j] is Axes)) ==> first_axes(opts) == Some(v),
        (forall|j: int| 0 <= j < opts.len() ==> !(#[trigger] opts[j] is Axes)) ==> first_axes(opts) is None,
    decreases opts.len(),
{
    if opts.len() > 0 {
        let rest = opts.drop_first();
        law_first_axes_wins(rest, i - 1, v);
        if 0 <= i < opts.len() && opts[i] == StyleOption::Axes(v) && (forall|j: int|
            0 <= j < i ==> !(#[trigger] opts[j] is Axes)) {
            if i > 0 {
                assert(!(opts[0] is Axes));
                assert forall|j: int| 0 <= j < i - 1 implies !(#[trigger] rest[j] is Axes) by {
                    assert(rest[j] == opts[j + 1]);
                }
                assert(rest[i - 1] == opts[i]);
            }
        }
        if forall|j: int| 0 <= j < opts.len() ==> !(#[trigger] opts[j] is Axes) {
            assert(!(opts[0] is Axes));
            assert forall|j: int| 0 <= j < rest.len() implies !(#[trigger] rest[j] is Axes) by {
                assert(rest[j] == opts[j + 1]);
            }
        }
    }
}

/// The first option giving a contour level count decides it: when option `i` is `ContourLevels(v)` and no
/// earlier option is a `ContourLevels`, the series takes `v`; with no `ContourLevels` option it takes
/// none (and falls back to its default).
pub proof fn law_first_contour_levels_wins(opts: Seq<StyleOption>, i: int, v: usize)
    ensures
        0 <= i < opts.len() && opts[i] == StyleOption::ContourLevels(v) && (forall|j: int|
            0 <= j < i ==> !(#[trigger] opts[j] is ContourLevels)) ==> first_contour_levels(opts) == Some(v),
        (forall|j: int| 0 <= j < opts.len() ==> !(#[trigger] opts[j] is ContourLevels)) ==> first_contour_levels(opts) is None,
    decreases opts.len(),
{
    if opts.len() > 0 {
        let rest = opts.drop_first();
        law_first_contour_levels_wins(rest, i - 1, v);
        if 0 <= i < opts.len() && opts[i] == StyleOption::ContourLevels(v) && (forall|j: int|
            0 <= j < i ==> !(#[trigger] opts[j] is ContourLevels)) {
            if i > 0 {
                assert(!(opts[0] is ContourLevels));
                assert forall|j: int| 0 <= j < i - 1 implies !(#[trigger] rest[j] is ContourLevels) by {
                    assert(rest[j] == opts[j + 1]);
                }
                assert(rest[i - 1] == opts[i]);
            }
        }
        if forall|j: int| 0 <= j < opts.len() ==> !(#[trigger] opts[j] is ContourLevels) {
            assert(!(opts[0] is ContourLevels));
            assert forall|j: int| 0 <= j < rest.len() implies !(#[trigger] rest[j] is ContourLevels) by {
                assert(rest[j] == opts[j + 1]);
            }
        }
    }
}

} // verus!
