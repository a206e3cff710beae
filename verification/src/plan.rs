//! The order in which a plot's series are drawn, and which axes they need.
//!
//! A Braille canvas can only add dots, so what is drawn later lies on top: the series
//! are drawn in passes, background layers first.

use vstd::prelude::*;

use crate::legend::SeriesKind;
use crate::options::AxisPair;

verus! {

/// One drawing pass, in the order the passes run.
#[derive(Debug, Clone, Copy, PartialEq, Eq, Structural)]
pub enum DrawPass {
    /// Heatmap backgrounds.
    Heatmap,
    /// Areas between curves.
    Fill,
    /// Bars and box-and-whisker glyphs.
    Boxes,
    /// Error bars and error lines.
    ErrorBars,
    /// Contour lines.
    Contour,
    /// Lines.
    Lines,
    /// Point markers.
    Points,
}

/// The position of a pass in the drawing order.
pub open spec fn pass_rank(p: DrawPass) -> int {
    match p {
        DrawPass::Heatmap => 0,
        DrawPass::Fill => 1,
        DrawPass::Boxes => 2,
        DrawPass::ErrorBars => 3,
        DrawPass::Contour => 4,
        DrawPass::Lines => 5,
        DrawPass::Points => 6,
    }
}

/// The pass of rank `r`.
pub open spec fn pass_of_rank(r: int) -> DrawPass {
    if r == 0 {
        DrawPass::Heatmap
    } else if r == 1 {
        DrawPass::Fill
    } else if r == 2 {
        DrawPass::Boxes
    } else if r == 3 {
        DrawPass::ErrorBars
    } else if r == 4 {
        DrawPass::Contour
    } else if r == 5 {
        DrawPass::Lines
    } else {
        DrawPass::Points
    }
}

/// Whether a series of kind `k` is drawn in pass `p`: a heatmap with contours is drawn
/// in the heatmap and the contour passes, lines with points in the line and the point
/// passes, every other kind in exactly one pass.
pub open spec fn in_pass(k: SeriesKind, p: DrawPass) -> bool {
    match p {
        DrawPass::Heatmap => k == SeriesKind::Heatmap || k == SeriesKind::HeatmapContour,
        DrawPass::Fill => k == SeriesKind::FillBetween,
        DrawPass::Boxes => k == SeriesKind::Boxes || k == SeriesKind::BoxAndWhisker,
        DrawPass::ErrorBars => k == SeriesKind::YErrorBars || k == SeriesKind::XErrorBars || k
            == SeriesKind::YErrorLines || k == SeriesKind::XErrorLines,
        DrawPass::Contour => k == SeriesKind::Contour || k == SeriesKind::HeatmapContour,
        DrawPass::Lines => k == SeriesKind::Lines || k == SeriesKind::LinesPoints,
        DrawPass::Points => k == SeriesKind::Points || k == SeriesKind::LinesPoints,
    }
}

/// The steps of pass `p` over the first `m` series: each series of the pass, in order.
pub open spec fn pass_steps(kinds: Seq<SeriesKind>, p: DrawPass, m: int) -> Seq<(DrawPass, usize)>
    decreases m,
{
    if m <= 0 {
        seq![]
    } else {
        pass_steps(kinds, p, m - 1) + (if in_pass(kinds[m - 1], p) {
            seq![(p, (m - 1) as usize)]
        } else {
            seq![]
        })
    }
}

/// The steps of the first `r` passes over all series.
pub open spec fn plan_upto(kinds: Seq<SeriesKind>, r: int) -> Seq<(DrawPass, usize)>
    decreases r,
{
    if r <= 0 {
        seq![]
    } else {
        plan_upto(kinds, r - 1) + pass_steps(kinds, pass_of_rank(r - 1), kinds.len() as int)
    }
}

/// The full drawing plan: every pass in order, each over the series in order.
pub open spec fn draw_plan(kinds: Seq<SeriesKind>) -> Seq<(DrawPass, usize)> {
    plan_upto(kinds, 7)
}

fn in_pass_exec(k: SeriesKind, p: DrawPass) -> (b: bool)
    ensures
        b == in_pass(k, p),
{
    match p {
        DrawPass::Heatmap => matches!(k, SeriesKind::Heatmap | SeriesKind::HeatmapContour),
        DrawPass::Fill => matches!(k, SeriesKind::FillBetween),
        DrawPass::Boxes => matches!(k, SeriesKind::Boxes | SeriesKind::BoxAndWhisker),
        DrawPass::ErrorBars => matches!(
            k,
            SeriesKind::YErrorBars | SeriesKind::XErrorBars | SeriesKind::YErrorLines
                | SeriesKind::XErrorLines
        ),
        DrawPass::Contour => matches!(k, SeriesKind::Contour | SeriesKind::HeatmapContour),
        DrawPass::Lines => matches!(k, SeriesKind::Lines | SeriesKind::LinesPoints),
        DrawPass::Points => matches!(k, SeriesKind::Points | SeriesKind::LinesPoints),
    }
}

fn pass_of_rank_exec(r: usize) -> (p: DrawPass)
    requires
        r < 7,
    ensures
        p == pass_of_rank(r as int),
        pass_rank(p) == r,
{
    if r == 0 {
        DrawPass::Heatmap
    } else if r == 1 {
        DrawPass::Fill
    } else if r == 2 {
        DrawPass::Boxes
    } else if r == 3 {
        DrawPass::ErrorBars
    } else if r == 4 {
        DrawPass::Contour
    } else if r == 5 {
        DrawPass::Lines
    } else {
        DrawPass::Points
    }
}

/// The drawing plan of a plot whose series have the given kinds: one step (pass,
/// series index) for each pass a series belongs to, passes in order, series in order
/// within a pass.
pub fn draw_order(kinds: &[SeriesKind]) -> (plan: Vec<(DrawPass, usize)>)
    ensures
        plan@ == draw_plan(kinds@),
{
    let mut plan: Vec<(DrawPass, usize)> = Vec::new();
    let mut r: usize = 0;
    while r < 7
        invariant
            r <= 7,
            plan@ == plan_upto(kinds@, r as int),
        decreases 7 - r,
    {
        let p = pass_of_rank_exec(r);
        let ghost base = plan@;
        let mut i: usize = 0;
        while i < kinds.len()
            invariant
                i <= kinds@.len(),
                r < 7,
                p == pass_of_rank(r as int),
                base == plan_upto(kinds@, r as int),
                plan@ == base + pass_steps(kinds@, p, i as int),
            decreases kinds.len() - i,
        {
            if in_pass_exec(kinds[i], p) {
                plan.push((p, i));
            }
            i += 1;
            assert(plan@ =~= base + pass_steps(kinds@, p, i as int));
        }
        r += 1;
    }
    plan
}

proof fn lemma_pass_steps_shape(kinds: Seq<SeriesKind>, p: DrawPass, m: int)
    requires
        0 <= m <= kinds.len(),
        kinds.len() <= usize::MAX,
    ensures
        forall|k: int| 0 <= k < pass_steps(kinds, p, m).len() ==> (#[trigger] pass_steps(kinds, p, m)[k]).0 == p
            && pass_steps(kinds, p, m)[k].1 < m && in_pass(kinds[pass_steps(kinds, p, m)[k].1 as int], p),
        forall|i: int| 0 <= i < m && in_pass(kinds[i], p) ==> exists|k: int|
            0 <= k < pass_steps(kinds, p, m).len() && #[trigger] pass_steps(kinds, p, m)[k] == (p, i as usize),
    decreases m,
{
    if m > 0 {
        lemma_pass_steps_shape(kinds, p, m - 1);
        let prev = pass_steps(kinds, p, m - 1);
        let cur = pass_steps(kinds, p, m);
        assert forall|k: int| 0 <= k < cur.len() implies (#[trigger] cur[k]).0 == p && cur[k].1 < m && in_pass(
            kinds[cur[k].1 as int],
            p,
        ) by {
            if k < prev.len() {
                assert(cur[k] == prev[k]);
            }
        }
        assert forall|i: int| 0 <= i < m && in_pass(kinds[i], p) implies exists|k: int|
            0 <= k < cur.len() && #[trigger] cur[k] == (p, i as usize) by {
            if i < m - 1 {
                let k = choose|k: int| 0 <= k < prev.len() && #[trigger] prev[k] == (p, i as usize);
                assert(cur[k] == prev[k]);
            } else {
                assert(cur[prev.len() as int] == (p, i as usize));
            }
        }
    }
}

proof fn lemma_plan_upto_shape(kinds: Seq<SeriesKind>, r: int)
    requires
        0 <= r <= 7,
        kinds.len() <= usize::MAX,
    ensures
        forall|k: int| 0 <= k < plan_upto(kinds, r).len() ==> pass_rank((#[trigger] plan_upto(kinds, r)[k]).0) < r
            && plan_upto(kinds, r)[k].1 < kinds.len() && in_pass(
            kinds[plan_upto(kinds, r)[k].1 as int],
            plan_upto(kinds, r)[k].0,
        ),
        forall|k1: int, k2: int|
            0 <= k1 < k2 < plan_upto(kinds, r).len() ==> pass_rank((#[trigger] plan_upto(kinds, r)[k1]).0)
                <= pass_rank((#[trigger] plan_upto(kinds, r)[k2]).0),
        forall|i: int, q: int|
            #![trigger in_pass(kinds[i], pass_of_rank(q))]
            0 <= i < kinds.len() && 0 <= q < r && in_pass(kinds[i], pass_of_rank(q)) ==> exists|k: int|
                0 <= k < plan_upto(kinds, r).len() && #[trigger] plan_upto(kinds, r)[k] == (
                    pass_of_rank(q),
                    i as usize,
                ),
    decreases r,
{
    if r > 0 {
        lemma_plan_upto_shape(kinds, r - 1);
        let p = pass_of_rank(r - 1);
        lemma_pass_steps_shape(kinds, p, kinds.len() as int);
        let prev = plan_upto(kinds, r - 1);
        let steps = pass_steps(kinds, p, kinds.len() as int);
        let cur = plan_upto(kinds, r);
        assert(cur == prev + steps);
        assert(pass_rank(p) == r - 1);
        assert forall|k: int| 0 <= k < cur.len() implies pass_rank((#[trigger] cur[k]).0) < r && cur[k].1
            < kinds.len() && in_pass(kinds[cur[k].1 as int], cur[k].0) by {
            if k >= prev.len() {
                assert(cur[k] == steps[k - prev.len()]);
            }
        }
        assert forall|k1: int, k2: int| 0 <= k1 < k2 < cur.len() implies pass_rank((#[trigger] cur[k1]).0)
            <= pass_rank((#[trigger] cur[k2]).0) by {
            if k2 >= prev.len() {
                assert(cur[k2] == steps[k2 - prev.len()]);
                if k1 >= prev.len() {
                    assert(cur[k1] == steps[k1 - prev.len()]);
                }
            }
        }
        assert forall|i: int, q: int|
            #![trigger in_pass(kinds[i], pass_of_rank(q))]
            0 <= i < kinds.len() && 0 <= q < r && in_pass(kinds[i], pass_of_rank(q)) implies exists|k: int|
            0 <= k < cur.len() && #[trigger] cur[k] == (pass_of_rank(q), i as usize) by {
            if q < r - 1 {
                let k = choose|k: int| 0 <= k < prev.len() && #[trigger] prev[k] == (pass_of_rank(q), i as usize);
                assert(cur[k] == prev[k]);
            } else {
                let k = choose|k: int| 0 <= k < steps.len() && #[trigger] steps[k] == (p, i as usize);
                assert(cur[prev.len() + k] == steps[k]);
            }
        }
    }
}

/// Whether some step of the plan draws series `i`.
pub open spec fn drawn(plan: Seq<(DrawPass, usize)>, i: int) -> bool {
    exists|k: int| 0 <= k < plan.len() && #[trigger] plan[k].1 == i
}

/// The drawing plan layers the series: its steps come in pass order (so heatmaps lie
/// below fills, fills below boxes, and so on up to point markers); every step names a
/// series of its pass; every series is drawn in each pass it belongs to; and every
/// series is drawn at least once.
pub proof fn law_draw_plan_layered(kinds: Seq<SeriesKind>)
    requires
        kinds.len() <= usize::MAX,
    ensures
        forall|k1: int, k2: int|
            0 <= k1 < k2 < draw_plan(kinds).len() ==> pass_rank((#[trigger] draw_plan(kinds)[k1]).0) <= pass_rank(
                (#[trigger] draw_plan(kinds)[k2]).0,
            ),
        forall|k: int| 0 <= k < draw_plan(kinds).len() ==> (#[trigger] draw_plan(kinds)[k]).1 < kinds.len()
            && in_pass(kinds[draw_plan(kinds)[k].1 as int], draw_plan(kinds)[k].0),
        forall|i: int, p: DrawPass| 0 <= i < kinds.len() && in_pass(kinds[i], p) ==> exists|k: int|
            0 <= k < draw_plan(kinds).len() && #[trigger] draw_plan(kinds)[k] == (p, i as usize),
        forall|i: int| 0 <= i < kinds.len() ==> #[trigger] drawn(draw_plan(kinds), i),
{
    lemma_plan_upto_shape(kinds, 7);
    assert forall|i: int, p: DrawPass| 0 <= i < kinds.len() && in_pass(kinds[i], p) implies exists|k: int|
        0 <= k < draw_plan(kinds).len() && #[trigger] draw_plan(kinds)[k] == (p, i as usize) by {
        let q = pass_rank(p);
        assert(pass_of_rank(q) == p);
        assert(in_pass(kinds[i], pass_of_rank(q)));
        let k = choose|k: int| 0 <= k < plan_upto(kinds, 7).len() && #[trigger] plan_upto(kinds, 7)[k] == (pass_of_rank(q), i as usize);
        assert(draw_plan(kinds)[k] == (p, i as usize));
    }
    assert forall|i: int| 0 <= i < kinds.len() implies #[trigger] drawn(draw_plan(kinds), i) by {
        lemma_kind_has_pass(kinds[i]);
        let p = choose|p: DrawPass| #[trigger] in_pass(kinds[i], p);
        let k = choose|k: int| 0 <= k < draw_plan(kinds).len() && #[trigger] draw_plan(kinds)[k] == (p, i as usize);
        assert(draw_plan(kinds)[k].1 == i);
    }
}

proof fn lemma_kind_has_pass(k: SeriesKind)
    ensures
        exists|p: DrawPass| #[trigger] in_pass(k, p),
{
    match k {
        SeriesKind::Heatmap | SeriesKind::HeatmapContour => assert(in_pass(k, DrawPass::Heatmap)),
        SeriesKind::FillBetween => assert(in_pass(k, DrawPass::Fill)),
        SeriesKind::Boxes | SeriesKind::BoxAndWhisker => assert(in_pass(k, DrawPass::Boxes)),
        SeriesKind::YErrorBars | SeriesKind::XErrorBars | SeriesKind::YErrorLines | SeriesKind::XErrorLines => assert(in_pass(k, DrawPass::ErrorBars)),
        SeriesKind::Contour => assert(in_pass(k, DrawPass::Contour)),
        SeriesKind::Lines | SeriesKind::LinesPoints => assert(in_pass(k, DrawPass::Lines)),
        SeriesKind::Points => assert(in_pass(k, DrawPass::Points)),
    }
}

/// Whether a series on this axis pair is mapped with the secondary y axis.
pub fn uses_secondary_y(pair: AxisPair) -> (b: bool)
    ensures
        b == (pair == AxisPair::X1Y2 || pair == AxisPair::X2Y2),
{
    matches!(pair, AxisPair::X1Y2 | AxisPair::X2Y2)
}

/// Which secondary axes a plot shows, as `(x2, y2)`: the y2 axis when a series is
/// plotted against it or the axis was configured (`y2_configured`), and likewise for x2.
pub fn secondary_axes(pairs: &[AxisPair], x2_configured: bool, y2_configured: bool) -> (r: (bool, bool))
    ensures
        r.0 == (x2_configured || exists|i: int|
            0 <= i < pairs@.len() && (#[trigger] pairs@[i] == AxisPair::X2Y1 || pairs@[i] == AxisPair::X2Y2)),
        r.1 == (y2_configured || exists|i: int|
            0 <= i < pairs@.len() && (#[trigger] pairs@[i] == AxisPair::X1Y2 || pairs@[i] == AxisPair::X2Y2)),
{
    let mut any_x2 = false;
    let mut any_y2 = false;
    let mut i: usize = 0;
    while i < pairs.len()
        invariant
            i <= pairs@.len(),
            any_x2 == exists|j: int| 0 <= j < i && (#[trigger] pairs@[j] == AxisPair::X2Y1 || pairs@[j] == AxisPair::X2Y2),
            any_y2 == exists|j: int| 0 <= j < i && (#[trigger] pairs@[j] == AxisPair::X1Y2 || pairs@[j] == AxisPair::X2Y2),
        decreases pairs.len() - i,
    {
        let p = pairs[i];
        if matches!(p, AxisPair::X2Y1 | AxisPair::X2Y2) {
            any_x2 = true;
        }
        if matches!(p, AxisPair::X1Y2 | AxisPair::X2Y2) {
            any_y2 = true;
        }
        i += 1;
    }
    (x2_configured || any_x2, y2_configured || any_y2)
}

} // verus!
