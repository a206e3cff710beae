//! The case table of marching squares: which edges of a grid cell a contour crosses,
//! and how the crossings are joined into segments.

use vstd::prelude::*;

verus! {

/// An edge of a grid cell.
#[derive(Debug, Clone, Copy, PartialEq, Eq, Structural)]
pub enum CellEdge {
    /// Between the bottom-left and bottom-right corners.
    Bottom,
    /// Between the bottom-right and top-right corners.
    Right,
    /// Between the top-left and top-right corners.
    Top,
    /// Between the bottom-left and top-left corners.
    Left,
}

/// The case index of a cell from which of its corners lie at or above the level:
/// bottom-left is bit 0, bottom-right bit 1, top-right bit 2, top-left bit 3.
pub open spec fn corner_case(bl: bool, br: bool, tr: bool, tl: bool) -> int {
    (if bl { 1int } else { 0 }) + (if br { 2int } else { 0 }) + (if tr { 4int } else { 0 }) + (if tl {
        8int
    } else {
        0
    })
}

/// Whether the level crosses edge `e` of a cell: its two corners lie on different sides.
pub open spec fn edge_crossed(e: CellEdge, bl: bool, br: bool, tr: bool, tl: bool) -> bool {
    match e {
        CellEdge::Bottom => bl != br,
        CellEdge::Right => br != tr,
        CellEdge::Top => tl != tr,
        CellEdge::Left => bl != tl,
    }
}

/// The segments drawn in a cell of case `c`, each from one crossed edge to another, in
/// drawing order. In the two saddle cases (5 and 10) `center_above` (whether the mean of
/// the four corners is at or above the level) decides which pairs of edges are joined.
pub open spec fn case_segments(c: int, center_above: bool) -> Seq<(CellEdge, CellEdge)> {
    if c == 1 || c == 14 {
        seq![(CellEdge::Bottom, CellEdge::Left)]
    } else if c == 2 || c == 13 {
        seq![(CellEdge::Bottom, CellEdge::Right)]
    } else if c == 3 || c == 12 {
        seq![(CellEdge::Left, CellEdge::Right)]
    } else if c == 4 || c == 11 {
        seq![(CellEdge::Right, CellEdge::Top)]
    } else if c == 6 || c == 9 {
        seq![(CellEdge::Bottom, CellEdge::Top)]
    } else if c == 7 || c == 8 {
        seq![(CellEdge::Left, CellEdge::Top)]
    } else if (c == 5 && center_above) || (c == 10 && !center_above) {
        seq![(CellEdge::Bottom, CellEdge::Right), (CellEdge::Left, CellEdge::Top)]
    } else if c == 5 || c == 10 {
        seq![(CellEdge::Bottom, CellEdge::Left), (CellEdge::Right, CellEdge::Top)]
    } else {
        seq![]
    }
}

/// How many of the segments have `e` as an end.
pub open spec fn edge_uses(segs: Seq<(CellEdge, CellEdge)>, e: CellEdge) -> nat
    decreases segs.len(),
{
    if segs.len() == 0 {
        0
    } else {
        edge_uses(segs.drop_last(), e) + (if segs.last().0 == e || segs.last().1 == e {
            1nat
        } else {
            0
        })
    }
}

/// The case index of a cell, from which of its corners lie at or above the level.
pub fn cell_case(bl: bool, br: bool, tr: bool, tl: bool) -> (c: u8)
    ensures
        c == corner_case(bl, br, tr, tl),
{
    let mut c: u8 = 0;
    if bl {
        c = c + 1;
    }
    if br {
        c = c + 2;
    }
    if tr {
        c = c + 4;
    }
    if tl {
        c = c + 8;
    }
    c
}

/// The segments to draw in a cell of case `case`, as pairs of crossed edges, with the
/// saddle cases resolved by `center_above`.
pub fn cell_segments(case: u8, center_above: bool) -> (segs: Vec<(CellEdge, CellEdge)>)
    requires
        case < 16,
    ensures
        segs@ == case_segments(case as int, center_above),
{
    if case == 1 || case == 14 {
        vec![(CellEdge::Bottom, CellEdge::Left)]
    } else if case == 2 || case == 13 {
        vec![(CellEdge::Bottom, CellEdge::Right)]
    } else if case == 3 || case == 12 {
        vec![(CellEdge::Left, CellEdge::Right)]
    } else if case == 4 || case == 11 {
        vec![(CellEdge::Right, CellEdge::Top)]
    } else if case == 6 || case == 9 {
        vec![(CellEdge::Bottom, CellEdge::Top)]
    } else if case == 7 || case == 8 {
        vec![(CellEdge::Left, CellEdge::Top)]
    } else if (case == 5 && center_above) || (case == 10 && !center_above) {
        vec![(CellEdge::Bottom, CellEdge::Right), (CellEdge::Left, CellEdge::Top)]
    } else if case == 5 || case == 10 {
        vec![(CellEdge::Bottom, CellEdge::Left), (CellEdge::Right, CellEdge::Top)]
    } else {
        Vec::new()
    }
}

/// A cell with all corners on one side draws nothing, a saddle cell draws two segments,
/// and every other cell draws one.
pub proof fn law_case_segment_count(c: int, center_above: bool)
    requires
        0 <= c < 16,
    ensures
        case_segments(c, center_above).len() == (if c == 0 || c == 15 {
            0int
        } else if c == 5 || c == 10 {
            2
        } else {
            1
        }),
{
}

/// The segments of a cell join its crossed edges in pairs: each segment runs between
/// two different crossed edges, every crossed edge is the end of exactly one segment,
/// and an edge the level does not cross is the end of none.
pub proof fn law_segments_pair_crossed_edges(
    bl: bool,
    br: bool,
    tr: bool,
    tl: bool,
    center_above: bool,
    e: CellEdge,
    k: int,
)
    ensures
        ({
            let segs = case_segments(corner_case(bl, br, tr, tl), center_above);
            &&& 0 <= k < segs.len() ==> segs[k].0 != segs[k].1
                && edge_crossed(segs[k].0, bl, br, tr, tl) && edge_crossed(segs[k].1, bl, br, tr, tl)
            &&& edge_uses(segs, e) == (if edge_crossed(e, bl, br, tr, tl) { 1nat } else { 0 })
        }),
{
    let segs = case_segments(corner_case(bl, br, tr, tl), center_above);
    reveal_with_fuel(edge_uses, 3);
    if segs.len() == 2 {
        assert(segs.drop_last().drop_last() =~= Seq::<(CellEdge, CellEdge)>::empty());
    } else if segs.len() == 1 {
        assert(segs.drop_last() =~= Seq::<(CellEdge, CellEdge)>::empty());
    }
}

} // verus!
