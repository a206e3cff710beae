use ploot::marching::{cell_case, cell_segments, CellEdge};

fn corners(case: u8) -> (bool, bool, bool, bool) {
    (case & 1 != 0, case & 2 != 0, case & 4 != 0, case & 8 != 0)
}

#[test]
fn all_16_cases() {
    for case in 0..16u8 {
        let (bl, br, tr, tl) = corners(case);
        assert_eq!(cell_case(bl, br, tr, tl), case);
        // corners at 1.0 or 0.0 and the level at 0.5: the mean is 0.5 in both saddles
        let segs = cell_segments(cell_case(bl, br, tr, tl), true);

        match case {
            0 | 15 => assert!(segs.is_empty(), "case {case}: expected no segments"),
            5 | 10 => assert_eq!(segs.len(), 2, "case {case}: expected 2 segments (saddle)"),
            _ => assert_eq!(segs.len(), 1, "case {case}: expected 1 segment"),
        }
    }
}

fn crossed(e: CellEdge, bl: bool, br: bool, tr: bool, tl: bool) -> bool {
    match e {
        CellEdge::Bottom => bl != br,
        CellEdge::Right => br != tr,
        CellEdge::Top => tl != tr,
        CellEdge::Left => bl != tl,
    }
}

#[test]
fn segments_pair_up_the_crossed_edges() {
    for case in 0..16u8 {
        for center in [false, true] {
            let (bl, br, tr, tl) = corners(case);
            let segs = cell_segments(case, center);
            for e in [CellEdge::Bottom, CellEdge::Right, CellEdge::Top, CellEdge::Left] {
                let uses = segs.iter().filter(|(a, b)| *a == e || *b == e).count();
                assert_eq!(uses, if crossed(e, bl, br, tr, tl) { 1 } else { 0 }, "case {case} edge {e:?}");
            }
            for (a, b) in &segs {
                assert_ne!(a, b);
            }
        }
    }
}

#[test]
fn saddles_follow_the_center() {
    assert_eq!(
        cell_segments(5, true),
        vec![(CellEdge::Bottom, CellEdge::Right), (CellEdge::Left, CellEdge::Top)]
    );
    assert_eq!(
        cell_segments(5, false),
        vec![(CellEdge::Bottom, CellEdge::Left), (CellEdge::Right, CellEdge::Top)]
    );
    assert_eq!(
        cell_segments(10, true),
        vec![(CellEdge::Bottom, CellEdge::Left), (CellEdge::Right, CellEdge::Top)]
    );
    assert_eq!(
        cell_segments(10, false),
        vec![(CellEdge::Bottom, CellEdge::Right), (CellEdge::Left, CellEdge::Top)]
    );
}

#[test]
fn single_corner_cases() {
    assert_eq!(cell_segments(1, false), vec![(CellEdge::Bottom, CellEdge::Left)]);
    assert_eq!(cell_segments(4, false), vec![(CellEdge::Right, CellEdge::Top)]);
    assert_eq!(cell_segments(6, true), vec![(CellEdge::Bottom, CellEdge::Top)]);
    assert_eq!(cell_segments(12, true), vec![(CellEdge::Left, CellEdge::Right)]);
}
