use ploot::legend::SeriesKind;
use ploot::multiplot::{compose_multiplot, multiplot_cell_size, multiplot_slots};
use ploot::options::AxisPair;
use ploot::plan::{draw_order, secondary_axes, uses_secondary_y, DrawPass};

#[test]
fn draw_order_layers_series() {
    let kinds = [
        SeriesKind::Points,
        SeriesKind::Lines,
        SeriesKind::HeatmapContour,
        SeriesKind::FillBetween,
        SeriesKind::LinesPoints,
        SeriesKind::YErrorBars,
        SeriesKind::Boxes,
        SeriesKind::Contour,
        SeriesKind::BoxAndWhisker,
    ];
    let plan = draw_order(&kinds);
    assert_eq!(
        plan,
        vec![
            (DrawPass::Heatmap, 2),
            (DrawPass::Fill, 3),
            (DrawPass::Boxes, 6),
            (DrawPass::Boxes, 8),
            (DrawPass::ErrorBars, 5),
            (DrawPass::Contour, 2),
            (DrawPass::Contour, 7),
            (DrawPass::Lines, 1),
            (DrawPass::Lines, 4),
            (DrawPass::Points, 0),
            (DrawPass::Points, 4),
        ]
    );
}

#[test]
fn every_series_is_drawn() {
    let all = [
        SeriesKind::Lines,
        SeriesKind::Points,
        SeriesKind::LinesPoints,
        SeriesKind::Boxes,
        SeriesKind::FillBetween,
        SeriesKind::YErrorBars,
        SeriesKind::XErrorBars,
        SeriesKind::YErrorLines,
        SeriesKind::XErrorLines,
        SeriesKind::BoxAndWhisker,
        SeriesKind::Heatmap,
        SeriesKind::Contour,
        SeriesKind::HeatmapContour,
    ];
    let plan = draw_order(&all);
    for i in 0..all.len() {
        assert!(plan.iter().any(|&(_, j)| j == i), "series {i} not drawn");
    }
    assert!(draw_order(&[]).is_empty());
}

#[test]
fn secondary_axis_decisions() {
    assert!(uses_secondary_y(AxisPair::X1Y2));
    assert!(uses_secondary_y(AxisPair::X2Y2));
    assert!(!uses_secondary_y(AxisPair::X1Y1));
    assert!(!uses_secondary_y(AxisPair::X2Y1));
    assert_eq!(secondary_axes(&[AxisPair::X1Y1, AxisPair::X1Y2], false, false), (false, true));
    assert_eq!(secondary_axes(&[AxisPair::X2Y1], false, false), (true, false));
    assert_eq!(secondary_axes(&[AxisPair::X1Y1], true, false), (true, false));
    assert_eq!(secondary_axes(&[], false, true), (false, true));
    assert_eq!(secondary_axes(&[AxisPair::X2Y2], false, false), (true, true));
}

#[test]
fn multiplot_cells() {
    assert_eq!(multiplot_cell_size(80, 24, true, 2, 3), (26, 11));
    assert_eq!(multiplot_cell_size(80, 24, false, 0, 0), (80, 24));
    assert_eq!(multiplot_cell_size(10, 0, true, 1, 1), (10, 0));
}

#[test]
fn multiplot_slots_row_major() {
    let slots = multiplot_slots(5, 2, 3);
    assert_eq!(slots, vec![vec![0, 1, 2], vec![3, 4]]);
    assert_eq!(multiplot_slots(1, 2, 2), vec![vec![0], vec![]]);
}

#[test]
fn multiplot_composition() {
    let rows = vec![
        vec!["ab\ncd".to_string(), "x".to_string()],
        vec!["1\n2\n3".to_string()],
    ];
    let s = compose_multiplot(Some("T"), 5, 2, &rows);
    assert_eq!(s, "  T  \nabx\ncd  \n1\n2\n3");
    let s = compose_multiplot(None, 5, 2, &vec![vec![], vec!["q".to_string()]]);
    assert_eq!(s, "q");
}
