use ploot::line::line_points;

#[test]
fn line_points_shallow_slope() {
    assert_eq!(line_points(0, 0, 4, 2), vec![(0, 0), (1, 1), (2, 1), (3, 2), (4, 2)]);
}

#[test]
fn line_points_steep_backwards() {
    assert_eq!(line_points(3, 5, 1, 0), vec![(3, 5), (3, 4), (2, 3), (2, 2), (1, 1), (1, 0)]);
}

#[test]
fn line_points_single_point() {
    assert_eq!(line_points(2, 2, 2, 2), vec![(2, 2)]);
}

#[test]
fn line_points_count_is_longer_axis_plus_one() {
    let pts = line_points(-7, 3, 10, -2);
    assert_eq!(pts.len(), 18);
    assert_eq!(pts[0], (-7, 3));
    assert_eq!(pts[17], (10, -2));
    for w in pts.windows(2) {
        assert_eq!(w[1].0 - w[0].0, 1);
        assert!(w[0].1 - w[1].1 == 0 || w[0].1 - w[1].1 == 1);
    }
}
