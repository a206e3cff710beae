use std::collections::HashSet;

use ploot::braille::BrailleCanvas;
use ploot::canvas::{dash, solid};
use ploot::color::TermColor;
use ploot::marks::{
    draw_box_whisker, draw_grid_column, draw_grid_row, draw_marker, draw_x_error_bar,
    draw_y_error_bar, fill_box, fill_cell_density, fill_cell_dithered, fill_column, paint_rect,
    set_if_valid, BAYER_8X8, DENSITY_FILL_ORDER,
};
use ploot::options::PointSymbol;

/// The set sub-pixels of a canvas, as (x, y) pairs.
fn lit(c: &BrailleCanvas) -> HashSet<(usize, usize)> {
    let masks: [[u8; 2]; 4] = [[0x01, 0x08], [0x02, 0x10], [0x04, 0x20], [0x40, 0x80]];
    let mut out = HashSet::new();
    for y in 0..c.pixel_height() {
        for x in 0..c.pixel_width() {
            let idx = (y / 4) * c.char_width() + x / 2;
            if c.cell_byte(idx) & masks[y % 4][x % 2] != 0 {
                out.insert((x, y));
            }
        }
    }
    out
}

fn set_of(points: &[(usize, usize)]) -> HashSet<(usize, usize)> {
    points.iter().copied().collect()
}

#[test]
fn density_fill_order_covers_all() {
    let mut cols = [false; 2];
    let mut rows = [false; 4];
    let mut positions = HashSet::new();
    for &(c, r) in &DENSITY_FILL_ORDER {
        assert!(c < 2);
        assert!(r < 4);
        cols[c] = true;
        rows[r] = true;
        positions.insert((c, r));
    }
    assert_eq!(positions.len(), 8);
    assert!(cols.iter().all(|&v| v));
    assert!(rows.iter().all(|&v| v));
}

#[test]
fn bayer_matrix_contains_all_values() {
    let mut values = HashSet::new();
    for row in &BAYER_8X8 {
        for &v in row {
            values.insert(v);
        }
    }
    assert_eq!(values.len(), 64);
    for v in 0..64u8 {
        assert!(values.contains(&v), "missing value {v}");
    }
}

// ── Further cases ───────────────────────────────────────────────────────

#[test]
fn set_if_valid_respects_the_given_bounds() {
    let mut c = BrailleCanvas::new(4, 2);
    set_if_valid(&mut c, 3, 2, 4, 8, TermColor::Default);
    set_if_valid(&mut c, 5, 2, 4, 8, TermColor::Default);
    set_if_valid(&mut c, -1, 2, 8, 8, TermColor::Default);
    set_if_valid(&mut c, 2, -1, 8, 8, TermColor::Default);
    assert_eq!(lit(&c), set_of(&[(3, 2)]));
}

#[test]
fn marker_shapes() {
    let cases: [(PointSymbol, &[(usize, usize)]); 6] = [
        (PointSymbol::Dot, &[(4, 4)]),
        (PointSymbol::Cross, &[(4, 4), (3, 4), (5, 4), (4, 3), (4, 5)]),
        (
            PointSymbol::Circle,
            &[(3, 3), (4, 3), (5, 3), (3, 4), (5, 4), (3, 5), (4, 5), (5, 5)],
        ),
        (PointSymbol::Diamond, &[(4, 3), (3, 4), (5, 4), (4, 5)]),
        (PointSymbol::Triangle, &[(4, 3), (3, 5), (4, 5), (5, 5)]),
        (
            PointSymbol::Square,
            &[(3, 3), (4, 3), (5, 3), (3, 4), (5, 4), (3, 5), (4, 5), (5, 5)],
        ),
    ];
    for (symbol, expected) in cases {
        let mut c = BrailleCanvas::new(5, 3);
        draw_marker(&mut c, 4, 4, TermColor::Default, symbol);
        assert_eq!(lit(&c), set_of(expected), "{symbol:?}");
    }
}

#[test]
fn marker_at_corner_is_clipped() {
    let mut c = BrailleCanvas::new(2, 1);
    draw_marker(&mut c, 0, 0, TermColor::Red, PointSymbol::Cross);
    assert_eq!(lit(&c), set_of(&[(0, 0), (1, 0), (0, 1)]));
    assert_eq!(c.cell_color(0), TermColor::Red);
    assert_eq!(c.cell_color(1), TermColor::Default);
}

#[test]
fn rect_and_box_fill_exactly() {
    let mut c = BrailleCanvas::new(3, 2);
    fill_box(&mut c, 1, 2, 5, 6, TermColor::Default);
    assert_eq!(lit(&c), set_of(&[(1, 5), (2, 5), (1, 6), (2, 6)]));
    let mut c = BrailleCanvas::new(2, 1);
    paint_rect(&mut c, -5, 100, 3, 100, TermColor::Default);
    assert_eq!(lit(&c), set_of(&[(0, 3), (1, 3), (2, 3), (3, 3)]));
    let mut c = BrailleCanvas::new(2, 1);
    paint_rect(&mut c, 3, 2, 0, 3, TermColor::Default);
    assert!(lit(&c).is_empty());
}

#[test]
fn fill_column_only_on_canvas() {
    let mut c = BrailleCanvas::new(2, 1);
    fill_column(&mut c, 1, 1, 2, TermColor::Default);
    assert_eq!(lit(&c), set_of(&[(1, 1), (1, 2)]));
    let mut c = BrailleCanvas::new(2, 1);
    fill_column(&mut c, 4, 0, 3, TermColor::Default);
    fill_column(&mut c, -1, 0, 3, TermColor::Default);
    assert!(lit(&c).is_empty());
}

#[test]
fn y_error_bar_with_caps() {
    let mut c = BrailleCanvas::new(5, 3);
    draw_y_error_bar(&mut c, 4, 8, 3, 3, TermColor::Default);
    let mut expected: Vec<(usize, usize)> = (3..=8).map(|y| (4, y)).collect();
    expected.extend([(3, 3), (5, 3), (3, 8), (5, 8)]);
    assert_eq!(lit(&c), set_of(&expected));
}

#[test]
fn y_error_bar_off_canvas_column_draws_nothing() {
    let mut c = BrailleCanvas::new(2, 2);
    draw_y_error_bar(&mut c, 4, 0, 7, 5, TermColor::Default);
    assert!(lit(&c).is_empty());
}

#[test]
fn x_error_bar_with_caps() {
    let mut c = BrailleCanvas::new(5, 3);
    draw_x_error_bar(&mut c, 5, 7, 2, 3, TermColor::Default);
    let mut expected: Vec<(usize, usize)> = (2..=7).map(|x| (x, 5)).collect();
    expected.extend([(2, 4), (2, 6), (7, 4), (7, 6)]);
    assert_eq!(lit(&c), set_of(&expected));
}

#[test]
fn box_whisker_glyph() {
    let mut c = BrailleCanvas::new(5, 4);
    // center column 4, min 14, q1 11, median 8, q3 5, max 2, half width 2 (caps of 1)
    draw_box_whisker(&mut c, 4, 14, 11, 8, 5, 2, 2, TermColor::Default);
    let mut expected: HashSet<(usize, usize)> = HashSet::new();
    for y in 2..=14 {
        expected.insert((4, y));
    }
    for y in 5..=11 {
        expected.insert((2, y));
        expected.insert((6, y));
    }
    for x in 2..=6 {
        expected.insert((x, 5));
        expected.insert((x, 11));
        expected.insert((x, 8));
    }
    for x in 3..=5 {
        expected.insert((x, 2));
        expected.insert((x, 14));
    }
    assert_eq!(lit(&c), expected);
}

#[test]
fn box_whisker_outside_is_skipped() {
    let mut c = BrailleCanvas::new(2, 2);
    draw_box_whisker(&mut c, 4, 6, 5, 4, 3, 2, 1, TermColor::Default);
    assert!(lit(&c).is_empty());
}

#[test]
fn fill_cell_density_fills_correct_count() {
    let mut c = BrailleCanvas::new(1, 1);
    fill_cell_density(&mut c, 0, 0, 4, TermColor::Green);
    assert_eq!(c.cell_byte(0).count_ones(), 4);
    assert_eq!(lit(&c), set_of(&[(0, 0), (1, 3), (1, 1), (0, 2)]));
    assert_eq!(c.cell_color(0), TermColor::Green);
}

#[test]
fn fill_cell_density_caps_at_eight() {
    let mut c = BrailleCanvas::new(2, 2);
    fill_cell_density(&mut c, 1, 1, 20, TermColor::Default);
    assert_eq!(c.cell_byte(3), 0xFF);
    assert_eq!(c.cell_byte(0), 0);
    let mut c = BrailleCanvas::new(1, 1);
    fill_cell_density(&mut c, 0, 0, 0, TermColor::Blue);
    assert_eq!(c.cell_byte(0), 0);
    assert_eq!(c.cell_color(0), TermColor::Default);
}

// A density d lights the dots whose threshold (rank + 0.5) / 64 lies below it: density
// 0.0 is level 0, density 1.0 is level 64, density 0.4 is level 26.
#[test]
fn zero_density_fills_nothing() {
    let mut canvas = BrailleCanvas::new(1, 1);
    fill_cell_dithered(&mut canvas, 0, 0, 0, TermColor::White);
    assert_eq!(canvas.cell_byte(0), 0);
}

#[test]
fn full_density_fills_all() {
    let mut canvas = BrailleCanvas::new(1, 1);
    fill_cell_dithered(&mut canvas, 0, 0, 64, TermColor::White);
    assert_eq!(canvas.cell_byte(0).count_ones(), 8);
}

#[test]
fn different_cells_different_patterns() {
    let level = 26;
    let mut c1 = BrailleCanvas::new(2, 1);
    fill_cell_dithered(&mut c1, 0, 0, level, TermColor::White);
    let b1 = c1.cell_byte(0);

    let mut c2 = BrailleCanvas::new(2, 1);
    fill_cell_dithered(&mut c2, 1, 0, level, TermColor::White);
    let b2 = c2.cell_byte(1);

    assert_ne!(b1, b2, "same density at different positions should produce different patterns");
}

#[test]
fn dither_level_one_lights_rank_zero() {
    let mut c = BrailleCanvas::new(1, 1);
    fill_cell_dithered(&mut c, 0, 0, 1, TermColor::White);
    assert_eq!(lit(&c), set_of(&[(0, 0)]));
}

#[test]
fn dither_follows_bayer_ranks() {
    let mut c = BrailleCanvas::new(4, 2);
    fill_cell_dithered(&mut c, 3, 1, 20, TermColor::White);
    let mut expected = HashSet::new();
    for y in 4..8 {
        for x in 6..8 {
            if BAYER_8X8[y % 8][x % 8] < 20 {
                expected.insert((x, y));
            }
        }
    }
    assert_eq!(lit(&c), expected);
}

#[test]
fn grid_lines_follow_dash_pattern() {
    let mut c = BrailleCanvas::new(3, 3);
    draw_grid_column(&mut c, 2, TermColor::Default, &dash());
    let expected: Vec<(usize, usize)> = [0, 1, 2, 3, 4, 5, 10, 11].iter().map(|&y| (2, y)).collect();
    assert_eq!(lit(&c), set_of(&expected));
    let mut c = BrailleCanvas::new(3, 1);
    draw_grid_row(&mut c, 3, TermColor::Default, &solid());
    let expected: Vec<(usize, usize)> = (0..6).map(|x| (x, 3)).collect();
    assert_eq!(lit(&c), set_of(&expected));
    let mut c = BrailleCanvas::new(3, 1);
    draw_grid_row(&mut c, 4, TermColor::Default, &solid());
    draw_grid_column(&mut c, -1, TermColor::Default, &solid());
    assert!(lit(&c).is_empty());
}

#[test]
fn dot_marker_at_extreme_coordinates_is_clipped() {
    let mut c = BrailleCanvas::new(2, 2);
    draw_marker(&mut c, i32::MAX, 0, TermColor::Red, PointSymbol::Dot);
    draw_marker(&mut c, 0, i32::MIN, TermColor::Red, PointSymbol::Dot);
    assert!(lit(&c).is_empty());
    draw_marker(&mut c, 0, 0, TermColor::Red, PointSymbol::Dot);
    assert_eq!(lit(&c), set_of(&[(0, 0)]));
}
