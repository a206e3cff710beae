use ploot::frame::render_frame;
use ploot::layout::{compute_layout, tick_label_width, LayoutConfig, TickLabels};

fn ticks(labels: &[&str]) -> TickLabels {
    TickLabels { labels: labels.iter().map(|s| s.to_string()).collect() }
}

fn config(w: usize, h: usize) -> LayoutConfig {
    LayoutConfig {
        total_width: w,
        total_height: h,
        title: None,
        x_label: None,
        y_label: None,
        x2_label: None,
        y2_label: None,
        x2_ticks: None,
        y2_ticks: None,
    }
}

#[test]
fn tick_label_width_is_longest_label_in_bytes() {
    assert_eq!(tick_label_width(&ticks(&[])), 1);
    assert_eq!(tick_label_width(&ticks(&["1", "100", "10"])), 3);
    assert_eq!(tick_label_width(&ticks(&["\u{b5}s"])), 3);
}

#[test]
fn plain_layout_positions() {
    let l = compute_layout(&config(30, 12), &ticks(&["0", "5", "10"]), &ticks(&["0", "1"]));
    assert_eq!(l.canvas_char_height, 9);
    assert_eq!(l.canvas_char_width, 25);
    assert_eq!(l.canvas_row, 1);
    assert_eq!(l.canvas_col, 3);
    assert_eq!(l.x_tick_row, 11);
    assert_eq!(l.x_label_row, None);
    assert_eq!(l.title_row, None);
    assert_eq!(l.y_tick_col_end, 2);
    assert_eq!(l.y_tick_width, 1);
    assert_eq!(l.y_label_col, None);
    assert_eq!(l.y2_tick_col_start, None);
}

#[test]
fn decorated_layout_positions() {
    let mut c = config(40, 20);
    c.title = Some("T".to_string());
    c.x_label = Some("x".to_string());
    c.y_label = Some("y".to_string());
    c.x2_label = Some("x2".to_string());
    c.y2_label = Some("y2".to_string());
    c.x2_ticks = Some(ticks(&["a", "b"]));
    c.y2_ticks = Some(ticks(&["100", "200"]));
    let l = compute_layout(&c, &ticks(&["0", "1", "2", "3"]), &ticks(&["0.5", "1.0"]));
    // rows: title 0, x2 label 1, x2 ticks 2, border 3, canvas from 4
    assert_eq!(l.title_row, Some(0));
    assert_eq!(l.x2_label_row, Some(1));
    assert_eq!(l.x2_tick_row, Some(2));
    assert_eq!(l.canvas_row, 4);
    // 20 - (1 + 1 + 1 + 2 + 1 + 1) = 13 rows, tick-aligned with 2 ticks
    assert_eq!(l.canvas_char_height, 13);
    assert_eq!(l.x_tick_row, 18);
    assert_eq!(l.x_label_row, Some(19));
    // columns: y label 2, y ticks 3 + 1, borders 2, y2 ticks 3 + 1, y2 label 2 = 14
    // 40 - 14 = 26, aligned to 3 steps: 26 - (25 % 3) = 25
    assert_eq!(l.canvas_char_width, 25);
    assert_eq!(l.y_label_col, Some(0));
    assert_eq!(l.y_tick_col_end, 6);
    assert_eq!(l.canvas_col, 7);
    assert_eq!(l.y2_tick_col_start, Some(33));
    assert_eq!(l.y2_tick_width, Some(3));
    assert_eq!(l.y2_label_col, Some(37));
}

#[test]
fn tiny_area_keeps_one_cell() {
    let l = compute_layout(&config(3, 2), &ticks(&["0", "1"]), &ticks(&["0", "1"]));
    assert_eq!(l.canvas_char_height, 1);
    assert_eq!(l.canvas_char_width, 1);
}

#[test]
fn canvas_is_tick_aligned() {
    for total in 10..60 {
        for n in 2..7 {
            let labels: Vec<String> = (0..n).map(|i| i.to_string()).collect();
            let t = TickLabels { labels };
            let l = compute_layout(&config(total, total), &t, &t);
            assert_eq!((l.canvas_char_width - 1) % (n - 1), 0);
            assert_eq!((l.canvas_char_height - 1) % (n - 1), 0);
            assert!(l.x_tick_row < total);
            assert!(l.canvas_col + l.canvas_char_width < total);
        }
    }
}

#[test]
fn frame_of_a_small_plot() {
    let c = config(12, 6);
    let x = ticks(&["0", "1"]);
    let y = ticks(&["0", "1"]);
    let l = compute_layout(&c, &x, &y);
    let g = render_frame(&l, &c, &x, &y);
    let expected = [
        "  ┌────────┐",
        " 1┤        │",
        "  │        │",
        " 0┤        │",
        "  └┬──────┬┘",
        "   0      1 ",
    ]
    .join("\n");
    assert_eq!(g.render_plain(), expected);
}

#[test]
fn frame_with_title_and_labels() {
    let mut c = config(14, 8);
    c.title = Some("Hi".to_string());
    c.x_label = Some("x".to_string());
    c.y_label = Some("y".to_string());
    let x = ticks(&["0"]);
    let y = ticks(&["5"]);
    let l = compute_layout(&c, &x, &y);
    let g = render_frame(&l, &c, &x, &y);
    let out = g.render_plain();
    let rows: Vec<&str> = out.split('\n').collect();
    assert_eq!(rows.len(), 8);
    assert_eq!(rows[0], "      Hi      ");
    assert_eq!(rows[7].trim(), "x");
    assert!(rows.iter().any(|r| r.starts_with('y')));
}

// Ticks as the nice-number generator produces them for [0, 10] and [0, 100] with at most
// five: a spacing of 2 and of 20.
fn make_ticks() -> (TickLabels, TickLabels) {
    (ticks(&["0", "2", "4", "6", "8", "10"]), ticks(&["0", "2", "4", "6", "8", "10"]))
}

fn basic_config(
    width: usize,
    height: usize,
    title: Option<&str>,
    x_label: Option<&str>,
    y_label: Option<&str>,
) -> LayoutConfig {
    LayoutConfig {
        total_width: width,
        total_height: height,
        title: title.map(String::from),
        x_label: x_label.map(String::from),
        y_label: y_label.map(String::from),
        x2_label: None,
        y2_label: None,
        x2_ticks: None,
        y2_ticks: None,
    }
}

#[test]
fn layout_dimensions_with_all_decorations() {
    let (x_ticks, y_ticks) = make_ticks();
    let config = basic_config(80, 24, Some("Test"), Some("X"), Some("Y"));
    let layout = compute_layout(&config, &x_ticks, &y_ticks);

    assert!(layout.canvas_char_width < 80);
    assert!(layout.canvas_char_height < 24);
    assert!(layout.canvas_char_width > 0);
    assert!(layout.canvas_char_height > 0);
}

#[test]
fn layout_dimensions_minimal() {
    let (x_ticks, y_ticks) = make_ticks();
    let config = basic_config(40, 12, None, None, None);
    let layout = compute_layout(&config, &x_ticks, &y_ticks);

    assert!(layout.canvas_char_height > 0);
    assert!(layout.title_row.is_none());
    assert!(layout.x_label_row.is_none());
}

#[test]
fn frame_contains_border_chars() {
    let (x_ticks, y_ticks) = make_ticks();
    let config = basic_config(40, 12, Some("Test"), None, None);
    let layout = compute_layout(&config, &x_ticks, &y_ticks);
    let grid = render_frame(&layout, &config, &x_ticks, &y_ticks);
    let s = grid.render_plain();

    assert!(s.contains('┌') || s.contains('┬'));
    assert!(s.contains('┐'));
    assert!(s.contains('├') || s.contains('└') || s.contains('┼'));
    assert!(s.contains('┤') || s.contains('┘'));
    assert!(s.contains('─'));
    assert!(s.contains('│'));
}

#[test]
fn frame_contains_title() {
    let (x_ticks, y_ticks) = make_ticks();
    let config = basic_config(40, 12, Some("My Title"), None, None);
    let layout = compute_layout(&config, &x_ticks, &y_ticks);
    let grid = render_frame(&layout, &config, &x_ticks, &y_ticks);
    let s = grid.render_plain();
    assert!(s.contains("My Title"));
}

#[test]
fn layout_with_secondary_axes() {
    let (x_ticks, y_ticks) = make_ticks();
    let y2_ticks = ticks(&["0", "20", "40", "60", "80", "100"]);
    let config = LayoutConfig {
        total_width: 80,
        total_height: 24,
        title: Some("Dual Axis".into()),
        x_label: Some("X".into()),
        y_label: Some("Y1".into()),
        x2_label: None,
        y2_label: Some("Y2".into()),
        x2_ticks: None,
        y2_ticks: Some(y2_ticks),
    };
    let layout = compute_layout(&config, &x_ticks, &y_ticks);

    assert!(layout.y2_tick_col_start.is_some());
    assert!(layout.y2_label_col.is_some());
    assert!(layout.canvas_char_width > 0);
    let config_no_y2 = basic_config(80, 24, Some("Dual Axis"), Some("X"), Some("Y1"));
    let layout_no_y2 = compute_layout(&config_no_y2, &x_ticks, &y_ticks);
    assert!(layout.canvas_char_width < layout_no_y2.canvas_char_width);
}
