use ploot::annotate::{cell_in_canvas, draw_arrow};
use ploot::color::TermColor;
use ploot::layout::{compute_layout, LayoutConfig, TickLabels};
use ploot::text::TextGrid;

#[test]
fn horizontal_arrows() {
    let mut g = TextGrid::new(6, 2);
    draw_arrow(&mut g, 1, 0, 4, 0, TermColor::Default, true);
    draw_arrow(&mut g, 4, 1, 1, 1, TermColor::Default, true);
    assert_eq!(g.render_plain(), " ───→ \n ←─── ");
    let mut g = TextGrid::new(4, 1);
    draw_arrow(&mut g, 3, 0, 0, 0, TermColor::Red, false);
    assert_eq!(g.render_plain(), "────");
    assert_eq!(g.render(), "\x1b[31m────\x1b[0m");
}

#[test]
fn vertical_and_diagonal_arrows() {
    let mut g = TextGrid::new(3, 3);
    draw_arrow(&mut g, 2, 2, 2, 0, TermColor::Default, true);
    draw_arrow(&mut g, 0, 0, 0, 2, TermColor::Default, true);
    assert_eq!(g.render_plain(), "│ ↑\n│ │\n↓ │");
    let mut g = TextGrid::new(3, 3);
    draw_arrow(&mut g, 0, 0, 2, 2, TermColor::Default, true);
    assert_eq!(g.render_plain(), "   \n   \n   ");
}

#[test]
fn positions_are_clamped_into_the_canvas() {
    let config = LayoutConfig {
        total_width: 30,
        total_height: 12,
        title: None,
        x_label: None,
        y_label: None,
        x2_label: None,
        y2_label: None,
        x2_ticks: None,
        y2_ticks: None,
    };
    let x = TickLabels { labels: vec!["0".to_string(), "5".to_string(), "10".to_string()] };
    let y = TickLabels { labels: vec!["0".to_string(), "1".to_string()] };
    let l = compute_layout(&config, &x, &y);
    assert_eq!(cell_in_canvas(&l, 100, 2), (27, 3));
    assert_eq!(cell_in_canvas(&l, 0, 50), (3, 9));
}
