use ploot::color::TermColor;
use ploot::legend::{
    collect_entries, draw_legend, draw_swatch, LegendConfig, LegendEntry, LegendSeries, SeriesKind,
};
use ploot::options::{DashType, LegendOption, Placement, PointSymbol};
use ploot::style::StyleOption;
use ploot::text::TextGrid;

fn caption(s: &str) -> StyleOption {
    StyleOption::Caption(s.to_string())
}

fn rows(g: &TextGrid) -> Vec<String> {
    g.render_plain().split('\n').map(|s| s.to_string()).collect()
}

#[test]
fn default_config() {
    let c = LegendConfig::default();
    assert!(c.enabled);
    assert_eq!(c.placement, Placement::TopRight);
    assert!(!c.horizontal);
    assert!(!c.reverse);
    assert!(c.title.is_none());
}

#[test]
fn options_apply_in_order() {
    let mut c = LegendConfig::default();
    c.set_options(&[
        LegendOption::Reverse,
        LegendOption::Placement(Placement::BottomLeft),
        LegendOption::Title("t".to_string()),
        LegendOption::Placement(Placement::TopLeft),
    ]);
    assert!(c.reverse);
    assert!(!c.horizontal);
    assert_eq!(c.placement, Placement::TopLeft);
    assert_eq!(c.title.as_deref(), Some("t"));
    c.set_options(&[LegendOption::Horizontal]);
    assert!(c.horizontal);
    assert!(c.reverse);
    c.disable();
    assert!(!c.enabled);
}

#[test]
fn entries_only_for_captioned_series() {
    let series = vec![
        LegendSeries { kind: SeriesKind::Lines, options: vec![StyleOption::Color(TermColor::Cyan)] },
        LegendSeries { kind: SeriesKind::Points, options: vec![caption("p")] },
        LegendSeries {
            kind: SeriesKind::LinesPoints,
            options: vec![
                StyleOption::LineStyle(DashType::Dot),
                caption("lp"),
                caption("ignored"),
                StyleOption::Color(TermColor::White),
                StyleOption::Color(TermColor::Red),
            ],
        },
        LegendSeries { kind: SeriesKind::Heatmap, options: vec![caption("h")] },
    ];
    let es = collect_entries(&series);
    assert_eq!(es.len(), 3);
    assert_eq!(es[0].caption, "p");
    assert_eq!(es[0].color, TermColor::Red); // palette color of series 1
    assert!(!es[0].is_line && es[0].is_point);
    assert_eq!(es[0].dash, DashType::Solid);
    assert_eq!(es[0].symbol, PointSymbol::Dot);
    assert_eq!(es[1].caption, "lp");
    assert_eq!(es[1].color, TermColor::White);
    assert!(es[1].is_line && es[1].is_point);
    assert_eq!(es[1].dash, DashType::Dot);
    assert_eq!(es[2].caption, "h");
    assert_eq!(es[2].color, TermColor::Yellow); // palette color of series 3
    assert!(es[2].is_line && !es[2].is_point);
}

#[test]
fn vertical_legend_top_right() {
    let series = vec![LegendSeries { kind: SeriesKind::Lines, options: vec![caption("up")] }];
    let mut g = TextGrid::new(20, 5);
    draw_legend(&mut g, &series, &LegendConfig::default(), 2, 1, 16, 3);
    let r = rows(&g);
    assert_eq!(r[0], " ".repeat(20));
    assert_eq!(r[1], "      ┌─────────┐   ");
    assert_eq!(r[2], "      │ ───  up │   ");
    assert_eq!(r[3], "      └─────────┘   ");
    assert_eq!(r[4], " ".repeat(20));
    let colored = g.render();
    assert!(colored.contains("\x1b[34m───\x1b[0m"));
}

#[test]
fn horizontal_legend_top_left() {
    let series = vec![
        LegendSeries {
            kind: SeriesKind::Points,
            options: vec![caption("a"), StyleOption::Color(TermColor::Red), StyleOption::Symbol(PointSymbol::Cross)],
        },
        LegendSeries {
            kind: SeriesKind::LinesPoints,
            options: vec![caption("bb"), StyleOption::Color(TermColor::Green), StyleOption::LineStyle(DashType::Dash)],
        },
    ];
    let mut legend = LegendConfig::default();
    legend.horizontal = true;
    legend.placement = Placement::TopLeft;
    let mut g = TextGrid::new(20, 4);
    draw_legend(&mut g, &series, &legend, 0, 0, 20, 4);
    let r = rows(&g);
    assert_eq!(r[0], "┌────────────────┐  ");
    assert_eq!(r[1], "│ +   a ╶─╴  bb  │  ");
    assert_eq!(r[2], "└────────────────┘  ");
    assert_eq!(r[3], " ".repeat(20));
}

#[test]
fn reversed_legend_with_title_bottom_right() {
    let series = vec![
        LegendSeries { kind: SeriesKind::Lines, options: vec![caption("one")] },
        LegendSeries { kind: SeriesKind::Boxes, options: vec![caption("two")] },
    ];
    let mut legend = LegendConfig::default();
    legend.reverse = true;
    legend.placement = Placement::BottomRight;
    legend.title = Some("Key".to_string());
    let mut g = TextGrid::new(16, 6);
    draw_legend(&mut g, &series, &legend, 0, 0, 16, 6);
    // box: 3 + 9 = 12 wide, 2 + 2 + 1 = 5 tall, at (16 - 13, 6 - 5) = (3, 1)
    let r = rows(&g);
    assert_eq!(r[0], " ".repeat(16));
    assert_eq!(r[1], "   ┌──────────┐ ");
    assert_eq!(r[2], "   │   Key    │ ");
    assert_eq!(r[3], "   │ ───  two │ ");
    assert_eq!(r[4], "   │ ───  one │ ");
    assert_eq!(r[5], "   └──────────┘ ");
}

#[test]
fn disabled_or_uncaptioned_legend_draws_nothing() {
    let series = vec![LegendSeries { kind: SeriesKind::Lines, options: vec![caption("x")] }];
    let mut legend = LegendConfig::default();
    legend.disable();
    let mut g = TextGrid::new(10, 4);
    draw_legend(&mut g, &series, &legend, 0, 0, 10, 4);
    assert!(g.render_plain().chars().all(|c| c == ' ' || c == '\n'));
    let quiet = vec![LegendSeries { kind: SeriesKind::Lines, options: vec![] }];
    draw_legend(&mut g, &quiet, &LegendConfig::default(), 0, 0, 10, 4);
    assert!(g.render_plain().chars().all(|c| c == ' ' || c == '\n'));
}

#[test]
fn swatches() {
    let mut g = TextGrid::new(4, 3);
    let line = LegendEntry {
        caption: String::new(),
        color: TermColor::Blue,
        is_line: true,
        is_point: true,
        dash: DashType::DotDash,
        symbol: PointSymbol::Square,
    };
    let point = LegendEntry {
        caption: String::new(),
        color: TermColor::Red,
        is_line: false,
        is_point: true,
        dash: DashType::Solid,
        symbol: PointSymbol::Triangle,
    };
    let neither = LegendEntry {
        caption: String::new(),
        color: TermColor::Red,
        is_line: false,
        is_point: false,
        dash: DashType::Solid,
        symbol: PointSymbol::Dot,
    };
    g.put_str(0, 1, "xxxx", TermColor::Default);
    draw_swatch(&mut g, 0, 0, &line);
    draw_swatch(&mut g, 0, 1, &point);
    draw_swatch(&mut g, 0, 2, &neither);
    assert_eq!(g.render_plain(), "·─· \n △ x\n    ");
}

#[test]
fn disabled_legend_at_extreme_coordinates_leaves_grid_unchanged() {
    let series = vec![LegendSeries { kind: SeriesKind::Lines, options: vec![caption("x")] }];
    let mut legend = LegendConfig::default();
    legend.disable();
    let mut g = TextGrid::new(3, 2);
    g.put_str(0, 0, "abc", TermColor::Red);
    let before = g.render();
    draw_legend(&mut g, &series, &legend, usize::MAX, usize::MAX, usize::MAX, usize::MAX);
    assert_eq!(g.render(), before);
}
