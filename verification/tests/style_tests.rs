use ploot::color::TermColor;
use ploot::options::{AxisPair, ColorMapType, DashType, PointSymbol};
use ploot::style::{
    find_caption, resolve_axis_pair, resolve_colormap, resolve_dash, resolve_point_symbol,
    resolve_series_color, ColorCycle, StyleOption,
};

#[test]
fn defaults_without_options() {
    let none: Vec<StyleOption> = vec![StyleOption::BoxWidth, StyleOption::LineWidth(2)];
    assert_eq!(resolve_dash(&none), DashType::Solid);
    assert_eq!(resolve_point_symbol(&none), PointSymbol::Dot);
    assert_eq!(resolve_colormap(&none), ColorMapType::Heat);
    assert_eq!(resolve_axis_pair(&none), AxisPair::X1Y1);
    assert_eq!(find_caption(&none), None);
    assert_eq!(resolve_series_color(&none, 0), TermColor::Blue);
    assert_eq!(resolve_series_color(&none, 9), TermColor::Green);
    assert_eq!(resolve_series_color(&none, 13), TermColor::White);
}

#[test]
fn first_option_of_each_kind_wins() {
    let opts = vec![
        StyleOption::ContourLevels(4),
        StyleOption::LineStyle(DashType::Dot),
        StyleOption::Color(TermColor::Cyan),
        StyleOption::Symbol(PointSymbol::Diamond),
        StyleOption::ColorMap(ColorMapType::Gray),
        StyleOption::Axes(AxisPair::X2Y2),
        StyleOption::Caption("first".to_string()),
        StyleOption::LineStyle(DashType::Dash),
        StyleOption::Color(TermColor::Red),
        StyleOption::Symbol(PointSymbol::Cross),
        StyleOption::ColorMap(ColorMapType::Rainbow),
        StyleOption::Axes(AxisPair::X1Y2),
        StyleOption::Caption("second".to_string()),
    ];
    assert_eq!(resolve_dash(&opts), DashType::Dot);
    assert_eq!(resolve_series_color(&opts, 3), TermColor::Cyan);
    assert_eq!(resolve_point_symbol(&opts), PointSymbol::Diamond);
    assert_eq!(resolve_colormap(&opts), ColorMapType::Gray);
    assert_eq!(resolve_axis_pair(&opts), AxisPair::X2Y2);
    assert_eq!(find_caption(&opts).as_deref(), Some("first"));
}

#[test]
fn color_cycle_walks_the_palette() {
    let mut c = ColorCycle::new();
    assert_eq!(c.next_auto_color(), TermColor::Blue);
    assert_eq!(c.next_auto_color(), TermColor::Red);
    // an explicit color still uses up a palette slot
    assert_eq!(c.resolve_color(&[StyleOption::Color(TermColor::White)]), TermColor::White);
    assert_eq!(c.next, 3);
    assert_eq!(c.resolve_color(&[]), TermColor::Yellow);
    for _ in 0..3 {
        c.next_auto_color();
    }
    assert_eq!(c.next_auto_color(), TermColor::Blue);
}
