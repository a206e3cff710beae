use ploot::svg::{escape_xml, strip_ansi, to_svg};

#[test]
fn escape_xml_replaces_special_characters() {
    assert_eq!(escape_xml("a<b>&\"'c"), "a&lt;b&gt;&amp;&quot;&apos;c");
    assert_eq!(escape_xml("plain \u{2801}"), "plain \u{2801}");
    assert_eq!(escape_xml(""), "");
}

#[test]
fn strip_ansi_drops_escape_sequences() {
    assert_eq!(strip_ansi("\x1b[31mred\x1b[0m text"), "red text");
    assert_eq!(strip_ansi("no codes"), "no codes");
    // an escape sequence runs to the next 'm', wherever it is
    assert_eq!(strip_ansi("\x1b[unterminated"), "inated");
    assert_eq!(strip_ansi("a\x1b[1"), "a");
}

#[test]
fn svg_of_a_plain_line() {
    let svg = to_svg("ab", false);
    assert_eq!(
        svg,
        "<svg xmlns=\"http://www.w3.org/2000/svg\" width=\"48\" height=\"48\" viewBox=\"0 0 48 48\">\
<rect width=\"100%\" height=\"100%\" fill=\"#ffffff\" rx=\"8\"/>\
<g font-family=\"'DejaVu Sans Mono', 'Fira Code', 'Consolas', 'Liberation Mono', monospace\" font-size=\"14px\" xml:space=\"preserve\">\
<text y=\"28.8\"><tspan x=\"16 24\" fill=\"#333333\">ab</tspan></text></g></svg>"
    );
}

#[test]
fn svg_colors_and_rows() {
    let svg = to_svg("\x1b[31mx\x1b[0my\n<", true);
    assert!(svg.starts_with(
        "<svg xmlns=\"http://www.w3.org/2000/svg\" width=\"48\" height=\"64\" viewBox=\"0 0 48 64\">"
    ));
    assert!(svg.contains("fill=\"#1e1e1e\""));
    assert!(svg.contains(
        "<text y=\"28.8\"><tspan x=\"16\" fill=\"#f44747\">x</tspan><tspan x=\"24\" fill=\"#d4d4d4\">y</tspan></text>"
    ));
    assert!(svg.contains("<text y=\"44.8\"><tspan x=\"16\" fill=\"#d4d4d4\">&lt;</tspan></text>"));
    assert!(svg.ends_with("</g></svg>"));
}

#[test]
fn svg_of_empty_input() {
    let svg = to_svg("", false);
    assert!(svg.starts_with(
        "<svg xmlns=\"http://www.w3.org/2000/svg\" width=\"32\" height=\"32\" viewBox=\"0 0 32 32\">"
    ));
    assert!(svg.ends_with("xml:space=\"preserve\"></g></svg>"));
}

#[test]
fn stripping_colored_canvas_render_gives_plain_render() {
    let mut c = ploot::braille::BrailleCanvas::new(3, 2);
    c.set_pixel(0, 0, ploot::color::TermColor::Red);
    c.set_pixel(3, 5, ploot::color::TermColor::Blue);
    c.set_pixel(5, 7, ploot::color::TermColor::Default);
    assert_eq!(strip_ansi(&c.render()), c.render_plain());
}

#[test]
fn stripping_colored_grid_render_gives_plain_render() {
    let mut g = ploot::text::TextGrid::new(6, 2);
    g.put_str(0, 0, "ab", ploot::color::TermColor::Green);
    g.put_str(3, 1, "xyz", ploot::color::TermColor::Magenta);
    assert_eq!(strip_ansi(&g.render()), g.render_plain());
    assert_eq!(g.render_plain(), "ab    \n   xyz");
}

#[test]
fn svg_shape_one_rect_one_text_per_line_default_color_first() {
    let svg = to_svg("ab\x1b[31mc\x1b[0m\nd\n\x1b[32me", false);
    assert!(svg.starts_with("<svg xmlns=\"http://www.w3.org/2000/svg\""));
    assert!(svg.ends_with("</g></svg>"));
    assert_eq!(svg.matches("<rect ").count(), 1);
    assert!(svg.contains("<rect width=\"100%\" height=\"100%\" fill=\"#ffffff\" rx=\"8\"/>"));
    assert_eq!(svg.matches("<text ").count(), 3);
    let first_line = &svg[svg.find("<text ").unwrap()..];
    let first_tspan = &first_line[first_line.find("<tspan").unwrap()..];
    assert!(first_tspan.contains("fill=\"#333333\">ab</tspan>"));
    let dark = to_svg("q", true);
    assert!(dark.contains("fill=\"#1e1e1e\""));
    assert!(dark.contains("fill=\"#d4d4d4\">q</tspan>"));
}
