use ploot::braille::BrailleCanvas;
use ploot::color::TermColor;
use ploot::text::TextGrid;

#[test]
fn new_grid_is_spaces() {
    let g = TextGrid::new(10, 5);
    let s = g.render_plain();
    assert!(s.chars().all(|c| c == ' ' || c == '\n'));
}

#[test]
fn put_str_works() {
    let mut g = TextGrid::new(20, 3);
    g.put_str(0, 0, "Hello", TermColor::Default);
    let s = g.render_plain();
    assert!(s.starts_with("Hello"));
}

#[test]
fn centered_text() {
    let mut g = TextGrid::new(20, 1);
    g.put_str_centered(0, 20, 0, "Hi", TermColor::Default);
    let s = g.render_plain();
    let trimmed = s.trim();
    assert_eq!(trimmed, "Hi");
    let leading = s.len() - s.trim_start().len();
    assert!(leading >= 8);
}

#[test]
fn right_aligned() {
    let mut g = TextGrid::new(10, 1);
    g.put_str_right_aligned(10, 0, "Hi", TermColor::Default);
    let s = g.render_plain();
    assert!(s.ends_with("Hi"));
}

// ── Further cases ───────────────────────────────────────────────────────

#[test]
fn grid_size_and_blank_render() {
    let g = TextGrid::new(3, 2);
    assert_eq!(g.width(), 3);
    assert_eq!(g.height(), 2);
    assert_eq!(g.render_plain(), "   \n   ");
    assert_eq!(g.render(), "   \n   ");
}

#[test]
fn put_char_off_grid_is_ignored() {
    let mut g = TextGrid::new(3, 1);
    g.put_char(3, 0, 'x', TermColor::Red);
    g.put_char(0, 1, 'x', TermColor::Red);
    assert_eq!(g.render_plain(), "   ");
}

#[test]
fn put_str_clips_at_right_edge() {
    let mut g = TextGrid::new(4, 1);
    g.put_str(2, 0, "abc", TermColor::Default);
    assert_eq!(g.render_plain(), "  ab");
}

#[test]
fn centered_text_exact_offsets() {
    let mut g = TextGrid::new(9, 2);
    g.put_str_centered(1, 6, 0, "abc", TermColor::Default);
    g.put_str_centered(1, 2, 1, "abcd", TermColor::Default);
    // (6 - 3) / 2 = 1 column of offset; a string longer than the span starts at its left
    assert_eq!(g.render_plain(), "  abc    \n abcd    ");
}

#[test]
fn right_aligned_too_long_is_not_written() {
    let mut g = TextGrid::new(5, 1);
    g.put_str_right_aligned(2, 0, "abc", TermColor::Default);
    assert_eq!(g.render_plain(), "     ");
    g.put_str_right_aligned(3, 0, "abc", TermColor::Default);
    assert_eq!(g.render_plain(), "abc  ");
}

#[test]
fn render_colors_runs() {
    let mut g = TextGrid::new(4, 1);
    g.put_str(0, 0, "ab", TermColor::Red);
    g.put_char(3, 0, 'z', TermColor::Blue);
    assert_eq!(g.render(), "\x1b[31mab\x1b[0m \x1b[34mz\x1b[0m");
}

#[test]
fn blit_copies_cells_and_colors() {
    let mut c = BrailleCanvas::new(2, 1);
    c.set_pixel(0, 0, TermColor::Green);
    let mut g = TextGrid::new(4, 2);
    g.blit_braille(&c, 1, 1);
    assert_eq!(g.render_plain(), "    \n \u{2801}\u{2800} ");
    assert_eq!(g.render(), "    \n \x1b[32m\u{2801}\x1b[0m\u{2800} ");
}

#[test]
fn blit_clips_to_grid() {
    let mut c = BrailleCanvas::new(3, 3);
    c.set_pixel(5, 11, TermColor::Default);
    let mut g = TextGrid::new(2, 2);
    g.blit_braille(&c, 1, 1);
    assert_eq!(g.render_plain(), "  \n \u{2800}");
}

#[test]
fn put_str_read_back_and_rest_unchanged() {
    let mut g = TextGrid::new(5, 2);
    g.put_str(0, 1, "qrstu", TermColor::Blue);
    g.put_str(1, 0, "ab", TermColor::Red);
    assert_eq!(g.render_plain(), " ab  \nqrstu");
    g.put_str(3, 1, "XYZ", TermColor::Green);
    assert_eq!(g.render_plain(), " ab  \nqrsXY");
}

#[test]
fn grid_line_ending_in_color_closes_with_reset() {
    let mut g = TextGrid::new(3, 2);
    g.put_str(1, 0, "ab", TermColor::Yellow);
    g.put_char(0, 1, 'z', TermColor::Blue);
    let r = g.render();
    let lines: Vec<&str> = r.split('\n').collect();
    assert!(lines[0].ends_with("\x1b[0m"));
    assert_eq!(lines[1], "\x1b[34mz\x1b[0m  ");
    let mut plain = TextGrid::new(3, 1);
    plain.put_str(0, 0, "xy", TermColor::Default);
    assert_eq!(plain.render(), plain.render_plain());
}
