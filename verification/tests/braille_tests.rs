use ploot::braille::BrailleCanvas;
use ploot::canvas::dash;
use ploot::color::TermColor;

#[test]
fn dimensions() {
    let c = BrailleCanvas::new(10, 5);
    assert_eq!(c.pixel_width(), 20);
    assert_eq!(c.pixel_height(), 20);
    assert_eq!(c.char_width(), 10);
    assert_eq!(c.char_height(), 5);
}

#[test]
fn empty_render_is_blank_braille() {
    let c = BrailleCanvas::new(3, 2);
    let s = c.render_plain();
    for ch in s.chars() {
        if ch != '\n' {
            assert_eq!(ch, '\u{2800}');
        }
    }
}

#[test]
fn single_pixel() {
    let mut c = BrailleCanvas::new(2, 2);
    c.set_pixel(0, 0, TermColor::Default);
    let s = c.render_plain();
    assert!(s.starts_with('\u{2801}'));
}

#[test]
fn pixel_compositing_bitwise_or() {
    let mut c = BrailleCanvas::new(1, 1);
    c.set_pixel(0, 0, TermColor::Default);
    c.set_pixel(1, 0, TermColor::Default);
    let s = c.render_plain();
    let ch = s.chars().next().unwrap();
    assert_eq!(ch, char::from_u32(0x2800 + 0x01 + 0x08).unwrap());
}

#[test]
fn color_additive_mixing() {
    let mut c = BrailleCanvas::new(1, 1);
    c.set_pixel(0, 0, TermColor::Blue);
    c.set_pixel(1, 0, TermColor::Red);
    let s = c.render();
    assert!(s.contains(TermColor::Magenta.ansi_fg()));
}

#[test]
fn out_of_bounds_ignored() {
    let mut c = BrailleCanvas::new(2, 2);
    c.set_pixel(100, 100, TermColor::Default);
    let s = c.render_plain();
    for ch in s.chars() {
        if ch != '\n' {
            assert_eq!(ch, '\u{2800}');
        }
    }
}

#[test]
fn horizontal_line() {
    let mut c = BrailleCanvas::new(5, 1);
    c.draw_line_solid(0, 0, 9, 0, TermColor::Default);
    let s = c.render_plain();
    for ch in s.chars() {
        assert_ne!(ch, '\u{2800}');
    }
}

#[test]
fn vertical_line() {
    let mut c = BrailleCanvas::new(1, 3);
    c.draw_line_solid(0, 0, 0, 11, TermColor::Default);
    let s = c.render_plain();
    for ch in s.chars() {
        if ch != '\n' {
            assert_ne!(ch, '\u{2800}');
        }
    }
}

#[test]
fn diagonal_line() {
    let mut c = BrailleCanvas::new(5, 5);
    c.draw_line_solid(0, 0, 9, 19, TermColor::Default);
    let s = c.render_plain();
    let non_blank: usize = s
        .chars()
        .filter(|&ch| ch != '\n' && ch != '\u{2800}')
        .count();
    assert!(non_blank > 0);
}

#[test]
fn clear_resets() {
    let mut c = BrailleCanvas::new(3, 3);
    c.set_pixel(0, 0, TermColor::Blue);
    c.clear();
    let s = c.render_plain();
    for ch in s.chars() {
        if ch != '\n' {
            assert_eq!(ch, '\u{2800}');
        }
    }
}

#[test]
fn dash_pattern_line() {
    let mut c = BrailleCanvas::new(10, 1);
    c.draw_line(0, 0, 19, 0, TermColor::Default, &dash());
    let s = c.render_plain();
    let has_dot = s.chars().any(|ch| ch != '\n' && ch != '\u{2800}');
    let has_blank = s.chars().any(|ch| ch == '\u{2800}');
    assert!(has_dot);
    assert!(has_blank);
}

// ── Further cases ───────────────────────────────────────────────────────

#[test]
fn set_pixel_sets_the_braille_bit_of_each_position() {
    let expected: [[u8; 2]; 4] = [[0x01, 0x08], [0x02, 0x10], [0x04, 0x20], [0x40, 0x80]];
    for y in 0..4 {
        for x in 0..2 {
            let mut c = BrailleCanvas::new(1, 1);
            c.set_pixel(x, y, TermColor::Default);
            assert_eq!(c.cell_byte(0), expected[y][x]);
        }
    }
}

#[test]
fn set_pixel_lands_in_the_right_cell() {
    let mut c = BrailleCanvas::new(3, 2);
    c.set_pixel(5, 6, TermColor::Green);
    // column 5 is cell 2 (right dot), row 6 is cell row 1 (third dot row)
    assert_eq!(c.cell_byte(1 * 3 + 2), 0x20);
    assert_eq!(c.cell_color(1 * 3 + 2), TermColor::Green);
    for idx in 0..5 {
        assert_eq!(c.cell_byte(idx), 0);
        assert_eq!(c.cell_color(idx), TermColor::Default);
    }
}

#[test]
fn painting_never_clears_a_dot() {
    let mut c = BrailleCanvas::new(1, 1);
    c.set_pixel(0, 0, TermColor::Red);
    c.set_pixel(0, 0, TermColor::Green);
    assert_eq!(c.cell_byte(0), 0x01);
    assert_eq!(c.cell_color(0), TermColor::Yellow);
}

#[test]
fn line_endpoints_are_drawn() {
    let mut c = BrailleCanvas::new(4, 2);
    c.draw_line_solid(1, 6, 6, 1, TermColor::Default);
    // (1, 6): cell (0, 1), right column, third row → 0x20
    assert_eq!(c.cell_byte(4) & 0x20, 0x20);
    // (6, 1): cell (3, 0), left column, second row → 0x02
    assert_eq!(c.cell_byte(3) & 0x02, 0x02);
}

#[test]
fn horizontal_dashed_line_exact_cells() {
    let mut c = BrailleCanvas::new(10, 1);
    c.draw_line(0, 0, 19, 0, TermColor::Default, &dash());
    // steps 0..6 on, 6..10 off, 10..16 on, 16..20 off; top row dots are 0x01 / 0x08
    let expected: [u8; 10] = [0x09, 0x09, 0x09, 0, 0, 0x09, 0x09, 0x09, 0, 0];
    for (i, e) in expected.iter().enumerate() {
        assert_eq!(c.cell_byte(i), *e);
    }
}

#[test]
fn line_off_canvas_draws_only_visible_part() {
    let mut c = BrailleCanvas::new(2, 1);
    c.draw_line_solid(-3, 0, 1, 0, TermColor::Default);
    assert_eq!(c.cell_byte(0), 0x09);
    assert_eq!(c.cell_byte(1), 0);
}

#[test]
fn render_emits_color_runs_and_resets() {
    let mut c = BrailleCanvas::new(3, 2);
    c.set_pixel(0, 0, TermColor::Red);
    c.set_pixel(2, 0, TermColor::Red);
    c.set_pixel(5, 7, TermColor::Blue);
    let s = c.render();
    assert_eq!(
        s,
        "\x1b[31m\u{2801}\u{2801}\x1b[0m\u{2800}\n\u{2800}\u{2800}\x1b[34m\u{2880}\x1b[0m"
    );
}

#[test]
fn render_plain_has_rows_separated_by_newlines() {
    let c = BrailleCanvas::new(2, 3);
    assert_eq!(c.render_plain(), "\u{2800}\u{2800}\n\u{2800}\u{2800}\n\u{2800}\u{2800}");
}

fn dot_count(c: &BrailleCanvas) -> u32 {
    (0..c.char_width() * c.char_height()).map(|i| c.cell_byte(i).count_ones()).sum()
}

fn dot_at(c: &BrailleCanvas, x: usize, y: usize) -> bool {
    let masks: [[u8; 2]; 4] = [[0x01, 0x08], [0x02, 0x10], [0x04, 0x20], [0x40, 0x80]];
    c.cell_byte((y / 4) * c.char_width() + x / 2) & masks[y % 4][x % 2] != 0
}

#[test]
fn solid_line_lights_one_dot_per_step_inside_its_box() {
    let mut c = BrailleCanvas::new(6, 4);
    c.draw_line_solid(2, 13, 9, 1, TermColor::Green);
    assert_eq!(dot_count(&c), 13);
    assert!(dot_at(&c, 2, 13) && dot_at(&c, 9, 1));
    for y in 0..c.pixel_height() {
        for x in 0..c.pixel_width() {
            if dot_at(&c, x, y) {
                assert!((2..=9).contains(&x) && (1..=13).contains(&y));
            }
        }
    }
}

#[test]
fn render_escapes_are_color_codes() {
    let mut c = BrailleCanvas::new(3, 2);
    c.set_pixel(0, 0, TermColor::Red);
    c.set_pixel(5, 7, TermColor::Cyan);
    let s = c.render();
    for (i, ch) in s.char_indices() {
        if ch == '\x1b' {
            let rest = &s[i..];
            assert!(rest.starts_with("\x1b[0m") || (rest.len() >= 5 && rest.starts_with("\x1b[3") && rest[4..].starts_with('m')));
        }
    }
    let mut d = BrailleCanvas::new(3, 2);
    d.set_pixel(1, 1, TermColor::Default);
    assert_eq!(d.render(), d.render_plain());
    assert!(!d.render().contains('\x1b'));
}
