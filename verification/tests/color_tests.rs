use ploot::color::{TermColor, PALETTE};

#[test]
fn palette_has_seven_colors() {
    assert_eq!(PALETTE.len(), 7);
}

#[test]
fn default_has_no_escape() {
    assert_eq!(TermColor::Default.ansi_fg(), "");
}

#[test]
fn colors_produce_ansi_codes() {
    assert!(TermColor::Blue.ansi_fg().starts_with("\x1b["));
    assert!(TermColor::Red.ansi_fg().starts_with("\x1b["));
}

#[test]
fn reset_is_nonempty() {
    assert!(!TermColor::ansi_reset().is_empty());
}

#[test]
fn mix_primaries_to_secondaries() {
    assert_eq!(TermColor::Red.mix(TermColor::Blue), TermColor::Magenta);
    assert_eq!(TermColor::Red.mix(TermColor::Green), TermColor::Yellow);
    assert_eq!(TermColor::Green.mix(TermColor::Blue), TermColor::Cyan);
}

#[test]
fn mix_is_commutative() {
    assert_eq!(
        TermColor::Blue.mix(TermColor::Red),
        TermColor::Red.mix(TermColor::Blue)
    );
    assert_eq!(
        TermColor::Green.mix(TermColor::Red),
        TermColor::Red.mix(TermColor::Green)
    );
}

#[test]
fn mix_default_is_identity() {
    for &c in &PALETTE {
        assert_eq!(TermColor::Default.mix(c), c);
        assert_eq!(c.mix(TermColor::Default), c);
    }
}

#[test]
fn mix_self_is_idempotent() {
    for &c in &PALETTE {
        assert_eq!(c.mix(c), c);
    }
}

#[test]
fn mix_white_absorbs_all() {
    for &c in &PALETTE {
        assert_eq!(TermColor::White.mix(c), TermColor::White);
    }
}

#[test]
fn mix_three_primaries_to_white() {
    let mixed = TermColor::Red.mix(TermColor::Green).mix(TermColor::Blue);
    assert_eq!(mixed, TermColor::White);
}

// ── Further cases ───────────────────────────────────────────────────────

#[test]
fn from_name_knows_every_color_name() {
    assert_eq!(TermColor::from_name("red"), Some(TermColor::Red));
    assert_eq!(TermColor::from_name("green"), Some(TermColor::Green));
    assert_eq!(TermColor::from_name("blue"), Some(TermColor::Blue));
    assert_eq!(TermColor::from_name("yellow"), Some(TermColor::Yellow));
    assert_eq!(TermColor::from_name("cyan"), Some(TermColor::Cyan));
    assert_eq!(TermColor::from_name("magenta"), Some(TermColor::Magenta));
    assert_eq!(TermColor::from_name("purple"), Some(TermColor::Magenta));
    assert_eq!(TermColor::from_name("white"), Some(TermColor::White));
    assert_eq!(TermColor::from_name("default"), Some(TermColor::Default));
    assert_eq!(TermColor::from_name("none"), Some(TermColor::Default));
}

#[test]
fn from_name_ignores_case() {
    assert_eq!(TermColor::from_name("RED"), Some(TermColor::Red));
    assert_eq!(TermColor::from_name("Purple"), Some(TermColor::Magenta));
    assert_eq!(TermColor::from_name("NoNe"), Some(TermColor::Default));
}

#[test]
fn from_name_rejects_unknown_names() {
    assert_eq!(TermColor::from_name("orange"), None);
    assert_eq!(TermColor::from_name(""), None);
    assert_eq!(TermColor::from_name("red "), None);
}

#[test]
fn ansi_codes_are_exact() {
    assert_eq!(TermColor::Blue.ansi_fg(), "\x1b[34m");
    assert_eq!(TermColor::Red.ansi_fg(), "\x1b[31m");
    assert_eq!(TermColor::Green.ansi_fg(), "\x1b[32m");
    assert_eq!(TermColor::Yellow.ansi_fg(), "\x1b[33m");
    assert_eq!(TermColor::Cyan.ansi_fg(), "\x1b[36m");
    assert_eq!(TermColor::Magenta.ansi_fg(), "\x1b[35m");
    assert_eq!(TermColor::White.ansi_fg(), "\x1b[37m");
    assert_eq!(TermColor::ansi_reset(), "\x1b[0m");
}

#[test]
fn mix_is_associative_on_all_colors() {
    let all = [
        TermColor::Default,
        TermColor::Blue,
        TermColor::Red,
        TermColor::Green,
        TermColor::Yellow,
        TermColor::Cyan,
        TermColor::Magenta,
        TermColor::White,
    ];
    for &a in &all {
        for &b in &all {
            for &c in &all {
                assert_eq!(a.mix(b).mix(c), a.mix(b.mix(c)));
            }
        }
    }
}

#[test]
fn palette_order() {
    assert_eq!(
        PALETTE,
        [
            TermColor::Blue,
            TermColor::Red,
            TermColor::Green,
            TermColor::Yellow,
            TermColor::Cyan,
            TermColor::Magenta,
            TermColor::White,
        ]
    );
}

#[test]
fn secondary_colors_mix_with_their_complement_to_white() {
    assert_eq!(TermColor::Yellow.mix(TermColor::Blue), TermColor::White);
    assert_eq!(TermColor::Cyan.mix(TermColor::Red), TermColor::White);
    assert_eq!(TermColor::Magenta.mix(TermColor::Green), TermColor::White);
}

#[test]
fn color_names_ignore_case() {
    assert_eq!(TermColor::from_name("RED"), Some(TermColor::Red));
    assert_eq!(TermColor::from_name("Purple"), Some(TermColor::Magenta));
    assert_eq!(TermColor::from_name("NONE"), Some(TermColor::Default));
    assert_eq!(TermColor::from_name("reddish"), None);
}
