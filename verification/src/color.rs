use vstd::prelude::*;

use crate::chars::str_chars;

verus! {

/// Terminal colors for Braille canvas rendering.
#[derive(Debug, Clone, Copy, PartialEq, Eq, Structural)]
pub enum TermColor {
    /// No explicit color (uses terminal default).
    Default,
    /// Blue (ANSI 34).
    Blue,
    /// Red (ANSI 31).
    Red,
    /// Green (ANSI 32).
    Green,
    /// Yellow (ANSI 33).
    Yellow,
    /// Cyan (ANSI 36).
    Cyan,
    /// Magenta (ANSI 35).
    Magenta,
    /// White (ANSI 37).
    White,
}

/// Default palette for auto color cycling across data series.
pub const PALETTE: [TermColor; 7] = [
    TermColor::Blue,
    TermColor::Red,
    TermColor::Green,
    TermColor::Yellow,
    TermColor::Cyan,
    TermColor::Magenta,
    TermColor::White,
];

/// Whether a color has a red component in the 3-bit RGB model.
pub open spec fn has_red(c: TermColor) -> bool {
    c == TermColor::Red || c == TermColor::Yellow || c == TermColor::Magenta || c == TermColor::White
}

/// Whether a color has a green component in the 3-bit RGB model.
pub open spec fn has_green(c: TermColor) -> bool {
    c == TermColor::Green || c == TermColor::Yellow || c == TermColor::Cyan || c == TermColor::White
}

/// Whether a color has a blue component in the 3-bit RGB model.
pub open spec fn has_blue(c: TermColor) -> bool {
    c == TermColor::Blue || c == TermColor::Magenta || c == TermColor::Cyan || c == TermColor::White
}

/// The color with exactly the given RGB components.
pub open spec fn color_of_channels(r: bool, g: bool, b: bool) -> TermColor {
    if r {
        if g {
            if b { TermColor::White } else { TermColor::Yellow }
        } else {
            if b { TermColor::Magenta } else { TermColor::Red }
        }
    } else {
        if g {
            if b { TermColor::Cyan } else { TermColor::Green }
        } else {
            if b { TermColor::Blue } else { TermColor::Default }
        }
    }
}

/// Additive mixing: the union of the RGB components of both colors.
pub open spec fn spec_mix(a: TermColor, b: TermColor) -> TermColor {
    color_of_channels(
        has_red(a) || has_red(b),
        has_green(a) || has_green(b),
        has_blue(a) || has_blue(b),
    )
}

/// The i-th palette color, cycling every seven entries.
pub open spec fn palette_color(i: int) -> TermColor {
    let k = i % 7;
    if k == 0 { TermColor::Blue }
    else if k == 1 { TermColor::Red }
    else if k == 2 { TermColor::Green }
    else if k == 3 { TermColor::Yellow }
    else if k == 4 { TermColor::Cyan }
    else if k == 5 { TermColor::Magenta }
    else { TermColor::White }
}

/// Automatic color cycling: two series numbers get the same palette color exactly when
/// they differ by a multiple of seven, so any seven consecutive series get seven
/// different colors, none of them `Default`.
pub proof fn law_palette_cycle(i: int, j: int)
    ensures
        palette_color(i) == palette_color(j) <==> i % 7 == j % 7,
        palette_color(i) != TermColor::Default,
{
}

/// The ANSI foreground escape sequence of a color (empty for `Default`).
pub open spec fn ansi_fg_seq(c: TermColor) -> Seq<char> {
    match c {
        TermColor::Default => seq![],
        TermColor::Blue => seq!['\x1b', '[', '3', '4', 'm'],
        TermColor::Red => seq!['\x1b', '[', '3', '1', 'm'],
        TermColor::Green => seq!['\x1b', '[', '3', '2', 'm'],
        TermColor::Yellow => seq!['\x1b', '[', '3', '3', 'm'],
        TermColor::Cyan => seq!['\x1b', '[', '3', '6', 'm'],
        TermColor::Magenta => seq!['\x1b', '[', '3', '5', 'm'],
        TermColor::White => seq!['\x1b', '[', '3', '7', 'm'],
    }
}

/// The ANSI reset escape sequence.
pub open spec fn ansi_reset_seq() -> Seq<char> {
    seq!['\x1b', '[', '0', 'm']
}


/// ASCII lowercase of one character; other characters are unchanged.
pub open spec fn ascii_lower(c: char) -> char {
    if 'A' <= c && c <= 'Z' {
        ((c as u32) + 32) as char
    } else {
        c
    }
}

/// ASCII lowercase of a character sequence.
pub open spec fn lower_seq(s: Seq<char>) -> Seq<char> {
    s.map_values(|c: char| ascii_lower(c))
}

/// Color names are case-insensitive: a name and its lowercase denote the same color.
pub proof fn law_color_name_case_insensitive(s: Seq<char>)
    ensures
        color_named(lower_seq(lower_seq(s))) == color_named(lower_seq(s)),
{
    assert forall|k: int| 0 <= k < s.len() implies #[trigger] lower_seq(lower_seq(s))[k] == lower_seq(s)[k] by {
        let c = s[k];
        if 'A' <= c && c <= 'Z' {
            assert('a' <= ascii_lower(c) && ascii_lower(c) <= 'z');
        }
    }
    assert(lower_seq(lower_seq(s)) =~= lower_seq(s));
}

/// The color a (lowercased) name denotes, if any.
pub open spec fn color_named(s: Seq<char>) -> Option<TermColor> {
    if s == seq!['r', 'e', 'd'] {
        Some(TermColor::Red)
    } else if s == seq!['g', 'r', 'e', 'e', 'n'] {
        Some(TermColor::Green)
    } else if s == seq!['b', 'l', 'u', 'e'] {
        Some(TermColor::Blue)
    } else if s == seq!['y', 'e', 'l', 'l', 'o', 'w'] {
        Some(TermColor::Yellow)
    } else if s == seq!['c', 'y', 'a', 'n'] {
        Some(TermColor::Cyan)
    } else if s == seq!['m', 'a', 'g', 'e', 'n', 't', 'a'] || s == seq!['p', 'u', 'r', 'p', 'l', 'e'] {
        Some(TermColor::Magenta)
    } else if s == seq!['w', 'h', 'i', 't', 'e'] {
        Some(TermColor::White)
    } else if s == seq!['d', 'e', 'f', 'a', 'u', 'l', 't'] || s == seq!['n', 'o', 'n', 'e'] {
        Some(TermColor::Default)
    } else {
        None
    }
}

fn lower_char(c: char) -> (r: char)
    ensures
        r == ascii_lower(c),
{
    if 'A' <= c && c <= 'Z' {
        let u = (c as u32) + 32;
        ((u as u8) as char)
    } else {
        c
    }
}

fn chars_eq(a: &Vec<char>, b: &Vec<char>) -> (r: bool)
    ensures
        r == (a@ == b@),
{
    if a.len() != b.len() {
        return false;
    }
    let mut i: usize = 0;
    while i < a.len()
        invariant
            a.len() == b.len(),
            i <= a.len(),
            forall|j: int| 0 <= j < i ==> a@[j] == b@[j],
        decreases a.len() - i,
    {
        if a[i] != b[i] {
            return false;
        }
        i += 1;
    }
    assert(a@ =~= b@);
    true
}

proof fn lemma_or_channels(a: u8, b: u8)
    by (bit_vector)
    requires
        a < 8,
        b < 8,
    ensures
        (a | b) < 8,
        ((a | b) & 4 != 0) == ((a & 4 != 0) || (b & 4 != 0)),
        ((a | b) & 2 != 0) == ((a & 2 != 0) || (b & 2 != 0)),
        ((a | b) & 1 != 0) == ((a & 1 != 0) || (b & 1 != 0)),
{
}

impl TermColor {
    /// Parse a color name string into a TermColor.
    ///
    /// Supports: "red", "green", "blue", "yellow", "cyan", "magenta", "white", "default"
    /// (and "purple", "none"), case-insensitively. Case is folded on ASCII letters; full
    /// Unicode lowercasing gives the same answers, since the only non-ASCII characters
    /// that lowercase to an ASCII letter are the Kelvin sign (to `k`), which no name
    /// contains, and dotted capital I, which lowercases to two characters.
    pub fn from_name(name: &str) -> (r: Option<TermColor>)
        ensures
            r == color_named(lower_seq(name@)),
    {
        let chars = str_chars(name);
        let mut lower: Vec<char> = Vec::new();
        let mut i: usize = 0;
        while i < chars.len()
            invariant
                i <= chars.len(),
                lower@ == lower_seq(chars@.take(i as int)),
            decreases chars.len() - i,
        {
            let c = lower_char(chars[i]);
            lower.push(c);
            i += 1;
            assert(lower_seq(chars@.take(i as int)) =~= lower_seq(chars@.take(i - 1 as int)).push(c));
        }
        assert(chars@.take(chars.len() as int) =~= chars@);
        if chars_eq(&lower, &vec!['r', 'e', 'd']) {
            Some(TermColor::Red)
        } else if chars_eq(&lower, &vec!['g', 'r', 'e', 'e', 'n']) {
            Some(TermColor::Green)
        } else if chars_eq(&lower, &vec!['b', 'l', 'u', 'e']) {
            Some(TermColor::Blue)
        } else if chars_eq(&lower, &vec!['y', 'e', 'l', 'l', 'o', 'w']) {
            Some(TermColor::Yellow)
        } else if chars_eq(&lower, &vec!['c', 'y', 'a', 'n']) {
            Some(TermColor::Cyan)
        } else if chars_eq(&lower, &vec!['m', 'a', 'g', 'e', 'n', 't', 'a'])
            || chars_eq(&lower, &vec!['p', 'u', 'r', 'p', 'l', 'e']) {
            Some(TermColor::Magenta)
        } else if chars_eq(&lower, &vec!['w', 'h', 'i', 't', 'e']) {
            Some(TermColor::White)
        } else if chars_eq(&lower, &vec!['d', 'e', 'f', 'a', 'u', 'l', 't'])
            || chars_eq(&lower, &vec!['n', 'o', 'n', 'e']) {
            Some(TermColor::Default)
        } else {
            None
        }
    }
    /// Returns the ANSI escape sequence to set this foreground color.
    pub fn ansi_fg(self) -> (s: &'static str)
        ensures
            s@ == ansi_fg_seq(self),
    {
        proof {
            reveal_strlit("");
            reveal_strlit("\x1b[34m");
            reveal_strlit("\x1b[31m");
            reveal_strlit("\x1b[32m");
            reveal_strlit("\x1b[33m");
            reveal_strlit("\x1b[36m");
            reveal_strlit("\x1b[35m");
            reveal_strlit("\x1b[37m");
        }
        match self {
            TermColor::Default => "",
            TermColor::Blue => "\x1b[34m",
            TermColor::Red => "\x1b[31m",
            TermColor::Green => "\x1b[32m",
            TermColor::Yellow => "\x1b[33m",
            TermColor::Cyan => "\x1b[36m",
            TermColor::Magenta => "\x1b[35m",
            TermColor::White => "\x1b[37m",
        }
    }

    /// Returns the ANSI reset escape sequence.
    pub fn ansi_reset() -> (s: &'static str)
        ensures
            s@ == ansi_reset_seq(),
    {
        proof {
            reveal_strlit("\x1b[0m");
        }
        "\x1b[0m"
    }

    fn to_rgb_flags(self) -> (f: u8)
        ensures
            f < 8,
            (f & 4 != 0) == has_red(self),
            (f & 2 != 0) == has_green(self),
            (f & 1 != 0) == has_blue(self),
    {
        let f: u8 = match self {
            TermColor::Default => 0b000,
            TermColor::Red => 0b100,
            TermColor::Green => 0b010,
            TermColor::Blue => 0b001,
            TermColor::Yellow => 0b110,
            TermColor::Magenta => 0b101,
            TermColor::Cyan => 0b011,
            TermColor::White => 0b111,
        };
        assert(0u8 & 4 == 0 && 0u8 & 2 == 0 && 0u8 & 1 == 0) by (bit_vector);
        assert(4u8 & 4 != 0 && 4u8 & 2 == 0 && 4u8 & 1 == 0) by (bit_vector);
        assert(2u8 & 4 == 0 && 2u8 & 2 != 0 && 2u8 & 1 == 0) by (bit_vector);
        assert(1u8 & 4 == 0 && 1u8 & 2 == 0 && 1u8 & 1 != 0) by (bit_vector);
        assert(6u8 & 4 != 0 && 6u8 & 2 != 0 && 6u8 & 1 == 0) by (bit_vector);
        assert(5u8 & 4 != 0 && 5u8 & 2 == 0 && 5u8 & 1 != 0) by (bit_vector);
        assert(3u8 & 4 == 0 && 3u8 & 2 != 0 && 3u8 & 1 != 0) by (bit_vector);
        assert(7u8 & 4 != 0 && 7u8 & 2 != 0 && 7u8 & 1 != 0) by (bit_vector);
        f
    }

    fn from_rgb_flags(flags: u8) -> (c: TermColor)
        ensures
            c == color_of_channels(flags & 4 != 0, flags & 2 != 0, flags & 1 != 0),
    {
        let low = flags & 0b111;
        assert(low < 8 && (low & 4 == flags & 4) && (low & 2 == flags & 2) && (low & 1 == flags & 1))
            by (bit_vector)
            requires
                low == flags & 7,
        ;
        assert(0u8 & 4 == 0 && 0u8 & 2 == 0 && 0u8 & 1 == 0) by (bit_vector);
        assert(4u8 & 4 != 0 && 4u8 & 2 == 0 && 4u8 & 1 == 0) by (bit_vector);
        assert(2u8 & 4 == 0 && 2u8 & 2 != 0 && 2u8 & 1 == 0) by (bit_vector);
        assert(1u8 & 4 == 0 && 1u8 & 2 == 0 && 1u8 & 1 != 0) by (bit_vector);
        assert(6u8 & 4 != 0 && 6u8 & 2 != 0 && 6u8 & 1 == 0) by (bit_vector);
        assert(5u8 & 4 != 0 && 5u8 & 2 == 0 && 5u8 & 1 != 0) by (bit_vector);
        assert(3u8 & 4 == 0 && 3u8 & 2 != 0 && 3u8 & 1 != 0) by (bit_vector);
        assert(7u8 & 4 != 0 && 7u8 & 2 != 0 && 7u8 & 1 != 0) by (bit_vector);
        match low {
            0b000 => TermColor::Default,
            0b100 => TermColor::Red,
            0b010 => TermColor::Green,
            0b001 => TermColor::Blue,
            0b110 => TermColor::Yellow,
            0b101 => TermColor::Magenta,
            0b011 => TermColor::Cyan,
            _ => TermColor::White,
        }
    }

    /// Additively mixes two colors by OR-ing their 3-bit RGB flags.
    ///
    /// `Default` acts as identity (no color contribution).
    pub fn mix(self, other: TermColor) -> (c: TermColor)
        ensures
            c == spec_mix(self, other),
    {
        let a = self.to_rgb_flags();
        let b = other.to_rgb_flags();
        proof {
            lemma_or_channels(a, b);
        }
        TermColor::from_rgb_flags(a | b)
    }
}


/// Mixing is commutative: `a.mix(b) == b.mix(a)`.
pub proof fn law_mix_commutative(a: TermColor, b: TermColor)
    ensures
        spec_mix(a, b) == spec_mix(b, a),
{
}

/// Mixing is associative: `(a.mix(b)).mix(c) == a.mix(b.mix(c))`.
pub proof fn law_mix_associative(a: TermColor, b: TermColor, c: TermColor)
    ensures
        spec_mix(spec_mix(a, b), c) == spec_mix(a, spec_mix(b, c)),
{
}

/// Mixing a color with itself gives the same color.
pub proof fn law_mix_idempotent(a: TermColor)
    ensures
        spec_mix(a, a) == a,
{
}

/// `Default` contributes no color: it is the identity of mixing on both sides.
pub proof fn law_mix_default_identity(a: TermColor)
    ensures
        spec_mix(TermColor::Default, a) == a,
        spec_mix(a, TermColor::Default) == a,
{
}

/// `White` has every component: mixing anything into it gives `White`.
pub proof fn law_mix_white_absorbs(a: TermColor)
    ensures
        spec_mix(TermColor::White, a) == TermColor::White,
        spec_mix(a, TermColor::White) == TermColor::White,
{
}

/// Red, green and blue are the primaries: mixing all three gives `White`,
/// and mixing two of them gives the corresponding secondary color.
pub proof fn law_mix_primaries()
    ensures
        spec_mix(TermColor::Red, TermColor::Blue) == TermColor::Magenta,
        spec_mix(TermColor::Red, TermColor::Green) == TermColor::Yellow,
        spec_mix(TermColor::Green, TermColor::Blue) == TermColor::Cyan,
        spec_mix(spec_mix(TermColor::Red, TermColor::Green), TermColor::Blue) == TermColor::White,
{
}

/// A color is determined by its RGB components.
pub proof fn law_channels_round_trip(a: TermColor)
    ensures
        color_of_channels(has_red(a), has_green(a), has_blue(a)) == a,
{
}

} // verus!
