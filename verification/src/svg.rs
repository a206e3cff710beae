//! ANSI-to-SVG conversion.

use vstd::prelude::*;

use crate::braille::{canvas_colored_text, canvas_plain_text, canvas_row_chars, canvas_row_colors, CanvasView};
use crate::chars::str_chars;
use crate::color::{ansi_fg_seq, ansi_reset_seq, TermColor};
use crate::text::{grid_colored_text, grid_plain_text, grid_row_chars, grid_row_colors, GridView};
use crate::textout::{braille_char, colored_from, colored_row, join_lines, push_chars, string_push};

verus! {

// ---------------------------------------------------------------------------
// Lines of a string

/// Index of the first `'\n'` at or after `j`, or the length when there is none.
pub open spec fn next_newline(s: Seq<char>, j: int) -> int
    decreases s.len() - j,
{
    if j >= s.len() {
        s.len() as int
    } else if s[j] == '\n' {
        j
    } else {
        next_newline(s, j + 1)
    }
}

/// A line without its terminating carriage return, if any.
pub open spec fn strip_cr(l: Seq<char>) -> Seq<char> {
    if l.len() > 0 && l.last() == '\r' {
        l.drop_last()
    } else {
        l
    }
}

/// The lines of `s` from index `start`, as `str::lines` splits them: at each `'\n'`
/// (dropping a `'\r'` just before it); a final line without `'\n'` is kept as it is,
/// and nothing follows a final `'\n'`.
pub open spec fn lines_from(s: Seq<char>, start: int) -> Seq<Seq<char>>
    decreases s.len() - start,
{
    if start < 0 || start >= s.len() {
        Seq::empty()
    } else {
        let e = next_newline(s, start);
        proof {
            lemma_next_newline_bounds(s, start);
        }
        if e < s.len() {
            seq![strip_cr(s.subrange(start, e))] + lines_from(s, e + 1)
        } else {
            seq![s.subrange(start, s.len() as int)]
        }
    }
}

/// The lines of `s`.
pub open spec fn lines_of(s: Seq<char>) -> Seq<Seq<char>> {
    lines_from(s, 0)
}

pub proof fn lemma_next_newline_bounds(s: Seq<char>, j: int)
    requires
        0 <= j <= s.len(),
    ensures
        j <= next_newline(s, j) <= s.len(),
        next_newline(s, j) < s.len() ==> s[next_newline(s, j)] == '\n',
        forall|k: int| j <= k < next_newline(s, j) ==> s[k] != '\n',
    decreases s.len() - j,
{
    if j < s.len() && s[j] != '\n' {
        lemma_next_newline_bounds(s, j + 1);
    }
}

proof fn lemma_next_newline_skip(s: Seq<char>, j: int, i: int)
    requires
        0 <= j <= i <= s.len(),
        forall|k: int| j <= k < i ==> s[k] != '\n',
    ensures
        next_newline(s, j) == next_newline(s, i),
    decreases i - j,
{
    if j < i {
        lemma_next_newline_skip(s, j + 1, i);
    }
}

fn strip_cr_exec(l: Vec<char>) -> (r: Vec<char>)
    ensures
        r@ == strip_cr(l@),
{
    let mut l = l;
    if l.len() > 0 && l[l.len() - 1] == '\r' {
        l.pop();
    }
    l
}

/// Splits a character sequence into lines, as `str::lines` does.
pub fn split_lines(s: &Vec<char>) -> (lines: Vec<Vec<char>>)
    ensures
        lines@.len() == lines_of(s@).len(),
        forall|k: int| 0 <= k < lines@.len() ==> (#[trigger] lines@[k])@ == lines_of(s@)[k],
{
    let mut lines: Vec<Vec<char>> = Vec::new();
    let mut cur: Vec<char> = Vec::new();
    let ghost mut done: Seq<Seq<char>> = Seq::empty();
    let mut start: usize = 0;
    let mut i: usize = 0;
    while i < s.len()
        invariant
            start <= i <= s@.len(),
            cur@ == s@.subrange(start as int, i as int),
            forall|k: int| start <= k < i ==> s@[k] != '\n',
            lines@.len() == done.len(),
            forall|k: int| 0 <= k < lines@.len() ==> (#[trigger] lines@[k])@ == done[k],
            done + lines_from(s@, start as int) == lines_of(s@),
        decreases s.len() - i,
    {
        if s[i] == '\n' {
            proof {
                lemma_next_newline_skip(s@, start as int, i as int);
                assert(next_newline(s@, start as int) == i);
            }
            let line = strip_cr_exec(cur);
            proof {
                assert(lines_from(s@, start as int) == seq![strip_cr(s@.subrange(start as int, i as int))]
                    + lines_from(s@, i + 1));
                done = done.push(line@);
                assert(done + lines_from(s@, i + 1) =~= lines_of(s@));
            }
            lines.push(line);
            cur = Vec::new();
            start = i + 1;
            i += 1;
            assert(cur@ =~= s@.subrange(start as int, i as int));
        } else {
            cur.push(s[i]);
            i += 1;
            assert(cur@ =~= s@.subrange(start as int, i as int));
        }
    }
    if start < s.len() {
        proof {
            lemma_next_newline_skip(s@, start as int, s@.len() as int);
            assert(lines_from(s@, start as int) == seq![s@.subrange(start as int, s@.len() as int)]);
            done = done.push(cur@);
            assert(done =~= lines_of(s@));
        }
        lines.push(cur);
    } else {
        assert(done =~= lines_of(s@));
    }
    lines
}

} // verus!

verus! {

// ---------------------------------------------------------------------------
// Escaping, stripping, numbers

/// The XML escape of one character.
pub open spec fn escape_char(c: char) -> Seq<char> {
    if c == '&' {
        seq!['&', 'a', 'm', 'p', ';']
    } else if c == '<' {
        seq!['&', 'l', 't', ';']
    } else if c == '>' {
        seq!['&', 'g', 't', ';']
    } else if c == '"' {
        seq!['&', 'q', 'u', 'o', 't', ';']
    } else if c == '\'' {
        seq!['&', 'a', 'p', 'o', 's', ';']
    } else {
        seq![c]
    }
}

/// `s` with the characters that are special in XML escaped.
pub open spec fn escaped(s: Seq<char>) -> Seq<char>
    decreases s.len(),
{
    if s.len() == 0 {
        Seq::empty()
    } else {
        escaped(s.drop_last()) + escape_char(s.last())
    }
}

/// Whether `t` starts with the entity `e`.
pub open spec fn starts_with_entity(t: Seq<char>, e: Seq<char>) -> bool {
    t.len() >= e.len() && t.subrange(0, e.len() as int) == e
}

/// XML text read back: the five entities `&amp;`, `&lt;`, `&gt;`, `&quot;` and `&apos;`
/// stand for `&`, `<`, `>`, `"` and `'`; every other character stands for itself.
pub open spec fn unescaped(t: Seq<char>) -> Seq<char>
    decreases t.len(),
{
    if t.len() == 0 {
        Seq::empty()
    } else if starts_with_entity(t, seq!['&', 'a', 'm', 'p', ';']) {
        seq!['&'] + unescaped(t.skip(5))
    } else if starts_with_entity(t, seq!['&', 'l', 't', ';']) {
        seq!['<'] + unescaped(t.skip(4))
    } else if starts_with_entity(t, seq!['&', 'g', 't', ';']) {
        seq!['>'] + unescaped(t.skip(4))
    } else if starts_with_entity(t, seq!['&', 'q', 'u', 'o', 't', ';']) {
        seq!['"'] + unescaped(t.skip(6))
    } else if starts_with_entity(t, seq!['&', 'a', 'p', 'o', 's', ';']) {
        seq!['\''] + unescaped(t.skip(6))
    } else {
        seq![t[0]] + unescaped(t.skip(1))
    }
}

proof fn lemma_escaped_front(s: Seq<char>)
    requires
        s.len() > 0,
    ensures
        escaped(s) == escape_char(s[0]) + escaped(s.drop_first()),
    decreases s.len(),
{
    if s.len() == 1 {
        assert(s.drop_first() =~= Seq::<char>::empty());
        assert(s.drop_last() =~= Seq::<char>::empty());
        assert(escape_char(s[0]) + Seq::<char>::empty() =~= escape_char(s[0]));
        assert(Seq::<char>::empty() + escape_char(s[0]) =~= escape_char(s[0]));
    } else {
        lemma_escaped_front(s.drop_last());
        assert(s.drop_last().drop_first() =~= s.drop_first().drop_last());
        assert(s.drop_first().last() == s.last());
        assert(escaped(s.drop_first()) == escaped(s.drop_first().drop_last()) + escape_char(s.last()));
        assert(escape_char(s[0]) + escaped(s.drop_first()) =~= (escape_char(s[0]) + escaped(
            s.drop_last().drop_first(),
        )) + escape_char(s.last()));
    }
}

proof fn lemma_unescape_char(c: char, rest: Seq<char>)
    ensures
        unescaped(escape_char(c) + rest) == seq![c] + unescaped(rest),
{
    let t = escape_char(c) + rest;
    let k = escape_char(c).len() as int;
    assert(t.skip(k) =~= rest);
    assert(t.subrange(0, k) =~= escape_char(c));
    if c == '&' || c == '<' || c == '>' || c == '"' || c == '\'' {
    } else {
        assert(t[0] == c);
    }
}

/// Escaping for XML loses nothing and leaves no markup: reading the escaped text back
/// gives the original text, and it holds no `<`, `>`, `"` or `'` character.
pub proof fn law_escape_round_trip(s: Seq<char>)
    ensures
        unescaped(escaped(s)) == s,
        forall|k: int|
            0 <= k < escaped(s).len() ==> #[trigger] escaped(s)[k] != '<' && escaped(s)[k] != '>' && escaped(
                s,
            )[k] != '"' && escaped(s)[k] != '\'',
    decreases s.len(),
{
    if s.len() == 0 {
    } else {
        lemma_escaped_front(s);
        law_escape_round_trip(s.drop_first());
        lemma_unescape_char(s[0], escaped(s.drop_first()));
        assert(seq![s[0]] + s.drop_first() =~= s);
        let e = escape_char(s[0]);
        let r = escaped(s.drop_first());
        assert forall|k: int| 0 <= k < (e + r).len() implies #[trigger] (e + r)[k] != '<' && (e + r)[k] != '>'
            && (e + r)[k] != '"' && (e + r)[k] != '\'' by {
            if k >= e.len() {
                assert((e + r)[k] == r[k - e.len()]);
            }
        }
    }
}

fn push_escaped(out: &mut String, s: &Vec<char>)
    ensures
        final(out)@ == old(out)@ + escaped(s@),
{
    let ghost start = out@;
    let mut i: usize = 0;
    while i < s.len()
        invariant
            i <= s@.len(),
            out@ == start + escaped(s@.take(i as int)),
        decreases s.len() - i,
    {
        let c = s[i];
        proof {
            reveal_strlit("&amp;");
            reveal_strlit("&lt;");
            reveal_strlit("&gt;");
            reveal_strlit("&quot;");
            reveal_strlit("&apos;");
        }
        if c == '&' {
            out.append("&amp;");
        } else if c == '<' {
            out.append("&lt;");
        } else if c == '>' {
            out.append("&gt;");
        } else if c == '"' {
            out.append("&quot;");
        } else if c == '\'' {
            out.append("&apos;");
        } else {
            string_push(out, c);
        }
        assert(s@.take(i + 1).drop_last() =~= s@.take(i as int));
        i += 1;
        assert(out@ =~= start + escaped(s@.take(i as int)));
    }
    assert(s@.take(s@.len() as int) =~= s@);
}

/// Escape characters that are special in XML.
pub fn escape_xml(s: &str) -> (r: String)
    ensures
        r@ == escaped(s@),
{
    let cs = str_chars(s);
    let mut out = String::new();
    push_escaped(&mut out, &cs);
    out
}

/// The characters of `s` from index `i` outside ANSI escape sequences, an escape
/// sequence running from `'\x1b'` to the next `'m'` (`esc` tells whether one is open).
pub open spec fn stripped_from(s: Seq<char>, i: int, esc: bool) -> Seq<char>
    decreases s.len() - i,
{
    if i < 0 || i >= s.len() {
        Seq::empty()
    } else if esc {
        stripped_from(s, i + 1, s[i] != 'm')
    } else if s[i] == '\x1b' {
        stripped_from(s, i + 1, true)
    } else {
        seq![s[i]] + stripped_from(s, i + 1, false)
    }
}

/// `s` without its ANSI escape sequences.
pub open spec fn stripped(s: Seq<char>) -> Seq<char> {
    stripped_from(s, 0, false)
}

fn strip_ansi_chars(s: &Vec<char>) -> (r: Vec<char>)
    ensures
        r@ == stripped(s@),
{
    let mut out: Vec<char> = Vec::new();
    let mut in_escape = false;
    let mut i: usize = 0;
    while i < s.len()
        invariant
            i <= s@.len(),
            out@ + stripped_from(s@, i as int, in_escape) == stripped(s@),
        decreases s.len() - i,
    {
        let c = s[i];
        let ghost before = out@;
        if in_escape {
            if c == 'm' {
                in_escape = false;
            }
        } else if c == '\x1b' {
            in_escape = true;
        } else {
            out.push(c);
            assert(out@ + stripped_from(s@, i + 1, false) =~= before + stripped_from(s@, i as int, false));
        }
        i += 1;
    }
    assert(out@ =~= stripped(s@));
    out
}

/// Helper to count characters ignoring ANSI sequences: the string without them.
pub fn strip_ansi(s: &str) -> (r: String)
    ensures
        r@ == stripped(s@),
{
    let cs = str_chars(s);
    let st = strip_ansi_chars(&cs);
    let mut out = String::new();
    push_chars(&mut out, &st);
    out
}

/// The digit character for `d` in `0..10`.
pub open spec fn digit_char(d: int) -> char {
    (('0' as int) + d) as char
}

/// The decimal representation of `n`, without leading zeros.
pub open spec fn decimal(n: nat) -> Seq<char>
    decreases n,
{
    if n < 10 {
        seq![digit_char(n as int)]
    } else {
        decimal(n / 10).push(digit_char((n % 10) as int))
    }
}

fn push_decimal(out: &mut String, n: u64)
    ensures
        final(out)@ == old(out)@ + decimal(n as nat),
{
    let mut digits: Vec<char> = Vec::new();
    let mut m = n;
    let ghost mut suffix: Seq<char> = Seq::empty();
    // digits holds the low-order digits of n, least significant first.
    loop
        invariant_except_break
            decimal(n as nat) == decimal(m as nat) + digits@.reverse(),
        ensures
            decimal(n as nat) == digits@.reverse(),
        decreases m,
    {
        let d = (m % 10) as u8;
        let c = (48u8 + d) as char;
        proof {
            assert(c == digit_char((m % 10) as int));
        }
        if m < 10 {
            digits.push(c);
            assert(digits@.reverse() =~= seq![c] + digits@.drop_last().reverse());
            break;
        }
        let ghost old_digits = digits@;
        digits.push(c);
        assert(digits@.reverse() =~= seq![c] + old_digits.reverse());
        assert(decimal(m as nat) == decimal((m / 10) as nat).push(c));
        assert(decimal((m / 10) as nat).push(c) + old_digits.reverse() =~= decimal((m / 10) as nat)
            + digits@.reverse());
        m = m / 10;
    }
    let ghost start = out@;
    let mut k = digits.len();
    while k > 0
        invariant
            k <= digits@.len(),
            out@ == start + digits@.reverse().take((digits@.len() - k) as int),
        decreases k,
    {
        k -= 1;
        string_push(out, digits[k]);
        assert(out@ =~= start + digits@.reverse().take((digits@.len() - k) as int));
    }
    assert(digits@.reverse().take(digits@.len() as int) =~= digits@.reverse());
}

} // verus!

verus! {

// ---------------------------------------------------------------------------
// One line of colored text

/// Index of the first `'m'` at or after `j`, or the length when there is none.
pub open spec fn code_end(s: Seq<char>, j: int) -> int
    decreases s.len() - j,
{
    if j >= s.len() {
        s.len() as int
    } else if s[j] == 'm' {
        j
    } else {
        code_end(s, j + 1)
    }
}

pub proof fn lemma_code_end_bounds(s: Seq<char>, j: int)
    requires
        0 <= j <= s.len(),
    ensures
        j <= code_end(s, j) <= s.len(),
        code_end(s, j) < s.len() ==> s[code_end(s, j)] == 'm',
        forall|k: int| j <= k < code_end(s, j) ==> s[k] != 'm',
    decreases s.len() - j,
{
    if j < s.len() && s[j] != 'm' {
        lemma_code_end_bounds(s, j + 1);
    }
}

/// The SVG fill color that an SGR code selects: `0` resets to the default, `31`–`37`
/// select the palette of the chosen mode; any other code keeps the current color.
pub open spec fn sgr_color(code: Seq<char>, dark: bool, cur: Seq<char>, default_fg: Seq<char>) -> Seq<char> {
    if code == seq!['0'] {
        default_fg
    } else if code == seq!['3', '1'] {
        if dark { "#f44747"@ } else { "#cd3131"@ }
    } else if code == seq!['3', '2'] {
        if dark { "#6a9955"@ } else { "#008000"@ }
    } else if code == seq!['3', '3'] {
        if dark { "#d7ba7d"@ } else { "#795e26"@ }
    } else if code == seq!['3', '4'] {
        if dark { "#569cd6"@ } else { "#0000ff"@ }
    } else if code == seq!['3', '5'] {
        if dark { "#c586c0"@ } else { "#800080"@ }
    } else if code == seq!['3', '6'] {
        if dark { "#4ec9b0"@ } else { "#008080"@ }
    } else if code == seq!['3', '7'] {
        if dark { "#d4d4d4"@ } else { "#000000"@ }
    } else {
        cur
    }
}

/// The SVG color of each terminal color in the dark and the light theme.
pub open spec fn svg_hue(c: TermColor, dark: bool) -> Seq<char> {
    match c {
        TermColor::Red => if dark { "#f44747"@ } else { "#cd3131"@ },
        TermColor::Green => if dark { "#6a9955"@ } else { "#008000"@ },
        TermColor::Yellow => if dark { "#d7ba7d"@ } else { "#795e26"@ },
        TermColor::Blue => if dark { "#569cd6"@ } else { "#0000ff"@ },
        TermColor::Magenta => if dark { "#c586c0"@ } else { "#800080"@ },
        TermColor::Cyan => if dark { "#4ec9b0"@ } else { "#008080"@ },
        TermColor::White => if dark { "#d4d4d4"@ } else { "#000000"@ },
        TermColor::Default => if dark { "#d4d4d4"@ } else { "#333333"@ },
    }
}

/// Text colored by a terminal color code keeps its hue in the SVG: the code that
/// `ansi_fg` writes for a color selects that color's SVG color in the chosen theme; the
/// reset code `0` returns to the default text color; any other code leaves the color
/// in effect unchanged.
pub proof fn law_sgr_keeps_hue(c: TermColor, code: Seq<char>, dark: bool, cur: Seq<char>, default_fg: Seq<char>)
    ensures
        c != TermColor::Default ==> sgr_color(ansi_fg_seq(c).subrange(2, 4), dark, cur, default_fg) == svg_hue(
            c,
            dark,
        ),
        sgr_color(seq!['0'], dark, cur, default_fg) == default_fg,
        code != seq!['0'] && (forall|d: TermColor|
            d != TermColor::Default ==> code != #[trigger] ansi_fg_seq(d).subrange(2, 4)) ==> sgr_color(
            code,
            dark,
            cur,
            default_fg,
        ) == cur,
{
    let t = |d: TermColor| ansi_fg_seq(d).subrange(2, 4);
    assert(t(TermColor::Red) =~= seq!['3', '1']);
    assert(t(TermColor::Green) =~= seq!['3', '2']);
    assert(t(TermColor::Yellow) =~= seq!['3', '3']);
    assert(t(TermColor::Blue) =~= seq!['3', '4']);
    assert(t(TermColor::Magenta) =~= seq!['3', '5']);
    assert(t(TermColor::Cyan) =~= seq!['3', '6']);
    assert(t(TermColor::White) =~= seq!['3', '7']);
    assert(seq!['0'] != seq!['3', '1']);
}

/// The x coordinates of `n` characters starting at character offset `offset`:
/// `16 + 8 * (offset + i)`, separated by spaces.
pub open spec fn x_list(offset: int, n: int) -> Seq<char>
    decreases n,
{
    if n <= 0 {
        Seq::empty()
    } else if n == 1 {
        decimal((16 + 8 * offset) as nat)
    } else {
        x_list(offset, n - 1) + seq![' '] + decimal((16 + 8 * (offset + n - 1)) as nat)
    }
}

/// A `<tspan>` placing each character of `text` at its own x position, or nothing for
/// empty text.
pub open spec fn tspan(color: Seq<char>, text: Seq<char>, offset: int) -> Seq<char> {
    if text.len() == 0 {
        Seq::empty()
    } else {
        "<tspan x=\""@ + x_list(offset, text.len() as int) + "\" fill=\""@ + color + "\">"@ + escaped(text)
            + "</tspan>"@
    }
}

/// The SVG for characters `i..` of a line, with `offset` characters already placed,
/// color `color` in effect and `text` pending: each run of text between escape
/// sequences becomes one `<tspan>`; an escape sequence `ESC [ code m` changes the color.
pub open spec fn line_svg(
    line: Seq<char>,
    i: int,
    dark: bool,
    default_fg: Seq<char>,
    offset: int,
    color: Seq<char>,
    text: Seq<char>,
) -> Seq<char>
    decreases line.len() - i,
{
    if i < 0 || i >= line.len() {
        tspan(color, text, offset)
    } else if line[i] == '\x1b' {
        let flushed = tspan(color, text, offset);
        let off2 = offset + text.len();
        if i + 1 < line.len() && line[i + 1] == '[' {
            let e = code_end(line, i + 2);
            proof {
                lemma_code_end_bounds(line, i + 2);
            }
            let next = if e < line.len() { e + 1 } else { line.len() as int };
            flushed + line_svg(
                line,
                next,
                dark,
                default_fg,
                off2,
                sgr_color(line.subrange(i + 2, e), dark, color, default_fg),
                Seq::empty(),
            )
        } else {
            flushed + line_svg(line, i + 1, dark, default_fg, off2, color, Seq::empty())
        }
    } else {
        line_svg(line, i + 1, dark, default_fg, offset, color, text.push(line[i]))
    }
}

fn chars_equal(a: &Vec<char>, b: &Vec<char>) -> (r: bool)
    ensures
        r == (a@ == b@),
{
    if a.len() != b.len() {
        return false;
    }
    let mut i: usize = 0;
    while i < a.len()
        invariant
            a.len() == b.len(),
            i <= a.len(),
            forall|j: int| 0 <= j < i ==> a@[j] == b@[j],
        decreases a.len() - i,
    {
        if a[i] != b[i] {
            return false;
        }
        i += 1;
    }
    assert(a@ =~= b@);
    true
}

fn sgr_color_exec(code: &Vec<char>, dark: bool, cur: &'static str, default_fg: &'static str) -> (r: &'static str)
    ensures
        r@ == sgr_color(code@, dark, cur@, default_fg@),
{
    let c0 = vec!['0'];
    let c31 = vec!['3', '1'];
    let c32 = vec!['3', '2'];
    let c33 = vec!['3', '3'];
    let c34 = vec!['3', '4'];
    let c35 = vec!['3', '5'];
    let c36 = vec!['3', '6'];
    let c37 = vec!['3', '7'];
    assert(c0@ == seq!['0']);
    assert(c31@ == seq!['3', '1']);
    assert(c32@ == seq!['3', '2']);
    assert(c33@ == seq!['3', '3']);
    assert(c34@ == seq!['3', '4']);
    assert(c35@ == seq!['3', '5']);
    assert(c36@ == seq!['3', '6']);
    assert(c37@ == seq!['3', '7']);
    if chars_equal(code, &c0) {
        default_fg
    } else if chars_equal(code, &c31) {
        if dark { "#f44747" } else { "#cd3131" }
    } else if chars_equal(code, &c32) {
        if dark { "#6a9955" } else { "#008000" }
    } else if chars_equal(code, &c33) {
        if dark { "#d7ba7d" } else { "#795e26" }
    } else if chars_equal(code, &c34) {
        if dark { "#569cd6" } else { "#0000ff" }
    } else if chars_equal(code, &c35) {
        if dark { "#c586c0" } else { "#800080" }
    } else if chars_equal(code, &c36) {
        if dark { "#4ec9b0" } else { "#008080" }
    } else if chars_equal(code, &c37) {
        if dark { "#d4d4d4" } else { "#000000" }
    } else {
        cur
    }
}

/// Write a `<tspan>` with per-character x positions for pixel-exact placement.
fn write_tspan(svg: &mut String, color: &str, text: &Vec<char>, char_offset: u64)
    requires
        char_offset + text@.len() <= 0x1_0000_0000_0000,
    ensures
        final(svg)@ == old(svg)@ + tspan(color@, text@, char_offset as int),
{
    let n = text.len();
    if n == 0 {
        return;
    }
    let ghost start = svg@;
    svg.append("<tspan x=\"");
    let ghost after_open = svg@;
    push_decimal(svg, 16 + 8 * char_offset);
    let mut i: usize = 1;
    while i < n
        invariant
            1 <= i <= n,
            n == text@.len(),
            char_offset + text@.len() <= 0x1_0000_0000_0000,
            svg@ == after_open + x_list(char_offset as int, i as int),
        decreases n - i,
    {
        string_push(svg, ' ');
        push_decimal(svg, 16 + 8 * (char_offset + i as u64));
        i += 1;
        assert(svg@ =~= after_open + x_list(char_offset as int, i as int));
    }
    svg.append("\" fill=\"");
    svg.append(color);
    svg.append("\">");
    push_escaped(svg, text);
    svg.append("</tspan>");
    assert(svg@ =~= start + tspan(color@, text@, char_offset as int));
}

fn write_line(svg: &mut String, line: &Vec<char>, dark: bool, default_fg: &'static str)
    requires
        line@.len() <= 0x1_0000_0000_0000,
    ensures
        final(svg)@ == old(svg)@ + line_svg(line@, 0, dark, default_fg@, 0, default_fg@, Seq::empty()),
{
    let ghost start = svg@;
    let mut char_offset: u64 = 0;
    let mut current_color: &'static str = default_fg;
    let mut current_text: Vec<char> = Vec::new();
    let mut i: usize = 0;
    while i < line.len()
        invariant
            i <= line@.len(),
            line@.len() <= 0x1_0000_0000_0000,
            char_offset + current_text@.len() <= i,
            start + line_svg(line@, 0, dark, default_fg@, 0, default_fg@, Seq::empty()) == svg@
                + line_svg(line@, i as int, dark, default_fg@, char_offset as int, current_color@, current_text@),
        decreases line.len() - i,
    {
        let c = line[i];
        if c == '\x1b' {
            let ghost before = svg@;
            let ghost old_text = current_text@;
            let ghost old_off = char_offset as int;
            let ghost old_color = current_color@;
            if current_text.len() > 0 {
                write_tspan(svg, current_color, &current_text, char_offset);
                char_offset = char_offset + current_text.len() as u64;
                current_text = Vec::new();
            } else {
                assert(svg@ =~= before + tspan(old_color, old_text, old_off));
            }
            if i + 1 < line.len() && line[i + 1] == '[' {
                let mut code: Vec<char> = Vec::new();
                let mut j = i + 2;
                proof {
                    lemma_code_end_bounds(line@, i + 2);
                }
                while j < line.len() && line[j] != 'm'
                    invariant
                        i + 2 <= j <= line@.len(),
                        code@ == line@.subrange(i + 2, j as int),
                        forall|k: int| i + 2 <= k < j ==> line@[k] != 'm',
                        code_end(line@, i + 2) == code_end(line@, j as int),
                    decreases line.len() - j,
                {
                    code.push(line[j]);
                    j += 1;
                    assert(code@ =~= line@.subrange(i + 2, j as int));
                }
                proof {
                    lemma_code_end_bounds(line@, j as int);
                    assert(code_end(line@, j as int) == j);
                }
                current_color = sgr_color_exec(&code, dark, current_color, default_fg);
                i = if j < line.len() { j + 1 } else { line.len() };
            } else {
                i += 1;
            }
            assert(current_text@ =~= Seq::<char>::empty());
        } else {
            current_text.push(c);
            i += 1;
        }
    }
    let ghost before = svg@;
    write_tspan(svg, current_color, &current_text, char_offset);
}

} // verus!

verus! {

// ---------------------------------------------------------------------------
// The whole document

/// The longest line, counted in characters outside escape sequences (0 without lines).
pub open spec fn max_visible_len(lines: Seq<Seq<char>>) -> int
    decreases lines.len(),
{
    if lines.len() == 0 {
        0
    } else {
        let m = max_visible_len(lines.drop_last());
        let l = stripped(lines.last()).len() as int;
        if l > m { l } else { m }
    }
}

/// The `<text>` elements of the first `n` lines: line `r` sits at `y = 16 r + 28.8`.
pub open spec fn svg_rows(lines: Seq<Seq<char>>, dark: bool, fg: Seq<char>, n: int) -> Seq<char>
    decreases n,
{
    if n <= 0 {
        Seq::empty()
    } else {
        svg_rows(lines, dark, fg, n - 1) + "<text y=\""@ + decimal((16 * (n - 1) + 28) as nat)
            + ".8\">"@ + line_svg(lines[n - 1], 0, dark, fg, 0, fg, Seq::empty()) + "</text>"@
    }
}

/// The SVG document for an ANSI-colored text: a monospace 8×16 cell per character with
/// a 16-pixel margin on each side, a background rectangle, and one `<text>` per line.
pub open spec fn svg_document(s: Seq<char>, dark: bool) -> Seq<char> {
    let lines = lines_of(s);
    let rows = lines.len() as int;
    let cols = max_visible_len(lines);
    let bg = if dark { "#1e1e1e"@ } else { "#ffffff"@ };
    let fg = if dark { "#d4d4d4"@ } else { "#333333"@ };
    let w = decimal((cols * 8 + 32) as nat);
    let h = decimal((rows * 16 + 32) as nat);
    "<svg xmlns=\"http://www.w3.org/2000/svg\" width=\""@ + w + "\" height=\""@ + h
        + "\" viewBox=\"0 0 "@ + w + " "@ + h + "\">"@ + "<rect width=\"100%\" height=\"100%\" fill=\""@
        + bg + "\" rx=\"8\"/>"@
        + "<g font-family=\"'DejaVu Sans Mono', 'Fira Code', 'Consolas', 'Liberation Mono', monospace\" font-size=\"14px\" xml:space=\"preserve\">"@
        + svg_rows(lines, dark, fg, rows) + "</g>"@ + "</svg>"@
}

/// The `<text>` element of line `r`: at `y = 16 r + 28.8`, the line's runs in
/// `<tspan>`s starting in the default color `fg`.
pub open spec fn svg_text_element(lines: Seq<Seq<char>>, dark: bool, fg: Seq<char>, r: int) -> Seq<char> {
    "<text y=\""@ + decimal((16 * r + 28) as nat) + ".8\">"@ + line_svg(lines[r], 0, dark, fg, 0, fg, Seq::empty())
        + "</text>"@
}

/// The opening of the document: the `<svg>` tag with its size, the one background
/// rectangle in color `bg`, and the opening of the text group.
pub open spec fn svg_head(w: Seq<char>, h: Seq<char>, bg: Seq<char>) -> Seq<char> {
    "<svg xmlns=\"http://www.w3.org/2000/svg\" width=\""@ + w + "\" height=\""@ + h + "\" viewBox=\"0 0 "@ + w
        + " "@ + h + "\">"@ + "<rect width=\"100%\" height=\"100%\" fill=\""@ + bg + "\" rx=\"8\"/>"@
        + "<g font-family=\"'DejaVu Sans Mono', 'Fira Code', 'Consolas', 'Liberation Mono', monospace\" font-size=\"14px\" xml:space=\"preserve\">"@
}

proof fn lemma_svg_rows_flatten(lines: Seq<Seq<char>>, dark: bool, fg: Seq<char>, n: int)
    requires
        0 <= n <= lines.len(),
    ensures
        svg_rows(lines, dark, fg, n) == Seq::new(n as nat, |r: int| svg_text_element(lines, dark, fg, r)).flatten_alt(),
    decreases n,
{
    let els = Seq::new(n as nat, |r: int| svg_text_element(lines, dark, fg, r));
    if n > 0 {
        lemma_svg_rows_flatten(lines, dark, fg, n - 1);
        assert(els.drop_last() =~= Seq::new((n - 1) as nat, |r: int| svg_text_element(lines, dark, fg, r)));
        assert(svg_rows(lines, dark, fg, n) =~= svg_rows(lines, dark, fg, n - 1) + svg_text_element(
            lines,
            dark,
            fg,
            n - 1,
        ));
    } else {
        assert(els =~= Seq::<Seq<char>>::empty());
    }
}

/// The shape of an SVG document: the opening with exactly one background rectangle
/// (dark `#1e1e1e` or light `#ffffff`), then one `<text>` element per line of the
/// input, each starting in the default text color (light `#d4d4d4` or dark `#333333`),
/// then the closing `</g></svg>`.
pub proof fn law_svg_document_shape(s: Seq<char>, dark: bool)
    ensures
        ({
            let lines = lines_of(s);
            let bg = if dark { "#1e1e1e"@ } else { "#ffffff"@ };
            let fg = if dark { "#d4d4d4"@ } else { "#333333"@ };
            let w = decimal((max_visible_len(lines) * 8 + 32) as nat);
            let h = decimal((lines.len() * 16 + 32) as nat);
            svg_document(s, dark) == svg_head(w, h, bg) + Seq::new(
                lines.len(),
                |r: int| svg_text_element(lines, dark, fg, r),
            ).flatten() + "</g></svg>"@
        }),
{
    let lines = lines_of(s);
    let fg = if dark { "#d4d4d4"@ } else { "#333333"@ };
    let els = Seq::new(lines.len(), |r: int| svg_text_element(lines, dark, fg, r));
    lemma_svg_rows_flatten(lines, dark, fg, lines.len() as int);
    els.lemma_flatten_and_flatten_alt_are_equivalent();
    assert("</g>"@ + "</svg>"@ =~= "</g></svg>"@) by {
        reveal_strlit("</g>");
        reveal_strlit("</svg>");
        reveal_strlit("</g></svg>");
    }
    let bg = if dark { "#1e1e1e"@ } else { "#ffffff"@ };
    let w = decimal((max_visible_len(lines) * 8 + 32) as nat);
    let h = decimal((lines.len() * 16 + 32) as nat);
    assert(svg_document(s, dark) =~= svg_head(w, h, bg) + els.flatten() + "</g></svg>"@);
}

proof fn lemma_line_svg_prefix(line: Seq<char>, dark: bool, fg: Seq<char>, i: int, k: int)
    requires
        0 <= i <= k <= line.len(),
        forall|j: int| 0 <= j < k ==> line[j] != '\x1b',
    ensures
        line_svg(line, i, dark, fg, 0, fg, line.take(i)) == line_svg(line, k, dark, fg, 0, fg, line.take(k)),
    decreases k - i,
{
    if i < k {
        assert(line.take(i).push(line[i]) =~= line.take(i + 1));
        lemma_line_svg_prefix(line, dark, fg, i + 1, k);
    }
}

/// The text of a line before its first escape is written in one `<tspan>` of the
/// default color `fg`, at the start of the line's SVG.
pub proof fn law_svg_line_starts_in_default_color(line: Seq<char>, dark: bool, fg: Seq<char>, k: int)
    requires
        0 < k <= line.len(),
        forall|j: int| 0 <= j < k ==> line[j] != '\x1b',
        k == line.len() || line[k] == '\x1b',
    ensures
        tspan(fg, line.take(k), 0).is_prefix_of(line_svg(line, 0, dark, fg, 0, fg, Seq::empty())),
{
    assert(line.take(0) =~= Seq::<char>::empty());
    lemma_line_svg_prefix(line, dark, fg, 0, k);
    let t = tspan(fg, line.take(k), 0);
    let all = line_svg(line, k, dark, fg, 0, fg, line.take(k));
    if k < line.len() {
        let rest = all.subrange(t.len() as int, all.len() as int);
        assert(all =~= t + rest);
    }
    assert(all.subrange(0, t.len() as int) =~= t);
}

proof fn lemma_lines_len(s: Seq<char>, start: int)
    requires
        0 <= start <= s.len(),
    ensures
        lines_from(s, start).len() <= s.len() - start,
        forall|k: int| 0 <= k < lines_from(s, start).len() ==> (#[trigger] lines_from(s, start)[k]).len() <= s.len(),
    decreases s.len() - start,
{
    if start < s.len() {
        lemma_next_newline_bounds(s, start);
        let e = next_newline(s, start);
        if e < s.len() {
            lemma_lines_len(s, e + 1);
            let rest = lines_from(s, e + 1);
            let all = seq![strip_cr(s.subrange(start, e))] + rest;
            assert forall|k: int| 0 <= k < all.len() implies (#[trigger] all[k]).len() <= s.len() by {
                if k > 0 {
                    assert(all[k] == rest[k - 1]);
                }
            }
        }
    }
}

proof fn lemma_stripped_len(s: Seq<char>, i: int, esc: bool)
    requires
        0 <= i <= s.len(),
    ensures
        stripped_from(s, i, esc).len() <= s.len() - i,
    decreases s.len() - i,
{
    if i < s.len() {
        if esc {
            lemma_stripped_len(s, i + 1, s[i] != 'm');
        } else if s[i] == '\x1b' {
            lemma_stripped_len(s, i + 1, true);
        } else {
            lemma_stripped_len(s, i + 1, false);
        }
    }
}

/// Converts an ANSI-colored terminal string into an SVG image.
///
/// Wraps the braille characters and ANSI-colored spans inside monospace `<text>` blocks.
/// With `dark_mode` the background is dark and the default text light; otherwise the
/// background is white and the default text dark.
///
/// The input is limited to 2^40 characters. Below that, every coordinate (at most
/// `16 × rows + 32`, under 2^45) is a value that floating-point arithmetic carries
/// exactly to its one printed decimal, so the document is the one a float-based
/// renderer prints; the bound also keeps the sizes well within `u64`.
pub fn to_svg(ansi_str: &str, dark_mode: bool) -> (svg: String)
    requires
        ansi_str@.len() <= 0x100_0000_0000,
    ensures
        svg@ == svg_document(ansi_str@, dark_mode),
{
    let bg_color: &'static str = if dark_mode { "#1e1e1e" } else { "#ffffff" };
    let default_fg: &'static str = if dark_mode { "#d4d4d4" } else { "#333333" };
    let chars = str_chars(ansi_str);
    let lines = split_lines(&chars);
    let ghost ls = lines_of(ansi_str@);
    proof {
        lemma_lines_len(ansi_str@, 0);
    }
    let rows = lines.len();
    let mut cols: usize = 0;
    let mut k: usize = 0;
    while k < rows
        invariant
            rows == ls.len(),
            k <= rows,
            ls == lines_of(ansi_str@),
            lines@.len() == ls.len(),
            forall|j: int| 0 <= j < lines@.len() ==> (#[trigger] lines@[j])@ == ls[j],
            forall|j: int| 0 <= j < ls.len() ==> (#[trigger] ls[j]).len() <= ansi_str@.len(),
            cols == max_visible_len(ls.take(k as int)),
            cols <= ansi_str@.len(),
        decreases rows - k,
    {
        let vis = strip_ansi_chars(&lines[k]);
        proof {
            lemma_stripped_len(lines@[k as int]@, 0, false);
            assert(ls.take(k + 1).drop_last() =~= ls.take(k as int));
        }
        if vis.len() > cols {
            cols = vis.len();
        }
        k += 1;
    }
    assert(ls.take(rows as int) =~= ls);
    let w = cols as u64 * 8 + 32;
    let h = rows as u64 * 16 + 32;

    let mut svg = String::new();
    svg.append("<svg xmlns=\"http://www.w3.org/2000/svg\" width=\"");
    push_decimal(&mut svg, w);
    svg.append("\" height=\"");
    push_decimal(&mut svg, h);
    svg.append("\" viewBox=\"0 0 ");
    push_decimal(&mut svg, w);
    svg.append(" ");
    push_decimal(&mut svg, h);
    svg.append("\">");
    svg.append("<rect width=\"100%\" height=\"100%\" fill=\"");
    svg.append(bg_color);
    svg.append("\" rx=\"8\"/>");
    svg.append(
        "<g font-family=\"'DejaVu Sans Mono', 'Fira Code', 'Consolas', 'Liberation Mono', monospace\" font-size=\"14px\" xml:space=\"preserve\">",
    );
    let ghost head = svg@;
    let mut r: usize = 0;
    while r < rows
        invariant
            rows == ls.len(),
            r <= rows,
            rows <= ansi_str@.len() + 1,
            ls == lines_of(ansi_str@),
            lines@.len() == ls.len(),
            forall|j: int| 0 <= j < lines@.len() ==> (#[trigger] lines@[j])@ == ls[j],
            forall|j: int| 0 <= j < ls.len() ==> (#[trigger] ls[j]).len() <= ansi_str@.len(),
            ansi_str@.len() <= 0x100_0000_0000,
            svg@ == head + svg_rows(ls, dark_mode, default_fg@, r as int),
        decreases rows - r,
    {
        svg.append("<text y=\"");
        push_decimal(&mut svg, 16 * r as u64 + 28);
        svg.append(".8\">");
        assert(lines@[r as int]@ == ls[r as int]);
        write_line(&mut svg, &lines[r], dark_mode, default_fg);
        svg.append("</text>");
        r += 1;
        assert(svg@ =~= head + svg_rows(ls, dark_mode, default_fg@, r as int));
    }
    svg.append("</g>");
    svg.append("</svg>");
    assert(svg@ =~= svg_document(ansi_str@, dark_mode));
    svg
}

} // verus!

verus! {

// ---------------------------------------------------------------------------
// Stripping the color codes of rendered text

/// Whether an escape sequence is open after scanning `s` from index `i` in state `esc`.
pub open spec fn strip_end(s: Seq<char>, i: int, esc: bool) -> bool
    decreases s.len() - i,
{
    if i < 0 || i >= s.len() {
        esc
    } else if esc {
        strip_end(s, i + 1, s[i] != 'm')
    } else if s[i] == '\x1b' {
        strip_end(s, i + 1, true)
    } else {
        strip_end(s, i + 1, false)
    }
}

proof fn lemma_strip_shift(a: Seq<char>, b: Seq<char>, j: int, esc: bool)
    requires
        0 <= j <= b.len(),
    ensures
        stripped_from(a + b, a.len() + j, esc) == stripped_from(b, j, esc),
        strip_end(a + b, a.len() + j, esc) == strip_end(b, j, esc),
    decreases b.len() - j,
{
    if j < b.len() {
        assert((a + b)[a.len() + j] == b[j]);
        lemma_strip_shift(a, b, j + 1, esc);
        lemma_strip_shift(a, b, j + 1, b[j] != 'm');
        lemma_strip_shift(a, b, j + 1, true);
        lemma_strip_shift(a, b, j + 1, false);
    }
}

/// Stripping a concatenation strips the first part, then the second from the state the
/// first part ends in.
proof fn lemma_strip_concat(a: Seq<char>, b: Seq<char>, i: int, esc: bool)
    requires
        0 <= i <= a.len(),
    ensures
        stripped_from(a + b, i, esc) == stripped_from(a, i, esc) + stripped_from(b, 0, strip_end(a, i, esc)),
        strip_end(a + b, i, esc) == strip_end(b, 0, strip_end(a, i, esc)),
    decreases a.len() - i,
{
    if i == a.len() {
        lemma_strip_shift(a, b, 0, esc);
        assert(stripped_from(a, i, esc) =~= Seq::<char>::empty());
        assert(stripped_from(a, i, esc) + stripped_from(b, 0, esc) =~= stripped_from(b, 0, esc));
    } else {
        assert((a + b)[i] == a[i]);
        lemma_strip_concat(a, b, i + 1, a[i] != 'm');
        lemma_strip_concat(a, b, i + 1, true);
        lemma_strip_concat(a, b, i + 1, false);
        if !esc && a[i] != '\x1b' {
            assert(seq![a[i]] + stripped_from(a, i + 1, false) + stripped_from(b, 0, strip_end(a, i + 1, false))
                =~= seq![a[i]] + (stripped_from(a, i + 1, false) + stripped_from(b, 0, strip_end(a, i + 1, false))));
        }
    }
}

/// A color code strips to nothing and leaves no sequence open.
proof fn lemma_strip_codes(c: TermColor)
    ensures
        stripped_from(ansi_fg_seq(c), 0, false) == Seq::<char>::empty(),
        !strip_end(ansi_fg_seq(c), 0, false),
        stripped_from(ansi_reset_seq(), 0, false) == Seq::<char>::empty(),
        !strip_end(ansi_reset_seq(), 0, false),
{
    reveal_with_fuel(stripped_from, 6);
    reveal_with_fuel(strip_end, 6);
}

/// A character other than the escape character strips to itself.
proof fn lemma_strip_char(ch: char)
    requires
        ch != '\x1b',
    ensures
        stripped_from(seq![ch], 0, false) == seq![ch],
        !strip_end(seq![ch], 0, false),
{
    reveal_with_fuel(stripped_from, 2);
    reveal_with_fuel(strip_end, 2);
    assert(seq![ch] + Seq::<char>::empty() =~= seq![ch]);
}

/// Stripping the text that sets and resets colors around a row gives the row's characters.
proof fn lemma_strip_colored(chars: Seq<char>, colors: Seq<TermColor>, i: int, cur: TermColor)
    requires
        0 <= i <= chars.len(),
        forall|k: int| 0 <= k < chars.len() ==> chars[k] != '\x1b',
    ensures
        stripped(colored_from(chars, colors, i, cur)) == chars.subrange(i, chars.len() as int),
        !strip_end(colored_from(chars, colors, i, cur), 0, false),
    decreases chars.len() - i,
{
    lemma_strip_codes(cur);
    lemma_strip_codes(TermColor::Default);
    if i == chars.len() {
        assert(chars.subrange(i, chars.len() as int) =~= Seq::<char>::empty());
        if cur == TermColor::Default {
            assert(stripped(Seq::<char>::empty()) == Seq::<char>::empty());
        }
    } else {
        let c = colors[i];
        lemma_strip_codes(c);
        lemma_strip_colored(chars, colors, i + 1, c);
        let reset: Seq<char> = if cur != TermColor::Default { ansi_reset_seq() } else { Seq::empty() };
        let code: Seq<char> = if c != TermColor::Default { ansi_fg_seq(c) } else { Seq::empty() };
        let pre: Seq<char> = if c != cur { reset + code } else { Seq::empty() };
        let rest = colored_from(chars, colors, i + 1, c);
        let ch = seq![chars[i]];
        assert(colored_from(chars, colors, i, cur) == pre + ch + rest);
        lemma_strip_char(chars[i]);
        lemma_strip_concat(reset, code, 0, false);
        lemma_strip_concat(pre, ch, 0, false);
        lemma_strip_concat(pre + ch, rest, 0, false);
        assert(stripped_from(Seq::<char>::empty(), 0, false) =~= Seq::<char>::empty());
        assert(stripped_from(pre, 0, false) =~= Seq::<char>::empty());
        assert(!strip_end(pre, 0, false));
        assert(chars.subrange(i, chars.len() as int) =~= ch + chars.subrange(i + 1, chars.len() as int));
    }
}

/// Stripping lines joined by newlines strips each line, when each line strips to its
/// plain counterpart and leaves no escape sequence open.
proof fn lemma_strip_join(colored: Seq<Seq<char>>, plain: Seq<Seq<char>>)
    requires
        colored.len() == plain.len(),
        forall|r: int| 0 <= r < colored.len() ==> stripped(#[trigger] colored[r]) == plain[r] && !strip_end(
            colored[r],
            0,
            false,
        ),
    ensures
        stripped(join_lines(colored)) == join_lines(plain),
        !strip_end(join_lines(colored), 0, false),
    decreases colored.len(),
{
    if colored.len() == 0 {
        assert(stripped(Seq::<char>::empty()) =~= Seq::<char>::empty());
    } else if colored.len() == 1 {
        assert(stripped(colored[0]) == plain[0]);
    } else {
        let cd = colored.drop_last();
        let pd = plain.drop_last();
        assert forall|r: int| 0 <= r < cd.len() implies stripped(#[trigger] cd[r]) == pd[r] && !strip_end(
            cd[r],
            0,
            false,
        ) by {
            assert(cd[r] == colored[r]);
        }
        lemma_strip_join(cd, pd);
        let head = join_lines(cd);
        let nl = seq!['\n'];
        let last = colored.last();
        assert(stripped(last) == plain.last());
        lemma_strip_char('\n');
        lemma_strip_concat(head, nl, 0, false);
        lemma_strip_concat(head + nl, last, 0, false);
    }
}

/// Rendering a canvas with colors and stripping the color codes gives its plain
/// rendering: the two renderings differ only by color codes.
pub proof fn law_canvas_render_strips_to_plain(v: CanvasView)
    ensures
        stripped(canvas_colored_text(v)) == canvas_plain_text(v),
{
    let colored = Seq::new(v.ch, |r: int| colored_row(canvas_row_chars(v, r), canvas_row_colors(v, r)));
    let plain = Seq::new(v.ch, |r: int| canvas_row_chars(v, r));
    assert forall|r: int| 0 <= r < colored.len() implies stripped(#[trigger] colored[r]) == plain[r] && !strip_end(
        colored[r],
        0,
        false,
    ) by {
        let chars = canvas_row_chars(v, r);
        assert forall|k: int| 0 <= k < chars.len() implies chars[k] != '\x1b' by {
            let b = v.cells[r * v.cw + k];
            assert(braille_char(b) as int == 0x2800 + b);
        }
        lemma_strip_colored(chars, canvas_row_colors(v, r), 0, TermColor::Default);
        assert(chars.subrange(0, chars.len() as int) =~= chars);
    }
    lemma_strip_join(colored, plain);
}

/// Rendering a text grid with colors and stripping the color codes gives its plain
/// rendering, when no grid character is the escape character.
pub proof fn law_grid_render_strips_to_plain(v: GridView)
    requires
        forall|k: int| 0 <= k < v.chars.len() ==> v.chars[k] != '\x1b',
        v.wf(),
    ensures
        stripped(grid_colored_text(v)) == grid_plain_text(v),
{
    let colored = Seq::new(v.h, |r: int| colored_row(grid_row_chars(v, r), grid_row_colors(v, r)));
    let plain = Seq::new(v.h, |r: int| grid_row_chars(v, r));
    assert forall|r: int| 0 <= r < colored.len() implies stripped(#[trigger] colored[r]) == plain[r] && !strip_end(
        colored[r],
        0,
        false,
    ) by {
        let chars = grid_row_chars(v, r);
        assert(r * v.w + v.w <= v.w * v.h) by (nonlinear_arith)
            requires
                0 <= r < v.h,
                v.w >= 0,
        ;
        assert(0 <= r * v.w) by (nonlinear_arith)
            requires
                0 <= r,
                v.w >= 0,
        ;
        assert forall|k: int| 0 <= k < chars.len() implies chars[k] != '\x1b' by {
            assert(chars[k] == v.chars[r * v.w + k]);
        }
        lemma_strip_colored(chars, grid_row_colors(v, r), 0, TermColor::Default);
        assert(chars.subrange(0, chars.len() as int) =~= chars);
    }
    lemma_strip_join(colored, plain);
}

} // verus!
