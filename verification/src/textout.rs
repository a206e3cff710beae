//! Building output strings: Braille glyphs, ANSI-colored rows and line joining.

use vstd::prelude::*;

use crate::color::{ansi_fg_seq, ansi_reset_seq, TermColor};

verus! {

/// Appends one character to a string (`String::push`).
#[verifier::external_body]
pub(crate) fn string_push(s: &mut String, c: char)
    ensures
        final(s)@ == old(s)@.push(c),
{
    s.push(c);
}

/// The character with the given code point, if it is a Unicode scalar value
/// (`char::from_u32`).
#[verifier::external_body]
fn char_from_u32(v: u32) -> (r: Option<char>)
    ensures
        (v <= 0xD7FF || (0xE000 <= v && v <= 0x10FFFF)) ==> r == Some(v as char),
        !(v <= 0xD7FF || (0xE000 <= v && v <= 0x10FFFF)) ==> r is None,
{
    char::from_u32(v)
}

/// The Braille character whose dots are the bits of `b` (U+2800 + b).
pub open spec fn braille_char(b: u8) -> char {
    (0x2800 + b) as char
}

/// Returns the Braille character for a dot pattern.
pub fn braille_glyph(b: u8) -> (c: char)
    ensures
        c == braille_char(b),
{
    let r = char_from_u32(0x2800u32 + b as u32);
    r.unwrap()
}

/// Lines joined by `'\n'`, with no newline after the last one.
pub open spec fn join_lines(rows: Seq<Seq<char>>) -> Seq<char>
    decreases rows.len(),
{
    if rows.len() == 0 {
        Seq::empty()
    } else if rows.len() == 1 {
        rows[0]
    } else {
        join_lines(rows.drop_last()) + seq!['\n'] + rows.last()
    }
}

/// The text emitted for cells `i..` of a row of characters with per-cell colors,
/// when color `cur` is active: an escape sequence is written only where the color
/// changes (a reset when leaving a non-default color, then the new color's code when it
/// is not the default), and a final reset closes a non-default color at the end.
pub open spec fn colored_from(chars: Seq<char>, colors: Seq<TermColor>, i: int, cur: TermColor) -> Seq<
    char,
>
    decreases chars.len() - i,
{
    if i < 0 || i >= chars.len() {
        if cur != TermColor::Default {
            ansi_reset_seq()
        } else {
            Seq::empty()
        }
    } else {
        let c = colors[i];
        let pre = if c != cur {
            (if cur != TermColor::Default {
                ansi_reset_seq()
            } else {
                Seq::empty()
            }) + (if c != TermColor::Default {
                ansi_fg_seq(c)
            } else {
                Seq::empty()
            })
        } else {
            Seq::empty()
        };
        pre + seq![chars[i]] + colored_from(chars, colors, i + 1, c)
    }
}

/// A row of characters with per-cell colors, rendered with ANSI color codes.
pub open spec fn colored_row(chars: Seq<char>, colors: Seq<TermColor>) -> Seq<char> {
    colored_from(chars, colors, 0, TermColor::Default)
}


/// Appends a row of characters with per-cell colors, rendered with ANSI color codes.
pub fn push_colored_row(out: &mut String, chars: &Vec<char>, colors: &Vec<TermColor>)
    requires
        chars@.len() == colors@.len(),
    ensures
        final(out)@ == old(out)@ + colored_row(chars@, colors@),
{
    let ghost start = out@;
    let mut current = TermColor::Default;
    let mut i: usize = 0;
    while i < chars.len()
        invariant
            chars@.len() == colors@.len(),
            i <= chars@.len(),
            start + colored_row(chars@, colors@) == out@ + colored_from(chars@, colors@, i as int, current),
        decreases chars.len() - i,
    {
        let color = colors[i];
        let ghost before = out@;
        let ghost cur0 = current;
        if color != current {
            if current != TermColor::Default {
                out.append(TermColor::ansi_reset());
            }
            if color != TermColor::Default {
                out.append(color.ansi_fg());
            }
            current = color;
        }
        string_push(out, chars[i]);
        proof {
            let pre = if color != cur0 {
                (if cur0 != TermColor::Default {
                    ansi_reset_seq()
                } else {
                    Seq::empty()
                }) + (if color != TermColor::Default {
                    ansi_fg_seq(color)
                } else {
                    Seq::empty()
                })
            } else {
                Seq::empty()
            };
            assert(out@ =~= before + pre + seq![chars@[i as int]]);
            assert(colored_from(chars@, colors@, i as int, cur0) == pre + seq![chars@[i as int]]
                + colored_from(chars@, colors@, i + 1, color));
            assert(current == color);
        }
        i += 1;
    }
    let ghost before = out@;
    if current != TermColor::Default {
        out.append(TermColor::ansi_reset());
    }
    assert(out@ =~= before + colored_from(chars@, colors@, i as int, current));
}

/// Appends a sequence of characters.
pub fn push_chars(out: &mut String, chars: &Vec<char>)
    ensures
        final(out)@ == old(out)@ + chars@,
{
    let ghost start = out@;
    let mut i: usize = 0;
    while i < chars.len()
        invariant
            i <= chars@.len(),
            out@ == start + chars@.take(i as int),
        decreases chars.len() - i,
    {
        string_push(out, chars[i]);
        i += 1;
        assert(out@ =~= start + chars@.take(i as int));
    }
    assert(chars@.take(chars@.len() as int) =~= chars@);
}

/// Joining one more line onto a prefix of lines.
pub proof fn lemma_join_lines_push(rows: Seq<Seq<char>>, r: int)
    requires
        0 <= r < rows.len(),
    ensures
        join_lines(rows.take(r + 1)) == (if r == 0 {
            rows[0]
        } else {
            join_lines(rows.take(r)) + seq!['\n'] + rows[r]
        }),
{
    assert(rows.take(r + 1).drop_last() =~= rows.take(r));
}

/// Whether `s` holds the color code of a non-default color at index `i`.
pub open spec fn color_code_at(s: Seq<char>, i: int) -> bool {
    &&& 0 <= i
    &&& i + 5 <= s.len()
    &&& exists|c: TermColor| c != TermColor::Default && #[trigger] ansi_fg_seq(c) == s.subrange(i, i + 5)
}

/// Whether `s` holds the reset sequence at index `i`.
pub open spec fn reset_at(s: Seq<char>, i: int) -> bool {
    0 <= i && i + 4 <= s.len() && s.subrange(i, i + 4) == ansi_reset_seq()
}

/// Every escape character of `s` starts a color code or the reset sequence.
pub open spec fn escapes_are_codes(s: Seq<char>) -> bool {
    forall|i: int| 0 <= i < s.len() && #[trigger] s[i] == '\x1b' ==> color_code_at(s, i) || reset_at(s, i)
}

/// Whether `s` ends with the reset sequence.
pub open spec fn ends_with_reset(s: Seq<char>) -> bool {
    s.len() >= 4 && s.subrange(s.len() - 4, s.len() as int) == ansi_reset_seq()
}

proof fn lemma_codes_concat(a: Seq<char>, b: Seq<char>)
    requires
        escapes_are_codes(a),
        escapes_are_codes(b),
    ensures
        escapes_are_codes(a + b),
{
    let s = a + b;
    assert forall|i: int| 0 <= i < s.len() && #[trigger] s[i] == '\x1b' implies color_code_at(s, i) || reset_at(
        s,
        i,
    ) by {
        if i < a.len() {
            assert(a[i] == '\x1b');
            if color_code_at(a, i) {
                let c = choose|c: TermColor| c != TermColor::Default && #[trigger] ansi_fg_seq(c) == a.subrange(i, i + 5);
                assert(s.subrange(i, i + 5) =~= a.subrange(i, i + 5));
                assert(ansi_fg_seq(c) == s.subrange(i, i + 5));
            } else {
                assert(s.subrange(i, i + 4) =~= a.subrange(i, i + 4));
            }
        } else {
            let j = i - a.len();
            assert(b[j] == '\x1b');
            if color_code_at(b, j) {
                let c = choose|c: TermColor| c != TermColor::Default && #[trigger] ansi_fg_seq(c) == b.subrange(j, j + 5);
                assert(s.subrange(i, i + 5) =~= b.subrange(j, j + 5));
                assert(ansi_fg_seq(c) == s.subrange(i, i + 5));
            } else {
                assert(s.subrange(i, i + 4) =~= b.subrange(j, j + 4));
            }
        }
    }
}

proof fn lemma_codes_plain(s: Seq<char>)
    requires
        forall|k: int| 0 <= k < s.len() ==> s[k] != '\x1b',
    ensures
        escapes_are_codes(s),
{
}

proof fn lemma_codes_fg(c: TermColor)
    ensures
        escapes_are_codes(ansi_fg_seq(c)),
{
    let s = ansi_fg_seq(c);
    if c != TermColor::Default {
        assert(s.subrange(0, 5) =~= s);
        assert(color_code_at(s, 0));
    }
}

proof fn lemma_codes_reset()
    ensures
        escapes_are_codes(ansi_reset_seq()),
{
    let s = ansi_reset_seq();
    assert(s.subrange(0, 4) =~= s);
}

/// A colored row of characters without escapes has escapes only in its color codes.
pub proof fn lemma_codes_colored(chars: Seq<char>, colors: Seq<TermColor>, i: int, cur: TermColor)
    requires
        0 <= i <= chars.len(),
        forall|k: int| 0 <= k < chars.len() ==> chars[k] != '\x1b',
    ensures
        escapes_are_codes(colored_from(chars, colors, i, cur)),
    decreases chars.len() - i,
{
    lemma_codes_reset();
    lemma_codes_plain(Seq::<char>::empty());
    if i < chars.len() {
        let c = colors[i];
        lemma_codes_fg(c);
        let r = if cur != TermColor::Default { ansi_reset_seq() } else { Seq::<char>::empty() };
        let f = if c != TermColor::Default { ansi_fg_seq(c) } else { Seq::<char>::empty() };
        lemma_codes_concat(r, f);
        let pre = if c != cur { r + f } else { Seq::<char>::empty() };
        lemma_codes_plain(seq![chars[i]]);
        lemma_codes_concat(pre, seq![chars[i]]);
        lemma_codes_colored(chars, colors, i + 1, c);
        lemma_codes_concat(pre + seq![chars[i]], colored_from(chars, colors, i + 1, c));
    }
}

/// Joining lines whose escapes are color codes keeps that property.
pub proof fn lemma_codes_join(rows: Seq<Seq<char>>)
    requires
        forall|r: int| 0 <= r < rows.len() ==> escapes_are_codes(#[trigger] rows[r]),
    ensures
        escapes_are_codes(join_lines(rows)),
    decreases rows.len(),
{
    if rows.len() == 1 {
        assert(escapes_are_codes(rows[0]));
    } else if rows.len() > 1 {
        lemma_codes_join(rows.drop_last());
        lemma_codes_plain(seq!['\n']);
        lemma_codes_concat(join_lines(rows.drop_last()), seq!['\n']);
        assert(escapes_are_codes(rows[rows.len() - 1]));
        lemma_codes_concat(join_lines(rows.drop_last()) + seq!['\n'], rows.last());
    }
}

/// With every color the default, a colored row is the plain row: no escape at all.
pub proof fn lemma_colored_default(chars: Seq<char>, colors: Seq<TermColor>, i: int)
    requires
        0 <= i <= chars.len(),
        forall|k: int| i <= k < chars.len() ==> colors[k] == TermColor::Default,
    ensures
        colored_from(chars, colors, i, TermColor::Default) == chars.subrange(i, chars.len() as int),
    decreases chars.len() - i,
{
    if i < chars.len() {
        lemma_colored_default(chars, colors, i + 1);
        assert(seq![chars[i]] + chars.subrange(i + 1, chars.len() as int) =~= chars.subrange(
            i,
            chars.len() as int,
        ));
    } else {
        assert(chars.subrange(i, chars.len() as int) =~= Seq::<char>::empty());
    }
}

proof fn lemma_ends_with_reset_append(a: Seq<char>, b: Seq<char>)
    requires
        ends_with_reset(b),
    ensures
        ends_with_reset(a + b),
{
    assert((a + b).subrange((a + b).len() - 4, (a + b).len() as int) =~= b.subrange(b.len() - 4, b.len() as int));
}

/// A colored row whose last cell has a non-default color closes it with a reset.
pub proof fn lemma_colored_closes(chars: Seq<char>, colors: Seq<TermColor>, i: int, cur: TermColor)
    requires
        0 <= i <= chars.len(),
        chars.len() == colors.len(),
        (if i < chars.len() { colors[chars.len() - 1] } else { cur }) != TermColor::Default,
    ensures
        ends_with_reset(colored_from(chars, colors, i, cur)),
    decreases chars.len() - i,
{
    if i < chars.len() {
        let c = colors[i];
        lemma_colored_closes(chars, colors, i + 1, c);
        let rest = colored_from(chars, colors, i + 1, c);
        let pre = if c != cur {
            (if cur != TermColor::Default { ansi_reset_seq() } else { Seq::empty() }) + (if c
                != TermColor::Default {
                ansi_fg_seq(c)
            } else {
                Seq::empty()
            })
        } else {
            Seq::empty()
        };
        lemma_ends_with_reset_append(pre + seq![chars[i]], rest);
    } else {
        assert(ansi_reset_seq().subrange(0, 4) =~= ansi_reset_seq());
    }
}

/// The color an SGR foreground digit selects (`3d`): 1 red, 2 green, 3 yellow, 4 blue,
/// 5 magenta, 6 cyan, 7 white; any other digit the default.
pub open spec fn digit_color(d: char) -> TermColor {
    if d == '1' {
        TermColor::Red
    } else if d == '2' {
        TermColor::Green
    } else if d == '3' {
        TermColor::Yellow
    } else if d == '4' {
        TermColor::Blue
    } else if d == '5' {
        TermColor::Magenta
    } else if d == '6' {
        TermColor::Cyan
    } else if d == '7' {
        TermColor::White
    } else {
        TermColor::Default
    }
}

/// What a terminal shows for text `s` when color `cur` is in effect: each printed
/// character with the color in effect at it. `ESC [ 0 m` resets to the default color,
/// `ESC [ 3 d m` selects the foreground color of digit `d`; they print nothing.
pub open spec fn shown_cells(s: Seq<char>, cur: TermColor) -> Seq<(char, TermColor)>
    decreases s.len(),
{
    if s.len() == 0 {
        Seq::empty()
    } else if s.len() >= 4 && s[0] == '\x1b' && s[1] == '[' && s[2] == '0' && s[3] == 'm' {
        shown_cells(s.skip(4), TermColor::Default)
    } else if s.len() >= 5 && s[0] == '\x1b' && s[1] == '[' && s[2] == '3' && s[4] == 'm' {
        shown_cells(s.skip(5), digit_color(s[3]))
    } else {
        seq![(s[0], cur)] + shown_cells(s.skip(1), cur)
    }
}

proof fn lemma_shown_reset(y: Seq<char>, cur: TermColor)
    ensures
        shown_cells(ansi_reset_seq() + y, cur) == shown_cells(y, TermColor::Default),
{
    let s = ansi_reset_seq() + y;
    assert(s[0] == '\x1b' && s[1] == '[' && s[2] == '0' && s[3] == 'm');
    assert(s.skip(4) =~= y);
}

proof fn lemma_shown_fg(c: TermColor, y: Seq<char>, cur: TermColor)
    requires
        c != TermColor::Default,
    ensures
        shown_cells(ansi_fg_seq(c) + y, cur) == shown_cells(y, c),
{
    let s = ansi_fg_seq(c) + y;
    assert(s[0] == '\x1b' && s[1] == '[' && s[2] == '3' && s[4] == 'm');
    assert(digit_color(s[3]) == c);
    assert(s.skip(5) =~= y);
}

proof fn lemma_shown_char(ch: char, y: Seq<char>, cur: TermColor)
    requires
        ch != '\x1b',
    ensures
        shown_cells(seq![ch] + y, cur) == seq![(ch, cur)] + shown_cells(y, cur),
{
    let s = seq![ch] + y;
    assert(s.skip(1) =~= y);
}

proof fn lemma_shown_colored(chars: Seq<char>, colors: Seq<TermColor>, i: int, cur: TermColor)
    requires
        0 <= i <= chars.len(),
        chars.len() == colors.len(),
        forall|k: int| 0 <= k < chars.len() ==> chars[k] != '\x1b',
    ensures
        shown_cells(colored_from(chars, colors, i, cur), cur) == Seq::new(
            (chars.len() - i) as nat,
            |k: int| (chars[i + k], colors[i + k]),
        ),
    decreases chars.len() - i,
{
    let want = Seq::new((chars.len() - i) as nat, |k: int| (chars[i + k], colors[i + k]));
    if i >= chars.len() {
        if cur != TermColor::Default {
            lemma_shown_reset(Seq::empty(), cur);
            assert(ansi_reset_seq() + Seq::<char>::empty() =~= ansi_reset_seq());
        }
        assert(want =~= Seq::<(char, TermColor)>::empty());
    } else {
        let c = colors[i];
        let rest = colored_from(chars, colors, i + 1, c);
        lemma_shown_colored(chars, colors, i + 1, c);
        let tail = seq![chars[i]] + rest;
        lemma_shown_char(chars[i], rest, c);
        let r = if cur != TermColor::Default { ansi_reset_seq() } else { Seq::<char>::empty() };
        let f = if c != TermColor::Default { ansi_fg_seq(c) } else { Seq::<char>::empty() };
        if c != cur {
            assert((r + f) + seq![chars[i]] + rest =~= r + (f + tail));
            if c != TermColor::Default {
                lemma_shown_fg(c, tail, TermColor::Default);
                lemma_shown_fg(c, tail, cur);
            } else {
                assert(f + tail =~= tail);
            }
            if cur != TermColor::Default {
                lemma_shown_reset(f + tail, cur);
            } else {
                assert(r + (f + tail) =~= f + tail);
            }
        } else {
            assert(Seq::<char>::empty() + seq![chars[i]] + rest =~= tail);
        }
        let sub = Seq::new((chars.len() - (i + 1)) as nat, |k: int| (chars[i + 1 + k], colors[i + 1 + k]));
        assert(want =~= seq![(chars[i], c)] + sub);
    }
}

/// A terminal shows a colored row as its characters each in its own color: rendering
/// a row of characters (none of them the escape character) with per-cell colors and
/// reading it back, cell `k` is `chars[k]` shown in `colors[k]`.
pub proof fn law_colored_row_shows_cell_colors(chars: Seq<char>, colors: Seq<TermColor>)
    requires
        chars.len() == colors.len(),
        forall|k: int| 0 <= k < chars.len() ==> chars[k] != '\x1b',
    ensures
        shown_cells(colored_row(chars, colors), TermColor::Default) == Seq::new(
            chars.len(),
            |k: int| (chars[k], colors[k]),
        ),
{
    lemma_shown_colored(chars, colors, 0, TermColor::Default);
    assert(Seq::new(chars.len(), |k: int| (chars[k], colors[k])) =~= Seq::new(
        (chars.len() - 0) as nat,
        |k: int| (chars[0 + k], colors[0 + k]),
    ));
}

/// Rows joined with the separator `sep` between consecutive rows.
pub open spec fn join_rows<A>(rows: Seq<Seq<A>>, sep: A) -> Seq<A>
    decreases rows.len(),
{
    if rows.len() == 0 {
        Seq::empty()
    } else if rows.len() == 1 {
        rows[0]
    } else {
        join_rows(rows.drop_last(), sep) + seq![sep] + rows.last()
    }
}

/// The cells of a row: each character with its color.
pub open spec fn row_cells(chars: Seq<char>, colors: Seq<TermColor>) -> Seq<(char, TermColor)> {
    Seq::new(chars.len(), |k: int| (chars[k], colors[k]))
}

proof fn lemma_shown_colored_then(chars: Seq<char>, colors: Seq<TermColor>, i: int, cur: TermColor, y: Seq<char>)
    requires
        0 <= i <= chars.len(),
        chars.len() == colors.len(),
        forall|k: int| 0 <= k < chars.len() ==> chars[k] != '\x1b',
    ensures
        shown_cells(colored_from(chars, colors, i, cur) + y, cur) == Seq::new(
            (chars.len() - i) as nat,
            |k: int| (chars[i + k], colors[i + k]),
        ) + shown_cells(y, TermColor::Default),
    decreases chars.len() - i,
{
    let want = Seq::new((chars.len() - i) as nat, |k: int| (chars[i + k], colors[i + k]));
    if i >= chars.len() {
        if cur != TermColor::Default {
            lemma_shown_reset(y, cur);
        } else {
            assert(Seq::<char>::empty() + y =~= y);
        }
        assert(want =~= Seq::<(char, TermColor)>::empty());
        assert(want + shown_cells(y, TermColor::Default) =~= shown_cells(y, TermColor::Default));
    } else {
        let c = colors[i];
        let rest = colored_from(chars, colors, i + 1, c);
        lemma_shown_colored_then(chars, colors, i + 1, c, y);
        let tail = seq![chars[i]] + (rest + y);
        lemma_shown_char(chars[i], rest + y, c);
        let r = if cur != TermColor::Default { ansi_reset_seq() } else { Seq::<char>::empty() };
        let f = if c != TermColor::Default { ansi_fg_seq(c) } else { Seq::<char>::empty() };
        if c != cur {
            assert((r + f) + seq![chars[i]] + rest + y =~= r + (f + tail));
            if c != TermColor::Default {
                lemma_shown_fg(c, tail, TermColor::Default);
                lemma_shown_fg(c, tail, cur);
            } else {
                assert(f + tail =~= tail);
            }
            if cur != TermColor::Default {
                lemma_shown_reset(f + tail, cur);
            } else {
                assert(r + (f + tail) =~= f + tail);
            }
        } else {
            assert(Seq::<char>::empty() + seq![chars[i]] + rest + y =~= tail);
        }
        let sub = Seq::new((chars.len() - (i + 1)) as nat, |k: int| (chars[i + 1 + k], colors[i + 1 + k]));
        assert(want =~= seq![(chars[i], c)] + sub);
        assert(seq![(chars[i], c)] + (sub + shown_cells(y, TermColor::Default)) =~= want + shown_cells(
            y,
            TermColor::Default,
        ));
    }
}

/// Colored rows joined by newlines, then more text: a terminal shows the rows' cells
/// with a default-colored newline between rows, then the rest from the default color.
pub proof fn lemma_shown_join(cs: Seq<Seq<char>>, ks: Seq<Seq<TermColor>>, y: Seq<char>)
    requires
        cs.len() == ks.len(),
        forall|r: int| 0 <= r < cs.len() ==> (#[trigger] cs[r]).len() == ks[r].len(),
        forall|r: int, k: int| 0 <= r < cs.len() && 0 <= k < cs[r].len() ==> #[trigger] cs[r][k] != '\x1b',
    ensures
        shown_cells(join_lines(Seq::new(cs.len(), |r: int| colored_row(cs[r], ks[r]))) + y, TermColor::Default)
            == join_rows(Seq::new(cs.len(), |r: int| row_cells(cs[r], ks[r])), ('\n', TermColor::Default))
            + shown_cells(y, TermColor::Default),
    decreases cs.len(),
{
    let rows = Seq::new(cs.len(), |r: int| colored_row(cs[r], ks[r]));
    let cells = Seq::new(cs.len(), |r: int| row_cells(cs[r], ks[r]));
    let sep = ('\n', TermColor::Default);
    if cs.len() == 0 {
        assert(Seq::<char>::empty() + y =~= y);
        assert(Seq::<(char, TermColor)>::empty() + shown_cells(y, TermColor::Default) =~= shown_cells(
            y,
            TermColor::Default,
        ));
    } else {
        let n = cs.len() - 1;
        let last_c = cs[n];
        let last_k = ks[n];
        assert(forall|k: int| 0 <= k < last_c.len() ==> last_c[k] != '\x1b');
        lemma_shown_colored_then(last_c, last_k, 0, TermColor::Default, y);
        let lc = Seq::new((last_c.len() - 0) as nat, |k: int| (last_c[0 + k], last_k[0 + k]));
        assert(lc =~= row_cells(last_c, last_k));
        if cs.len() == 1 {
            assert(join_lines(rows) == rows[0]);
            assert(join_rows(cells, sep) == cells[0]);
        } else {
            let cs2 = cs.drop_last();
            let ks2 = ks.drop_last();
            let tail = seq!['\n'] + (colored_row(last_c, last_k) + y);
            lemma_shown_join(cs2, ks2, tail);
            assert(Seq::new(cs2.len(), |r: int| colored_row(cs2[r], ks2[r])) =~= rows.drop_last());
            assert(Seq::new(cs2.len(), |r: int| row_cells(cs2[r], ks2[r])) =~= cells.drop_last());
            assert(join_lines(rows) + y =~= join_lines(rows.drop_last()) + tail);
            lemma_shown_char('\n', colored_row(last_c, last_k) + y, TermColor::Default);
            assert(join_rows(cells, sep) + shown_cells(y, TermColor::Default) =~= join_rows(cells.drop_last(), sep)
                + (seq![sep] + (row_cells(last_c, last_k) + shown_cells(y, TermColor::Default))));
        }
    }
}

} // verus!
