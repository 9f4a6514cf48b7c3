use vstd::prelude::*;

use crate::text::{
    chars_of, decimal_chars, find_char, first_index_of, lemma_decimal_chars,
    lemma_first_index_is, lemma_first_index_of, lemma_parse_decimal_chars, parse_decimal_chars,
    parse_unsigned, trim_bounds, trim_chars, trim_end_chars, trim_start_chars,
};

verus! {

/// The escape character that starts an ANSI sequence.
pub const ESC: char = '\u{1b}';

/// The sixteen foreground colors that SGR codes 30–37 and 90–97 select.
#[derive(Clone, Copy, Debug, PartialEq, Eq, Structural)]
pub enum AnsiColor {
    Black,
    Red,
    Green,
    Yellow,
    Blue,
    Magenta,
    Cyan,
    White,
    BrightBlack,
    BrightRed,
    BrightGreen,
    BrightYellow,
    BrightBlue,
    BrightMagenta,
    BrightCyan,
    BrightWhite,
}

/// The color that an SGR code selects: 30–37 the standard colors, 90–97 the
/// bright ones; every other code selects none.
pub open spec fn color_of_code(code: nat) -> Option<AnsiColor> {
    if code == 30 {
        Some(AnsiColor::Black)
    } else if code == 31 {
        Some(AnsiColor::Red)
    } else if code == 32 {
        Some(AnsiColor::Green)
    } else if code == 33 {
        Some(AnsiColor::Yellow)
    } else if code == 34 {
        Some(AnsiColor::Blue)
    } else if code == 35 {
        Some(AnsiColor::Magenta)
    } else if code == 36 {
        Some(AnsiColor::Cyan)
    } else if code == 37 {
        Some(AnsiColor::White)
    } else if code == 90 {
        Some(AnsiColor::BrightBlack)
    } else if code == 91 {
        Some(AnsiColor::BrightRed)
    } else if code == 92 {
        Some(AnsiColor::BrightGreen)
    } else if code == 93 {
        Some(AnsiColor::BrightYellow)
    } else if code == 94 {
        Some(AnsiColor::BrightBlue)
    } else if code == 95 {
        Some(AnsiColor::BrightMagenta)
    } else if code == 96 {
        Some(AnsiColor::BrightCyan)
    } else if code == 97 {
        Some(AnsiColor::BrightWhite)
    } else {
        None
    }
}

/// The color that an SGR code selects, if any.
pub fn ansi_color(code: u8) -> (c: Option<AnsiColor>)
    ensures
        c == color_of_code(code as nat),
        c is Some <==> (30 <= code <= 37 || 90 <= code <= 97),
{
    match code {
        30 => Some(AnsiColor::Black),
        31 => Some(AnsiColor::Red),
        32 => Some(AnsiColor::Green),
        33 => Some(AnsiColor::Yellow),
        34 => Some(AnsiColor::Blue),
        35 => Some(AnsiColor::Magenta),
        36 => Some(AnsiColor::Cyan),
        37 => Some(AnsiColor::White),
        90 => Some(AnsiColor::BrightBlack),
        91 => Some(AnsiColor::BrightRed),
        92 => Some(AnsiColor::BrightGreen),
        93 => Some(AnsiColor::BrightYellow),
        94 => Some(AnsiColor::BrightBlue),
        95 => Some(AnsiColor::BrightMagenta),
        96 => Some(AnsiColor::BrightCyan),
        97 => Some(AnsiColor::BrightWhite),
        _ => None,
    }
}

/// The color in force after one SGR parameter: a parameter that reads, once
/// trimmed, as the code 0 resets the color, one that reads as a color code
/// selects that color, and any other leaves the color as it was.
pub open spec fn sgr_param_color(color: Option<AnsiColor>, param: Seq<char>) -> Option<
    AnsiColor,
> {
    match parse_unsigned(trim_chars(param), 255) {
        Some(code) => if code == 0 {
            None
        } else {
            match color_of_code(code) {
                Some(c) => Some(c),
                None => color,
            }
        },
        None => color,
    }
}

/// The color in force after the `;`-separated SGR parameters `params`, taken
/// from left to right.
pub open spec fn sgr_color(color: Option<AnsiColor>, params: Seq<char>) -> Option<AnsiColor>
    decreases params.len(),
{
    match first_index_of(params, ';') {
        Some(k) => {
            proof {
                lemma_first_index_of(params, ';');
            }
            sgr_color(sgr_param_color(color, params.take(k)), params.skip(k + 1))
        },
        None => sgr_param_color(color, params),
    }
}

/// The styled pieces of `rem`, read with `color` in force at its start.
/// Text up to the next escape character is one piece in the current color.
/// An escape character followed by `[` and, somewhere later, by `m` is an SGR
/// sequence: it changes the color and shows nothing. Any other escape
/// character is dropped.
pub open spec fn ansi_segments(rem: Seq<char>, color: Option<AnsiColor>) -> Seq<
    (Seq<char>, Option<AnsiColor>),
>
    decreases rem.len(),
{
    if rem.len() == 0 {
        seq![]
    } else {
        match first_index_of(rem, ESC) {
            None => seq![(rem, color)],
            Some(p) => {
                proof {
                    lemma_first_index_of(rem, ESC);
                }
                let before = if p > 0 {
                    seq![(rem.take(p), color)]
                } else {
                    Seq::empty()
                };
                let at = rem.skip(p);
                match sgr_end(at) {
                    Some(m) => {
                        proof {
                            lemma_first_index_of(at, 'm');
                        }
                        before + ansi_segments(at.skip(m + 1), sgr_color(color, at.subrange(2, m)))
                    },
                    None => before + ansi_segments(at.skip(1), color),
                }
            },
        }
    }
}

/// Where the SGR sequence at the start of `at` ends: at the first `m`, when
/// `at` starts with an escape character and `[` and holds an `m` at all.
pub open spec fn sgr_end(at: Seq<char>) -> Option<int> {
    if at.len() >= 2 && at[0] == ESC && at[1] == '[' {
        first_index_of(at, 'm')
    } else {
        None
    }
}

/// The text and color of each piece, by value.
pub open spec fn segments_view(v: Seq<(String, Option<AnsiColor>)>) -> Seq<
    (Seq<char>, Option<AnsiColor>),
> {
    v.map_values(|p: (String, Option<AnsiColor>)| (p.0@, p.1))
}

/// The color after one SGR parameter, `chars[from..to]`.
fn apply_sgr_param(chars: &Vec<char>, from: usize, to: usize, color: Option<AnsiColor>) -> (r:
    Option<AnsiColor>)
    requires
        from <= to <= chars@.len(),
    ensures
        r == sgr_param_color(color, chars@.subrange(from as int, to as int)),
{
    let (start, end) = trim_bounds(chars, from, to);
    match parse_decimal_chars(chars, start, end, 255) {
        Some(code) => {
            if code == 0 {
                None
            } else {
                match ansi_color(code as u8) {
                    Some(c) => Some(c),
                    None => color,
                }
            }
        },
        None => color,
    }
}

/// The color after the SGR parameters `chars[from..to]`.
fn apply_sgr_params(chars: &Vec<char>, from: usize, to: usize, color: Option<AnsiColor>) -> (r:
    Option<AnsiColor>)
    requires
        from <= to <= chars@.len(),
    ensures
        r == sgr_color(color, chars@.subrange(from as int, to as int)),
{
    let mut start = from;
    let mut current = color;
    while start <= to
        invariant
            from <= start <= to <= chars@.len(),
            sgr_color(color, chars@.subrange(from as int, to as int)) == sgr_color(
                current,
                chars@.subrange(start as int, to as int),
            ),
        decreases to - start,
    {
        let ghost params = chars@.subrange(start as int, to as int);
        match find_char(chars, start, to, ';') {
            Some(k) => {
                assert(params.take(k - start) =~= chars@.subrange(start as int, k as int));
                assert(params.skip(k - start + 1) =~= chars@.subrange(k + 1, to as int));
                current = apply_sgr_param(chars, start, k, current);
                start = k + 1;
            },
            None => {
                return apply_sgr_param(chars, start, to, current);
            },
        }
    }
    current
}

/// Splits text with ANSI color codes into pieces of text, each with the color
/// in force over it.
pub fn parse_ansi(input: &str) -> (r: Vec<(String, Option<AnsiColor>)>)
    ensures
        segments_view(r@) == ansi_segments(input@, None),
{
    let chars = chars_of(input);
    let n = chars.len();
    let mut result: Vec<(String, Option<AnsiColor>)> = Vec::new();
    let mut color: Option<AnsiColor> = None;
    let mut pos: usize = 0;
    assert(chars@.skip(0) =~= chars@);
    while pos < n
        invariant
            chars@ == input@,
            n == chars@.len(),
            pos <= n,
            segments_view(result@) + ansi_segments(chars@.skip(pos as int), color)
                == ansi_segments(input@, None),
        decreases n - pos,
    {
        let ghost rem = chars@.skip(pos as int);
        let ghost before = segments_view(result@);
        assert(chars@.subrange(pos as int, n as int) =~= rem);
        match find_char(&chars, pos, n, ESC) {
            None => {
                let piece = input.substring_char(pos, n).to_owned();
                result.push((piece, color));
                assert(segments_view(result@) =~= before + seq![(rem, color)]);
                pos = n;
                assert(chars@.skip(pos as int) =~= Seq::<char>::empty());
            },
            Some(e) => {
                let ghost p = e - pos;
                proof {
                    lemma_first_index_of(rem, ESC);
                }
                if e > pos {
                    let piece = input.substring_char(pos, e).to_owned();
                    result.push((piece, color));
                    assert(rem.take(p) =~= chars@.subrange(pos as int, e as int));
                    assert(segments_view(result@) =~= before + seq![(rem.take(p), color)]);
                } else {
                    assert(segments_view(result@) =~= before + Seq::empty());
                }
                let ghost at = rem.skip(p);
                assert(at =~= chars@.subrange(e as int, n as int));
                assert(at.skip(1) =~= chars@.skip(e + 1));
                let mut handled = false;
                if e + 1 < n && chars[e + 1] == '[' {
                    match find_char(&chars, e, n, 'm') {
                        Some(m) => {
                            proof {
                                lemma_first_index_of(at, 'm');
                            }
                            assert(at.subrange(2, m - e) =~= chars@.subrange(e + 2, m as int));
                            assert(at.skip(m - e + 1) =~= chars@.skip(m + 1));
                            color = apply_sgr_params(&chars, e + 2, m, color);
                            pos = m + 1;
                            handled = true;
                        },
                        None => {},
                    }
                }
                if !handled {
                    pos = e + 1;
                }
            },
        }
    }
    assert(chars@.skip(pos as int) =~= Seq::<char>::empty());
    result
}

/// Every piece that `parse_ansi` gives holds some text and no escape
/// character.
pub proof fn lemma_segments_visible(rem: Seq<char>, color: Option<AnsiColor>)
    ensures
        forall|i: int|
            0 <= i < ansi_segments(rem, color).len() ==> {
                let piece = #[trigger] ansi_segments(rem, color)[i].0;
                piece.len() > 0 && !piece.contains(ESC)
            },
    decreases rem.len(),
{
    if rem.len() > 0 {
        lemma_first_index_of(rem, ESC);
        match first_index_of(rem, ESC) {
            None => {},
            Some(p) => {
                let at = rem.skip(p);
                lemma_first_index_of(at, 'm');
                let before = if p > 0 {
                    seq![(rem.take(p), color)]
                } else {
                    Seq::empty()
                };
                assert(forall|i: int| 0 <= i < before.len() ==> #[trigger] before[i].0 == rem.take(p));
                match sgr_end(at) {
                    Some(m) => {
                        let next = sgr_color(color, at.subrange(2, m));
                        lemma_segments_visible(at.skip(m + 1), next);
                        assert(ansi_segments(rem, color) == before + ansi_segments(at.skip(m + 1), next));
                    },
                    None => {
                        lemma_segments_visible(at.skip(1), color);
                        assert(ansi_segments(rem, color) == before + ansi_segments(at.skip(1), color));
                    },
                }
            },
        }
    }
}

/// Text without escape characters is one piece with no color (or none at
/// all when it is empty).
pub proof fn lemma_plain_text(text: Seq<char>)
    requires
        !text.contains(ESC),
    ensures
        ansi_segments(text, None) == (if text.len() == 0 {
            Seq::empty()
        } else {
            seq![(text, None::<AnsiColor>)]
        }),
{
    lemma_first_index_of(text, ESC);
}

/// The colors of the SGR codes: 30–37 black, red, green, yellow, blue,
/// magenta, cyan, white; 90–97 the same, bright.
pub proof fn lemma_color_table()
    ensures
        color_of_code(30) == Some(AnsiColor::Black),
        color_of_code(31) == Some(AnsiColor::Red),
        color_of_code(32) == Some(AnsiColor::Green),
        color_of_code(33) == Some(AnsiColor::Yellow),
        color_of_code(34) == Some(AnsiColor::Blue),
        color_of_code(35) == Some(AnsiColor::Magenta),
        color_of_code(36) == Some(AnsiColor::Cyan),
        color_of_code(37) == Some(AnsiColor::White),
        color_of_code(90) == Some(AnsiColor::BrightBlack),
        color_of_code(91) == Some(AnsiColor::BrightRed),
        color_of_code(92) == Some(AnsiColor::BrightGreen),
        color_of_code(93) == Some(AnsiColor::BrightYellow),
        color_of_code(94) == Some(AnsiColor::BrightBlue),
        color_of_code(95) == Some(AnsiColor::BrightMagenta),
        color_of_code(96) == Some(AnsiColor::BrightCyan),
        color_of_code(97) == Some(AnsiColor::BrightWhite),
        forall|c: nat| !(30 <= c <= 37 || 90 <= c <= 97) ==> color_of_code(c) is None,
{
}

/// Text without escape characters is one piece in the color in force (or
/// none at all when it is empty).
pub proof fn lemma_plain_text_in_color(text: Seq<char>, color: Option<AnsiColor>)
    requires
        !text.contains(ESC),
    ensures
        ansi_segments(text, color) == (if text.len() == 0 {
            Seq::empty()
        } else {
            seq![(text, color)]
        }),
{
    lemma_first_index_of(text, ESC);
}

/// The text of an SGR sequence with the single code `code`: escape, `[`, the
/// code in decimal, `m`.
pub open spec fn sgr_sequence(code: nat) -> Seq<char> {
    seq![ESC, '['] + decimal_chars(code) + seq!['m']
}

/// An SGR sequence holding one color code colors the text after it with the
/// color of that code, and one holding 0 leaves it uncolored, whatever color
/// was in force before.
pub proof fn lemma_single_code_colors(code: nat, text: Seq<char>, before: Option<AnsiColor>)
    requires
        code == 0 || 30 <= code <= 37 || 90 <= code <= 97,
        text.len() > 0,
        !text.contains(ESC),
    ensures
        ansi_segments(sgr_sequence(code) + text, before) == seq![
            (text, if code == 0 { None } else { color_of_code(code) }),
        ],
{
    lemma_code_sequence(code, text, before);
    lemma_plain_text_in_color(text, code_effect(code, before));
}

/// What one SGR code does to the color in force: 0 resets it, a color code
/// (30–37, 90–97) selects that code's color, and any other code leaves it.
pub open spec fn code_effect(code: nat, color: Option<AnsiColor>) -> Option<AnsiColor> {
    if code == 0 {
        None
    } else if 30 <= code <= 37 || 90 <= code <= 97 {
        color_of_code(code)
    } else {
        color
    }
}

/// The digits of a code, trimmed and read as a `u8` code, give the code's
/// effect.
proof fn lemma_digits_param(code: nat, color: Option<AnsiColor>)
    ensures
        sgr_param_color(color, decimal_chars(code)) == code_effect(code, color),
        !decimal_chars(code).contains(';'),
        !decimal_chars(code).contains('m'),
        !decimal_chars(code).contains(ESC),
        decimal_chars(code).len() > 0,
{
    let d = decimal_chars(code);
    lemma_decimal_chars(code);
    assert(trim_start_chars(d) == d);
    assert(trim_end_chars(d) == d);
    if code <= 255 {
        lemma_parse_decimal_chars(code, 255);
    }
    assert forall|j: int| 0 <= j < d.len() implies d[j] != ';' && d[j] != 'm' && d[j] != ESC by {
        assert(crate::text::is_decimal_digit(d[j]));
    }
}

/// An SGR sequence holding one code changes the color in force for the rest
/// of the text as that code does, and shows nothing itself.
pub proof fn lemma_code_sequence(code: nat, rest: Seq<char>, before: Option<AnsiColor>)
    ensures
        ansi_segments(sgr_sequence(code) + rest, before) == ansi_segments(
            rest,
            code_effect(code, before),
        ),
{
    let d = decimal_chars(code);
    lemma_digits_param(code, before);
    let s = sgr_sequence(code) + rest;
    let m: int = 2 + d.len() as int;
    assert(s[0] == ESC);
    lemma_first_index_is(s, ESC, 0);
    assert(s.skip(0) =~= s);
    assert forall|j: int| 0 <= j < m implies s[j] != 'm' by {
        if j >= 2 {
            assert(s[j] == d[j - 2]);
        }
    }
    assert(s[m] == 'm');
    lemma_first_index_is(s, 'm', m);
    assert(s.subrange(2, m) =~= d);
    assert(s.skip(m + 1) =~= rest);
    lemma_first_index_of(d, ';');
    assert(sgr_color(before, d) == code_effect(code, before));
    assert(ansi_segments(s, before) =~= Seq::<(Seq<char>, Option<AnsiColor>)>::empty()
        + ansi_segments(rest, code_effect(code, before)));
}

/// An SGR sequence holding two codes applies them from left to right.
pub proof fn lemma_two_code_sequence(
    first: nat,
    second: nat,
    rest: Seq<char>,
    before: Option<AnsiColor>,
)
    ensures
        ansi_segments(
            seq![ESC, '['] + decimal_chars(first) + seq![';'] + decimal_chars(second) + seq!['m']
                + rest,
            before,
        ) == ansi_segments(rest, code_effect(second, code_effect(first, before))),
{
    let d1 = decimal_chars(first);
    let d2 = decimal_chars(second);
    lemma_digits_param(first, before);
    lemma_digits_param(second, code_effect(first, before));
    let params = d1 + seq![';'] + d2;
    let s = seq![ESC, '['] + params + seq!['m'] + rest;
    let m: int = 2 + params.len() as int;
    assert(s[0] == ESC);
    lemma_first_index_is(s, ESC, 0);
    assert(s.skip(0) =~= s);
    assert forall|j: int| 0 <= j < m implies s[j] != 'm' by {
        if 2 <= j < 2 + d1.len() {
            assert(s[j] == d1[j - 2]);
        } else if j > 2 + d1.len() {
            assert(s[j] == d2[j - 3 - d1.len()]);
        }
    }
    assert(s[m] == 'm');
    lemma_first_index_is(s, 'm', m);
    assert(s.subrange(2, m) =~= params);
    assert(s.skip(m + 1) =~= rest);
    let k: int = d1.len() as int;
    assert forall|j: int| 0 <= j < k implies params[j] != ';' by {
        assert(params[j] == d1[j]);
    }
    lemma_first_index_is(params, ';', k);
    assert(params.take(k) =~= d1);
    assert(params.skip(k + 1) =~= d2);
    lemma_first_index_of(d2, ';');
    let e1 = code_effect(first, before);
    assert(sgr_param_color(before, params.take(k)) == e1);
    assert(sgr_color(e1, d2) == sgr_param_color(e1, d2));
    assert(sgr_color(before, params) == sgr_color(e1, params.skip(k + 1)));
    assert(sgr_color(before, params) == code_effect(second, code_effect(first, before)));
    assert(seq![ESC, '['] + d1 + seq![';'] + d2 + seq!['m'] + rest =~= s);
    assert(ansi_segments(s, before) =~= Seq::<(Seq<char>, Option<AnsiColor>)>::empty()
        + ansi_segments(rest, code_effect(second, code_effect(first, before))));
}

/// Text up to the next escape character is one piece in the color in force,
/// followed by the pieces of what comes after it.
pub proof fn lemma_text_then_rest(text: Seq<char>, rest: Seq<char>, color: Option<AnsiColor>)
    requires
        text.len() > 0,
        !text.contains(ESC),
        rest.len() == 0 || rest[0] == ESC,
    ensures
        ansi_segments(text + rest, color) == seq![(text, color)] + ansi_segments(rest, color),
{
    let s = text + rest;
    if rest.len() == 0 {
        assert(s =~= text);
        lemma_plain_text_in_color(text, color);
        assert(seq![(text, color)] + Seq::<(Seq<char>, Option<AnsiColor>)>::empty() =~= seq![(text, color)]);
    } else {
        let p: int = text.len() as int;
        assert forall|j: int| 0 <= j < p implies s[j] != ESC by {
            assert(s[j] == text[j]);
        }
        assert(s[p] == ESC);
        lemma_first_index_is(s, ESC, p);
        lemma_first_index_is(rest, ESC, 0);
        assert(s.take(p) =~= text);
        assert(s.skip(p) =~= rest);
        assert(rest.skip(0) =~= rest);
        assert(ansi_segments(rest, color) == Seq::<(Seq<char>, Option<AnsiColor>)>::empty() + (
        match sgr_end(rest) {
            Some(m) => ansi_segments(rest.skip(m + 1), sgr_color(color, rest.subrange(2, m))),
            None => ansi_segments(rest.skip(1), color),
        }));
    }
}

/// An escape character that does not start an SGR sequence (no `[` right
/// after it, or no `m` anywhere after it) is dropped and changes nothing.
pub proof fn lemma_lone_escape(rest: Seq<char>, color: Option<AnsiColor>)
    requires
        rest.len() == 0 || rest[0] != '[' || !rest.contains('m'),
    ensures
        ansi_segments(seq![ESC] + rest, color) == ansi_segments(rest, color),
{
    let s = seq![ESC] + rest;
    lemma_first_index_is(s, ESC, 0);
    assert(s.skip(0) =~= s);
    assert(s.skip(1) =~= rest);
    if rest.len() > 0 && rest[0] == '[' {
        assert forall|j: int| 0 <= j < s.len() implies s[j] != 'm' by {
            if j > 0 {
                assert(s[j] == rest[j - 1]);
            }
        }
        lemma_first_index_of(s, 'm');
    }
    assert(sgr_end(s) is None);
    assert(ansi_segments(s, color) =~= Seq::<(Seq<char>, Option<AnsiColor>)>::empty()
        + ansi_segments(rest, color));
}

} // verus!
