//! Terminal colours: reading `#rrggbb` values out of theme files and writing
//! them back as text.

use vstd::prelude::*;
use crate::text::{
    chars_of, first_word, hex_digit, hex_value, is_hex_digit, is_space, lemma_prefix_len,
    non_space, prefix_len, push_char, skip_hex_digits, skip_non_spaces, skip_spaces, space,
    trim_start,
};

verus! {

broadcast use vstd::seq_lib::group_seq_properties;

/// A terminal colour: one of the sixteen named ANSI colours, a 256-colour
/// palette index, the terminal default, or a 24-bit RGB value.
#[derive(PartialEq, Eq, Structural, Clone, Copy, Debug)]
pub enum Color {
    Reset,
    Black,
    Red,
    Green,
    Yellow,
    Blue,
    Magenta,
    Cyan,
    Gray,
    DarkGray,
    LightRed,
    LightGreen,
    LightYellow,
    LightBlue,
    LightMagenta,
    LightCyan,
    White,
    Rgb(u8, u8, u8),
    Indexed(u8),
}

/// The byte written as the two hexadecimal digits `hi` `lo`.
pub open spec fn hex_byte(hi: char, lo: char) -> u8 {
    (16 * hex_value(hi) + hex_value(lo)) as u8
}

/// The colour that a theme-file value names: its first white-space separated
/// word, without one leading `#`, must start with exactly six hexadecimal
/// digits (anything after them, such as `#comment`, is ignored).
pub open spec fn color_of_text(s: Seq<char>) -> Option<Color> {
    match first_word(s) {
        None => None,
        Some(w) => {
            let body = if w[0] == '#' { w.drop_first() } else { w };
            if prefix_len(body, hex_digit()) == 6 {
                Some(
                    Color::Rgb(
                        hex_byte(body[0], body[1]),
                        hex_byte(body[2], body[3]),
                        hex_byte(body[4], body[5]),
                    ),
                )
            } else {
                None
            }
        },
    }
}

/// Lower-case hexadecimal digits.
pub open spec fn hex_digits() -> Seq<char> {
    seq!['0', '1', '2', '3', '4', '5', '6', '7', '8', '9', 'a', 'b', 'c', 'd', 'e', 'f']
}

/// `b` as two lower-case hexadecimal digits.
pub open spec fn hex_pair(b: u8) -> Seq<char> {
    seq![hex_digits()[b as int / 16], hex_digits()[b as int % 16]]
}

/// `#rrggbb` in lower case.
pub open spec fn rgb_text(r: u8, g: u8, b: u8) -> Seq<char> {
    seq!['#'] + hex_pair(r) + hex_pair(g) + hex_pair(b)
}

/// How a colour is shown: `#rrggbb` for RGB values and for the eight basic
/// named colours, `unknown` for the others.
pub open spec fn hex_text(c: Color) -> Seq<char> {
    match c {
        Color::Rgb(r, g, b) => rgb_text(r, g, b),
        Color::Black => rgb_text(0, 0, 0),
        Color::Red => rgb_text(255, 0, 0),
        Color::Green => rgb_text(0, 255, 0),
        Color::Yellow => rgb_text(255, 255, 0),
        Color::Blue => rgb_text(0, 0, 255),
        Color::Magenta => rgb_text(255, 0, 255),
        Color::Cyan => rgb_text(0, 255, 255),
        Color::White => rgb_text(255, 255, 255),
        _ => seq!['u', 'n', 'k', 'n', 'o', 'w', 'n'],
    }
}

fn hex_digit_value(c: char) -> (v: u8)
    requires
        is_hex_digit(c),
    ensures
        v == hex_value(c),
{
    if '0' <= c && c <= '9' {
        (c as u32 - '0' as u32) as u8
    } else if 'a' <= c && c <= 'f' {
        (c as u32 - 'a' as u32 + 10) as u8
    } else {
        (c as u32 - 'A' as u32 + 10) as u8
    }
}

/// The colour named by the text `s[lo..hi]`.
pub fn parse_color_range(s: &Vec<char>, lo: usize, hi: usize) -> (r: Option<Color>)
    requires
        lo <= hi <= s.len(),
    ensures
        r == color_of_text(s@.subrange(lo as int, hi as int)),
{
    let ghost t = s@.subrange(lo as int, hi as int);
    let a = skip_spaces(s, lo, hi);
    assert(trim_start(t) =~= s@.subrange(a as int, hi as int));
    if a == hi {
        return None;
    }
    let b = skip_non_spaces(s, a, hi);
    let ghost w = s@.subrange(a as int, b as int);
    assert(s@.subrange(a as int, hi as int).take(b - a) =~= w);
    assert(b > a) by {
        assert(s@.subrange(a as int, hi as int)[0] == s@[a as int]);
    }
    let c = if s[a] == '#' {
        a + 1
    } else {
        a
    };
    assert(s@.subrange(c as int, b as int) =~= (if w[0] == '#' { w.drop_first() } else { w }));
    let e = skip_hex_digits(s, c, b);
    if e - c != 6 {
        return None;
    }
    let r = hex_digit_value(s[c]) * 16 + hex_digit_value(s[c + 1]);
    let g = hex_digit_value(s[c + 2]) * 16 + hex_digit_value(s[c + 3]);
    let bl = hex_digit_value(s[c + 4]) * 16 + hex_digit_value(s[c + 5]);
    Some(Color::Rgb(r, g, bl))
}

/// Reads a colour out of a theme-file value such as `#1e1e2e`,
/// `1e1e2e`, `#ff0000 # red` or `#ff0000#red`.
pub fn parse_color(hex: &str) -> (r: Option<Color>)
    ensures
        r == color_of_text(hex@),
{
    let s = chars_of(hex);
    assert(s@.subrange(0, s@.len() as int) =~= s@);
    parse_color_range(&s, 0, s.len())
}

fn hex_digit_char(d: u8) -> (c: char)
    requires
        d < 16,
    ensures
        c == hex_digits()[d as int],
{
    let digits: [char; 16] = [
        '0', '1', '2', '3', '4', '5', '6', '7', '8', '9', 'a', 'b', 'c', 'd', 'e', 'f',
    ];
    assert(digits@ =~= hex_digits());
    digits[d as usize]
}

fn push_hex_pair(s: &mut String, b: u8)
    ensures
        final(s)@ == old(s)@ + hex_pair(b),
{
    push_char(s, hex_digit_char(b / 16));
    push_char(s, hex_digit_char(b % 16));
}

fn rgb_string(r: u8, g: u8, b: u8) -> (s: String)
    ensures
        s@ == rgb_text(r, g, b),
{
    let mut s = String::new();
    push_char(&mut s, '#');
    push_hex_pair(&mut s, r);
    push_hex_pair(&mut s, g);
    push_hex_pair(&mut s, b);
    s
}

/// Shows a colour as `#rrggbb` (lower case); colours that have no fixed RGB
/// value show as `unknown`.
pub fn format_hex(color: Color) -> (s: String)
    ensures
        s@ == hex_text(color),
{
    match color {
        Color::Rgb(r, g, b) => rgb_string(r, g, b),
        Color::Black => rgb_string(0, 0, 0),
        Color::Red => rgb_string(255, 0, 0),
        Color::Green => rgb_string(0, 255, 0),
        Color::Yellow => rgb_string(255, 255, 0),
        Color::Blue => rgb_string(0, 0, 255),
        Color::Magenta => rgb_string(255, 0, 255),
        Color::Cyan => rgb_string(0, 255, 255),
        Color::White => rgb_string(255, 255, 255),
        _ => {
            let mut s = String::new();
            push_char(&mut s, 'u');
            push_char(&mut s, 'n');
            push_char(&mut s, 'k');
            push_char(&mut s, 'n');
            push_char(&mut s, 'o');
            push_char(&mut s, 'w');
            push_char(&mut s, 'n');
            s
        },
    }
}

proof fn lemma_hex_digit_values()
    ensures
        forall|d: int| 0 <= d < 16 ==> is_hex_digit(#[trigger] hex_digits()[d]) && !is_space(
            hex_digits()[d],
        ) && hex_value(hex_digits()[d]) == d,
{
    assert forall|d: int| 0 <= d < 16 implies is_hex_digit(#[trigger] hex_digits()[d]) && !is_space(
        hex_digits()[d],
    ) && hex_value(hex_digits()[d]) == d by {
        if d < 10 {
        } else {
        }
    }
}

/// Reading back the text that `format_hex` writes for an RGB colour gives
/// that colour again.
pub proof fn lemma_rgb_text_round_trip(r: u8, g: u8, b: u8)
    ensures
        color_of_text(rgb_text(r, g, b)) == Some(Color::Rgb(r, g, b)),
{
    lemma_hex_digit_values();
    let t = rgb_text(r, g, b);
    assert(t.len() == 7);
    assert(t[0] == '#');
    assert forall|j: int| 1 <= j < 7 implies is_hex_digit(#[trigger] t[j]) && !is_space(t[j]) by {
        if j == 1 {
            assert(t[j] == hex_digits()[r as int / 16]);
        } else if j == 2 {
            assert(t[j] == hex_digits()[r as int % 16]);
        } else if j == 3 {
            assert(t[j] == hex_digits()[g as int / 16]);
        } else if j == 4 {
            assert(t[j] == hex_digits()[g as int % 16]);
        } else if j == 5 {
            assert(t[j] == hex_digits()[b as int / 16]);
        } else {
            assert(t[j] == hex_digits()[b as int % 16]);
        }
    }
    lemma_prefix_len(t, space(), 0);
    assert(t.skip(0) =~= t);
    lemma_prefix_len(t, non_space(), 7);
    assert(t.take(7) =~= t);
    let body = t.drop_first();
    lemma_prefix_len(body, hex_digit(), 6);
    assert(hex_byte(body[0], body[1]) == r);
    assert(hex_byte(body[2], body[3]) == g);
    assert(hex_byte(body[4], body[5]) == b);
}

} // verus!
