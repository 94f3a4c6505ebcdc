//! Border color values and the parsing of color strings.
//!
//! A color field of a rule is either a six-digit hexadecimal RGB literal
//! (with an optional leading `#`), the token `rainbow` in any letter case,
//! or the empty string. Resolution turns each into a [`BorderColor`].

use vstd::prelude::*;

verus! {

/// The border color attribute value that restores the system default.
pub const COLOR_DEFAULT: u32 = 0xFFFFFFFF;

/// The sentinel attribute value that means "paint nothing".
pub const COLOR_INVALID: u32 = 0x000000FF;

/// What a rule asks for in one of its two color slots.
#[derive(Clone, Copy, Debug, PartialEq, Eq, Structural)]
pub enum BorderColor {
    /// No rule matched, or the color string was malformed: paint nothing.
    Invalid,
    /// Restore the operating system's default border.
    SystemDefault,
    /// The animated hue cycle supplies the color.
    Rainbow,
    /// A fixed color, as the OS attribute value `0x00BBGGRR`.
    Solid(u32),
}

/// ASCII lowercasing of one character; other characters are unchanged.
pub open spec fn ascii_lower(c: char) -> char {
    if 'A' <= c && c <= 'Z' {
        ((c as u8) + 32) as char
    } else {
        c
    }
}

/// The hexadecimal value of a digit character, or 16 for a non-digit.
pub open spec fn spec_hex_digit(c: char) -> u32 {
    if '0' <= c && c <= '9' {
        ((c as u32) - ('0' as u32)) as u32
    } else if 'a' <= c && c <= 'f' {
        ((c as u32) - ('a' as u32) + 10) as u32
    } else if 'A' <= c && c <= 'F' {
        ((c as u32) - ('A' as u32) + 10) as u32
    } else {
        16
    }
}

/// Executable hexadecimal digit value; 16 marks a non-digit.
pub fn hex_digit(c: char) -> (v: u32)
    ensures
        v == spec_hex_digit(c),
{
    if '0' <= c && c <= '9' {
        (c as u32) - ('0' as u32)
    } else if 'a' <= c && c <= 'f' {
        (c as u32) - ('a' as u32) + 10
    } else if 'A' <= c && c <= 'F' {
        (c as u32) - ('A' as u32) + 10
    } else {
        16
    }
}

/// Whether a color string names the animated mode, up to ASCII letter case.
pub open spec fn is_rainbow_token(s: Seq<char>) -> bool {
    crate::text::eq_ascii_nocase(s, "rainbow"@)
}

/// Whether every character of `s` is a hexadecimal digit.
pub open spec fn all_hex(s: Seq<char>) -> bool {
    forall|i: int| 0 <= i < s.len() ==> #[trigger] spec_hex_digit(s[i]) < 16
}

/// The color body of a color string: the part after an optional `#`.
pub open spec fn hex_body(s: Seq<char>) -> Seq<char> {
    if s.len() > 0 && s[0] == '#' {
        s.drop_first()
    } else {
        s
    }
}

/// The attribute value `0x00BBGGRR` of six hexadecimal digits `rrggbb`.
pub open spec fn hex_value(b: Seq<char>) -> u32
    recommends
        b.len() == 6,
        all_hex(b),
{
    (((spec_hex_digit(b[0]) * 16 + spec_hex_digit(b[1]))
        + (spec_hex_digit(b[2]) * 16 + spec_hex_digit(b[3])) * 256
        + (spec_hex_digit(b[4]) * 16 + spec_hex_digit(b[5])) * 65536)) as u32
}

/// Decoding of a color string as a fixed color: `Some` exactly when the
/// string is an optional `#` followed by six hexadecimal digits.
pub open spec fn spec_hex_color(s: Seq<char>) -> Option<u32> {
    let b = hex_body(s);
    if b.len() == 6 && all_hex(b) {
        Some(hex_value(b))
    } else {
        None
    }
}

/// Decoding of a color string: the `rainbow` token in any ASCII case,
/// else a fixed hexadecimal color, else `Invalid`.
pub open spec fn spec_parse_color(s: Seq<char>) -> BorderColor {
    if is_rainbow_token(s) {
        BorderColor::Rainbow
    } else {
        match spec_hex_color(s) {
            Some(v) => BorderColor::Solid(v),
            None => BorderColor::Invalid,
        }
    }
}

/// Decoding of an inactive-color string: the empty string asks for the
/// system default border.
pub open spec fn spec_parse_inactive(s: Seq<char>) -> BorderColor {
    if s.len() == 0 {
        BorderColor::SystemDefault
    } else {
        spec_parse_color(s)
    }
}

/// Decodes six hexadecimal digits, after an optional `#`, into the
/// attribute value `0x00BBGGRR`.
pub fn hex_color_chars(cs: &Vec<char>) -> (r: Option<u32>)
    ensures
        r == spec_hex_color(cs@),
{
    let ghost b = hex_body(cs@);
    let start: usize = if cs.len() > 0 && cs[0] == '#' {
        1
    } else {
        0
    };
    proof {
        assert(b =~= cs@.subrange(start as int, cs@.len() as int));
    }
    if cs.len() - start != 6 {
        return None;
    }
    let d0 = hex_digit(cs[start]);
    let d1 = hex_digit(cs[start + 1]);
    let d2 = hex_digit(cs[start + 2]);
    let d3 = hex_digit(cs[start + 3]);
    let d4 = hex_digit(cs[start + 4]);
    let d5 = hex_digit(cs[start + 5]);
    if d0 < 16 && d1 < 16 && d2 < 16 && d3 < 16 && d4 < 16 && d5 < 16 {
        proof {
            assert(forall|i: int| 0 <= i < 6 ==> b[i] == cs@[start + i]);
            assert(all_hex(b)) by {
                assert(spec_hex_digit(b[0]) < 16);
                assert(spec_hex_digit(b[1]) < 16);
                assert(spec_hex_digit(b[2]) < 16);
                assert(spec_hex_digit(b[3]) < 16);
                assert(spec_hex_digit(b[4]) < 16);
                assert(spec_hex_digit(b[5]) < 16);
            }
        }
        Some((d0 * 16 + d1) + (d2 * 16 + d3) * 256 + (d4 * 16 + d5) * 65536)
    } else {
        proof {
            assert(!all_hex(b)) by {
                if d0 >= 16 {
                    assert(spec_hex_digit(b[0]) >= 16);
                } else if d1 >= 16 {
                    assert(spec_hex_digit(b[1]) >= 16);
                } else if d2 >= 16 {
                    assert(spec_hex_digit(b[2]) >= 16);
                } else if d3 >= 16 {
                    assert(spec_hex_digit(b[3]) >= 16);
                } else if d4 >= 16 {
                    assert(spec_hex_digit(b[4]) >= 16);
                } else {
                    assert(spec_hex_digit(b[5]) >= 16);
                }
            }
        }
        None
    }
}

/// Decodes a color string into a [`BorderColor`].
pub fn parse_color(s: &str) -> (r: BorderColor)
    ensures
        r == spec_parse_color(s@),
{
    let cs = crate::text::chars_of(s);
    let token = crate::text::chars_of("rainbow");
    if crate::text::chars_eq_nocase(&cs, &token) {
        return BorderColor::Rainbow;
    }
    match hex_color_chars(&cs) {
        Some(v) => BorderColor::Solid(v),
        None => BorderColor::Invalid,
    }
}

/// Decodes an inactive-color string, where the empty string asks for the
/// system default border.
pub fn parse_inactive(s: &str) -> (r: BorderColor)
    ensures
        r == spec_parse_inactive(s@),
{
    if s.unicode_len() == 0 {
        BorderColor::SystemDefault
    } else {
        parse_color(s)
    }
}

/// The lowercase hexadecimal digit character of a value below sixteen.
pub open spec fn hex_char_of(v: u32) -> char
    recommends
        v < 16,
{
    if v < 10 {
        (('0' as u32) + v) as char
    } else {
        (('a' as u32) + (v - 10)) as char
    }
}

/// The canonical `#rrggbb` rendering of a color triple.
pub open spec fn hex_string_of(r: u8, g: u8, b: u8) -> Seq<char> {
    seq![
        '#',
        hex_char_of((r / 16) as u32),
        hex_char_of((r % 16) as u32),
        hex_char_of((g / 16) as u32),
        hex_char_of((g % 16) as u32),
        hex_char_of((b / 16) as u32),
        hex_char_of((b % 16) as u32),
    ]
}

/// Executable hexadecimal digit character of a value below sixteen.
pub fn hex_char(v: u32) -> (c: char)
    requires
        v < 16,
    ensures
        c == hex_char_of(v),
{
    let table = ['0', '1', '2', '3', '4', '5', '6', '7', '8', '9', 'a', 'b', 'c', 'd', 'e', 'f'];
    table[v as usize]
}

/// Renders a color triple as `#rrggbb`.
pub fn rgb_to_hex(r: u8, g: u8, b: u8) -> (s: String)
    ensures
        s@ == hex_string_of(r, g, b),
{
    let mut cs: Vec<char> = Vec::new();
    cs.push('#');
    cs.push(hex_char((r / 16) as u32));
    cs.push(hex_char((r % 16) as u32));
    cs.push(hex_char((g / 16) as u32));
    cs.push(hex_char((g % 16) as u32));
    cs.push(hex_char((b / 16) as u32));
    cs.push(hex_char((b % 16) as u32));
    proof {
        assert(cs@ =~= hex_string_of(r, g, b));
    }
    crate::text::chars_to_string(&cs)
}

/// Decodes a color string into a color triple, with black as the fallback
/// for anything that is not a six-digit hexadecimal color.
pub fn hex_to_rgb(s: &str) -> (t: (u8, u8, u8))
    ensures
        match spec_hex_color(s@) {
            Some(v) => t == ((v % 256) as u8, ((v / 256) % 256) as u8, ((v / 65536) % 256) as u8),
            None => t == (0u8, 0u8, 0u8),
        },
{
    let cs = crate::text::chars_of(s);
    match hex_color_chars(&cs) {
        Some(v) => (((v % 256) as u8), ((v / 256 % 256) as u8), ((v / 65536 % 256) as u8)),
        None => (0, 0, 0),
    }
}

} // verus!
