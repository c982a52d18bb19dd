//! 24-bit RGB colors and their `#rrggbb` hex notation.

use vstd::prelude::*;
use vstd::utf8::encode_utf8;
use crate::text::string_from_chars;

verus! {

/// A 24-bit color.
#[derive(Debug, Clone, Copy, PartialEq, Eq, Structural)]
pub struct RgbColor {
    pub r: u8,
    pub g: u8,
    pub b: u8,
}

/// A string that is not a `#rrggbb` color; holds the offending text.
#[derive(Debug)]
pub struct ParseColorError(pub String);

impl ParseColorError {
    /// The message the error reads as.
    pub fn message(&self) -> (s: String)
        ensures
            s@ == "invalid hex color: "@ + self.0@,
    {
        crate::text::prefixed("invalid hex color: ", self.0.as_str())
    }
}

/// Value of an ASCII hexadecimal digit (either case).
pub open spec fn hex_digit_value(b: u8) -> Option<u8> {
    if 0x30 <= b <= 0x39 {
        Some((b - 0x30) as u8)
    } else if 0x41 <= b <= 0x46 {
        Some((b - 0x41 + 10) as u8)
    } else if 0x61 <= b <= 0x66 {
        Some((b - 0x61 + 10) as u8)
    } else {
        None
    }
}

/// What base-16 parsing of the two bytes `b0 b1` into a `u8` gives: two hex
/// digits, or a `+` sign followed by one hex digit.
pub open spec fn parse_hex_pair(b0: u8, b1: u8) -> Option<u8> {
    if b0 == 0x2b {
        hex_digit_value(b1)
    } else {
        match (hex_digit_value(b0), hex_digit_value(b1)) {
            (Some(h), Some(l)) => Some((h * 16 + l) as u8),
            _ => None,
        }
    }
}

/// A UTF-8 continuation byte: slicing a string at it is not allowed.
pub open spec fn is_continuation_byte(b: u8) -> bool {
    0x80 <= b < 0xC0
}

/// Whether `s` starts with `#`.
pub open spec fn has_hash(s: Seq<char>) -> bool {
    s.len() > 0 && s[0] == '#'
}

/// The inputs on which the byte-wise slicing of the six characters after `#`
/// would cut a multi-byte character in two.
pub open spec fn hex_slicing_breaks_char(s: Seq<char>) -> bool {
    let b = encode_utf8(s.drop_first());
    &&& has_hash(s)
    &&& b.len() == 6
    &&& (is_continuation_byte(b[2]) || (parse_hex_pair(b[0], b[1]) is Some
        && is_continuation_byte(b[4])))
}

/// The color that `#rrggbb` text denotes, or the text an error reports.
pub open spec fn spec_from_hex(s: Seq<char>) -> Result<RgbColor, Seq<char>> {
    if !has_hash(s) {
        Err(s)
    } else {
        let rest = s.drop_first();
        let b = encode_utf8(rest);
        if b.len() != 6 {
            Err(rest)
        } else {
            match (parse_hex_pair(b[0], b[1]), parse_hex_pair(b[2], b[3]), parse_hex_pair(b[4], b[5])) {
                (Some(r), Some(g), Some(bl)) => Ok(RgbColor { r, g, b: bl }),
                _ => Err(rest),
            }
        }
    }
}

/// The result of `from_hex` seen through the error's text.
pub open spec fn color_result_view(r: Result<RgbColor, ParseColorError>) -> Result<RgbColor, Seq<char>> {
    match r {
        Ok(c) => Ok(c),
        Err(e) => Err(e.0@),
    }
}

fn hex_digit(b: u8) -> (r: Option<u8>)
    ensures
        r == hex_digit_value(b),
{
    if 0x30 <= b && b <= 0x39 {
        Some(b - 0x30)
    } else if 0x41 <= b && b <= 0x46 {
        Some(b - 0x41 + 10)
    } else if 0x61 <= b && b <= 0x66 {
        Some(b - 0x61 + 10)
    } else {
        None
    }
}

fn hex_pair(b0: u8, b1: u8) -> (r: Option<u8>)
    ensures
        r == parse_hex_pair(b0, b1),
{
    if b0 == 0x2b {
        hex_digit(b1)
    } else {
        match (hex_digit(b0), hex_digit(b1)) {
            (Some(h), Some(l)) => Some(h * 16 + l),
            _ => None,
        }
    }
}

fn error_of(s: &str) -> (e: ParseColorError)
    ensures
        e.0@ == s@,
{
    let cs = crate::text::chars_of(s);
    ParseColorError(string_from_chars(&cs))
}

impl RgbColor {
    /// Parses `#rrggbb` (each pair in base 16, either case).
    pub fn from_hex(s: &str) -> (r: Result<RgbColor, ParseColorError>)
        requires
            !hex_slicing_breaks_char(s@),
        ensures
            color_result_view(r) == spec_from_hex(s@),
    {
        let n = s.unicode_len();
        if n == 0 || s.get_char(0) != '#' {
            return Err(error_of(s));
        }
        let rest = s.substring_char(1, n);
        assert(rest@ == s@.drop_first());
        let b = rest.as_bytes();
        if b.len() != 6 {
            return Err(error_of(rest));
        }
        let r = match hex_pair(b[0], b[1]) {
            Some(v) => v,
            None => return Err(error_of(rest)),
        };
        let g = match hex_pair(b[2], b[3]) {
            Some(v) => v,
            None => return Err(error_of(rest)),
        };
        let bl = match hex_pair(b[4], b[5]) {
            Some(v) => v,
            None => return Err(error_of(rest)),
        };
        Ok(RgbColor { r, g, b: bl })
    }
}

/// The hexadecimal digit of a value below sixteen, in upper or lower case.
pub open spec fn hex_char(v: int, upper: bool) -> char {
    if v < 10 {
        (48 + v) as char
    } else if upper {
        (55 + v) as char
    } else {
        (87 + v) as char
    }
}

/// The `#rrggbb` text of a color: two hexadecimal digits per channel.
pub open spec fn hex_text(c: RgbColor, upper: bool) -> Seq<char> {
    seq![
        '#',
        hex_char(c.r as int / 16, upper),
        hex_char(c.r as int % 16, upper),
        hex_char(c.g as int / 16, upper),
        hex_char(c.g as int % 16, upper),
        hex_char(c.b as int / 16, upper),
        hex_char(c.b as int % 16, upper),
    ]
}

proof fn lemma_hex_char(v: int, upper: bool)
    requires
        0 <= v < 16,
    ensures
        (hex_char(v, upper) as u32) < 0x80,
        hex_digit_value(hex_char(v, upper) as u8) == Some(v as u8),
        hex_char(v, upper) as u8 != 0x2b,
{
}

proof fn lemma_hex_pair(v: u8, upper: bool)
    ensures
        parse_hex_pair(hex_char(v as int / 16, upper) as u8, hex_char(v as int % 16, upper) as u8) == Some(v),
{
    lemma_hex_char(v as int / 16, upper);
    lemma_hex_char(v as int % 16, upper);
}

/// Every color reads back from its `#rrggbb` text, in either case, and that
/// text is one `from_hex` accepts.
pub proof fn hex_text_round_trips(c: RgbColor, upper: bool)
    ensures
        !hex_slicing_breaks_char(hex_text(c, upper)),
        spec_from_hex(hex_text(c, upper)) == Ok::<RgbColor, Seq<char>>(c),
{
    let t = hex_text(c, upper);
    let rest = t.drop_first();
    lemma_hex_char(c.r as int / 16, upper);
    lemma_hex_char(c.r as int % 16, upper);
    lemma_hex_char(c.g as int / 16, upper);
    lemma_hex_char(c.g as int % 16, upper);
    lemma_hex_char(c.b as int / 16, upper);
    lemma_hex_char(c.b as int % 16, upper);
    assert(vstd::utf8::is_ascii_chars(rest));
    vstd::utf8::is_ascii_chars_encode_utf8(rest);
    let b = encode_utf8(rest);
    assert(b.len() == 6);
    assert(b[0] == rest[0] as u8 && b[1] == rest[1] as u8 && b[2] == rest[2] as u8);
    assert(b[3] == rest[3] as u8 && b[4] == rest[4] as u8 && b[5] == rest[5] as u8);
    lemma_hex_pair(c.r, upper);
    lemma_hex_pair(c.g, upper);
    lemma_hex_pair(c.b, upper);
}

} // verus!
