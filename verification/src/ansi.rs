//! ANSI SGR escape sequences for foreground and background colors at each
//! color depth.

use vstd::prelude::*;
use crate::capabilities::ColorDepth;
use crate::color::RgbColor;
use crate::text::{dec_digits, push_decimal, push_str, string_from_chars};

verus! {

/// Level (0..=5) of one channel in the 6x6x6 color cube.
pub open spec fn cube_level(v: u8) -> u8 {
    if v < 48 {
        0
    } else if v < 115 {
        1
    } else if v / 51 < 5 {
        (v / 51) as u8
    } else {
        5
    }
}

/// Index of the nearest 256-color-palette cube entry.
pub open spec fn spec_to_256(c: RgbColor) -> u8 {
    (16 + 36 * cube_level(c.r) + 6 * cube_level(c.g) + cube_level(c.b)) as u8
}

/// SGR foreground code of the nearest of the 16 standard colors: 30..=37,
/// plus 60 for the bright variants.
pub open spec fn spec_to_16_fg(c: RgbColor) -> u32 {
    let base: int = 30 + (if c.r > 0x60 { 1int } else { 0int }) + (if c.g > 0x60 { 2int } else { 0int }) + (
    if c.b > 0x60 { 4int } else { 0int });
    if c.r > 0xb0 || c.g > 0xb0 || c.b > 0xb0 {
        (base + 60) as u32
    } else {
        base as u32
    }
}

/// The foreground escape sequence for `c` at depth `d` (empty for mono).
pub open spec fn spec_fg(c: RgbColor, d: ColorDepth) -> Seq<char> {
    match d {
        ColorDepth::Truecolor => "\x1b[38;2;"@ + dec_digits(c.r as nat) + ";"@ + dec_digits(c.g as nat)
            + ";"@ + dec_digits(c.b as nat) + "m"@,
        ColorDepth::Ansi256 => "\x1b[38;5;"@ + dec_digits(spec_to_256(c) as nat) + "m"@,
        ColorDepth::Ansi16 => "\x1b["@ + dec_digits(spec_to_16_fg(c) as nat) + "m"@,
        ColorDepth::Mono => Seq::empty(),
    }
}

/// The background escape sequence for `c` at depth `d` (empty for mono).
pub open spec fn spec_bg(c: RgbColor, d: ColorDepth) -> Seq<char> {
    match d {
        ColorDepth::Truecolor => "\x1b[48;2;"@ + dec_digits(c.r as nat) + ";"@ + dec_digits(c.g as nat)
            + ";"@ + dec_digits(c.b as nat) + "m"@,
        ColorDepth::Ansi256 => "\x1b[48;5;"@ + dec_digits(spec_to_256(c) as nat) + "m"@,
        ColorDepth::Ansi16 => "\x1b["@ + dec_digits((spec_to_16_fg(c) + 10) as nat) + "m"@,
        ColorDepth::Mono => Seq::empty(),
    }
}

/// The SGR reset sequence.
pub open spec fn spec_reset() -> Seq<char> {
    "\x1b[0m"@
}

/// The SGR reset sequence.
pub fn reset() -> (s: &'static str)
    ensures
        s@ == spec_reset(),
{
    "\x1b[0m"
}

fn cube(v: u8) -> (q: u8)
    ensures
        q == cube_level(v),
        q <= 5,
{
    if v < 48 {
        0
    } else if v < 115 {
        1
    } else if v / 51 < 5 {
        v / 51
    } else {
        5
    }
}

/// Nearest entry of the 6x6x6 cube in the 256-color palette.
pub fn to_256(c: RgbColor) -> (i: u8)
    ensures
        i == spec_to_256(c),
{
    16 + 36 * cube(c.r) + 6 * cube(c.g) + cube(c.b)
}

/// Nearest of the 16 standard colors, as an SGR foreground code.
pub fn to_16_fg(c: RgbColor) -> (code: u32)
    ensures
        code == spec_to_16_fg(c),
        30 <= code <= 97,
{
    let r: u32 = if c.r > 0x60 { 1 } else { 0 };
    let g: u32 = if c.g > 0x60 { 2 } else { 0 };
    let b: u32 = if c.b > 0x60 { 4 } else { 0 };
    let base: u32 = 30 + r + g + b;
    if c.r > 0xb0 || c.g > 0xb0 || c.b > 0xb0 {
        base + 60
    } else {
        base
    }
}

/// Appends the foreground sequence for `c` to `out`.
pub fn push_fg(out: &mut Vec<char>, c: RgbColor, depth: ColorDepth)
    ensures
        final(out)@ == old(out)@ + spec_fg(c, depth),
{
    let ghost start = out@;
    match depth {
        ColorDepth::Truecolor => {
            push_str(out, "\x1b[38;2;");
            push_decimal(out, c.r as u64);
            push_str(out, ";");
            push_decimal(out, c.g as u64);
            push_str(out, ";");
            push_decimal(out, c.b as u64);
            push_str(out, "m");
        },
        ColorDepth::Ansi256 => {
            push_str(out, "\x1b[38;5;");
            push_decimal(out, to_256(c) as u64);
            push_str(out, "m");
        },
        ColorDepth::Ansi16 => {
            push_str(out, "\x1b[");
            push_decimal(out, to_16_fg(c) as u64);
            push_str(out, "m");
        },
        ColorDepth::Mono => {},
    }
    assert(out@ =~= start + spec_fg(c, depth));
}

/// Appends the background sequence for `c` to `out`.
pub fn push_bg(out: &mut Vec<char>, c: RgbColor, depth: ColorDepth)
    ensures
        final(out)@ == old(out)@ + spec_bg(c, depth),
{
    let ghost start = out@;
    match depth {
        ColorDepth::Truecolor => {
            push_str(out, "\x1b[48;2;");
            push_decimal(out, c.r as u64);
            push_str(out, ";");
            push_decimal(out, c.g as u64);
            push_str(out, ";");
            push_decimal(out, c.b as u64);
            push_str(out, "m");
        },
        ColorDepth::Ansi256 => {
            push_str(out, "\x1b[48;5;");
            push_decimal(out, to_256(c) as u64);
            push_str(out, "m");
        },
        ColorDepth::Ansi16 => {
            push_str(out, "\x1b[");
            push_decimal(out, (to_16_fg(c) + 10) as u64);
            push_str(out, "m");
        },
        ColorDepth::Mono => {},
    }
    assert(out@ =~= start + spec_bg(c, depth));
}

/// The foreground escape sequence for `c` at `depth`.
pub fn fg(c: RgbColor, depth: ColorDepth) -> (s: String)
    ensures
        s@ == spec_fg(c, depth),
{
    let mut out: Vec<char> = Vec::new();
    push_fg(&mut out, c, depth);
    assert(out@ =~= spec_fg(c, depth));
    string_from_chars(&out)
}

/// The background escape sequence for `c` at `depth`.
pub fn bg(c: RgbColor, depth: ColorDepth) -> (s: String)
    ensures
        s@ == spec_bg(c, depth),
{
    let mut out: Vec<char> = Vec::new();
    push_bg(&mut out, c, depth);
    assert(out@ =~= spec_bg(c, depth));
    string_from_chars(&out)
}


/// The 16-color code follows SGR numbering: its offset from 30 (or from 90
/// for the bright colors, used when some channel is above 0xb0) has bit 0
/// set exactly when red is above 0x60, bit 1 for green and bit 2 for blue.
pub proof fn sixteen_color_bits(c: RgbColor)
    ensures
        ({
            let code = spec_to_16_fg(c) as int;
            let bright = c.r > 0xb0 || c.g > 0xb0 || c.b > 0xb0;
            let v = code - (if bright { 90int } else { 30int });
            &&& 0 <= v < 8
            &&& (v % 2 == 1) == (c.r > 0x60)
            &&& ((v / 2) % 2 == 1) == (c.g > 0x60)
            &&& ((v / 4) % 2 == 1) == (c.b > 0x60)
        }),
{
}

} // verus!
