//! What a terminal can display, detected from its environment variables.

use vstd::prelude::*;
use crate::text::{after_last, chars_contains, chars_eq_str, chars_of, seq_contains, trim, trim_chars};

verus! {

/// How many colors the terminal can show.
#[derive(Debug, Clone, Copy, PartialEq, Eq, Structural)]
pub enum ColorDepth {
    Mono,
    Ansi16,
    Ansi256,
    Truecolor,
}

/// Which block and dot glyphs the terminal's font is assumed to carry.
#[derive(Debug, Clone, Copy, PartialEq, Eq, Structural)]
pub enum GlyphSet {
    /// ASCII-only fallback (no Unicode block characters).
    Ascii,
    /// Half-blocks.
    HalfBlocks,
    /// Half-blocks and Braille.
    Braille,
    /// Half-blocks, Braille and the Unicode 16 octants.
    Octants,
}

/// Inline-image protocol spoken by the terminal.
#[derive(Debug, Clone, Copy, PartialEq, Eq, Structural)]
pub enum GraphicsProtocol {
    /// No inline-image protocol.
    NoGraphics,
    Kitty,
    ITerm2,
    Sixel,
}

/// Background brightness of the terminal.
#[derive(Debug, Clone, Copy, PartialEq, Eq, Structural)]
pub enum Theme {
    Dark,
    Light,
}

impl Default for Theme {
    fn default() -> (t: Theme)
        ensures
            t == Theme::Dark,
    {
        Theme::Dark
    }
}

/// Everything the renderers need to know about the terminal.
#[derive(Debug, Clone, Copy, PartialEq, Eq, Structural)]
pub struct Capabilities {
    pub color_depth: ColorDepth,
    pub glyph_set: GlyphSet,
    pub graphics_protocol: GraphicsProtocol,
    pub theme: Theme,
}

/// The characters of an optional environment value; absent reads as empty.
pub open spec fn opt_chars(o: Option<String>) -> Seq<char> {
    match o {
        Some(s) => s@,
        None => Seq::empty(),
    }
}

/// Color depth from `$TERM` and `$COLORTERM`.
pub open spec fn spec_color_depth(term: Seq<char>, colorterm: Seq<char>) -> ColorDepth {
    if colorterm == "truecolor"@ || colorterm == "24bit"@ {
        ColorDepth::Truecolor
    } else if seq_contains(term, "256"@) {
        ColorDepth::Ansi256
    } else if term.len() == 0 || term == "dumb"@ {
        ColorDepth::Mono
    } else {
        ColorDepth::Ansi16
    }
}

/// Glyph set assumed for a color depth.
pub open spec fn spec_glyph_set(d: ColorDepth) -> GlyphSet {
    match d {
        ColorDepth::Truecolor => GlyphSet::Octants,
        ColorDepth::Ansi256 => GlyphSet::Braille,
        _ => GlyphSet::HalfBlocks,
    }
}

/// Graphics protocol from `$TERM` and `$TERM_PROGRAM`.
pub open spec fn spec_graphics(term: Seq<char>, term_program: Seq<char>) -> GraphicsProtocol {
    if term == "xterm-kitty"@ {
        GraphicsProtocol::Kitty
    } else if term_program == "iTerm.app"@ {
        GraphicsProtocol::ITerm2
    } else {
        GraphicsProtocol::NoGraphics
    }
}

/// Whether every character is an ASCII decimal digit.
pub open spec fn all_digits(s: Seq<char>) -> bool {
    forall|i: int| 0 <= i < s.len() ==> '0' <= #[trigger] s[i] <= '9'
}

/// Numeric value of a string of decimal digits.
pub open spec fn digits_value(s: Seq<char>) -> nat
    decreases s.len(),
{
    if s.len() == 0 {
        0
    } else {
        digits_value(s.drop_last()) * 10 + ((s.last() as u32) - 48) as nat
    }
}

/// What `str::parse::<u8>` gives: an optional `+`, then one or more decimal
/// digits whose value is at most 255.
pub open spec fn parse_u8_decimal(s: Seq<char>) -> Option<u8> {
    let digits = if s.len() > 0 && s[0] == '+' { s.drop_first() } else { s };
    if digits.len() > 0 && all_digits(digits) && digits_value(digits) <= 255 {
        Some(digits_value(digits) as u8)
    } else {
        None
    }
}

/// Whether `s` holds a `;`.
pub open spec fn has_semicolon(s: Seq<char>) -> bool {
    exists|i: int| 0 <= i < s.len() && s[i] == ';'
}

/// The background color index that `$COLORFGBG` (`fg;bg` or `fg;...;bg`)
/// names, when it names one.
pub open spec fn colorfgbg_background(raw: Seq<char>) -> Option<u8> {
    if has_semicolon(raw) {
        parse_u8_decimal(trim(after_last(raw, ';')))
    } else {
        None
    }
}

/// Theme from `$COLORFGBG` first, then `$TERM_PROGRAM` (Apple Terminal is
/// light), dark otherwise.
pub open spec fn spec_theme(colorfgbg: Option<String>, term_program: Option<String>) -> Theme {
    let from_fgbg = match colorfgbg {
        Some(raw) => colorfgbg_background(raw@),
        None => None,
    };
    match from_fgbg {
        Some(bg) => if bg >= 7 { Theme::Light } else { Theme::Dark },
        None => if term_program is Some && opt_chars(term_program) == "Apple_Terminal"@ {
            Theme::Light
        } else {
            Theme::Dark
        },
    }
}

/// The capabilities detected from the four environment values.
pub open spec fn spec_capabilities(
    term: Seq<char>,
    colorterm: Seq<char>,
    term_program: Seq<char>,
    theme: Theme,
) -> Capabilities {
    Capabilities {
        color_depth: spec_color_depth(term, colorterm),
        glyph_set: spec_glyph_set(spec_color_depth(term, colorterm)),
        graphics_protocol: spec_graphics(term, term_program),
        theme,
    }
}

proof fn lemma_digits_value_grows(s: Seq<char>, i: int)
    requires
        0 <= i <= s.len(),
        all_digits(s),
    ensures
        digits_value(s.subrange(0, i)) <= digits_value(s),
    decreases s.len() - i,
{
    if i < s.len() {
        assert(s.drop_last() =~= s.subrange(0, s.len() - 1));
        assert(all_digits(s.drop_last()));
        lemma_digits_value_grows(s.drop_last(), i);
        assert(s.drop_last().subrange(0, i) =~= s.subrange(0, i));
    } else {
        assert(s.subrange(0, i) =~= s);
    }
}

/// `str::parse::<u8>` on a character vector.
fn parse_u8_chars(s: &Vec<char>) -> (r: Option<u8>)
    ensures
        r == parse_u8_decimal(s@),
{
    let start: usize = if s.len() > 0 && s[0] == '+' { 1 } else { 0 };
    let ghost digits = if s@.len() > 0 && s@[0] == '+' { s@.drop_first() } else { s@ };
    assert(digits =~= s@.subrange(start as int, s@.len() as int));
    assert(digits == (if s@.len() > 0 && s@[0] == '+' { s@.drop_first() } else { s@ }));
    if start >= s.len() {
        return None;
    }
    let mut value: u32 = 0;
    let mut i: usize = start;
    while i < s.len()
        invariant
            start <= i <= s.len(),
            digits == s@.subrange(start as int, s@.len() as int),
            digits == (if s@.len() > 0 && s@[0] == '+' { s@.drop_first() } else { s@ }),
            digits.len() > 0,
            all_digits(s@.subrange(start as int, i as int)),
            value == digits_value(s@.subrange(start as int, i as int)),
            value <= 255,
        decreases s.len() - i,
    {
        let c = s[i];
        if c < '0' || c > '9' {
            assert(digits[i - start] == c);
            assert(!all_digits(digits));
            assert(digits == (if s@.len() > 0 && s@[0] == '+' { s@.drop_first() } else { s@ }));
            assert(parse_u8_decimal(s@) is None);
            return None;
        }
        let d = (c as u32) - 48;
        let next = value * 10 + d;
        assert(s@.subrange(start as int, i + 1).drop_last() =~= s@.subrange(start as int, i as int));
        assert(all_digits(s@.subrange(start as int, i + 1)));
        proof {
            let sub = s@.subrange(start as int, i + 1);
            assert(sub.last() == c);
            assert(digits_value(sub) == digits_value(sub.drop_last()) * 10 + ((c as u32) - 48) as nat);
        }
        if next > 255 {
            proof {
                let k = (i + 1 - start) as int;
                if all_digits(digits) {
                    lemma_digits_value_grows(digits, k);
                    assert(digits.subrange(0, k) =~= s@.subrange(start as int, i + 1));
                }
            }
            return None;
        }
        value = next;
        i = i + 1;
    }
    assert(s@.subrange(start as int, s@.len() as int) == digits);
    Some(value as u8)
}

/// Background index named by `$COLORFGBG`.
fn colorfgbg_bg(raw: &String) -> (r: Option<u8>)
    ensures
        r == colorfgbg_background(raw@),
{
    let cs = chars_of(raw.as_str());
    let mut p: usize = cs.len();
    while p > 0 && cs[p - 1] != ';'
        invariant
            p <= cs.len(),
            cs@ == raw@,
            forall|k: int| p <= k < cs.len() ==> cs@[k] != ';',
        decreases p,
    {
        p = p - 1;
    }
    if p == 0 {
        assert(!has_semicolon(raw@));
        return None;
    }
    proof {
        crate::text::lemma_after_last(cs@, ';', p - 1);
        assert(has_semicolon(cs@));
    }
    let mut last: Vec<char> = Vec::new();
    let mut k: usize = p;
    while k < cs.len()
        invariant
            p <= k <= cs.len(),
            last@ == cs@.subrange(p as int, k as int),
        decreases cs.len() - k,
    {
        last.push(cs[k]);
        k = k + 1;
        assert(last@ =~= cs@.subrange(p as int, k as int));
    }
    let t = trim_chars(&last);
    parse_u8_chars(&t)
}

/// Theme detection: `$COLORFGBG` when it names a background (index 7 or more
/// is light), else light for Apple Terminal, else dark.
pub fn detect_theme<F: Fn(&str) -> Option<String>>(get: &F) -> (t: Theme)
    requires
        forall|k: &str| get.requires((k,)),
    ensures
        exists|fgbg: Option<String>, prog: Option<String>|
            get.ensures(("COLORFGBG",), fgbg) && (colorfgbg_background(opt_chars(fgbg)) is None
                ==> get.ensures(("TERM_PROGRAM",), prog)) && t == spec_theme(fgbg, prog),
{
    let fgbg = get("COLORFGBG");
    if let Some(raw) = &fgbg {
        if let Some(bg) = colorfgbg_bg(raw) {
            let t = if bg >= 7 { Theme::Light } else { Theme::Dark };
            assert(get.ensures(("COLORFGBG",), fgbg) && t == spec_theme(fgbg, None));
            return t;
        }
    }
    let prog = get("TERM_PROGRAM");
    let apple = match &prog {
        Some(p) => chars_eq_str(&chars_of(p.as_str()), "Apple_Terminal"),
        None => false,
    };
    let t = if apple { Theme::Light } else { Theme::Dark };
    assert(colorfgbg_background(opt_chars(fgbg)) is None);
    assert(t == spec_theme(fgbg, prog));
    t
}

impl Capabilities {
    /// A safe default for terminals that report nothing useful: 256 colors,
    /// half-blocks, no image protocol, dark theme.
    pub fn conservative() -> (c: Capabilities)
        ensures
            c == (Capabilities {
                color_depth: ColorDepth::Ansi256,
                glyph_set: GlyphSet::HalfBlocks,
                graphics_protocol: GraphicsProtocol::NoGraphics,
                theme: Theme::Dark,
            }),
    {
        Capabilities {
            color_depth: ColorDepth::Ansi256,
            glyph_set: GlyphSet::HalfBlocks,
            graphics_protocol: GraphicsProtocol::NoGraphics,
            theme: Theme::Dark,
        }
    }

    /// Detects capabilities from environment variables read through `get`
    /// (`TERM`, `COLORTERM`, `TERM_PROGRAM`, `COLORFGBG`).
    pub fn from_vars<F: Fn(&str) -> Option<String>>(get: F) -> (c: Capabilities)
        requires
            forall|k: &str| get.requires((k,)),
        ensures
            exists|term: Option<String>, colorterm: Option<String>, prog: Option<String>, theme: Theme|
                get.ensures(("TERM",), term) && get.ensures(("COLORTERM",), colorterm)
                    && get.ensures(("TERM_PROGRAM",), prog) && c == spec_capabilities(
                    opt_chars(term),
                    opt_chars(colorterm),
                    opt_chars(prog),
                    theme,
                ) && (exists|fgbg: Option<String>, prog2: Option<String>|
                    get.ensures(("COLORFGBG",), fgbg) && (colorfgbg_background(opt_chars(fgbg)) is None
                        ==> get.ensures(("TERM_PROGRAM",), prog2)) && theme == spec_theme(fgbg, prog2)),
    {
        let term_o = get("TERM");
        let colorterm_o = get("COLORTERM");
        let prog_o = get("TERM_PROGRAM");
        let term = match &term_o {
            Some(s) => chars_of(s.as_str()),
            None => Vec::new(),
        };
        let colorterm = match &colorterm_o {
            Some(s) => chars_of(s.as_str()),
            None => Vec::new(),
        };
        let prog = match &prog_o {
            Some(s) => chars_of(s.as_str()),
            None => Vec::new(),
        };
        assert(term@ == opt_chars(term_o));
        assert(colorterm@ == opt_chars(colorterm_o));
        assert(prog@ == opt_chars(prog_o));
        let color_depth = if chars_eq_str(&colorterm, "truecolor") || chars_eq_str(&colorterm, "24bit") {
            ColorDepth::Truecolor
        } else if chars_contains(&term, &chars_of("256")) {
            ColorDepth::Ansi256
        } else if term.len() == 0 || chars_eq_str(&term, "dumb") {
            ColorDepth::Mono
        } else {
            ColorDepth::Ansi16
        };
        let glyph_set = match color_depth {
            ColorDepth::Truecolor => GlyphSet::Octants,
            ColorDepth::Ansi256 => GlyphSet::Braille,
            _ => GlyphSet::HalfBlocks,
        };
        let graphics_protocol = if chars_eq_str(&term, "xterm-kitty") {
            GraphicsProtocol::Kitty
        } else if chars_eq_str(&prog, "iTerm.app") {
            GraphicsProtocol::ITerm2
        } else {
            GraphicsProtocol::NoGraphics
        };
        let theme = detect_theme(&get);
        let c = Capabilities { color_depth, glyph_set, graphics_protocol, theme };
        assert(get.ensures(("TERM",), term_o));
        assert(get.ensures(("COLORTERM",), colorterm_o));
        assert(get.ensures(("TERM_PROGRAM",), prog_o));
        assert(c == spec_capabilities(opt_chars(term_o), opt_chars(colorterm_o), opt_chars(prog_o), theme));
        c
    }
}


/// Without a truecolor `$COLORTERM`, a terminal is taken as monochrome only
/// when `$TERM` is empty or `dumb`; any other `$TERM` gets 256 colors when it
/// names them and the 16 standard colors otherwise.
pub proof fn mono_only_for_dumb_terminals(term: Seq<char>, colorterm: Seq<char>)
    ensures
        spec_color_depth(term, colorterm) == ColorDepth::Mono ==> (term.len() == 0 || term == "dumb"@),
        colorterm != "truecolor"@ && colorterm != "24bit"@ && term.len() > 0 && term != "dumb"@
            ==> spec_color_depth(term, colorterm) == (if seq_contains(term, "256"@) {
            ColorDepth::Ansi256
        } else {
            ColorDepth::Ansi16
        }),
{
}

} // verus!
