//! Half-block renderer: each terminal cell shows two stacked sub-pixels using
//! the upper-half, lower-half and full block glyphs. Colors are set only when
//! they change along a row, and reset at the end of each row that set any.

use vstd::prelude::*;
use crate::ansi::{push_bg, push_fg, reset, spec_bg, spec_fg, spec_reset};
use crate::capabilities::{Capabilities, ColorDepth};
use crate::color::RgbColor;
use crate::pixel_buffer::PixelBuffer;
use crate::text::{push_str, string_from_chars};

verus! {

/// The active foreground and background colors of the terminal.
pub type Sgr = (Option<RgbColor>, Option<RgbColor>);

/// What a cell needs: none for an empty cell, else the foreground, the
/// background (if any) and the glyph.
pub open spec fn cell_need(top: Option<RgbColor>, bot: Option<RgbColor>) -> Option<(RgbColor, Option<RgbColor>, char)> {
    match (top, bot) {
        (None, None) => None,
        (Some(t), Some(b)) => if t == b {
            Some((t, None, '\u{2588}'))
        } else {
            Some((t, Some(b), '\u{2580}'))
        },
        (Some(t), None) => Some((t, None, '\u{2580}')),
        (None, Some(b)) => Some((b, None, '\u{2584}')),
    }
}

/// The text of one cell given the active colors, and the active colors
/// after it: an empty cell resets any active color and shows a space; a
/// painted cell resets when it needs no background but one is active, then
/// sets the foreground and background it needs unless already active.
pub open spec fn halfblock_cell(state: Sgr, top: Option<RgbColor>, bot: Option<RgbColor>, d: ColorDepth) -> (Seq<char>, Sgr) {
    match cell_need(top, bot) {
        None => if state == (None::<RgbColor>, None::<RgbColor>) {
            (seq![' '], state)
        } else {
            (spec_reset() + seq![' '], (None, None))
        },
        Some((f, b, g)) => {
            let cleared = b is None && state.1 is Some;
            let pre = if cleared { spec_reset() } else { Seq::empty() };
            let s1: Sgr = if cleared { (None, None) } else { state };
            let pf = if s1.0 == Some(f) { Seq::empty() } else { spec_fg(f, d) };
            let pb = match b {
                Some(bc) => if s1.1 == Some(bc) { Seq::empty() } else { spec_bg(bc, d) },
                None => Seq::empty(),
            };
            (pre + pf + pb + seq![g], (Some(f), b))
        },
    }
}

/// The text of the first `n` cells of cell row `cy`, and the active colors
/// after them.
pub open spec fn halfblock_row(buf: PixelBuffer, cy: int, n: nat, d: ColorDepth) -> (Seq<char>, Sgr)
    decreases n,
{
    if n == 0 {
        (Seq::empty(), (None, None))
    } else {
        let prev = halfblock_row(buf, cy, (n - 1) as nat, d);
        let cell = halfblock_cell(prev.1, buf.at(n - 1, 2 * cy), buf.at(n - 1, 2 * cy + 1), d);
        (prev.0 + cell.0, cell.1)
    }
}

/// A whole cell row: its cells, a reset if any color is still active, and a
/// newline.
pub open spec fn halfblock_line(buf: PixelBuffer, cy: int, d: ColorDepth) -> Seq<char> {
    let r = halfblock_row(buf, cy, buf.w(), d);
    r.0 + (if r.1 == (None::<RgbColor>, None::<RgbColor>) { Seq::empty() } else { spec_reset() }) + seq!['\n']
}

/// The first `rows` cell rows.
pub open spec fn halfblock_text(buf: PixelBuffer, rows: nat, d: ColorDepth) -> Seq<char>
    decreases rows,
{
    if rows == 0 {
        Seq::empty()
    } else {
        halfblock_text(buf, (rows - 1) as nat, d) + halfblock_line(buf, rows - 1, d)
    }
}

fn same(a: Option<RgbColor>, b: Option<RgbColor>) -> (r: bool)
    ensures
        r == (a == b),
{
    match (a, b) {
        (None, None) => true,
        (Some(x), Some(y)) => x.r == y.r && x.g == y.g && x.b == y.b,
        _ => false,
    }
}

/// Renders the buffer with half blocks: `ceil(height / 2)` lines of `width`
/// cells; a color escape is written only where the active color changes, and
/// each line that left a color active ends with a reset.
pub fn render_halfblocks(buf: &PixelBuffer, caps: Capabilities) -> (s: String)
    requires
        buf.wf(),
    ensures
        s@ == halfblock_text(*buf, (buf.h() + 1) / 2, caps.color_depth),
{
    let cells_w = buf.cell_width();
    let cells_h = buf.cell_height();
    let height = buf.pixel_height();
    let d = caps.color_depth;
    let mut out: Vec<char> = Vec::new();
    let mut cy: usize = 0;
    while cy < cells_h
        invariant
            buf.wf(),
            cells_w == buf.w(),
            cells_h == (buf.h() + 1) / 2,
            height == buf.h(),
            cy <= cells_h,
            out@ == halfblock_text(*buf, cy as nat, d),
        decreases cells_h - cy,
    {
        let py_top = cy * 2;
        let py_bot = py_top + 1;
        let ghost row_start = out@;
        let mut cur_fg: Option<RgbColor> = None;
        let mut cur_bg: Option<RgbColor> = None;
        let mut cx: usize = 0;
        while cx < cells_w
            invariant
                buf.wf(),
                cells_w == buf.w(),
                cells_h == (buf.h() + 1) / 2,
                cy < cells_h,
                py_top == 2 * cy,
                py_bot == 2 * cy + 1,
                cx <= cells_w,
                row_start == halfblock_text(*buf, cy as nat, d),
                out@ == row_start + halfblock_row(*buf, cy as int, cx as nat, d).0,
                (cur_fg, cur_bg) == halfblock_row(*buf, cy as int, cx as nat, d).1,
            decreases cells_w - cx,
        {
            let top = buf.get(cx, py_top);
            let bot = buf.get(cx, py_bot);
            let ghost before = out@;
            let ghost state: Sgr = (cur_fg, cur_bg);
            let need: Option<(RgbColor, Option<RgbColor>, char)> = match (top, bot) {
                (None, None) => None,
                (Some(t), Some(b)) => if t == b {
                    Some((t, None, '\u{2588}'))
                } else {
                    Some((t, Some(b), '\u{2580}'))
                },
                (Some(t), None) => Some((t, None, '\u{2580}')),
                (None, Some(b)) => Some((b, None, '\u{2584}')),
            };
            match need {
                None => {
                    if cur_fg.is_some() || cur_bg.is_some() {
                        push_str(&mut out, reset());
                        cur_fg = None;
                        cur_bg = None;
                    }
                    out.push(' ');
                },
                Some((f, b, g)) => {
                    if b.is_none() && cur_bg.is_some() {
                        push_str(&mut out, reset());
                        cur_fg = None;
                        cur_bg = None;
                    }
                    if !same(cur_fg, Some(f)) {
                        push_fg(&mut out, f, d);
                    }
                    match b {
                        Some(bc) => {
                            if !same(cur_bg, Some(bc)) {
                                push_bg(&mut out, bc, d);
                            }
                        },
                        None => {},
                    }
                    out.push(g);
                    cur_fg = Some(f);
                    cur_bg = b;
                },
            }
            proof {
                let cell = halfblock_cell(state, top, bot, d);
                assert(out@ =~= before + cell.0);
                assert((cur_fg, cur_bg) == cell.1);
            }
            cx = cx + 1;
        }
        if cur_fg.is_some() || cur_bg.is_some() {
            push_str(&mut out, reset());
        }
        out.push('\n');
        assert(out@ =~= halfblock_text(*buf, (cy + 1) as nat, d));
        cy = cy + 1;
    }
    string_from_chars(&out)
}


/// The color a glyph shows in the upper half of a cell, drawn in foreground
/// `f` over background `b` (`None`: the terminal's own background).
pub open spec fn shown_upper(g: char, f: RgbColor, b: Option<RgbColor>) -> Option<RgbColor> {
    if g == '\u{2580}' || g == '\u{2588}' {
        Some(f)
    } else {
        b
    }
}

/// The color a glyph shows in the lower half of a cell.
pub open spec fn shown_lower(g: char, f: RgbColor, b: Option<RgbColor>) -> Option<RgbColor> {
    if g == '\u{2584}' || g == '\u{2588}' {
        Some(f)
    } else {
        b
    }
}

/// A cell shows exactly its two sub-pixels: the glyph's colored halves and
/// the background left visible match the top and bottom sub-pixels, and the
/// cell's text ends in that glyph with those colors active after it. An
/// empty cell is a space with no color active.
pub proof fn halfblock_cell_shows_sub_pixels(state: Sgr, top: Option<RgbColor>, bot: Option<RgbColor>, d: ColorDepth)
    ensures
        match cell_need(top, bot) {
            None => top is None && bot is None && halfblock_cell(state, top, bot, d).1 == (
            None::<RgbColor>,
            None::<RgbColor>,
            ) && halfblock_cell(state, top, bot, d).0.last() == ' ',
            Some((f, b, g)) => shown_upper(g, f, b) == top && shown_lower(g, f, b) == bot && halfblock_cell(
                state,
                top,
                bot,
                d,
            ).1 == (Some(f), b) && halfblock_cell(state, top, bot, d).0.last() == g,
        },
{
}

} // verus!
