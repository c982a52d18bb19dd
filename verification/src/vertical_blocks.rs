//! Vertical-block renderer: each terminal cell covers eight stacked
//! sub-pixels and shows one of the eight lower-block glyphs by how many of
//! them are filled.

use vstd::prelude::*;
use crate::ansi::{push_fg, reset, spec_fg, spec_reset};
use crate::capabilities::{Capabilities, ColorDepth};
use crate::color::RgbColor;
use crate::pixel_buffer::PixelBuffer;
use crate::text::{push_str, string_from_chars};

verus! {

/// The lower-block glyph covering `n` eighths of a cell (space for none).
pub open spec fn eighth_glyph(n: nat) -> char {
    if n == 0 {
        ' '
    } else if n == 1 {
        '\u{2581}'
    } else if n == 2 {
        '\u{2582}'
    } else if n == 3 {
        '\u{2583}'
    } else if n == 4 {
        '\u{2584}'
    } else if n == 5 {
        '\u{2585}'
    } else if n == 6 {
        '\u{2586}'
    } else if n == 7 {
        '\u{2587}'
    } else {
        '\u{2588}'
    }
}

/// How many of the first `k` sub-pixels of column `cx`, from row `top` down,
/// are filled.
pub open spec fn filled_count(buf: PixelBuffer, cx: int, top: int, k: nat) -> nat
    decreases k,
{
    if k == 0 {
        0
    } else {
        filled_count(buf, cx, top, (k - 1) as nat) + if buf.at(cx, top + k - 1) is Some {
            1nat
        } else {
            0nat
        }
    }
}

/// The first filled color among the first `k` sub-pixels of column `cx` from
/// row `top` down.
pub open spec fn first_color(buf: PixelBuffer, cx: int, top: int, k: nat) -> Option<RgbColor>
    decreases k,
{
    if k == 0 {
        None
    } else {
        let c = first_color(buf, cx, top, (k - 1) as nat);
        if c is Some {
            c
        } else {
            buf.at(cx, top + k - 1)
        }
    }
}

/// One cell: its text and the foreground color active after it, given the
/// color active before it (a color is only re-emitted when it changes).
pub open spec fn block_cell(buf: PixelBuffer, cx: int, top: int, d: ColorDepth, last: Option<RgbColor>) -> (Seq<char>, Option<RgbColor>) {
    let filled = filled_count(buf, cx, top, 8);
    let color = first_color(buf, cx, top, 8);
    if filled == 0 || color is None {
        ((if last is Some { spec_reset() } else { Seq::empty() }).push(' '), None)
    } else {
        let c = color->0;
        let pre = if last != Some(c) { spec_fg(c, d) } else { Seq::empty() };
        (pre.push(eighth_glyph(if filled < 8 { filled } else { 8 })), Some(c))
    }
}

/// The first `n` cells of the cell row starting at sub-pixel row `top`, with
/// the foreground color active after them.
pub open spec fn block_row(buf: PixelBuffer, top: int, n: nat, d: ColorDepth) -> (Seq<char>, Option<RgbColor>)
    decreases n,
{
    if n == 0 {
        (Seq::empty(), None)
    } else {
        let (t, last) = block_row(buf, top, (n - 1) as nat, d);
        let (t2, l2) = block_cell(buf, n - 1, top, d, last);
        (t + t2, l2)
    }
}

/// A whole cell row: its cells, a reset if a color is still active, and a
/// newline.
pub open spec fn block_line(buf: PixelBuffer, top: int, d: ColorDepth) -> Seq<char> {
    let (t, last) = block_row(buf, top, buf.w(), d);
    t + (if last is Some { spec_reset() } else { Seq::empty() }) + seq!['\n']
}

/// The first `rows` cell rows.
pub open spec fn block_text(buf: PixelBuffer, rows: nat, d: ColorDepth) -> Seq<char>
    decreases rows,
{
    if rows == 0 {
        Seq::empty()
    } else {
        block_text(buf, (rows - 1) as nat, d) + block_line(buf, 8 * (rows - 1), d)
    }
}

fn glyph(n: usize) -> (c: char)
    ensures
        c == eighth_glyph(n as nat),
{
    if n == 0 {
        ' '
    } else if n == 1 {
        '\u{2581}'
    } else if n == 2 {
        '\u{2582}'
    } else if n == 3 {
        '\u{2583}'
    } else if n == 4 {
        '\u{2584}'
    } else if n == 5 {
        '\u{2585}'
    } else if n == 6 {
        '\u{2586}'
    } else if n == 7 {
        '\u{2587}'
    } else {
        '\u{2588}'
    }
}

fn is_color(a: Option<RgbColor>, c: RgbColor) -> (r: bool)
    ensures
        r == (a == Some(c)),
{
    match a {
        Some(x) => x == c,
        None => false,
    }
}

proof fn lemma_cells_past_bottom(buf: PixelBuffer, cx: int, top: int, k: nat)
    requires
        top + k >= buf.h(),
        top <= buf.h(),
    ensures
        filled_count(buf, cx, top, k) == filled_count(buf, cx, top, (buf.h() - top) as nat),
        first_color(buf, cx, top, k) == first_color(buf, cx, top, (buf.h() - top) as nat),
    decreases k,
{
    if k > buf.h() - top {
        buf.lemma_at_outside(cx, top + k - 1);
        lemma_cells_past_bottom(buf, cx, top, (k - 1) as nat);
    }
}

/// Renders the buffer with eighth blocks: `ceil(height / 8)` lines of
/// `width` cells; the foreground sequence is emitted only when the color
/// changes along a line, and a reset closes each colored run.
pub fn render_vertical_blocks(buf: &PixelBuffer, caps: Capabilities) -> (s: String)
    requires
        buf.wf(),
    ensures
        s@ == block_text(*buf, (buf.h() + 7) / 8, caps.color_depth),
{
    let cells_w = buf.pixel_width();
    let pixel_h = buf.pixel_height();
    let cells_h = pixel_h / 8 + if pixel_h % 8 == 0 { 0 } else { 1 };
    let d = caps.color_depth;
    let mut out: Vec<char> = Vec::new();
    let mut cy: usize = 0;
    while cy < cells_h
        invariant
            buf.wf(),
            cells_w == buf.w(),
            pixel_h == buf.h(),
            cells_h == (buf.h() + 7) / 8,
            cy <= cells_h,
            out@ == block_text(*buf, cy as nat, d),
        decreases cells_h - cy,
    {
        let py_top = cy * 8;
        let ghost line_start = out@;
        let mut last_fg: Option<RgbColor> = None;
        let mut cx: usize = 0;
        while cx < cells_w
            invariant
                buf.wf(),
                cells_w == buf.w(),
                pixel_h == buf.h(),
                cells_h == (buf.h() + 7) / 8,
                cy < cells_h,
                py_top == 8 * cy,
                py_top < pixel_h,
                cx <= cells_w,
                line_start == block_text(*buf, cy as nat, d),
                (out@, last_fg) == (line_start + block_row(*buf, py_top as int, cx as nat, d).0, block_row(*buf, py_top as int, cx as nat, d).1),
            decreases cells_w - cx,
        {
            let mut color: Option<RgbColor> = None;
            let mut filled: usize = 0;
            let mut row: usize = 0;
            while row < 8 && py_top + row < pixel_h
                invariant
                    buf.wf(),
                    pixel_h == buf.h(),
                    py_top < pixel_h,
                    row <= 8,
                    py_top + row <= pixel_h,
                    filled == filled_count(*buf, cx as int, py_top as int, row as nat),
                    color == first_color(*buf, cx as int, py_top as int, row as nat),
                    filled <= row,
                decreases 8 - row,
            {
                let py = py_top + row;
                if let Some(c) = buf.get(cx, py) {
                    if color.is_none() {
                        color = Some(c);
                    }
                    filled = filled + 1;
                }
                row = row + 1;
            }
            proof {
                if row < 8 {
                    lemma_cells_past_bottom(*buf, cx as int, py_top as int, 8);
                    lemma_cells_past_bottom(*buf, cx as int, py_top as int, row as nat);
                }
            }
            let ghost before = out@;
            let ghost prev = last_fg;
            if filled == 0 || color.is_none() {
                if last_fg.is_some() {
                    push_str(&mut out, reset());
                    last_fg = None;
                }
                out.push(' ');
            } else {
                let g = glyph(if filled < 8 { filled } else { 8 });
                let c = color.unwrap();
                if !is_color(last_fg, c) {
                    push_fg(&mut out, c, d);
                    last_fg = Some(c);
                }
                out.push(g);
            }
            proof {
                let step = block_cell(*buf, cx as int, py_top as int, d, prev);
                assert(out@ =~= before + step.0);
                assert(last_fg == step.1);
            }
            cx = cx + 1;
        }
        let ghost row_text = out@;
        if last_fg.is_some() {
            push_str(&mut out, reset());
        }
        out.push('\n');
        assert(out@ =~= block_text(*buf, (cy + 1) as nat, d));
        cy = cy + 1;
    }
    string_from_chars(&out)
}

} // verus!
