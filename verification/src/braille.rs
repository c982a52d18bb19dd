//! Braille renderer: each terminal cell covers a 2x4 block of sub-pixels and
//! shows the Braille pattern of the filled ones in a single color.

use vstd::prelude::*;
use crate::ansi::{push_fg, reset, spec_fg, spec_reset};
use crate::capabilities::{Capabilities, ColorDepth};
use crate::color::RgbColor;
use crate::pixel_buffer::PixelBuffer;
use crate::text::{push_str, string_from_chars};

verus! {

broadcast use vstd::utf8::char_u32_cast;

/// The Braille dot bit of the sub-pixel at column `x` (0..2) and row `y`
/// (0..4) of a cell, in Unicode dot order; 0 elsewhere.
pub open spec fn spec_dot_bit(x: int, y: int) -> u8 {
    if x == 0 && y == 0 {
        0x01
    } else if x == 0 && y == 1 {
        0x02
    } else if x == 0 && y == 2 {
        0x04
    } else if x == 1 && y == 0 {
        0x08
    } else if x == 1 && y == 1 {
        0x10
    } else if x == 1 && y == 2 {
        0x20
    } else if x == 0 && y == 3 {
        0x40
    } else if x == 1 && y == 3 {
        0x80
    } else {
        0
    }
}

/// The `k`-th sub-pixel of cell `(cx, cy)` in scan order (row by row, left
/// column first).
pub open spec fn sub_pixel(buf: PixelBuffer, cx: int, cy: int, k: int) -> Option<RgbColor> {
    buf.at(2 * cx + k % 2, 4 * cy + k / 2)
}

/// Sum of the dot bits of the filled sub-pixels among the first `n`.
pub open spec fn cell_bits(buf: PixelBuffer, cx: int, cy: int, n: nat) -> nat
    decreases n,
{
    if n == 0 {
        0
    } else {
        cell_bits(buf, cx, cy, (n - 1) as nat) + if sub_pixel(buf, cx, cy, n - 1) is Some {
            spec_dot_bit((n - 1) % 2, (n - 1) / 2) as nat
        } else {
            0nat
        }
    }
}

/// Colors of the filled sub-pixels among the first `n`, in scan order.
pub open spec fn cell_colors(buf: PixelBuffer, cx: int, cy: int, n: nat) -> Seq<RgbColor>
    decreases n,
{
    if n == 0 {
        Seq::empty()
    } else {
        let s = cell_colors(buf, cx, cy, (n - 1) as nat);
        match sub_pixel(buf, cx, cy, n - 1) {
            Some(c) => s.push(c),
            None => s,
        }
    }
}

/// How often `c` occurs in `s`.
pub open spec fn occurrences(s: Seq<RgbColor>, c: RgbColor) -> nat
    decreases s.len(),
{
    if s.len() == 0 {
        0
    } else {
        occurrences(s.drop_last(), c) + if s.last() == c {
            1nat
        } else {
            0nat
        }
    }
}

/// The distinct colors of `s` in order of first occurrence.
pub open spec fn distinct_colors(s: Seq<RgbColor>) -> Seq<RgbColor>
    decreases s.len(),
{
    if s.len() == 0 {
        Seq::empty()
    } else {
        let u = distinct_colors(s.drop_last());
        if u.contains(s.last()) {
            u
        } else {
            u.push(s.last())
        }
    }
}

/// Scanning `u` in order, the last color whose count in `s` is maximal.
pub open spec fn most_frequent(u: Seq<RgbColor>, s: Seq<RgbColor>) -> Option<RgbColor>
    decreases u.len(),
{
    if u.len() == 0 {
        None
    } else {
        match most_frequent(u.drop_last(), s) {
            None => Some(u.last()),
            Some(b) => if occurrences(s, u.last()) >= occurrences(s, b) {
                Some(u.last())
            } else {
                Some(b)
            },
        }
    }
}

/// The text of cell `(cx, cy)`: a space when no sub-pixel is filled, else the
/// Braille pattern in the most frequent color (ties go to the color that
/// first appears latest).
pub open spec fn braille_cell(buf: PixelBuffer, cx: int, cy: int, d: ColorDepth) -> Seq<char> {
    let bits = cell_bits(buf, cx, cy, 8);
    if bits == 0 {
        seq![' ']
    } else {
        let colors = cell_colors(buf, cx, cy, 8);
        let c = most_frequent(distinct_colors(colors), colors)->0;
        spec_fg(c, d) + seq![((0x2800 + bits) as u32) as char] + spec_reset()
    }
}

/// The first `n` cells of cell row `cy`.
pub open spec fn braille_row(buf: PixelBuffer, cy: int, n: nat, d: ColorDepth) -> Seq<char>
    decreases n,
{
    if n == 0 {
        Seq::empty()
    } else {
        braille_row(buf, cy, (n - 1) as nat, d) + braille_cell(buf, n - 1, cy, d)
    }
}

/// The first `rows` cell rows of a buffer `width` sub-pixels wide.
pub open spec fn braille_text(buf: PixelBuffer, rows: nat, d: ColorDepth) -> Seq<char>
    decreases rows,
{
    if rows == 0 {
        Seq::empty()
    } else {
        braille_text(buf, (rows - 1) as nat, d) + braille_row(buf, rows - 1, (buf.w() + 1) / 2, d) + seq!['\n']
    }
}

/// The Braille dot bit of sub-pixel `(x, y)` of a cell.
pub fn dot_bit(x: usize, y: usize) -> (b: u8)
    ensures
        b == spec_dot_bit(x as int, y as int),
{
    if x == 0 && y == 0 {
        0x01
    } else if x == 0 && y == 1 {
        0x02
    } else if x == 0 && y == 2 {
        0x04
    } else if x == 1 && y == 0 {
        0x08
    } else if x == 1 && y == 1 {
        0x10
    } else if x == 1 && y == 2 {
        0x20
    } else if x == 0 && y == 3 {
        0x40
    } else if x == 1 && y == 3 {
        0x80
    } else {
        0
    }
}

/// `char::from_u32`: the character with scalar value `v`, if `v` is one.
#[verifier::external_body]
fn char_from_u32(v: u32) -> (r: Option<char>)
    ensures
        vstd::utf8::is_scalar(v) ==> r == Some(v as char),
        !vstd::utf8::is_scalar(v) ==> r is None,
{
    char::from_u32(v)
}

proof fn lemma_distinct_contains(s: Seq<RgbColor>, c: RgbColor)
    ensures
        distinct_colors(s).contains(c) <==> s.contains(c),
    decreases s.len(),
{
    if s.len() > 0 {
        lemma_distinct_contains(s.drop_last(), c);
        if s.drop_last().contains(c) {
            let i = choose|i: int| 0 <= i < s.drop_last().len() && s.drop_last()[i] == c;
            assert(s[i] == c);
        }
        if s.contains(c) && s.last() != c {
            let i = choose|i: int| 0 <= i < s.len() && s[i] == c;
            assert(s.drop_last()[i] == c);
        }
        if s.last() == c {
            assert(s[s.len() - 1] == c);
        }
        let u = distinct_colors(s.drop_last());
        if !u.contains(s.last()) {
            assert(u.push(s.last())[u.len() as int] == s.last());
            if u.contains(c) {
                let i = choose|i: int| 0 <= i < u.len() && u[i] == c;
                assert(u.push(s.last())[i] == c);
            }
            if u.push(s.last()).contains(c) && c != s.last() {
                let i = choose|i: int| 0 <= i < u.len() + 1 && u.push(s.last())[i] == c;
                assert(u[i] == c);
            }
        }
    }
}

proof fn lemma_distinct_no_dups(s: Seq<RgbColor>)
    ensures
        forall|i: int, j: int| 0 <= i < j < distinct_colors(s).len() ==> distinct_colors(s)[i] != distinct_colors(s)[j],
    decreases s.len(),
{
    if s.len() > 0 {
        lemma_distinct_no_dups(s.drop_last());
        let u = distinct_colors(s.drop_last());
        if !u.contains(s.last()) {
            assert forall|i: int, j: int| 0 <= i < j < u.push(s.last()).len() implies u.push(s.last())[i] != u.push(s.last())[j] by {
                if j == u.len() {
                    if u[i] == s.last() {
                        assert(u.contains(s.last()));
                    }
                }
            }
        }
    }
}

proof fn lemma_bits_bounded(buf: PixelBuffer, cx: int, cy: int, n: nat)
    requires
        n <= 8,
    ensures
        cell_bits(buf, cx, cy, n) <= full_bits(n),
        cell_bits(buf, cx, cy, n) == 0 <==> cell_colors(buf, cx, cy, n).len() == 0,
        full_bits(n) <= 255,
    decreases n,
{
    if n > 0 {
        lemma_bits_bounded(buf, cx, cy, (n - 1) as nat);
    }
    lemma_full_bits(n);
}

proof fn lemma_full_bits(n: nat)
    requires
        n <= 8,
    ensures
        full_bits(n) <= 255,
{
    reveal_with_fuel(full_bits, 9);
    assert(full_bits(8) == 255);
    if n < 8 {
        assert(full_bits(n) <= full_bits(8)) by {
            reveal_with_fuel(full_bits, 9);
        }
    }
}

/// Sum of all dot bits of the first `n` sub-pixels.
pub open spec fn full_bits(n: nat) -> nat
    decreases n,
{
    if n == 0 {
        0
    } else {
        full_bits((n - 1) as nat) + spec_dot_bit((n - 1) % 2, (n - 1) / 2) as nat
    }
}

/// Renders the buffer with Braille patterns: `ceil(height / 4)` lines of
/// `ceil(width / 2)` cells; empty cells are plain spaces, not the blank
/// Braille pattern.
pub fn render_braille(buf: &PixelBuffer, caps: Capabilities) -> (s: String)
    requires
        buf.wf(),
        buf.w() == 0 || buf.h() + 3 <= usize::MAX,
    ensures
        s@ == braille_text(*buf, (buf.h() + 3) / 4, caps.color_depth),
{
    let pw = buf.pixel_width();
    let ph = buf.pixel_height();
    let cells_w = pw / 2 + pw % 2;
    let cells_h = ph / 4 + if ph % 4 == 0 { 0 } else { 1 };
    let d = caps.color_depth;
    proof {
        reveal_with_fuel(full_bits, 9);
        assert(full_bits(8) == 255);
    }
    let mut out: Vec<char> = Vec::new();
    let mut cy: usize = 0;
    while cy < cells_h
        invariant
            buf.wf(),
            pw == buf.w(),
            ph == buf.h(),
            buf.w() == 0 || buf.h() + 3 <= usize::MAX,
            cells_w == (buf.w() + 1) / 2,
            cells_h == (buf.h() + 3) / 4,
            cy <= cells_h,
            full_bits(8) == 255,
            out@ == braille_text(*buf, cy as nat, d),
        decreases cells_h - cy,
    {
        let ghost row_start = out@;
        let mut cx: usize = 0;
        while cx < cells_w
            invariant
                buf.wf(),
                pw == buf.w(),
                ph == buf.h(),
                buf.w() == 0 || buf.h() + 3 <= usize::MAX,
                cells_w == (buf.w() + 1) / 2,
                cells_h == (buf.h() + 3) / 4,
                cy < cells_h,
                cx <= cells_w,
                full_bits(8) == 255,
                row_start == braille_text(*buf, cy as nat, d),
                out@ == row_start + braille_row(*buf, cy as int, cx as nat, d),
            decreases cells_w - cx,
        {
            let mut bits: u8 = 0;
            let mut counts: Vec<(RgbColor, u8)> = Vec::new();
            let mut k: usize = 0;
            while k < 8
                invariant
                    buf.wf(),
                    pw == buf.w(),
                    ph == buf.h(),
                    buf.h() + 3 <= usize::MAX,
                    cx < cells_w,
                    cells_w == (buf.w() + 1) / 2,
                    cy < cells_h,
                    cells_h == (buf.h() + 3) / 4,
                    k <= 8,
                    bits == cell_bits(*buf, cx as int, cy as int, k as nat),
                    bits <= full_bits(k as nat),
                    full_bits(8) == 255,
                    counts@.len() == distinct_colors(cell_colors(*buf, cx as int, cy as int, k as nat)).len(),
                    forall|i: int| 0 <= i < counts@.len() ==> (#[trigger] counts@[i]).0 == distinct_colors(cell_colors(*buf, cx as int, cy as int, k as nat))[i]
                        && counts@[i].1 == occurrences(cell_colors(*buf, cx as int, cy as int, k as nat), counts@[i].0),
                    cell_colors(*buf, cx as int, cy as int, k as nat).len() <= k,
                decreases 8 - k,
            {
                let ghost colors = cell_colors(*buf, cx as int, cy as int, k as nat);
                proof {
                    lemma_bits_bounded(*buf, cx as int, cy as int, (k + 1) as nat);
                    lemma_distinct_no_dups(colors);
                    assert(full_bits((k + 1) as nat) == full_bits(k as nat) + spec_dot_bit((k % 2) as int, (k / 2) as int));
                }
                let sx = k % 2;
                let sy = k / 2;
                let px = cx * 2 + sx;
                let py = cy * 4 + sy;
                if let Some(c) = buf.get(px, py) {
                    bits = bits + dot_bit(sx, sy);
                    let ghost next = colors.push(c);
                    assert(next.drop_last() =~= colors);
                    let mut f: usize = 0;
                    while f < counts.len() && counts[f].0 != c
                        invariant
                            f <= counts@.len(),
                            forall|i: int| 0 <= i < f ==> (#[trigger] counts@[i]).0 != c,
                        decreases counts@.len() - f,
                    {
                        f = f + 1;
                    }
                    proof {
                        lemma_distinct_contains(colors, c);
                    }
                    if f < counts.len() {
                        assert(distinct_colors(colors).contains(c)) by {
                            assert(distinct_colors(colors)[f as int] == c);
                        }
                        let n = counts[f].1;
                        assert(n as nat == occurrences(colors, c));
                        assert(occurrences(colors, c) <= colors.len()) by {
                            lemma_occurrences_bounded(colors, c);
                        }
                        counts.set(f, (c, n + 1));
                        assert forall|i: int| 0 <= i < counts@.len() implies (#[trigger] counts@[i]).0 == distinct_colors(next)[i]
                            && counts@[i].1 == occurrences(next, counts@[i].0) by {
                            if i != f {
                                assert(distinct_colors(colors)[i] != distinct_colors(colors)[f as int]);
                            }
                        }
                    } else {
                        assert(!distinct_colors(colors).contains(c)) by {
                            if distinct_colors(colors).contains(c) {
                                let i = choose|i: int| 0 <= i < distinct_colors(colors).len() && distinct_colors(colors)[i] == c;
                                assert(counts@[i].0 == c);
                            }
                        }
                        counts.push((c, 1));
                        assert(occurrences(colors, c) == 0) by {
                            lemma_occurrences_zero(colors, c);
                        }
                    }
                }
                k = k + 1;
            }
            proof {
                lemma_bits_bounded(*buf, cx as int, cy as int, 8);
            }
            let ghost before = out@;
            let ghost colors = cell_colors(*buf, cx as int, cy as int, 8);
            if bits == 0 {
                out.push(' ');
            } else {
                let mut best: usize = 0;
                let mut i: usize = 1;
                proof {
                    assert(colors.len() > 0);
                    assert(colors.contains(colors[0]));
                    lemma_distinct_contains(colors, colors[0]);
                }
                assert(counts@.len() > 0);
                assert(most_frequent(distinct_colors(colors).subrange(0, 1), colors) == Some(counts@[0].0)) by {
                    let u = distinct_colors(colors).subrange(0, 1);
                    assert(u.drop_last() =~= Seq::<RgbColor>::empty());
                    assert(most_frequent(u.drop_last(), colors) is None);
                    assert(u.last() == distinct_colors(colors)[0]);
                    assert(counts@[0].0 == distinct_colors(colors)[0]);
                }
                while i < counts.len()
                    invariant
                        1 <= i <= counts@.len(),
                        best < i,
                        counts@.len() == distinct_colors(colors).len(),
                        forall|m: int| 0 <= m < counts@.len() ==> (#[trigger] counts@[m]).0 == distinct_colors(colors)[m]
                            && counts@[m].1 == occurrences(colors, counts@[m].0),
                        most_frequent(distinct_colors(colors).subrange(0, i as int), colors) == Some(counts@[best as int].0),
                    decreases counts@.len() - i,
                {
                    assert(distinct_colors(colors).subrange(0, i + 1).drop_last() =~= distinct_colors(colors).subrange(0, i as int));
                    if counts[i].1 >= counts[best].1 {
                        best = i;
                    }
                    i = i + 1;
                }
                assert(distinct_colors(colors).subrange(0, counts@.len() as int) =~= distinct_colors(colors));
                let c = counts[best].0;
                let glyph = match char_from_u32(0x2800 + bits as u32) {
                    Some(g) => g,
                    None => ' ',
                };
                push_fg(&mut out, c, d);
                out.push(glyph);
                push_str(&mut out, reset());
            }
            assert(out@ =~= before + braille_cell(*buf, cx as int, cy as int, d));
            cx = cx + 1;
        }
        out.push('\n');
        assert(out@ =~= braille_text(*buf, (cy + 1) as nat, d));
        cy = cy + 1;
    }
    string_from_chars(&out)
}

proof fn lemma_occurrences_bounded(s: Seq<RgbColor>, c: RgbColor)
    ensures
        occurrences(s, c) <= s.len(),
    decreases s.len(),
{
    if s.len() > 0 {
        lemma_occurrences_bounded(s.drop_last(), c);
    }
}

proof fn lemma_occurrences_zero(s: Seq<RgbColor>, c: RgbColor)
    requires
        !s.contains(c),
    ensures
        occurrences(s, c) == 0,
    decreases s.len(),
{
    if s.len() > 0 {
        if s.drop_last().contains(c) {
            let i = choose|i: int| 0 <= i < s.drop_last().len() && s.drop_last()[i] == c;
            assert(s[i] == c);
        }
        assert(s[s.len() - 1] == s.last());
        lemma_occurrences_zero(s.drop_last(), c);
    }
}


/// The Unicode Braille dot (numbered from 0) at column `x` (0..2) and row
/// `y` (0..4) of a cell: the left column's top three rows are dots 0..2, the
/// right column's are dots 3..5, and the bottom row holds dots 6 (left) and
/// 7 (right). Dot `k` is bit `k` of the pattern's offset from U+2800.
pub open spec fn braille_dot_index(x: int, y: int) -> nat {
    if y < 3 {
        (3 * x + y) as nat
    } else {
        (6 + x) as nat
    }
}

/// The dot bit that sub-pixel `(x, y)` of cell `(cx, cy)` contributes: its
/// dot's power of two when filled, else nothing.
pub open spec fn lit_dot(buf: PixelBuffer, cx: int, cy: int, x: int, y: int) -> nat {
    if buf.at(2 * cx + x, 4 * cy + y) is Some {
        vstd::arithmetic::power2::pow2(braille_dot_index(x, y))
    } else {
        0
    }
}

/// Each sub-pixel of a cell has the bit of its Unicode Braille dot.
pub proof fn braille_dot_order(x: int, y: int)
    requires
        0 <= x < 2,
        0 <= y < 4,
    ensures
        spec_dot_bit(x, y) as nat == vstd::arithmetic::power2::pow2(braille_dot_index(x, y)),
{
    vstd::arithmetic::power2::lemma2_to64();
}

/// The pattern of a cell is the sum of the dot bits of its filled
/// sub-pixels, each at its own Unicode dot position.
pub proof fn braille_cell_pattern(buf: PixelBuffer, cx: int, cy: int)
    ensures
        cell_bits(buf, cx, cy, 8) == lit_dot(buf, cx, cy, 0, 0) + lit_dot(buf, cx, cy, 0, 1) + lit_dot(buf, cx, cy, 0, 2)
            + lit_dot(buf, cx, cy, 0, 3) + lit_dot(buf, cx, cy, 1, 0) + lit_dot(buf, cx, cy, 1, 1) + lit_dot(
            buf,
            cx,
            cy,
            1,
            2,
        ) + lit_dot(buf, cx, cy, 1, 3),
{
    vstd::arithmetic::power2::lemma2_to64();
    reveal_with_fuel(cell_bits, 9);
}

} // verus!
