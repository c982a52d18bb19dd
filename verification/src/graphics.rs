//! Inline-image output: a pixel buffer as an upscaled RGBA image, its PNG
//! encoding, and the Kitty and iTerm2 escape sequences that carry the PNG to
//! the terminal as base64 text.

use vstd::prelude::*;
use vstd::utf8::encode_utf8;
use crate::color::RgbColor;
use crate::pixel_buffer::PixelBuffer;
use crate::text::{dec_digits, push_decimal};

verus! {

/// The character of a six-bit value in the standard base64 alphabet
/// (RFC 4648): `A`-`Z`, `a`-`z`, `0`-`9`, `+`, `/`.
pub open spec fn base64_digit(v: int) -> u8 {
    if v < 26 {
        (65 + v) as u8
    } else if v < 52 {
        (97 + v - 26) as u8
    } else if v < 62 {
        (48 + v - 52) as u8
    } else if v == 62 {
        43u8
    } else {
        47u8
    }
}

/// The padded standard base64 text of some bytes, as bytes: each group of
/// three bytes becomes four characters; a last group of one or two bytes is
/// padded with `=`.
pub open spec fn base64_standard(bytes: Seq<u8>) -> Seq<u8>
    decreases bytes.len(),
{
    if bytes.len() == 0 {
        Seq::empty()
    } else if bytes.len() == 1 {
        let a = bytes[0] as int;
        seq![base64_digit(a / 4), base64_digit((a % 4) * 16), 61u8, 61u8]
    } else if bytes.len() == 2 {
        let a = bytes[0] as int;
        let b = bytes[1] as int;
        seq![base64_digit(a / 4), base64_digit((a % 4) * 16 + b / 16), base64_digit((b % 16) * 4), 61u8]
    } else {
        let a = bytes[0] as int;
        let b = bytes[1] as int;
        let c = bytes[2] as int;
        seq![base64_digit(a / 4), base64_digit((a % 4) * 16 + b / 16), base64_digit((b % 16) * 4 + c / 64), base64_digit(c % 64)]
            + base64_standard(bytes.subrange(3, bytes.len() as int))
    }
}

/// Length of padded base64 text for `n` bytes: four characters per started
/// group of three bytes.
pub open spec fn base64_len(n: nat) -> nat {
    4 * ((n + 2) / 3)
}

/// Base64 text has four characters per started group of three bytes.
pub proof fn base64_length(bytes: Seq<u8>)
    ensures
        base64_standard(bytes).len() == base64_len(bytes.len()),
    decreases bytes.len(),
{
    if bytes.len() >= 3 {
        base64_length(bytes.subrange(3, bytes.len() as int));
    }
}

/// `base64::engine::general_purpose::STANDARD.encode`: the padded standard
/// base64 encoding of the bytes. The crate panics when its length overflows
/// `usize`.
#[verifier::external_body]
fn base64_encode(bytes: &[u8]) -> (r: Vec<u8>)
    requires
        base64_len(bytes@.len()) <= usize::MAX,
    ensures
        r@ == base64_standard(bytes@),
{
    base64::Engine::encode(&base64::engine::general_purpose::STANDARD, bytes).into_bytes()
}

/// Appends `src[lo..hi]` to `out`.
fn push_bytes(out: &mut Vec<u8>, src: &[u8], lo: usize, hi: usize)
    requires
        lo <= hi <= src@.len(),
    ensures
        final(out)@ == old(out)@ + src@.subrange(lo as int, hi as int),
{
    let ghost start = out@;
    let mut i = lo;
    while i < hi
        invariant
            lo <= i <= hi,
            hi <= src@.len(),
            out@ == start + src@.subrange(lo as int, i as int),
        decreases hi - i,
    {
        out.push(src[i]);
        i = i + 1;
        assert(src@.subrange(lo as int, i as int) == src@.subrange(lo as int, i - 1).push(src@[i - 1]));
    }
}

/// Appends the UTF-8 bytes of `s` to `out`.
fn push_text(out: &mut Vec<u8>, s: &str)
    ensures
        final(out)@ == old(out)@ + encode_utf8(s@),
{
    let b = s.as_bytes();
    push_bytes(out, b, 0, b.len());
    assert(b@.subrange(0, b@.len() as int) == b@);
}

/// The ASCII bytes of the decimal digits of `n`.
pub open spec fn digit_bytes(n: nat) -> Seq<u8> {
    dec_digits(n).map_values(|c: char| c as u8)
}

/// The iTerm2 inline-image sequence for some PNG bytes:
/// `ESC ] 1337 ; File=inline=1;size=<n>:<base64> BEL`.
pub open spec fn iterm2_sequence(png: Seq<u8>) -> Seq<u8> {
    encode_utf8("\x1b]1337;File=inline=1;size="@) + digit_bytes(png.len()) + encode_utf8(":"@) + base64_standard(png)
        + seq![7u8]
}

/// Encodes PNG bytes as an iTerm2 inline-image escape sequence.
pub fn encode_iterm2(png_bytes: &[u8]) -> (out: Vec<u8>)
    requires
        base64_len(png_bytes@.len()) <= usize::MAX,
    ensures
        out@ == iterm2_sequence(png_bytes@),
{
    let b64 = base64_encode(png_bytes);
    let mut out: Vec<u8> = Vec::new();
    push_text(&mut out, "\x1b]1337;File=inline=1;size=");
    let mut digits: Vec<char> = Vec::new();
    push_decimal(&mut digits, png_bytes.len() as u64);
    let ghost mid = out@;
    let mut i: usize = 0;
    while i < digits.len()
        invariant
            i <= digits@.len(),
            digits@ == dec_digits(png_bytes@.len() as nat),
            out@ == mid + digits@.take(i as int).map_values(|c: char| c as u8),
        decreases digits@.len() - i,
    {
        out.push(digits[i] as u8);
        i = i + 1;
        assert(digits@.take(i as int).map_values(|c: char| c as u8)
            == digits@.take(i - 1).map_values(|c: char| c as u8).push(digits@[i - 1] as u8));
    }
    assert(digits@.take(digits@.len() as int) == digits@);
    push_text(&mut out, ":");
    push_bytes(&mut out, b64.as_slice(), 0, b64.len());
    out.push(7u8);
    proof {
        assert(b64@.subrange(0, b64@.len() as int) == b64@);
    }
    out
}

/// Base64 characters carried by each Kitty graphics chunk.
pub open spec fn kitty_chunk() -> int {
    4096
}

/// The Kitty continuation chunks from `start` on: each carries up to a chunk
/// of the base64 text and says whether more follow (`m=1`) or not (`m=0`).
pub open spec fn kitty_rest(b: Seq<u8>, start: int) -> Seq<u8>
    decreases b.len() - start,
{
    if start >= b.len() || start < 0 {
        Seq::empty()
    } else {
        let end = if start + kitty_chunk() < b.len() { start + kitty_chunk() } else { b.len() as int };
        let flag = if end == b.len() { "\x1b_Gm=0;"@ } else { "\x1b_Gm=1;"@ };
        encode_utf8(flag) + b.subrange(start, end) + encode_utf8("\x1b\\"@) + kitty_rest(b, end)
    }
}

/// The Kitty graphics sequence for some PNG bytes: transmit-and-display of a
/// PNG, its base64 text split into chunks of 4096 characters.
pub open spec fn kitty_sequence(png: Seq<u8>) -> Seq<u8> {
    let b = base64_standard(png);
    if b.len() <= kitty_chunk() {
        encode_utf8("\x1b_Ga=T,f=100,m=0;"@) + b + encode_utf8("\x1b\\"@)
    } else {
        encode_utf8("\x1b_Ga=T,f=100,m=1;"@) + b.subrange(0, kitty_chunk()) + encode_utf8("\x1b\\"@)
            + kitty_rest(b, kitty_chunk())
    }
}

/// Encodes PNG bytes for the Kitty graphics protocol, in chunks.
pub fn encode_kitty(png_bytes: &[u8]) -> (out: Vec<u8>)
    requires
        base64_len(png_bytes@.len()) <= usize::MAX,
    ensures
        out@ == kitty_sequence(png_bytes@),
{
    let b64 = base64_encode(png_bytes);
    let bytes = b64.as_slice();
    let total = bytes.len();
    let mut out: Vec<u8> = Vec::new();
    if total <= 4096 {
        push_text(&mut out, "\x1b_Ga=T,f=100,m=0;");
        push_bytes(&mut out, bytes, 0, total);
        push_text(&mut out, "\x1b\\");
        proof {
            assert(bytes@.subrange(0, total as int) == bytes@);
        }
    } else {
        push_text(&mut out, "\x1b_Ga=T,f=100,m=1;");
        push_bytes(&mut out, bytes, 0, 4096);
        push_text(&mut out, "\x1b\\");
        let ghost head = out@;
        let mut start: usize = 4096;
        while start < total
            invariant
                total == bytes@.len(),
                4096 <= start <= total,
                out@ + kitty_rest(bytes@, start as int) == head + kitty_rest(bytes@, 4096),
            decreases total - start,
        {
            let end = if total - start > 4096 { start + 4096 } else { total };
            let ghost before = out@;
            if end == total {
                push_text(&mut out, "\x1b_Gm=0;");
            } else {
                push_text(&mut out, "\x1b_Gm=1;");
            }
            push_bytes(&mut out, bytes, start, end);
            push_text(&mut out, "\x1b\\");
            proof {
                let flag = if end == total { "\x1b_Gm=0;"@ } else { "\x1b_Gm=1;"@ };
                assert(kitty_rest(bytes@, start as int) == encode_utf8(flag) + bytes@.subrange(start as int, end as int)
                    + encode_utf8("\x1b\\"@) + kitty_rest(bytes@, end as int));
                assert(out@ == before + encode_utf8(flag) + bytes@.subrange(start as int, end as int) + encode_utf8("\x1b\\"@));
                assert(out@ + kitty_rest(bytes@, end as int) == before + kitty_rest(bytes@, start as int));
            }
            start = end;
        }
        proof {
            assert(kitty_rest(bytes@, start as int) == Seq::<u8>::empty());
            assert(out@ == head + kitty_rest(bytes@, 4096));
        }
    }
    out
}

/// An error of the image crate.
#[verifier::external_type_specification]
#[verifier::external_body]
pub struct ExImageError(image::ImageError);

/// The PNG file the image crate writes for an RGBA image of the given size
/// and row-major samples, or `None` when its encoder refuses the image.
pub uninterp spec fn png_encoding(width: u32, height: u32, samples: Seq<u8>) -> Option<Seq<u8>>;

/// `image::write_buffer_with_format` with `ExtendedColorType::Rgba8` and
/// `ImageFormat::Png`, into memory: the PNG file of the image, or the
/// encoder's error. The encoder panics unless there are exactly four samples
/// per pixel, and the png crate refuses an image without width or height;
/// which other images it refuses is left to the image crate.
#[verifier::external_body]
fn png_from_rgba(width: u32, height: u32, samples: &[u8]) -> (r: Result<Vec<u8>, image::ImageError>)
    requires
        samples@.len() == 4 * width * height,
    ensures
        r is Ok <==> png_encoding(width, height, samples@) is Some,
        r matches Ok(v) ==> png_encoding(width, height, samples@) == Some(v@),
        width == 0 || height == 0 ==> r is Err,
{
    let mut cursor = std::io::Cursor::new(Vec::new());
    image::write_buffer_with_format(
        &mut cursor,
        samples,
        width,
        height,
        image::ExtendedColorType::Rgba8,
        image::ImageFormat::Png,
    )?;
    Ok(cursor.into_inner())
}

/// The RGBA channels of a pixel: the color, opaque, or transparent black for
/// an empty pixel.
pub open spec fn rgba_of(c: Option<RgbColor>) -> Seq<u8> {
    match c {
        Some(c) => seq![c.r, c.g, c.b, 255u8],
        None => seq![0u8, 0u8, 0u8, 0u8],
    }
}

/// Byte `i` of the row-major RGBA samples of the buffer scaled up by `up`
/// into an image `out_w` pixels wide: each buffer pixel becomes an `up` by
/// `up` block.
pub open spec fn upscaled_byte(b: PixelBuffer, up: int, out_w: int, i: int) -> u8 {
    let p = i / 4;
    rgba_of(b.at((p % out_w) / up, (p / out_w) / up))[i % 4]
}

/// The row-major RGBA samples of the buffer scaled up by `up` into an image
/// `out_w` by `out_h` pixels.
pub open spec fn upscaled_rgba(b: PixelBuffer, up: int, out_w: int, out_h: int) -> Seq<u8> {
    Seq::new((4 * out_w * out_h) as nat, |i: int| upscaled_byte(b, up, out_w, i))
}

/// The upscale factor in use: at least one.
pub open spec fn effective_upscale(upscale: u32) -> int {
    if upscale < 1 { 1 } else { upscale as int }
}

/// The buffer's size scaled up fits the image crate's limits.
pub open spec fn image_fits(b: PixelBuffer, upscale: u32) -> bool {
    let up = effective_upscale(upscale);
    &&& b.w() * up <= u32::MAX
    &&& b.h() * up <= u32::MAX
    &&& 4 * (b.w() * up) * (b.h() * up) <= usize::MAX
}

proof fn lemma_pixel_index(w: int, x: int, y: int, c: int)
    requires
        w > 0,
        0 <= x < w,
        0 <= y,
        0 <= c < 4,
    ensures
        (4 * (y * w + x) + c) / 4 == y * w + x,
        (4 * (y * w + x) + c) % 4 == c,
        (y * w + x) % w == x,
        (y * w + x) / w == y,
{
    vstd::arithmetic::div_mod::lemma_fundamental_div_mod_converse(4 * (y * w + x) + c, 4, y * w + x, c);
    vstd::arithmetic::div_mod::lemma_fundamental_div_mod_converse(y * w + x, w, y, x);
}

/// The row-major RGBA samples of the buffer scaled up by `upscale` (at least
/// one), with the scaled width and height.
pub fn buffer_rgba(buf: &PixelBuffer, upscale: u32) -> (r: (u32, u32, Vec<u8>))
    requires
        buf.wf(),
        image_fits(*buf, upscale),
    ensures
        r.0 == buf.w() * effective_upscale(upscale),
        r.1 == buf.h() * effective_upscale(upscale),
        r.2@ == upscaled_rgba(*buf, effective_upscale(upscale), r.0 as int, r.1 as int),
{
    let up: u32 = if upscale < 1 { 1 } else { upscale };
    let pw = buf.pixel_width();
    let ph = buf.pixel_height();
    proof {
        assert(pw * up <= u32::MAX && ph * up <= u32::MAX);
        assert(pw <= pw * up && ph <= ph * up) by (nonlinear_arith)
            requires up >= 1;
    }
    let out_w: u32 = (pw as u32) * up;
    let out_h: u32 = (ph as u32) * up;
    let mut raw: Vec<u8> = Vec::new();
    let mut y: u32 = 0;
    while y < out_h
        invariant
            buf.wf(),
            up == effective_upscale(upscale),
            out_w == buf.w() * up,
            out_h == buf.h() * up,
            4 * out_w * out_h <= usize::MAX,
            y <= out_h,
            raw@.len() == 4 * (y * out_w),
            forall|i: int| 0 <= i < raw@.len() ==> #[trigger] raw@[i] == upscaled_byte(*buf, up as int, out_w as int, i),
        decreases out_h - y,
    {
        let mut x: u32 = 0;
        while x < out_w
            invariant
                buf.wf(),
                up == effective_upscale(upscale),
                out_w == buf.w() * up,
                out_h == buf.h() * up,
                4 * out_w * out_h <= usize::MAX,
                y < out_h,
                x <= out_w,
                raw@.len() == 4 * (y * out_w + x),
                forall|i: int| 0 <= i < raw@.len() ==> #[trigger] raw@[i] == upscaled_byte(*buf, up as int, out_w as int, i),
            decreases out_w - x,
        {
            proof {
                assert(y * out_w + x < out_w * out_h) by (nonlinear_arith)
                    requires x < out_w, y < out_h;
                assert(4 * (y * out_w + x) + 4 <= 4 * out_w * out_h) by (nonlinear_arith)
                    requires y * out_w + x < out_w * out_h;
            }
            let c = buf.get((x / up) as usize, (y / up) as usize);
            let px: [u8; 4] = match c {
                Some(c) => [c.r, c.g, c.b, 255u8],
                None => [0u8, 0u8, 0u8, 0u8],
            };
            let ghost before = raw@;
            let ghost p = y * out_w + x;
            raw.push(px[0]);
            raw.push(px[1]);
            raw.push(px[2]);
            raw.push(px[3]);
            proof {
                assert forall|i: int| 0 <= i < raw@.len() implies #[trigger] raw@[i] == upscaled_byte(*buf, up as int, out_w as int, i) by {
                    if i >= before.len() {
                        let k = i - 4 * p;
                        lemma_pixel_index(out_w as int, x as int, y as int, k);
                        assert(rgba_of(c) == seq![px[0], px[1], px[2], px[3]]);
                    } else {
                        assert(raw@[i] == before[i]);
                    }
                }
            }
            x = x + 1;
        }
        proof {
            assert((y + 1) * out_w == y * out_w + out_w) by (nonlinear_arith);
        }
        y = y + 1;
    }
    proof {
        assert(4 * (out_h * out_w) == 4 * out_w * out_h) by (nonlinear_arith);
        assert(raw@ =~= upscaled_rgba(*buf, up as int, out_w as int, out_h as int));
    }
    (out_w, out_h, raw)
}

/// Why an inline image could not be produced.
#[derive(Debug, Clone, Copy, PartialEq, Eq, Structural)]
pub enum GraphicsError {
    /// The PNG encoder failed.
    PngEncoding,
}

/// Encodes an RGBA image, given by its size and row-major samples (four
/// per pixel), as a PNG file. Fails when the encoder refuses the image, as
/// it does every image without width or height.
pub fn encode_png(width: u32, height: u32, samples: &[u8]) -> (r: Result<Vec<u8>, image::ImageError>)
    requires
        samples@.len() == 4 * width * height,
    ensures
        r is Ok <==> png_encoding(width, height, samples@) is Some,
        r matches Ok(v) ==> png_encoding(width, height, samples@) == Some(v@),
        width == 0 || height == 0 ==> r is Err,
{
    png_from_rgba(width, height, samples)
}

/// What an encoding attempt yields: the encoder's PNG bytes, or
/// `PngEncoding` when the encoder reported an error.
pub fn png_outcome(encoded: Result<Vec<u8>, image::ImageError>) -> (r: Result<Vec<u8>, GraphicsError>)
    ensures
        match encoded {
            Ok(v) => r matches Ok(w) && w@ == v@,
            Err(_) => r == Err::<Vec<u8>, GraphicsError>(GraphicsError::PngEncoding),
        },
{
    match encoded {
        Ok(v) => Ok(v),
        Err(_) => Err(GraphicsError::PngEncoding),
    }
}

/// The upscaled RGBA samples of a buffer, as `buffer_rgba` gives them.
pub open spec fn scaled_samples(buf: PixelBuffer, upscale: u32) -> Seq<u8> {
    let up = effective_upscale(upscale);
    upscaled_rgba(buf, up, buf.w() * up, buf.h() * up)
}

/// The PNG file of the buffer scaled up by `upscale` (at least one): each
/// pixel an opaque block of its color, empty pixels transparent. Succeeds
/// exactly when the encoder accepts that image, so never for an empty
/// buffer.
pub fn buffer_png(buf: &PixelBuffer, upscale: u32) -> (r: Result<Vec<u8>, GraphicsError>)
    requires
        buf.wf(),
        image_fits(*buf, upscale),
    ensures
        r is Ok <==> png_encoding(
            (buf.w() * effective_upscale(upscale)) as u32,
            (buf.h() * effective_upscale(upscale)) as u32,
            scaled_samples(*buf, upscale),
        ) is Some,
        r matches Ok(v) ==> png_encoding(
            (buf.w() * effective_upscale(upscale)) as u32,
            (buf.h() * effective_upscale(upscale)) as u32,
            scaled_samples(*buf, upscale),
        ) == Some(v@),
        r matches Err(e) ==> e == GraphicsError::PngEncoding,
        buf.w() == 0 || buf.h() == 0 ==> r is Err,
{
    let (w, h, raw) = buffer_rgba(buf, upscale);
    proof {
        let up = effective_upscale(upscale);
        assert(up >= 1);
        assert(buf.w() == 0 ==> buf.w() * up == 0);
        assert(buf.h() == 0 ==> buf.h() * up == 0);
    }
    png_outcome(encode_png(w, h, raw.as_slice()))
}

} // verus!
