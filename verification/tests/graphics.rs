use base64::Engine;
use tplot::color::RgbColor;
use tplot::graphics::{buffer_png, buffer_rgba, encode_iterm2, encode_kitty, encode_png, png_outcome, GraphicsError};
use tplot::pixel_buffer::PixelBuffer;

#[test]
fn output_starts_with_iterm2_osc_prefix() {
    let png = vec![0x89, b'P', b'N', b'G', 0, 0, 0, 0];
    let out = encode_iterm2(&png);
    assert!(out.starts_with(b"\x1b]1337;File="));
}

#[test]
fn output_includes_size_and_inline_flag() {
    let png = vec![0; 100];
    let out = encode_iterm2(&png);
    let s = String::from_utf8_lossy(&out);
    assert!(s.contains("size=100"));
    assert!(s.contains("inline=1"));
}

#[test]
fn output_is_base64_terminated_by_bell() {
    let png = b"hello world".to_vec();
    let out = encode_iterm2(&png);
    assert_eq!(*out.last().unwrap(), 0x07);
}

#[test]
fn base64_payload_round_trips() {
    let input = b"\x89PNGtest\xc3\x9d";
    let out = encode_iterm2(input);
    let s = String::from_utf8_lossy(&out);
    let payload = s.split(':').nth(1).unwrap().trim_end_matches('\x07');
    let decoded = base64::engine::general_purpose::STANDARD.decode(payload).unwrap();
    assert_eq!(decoded, input);
}

#[test]
fn small_payload_is_a_single_apc() {
    let png = vec![0x89, b'P', b'N', b'G'];
    let out = encode_kitty(&png);
    let s = String::from_utf8_lossy(&out);
    let starts = s.matches("\x1b_G").count();
    let ends = s.matches("\x1b\\").count();
    assert_eq!(starts, 1);
    assert_eq!(ends, 1);
    assert!(s.contains("a=T"));
    assert!(s.contains("f=100"));
    assert!(s.contains("m=0;"));
}

#[test]
fn large_payload_splits_into_multiple_chunks() {
    let png = vec![0xab; 8 * 1024];
    let out = encode_kitty(&png);
    let s = String::from_utf8_lossy(&out);
    let chunk_count = s.matches("\x1b_G").count();
    assert!(chunk_count >= 3, "expected >=3 chunks, got {chunk_count}");
    assert!(s.matches("a=T").count() == 1);
    assert!(s.matches("m=1;").count() >= 2);
    assert!(s.matches("m=0;").count() == 1);
}

#[test]
fn iterm2_payload_is_the_base64_of_the_input_not_the_input() {
    let out = encode_iterm2(b"abc");
    assert_eq!(out, b"\x1b]1337;File=inline=1;size=3:YWJj\x07".to_vec());
}

#[test]
fn kitty_single_chunk_exact_bytes() {
    let out = encode_kitty(b"abc");
    assert_eq!(out, b"\x1b_Ga=T,f=100,m=0;YWJj\x1b\\".to_vec());
}

#[test]
fn kitty_chunk_boundary_exactly_4096_characters_is_one_chunk() {
    // 3072 bytes encode to exactly 4096 base64 characters.
    let out = encode_kitty(&vec![0u8; 3072]);
    let s = String::from_utf8_lossy(&out);
    assert_eq!(s.matches("\x1b_G").count(), 1);
    assert!(s.contains("m=0;"));
    // 3075 bytes encode to 4100 characters: a second chunk of 4.
    let out = encode_kitty(&vec![0u8; 3075]);
    let s = String::from_utf8_lossy(&out);
    assert_eq!(s.matches("\x1b_G").count(), 2);
    assert!(s.ends_with("\x1b_Gm=0;AAAA\x1b\\"));
}

#[test]
fn empty_buffer_yields_fully_transparent_image() {
    let buf = PixelBuffer::new(4, 4);
    let (w, h, raw) = buffer_rgba(&buf, 1);
    assert_eq!((w, h), (4, 4));
    assert_eq!(raw.len(), 64);
    for i in 0..16 {
        assert_eq!(raw[4 * i + 3], 0, "pixel {i} should be transparent");
    }
}

#[test]
fn set_pixel_yields_opaque_rgba() {
    let mut buf = PixelBuffer::new(2, 2);
    buf.set(0, 0, RgbColor { r: 255, g: 0, b: 0 });
    let (_, _, raw) = buffer_rgba(&buf, 1);
    assert_eq!(&raw[0..4], &[255, 0, 0, 255]);
    assert_eq!(&raw[4..8], &[0, 0, 0, 0]);
}

#[test]
fn upscale_multiplies_dimensions_and_repeats_pixels() {
    let mut buf = PixelBuffer::new(2, 3);
    buf.set(1, 2, RgbColor { r: 1, g: 2, b: 3 });
    let (w, h, raw) = buffer_rgba(&buf, 4);
    assert_eq!((w, h), (8, 12));
    // Output pixel (5, 9) lies in the block of buffer pixel (1, 2).
    let i = 4 * (9 * 8 + 5);
    assert_eq!(&raw[i..i + 4], &[1, 2, 3, 255]);
    // Output pixel (3, 9) lies in the block of buffer pixel (0, 2).
    let j = 4 * (9 * 8 + 3);
    assert_eq!(&raw[j..j + 4], &[0, 0, 0, 0]);
}

#[test]
fn upscale_factor_4_quadruples_dimensions() {
    let buf = PixelBuffer::new(2, 3);
    let (w, h, _) = buffer_rgba(&buf, 4);
    assert_eq!(w, 8);
    assert_eq!(h, 12);
}

#[test]
fn zero_upscale_counts_as_one() {
    let buf = PixelBuffer::new(3, 2);
    let (w, h, _) = buffer_rgba(&buf, 0);
    assert_eq!((w, h), (3, 2));
}

#[test]
fn png_starts_with_png_magic_bytes() {
    let samples: Vec<u8> = [0xee, 0x7b, 0x3d, 255].repeat(4);
    let bytes = encode_png(2, 2, &samples).unwrap();
    assert_eq!(&bytes[..8], &[0x89, b'P', b'N', b'G', 0x0d, 0x0a, 0x1a, 0x0a]);
}

#[test]
fn zero_width_image_is_refused() {
    assert!(encode_png(0, 3, &[]).is_err());
}

#[test]
fn buffer_png_starts_with_png_magic_bytes() {
    let mut buf = PixelBuffer::new(2, 2);
    buf.fill_rect(0, 0, 1, 1, RgbColor { r: 0xee, g: 0x7b, b: 0x3d });
    let bytes = buffer_png(&buf, 1).unwrap();
    assert_eq!(&bytes[..8], &[0x89, b'P', b'N', b'G', 0x0d, 0x0a, 0x1a, 0x0a]);
}

#[test]
fn png_outcome_passes_bytes_and_maps_errors() {
    assert_eq!(png_outcome(Ok(vec![1, 2, 3])), Ok(vec![1, 2, 3]));
    let err = image::ImageError::Limits(image::error::LimitError::from_kind(
        image::error::LimitErrorKind::DimensionError,
    ));
    assert_eq!(png_outcome(Err(err)), Err(GraphicsError::PngEncoding));
}

#[test]
fn empty_image_cannot_be_encoded() {
    let buf = PixelBuffer::new(0, 0);
    assert_eq!(buffer_png(&buf, 1), Err(GraphicsError::PngEncoding));
}

#[test]
fn base64_text_of_short_inputs() {
    let text = |input: &[u8]| {
        let out = encode_iterm2(input);
        let s = String::from_utf8(out).unwrap();
        s.split(':').nth(1).unwrap().trim_end_matches('\x07').to_string()
    };
    assert_eq!(text(b"Man"), "TWFu");
    assert_eq!(text(b"Ma"), "TWE=");
    assert_eq!(text(b"M"), "TQ==");
    assert_eq!(text(&[0xfb, 0xff]), "+/8=");
    assert_eq!(text(b""), "");
}
