use tplot::ansi::{fg, reset};
use tplot::braille::render_braille;
use tplot::capabilities::{Capabilities, ColorDepth, GlyphSet, GraphicsProtocol, Theme};
use tplot::color::RgbColor;
use tplot::halfblocks::render_halfblocks;
use tplot::pixel_buffer::PixelBuffer;
use tplot::probe::{parse_response_supports_kitty, parse_response_supports_sixel};
use tplot::vertical_blocks::render_vertical_blocks;

const ORANGE: RgbColor = RgbColor { r: 0xee, g: 0x7b, b: 0x3d };

fn caps(glyphs: GlyphSet) -> Capabilities {
    Capabilities {
        color_depth: ColorDepth::Truecolor,
        glyph_set: glyphs,
        graphics_protocol: GraphicsProtocol::NoGraphics,
        theme: Theme::Dark,
    }
}

#[test]
fn truecolor_emits_38_2_form() {
    assert_eq!(fg(ORANGE, ColorDepth::Truecolor), "\x1b[38;2;238;123;61m");
}

#[test]
fn ansi256_uses_color_cube_index() {
    let s = fg(ORANGE, ColorDepth::Ansi256);
    assert_eq!(s, "\x1b[38;5;173m");
}

#[test]
fn reset_is_constant() {
    assert_eq!(reset(), "\x1b[0m");
}

#[test]
fn braille_empty_buffer_renders_only_spaces() {
    let buf = PixelBuffer::new(2, 4);
    let s = render_braille(&buf, caps(GlyphSet::Braille));
    assert!(s.contains(' '));
    assert!(!s.contains('\u{2800}'), "should NOT use blank-Braille for empties");
}

#[test]
fn single_top_left_dot_uses_bit_0() {
    let mut buf = PixelBuffer::new(2, 4);
    buf.set(0, 0, ORANGE);
    let s = render_braille(&buf, caps(GlyphSet::Braille));
    assert!(s.contains('\u{2801}'), "missing dot-1 glyph: {:?}", s);
    assert!(s.contains("\x1b[38;2;238;123;61m"));
}

#[test]
fn single_bottom_right_dot_uses_bit_7() {
    let mut buf = PixelBuffer::new(2, 4);
    buf.set(1, 3, ORANGE);
    let s = render_braille(&buf, caps(GlyphSet::Braille));
    assert!(s.contains('\u{2880}'), "missing dot-8 glyph: {:?}", s);
}

#[test]
fn full_cell_is_all_dots() {
    let mut buf = PixelBuffer::new(2, 4);
    for y in 0..4 {
        for x in 0..2 {
            buf.set(x, y, ORANGE);
        }
    }
    let s = render_braille(&buf, caps(GlyphSet::Braille));
    assert!(s.contains('\u{28ff}'), "missing all-dots glyph: {:?}", s);
}

#[test]
fn last_painted_color_wins_for_multi_color_cell() {
    let red = RgbColor { r: 0xff, g: 0x00, b: 0x00 };
    let blue = RgbColor { r: 0x00, g: 0x00, b: 0xff };
    let mut buf = PixelBuffer::new(2, 4);
    buf.set(0, 0, red);
    buf.set(1, 3, blue);
    let s = render_braille(&buf, caps(GlyphSet::Braille));
    assert!(s.contains("\x1b[38;2;255;0;0m") || s.contains("\x1b[38;2;0;0;255m"));
}

#[test]
fn empty_buffer_renders_only_newlines_and_resets() {
    let buf = PixelBuffer::new(4, 2);
    let s = render_halfblocks(&buf, caps(GlyphSet::HalfBlocks));
    assert!(s.lines().count() >= 1);
    assert!(!s.contains("\x1b[38;2"));
}

#[test]
fn upper_pixel_only_emits_upper_half_block() {
    let mut buf = PixelBuffer::new(2, 2);
    buf.set(0, 0, ORANGE);
    let s = render_halfblocks(&buf, caps(GlyphSet::HalfBlocks));
    assert!(s.contains('\u{2580}'));
    assert!(s.contains("\x1b[38;2;238;123;61m"));
}

#[test]
fn both_pixels_set_emit_full_block_when_same_color() {
    let mut buf = PixelBuffer::new(2, 2);
    buf.set(0, 0, ORANGE);
    buf.set(0, 1, ORANGE);
    let s = render_halfblocks(&buf, caps(GlyphSet::HalfBlocks));
    assert!(s.contains('\u{2588}'));
}

#[test]
fn output_size_for_typical_row_is_compact() {
    let mut buf = PixelBuffer::new(60, 2);
    for x in 0..60 {
        buf.set(x, 0, RgbColor { r: 0xee, g: 0x7b, b: 0x3d });
    }
    let out = render_halfblocks(&buf, caps(GlyphSet::HalfBlocks));
    assert!(out.len() < 300, "output too long: {} bytes", out.len());
}

fn paint_column_from_bottom(buf: &mut PixelBuffer, x: usize, fill_height: usize, color: RgbColor) {
    let h = buf.pixel_height();
    for y in (h - fill_height)..h {
        buf.set(x, y, color);
    }
}

#[test]
fn vertical_blocks_empty_buffer_renders_only_spaces() {
    let buf = PixelBuffer::new(3, 8);
    let s = render_vertical_blocks(&buf, caps(GlyphSet::HalfBlocks));
    assert!(!s.contains('\u{2581}'));
    assert!(!s.contains('\u{2588}'));
}

#[test]
fn full_column_renders_full_block() {
    let mut buf = PixelBuffer::new(1, 8);
    paint_column_from_bottom(&mut buf, 0, 8, ORANGE);
    let s = render_vertical_blocks(&buf, caps(GlyphSet::HalfBlocks));
    assert!(s.contains('\u{2588}'));
    assert!(s.contains("\x1b[38;2;238;123;61m"));
}

#[test]
fn one_eighth_column_renders_lower_one_eighth() {
    let mut buf = PixelBuffer::new(1, 8);
    paint_column_from_bottom(&mut buf, 0, 1, ORANGE);
    let s = render_vertical_blocks(&buf, caps(GlyphSet::HalfBlocks));
    assert!(s.contains('\u{2581}'));
}

#[test]
fn five_eighths_column_renders_lower_five_eighths() {
    let mut buf = PixelBuffer::new(1, 8);
    paint_column_from_bottom(&mut buf, 0, 5, ORANGE);
    let s = render_vertical_blocks(&buf, caps(GlyphSet::HalfBlocks));
    assert!(s.contains('\u{2585}'));
}

#[test]
fn taller_than_one_cell_uses_full_blocks_for_lower_cells() {
    let mut buf = PixelBuffer::new(1, 16);
    paint_column_from_bottom(&mut buf, 0, 12, ORANGE);
    let s = render_vertical_blocks(&buf, caps(GlyphSet::HalfBlocks));
    assert!(s.contains('\u{2588}'));
    assert!(s.contains('\u{2584}'));
}

#[test]
fn parses_sixel_capable_response() {
    let response = b"\x1b[?62;4;22";
    assert!(parse_response_supports_sixel(response));
}

#[test]
fn parses_sixel_absent_response() {
    let response = b"\x1b[?62;22";
    assert!(!parse_response_supports_sixel(response));
}

#[test]
fn parses_response_with_4_only_in_a_substring() {
    let response = b"\x1b[?64;1";
    assert!(!parse_response_supports_sixel(response));
}

#[test]
fn parses_ok_response() {
    assert!(parse_response_supports_kitty(b"_Gi=31;OK"));
}

#[test]
fn parses_error_response() {
    assert!(!parse_response_supports_kitty(b"_Gi=31;ENOTSUPPORTED:not implemented"));
}

#[test]
fn parses_unrelated_response() {
    assert!(!parse_response_supports_kitty(b"\x1b[c"));
}
