use tplot::color::RgbColor;
use tplot::paint::{
    median_color, paint_box, paint_candle, paint_column, paint_heat_cell, paint_leaf, paint_order, paint_points,
    paint_ridge, paint_row, paint_series, paint_violin, BoxGlyph,
};
use tplot::pixel_buffer::PixelBuffer;

const ORANGE: RgbColor = RgbColor { r: 0xee, g: 0x7b, b: 0x3d };
const GRAY: RgbColor = RgbColor { r: 0x76, g: 0x76, b: 0x76 };

fn painted(buf: &PixelBuffer) -> usize {
    let mut n = 0;
    for y in 0..buf.pixel_height() {
        for x in 0..buf.pixel_width() {
            if buf.get(x, y).is_some() {
                n += 1;
            }
        }
    }
    n
}

#[test]
fn box_paints_whisker_box_median_and_caps() {
    let mut buf = PixelBuffer::new(20, 20);
    let g = BoxGlyph { pixel_x: 5, whisker_top_y: 0, box_top_y: 5, median_y: 10, box_bottom_y: 14, whisker_bottom_y: 19 };
    paint_box(g, ORANGE, 5, &mut buf);
    assert_eq!(buf.get(3, 7), Some(ORANGE));
    assert_eq!(buf.get(7, 7), Some(ORANGE));
    assert_eq!(buf.get(1, 7), None);
    assert_eq!(buf.get(5, 10), Some(median_color()));
    assert_eq!(buf.get(5, 2), Some(ORANGE));
    // caps: a quarter of five cells is one pixel either side of the whisker
    assert_eq!(buf.get(4, 0), Some(ORANGE));
    assert_eq!(buf.get(6, 19), Some(ORANGE));
    assert_eq!(buf.get(3, 0), None);
}

#[test]
fn candle_paints_wick_and_body() {
    let mut buf = PixelBuffer::new(20, 20);
    paint_candle(5, 0, 19, 5, 10, 1, GRAY, &mut buf);
    assert_eq!(buf.get(5, 0), Some(GRAY));
    assert_eq!(buf.get(5, 19), Some(GRAY));
    assert_eq!(buf.get(4, 7), Some(GRAY));
    assert_eq!(buf.get(6, 10), Some(GRAY));
    assert_eq!(buf.get(4, 2), None);
    assert_eq!(painted(&buf), 20 + 2 * 6);
}

#[test]
fn violin_paints_rows_and_median() {
    let mut buf = PixelBuffer::new(20, 20);
    let mut widths = vec![0usize; 20];
    widths[9] = 4;
    widths[10] = 3;
    paint_violin(10, &widths, 10, ORANGE, &mut buf);
    assert_eq!(buf.get(10, 9), Some(ORANGE));
    assert_eq!(buf.get(6, 9), Some(ORANGE));
    assert_eq!(buf.get(14, 9), Some(ORANGE));
    assert_eq!(buf.get(5, 9), None);
    assert_eq!(buf.get(15, 9), None);
    assert_eq!(buf.get(10, 0), Some(ORANGE));
    assert_eq!(buf.get(11, 0), None);
    // the median spans the widest half-width, four pixels each side
    assert_eq!(buf.get(6, 10), Some(median_color()));
    assert_eq!(buf.get(14, 10), Some(median_color()));
}

#[test]
fn ridge_fills_down_to_baseline() {
    let mut buf = PixelBuffer::new(4, 10);
    paint_ridge(&vec![0, 3, 20], 6, ORANGE, &mut buf);
    assert_eq!(buf.get(0, 6), None);
    assert_eq!(buf.get(1, 3), Some(ORANGE));
    assert_eq!(buf.get(1, 6), Some(ORANGE));
    assert_eq!(buf.get(1, 2), None);
    assert_eq!(buf.get(2, 0), Some(ORANGE));
    assert_eq!(buf.get(2, 7), None);
    assert_eq!(painted(&buf), 4 + 7);
}

#[test]
fn series_draws_segments_and_points() {
    let mut buf = PixelBuffer::new(10, 10);
    paint_series(&vec![(0, 0), (4, 0), (4, 3)], ORANGE, &mut buf);
    for x in 0..=4 {
        assert_eq!(buf.get(x, 0), Some(ORANGE));
    }
    for y in 0..=3 {
        assert_eq!(buf.get(4, y), Some(ORANGE));
    }
    assert_eq!(painted(&buf), 8);
    let mut single = PixelBuffer::new(3, 3);
    paint_series(&vec![(1, 2)], GRAY, &mut single);
    assert_eq!(single.get(1, 2), Some(GRAY));
    assert_eq!(painted(&single), 1);
}

#[test]
fn points_outside_the_buffer_are_ignored() {
    let mut buf = PixelBuffer::new(3, 3);
    paint_points(&vec![(0, 0), (5, 1), (2, 2)], ORANGE, &mut buf);
    assert_eq!(painted(&buf), 2);
}

#[test]
fn leaf_and_cells_fill_rectangles() {
    let mut buf = PixelBuffer::new(10, 10);
    paint_leaf(2, 3, 3, 2, ORANGE, &mut buf);
    assert_eq!(painted(&buf), 6);
    assert_eq!(buf.get(4, 4), Some(ORANGE));
    paint_leaf(0, 0, 0, 5, GRAY, &mut buf);
    assert_eq!(painted(&buf), 6);
    let mut heat = PixelBuffer::new(6, 4);
    paint_heat_cell(1, 1, 3, GRAY, &mut heat);
    assert_eq!(painted(&heat), 6);
    assert_eq!(heat.get(3, 2), Some(GRAY));
    assert_eq!(heat.get(5, 3), Some(GRAY));
    assert_eq!(heat.get(2, 2), None);
}

#[test]
fn rows_and_columns_clip_to_the_buffer() {
    let mut buf = PixelBuffer::new(4, 4);
    paint_row(2, 9, 1, ORANGE, &mut buf);
    paint_column(0, 2, 9, GRAY, &mut buf);
    assert_eq!(painted(&buf), 2 + 2);
    assert_eq!(buf.get(3, 1), Some(ORANGE));
    assert_eq!(buf.get(0, 3), Some(GRAY));
}

#[test]
fn focal_item_is_painted_last() {
    let keys: Vec<String> = ["a", "b", "c"].iter().map(|s| s.to_string()).collect();
    assert_eq!(paint_order(&keys, Some("b")), vec![0, 2, 1]);
    assert_eq!(paint_order(&keys, None), vec![0, 1, 2]);
    assert_eq!(paint_order(&keys, Some("z")), vec![0, 1, 2]);
    let dup: Vec<String> = ["a", "b", "b"].iter().map(|s| s.to_string()).collect();
    assert_eq!(paint_order(&dup, Some("b")), vec![0, 1]);
}

#[test]
fn focal_series_wins_at_crossings() {
    let keys: Vec<String> = ["bg", "focal"].iter().map(|s| s.to_string()).collect();
    let lines = vec![vec![(0usize, 2usize), (4, 2)], vec![(2, 0), (2, 4)]];
    let colors = [GRAY, ORANGE];
    let mut buf = PixelBuffer::new(5, 5);
    for i in paint_order(&keys, Some("focal")) {
        paint_series(&lines[i], colors[i], &mut buf);
    }
    assert_eq!(buf.get(2, 2), Some(ORANGE));
    let mut buf2 = PixelBuffer::new(5, 5);
    for i in paint_order(&keys, Some("bg")) {
        paint_series(&lines[i], colors[i], &mut buf2);
    }
    assert_eq!(buf2.get(2, 2), Some(GRAY));
}
