use tplot::color::RgbColor;
use tplot::dataframe::comma_list;
use tplot::pixel_buffer::PixelBuffer;

const RED: RgbColor = RgbColor { r: 0xff, g: 0x00, b: 0x00 };

#[test]
fn new_buffer_is_transparent() {
    let buf = PixelBuffer::new(10, 8);
    assert_eq!(buf.cell_width(), 10);
    assert_eq!(buf.cell_height(), 4);
    assert_eq!(buf.get(0, 0), None);
}

#[test]
fn set_then_get_round_trips() {
    let mut buf = PixelBuffer::new(4, 4);
    buf.set(2, 1, RED);
    assert_eq!(buf.get(2, 1), Some(RED));
    assert_eq!(buf.get(0, 0), None);
}

#[test]
fn fill_rect_paints_inclusive_bounds() {
    let mut buf = PixelBuffer::new(8, 4);
    buf.fill_rect(2, 1, 5, 2, RED);
    for y in 1..=2 {
        for x in 2..=5 {
            assert_eq!(buf.get(x, y), Some(RED));
        }
    }
    assert_eq!(buf.get(1, 1), None);
    assert_eq!(buf.get(6, 1), None);
}

#[test]
fn draw_horizontal_line() {
    let mut buf = PixelBuffer::new(10, 4);
    buf.draw_line(1, 2, 8, 2, RED);
    for x in 1..=8 {
        assert_eq!(buf.get(x, 2), Some(RED), "missing pixel at x={x}");
    }
    assert_eq!(buf.get(0, 2), None);
    assert_eq!(buf.get(9, 2), None);
}

#[test]
fn draw_vertical_line() {
    let mut buf = PixelBuffer::new(4, 10);
    buf.draw_line(2, 1, 2, 8, RED);
    for y in 1..=8 {
        assert_eq!(buf.get(2, y), Some(RED), "missing pixel at y={y}");
    }
}

#[test]
fn draw_diagonal_line() {
    let mut buf = PixelBuffer::new(8, 8);
    buf.draw_line(0, 0, 7, 7, RED);
    for i in 0..=7 {
        assert_eq!(buf.get(i, i), Some(RED), "missing diagonal at ({i},{i})");
    }
}

#[test]
fn draw_line_works_in_either_direction() {
    let mut a = PixelBuffer::new(10, 10);
    let mut b = PixelBuffer::new(10, 10);
    a.draw_line(2, 1, 7, 8, RED);
    b.draw_line(7, 8, 2, 1, RED);
    for y in 0..10 {
        for x in 0..10 {
            assert_eq!(a.get(x, y), b.get(x, y), "asymmetry at ({x},{y})");
        }
    }
}

#[test]
fn comma_list_formats_with_backticks() {
    assert_eq!(comma_list(vec!["a", "b"]), "`a`, `b`");
    assert_eq!(comma_list(vec![]), "(none)");
}
