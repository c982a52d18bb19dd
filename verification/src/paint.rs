//! The shapes the rasterizers paint into a pixel buffer: series lines and
//! points, box plots, candles, violins, ridges, rectangles; and the order in
//! which series are painted so that the focal one ends on top.

use vstd::prelude::*;
use crate::color::RgbColor;
use crate::grouping::texts;
use crate::pixel_buffer::{fill_rect_touches_empty_buffer, in_rect, line_coord_limit, line_points, rect_hi, rect_lo, PixelBuffer};
use crate::geometry::sat_sub;

verus! {

/// The pixel lies inside the buffer.
pub open spec fn inside(b: PixelBuffer, x: int, y: int) -> bool {
    0 <= x < b.w() && 0 <= y < b.h()
}

/// Some point among the first `i` is `(x, y)`.
pub open spec fn listed(points: Seq<(usize, usize)>, i: int, x: int, y: int) -> bool
    decreases i,
{
    if i <= 0 {
        false
    } else {
        listed(points, i - 1, x, y) || (points[i - 1].0 == x && points[i - 1].1 == y)
    }
}

/// `(x, y)` lies on one of the line segments joining point `j - 1` to point
/// `j`, for `1 <= j <= i` (and `j` a point).
pub open spec fn on_polyline(points: Seq<(usize, usize)>, i: int, x: int, y: int) -> bool
    decreases i,
{
    if i <= 0 {
        false
    } else {
        on_polyline(points, i - 1, x, y) || (i < points.len() && line_points(
            points[i - 1].0 as int,
            points[i - 1].1 as int,
            points[i].0 as int,
            points[i].1 as int,
        ).contains((x, y)))
    }
}

/// Every coordinate is small enough for the line algorithm.
pub open spec fn drawable(points: Seq<(usize, usize)>) -> bool {
    forall|k: int| 0 <= k < points.len() ==> (#[trigger] points[k]).0 <= line_coord_limit() && points[k].1 <= line_coord_limit()
}

/// One line series: its key and its points in sub-pixel coordinates of the
/// plot (rows grow downwards).
#[derive(Debug, Clone)]
pub struct LineSeries {
    pub key: String,
    pub points: Vec<(usize, usize)>,
}

/// One scatter series: its key and its points in sub-pixel coordinates of
/// the plot.
#[derive(Debug, Clone)]
pub struct ScatterSeries {
    pub key: String,
    pub points: Vec<(usize, usize)>,
}

/// Paints each point; points outside the buffer are ignored.
pub fn paint_points(points: &Vec<(usize, usize)>, color: RgbColor, buf: &mut PixelBuffer)
    requires
        old(buf).wf(),
    ensures
        final(buf).wf(),
        final(buf).w() == old(buf).w(),
        final(buf).h() == old(buf).h(),
        forall|x: int, y: int| #[trigger] final(buf).at(x, y) == if listed(points@, points@.len() as int, x, y) && inside(*old(buf), x, y) {
            Some(color)
        } else {
            old(buf).at(x, y)
        },
{
    let ghost before = *buf;
    let mut k: usize = 0;
    while k < points.len()
        invariant
            buf.wf(),
            buf.w() == before.w(),
            buf.h() == before.h(),
            k <= points@.len(),
            forall|x: int, y: int| #[trigger] buf.at(x, y) == if listed(points@, k as int, x, y) && inside(before, x, y) {
                Some(color)
            } else {
                before.at(x, y)
            },
        decreases points@.len() - k,
    {
        let (x, y) = points[k];
        buf.set(x, y, color);
        k = k + 1;
    }
}

/// Paints a series: the line segments joining consecutive points, then each
/// point itself so that very short series stay visible.
pub fn paint_series(points: &Vec<(usize, usize)>, color: RgbColor, buf: &mut PixelBuffer)
    requires
        old(buf).wf(),
        drawable(points@),
    ensures
        final(buf).wf(),
        final(buf).w() == old(buf).w(),
        final(buf).h() == old(buf).h(),
        forall|x: int, y: int| #[trigger] final(buf).at(x, y) == if (on_polyline(points@, points@.len() as int, x, y)
            || listed(points@, points@.len() as int, x, y)) && inside(*old(buf), x, y) {
            Some(color)
        } else {
            old(buf).at(x, y)
        },
{
    let ghost before = *buf;
    let mut j: usize = 1;
    while j < points.len()
        invariant
            buf.wf(),
            buf.w() == before.w(),
            buf.h() == before.h(),
            drawable(points@),
            1 <= j,
            j <= points@.len() || j == 1,
            forall|x: int, y: int| #[trigger] buf.at(x, y) == if on_polyline(points@, j - 1, x, y) && inside(before, x, y) {
                Some(color)
            } else {
                before.at(x, y)
            },
        decreases points@.len() - j,
    {
        let (x0, y0) = points[j - 1];
        let (x1, y1) = points[j];
        proof {
            assert(points@[j - 1].0 <= line_coord_limit() && points@[j - 1].1 <= line_coord_limit());
            assert(points@[j as int].0 <= line_coord_limit() && points@[j as int].1 <= line_coord_limit());
        }
        buf.draw_line(x0, y0, x1, y1, color);
        j = j + 1;
    }
    proof {
        assert forall|x: int, y: int| on_polyline(points@, j - 1, x, y) == on_polyline(points@, points@.len() as int, x, y) by {
            if points@.len() > 0 {
                assert(j == points@.len());
                assert(on_polyline(points@, j as int, x, y) == (on_polyline(points@, j - 1, x, y) || (j < points@.len() && line_points(
                    points@[j - 1].0 as int,
                    points@[j - 1].1 as int,
                    points@[j as int].0 as int,
                    points@[j as int].1 as int,
                ).contains((x, y)))));
            } else {
                assert(j == 1);
                assert(on_polyline(points@, 0, x, y) == false);
            }
        }
    }
    let ghost mid = *buf;
    paint_points(points, color, buf);
    proof {
        assert forall|x: int, y: int| #[trigger] buf.at(x, y) == if (on_polyline(points@, points@.len() as int, x, y)
            || listed(points@, points@.len() as int, x, y)) && inside(before, x, y) {
            Some(color)
        } else {
            before.at(x, y)
        } by {
            assert(mid.at(x, y) == if on_polyline(points@, j - 1, x, y) && inside(before, x, y) { Some(color) } else { before.at(x, y) });
        }
    }
}

/// The rectangle `w` by `h` pixels at `(x, y)`, as painted: empty when either
/// side is zero.
pub open spec fn leaf_covers(x: int, y: int, w: int, h: int, b: PixelBuffer, px: int, py: int) -> bool {
    w > 0 && h > 0 && in_rect(px, py, x, rect_hi(x as usize, (x + w - 1) as usize, b.w()), y, rect_hi(
        y as usize,
        (y + h - 1) as usize,
        b.h(),
    ))
}

/// Paints a `w` by `h` rectangle whose top-left pixel is `(x, y)`, clipped to
/// the buffer; nothing when either side is zero.
pub fn paint_leaf(x: usize, y: usize, w: usize, h: usize, color: RgbColor, buf: &mut PixelBuffer)
    requires
        old(buf).wf(),
        x + w <= usize::MAX,
        y + h <= usize::MAX,
        w > 0 && h > 0 ==> !fill_rect_touches_empty_buffer(old(buf).w(), old(buf).h(), x, y, (x + w - 1) as usize, (y + h - 1) as usize),
    ensures
        final(buf).wf(),
        final(buf).w() == old(buf).w(),
        final(buf).h() == old(buf).h(),
        forall|px: int, py: int| #[trigger] final(buf).at(px, py) == if leaf_covers(x as int, y as int, w as int, h as int, *old(buf), px, py) {
            Some(color)
        } else {
            old(buf).at(px, py)
        },
{
    if w == 0 || h == 0 {
        return;
    }
    buf.fill_rect(x, y, x + (w - 1), y + (h - 1), color);
}

/// The pixel belongs to the ridge: a column `px` with a positive height `h`
/// covers the rows from `h` above the baseline (or the top) to the baseline.
pub open spec fn ridge_covers(heights: Seq<usize>, baseline_y: int, px: int, py: int) -> bool {
    &&& 0 <= px < heights.len()
    &&& heights[px] > 0
    &&& sat_sub(baseline_y, heights[px] as int) <= py <= baseline_y
}

/// Paints a ridge: in each column, the filled area from the curve's height
/// down to the baseline.
pub fn paint_ridge(heights: &Vec<usize>, baseline_y: usize, color: RgbColor, buf: &mut PixelBuffer)
    requires
        old(buf).wf(),
    ensures
        final(buf).wf(),
        final(buf).w() == old(buf).w(),
        final(buf).h() == old(buf).h(),
        forall|x: int, y: int| #[trigger] final(buf).at(x, y) == if ridge_covers(heights@, baseline_y as int, x, y) && inside(*old(buf), x, y) {
            Some(color)
        } else {
            old(buf).at(x, y)
        },
{
    let ghost before = *buf;
    let mut px: usize = 0;
    while px < heights.len()
        invariant
            buf.wf(),
            buf.w() == before.w(),
            buf.h() == before.h(),
            px <= heights@.len(),
            forall|x: int, y: int| #[trigger] buf.at(x, y) == if x < px && ridge_covers(heights@, baseline_y as int, x, y) && inside(before, x, y) {
                Some(color)
            } else {
                before.at(x, y)
            },
        decreases heights@.len() - px,
    {
        let h = heights[px];
        if h > 0 {
            let top = if baseline_y >= h { baseline_y - h } else { 0 };
            let ghost mid = *buf;
            paint_column(px, top, baseline_y, color, buf);
            proof {
                assert forall|x: int, y: int| #[trigger] buf.at(x, y) == if x < px + 1 && ridge_covers(heights@, baseline_y as int, x, y) && inside(before, x, y) {
                    Some(color)
                } else {
                    before.at(x, y)
                } by {
                    assert(mid.at(x, y) == if x < px && ridge_covers(heights@, baseline_y as int, x, y) && inside(before, x, y) { Some(color) } else { before.at(x, y) });
                }
            }
        }
        px = px + 1;
    }
}

/// Which items to paint, in order: every item that is not the focal one, in
/// input order, then the focal item (the first whose key is the focal name)
/// last, so that it ends up on top.
pub open spec fn others_before(keys: Seq<Seq<char>>, focal: Option<Seq<char>>, hi: int) -> Seq<usize>
    decreases hi,
{
    if hi <= 0 {
        Seq::empty()
    } else if focal matches Some(f) && keys[hi - 1] == f {
        others_before(keys, focal, hi - 1)
    } else {
        others_before(keys, focal, hi - 1).push((hi - 1) as usize)
    }
}

/// The order in which to paint items with the given keys so that the focal
/// one is painted last: the non-focal items in input order, then the first
/// item whose key is the focal name, if there is one.
pub fn paint_order(keys: &Vec<String>, focal: Option<&str>) -> (r: Vec<usize>)
    ensures
        ({
            let f = match focal { Some(s) => Some(s@), None => None::<Seq<char>> };
            let rest = others_before(texts(keys@), f, keys@.len() as int);
            match focal {
                Some(s) => if texts(keys@).contains(s@) {
                    exists|i: int| crate::table::first_named(texts(keys@), s@, i) && r@ == rest.push(i as usize)
                } else {
                    r@ == rest
                },
                None => r@ == rest,
            }
        }),
{
    let ghost f = match focal { Some(s) => Some(s@), None => None::<Seq<char>> };
    let mut r: Vec<usize> = Vec::new();
    let mut i: usize = 0;
    while i < keys.len()
        invariant
            i <= keys@.len(),
            f == match focal { Some(s) => Some(s@), None => None::<Seq<char>> },
            r@ == others_before(texts(keys@), f, i as int),
        decreases keys@.len() - i,
    {
        let is_focal = match focal {
            Some(s) => {
                let t = s.to_string();
                keys[i] == t
            },
            None => false,
        };
        proof {
            assert(texts(keys@)[i as int] == keys@[i as int]@);
        }
        if !is_focal {
            r.push(i);
        }
        i = i + 1;
    }
    match focal {
        Some(s) => {
            match crate::dataframe::find_name(keys, s) {
                Some(j) => {
                    r.push(j);
                    proof {
                        assert(crate::table::first_named(texts(keys@), s@, j as int));
                    }
                },
                None => {},
            }
        },
        None => {},
    }
    r
}

/// The color of the median line of boxes and violins.
pub open spec fn spec_median_color() -> RgbColor {
    RgbColor { r: 0xf0, g: 0xf6, b: 0xfc }
}

/// The color of the median line of boxes and violins.
pub fn median_color() -> (c: RgbColor)
    ensures
        c == spec_median_color(),
{
    RgbColor { r: 0xf0, g: 0xf6, b: 0xfc }
}

/// Paints the pixels `x0..=x1` of row `y`.
pub fn paint_row(x0: usize, x1: usize, y: usize, color: RgbColor, buf: &mut PixelBuffer)
    requires
        old(buf).wf(),
    ensures
        final(buf).wf(),
        final(buf).w() == old(buf).w(),
        final(buf).h() == old(buf).h(),
        forall|px: int, py: int| #[trigger] final(buf).at(px, py) == if py == y && x0 <= px <= x1 && inside(*old(buf), px, py) {
            Some(color)
        } else {
            old(buf).at(px, py)
        },
{
    if x0 > x1 {
        return;
    }
    let ghost before = *buf;
    let mut x = x0;
    loop
        invariant_except_break
            forall|px: int, py: int| #[trigger] buf.at(px, py) == if py == y && x0 <= px < x && inside(before, px, py) {
                Some(color)
            } else {
                before.at(px, py)
            },
        invariant
            buf.wf(),
            buf.w() == before.w(),
            buf.h() == before.h(),
            x0 <= x <= x1,
        ensures
            buf.wf(),
            buf.w() == before.w(),
            buf.h() == before.h(),
            forall|px: int, py: int| #[trigger] buf.at(px, py) == if py == y && x0 <= px <= x1 && inside(before, px, py) {
                Some(color)
            } else {
                before.at(px, py)
            },
        decreases x1 - x,
    {
        buf.set(x, y, color);
        if x == x1 {
            break;
        }
        x = x + 1;
    }
}

/// Paints the pixels `y0..=y1` of column `x`.
pub fn paint_column(x: usize, y0: usize, y1: usize, color: RgbColor, buf: &mut PixelBuffer)
    requires
        old(buf).wf(),
    ensures
        final(buf).wf(),
        final(buf).w() == old(buf).w(),
        final(buf).h() == old(buf).h(),
        forall|px: int, py: int| #[trigger] final(buf).at(px, py) == if px == x && y0 <= py <= y1 && inside(*old(buf), px, py) {
            Some(color)
        } else {
            old(buf).at(px, py)
        },
{
    if y0 > y1 {
        return;
    }
    let ghost before = *buf;
    let mut y = y0;
    loop
        invariant_except_break
            forall|px: int, py: int| #[trigger] buf.at(px, py) == if px == x && y0 <= py < y && inside(before, px, py) {
                Some(color)
            } else {
                before.at(px, py)
            },
        invariant
            buf.wf(),
            buf.w() == before.w(),
            buf.h() == before.h(),
            y0 <= y <= y1,
        ensures
            buf.wf(),
            buf.w() == before.w(),
            buf.h() == before.h(),
            forall|px: int, py: int| #[trigger] buf.at(px, py) == if px == x && y0 <= py <= y1 && inside(before, px, py) {
                Some(color)
            } else {
                before.at(px, py)
            },
        decreases y1 - y,
    {
        buf.set(x, y, color);
        if y == y1 {
            break;
        }
        y = y + 1;
    }
}

/// The pixel rows of one box of a box plot, and the column of its whisker.
#[derive(Debug, Clone, Copy, PartialEq, Eq, Structural)]
pub struct BoxGlyph {
    pub pixel_x: usize,
    pub whisker_top_y: usize,
    pub box_top_y: usize,
    pub median_y: usize,
    pub box_bottom_y: usize,
    pub whisker_bottom_y: usize,
}

/// The filled rectangle spanned by two corners, as `fill_rect` clips it.
pub open spec fn rect_covers(b: PixelBuffer, x0: usize, y0: usize, x1: usize, y1: usize, x: int, y: int) -> bool {
    in_rect(x, y, rect_lo(x0, x1), rect_hi(x0, x1, b.w()), rect_lo(y0, y1), rect_hi(y0, y1, b.h()))
}

/// What a box plot's box leaves at a pixel, drawn over `b`: the whisker
/// caps, over the median line, over the box, over the whisker line.
pub open spec fn box_pixel(g: BoxGlyph, color: RgbColor, bar_cells: usize, b: PixelBuffer, x: int, y: int) -> Option<RgbColor> {
    let half = bar_cells / 2;
    let x0 = sat_sub(g.pixel_x as int, half as int);
    let x1 = g.pixel_x + half;
    let cap = if bar_cells / 4 > 1 { bar_cells / 4 } else { 1 };
    let cx0 = sat_sub(g.pixel_x as int, cap as int);
    let cx1 = g.pixel_x + cap;
    if (y == g.whisker_top_y || y == g.whisker_bottom_y) && cx0 <= x <= cx1 && inside(b, x, y) {
        Some(color)
    } else if y == g.median_y && x0 <= x <= x1 && inside(b, x, y) {
        Some(spec_median_color())
    } else if rect_covers(b, x0 as usize, g.box_top_y, x1 as usize, g.box_bottom_y, x, y) {
        Some(color)
    } else if line_points(g.pixel_x as int, g.whisker_top_y as int, g.pixel_x as int, g.whisker_bottom_y as int).contains((x, y))
        && inside(b, x, y) {
        Some(color)
    } else {
        b.at(x, y)
    }
}

/// Paints one box of a box plot: the whisker from top to bottom, the box
/// between the quartiles, the median line across the box, and short caps at
/// the whisker ends.
pub fn paint_box(g: BoxGlyph, color: RgbColor, bar_cells: usize, buf: &mut PixelBuffer)
    requires
        old(buf).wf(),
        g.pixel_x <= line_coord_limit(),
        g.whisker_top_y <= line_coord_limit(),
        g.whisker_bottom_y <= line_coord_limit(),
        g.pixel_x + bar_cells + 1 <= usize::MAX,
        !fill_rect_touches_empty_buffer(
            old(buf).w(),
            old(buf).h(),
            sat_sub(g.pixel_x as int, (bar_cells / 2) as int) as usize,
            g.box_top_y,
            (g.pixel_x + bar_cells / 2) as usize,
            g.box_bottom_y,
        ),
    ensures
        final(buf).wf(),
        final(buf).w() == old(buf).w(),
        final(buf).h() == old(buf).h(),
        forall|x: int, y: int| #[trigger] final(buf).at(x, y) == box_pixel(g, color, bar_cells, *old(buf), x, y),
{
    let ghost b0 = *buf;
    let half = bar_cells / 2;
    let x0 = if g.pixel_x >= half { g.pixel_x - half } else { 0 };
    let x1 = g.pixel_x + half;
    buf.draw_line(g.pixel_x, g.whisker_top_y, g.pixel_x, g.whisker_bottom_y, color);
    let ghost b1 = *buf;
    buf.fill_rect(x0, g.box_top_y, x1, g.box_bottom_y, color);
    let ghost b2 = *buf;
    paint_row(x0, x1, g.median_y, median_color(), buf);
    let ghost b3 = *buf;
    let quarter = bar_cells / 4;
    let cap = if quarter > 1 { quarter } else { 1 };
    let cx0 = if g.pixel_x >= cap { g.pixel_x - cap } else { 0 };
    let cx1 = g.pixel_x + cap;
    paint_row(cx0, cx1, g.whisker_top_y, color, buf);
    paint_row(cx0, cx1, g.whisker_bottom_y, color, buf);
    proof {
        assert forall|x: int, y: int| #[trigger] buf.at(x, y) == box_pixel(g, color, bar_cells, b0, x, y) by {
            assert(b1.at(x, y) == if line_points(g.pixel_x as int, g.whisker_top_y as int, g.pixel_x as int, g.whisker_bottom_y as int).contains((x, y))
                && 0 <= x < b0.w() && 0 <= y < b0.h() { Some(color) } else { b0.at(x, y) });
            assert(b2.at(x, y) == if rect_covers(b0, x0, g.box_top_y, x1, g.box_bottom_y, x, y) { Some(color) } else { b1.at(x, y) });
            assert(b3.at(x, y) == if y == g.median_y && x0 <= x <= x1 && inside(b0, x, y) { Some(spec_median_color()) } else { b2.at(x, y) });
        }
    }
}

/// What a candle leaves at a pixel, drawn over `b`: the body over the wick.
pub open spec fn candle_pixel(
    pixel_x: usize,
    wick_top_y: usize,
    wick_bottom_y: usize,
    body_top_y: usize,
    body_bottom_y: usize,
    half: usize,
    color: RgbColor,
    b: PixelBuffer,
    x: int,
    y: int,
) -> Option<RgbColor> {
    if rect_covers(b, sat_sub(pixel_x as int, half as int) as usize, body_top_y, (pixel_x + half) as usize, body_bottom_y, x, y) {
        Some(color)
    } else if line_points(pixel_x as int, wick_top_y as int, pixel_x as int, wick_bottom_y as int).contains((x, y)) && inside(b, x, y) {
        Some(color)
    } else {
        b.at(x, y)
    }
}

/// Paints one candle: the wick from high to low, then the body from open to
/// close, `half` pixels either side of the wick.
pub fn paint_candle(
    pixel_x: usize,
    wick_top_y: usize,
    wick_bottom_y: usize,
    body_top_y: usize,
    body_bottom_y: usize,
    half: usize,
    color: RgbColor,
    buf: &mut PixelBuffer,
)
    requires
        old(buf).wf(),
        pixel_x <= line_coord_limit(),
        wick_top_y <= line_coord_limit(),
        wick_bottom_y <= line_coord_limit(),
        pixel_x + half <= usize::MAX,
        !fill_rect_touches_empty_buffer(
            old(buf).w(),
            old(buf).h(),
            sat_sub(pixel_x as int, half as int) as usize,
            body_top_y,
            (pixel_x + half) as usize,
            body_bottom_y,
        ),
    ensures
        final(buf).wf(),
        final(buf).w() == old(buf).w(),
        final(buf).h() == old(buf).h(),
        forall|x: int, y: int| #[trigger] final(buf).at(x, y) == candle_pixel(
            pixel_x,
            wick_top_y,
            wick_bottom_y,
            body_top_y,
            body_bottom_y,
            half,
            color,
            *old(buf),
            x,
            y,
        ),
{
    let ghost b0 = *buf;
    buf.draw_line(pixel_x, wick_top_y, pixel_x, wick_bottom_y, color);
    let ghost b1 = *buf;
    let x0 = if pixel_x >= half { pixel_x - half } else { 0 };
    buf.fill_rect(x0, body_top_y, pixel_x + half, body_bottom_y, color);
    proof {
        assert forall|x: int, y: int| #[trigger] buf.at(x, y) == candle_pixel(
            pixel_x, wick_top_y, wick_bottom_y, body_top_y, body_bottom_y, half, color, b0, x, y) by {
            assert(b1.at(x, y) == if line_points(pixel_x as int, wick_top_y as int, pixel_x as int, wick_bottom_y as int).contains((x, y))
                && 0 <= x < b0.w() && 0 <= y < b0.h() { Some(color) } else { b0.at(x, y) });
        }
    }
}

/// Row `y` of a violin's body covers `x`: the centerline alone where the
/// half-width is zero, else the half-width either side of it.
pub open spec fn violin_body(half_widths: Seq<usize>, pixel_x: int, x: int, y: int) -> bool {
    &&& 0 <= y < half_widths.len()
    &&& if half_widths[y] == 0 {
        x == pixel_x
    } else {
        sat_sub(pixel_x, half_widths[y] as int) <= x <= pixel_x + half_widths[y]
    }
}

/// The largest of the half-widths, 0 when there are none.
pub open spec fn max_width(half_widths: Seq<usize>, hi: int) -> int
    decreases hi,
{
    if hi <= 0 {
        0
    } else {
        let m = max_width(half_widths, hi - 1);
        if half_widths[hi - 1] > m { half_widths[hi - 1] as int } else { m }
    }
}

/// No row of the violin's body would fill pixels of a buffer that has none.
pub open spec fn violin_rows_fit(b: PixelBuffer, half_widths: Seq<usize>, pixel_x: usize) -> bool {
    forall|y: int| 0 <= y < half_widths.len() && #[trigger] half_widths[y] > 0 ==> !fill_rect_touches_empty_buffer(
        b.w(),
        b.h(),
        sat_sub(pixel_x as int, half_widths[y] as int) as usize,
        y as usize,
        (pixel_x + half_widths[y]) as usize,
        y as usize,
    )
}

proof fn lemma_max_width(half_widths: Seq<usize>, hi: int)
    requires
        0 <= hi <= half_widths.len(),
    ensures
        0 <= max_width(half_widths, hi),
        forall|y: int| 0 <= y < hi ==> half_widths[y] <= max_width(half_widths, hi),
        hi > 0 ==> exists|y: int| 0 <= y < hi && half_widths[y] == max_width(half_widths, hi),
    decreases hi,
{
    if hi > 0 {
        lemma_max_width(half_widths, hi - 1);
    }
}

/// Paints a violin: each pixel row of its body, then the median line across
/// its widest part.
pub fn paint_violin(pixel_x: usize, half_widths: &Vec<usize>, median_y: usize, color: RgbColor, buf: &mut PixelBuffer)
    requires
        old(buf).wf(),
        forall|y: int| 0 <= y < half_widths@.len() ==> pixel_x + #[trigger] half_widths@[y] <= usize::MAX,
        violin_rows_fit(*old(buf), half_widths@, pixel_x),
    ensures
        final(buf).wf(),
        final(buf).w() == old(buf).w(),
        final(buf).h() == old(buf).h(),
        forall|x: int, y: int| #[trigger] final(buf).at(x, y) == {
            let m = max_width(half_widths@, half_widths@.len() as int);
            if y == median_y && sat_sub(pixel_x as int, m) <= x <= pixel_x + m && inside(*old(buf), x, y) {
                Some(spec_median_color())
            } else if violin_body(half_widths@, pixel_x as int, x, y) && inside(*old(buf), x, y) {
                Some(color)
            } else {
                old(buf).at(x, y)
            }
        },
{
    let ghost before = *buf;
    let mut py: usize = 0;
    let mut widest: usize = 0;
    while py < half_widths.len()
        invariant
            buf.wf(),
            buf.w() == before.w(),
            buf.h() == before.h(),
            py <= half_widths@.len(),
            forall|y: int| 0 <= y < half_widths@.len() ==> pixel_x + #[trigger] half_widths@[y] <= usize::MAX,
            violin_rows_fit(before, half_widths@, pixel_x),
            widest == max_width(half_widths@, py as int),
            forall|x: int, y: int| #[trigger] buf.at(x, y) == if y < py && violin_body(half_widths@, pixel_x as int, x, y) && inside(before, x, y) {
                Some(color)
            } else {
                before.at(x, y)
            },
        decreases half_widths@.len() - py,
    {
        let hw = half_widths[py];
        if hw == 0 {
            buf.set(pixel_x, py, color);
        } else {
            let x0 = if pixel_x >= hw { pixel_x - hw } else { 0 };
            assert(half_widths@[py as int] > 0);
            let ghost mid = *buf;
            buf.fill_rect(x0, py, pixel_x + hw, py, color);
            proof {
                assert forall|x: int, y: int| #[trigger] buf.at(x, y) == if y < py + 1 && violin_body(half_widths@, pixel_x as int, x, y) && inside(before, x, y) {
                    Some(color)
                } else {
                    before.at(x, y)
                } by {
                    assert(mid.at(x, y) == if y < py && violin_body(half_widths@, pixel_x as int, x, y) && inside(before, x, y) { Some(color) } else { before.at(x, y) });
                }
            }
        }
        if hw > widest {
            widest = hw;
        }
        py = py + 1;
    }
    proof {
        lemma_max_width(half_widths@, half_widths@.len() as int);
        if half_widths@.len() > 0 {
            let y = choose|y: int| 0 <= y < half_widths@.len() && half_widths@[y] == max_width(half_widths@, half_widths@.len() as int);
            assert(pixel_x + half_widths@[y] <= usize::MAX);
        }
    }
    let mx0 = if pixel_x >= widest { pixel_x - widest } else { 0 };
    paint_row(mx0, pixel_x + widest, median_y, median_color(), buf);
}

/// Paints heatmap cell `(xi, yi)`: `cell_w` pixels wide and two rows tall.
pub fn paint_heat_cell(xi: usize, yi: usize, cell_w: usize, color: RgbColor, buf: &mut PixelBuffer)
    requires
        old(buf).wf(),
        cell_w >= 1,
        (xi + 1) * cell_w <= usize::MAX,
        2 * yi + 1 <= usize::MAX,
        !fill_rect_touches_empty_buffer(old(buf).w(), old(buf).h(), (xi * cell_w) as usize, (2 * yi) as usize,
            (xi * cell_w + cell_w - 1) as usize, (2 * yi + 1) as usize),
    ensures
        final(buf).wf(),
        final(buf).w() == old(buf).w(),
        final(buf).h() == old(buf).h(),
        forall|x: int, y: int| #[trigger] final(buf).at(x, y) == if rect_covers(*old(buf), (xi * cell_w) as usize, (2 * yi) as usize,
            (xi * cell_w + cell_w - 1) as usize, (2 * yi + 1) as usize, x, y) {
            Some(color)
        } else {
            old(buf).at(x, y)
        },
{
    proof {
        assert((xi + 1) * cell_w == xi * cell_w + cell_w) by (nonlinear_arith);
    }
    let x0 = xi * cell_w;
    let y0 = 2 * yi;
    buf.fill_rect(x0, y0, x0 + cell_w - 1, y0 + 1, color);
}

} // verus!
