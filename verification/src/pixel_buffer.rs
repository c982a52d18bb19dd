//! A grid of sub-pixels, each empty or holding a color, with the drawing
//! primitives the rasterizers use.

use vstd::prelude::*;
use crate::color::RgbColor;

verus! {

/// Sub-pixel buffer: `width` columns by `height` rows, stored row-major.
#[derive(Debug, Clone)]
pub struct PixelBuffer {
    width: usize,
    height: usize,
    pixels: Vec<Option<RgbColor>>,
}

proof fn lemma_index_in_bounds(w: int, h: int, x: int, y: int)
    requires
        0 <= x < w,
        0 <= y < h,
    ensures
        0 <= y * w + x < w * h,
{
    assert(y * w + x < w * h) by (nonlinear_arith)
        requires
            0 <= x < w,
            0 <= y < h,
    ;
    assert(0 <= y * w) by (nonlinear_arith)
        requires
            0 <= y,
            0 <= w,
    ;
}

proof fn lemma_index_injective(w: int, x1: int, y1: int, x2: int, y2: int)
    requires
        0 <= x1 < w,
        0 <= x2 < w,
        0 <= y1,
        0 <= y2,
        y1 * w + x1 == y2 * w + x2,
    ensures
        x1 == x2,
        y1 == y2,
{
    if y1 < y2 {
        assert((y1 + 1) * w <= y2 * w) by (nonlinear_arith)
            requires
                y1 + 1 <= y2,
                0 <= w,
        ;
        assert((y1 + 1) * w == y1 * w + w) by (nonlinear_arith);
    } else if y2 < y1 {
        assert((y2 + 1) * w <= y1 * w) by (nonlinear_arith)
            requires
                y2 + 1 <= y1,
                0 <= w,
        ;
        assert((y2 + 1) * w == y2 * w + w) by (nonlinear_arith);
    }
}

/// Whether `(x, y)` lies in the inclusive rectangle `[x_lo, x_hi] x [y_lo, y_hi]`.
pub open spec fn in_rect(x: int, y: int, x_lo: int, x_hi: int, y_lo: int, y_hi: int) -> bool {
    x_lo <= x <= x_hi && y_lo <= y <= y_hi
}

impl PixelBuffer {
    /// The storage holds exactly one entry per pixel.
    pub closed spec fn wf(self) -> bool {
        self.pixels@.len() == self.width * self.height
    }

    /// Width in sub-pixel columns.
    pub closed spec fn w(self) -> nat {
        self.width as nat
    }

    /// Height in sub-pixel rows.
    pub closed spec fn h(self) -> nat {
        self.height as nat
    }

    /// The pixel at `(x, y)`; empty outside the buffer.
    pub closed spec fn at(self, x: int, y: int) -> Option<RgbColor> {
        if 0 <= x < self.width && 0 <= y < self.height {
            self.pixels@[y * self.width + x]
        } else {
            None
        }
    }

    /// Outside the buffer there are no pixels.
    pub proof fn lemma_at_outside(self, x: int, y: int)
        requires
            !(0 <= x < self.w() && 0 <= y < self.h()),
        ensures
            self.at(x, y) is None,
    {
    }

    /// A transparent buffer of `width` by `height` sub-pixels.
    pub fn new(width: usize, height: usize) -> (b: PixelBuffer)
        requires
            width * height <= usize::MAX,
        ensures
            b.wf(),
            b.w() == width,
            b.h() == height,
            forall|x: int, y: int| #[trigger] b.at(x, y) is None,
    {
        let n = width * height;
        let mut pixels: Vec<Option<RgbColor>> = Vec::new();
        let mut i: usize = 0;
        while i < n
            invariant
                i <= n,
                pixels@.len() == i,
                forall|k: int| 0 <= k < i ==> #[trigger] pixels@[k] is None,
            decreases n - i,
        {
            pixels.push(None);
            i = i + 1;
        }
        let b = PixelBuffer { width, height, pixels };
        assert forall|x: int, y: int| #[trigger] b.at(x, y) is None by {
            if 0 <= x < width && 0 <= y < height {
                lemma_index_in_bounds(width as int, height as int, x, y);
            }
        }
        b
    }

    /// Width in sub-pixel columns.
    pub fn pixel_width(&self) -> (w: usize)
        ensures
            w == self.w(),
    {
        self.width
    }

    /// Height in sub-pixel rows.
    pub fn pixel_height(&self) -> (h: usize)
        ensures
            h == self.h(),
    {
        self.height
    }

    /// Width in terminal cells for half-block rendering (one column each).
    pub fn cell_width(&self) -> (w: usize)
        ensures
            w == self.w(),
    {
        self.width
    }

    /// Height in terminal cells for half-block rendering (two rows each,
    /// rounded up).
    pub fn cell_height(&self) -> (h: usize)
        ensures
            h == (self.h() + 1) / 2,
    {
        self.height / 2 + self.height % 2
    }

    /// The pixel at `(x, y)`, or `None` when empty or outside the buffer.
    pub fn get(&self, x: usize, y: usize) -> (c: Option<RgbColor>)
        requires
            self.wf(),
        ensures
            c == self.at(x as int, y as int),
    {
        if x >= self.width || y >= self.height {
            return None;
        }
        proof {
            lemma_index_in_bounds(self.width as int, self.height as int, x as int, y as int);
            assert(self.pixels@.len() == self.width * self.height);
        }
        let len = self.pixels.len();
        assert(y * self.width + x < len);
        self.pixels[y * self.width + x]
    }

    /// Paints `(x, y)`; points outside the buffer are ignored.
    pub fn set(&mut self, x: usize, y: usize, color: RgbColor)
        requires
            old(self).wf(),
        ensures
            final(self).wf(),
            final(self).w() == old(self).w(),
            final(self).h() == old(self).h(),
            forall|px: int, py: int| #[trigger] final(self).at(px, py) == if px == x && py == y && px
                < old(self).w() && py < old(self).h() {
                Some(color)
            } else {
                old(self).at(px, py)
            },
    {
        if x >= self.width || y >= self.height {
            return;
        }
        proof {
            lemma_index_in_bounds(self.width as int, self.height as int, x as int, y as int);
            assert(self.pixels@.len() == self.width * self.height);
        }
        let len = self.pixels.len();
        assert(y * self.width + x < len);
        let idx = y * self.width + x;
        let ghost old_pixels = self.pixels@;
        let ghost w = self.width as int;
        let ghost h = self.height as int;
        self.pixels.set(idx, Some(color));
        assert forall|px: int, py: int| #[trigger] self.at(px, py) == if px == x && py == y && px < w
            && py < h {
            Some(color)
        } else {
            (if 0 <= px < w && 0 <= py < h { old_pixels[py * w + px] } else { None })
        } by {
            if 0 <= px < w && 0 <= py < h {
                lemma_index_in_bounds(w, h, px, py);
                if py * w + px == idx as int {
                    lemma_index_injective(w, px, py, x as int, y as int);
                }
            }
        }
    }
    /// Fills the inclusive rectangle spanned by the two corners, clipped to
    /// the buffer's right and bottom edges.
    pub fn fill_rect(&mut self, x0: usize, y0: usize, x1: usize, y1: usize, color: RgbColor)
        requires
            old(self).wf(),
            !fill_rect_touches_empty_buffer(old(self).w(), old(self).h(), x0, y0, x1, y1),
        ensures
            final(self).wf(),
            final(self).w() == old(self).w(),
            final(self).h() == old(self).h(),
            forall|px: int, py: int| #[trigger] final(self).at(px, py) == if in_rect(
                px,
                py,
                rect_lo(x0, x1),
                rect_hi(x0, x1, old(self).w()),
                rect_lo(y0, y1),
                rect_hi(y0, y1, old(self).h()),
            ) {
                Some(color)
            } else {
                old(self).at(px, py)
            },
    {
        let x_lo = if x0 < x1 { x0 } else { x1 };
        let x_max = if x0 < x1 { x1 } else { x0 };
        let wm1 = if self.width > 0 { self.width - 1 } else { 0 };
        let x_hi = if x_max < wm1 { x_max } else { wm1 };
        let y_lo = if y0 < y1 { y0 } else { y1 };
        let y_max = if y0 < y1 { y1 } else { y0 };
        let hm1 = if self.height > 0 { self.height - 1 } else { 0 };
        let y_hi = if y_max < hm1 { y_max } else { hm1 };
        let ghost before = *self;
        if x_lo > x_hi || y_lo > y_hi {
            assert forall|px: int, py: int| #[trigger] self.at(px, py) == if in_rect(px, py, x_lo as int, x_hi as int, y_lo as int, y_hi as int) { Some(color) } else { before.at(px, py) } by {}
            return;
        }
        let mut y = y_lo;
        while y <= y_hi
            invariant
                self.wf(),
                self.w() == before.w(),
                self.h() == before.h(),
                y_lo <= y <= y_hi + 1,
                x_lo <= x_hi,
                y_hi < before.h(),
                x_hi < before.w(),
                y_hi <= hm1,
                hm1 < usize::MAX,
                forall|px: int, py: int| #[trigger] self.at(px, py) == if in_rect(px, py, x_lo as int, x_hi as int, y_lo as int, y - 1) { Some(color) } else { before.at(px, py) },
            decreases y_hi + 1 - y,
        {
            let mut x = x_lo;
            while x <= x_hi
                invariant
                    self.wf(),
                    self.w() == before.w(),
                    self.h() == before.h(),
                    x_lo <= x <= x_hi + 1,
                    y_lo <= y <= y_hi,
                    y_hi < before.h(),
                    x_hi < before.w(),
                    forall|px: int, py: int| #[trigger] self.at(px, py) == if in_rect(px, py, x_lo as int, x_hi as int, y_lo as int, y - 1) || (py == y && x_lo <= px < x) { Some(color) } else { before.at(px, py) },
                decreases x_hi + 1 - x,
            {
                self.set(x, y, color);
                x = x + 1;
            }
            y = y + 1;
        }
    }

    /// Draws the Bresenham line between the two points, both endpoints
    /// included; points outside the buffer are clipped.
    pub fn draw_line(&mut self, x0: usize, y0: usize, x1: usize, y1: usize, color: RgbColor)
        requires
            old(self).wf(),
            x0 <= line_coord_limit(),
            y0 <= line_coord_limit(),
            x1 <= line_coord_limit(),
            y1 <= line_coord_limit(),
        ensures
            final(self).wf(),
            final(self).w() == old(self).w(),
            final(self).h() == old(self).h(),
            line_points(x0 as int, y0 as int, x1 as int, y1 as int).contains((x0 as int, y0 as int)),
            line_points(x0 as int, y0 as int, x1 as int, y1 as int).contains((x1 as int, y1 as int)),
            forall|px: int, py: int| #[trigger] final(self).at(px, py) == if line_points(
                x0 as int,
                y0 as int,
                x1 as int,
                y1 as int,
            ).contains((px, py)) && 0 <= px < old(self).w() && 0 <= py < old(self).h() {
                Some(color)
            } else {
                old(self).at(px, py)
            },
    {
        let ghost before = *self;
        let mut x = x0 as isize;
        let mut y = y0 as isize;
        let xe = x1 as isize;
        let ye = y1 as isize;
        let dx: isize = if xe >= x { xe - x } else { x - xe };
        let dy: isize = if ye >= y { -(ye - y) } else { -(y - ye) };
        let sx: isize = if x < xe { 1 } else { -1 };
        let sy: isize = if y < ye { 1 } else { -1 };
        let mut err: isize = dx + dy;
        let ghost big_dx = dx as int;
        let ghost big_dy = -dy as int;
        let ghost fuel0: nat = (big_dx + big_dy + 1) as nat;
        let ghost all = line_points(x0 as int, y0 as int, x1 as int, y1 as int);
        let ghost mut i: int = 0;
        let ghost mut j: int = 0;
        let ghost mut k: int = 0;
        let ghost mut painted: Set<(int, int)> = Set::empty();
        assert(all == bres_walk(x as int, y as int, err as int, xe as int, ye as int, dx as int, dy as int, sx as int, sy as int, fuel0));
        loop
            invariant
                self.wf(),
                self.w() == before.w(),
                self.h() == before.h(),
                big_dx == dx,
                big_dy == -dy,
                0 <= big_dx <= line_coord_limit(),
                0 <= big_dy <= line_coord_limit(),
                xe == x1,
                ye == y1,
                0 <= x0 <= line_coord_limit(),
                0 <= y0 <= line_coord_limit(),
                0 <= x1 <= line_coord_limit(),
                0 <= y1 <= line_coord_limit(),
                sx == (if x0 < x1 { 1int } else { -1int }),
                sy == (if y0 < y1 { 1int } else { -1int }),
                big_dx == (if x1 >= x0 { x1 - x0 } else { x0 - x1 }),
                big_dy == (if y1 >= y0 { y1 - y0 } else { y0 - y1 }),
                0 <= i <= big_dx,
                0 <= j <= big_dy,
                0 <= k <= i + j,
                x == x0 + sx * i,
                y == y0 + sy * j,
                err == big_dx - big_dy + j * big_dx - i * big_dy,
                -2 * big_dy - 1 <= err <= 2 * big_dx + 1,
                fuel0 == big_dx + big_dy + 1,
                all == line_points(x0 as int, y0 as int, x1 as int, y1 as int),
                all == painted + bres_walk(x as int, y as int, err as int, xe as int, ye as int, dx as int, dy as int, sx as int, sy as int, (fuel0 - k) as nat),
                forall|p: (int, int)| #[trigger] painted.contains(p) ==> all.contains(p),
                forall|px: int, py: int| #[trigger] self.at(px, py) == if painted.contains((px, py)) && 0 <= px < before.w() && 0 <= py < before.h() { Some(color) } else { before.at(px, py) },
            ensures
                self.wf(),
                self.w() == before.w(),
                self.h() == before.h(),
                all == painted,
                all.contains((x1 as int, y1 as int)),
                forall|px: int, py: int| #[trigger] self.at(px, py) == if painted.contains((px, py)) && 0 <= px < before.w() && 0 <= py < before.h() { Some(color) } else { before.at(px, py) },
            decreases big_dx + big_dy - i - j,
        {
            let ghost cur = (x as int, y as int);
            proof {
                lemma_signed_step(sx as int, i);
                lemma_signed_step(sy as int, j);
            }
            if x >= 0 && y >= 0 {
                self.set(x as usize, y as usize, color);
            }
            proof {
                painted = painted.insert(cur);
            }
            if x == xe && y == ye {
                proof {
                    assert(bres_walk(x as int, y as int, err as int, xe as int, ye as int, dx as int, dy as int, sx as int, sy as int, (fuel0 - k) as nat) == Set::empty().insert(cur));
                    assert(all =~= painted);
                }
                break;
            }
            let ghost fuel = (fuel0 - k) as nat;
            let ghost old_err = err as int;
            proof {
                assert(fuel >= 1);
                assert(!(i == big_dx && j == big_dy)) by {
                    if i == big_dx && j == big_dy {
                        lemma_signed_step(sx as int, i);
                        lemma_signed_step(sy as int, j);
                    }
                }
            }
            let e2 = 2 * err;
            if e2 >= dy {
                proof {
                    lemma_x_step_bounded(big_dx, big_dy, i, j, old_err);
                    assert(sx * (i + 1) == sx * i + sx) by (nonlinear_arith);
                    assert((i + 1) * big_dy == i * big_dy + big_dy) by (nonlinear_arith);
                    i = i + 1;
                }
                err = err + dy;
                x = x + sx;
            }
            if e2 <= dx {
                proof {
                    lemma_y_step_bounded(big_dx, big_dy, i, j, old_err, e2 >= dy);
                    assert(sy * (j + 1) == sy * j + sy) by (nonlinear_arith);
                    assert((j + 1) * big_dx == j * big_dx + big_dx) by (nonlinear_arith);
                    j = j + 1;
                }
                err = err + dx;
                y = y + sy;
            }
            proof {
                assert(e2 >= dy || e2 <= dx);
                k = k + 1;
                let next = bres_walk(x as int, y as int, err as int, xe as int, ye as int, dx as int, dy as int, sx as int, sy as int, (fuel0 - k) as nat);
                assert(bres_walk(cur.0, cur.1, old_err, xe as int, ye as int, dx as int, dy as int, sx as int, sy as int, fuel) == next.insert(cur));
                assert(all =~= painted + next);
            }
        }
    }
}

proof fn lemma_signed_step(s: int, i: int)
    requires
        s == 1 || s == -1,
    ensures
        s * i == (if s == 1 { i } else { -i }),
        s * (i + 1) == s * i + s,
{
    assert(s * (i + 1) == s * i + s) by (nonlinear_arith);
    if s == 1 {
        assert(s * i == i) by (nonlinear_arith) requires s == 1;
    } else {
        assert(s * i == -i) by (nonlinear_arith) requires s == -1;
    }
}

proof fn lemma_x_step_bounded(dx: int, dy: int, i: int, j: int, err: int)
    requires
        0 <= i <= dx,
        0 <= j <= dy,
        err == dx - dy + j * dx - i * dy,
        2 * err >= -dy,
        !(i == dx && j == dy),
    ensures
        i < dx,
{
    if i == dx {
        assert(false) by (nonlinear_arith)
            requires
                i == dx,
                0 <= j < dy,
                0 <= dx,
                err == dx - dy + j * dx - i * dy,
                2 * err >= -dy,
        ;
    }
}

proof fn lemma_y_step_bounded(dx: int, dy: int, i: int, j: int, err: int, stepped_x: bool)
    requires
        0 <= i <= dx,
        0 <= j <= dy,
        stepped_x ==> i >= 1,
        err == dx - dy + j * dx - (if stepped_x { i - 1 } else { i }) * dy,
        2 * err <= dx,
        !((if stepped_x { i - 1 } else { i }) == dx && j == dy),
    ensures
        j < dy,
{
    let i0 = if stepped_x { i - 1 } else { i };
    if j == dy {
        assert(false) by (nonlinear_arith)
            requires
                j == dy,
                0 <= i0 < dx,
                0 <= dy,
                err == dx - dy + j * dx - i0 * dy,
                2 * err <= dx,
        ;
    }
}

/// Smallest column or row of the inclusive span between `a` and `b`.
pub open spec fn rect_lo(a: usize, b: usize) -> int {
    if a < b { a as int } else { b as int }
}

/// Largest column or row of the span between `a` and `b`, clipped to the last
/// index of a buffer dimension of `size` (to 0 when `size` is 0).
pub open spec fn rect_hi(a: usize, b: usize, size: nat) -> int {
    let m = if a < b { b as int } else { a as int };
    let last = if size > 0 { size - 1 } else { 0 };
    if m < last { m } else { last }
}

/// The inputs on which filling would index into a buffer that has no pixels:
/// a non-empty clipped span on a zero-width or zero-height buffer.
pub open spec fn fill_rect_touches_empty_buffer(w: nat, h: nat, x0: usize, y0: usize, x1: usize, y1: usize) -> bool {
    rect_lo(x0, x1) <= rect_hi(x0, x1, w) && rect_lo(y0, y1) <= rect_hi(y0, y1, h) && (w == 0 || h == 0)
}

/// Coordinates up to this bound keep the line algorithm's error term and its
/// doubling inside `isize`.
pub open spec fn line_coord_limit() -> int {
    isize::MAX / 4
}

/// The points Bresenham's walk visits from `(x, y)` with error `err` towards
/// `(xe, ye)`, taking at most `fuel` steps.
pub open spec fn bres_walk(x: int, y: int, err: int, xe: int, ye: int, dx: int, dy: int, sx: int, sy: int, fuel: nat) -> Set<(int, int)>
    decreases fuel,
{
    if fuel == 0 {
        Set::empty()
    } else if x == xe && y == ye {
        Set::empty().insert((x, y))
    } else {
        let e2 = 2 * err;
        let x2 = if e2 >= dy { x + sx } else { x };
        let err2 = if e2 >= dy { err + dy } else { err };
        let y2 = if e2 <= dx { y + sy } else { y };
        let err3 = if e2 <= dx { err2 + dx } else { err2 };
        bres_walk(x2, y2, err3, xe, ye, dx, dy, sx, sy, (fuel - 1) as nat).insert((x, y))
    }
}

/// The points of the Bresenham line from `(x0, y0)` to `(x1, y1)`.
pub open spec fn line_points(x0: int, y0: int, x1: int, y1: int) -> Set<(int, int)> {
    let dx = if x1 >= x0 { x1 - x0 } else { x0 - x1 };
    let dy = -(if y1 >= y0 { y1 - y0 } else { y0 - y1 });
    let sx = if x0 < x1 { 1int } else { -1int };
    let sy = if y0 < y1 { 1int } else { -1int };
    bres_walk(x0, y0, dx + dy, x1, y1, dx, dy, sx, sy, (dx - dy + 1) as nat)
}

/// The smaller of two coordinates.
pub open spec fn lo2(a: int, b: int) -> int {
    if a < b { a } else { b }
}

/// The larger of two coordinates.
pub open spec fn hi2(a: int, b: int) -> int {
    if a < b { b } else { a }
}

proof fn lemma_walk_in_box(x0: int, y0: int, x1: int, y1: int, i: int, j: int, fuel: nat, p: (int, int))
    requires
        0 <= i <= (if x1 >= x0 { x1 - x0 } else { x0 - x1 }),
        0 <= j <= (if y1 >= y0 { y1 - y0 } else { y0 - y1 }),
        bres_walk(
            x0 + (if x0 < x1 { 1int } else { -1int }) * i,
            y0 + (if y0 < y1 { 1int } else { -1int }) * j,
            (if x1 >= x0 { x1 - x0 } else { x0 - x1 }) - (if y1 >= y0 { y1 - y0 } else { y0 - y1 })
                + j * (if x1 >= x0 { x1 - x0 } else { x0 - x1 }) - i * (if y1 >= y0 { y1 - y0 } else { y0 - y1 }),
            x1,
            y1,
            if x1 >= x0 { x1 - x0 } else { x0 - x1 },
            -(if y1 >= y0 { y1 - y0 } else { y0 - y1 }),
            if x0 < x1 { 1int } else { -1int },
            if y0 < y1 { 1int } else { -1int },
            fuel,
        ).contains(p),
    ensures
        lo2(x0, x1) <= p.0 <= hi2(x0, x1),
        lo2(y0, y1) <= p.1 <= hi2(y0, y1),
    decreases fuel,
{
    let dx = if x1 >= x0 { x1 - x0 } else { x0 - x1 };
    let big_dy = if y1 >= y0 { y1 - y0 } else { y0 - y1 };
    let dy = -big_dy;
    let sx = if x0 < x1 { 1int } else { -1int };
    let sy = if y0 < y1 { 1int } else { -1int };
    let x = x0 + sx * i;
    let y = y0 + sy * j;
    let err = dx - big_dy + j * dx - i * big_dy;
    lemma_signed_step(sx, i);
    lemma_signed_step(sy, j);
    if fuel == 0 {
    } else if x == x1 && y == y1 {
    } else if p == (x, y) {
    } else {
        assert(!(i == dx && j == big_dy));
        let e2 = 2 * err;
        let i2 = if e2 >= dy { i + 1 } else { i };
        let err2 = if e2 >= dy { err + dy } else { err };
        if e2 >= dy {
            lemma_x_step_bounded(dx, big_dy, i, j, err);
            assert((i + 1) * big_dy == i * big_dy + big_dy) by (nonlinear_arith);
        }
        let j2 = if e2 <= dx { j + 1 } else { j };
        let err3 = if e2 <= dx { err2 + dx } else { err2 };
        if e2 <= dx {
            lemma_y_step_bounded(dx, big_dy, i2, j, err, e2 >= dy);
            assert((j + 1) * dx == j * dx + dx) by (nonlinear_arith);
        }
        lemma_signed_step(sx, i2);
        lemma_signed_step(sy, j2);
        assert(x0 + sx * i2 == (if e2 >= dy { x + sx } else { x })) by {
            lemma_signed_step(sx, i);
        }
        assert(y0 + sy * j2 == (if e2 <= dx { y + sy } else { y })) by {
            lemma_signed_step(sy, j);
        }
        assert(err3 == dx - big_dy + j2 * dx - i2 * big_dy);
        lemma_walk_in_box(x0, y0, x1, y1, i2, j2, (fuel - 1) as nat, p);
    }
}

/// Every point of a line lies in the box its two endpoints span.
pub proof fn line_stays_in_box(x0: int, y0: int, x1: int, y1: int, p: (int, int))
    requires
        line_points(x0, y0, x1, y1).contains(p),
    ensures
        lo2(x0, x1) <= p.0 <= hi2(x0, x1),
        lo2(y0, y1) <= p.1 <= hi2(y0, y1),
{
    let dx = if x1 >= x0 { x1 - x0 } else { x0 - x1 };
    let big_dy = if y1 >= y0 { y1 - y0 } else { y0 - y1 };
    let sx = if x0 < x1 { 1int } else { -1int };
    let sy = if y0 < y1 { 1int } else { -1int };
    lemma_signed_step(sx, 0);
    lemma_signed_step(sy, 0);
    assert(x0 + sx * 0 == x0 && y0 + sy * 0 == y0);
    assert(dx - big_dy + 0 * dx - 0 * big_dy == dx + -big_dy);
    lemma_walk_in_box(x0, y0, x1, y1, 0, 0, (dx + big_dy + 1) as nat, p);
}

proof fn lemma_flat_walk(x: int, y: int, x1: int, dx: int, sx: int, sy: int, fuel: nat)
    requires
        sx == 1 || sx == -1,
        sx == 1 ==> x <= x1,
        sx == -1 ==> x1 <= x,
        fuel >= hi2(x, x1) - lo2(x, x1) + 1,
        dx >= hi2(x, x1) - lo2(x, x1),
    ensures
        forall|p: (int, int)| #[trigger] bres_walk(x, y, dx, x1, y, dx, 0, sx, sy, fuel).contains(p) <==> (p.1
            == y && lo2(x, x1) <= p.0 <= hi2(x, x1)),
    decreases fuel,
{
    if x != x1 {
        lemma_flat_walk(x + sx, y, x1, dx, sx, sy, (fuel - 1) as nat);
        assert(bres_walk(x, y, dx, x1, y, dx, 0, sx, sy, fuel) == bres_walk(x + sx, y, dx, x1, y, dx, 0, sx, sy, (fuel - 1) as nat).insert((x, y)));
    }
}

proof fn lemma_upright_walk(x: int, y: int, y1: int, d: int, sx: int, sy: int, fuel: nat)
    requires
        sy == 1 || sy == -1,
        sy == 1 ==> y <= y1,
        sy == -1 ==> y1 <= y,
        fuel >= hi2(y, y1) - lo2(y, y1) + 1,
        d >= hi2(y, y1) - lo2(y, y1),
    ensures
        forall|p: (int, int)| #[trigger] bres_walk(x, y, -d, x, y1, 0, -d, sx, sy, fuel).contains(p) <==> (p.0
            == x && lo2(y, y1) <= p.1 <= hi2(y, y1)),
    decreases fuel,
{
    if y != y1 {
        lemma_upright_walk(x, y + sy, y1, d, sx, sy, (fuel - 1) as nat);
        assert(bres_walk(x, y, -d, x, y1, 0, -d, sx, sy, fuel) == bres_walk(x, y + sy, -d, x, y1, 0, -d, sx, sy, (fuel - 1) as nat).insert((x, y)));
    }
}

/// A horizontal line is exactly the run of points between its endpoints.
pub proof fn horizontal_line_is_segment(x0: int, x1: int, y: int)
    ensures
        forall|p: (int, int)| #[trigger] line_points(x0, y, x1, y).contains(p) <==> (p.1 == y && lo2(x0, x1) <= p.0
            <= hi2(x0, x1)),
{
    let dx = if x1 >= x0 { x1 - x0 } else { x0 - x1 };
    let sx = if x0 < x1 { 1int } else { -1int };
    lemma_flat_walk(x0, y, x1, dx, sx, -1, (dx + 1) as nat);
    assert(line_points(x0, y, x1, y) == bres_walk(x0, y, dx, x1, y, dx, 0, sx, -1, (dx + 1) as nat));
}

/// A vertical line is exactly the run of points between its endpoints.
pub proof fn vertical_line_is_segment(x: int, y0: int, y1: int)
    ensures
        forall|p: (int, int)| #[trigger] line_points(x, y0, x, y1).contains(p) <==> (p.0 == x && lo2(y0, y1) <= p.1
            <= hi2(y0, y1)),
{
    let d = if y1 >= y0 { y1 - y0 } else { y0 - y1 };
    let sy = if y0 < y1 { 1int } else { -1int };
    lemma_upright_walk(x, y0, y1, d, -1, sy, (d + 1) as nat);
    assert(line_points(x, y0, x, y1) == bres_walk(x, y0, -d, x, y1, 0, -d, -1, sy, (d + 1) as nat));
}

} // verus!
