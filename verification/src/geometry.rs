//! Integer geometry of the chart layouts: how much of the canvas the plot
//! gets, how category columns are spaced, where ridges sit, how sankey nodes
//! and edge ribbons stack, and how many histogram bins Sturges' rule asks for.

use vstd::prelude::*;

verus! {

/// Where a chart is drawn inside the pixel buffer, in sub-pixels.
#[derive(Debug, Clone, Copy, PartialEq, Eq, Structural)]
pub struct PlotBox {
    pub pixel_width: usize,
    pub pixel_height: usize,
}

/// `a - b`, or 0 when `b` is larger.
pub open spec fn sat_sub(a: int, b: int) -> int {
    if a >= b { a - b } else { 0 }
}

pub open spec fn max_int(a: int, b: int) -> int {
    if a >= b { a } else { b }
}

pub open spec fn min_int(a: int, b: int) -> int {
    if a <= b { a } else { b }
}

/// `v` held within `[lo, hi]`.
pub open spec fn clamp_int(v: int, lo: int, hi: int) -> int {
    min_int(max_int(v, lo), hi)
}

/// The cells left for the plot once `margin` cells are reserved, but never
/// fewer than `floor`.
pub fn plot_extent(canvas: usize, margin: usize, floor: usize) -> (r: usize)
    ensures
        r == max_int(sat_sub(canvas as int, margin as int), floor as int),
{
    let left = if canvas >= margin { canvas - margin } else { 0 };
    if left < floor { floor } else { left }
}

/// How `n` category columns share the plot width: each gets a bar and a gap,
/// and the whole run of columns is centered.
#[derive(Debug, Clone, Copy, PartialEq, Eq, Structural)]
pub struct ColumnSlots {
    /// Width of each bar, box or body, in cells.
    pub bar_cell_width: usize,
    /// Gap after each bar, in cells.
    pub gap_cell_width: usize,
    /// Bar plus gap.
    pub group_width: usize,
    /// Empty cells before the first column.
    pub leading: usize,
}

/// The column spacing for `n` columns in `plot_cells_w` cells: the bar width
/// is the even share held within `[min_bar, max_bar]`, the gap a
/// `gap_div`-th of the bar (at least one cell) but no more than the share
/// leaves over.
pub open spec fn spec_column_slots(plot_cells_w: int, n: int, min_bar: int, max_bar: int, gap_div: int) -> ColumnSlots {
    let share = plot_cells_w / n;
    let bar = clamp_int(share, min_bar, max_bar);
    let gap = min_int(max_int(bar / gap_div, 1), sat_sub(share, bar));
    ColumnSlots {
        bar_cell_width: bar as usize,
        gap_cell_width: gap as usize,
        group_width: (bar + gap) as usize,
        leading: (sat_sub(plot_cells_w, n * (bar + gap)) / 2) as usize,
    }
}

/// Spaces `n` category columns across `plot_cells_w` cells; none when the
/// even share of a column is less than one cell.
pub fn column_slots(plot_cells_w: usize, n: usize, min_bar: usize, max_bar: usize, gap_div: usize) -> (r: Option<ColumnSlots>)
    requires
        n > 0,
        gap_div > 0,
        min_bar <= max_bar,
        n * max_bar <= usize::MAX,
    ensures
        r is None <==> plot_cells_w / n == 0,
        r matches Some(s) ==> s == spec_column_slots(plot_cells_w as int, n as int, min_bar as int, max_bar as int, gap_div as int),
{
    let share = plot_cells_w / n;
    if share == 0 {
        return None;
    }
    let bar = if share < min_bar { min_bar } else if share > max_bar { max_bar } else { share };
    let spare = if share >= bar { share - bar } else { 0 };
    let third = bar / gap_div;
    let wanted = if third < 1 { 1 } else { third };
    let gap = if wanted < spare { wanted } else { spare };
    let group = bar + gap;
    proof {
        if share >= bar {
            assert(group <= share);
            assert(n * group <= n * share) by (nonlinear_arith)
                requires group <= share;
            assert(n * share <= plot_cells_w) by (nonlinear_arith)
                requires share == plot_cells_w / n, n > 0;
        } else {
            assert(group == bar && bar <= max_bar);
            assert(n * group <= n * max_bar) by (nonlinear_arith)
                requires group <= max_bar;
        }
    }
    let total = n * group;
    let leading = (if plot_cells_w >= total { plot_cells_w - total } else { 0 }) / 2;
    Some(ColumnSlots { bar_cell_width: bar, gap_cell_width: gap, group_width: group, leading })
}

/// When every column gets at least `min_bar` cells, the columns fit: the
/// centered run of `n` groups ends inside the plot, and each bar is narrower
/// than its group.
pub proof fn column_slots_fit(plot_cells_w: usize, n: usize, min_bar: usize, max_bar: usize, gap_div: usize)
    requires
        n > 0,
        gap_div > 0,
        1 <= min_bar <= max_bar,
        plot_cells_w / n >= min_bar,
    ensures
        ({
            let s = spec_column_slots(plot_cells_w as int, n as int, min_bar as int, max_bar as int, gap_div as int);
            &&& s.leading + n * s.group_width <= plot_cells_w
            &&& 1 <= s.bar_cell_width <= s.group_width
        }),
{
    let share = plot_cells_w / n;
    let bar = clamp_int(share as int, min_bar as int, max_bar as int);
    let gap = min_int(max_int(bar / gap_div as int, 1), sat_sub(share as int, bar));
    assert(bar <= share);
    assert(bar + gap <= share);
    assert(n * (bar + gap) <= n * share) by (nonlinear_arith)
        requires bar + gap <= share, n > 0;
    assert(n * share <= plot_cells_w) by (nonlinear_arith)
        requires share == plot_cells_w / n, n > 0;
}

/// The pixel column at the center of slot `i`.
pub fn slot_center(s: ColumnSlots, i: usize) -> (x: usize)
    requires
        s.leading + i * s.group_width + s.bar_cell_width / 2 <= usize::MAX,
    ensures
        x == s.leading + i * s.group_width + s.bar_cell_width / 2,
{
    proof {
        assert(i * s.group_width <= usize::MAX);
    }
    s.leading + i * s.group_width + s.bar_cell_width / 2
}

/// The pixel column where slot `i` starts.
pub fn slot_left(s: ColumnSlots, i: usize) -> (x: usize)
    requires
        s.leading + i * s.group_width <= usize::MAX,
    ensures
        x == s.leading + i * s.group_width,
{
    proof {
        assert(i * s.group_width <= usize::MAX);
    }
    s.leading + i * s.group_width
}

/// Within fitting slots, the center of every slot lies inside the plot and
/// centers are `group_width` apart.
pub proof fn slot_centers_inside(s: ColumnSlots, n: int, plot_cells_w: int, i: int)
    requires
        0 <= i < n,
        s.leading + n * s.group_width <= plot_cells_w,
        1 <= s.bar_cell_width <= s.group_width,
    ensures
        s.leading + i * s.group_width + s.bar_cell_width / 2 < plot_cells_w,
        s.leading + (i + 1) * s.group_width + s.bar_cell_width / 2
            == s.leading + i * s.group_width + s.bar_cell_width / 2 + s.group_width,
{
    assert((i + 1) * s.group_width <= n * s.group_width) by (nonlinear_arith)
        requires i + 1 <= n, s.group_width >= 0;
    assert((i + 1) * s.group_width == i * s.group_width + s.group_width) by (nonlinear_arith);
}

/// Pixel rows of each ridge's slot: the even share of the plot, at least 2.
pub fn ridge_slot_height(plot_pixels_h: usize, n: usize) -> (r: usize)
    requires
        n > 0,
    ensures
        r == max_int(plot_pixels_h as int / n as int, 2),
{
    let share = plot_pixels_h / n;
    if share < 2 { 2 } else { share }
}

/// Pixel row of ridge `i`'s baseline: `i + 1` slots down from the top, held
/// inside the plot.
pub fn ridge_baseline(slot_h: usize, plot_pixels_h: usize, i: usize) -> (y: usize)
    requires
        plot_pixels_h >= 1,
        i < usize::MAX,
        (i + 1) * slot_h <= usize::MAX,
    ensures
        y == min_int((i + 1) * slot_h, plot_pixels_h - 1),
{
    let down = (i + 1) * slot_h;
    if down < plot_pixels_h - 1 { down } else { plot_pixels_h - 1 }
}

/// With at least two pixel rows per ridge, ridges stack strictly downwards:
/// each later ridge's baseline lies below the earlier one, and all lie
/// inside the plot.
pub proof fn ridge_baselines_descend(n: int, plot_pixels_h: int, i: int, j: int)
    requires
        0 <= i < j < n,
        plot_pixels_h >= 2 * n,
    ensures
        ({
            let s = max_int(plot_pixels_h / n, 2);
            &&& min_int((i + 1) * s, plot_pixels_h - 1) < min_int((j + 1) * s, plot_pixels_h - 1)
            &&& min_int((j + 1) * s, plot_pixels_h - 1) < plot_pixels_h
        }),
{
    let s = plot_pixels_h / n;
    assert(s >= 2) by (nonlinear_arith)
        requires plot_pixels_h >= 2 * n, n > 0, s == plot_pixels_h / n;
    assert(n * s <= plot_pixels_h) by (nonlinear_arith)
        requires s == plot_pixels_h / n, n > 0, plot_pixels_h >= 0;
    assert((i + 1) * s < (j + 1) * s) by (nonlinear_arith)
        requires i < j, s >= 2;
    assert((j + 1) * s <= n * s) by (nonlinear_arith)
        requires j + 1 <= n, s >= 0;
    assert((i + 1) * s + s <= n * s) by (nonlinear_arith)
        requires i + 2 <= n, s >= 0;
}

/// Terminal cells per heatmap column: the even share of the plot width, at
/// least one.
pub fn heatmap_cell_width(plot_cells_w: usize, nx: usize) -> (r: usize)
    requires
        nx > 0,
    ensures
        r == max_int(plot_cells_w as int / nx as int, 1),
{
    let share = plot_cells_w / nx;
    if share < 1 { 1 } else { share }
}

/// Character count of the longest label; 0 when there are none.
pub fn widest_label(labels: &Vec<String>) -> (w: usize)
    ensures
        forall|i: int| 0 <= i < labels@.len() ==> #[trigger] labels@[i]@.len() <= w,
        labels@.len() == 0 ==> w == 0,
        labels@.len() > 0 ==> exists|i: int| 0 <= i < labels@.len() && #[trigger] labels@[i]@.len() == w,
{
    let mut w: usize = 0;
    let mut arg: usize = 0;
    let mut i: usize = 0;
    while i < labels.len()
        invariant
            i <= labels@.len(),
            forall|j: int| 0 <= j < i ==> #[trigger] labels@[j]@.len() <= w,
            i == 0 ==> w == 0,
            i > 0 ==> arg < i && labels@[arg as int]@.len() == w,
        decreases labels@.len() - i,
    {
        let len = labels[i].as_str().unicode_len();
        if i == 0 || len > w {
            w = len;
            arg = i;
        }
        i = i + 1;
    }
    proof {
        if labels@.len() > 0 {
            assert(0 <= arg < labels@.len() && labels@[arg as int]@.len() == w);
        }
    }
    w
}

/// Terminal rows given to each horizontal bar: two (bar and spacer) when all
/// bars fit that way above the two reserved rows, else one.
pub fn rows_per_bar(bar_count: usize, canvas_cells_h: usize) -> (r: usize)
    ensures
        r == if bar_count <= sat_sub(canvas_cells_h as int, 2) { 2usize } else { 1usize },
{
    let room = if canvas_cells_h >= 2 { canvas_cells_h - 2 } else { 0 };
    if bar_count <= room { 2 } else { 1 }
}

/// Sankey columns: the pixel width of each layer's column, and the width of
/// its nodes (three pixels, at most a third of the column, at least one).
pub fn sankey_columns(plot_pixels_w: usize, n_layers: usize) -> (r: (usize, usize))
    ensures
        r.0 == plot_pixels_w / max_int(n_layers as int, 1) as usize,
        r.1 == max_int(min_int(3, (r.0 / 3) as int), 1),
{
    let layers = if n_layers < 1 { 1 } else { n_layers };
    let step = plot_pixels_w / layers;
    let third = step / 3;
    let narrow = if third < 3 { third } else { 3 };
    let node_w = if narrow < 1 { 1 } else { narrow };
    (step, node_w)
}

/// Left pixel of the nodes of layer `li`: centered in the layer's column.
pub fn layer_left(step: usize, node_w: usize, li: usize) -> (x: usize)
    requires
        node_w == max_int(min_int(3, (step / 3) as int), 1),
        li * step + step / 2 <= usize::MAX,
    ensures
        x == li * step + step / 2 - node_w / 2,
{
    proof {
        assert(li * step <= usize::MAX);
    }
    li * step + step / 2 - node_w / 2
}

/// A layer's nodes stay inside the layer's column.
pub proof fn layer_nodes_inside_column(step: int, node_w: int, li: int)
    requires
        step >= 1,
        li >= 0,
        node_w == max_int(min_int(3, step / 3), 1),
    ensures
        li * step <= li * step + step / 2 - node_w / 2,
        li * step + step / 2 - node_w / 2 + node_w <= (li + 1) * step,
{
    assert((li + 1) * step == li * step + step) by (nonlinear_arith);
}

/// `start`, then each position `gap` below the end of the one before:
/// `r[k + 1] = r[k] + heights[k] + gap`.
pub open spec fn stacked(start: int, heights: Seq<usize>, gap: int, k: int) -> int
    decreases k,
{
    if k <= 0 { start } else { stacked(start, heights, gap, k - 1) + heights[k - 1] + gap }
}

/// Stacks items of the given heights downwards from `start`, `gap` apart:
/// the top of each.
pub fn stack_positions(start: usize, heights: &Vec<usize>, gap: usize) -> (r: Vec<usize>)
    requires
        stacked(start as int, heights@, gap as int, heights@.len() as int) <= usize::MAX,
    ensures
        r@.len() == heights@.len(),
        forall|k: int| 0 <= k < heights@.len() ==> #[trigger] r@[k] == stacked(start as int, heights@, gap as int, k),
{
    let mut r: Vec<usize> = Vec::new();
    let mut y: usize = start;
    let mut k: usize = 0;
    while k < heights.len()
        invariant
            k <= heights@.len(),
            stacked(start as int, heights@, gap as int, heights@.len() as int) <= usize::MAX,
            y == stacked(start as int, heights@, gap as int, k as int),
            r@.len() == k,
            forall|q: int| 0 <= q < k ==> #[trigger] r@[q] == stacked(start as int, heights@, gap as int, q),
        decreases heights@.len() - k,
    {
        proof {
            lemma_stacked_grows(start as int, heights@, gap as int, k + 1, heights@.len() as int);
        }
        r.push(y);
        y = y + heights[k] + gap;
        k = k + 1;
    }
    r
}

proof fn lemma_stacked_grows(start: int, heights: Seq<usize>, gap: int, j: int, k: int)
    requires
        0 <= j <= k,
        gap >= 0,
    ensures
        stacked(start, heights, gap, j) <= stacked(start, heights, gap, k),
    decreases k - j,
{
    if j < k {
        lemma_stacked_grows(start, heights, gap, j, k - 1);
    }
}

/// Sum of the heights of the items before `k` that share end `v`.
pub open spec fn sum_for(ends: Seq<usize>, heights: Seq<usize>, v: int, k: int) -> int
    decreases k,
{
    if k <= 0 {
        0
    } else {
        sum_for(ends, heights, v, k - 1) + if ends[k - 1] == v { heights[k - 1] as int } else { 0 }
    }
}

/// Sum of the heights before `k`.
pub open spec fn sum_all(heights: Seq<usize>, k: int) -> int
    decreases k,
{
    if k <= 0 { 0 } else { sum_all(heights, k - 1) + heights[k - 1] }
}

proof fn lemma_sum_for_le(ends: Seq<usize>, heights: Seq<usize>, v: int, k: int)
    ensures
        0 <= sum_for(ends, heights, v, k) <= sum_all(heights, k),
    decreases k,
{
    if k > 0 {
        lemma_sum_for_le(ends, heights, v, k - 1);
    }
}

/// Where each ribbon attaches along its node: the ribbons meeting one node
/// stack in input order, each starting where the ones before it at that node
/// end.
pub fn ribbon_offsets(ends: &Vec<usize>, heights: &Vec<usize>, n_nodes: usize) -> (r: Vec<usize>)
    requires
        ends@.len() == heights@.len(),
        forall|k: int| 0 <= k < ends@.len() ==> #[trigger] ends@[k] < n_nodes,
        sum_all(heights@, heights@.len() as int) <= usize::MAX,
    ensures
        r@.len() == ends@.len(),
        forall|k: int| 0 <= k < ends@.len() ==> #[trigger] r@[k] == sum_for(ends@, heights@, ends@[k] as int, k),
{
    let mut acc: Vec<usize> = Vec::new();
    let mut v: usize = 0;
    while v < n_nodes
        invariant
            v <= n_nodes,
            acc@.len() == v,
            forall|x: int| 0 <= x < v ==> #[trigger] acc@[x] == 0,
        decreases n_nodes - v,
    {
        acc.push(0);
        v = v + 1;
    }
    let mut r: Vec<usize> = Vec::new();
    let mut k: usize = 0;
    while k < ends.len()
        invariant
            ends@.len() == heights@.len(),
            forall|q: int| 0 <= q < ends@.len() ==> #[trigger] ends@[q] < n_nodes,
            sum_all(heights@, heights@.len() as int) <= usize::MAX,
            k <= ends@.len(),
            acc@.len() == n_nodes,
            forall|x: int| 0 <= x < n_nodes ==> #[trigger] acc@[x] == sum_for(ends@, heights@, x, k as int),
            r@.len() == k,
            forall|q: int| 0 <= q < k ==> #[trigger] r@[q] == sum_for(ends@, heights@, ends@[q] as int, q),
        decreases ends@.len() - k,
    {
        let e = ends[k];
        proof {
            lemma_sum_for_le(ends@, heights@, e as int, k + 1);
            lemma_sum_all_grows(heights@, k + 1, heights@.len() as int);
        }
        let cur = acc[e];
        r.push(cur);
        acc.set(e, cur + heights[k]);
        k = k + 1;
    }
    r
}

proof fn lemma_sum_all_grows(heights: Seq<usize>, j: int, k: int)
    requires
        0 <= j <= k,
    ensures
        sum_all(heights, j) <= sum_all(heights, k),
    decreases k - j,
{
    if j < k {
        lemma_sum_all_grows(heights, j, k - 1);
    }
}

/// Ribbons that meet one node never overlap there: a later ribbon starts no
/// earlier than the end of an earlier one.
pub proof fn ribbons_do_not_overlap(ends: Seq<usize>, heights: Seq<usize>, j: int, k: int)
    requires
        0 <= j < k <= ends.len(),
        ends.len() == heights.len(),
        ends[j] == ends[k],
        k < ends.len(),
    ensures
        sum_for(ends, heights, ends[j] as int, j) + heights[j] <= sum_for(ends, heights, ends[k] as int, k),
    decreases k - j,
{
    lemma_sum_for_mono(ends, heights, ends[j] as int, j + 1, k);
}

proof fn lemma_sum_for_mono(ends: Seq<usize>, heights: Seq<usize>, v: int, j: int, k: int)
    requires
        0 <= j <= k,
    ensures
        sum_for(ends, heights, v, j) <= sum_for(ends, heights, v, k),
    decreases k - j,
{
    if j < k {
        lemma_sum_for_mono(ends, heights, v, j, k - 1);
    }
}

/// `ceil(log2 n)`: halving `n` (rounding up) until it reaches one.
pub open spec fn ceil_log2(n: nat) -> nat
    decreases n,
{
    if n <= 1 { 0 } else { 1 + ceil_log2(((n + 1) / 2) as nat) }
}

/// Sturges' rule for the number of histogram bins: `ceil(log2 n + 1)`, and a
/// single bin for fewer than two values.
pub open spec fn spec_sturges(n: nat) -> nat {
    if n < 2 { 1 } else { ceil_log2(n) + 1 }
}

/// `ceil_log2` is the least `k` with `2^k >= n`.
pub proof fn ceil_log2_is_least_power(n: nat)
    requires
        n >= 1,
    ensures
        n <= vstd::arithmetic::power2::pow2(ceil_log2(n)),
        n >= 2 ==> vstd::arithmetic::power2::pow2((ceil_log2(n) - 1) as nat) < n,
    decreases n,
{
    vstd::arithmetic::power2::lemma2_to64();
    if n >= 2 {
        let h = ((n + 1) / 2) as nat;
        ceil_log2_is_least_power(h);
        vstd::arithmetic::power2::lemma_pow2_unfold(ceil_log2(n));
        if h >= 2 {
            vstd::arithmetic::power2::lemma_pow2_unfold((ceil_log2(n) - 1) as nat);
        }
    }
}

proof fn lemma_ceil_log2_below(n: nat)
    requires
        n >= 1,
    ensures
        ceil_log2(n) < n,
    decreases n,
{
    if n >= 2 {
        lemma_ceil_log2_below(((n + 1) / 2) as nat);
    }
}

/// The number of histogram bins Sturges' rule gives for `n` values.
pub fn sturges(n: usize) -> (k: usize)
    ensures
        k == spec_sturges(n as nat),
{
    if n < 2 {
        return 1;
    }
    proof {
        lemma_ceil_log2_below(n as nat);
    }
    let mut c: usize = n;
    let mut k: usize = 0;
    while c > 1
        invariant
            1 <= c <= n,
            ceil_log2(n as nat) < n,
            ceil_log2(n as nat) == k + ceil_log2(c as nat),
        decreases c,
    {
        c = c / 2 + c % 2;
        k = k + 1;
    }
    k + 1
}

/// Histogram bins: the number asked for, else Sturges' rule; at least two.
pub fn bin_count(bins: Option<usize>, n: usize) -> (k: usize)
    ensures
        k == max_int(match bins { Some(b) => b as int, None => spec_sturges(n as nat) as int }, 2),
{
    let k = match bins {
        Some(b) => b,
        None => sturges(n),
    };
    if k < 2 { 2 } else { k }
}

} // verus!
