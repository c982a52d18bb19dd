//! The chart kinds the engine can draw and their per-kind options.

use vstd::prelude::*;

verus! {

/// Orientation of a bar chart.
#[derive(Debug, Clone, Copy, PartialEq, Eq, Structural)]
pub enum BarOrientation {
    Horizontal,
    Vertical,
}

/// A chart kind with the options that only it takes.
#[derive(Debug, Clone, PartialEq, Eq)]
pub enum ChartKind {
    Bar { orientation: BarOrientation },
    /// Histogram of one numeric column; `None` bins means Sturges' rule.
    Histogram { bins: Option<usize> },
    Line,
    Scatter,
    Sparkline,
    /// Long-form heatmap: categorical x and y, numeric `value` column.
    Heatmap { value: String },
    /// One box per `x` group, five-number summary of `y`.
    BoxPlot,
    /// Groups stacked in first-seen order.
    StackedArea,
    /// OHLC candlesticks from four numeric columns.
    Candlestick { open: String, high: String, low: String, close: String },
    /// One leaf rectangle per row, area proportional to the value.
    Treemap,
    /// Kernel-density shape per category.
    Violin,
    /// Stacked kernel densities per group.
    Ridgeline,
    /// Flows between named nodes, one edge per row.
    Sankey { source: String, target: String, value: String },
    /// Pretty-printed table with optional bars column, sort column and top-N.
    Table { bars: Option<String>, sort: Option<String>, top: Option<usize> },
}

} // verus!
