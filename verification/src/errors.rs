//! The errors the chart layouts report, and the messages they read as.

use vstd::prelude::*;
use crate::dataframe::{error_text, DataFrameError};
use crate::text::{dec_digits, push_decimal, push_str, string_from_chars};

verus! {

/// "<what>`<name>` must be numeric".
pub open spec fn numeric_text(what: Seq<char>, name: Seq<char>) -> Seq<char> {
    what + "`"@ + name + "` must be numeric"@
}

/// "<what>`<name>` must be numeric (numeric columns: <numeric>)".
pub open spec fn numeric_list_text(what: Seq<char>, name: Seq<char>, numeric: Seq<char>) -> Seq<char> {
    numeric_text(what, name) + " (numeric columns: "@ + numeric + ")"@
}

fn must_be_numeric(what: &str, name: &String) -> (s: String)
    ensures
        s@ == numeric_text(what@, name@),
{
    let mut out: Vec<char> = Vec::new();
    push_str(&mut out, what);
    push_str(&mut out, "`");
    push_str(&mut out, name.as_str());
    push_str(&mut out, "` must be numeric");
    string_from_chars(&out)
}

fn must_be_numeric_listing(what: &str, name: &String, numeric: &String) -> (s: String)
    ensures
        s@ == numeric_list_text(what@, name@, numeric@),
{
    let mut out: Vec<char> = Vec::new();
    push_str(&mut out, what);
    push_str(&mut out, "`");
    push_str(&mut out, name.as_str());
    push_str(&mut out, "` must be numeric");
    push_str(&mut out, " (numeric columns: ");
    push_str(&mut out, numeric.as_str());
    push_str(&mut out, ")");
    string_from_chars(&out)
}

/// Why a horizontal bar chart cannot be laid out.
#[derive(Debug)]
pub enum LayoutError {
    /// The value column is not numeric; lists the numeric columns.
    NonNumericY { name: String, numeric: String },
    /// The data has no rows.
    Empty,
    /// A column lookup failed.
    DataFrame(DataFrameError),
}

impl LayoutError {
    /// The message the error reads as.
    pub fn message(&self) -> (s: String)
        ensures
            s@ == match self {
                Self::NonNumericY { name, numeric } => numeric_list_text("y column "@, name@, numeric@),
                Self::Empty => "no data rows"@,
                Self::DataFrame(e) => error_text(*e),
            },
    {
        match self {
            Self::NonNumericY { name, numeric } => must_be_numeric_listing("y column ", name, numeric),
            Self::Empty => "no data rows".to_string(),
            Self::DataFrame(e) => e.message(),
        }
    }
}

/// Why a box plot cannot be laid out.
#[derive(Debug)]
pub enum BoxPlotError {
    /// The value column is not numeric; lists the numeric columns.
    NonNumericY { name: String, numeric: String },
    /// The data has no rows.
    Empty,
    /// A column lookup failed.
    DataFrame(DataFrameError),
}

impl BoxPlotError {
    /// The message the error reads as.
    pub fn message(&self) -> (s: String)
        ensures
            s@ == match self {
                Self::NonNumericY { name, numeric } => numeric_list_text("y column "@, name@, numeric@),
                Self::Empty => "no data rows"@,
                Self::DataFrame(e) => error_text(*e),
            },
    {
        match self {
            Self::NonNumericY { name, numeric } => must_be_numeric_listing("y column ", name, numeric),
            Self::Empty => "no data rows".to_string(),
            Self::DataFrame(e) => e.message(),
        }
    }
}

/// Why a candlestick chart cannot be laid out.
#[derive(Debug)]
pub enum CandlestickError {
    /// A price column is not numeric.
    NonNumeric(String),
    /// The data has no rows.
    Empty,
    /// A column lookup failed.
    DataFrame(DataFrameError),
}

impl CandlestickError {
    /// The message the error reads as.
    pub fn message(&self) -> (s: String)
        ensures
            s@ == match self {
                Self::NonNumeric(name) => numeric_text("column "@, name@),
                Self::Empty => "no data rows"@,
                Self::DataFrame(e) => error_text(*e),
            },
    {
        match self {
            Self::NonNumeric(name) => must_be_numeric("column ", name),
            Self::Empty => "no data rows".to_string(),
            Self::DataFrame(e) => e.message(),
        }
    }
}

/// Why a heatmap cannot be laid out.
#[derive(Debug)]
pub enum HeatmapError {
    /// The value column is not numeric.
    NonNumericValue(String),
    /// The data has no rows.
    Empty,
}

impl HeatmapError {
    /// The message the error reads as.
    pub fn message(&self) -> (s: String)
        ensures
            s@ == match self {
                Self::NonNumericValue(name) => numeric_text("value column "@, name@),
                Self::Empty => "no data rows"@,
            },
    {
        match self {
            Self::NonNumericValue(name) => must_be_numeric("value column ", name),
            Self::Empty => "no data rows".to_string(),
        }
    }
}

/// Why a line chart cannot be laid out.
#[derive(Debug)]
pub enum LineLayoutError {
    /// The x column is not numeric.
    NonNumericX(String),
    /// The y column is not numeric.
    NonNumericY(String),
    /// The data has no rows.
    Empty,
    /// A column lookup failed.
    DataFrame(DataFrameError),
}

impl LineLayoutError {
    /// The message the error reads as.
    pub fn message(&self) -> (s: String)
        ensures
            s@ == match self {
                Self::NonNumericX(name) => numeric_text("x column "@, name@),
                Self::NonNumericY(name) => numeric_text("y column "@, name@),
                Self::Empty => "no data rows"@,
                Self::DataFrame(e) => error_text(*e),
            },
    {
        match self {
            Self::NonNumericX(name) => must_be_numeric("x column ", name),
            Self::NonNumericY(name) => must_be_numeric("y column ", name),
            Self::Empty => "no data rows".to_string(),
            Self::DataFrame(e) => e.message(),
        }
    }
}

/// Why a ridgeline plot cannot be laid out.
#[derive(Debug)]
pub enum RidgelineError {
    /// The value column is not numeric.
    NonNumericX(String),
    /// The data has no rows.
    Empty,
    /// A column lookup failed.
    DataFrame(DataFrameError),
}

impl RidgelineError {
    /// The message the error reads as.
    pub fn message(&self) -> (s: String)
        ensures
            s@ == match self {
                Self::NonNumericX(name) => numeric_text("x column "@, name@),
                Self::Empty => "no data rows"@,
                Self::DataFrame(e) => error_text(*e),
            },
    {
        match self {
            Self::NonNumericX(name) => must_be_numeric("x column ", name),
            Self::Empty => "no data rows".to_string(),
            Self::DataFrame(e) => e.message(),
        }
    }
}

/// Why a sankey diagram cannot be laid out.
#[derive(Debug)]
pub enum SankeyLayoutError {
    /// The graph has no nodes.
    Empty,
}

impl SankeyLayoutError {
    /// The message the error reads as.
    pub fn message(&self) -> (s: String)
        ensures
            s@ == match self {
                Self::Empty => "graph has no nodes"@,
            },
    {
        match self {
            Self::Empty => "graph has no nodes".to_string(),
        }
    }
}

/// Why a scatter plot cannot be laid out.
#[derive(Debug)]
pub enum ScatterLayoutError {
    /// The x column is not numeric; lists the numeric columns.
    NonNumericX { name: String, numeric: String },
    /// The y column is not numeric; lists the numeric columns.
    NonNumericY { name: String, numeric: String },
    /// The data has no rows.
    Empty,
    /// A column lookup failed.
    DataFrame(DataFrameError),
}

impl ScatterLayoutError {
    /// The message the error reads as.
    pub fn message(&self) -> (s: String)
        ensures
            s@ == match self {
                Self::NonNumericX { name, numeric } => numeric_list_text("x column "@, name@, numeric@),
                Self::NonNumericY { name, numeric } => numeric_list_text("y column "@, name@, numeric@),
                Self::Empty => "no data rows"@,
                Self::DataFrame(e) => error_text(*e),
            },
    {
        match self {
            Self::NonNumericX { name, numeric } => must_be_numeric_listing("x column ", name, numeric),
            Self::NonNumericY { name, numeric } => must_be_numeric_listing("y column ", name, numeric),
            Self::Empty => "no data rows".to_string(),
            Self::DataFrame(e) => e.message(),
        }
    }
}

/// Why a stacked area chart cannot be laid out.
#[derive(Debug)]
pub enum StackedAreaError {
    /// The x column is not numeric.
    NonNumericX(String),
    /// The y column is not numeric.
    NonNumericY(String),
    /// The data has no rows.
    Empty,
    /// A column lookup failed.
    DataFrame(DataFrameError),
}

impl StackedAreaError {
    /// The message the error reads as.
    pub fn message(&self) -> (s: String)
        ensures
            s@ == match self {
                Self::NonNumericX(name) => numeric_text("x column "@, name@),
                Self::NonNumericY(name) => numeric_text("y column "@, name@),
                Self::Empty => "no data rows"@,
                Self::DataFrame(e) => error_text(*e),
            },
    {
        match self {
            Self::NonNumericX(name) => must_be_numeric("x column ", name),
            Self::NonNumericY(name) => must_be_numeric("y column ", name),
            Self::Empty => "no data rows".to_string(),
            Self::DataFrame(e) => e.message(),
        }
    }
}

/// Why a treemap cannot be laid out.
#[derive(Debug)]
pub enum TreemapError {
    /// The value column is not numeric.
    NonNumericY(String),
    /// The data has no rows.
    Empty,
    /// A column lookup failed.
    DataFrame(DataFrameError),
}

impl TreemapError {
    /// The message the error reads as.
    pub fn message(&self) -> (s: String)
        ensures
            s@ == match self {
                Self::NonNumericY(name) => numeric_text("y column "@, name@),
                Self::Empty => "no data rows"@,
                Self::DataFrame(e) => error_text(*e),
            },
    {
        match self {
            Self::NonNumericY(name) => must_be_numeric("y column ", name),
            Self::Empty => "no data rows".to_string(),
            Self::DataFrame(e) => e.message(),
        }
    }
}

/// Why a violin plot cannot be laid out.
#[derive(Debug)]
pub enum ViolinError {
    /// The value column is not numeric.
    NonNumericY(String),
    /// The data has no rows.
    Empty,
    /// A column lookup failed.
    DataFrame(DataFrameError),
}

impl ViolinError {
    /// The message the error reads as.
    pub fn message(&self) -> (s: String)
        ensures
            s@ == match self {
                Self::NonNumericY(name) => numeric_text("y column "@, name@),
                Self::Empty => "no data rows"@,
                Self::DataFrame(e) => error_text(*e),
            },
    {
        match self {
            Self::NonNumericY(name) => must_be_numeric("y column ", name),
            Self::Empty => "no data rows".to_string(),
            Self::DataFrame(e) => e.message(),
        }
    }
}

/// "canvas too narrow for <n> bars (need at least <needed> cells, have <have>)".
pub open spec fn too_narrow_text(n: nat, needed: nat, have: nat) -> Seq<char> {
    "canvas too narrow for "@ + dec_digits(n) + " bars (need at least "@ + dec_digits(needed) + " cells, have "@
        + dec_digits(have) + ")"@
}

/// Why a vertical bar chart cannot be laid out.
#[derive(Debug)]
pub enum VerticalBarLayoutError {
    /// The value column is not numeric.
    NonNumericY(String),
    /// The data has no rows.
    Empty,
    /// The plot is narrower than one cell per bar.
    TooNarrow { n: usize, needed: usize, have: usize },
    /// A column lookup failed.
    DataFrame(DataFrameError),
}

/// The message a vertical bar chart error reads as.
pub open spec fn vertical_bar_text(e: VerticalBarLayoutError) -> Seq<char> {
    match e {
        VerticalBarLayoutError::NonNumericY(name) => numeric_text("y column "@, name@),
        VerticalBarLayoutError::Empty => "no data rows"@,
        VerticalBarLayoutError::TooNarrow { n, needed, have } => too_narrow_text(n as nat, needed as nat, have as nat),
        VerticalBarLayoutError::DataFrame(e) => error_text(e),
    }
}

impl VerticalBarLayoutError {
    /// The message the error reads as.
    pub fn message(&self) -> (s: String)
        ensures
            s@ == vertical_bar_text(*self),
    {
        match self {
            Self::NonNumericY(name) => must_be_numeric("y column ", name),
            Self::Empty => "no data rows".to_string(),
            Self::TooNarrow { n, needed, have } => {
                let mut out: Vec<char> = Vec::new();
                push_str(&mut out, "canvas too narrow for ");
                push_decimal(&mut out, *n as u64);
                push_str(&mut out, " bars (need at least ");
                push_decimal(&mut out, *needed as u64);
                push_str(&mut out, " cells, have ");
                push_decimal(&mut out, *have as u64);
                push_str(&mut out, ")");
                string_from_chars(&out)
            },
            Self::DataFrame(e) => e.message(),
        }
    }
}

/// Why a histogram cannot be laid out.
#[derive(Debug)]
pub enum HistogramError {
    /// The value column is not numeric.
    NonNumeric(String),
    /// The data has no rows.
    Empty,
    /// Laying out the bins as vertical bars failed.
    Layout(VerticalBarLayoutError),
    /// A column lookup failed.
    DataFrame(DataFrameError),
}

impl HistogramError {
    /// The message the error reads as.
    pub fn message(&self) -> (s: String)
        ensures
            s@ == match self {
                Self::NonNumeric(name) => numeric_text("column "@, name@),
                Self::Empty => "no data rows"@,
                Self::Layout(e) => vertical_bar_text(*e),
                Self::DataFrame(e) => error_text(*e),
            },
    {
        match self {
            Self::NonNumeric(name) => must_be_numeric("column ", name),
            Self::Empty => "no data rows".to_string(),
            Self::Layout(e) => e.message(),
            Self::DataFrame(e) => e.message(),
        }
    }
}

/// A CSV reader error.
#[verifier::external_type_specification]
#[verifier::external_body]
pub struct ExCsvError(csv::Error);

/// The text of a CSV reader error, as the csv crate displays it.
#[verifier::external_body]
fn csv_error_display(e: &csv::Error) -> String {
    format!("{}", e)
}

/// Why CSV input cannot be read into a data frame.
#[derive(Debug)]
pub enum CsvError {
    /// The CSV reader failed.
    Parse(csv::Error),
    /// The columns do not form a data frame.
    DataFrame(DataFrameError),
    /// There is no header row.
    Empty,
}

impl CsvError {
    /// The message the error reads as; a reader error's own text follows
    /// "csv parse error: ".
    pub fn message(&self) -> (s: String)
        ensures
            match self {
                Self::Parse(_) => s@.len() >= 17 && s@.take(17) == "csv parse error: "@,
                Self::DataFrame(e) => s@ == error_text(*e),
                Self::Empty => s@ == "empty input \u{2014} no header row"@,
            },
    {
        match self {
            Self::Parse(e) => {
                let mut out: Vec<char> = Vec::new();
                push_str(&mut out, "csv parse error: ");
                let ghost head = out@;
                let text = csv_error_display(e);
                push_str(&mut out, text.as_str());
                proof {
                    reveal_strlit("csv parse error: ");
                    assert(out@.take(17) == head);
                }
                string_from_chars(&out)
            },
            Self::DataFrame(e) => e.message(),
            Self::Empty => "empty input \u{2014} no header row".to_string(),
        }
    }
}

} // verus!
