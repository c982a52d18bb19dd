use tplot::color::{ParseColorError, RgbColor};
use tplot::dataframe::{check_column_lengths, closest_name, find_column, levenshtein, DataFrameError};
use tplot::errors::{BoxPlotError, HistogramError, LayoutError, ScatterLayoutError, VerticalBarLayoutError};
use tplot::geometry::{
    bin_count, column_slots, heatmap_cell_width, layer_left, plot_extent, ribbon_offsets, ridge_baseline,
    ridge_slot_height, rows_per_bar, sankey_columns, slot_center, slot_left, stack_positions, sturges, widest_label,
};
use tplot::grouping::{group_first_seen, group_pairs_first_seen};
use tplot::heat_ramp::{HeatRamp, UnknownHeatRamp};
use tplot::palette::UnknownPalette;
use tplot::probe::{kitty_probe_outcome, read_until_accept, read_until_result, sixel_probe_outcome, ProbeError};
use tplot::table::{
    boolean_cell, focal_row_by_text, is_boolean_like, keep_top, text_column_kind, with_thousands, ColumnType,
    TableLayoutConfig, TableLayoutError,
};

fn strings(v: &[&str]) -> Vec<String> {
    v.iter().map(|s| s.to_string()).collect()
}

#[test]
fn levenshtein_exact_values() {
    assert_eq!(levenshtein("kitten", "sitting"), 3);
    assert_eq!(levenshtein("", "abc"), 3);
    assert_eq!(levenshtein("abc", ""), 3);
    assert_eq!(levenshtein("revneue", "revenue"), 2);
    assert_eq!(levenshtein("same", "same"), 0);
}

#[test]
fn closest_name_takes_first_of_equal_distances() {
    let names = strings(&["quarter", "revenue", "revenua"]);
    assert_eq!(closest_name(&names, "revenuX"), Some(1));
    assert_eq!(closest_name(&Vec::new(), "x"), None);
}

#[test]
fn missing_column_reports_the_closest_name() {
    let names = strings(&["quarter", "revenue"]);
    assert_eq!(find_column(&names, "revenue").unwrap(), 1);
    let err = find_column(&names, "revneue").unwrap_err();
    assert_eq!(err.message(), "unknown column `revneue` \u{2014} did you mean `revenue`?");
    let none = find_column(&Vec::new(), "x").unwrap_err();
    assert_eq!(none.message(), "unknown column `x`");
}

#[test]
fn mismatched_lengths_name_first_differing_column() {
    let names = strings(&["a", "b", "c"]);
    assert!(check_column_lengths(&names, &vec![2, 2, 2]).is_ok());
    let err = check_column_lengths(&names, &vec![2, 1, 3]).unwrap_err();
    assert!(matches!(err, DataFrameError::MismatchedLengths(_)));
    assert_eq!(err.message(), "column lengths differ: `a` has 2 rows, `b` has 1");
}

#[test]
fn layout_error_messages() {
    let e = LayoutError::NonNumericY { name: "label".to_string(), numeric: "`ms`".to_string() };
    assert_eq!(e.message(), "y column `label` must be numeric (numeric columns: `ms`)");
    assert_eq!(BoxPlotError::Empty.message(), "no data rows");
    let s = ScatterLayoutError::NonNumericX { name: "x".to_string(), numeric: "(none)".to_string() };
    assert_eq!(s.message(), "x column `x` must be numeric (numeric columns: (none))");
    let narrow = VerticalBarLayoutError::TooNarrow { n: 12, needed: 12, have: 8 };
    assert_eq!(narrow.message(), "canvas too narrow for 12 bars (need at least 12 cells, have 8)");
    assert_eq!(HistogramError::Layout(narrow).message(), "canvas too narrow for 12 bars (need at least 12 cells, have 8)");
    assert_eq!(HistogramError::NonNumeric("v".to_string()).message(), "column `v` must be numeric");
}

#[test]
fn named_errors_read_as_their_messages() {
    assert_eq!(ParseColorError("#zz".to_string()).message(), "invalid hex color: #zz");
    assert_eq!(UnknownPalette("x".to_string()).message(), "unknown palette: x");
    assert_eq!(UnknownHeatRamp("y".to_string()).message(), "unknown heat ramp: y");
    assert_eq!(TableLayoutError::NonNumericSort("s".to_string()).message(), "sort column `s` must be numeric");
    assert_eq!(ProbeError::Timeout.message(), "timed out waiting for terminal response");
}

#[test]
fn thousands_separators() {
    assert_eq!(with_thousands(1234567), "1,234,567");
    assert_eq!(with_thousands(1000), "1,000");
    assert_eq!(with_thousands(999), "999");
    assert_eq!(with_thousands(0), "0");
    assert_eq!(with_thousands(-1234), "-1,234");
    assert_eq!(with_thousands(i64::MAX), "9,223,372,036,854,775,807");
}

#[test]
fn boolean_like_cells() {
    assert!(is_boolean_like(" TRUE "));
    assert!(is_boolean_like("n"));
    assert!(is_boolean_like("0"));
    assert!(!is_boolean_like("maybe"));
    assert!(!is_boolean_like(""));
    assert_eq!(boolean_cell("Yes"), "\u{2713}");
    assert_eq!(boolean_cell("no"), "\u{2717}");
    assert_eq!(boolean_cell(" t "), "\u{2713}");
    assert_eq!(text_column_kind(&strings(&["true", "false", "yes", "no"])), ColumnType::Boolean);
    assert_eq!(text_column_kind(&strings(&["NA", "EMEA"])), ColumnType::Text);
}

#[test]
fn table_rows_and_focus() {
    assert_eq!(keep_top(vec![3, 1, 0, 2], Some(2)), vec![3, 1]);
    assert_eq!(keep_top(vec![3, 1], Some(5)), vec![3, 1]);
    assert_eq!(keep_top(vec![3, 1], None), vec![3, 1]);
    let cols = strings(&["region", "revenue"]);
    let rows = vec![strings(&["NA", "179"]), strings(&["EMEA", "193"])];
    assert_eq!(focal_row_by_text(&cols, &rows, "region", "EMEA"), Some(1));
    assert_eq!(focal_row_by_text(&cols, &rows, "region", "APAC"), None);
    assert_eq!(focal_row_by_text(&cols, &rows, "nope", "NA"), None);
    let cfg = TableLayoutConfig::default();
    assert!(cfg.bars.is_none() && cfg.sort.is_none() && cfg.top.is_none() && cfg.focus_text.is_none());
}

#[test]
fn first_seen_grouping() {
    let (labels, group) = group_first_seen(&strings(&["b", "a", "b", "c"]));
    assert_eq!(labels, strings(&["b", "a", "c"]));
    assert_eq!(group, vec![0, 1, 0, 2]);
    let (pairs, idx) = group_pairs_first_seen(&vec![(1, 2), (0, 1), (1, 2)]);
    assert_eq!(pairs, vec![(1, 2), (0, 1)]);
    assert_eq!(idx, vec![0, 1, 0]);
}

#[test]
fn column_slots_for_two_boxes() {
    let w = plot_extent(80, 6, 8);
    assert_eq!(w, 74);
    let s = column_slots(w, 2, 3, 7, 3).unwrap();
    assert_eq!((s.bar_cell_width, s.gap_cell_width, s.group_width, s.leading), (7, 2, 9, 28));
    assert_eq!(slot_center(s, 0), 31);
    assert_eq!(slot_center(s, 1), 40);
    assert_eq!(slot_left(s, 1), 37);
    assert!(column_slots(3, 4, 1, 8, 3).is_none());
    assert_eq!(plot_extent(5, 6, 8), 8);
}

#[test]
fn fitting_columns_stay_inside_the_plot() {
    for w in 8..60usize {
        for n in 1..6usize {
            if let Some(s) = column_slots(w, n, 1, 8, 3) {
                if w / n >= 1 {
                    assert!(s.leading + n * s.group_width <= w);
                    assert!(slot_center(s, n - 1) < w);
                }
            }
        }
    }
}

#[test]
fn ridges_stack_downwards() {
    let plot_h = 2 * plot_extent(16, 3, 3);
    assert_eq!(plot_h, 26);
    let slot = ridge_slot_height(plot_h, 3);
    assert_eq!(slot, 8);
    let ys: Vec<usize> = (0..3).map(|i| ridge_baseline(slot, plot_h, i)).collect();
    assert_eq!(ys, vec![8, 16, 24]);
    assert_eq!(ridge_baseline(8, 10, 5), 9);
}

#[test]
fn small_geometry_helpers() {
    assert_eq!(heatmap_cell_width(74, 3), 24);
    assert_eq!(heatmap_cell_width(5, 10), 1);
    assert_eq!(widest_label(&strings(&["a", "abcd", "ab"])), 4);
    assert_eq!(widest_label(&Vec::new()), 0);
    assert_eq!(rows_per_bar(3, 10), 2);
    assert_eq!(rows_per_bar(9, 10), 1);
    assert_eq!(rows_per_bar(0, 1), 2);
    assert_eq!(stack_positions(2, &vec![3, 1, 4], 1), vec![2, 6, 8]);
    assert_eq!(sankey_columns(80, 3), (26, 3));
    assert_eq!(sankey_columns(4, 0), (4, 1));
    assert_eq!(layer_left(26, 3, 1), 38);
}

#[test]
fn ribbons_stack_per_node() {
    let offs = ribbon_offsets(&vec![0, 1, 0, 0], &vec![2, 3, 4, 1], 2);
    assert_eq!(offs, vec![0, 0, 2, 6]);
}

#[test]
fn sturges_rule_values() {
    let expected = [(0, 1), (1, 1), (2, 2), (3, 3), (4, 3), (5, 4), (8, 4), (9, 5), (100, 8), (1024, 11), (1025, 12)];
    for (n, k) in expected {
        assert_eq!(sturges(n), k, "sturges({n})");
    }
    assert_eq!(bin_count(Some(1), 10), 2);
    assert_eq!(bin_count(Some(7), 10), 7);
    assert_eq!(bin_count(None, 100), 8);
}

#[test]
fn sturges_matches_ceil_log2_plus_one() {
    for n in 2usize..5000 {
        let by_float = ((n as f64).log2() + 1.0).ceil() as usize;
        assert_eq!(sturges(n), by_float, "n = {n}");
    }
}

#[test]
fn heat_ramp_stop_colors() {
    let inferno = HeatRamp::Inferno.stop_colors();
    assert_eq!(inferno.len(), 5);
    assert_eq!(inferno[0], RgbColor { r: 0x1c, g: 0x23, b: 0x30 });
    assert_eq!(inferno[4], RgbColor { r: 0xd5, g: 0x4e, b: 0x3a });
    assert_eq!(HeatRamp::Coolwarm.stop_colors().len(), 3);
    assert_eq!(HeatRamp::Viridis.stop_colors()[2], RgbColor { r: 0x21, g: 0x90, b: 0x8c });
}

#[test]
fn probe_decisions() {
    let mut out = Vec::new();
    assert!(!read_until_accept(&mut out, b'h', 0x07));
    assert!(read_until_accept(&mut out, 0x07, 0x07));
    assert_eq!(out, b"h".to_vec());
    assert!(matches!(read_until_result(Vec::new()), Err(ProbeError::Timeout)));
    assert_eq!(read_until_result(b"partial".to_vec()).unwrap(), b"partial".to_vec());
    assert!(matches!(sixel_probe_outcome(Ok(b"\x1b[?62;4;22".to_vec())), Ok(true)));
    assert!(matches!(sixel_probe_outcome(Err(ProbeError::Timeout)), Err(ProbeError::Timeout)));
    assert!(matches!(kitty_probe_outcome(Err(ProbeError::Timeout)), Ok(false)));
    assert!(matches!(kitty_probe_outcome(Ok(b"_Gi=31;OK".to_vec())), Ok(true)));
}
