use tplot::csv_text::csv_text_columns;
use tplot::errors::CsvError;

fn strings(v: &[&str]) -> Vec<String> {
    v.iter().map(|s| s.to_string()).collect()
}

#[test]
fn csv_header_and_columns() {
    let (headers, cols) = csv_text_columns(b"a,b\n1,foo\n2,bar\n3,baz\n").unwrap();
    assert_eq!(headers, strings(&["a", "b"]));
    assert_eq!(cols, vec![strings(&["1", "2", "3"]), strings(&["foo", "bar", "baz"])]);
}

#[test]
fn csv_columns_keep_text_as_read() {
    let (headers, cols) = csv_text_columns(b"x,y\nQ1,1\nQ2,2\nQ3,3\n").unwrap();
    assert_eq!(headers, strings(&["x", "y"]));
    assert_eq!(cols[0], strings(&["Q1", "Q2", "Q3"]));
    assert_eq!(cols[1], strings(&["1", "2", "3"]));
}

#[test]
fn csv_quoted_fields_are_unquoted() {
    let (_, cols) = csv_text_columns(b"name,note\n\"a, b\",x\n").unwrap();
    assert_eq!(cols[0], strings(&["a, b"]));
}

#[test]
fn csv_header_only_gives_empty_columns() {
    let (headers, cols) = csv_text_columns(b"a,b\n").unwrap();
    assert_eq!(headers.len(), 2);
    assert!(cols.iter().all(|c| c.is_empty()));
}

#[test]
fn csv_without_header_is_empty() {
    assert!(matches!(csv_text_columns(b""), Err(CsvError::Empty)));
}

#[test]
fn csv_ragged_record_is_a_parse_error() {
    let r = csv_text_columns(b"a,b\n1\n");
    assert!(matches!(r, Err(CsvError::Parse(_))));
    if let Err(e) = r {
        assert!(e.message().starts_with("csv parse error: "));
    }
}
