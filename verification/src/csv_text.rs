//! CSV input as text: the header row and the raw text of every column, read
//! with the csv crate. Deciding which columns are numeric is left to the
//! caller.

use vstd::prelude::*;
use crate::errors::CsvError;

verus! {

/// What the csv crate reads from some bytes with a header row and records as
/// long as the header: `None` when the header row cannot be read; otherwise
/// the header's fields, with the records' fields, or `None` when some record
/// cannot be read.
pub uninterp spec fn csv_records(bytes: Seq<u8>) -> Option<(Seq<Seq<char>>, Option<Seq<Seq<Seq<char>>>>)>;

/// The fields of the records read, when all of them could be read.
pub open spec fn rows_view(rows: Result<Vec<Vec<String>>, csv::Error>) -> Option<Seq<Seq<Seq<char>>>> {
    match rows {
        Ok(x) => Some(x.deep_view()),
        Err(_) => None,
    }
}

/// `csv::ReaderBuilder` with `has_headers(true)` and `flexible(false)`,
/// reading from the bytes: the header's fields (`headers`), then the fields
/// of every record (`records`), stopping at the first error.
#[verifier::external_body]
fn csv_read(bytes: &[u8]) -> (r: Result<(Vec<String>, Result<Vec<Vec<String>>, csv::Error>), csv::Error>)
    ensures
        r is Ok <==> csv_records(bytes@) is Some,
        r matches Ok((h, rows)) ==> csv_records(bytes@) == Some((h.deep_view(), rows_view(rows))),
{
    let mut rdr = csv::ReaderBuilder::new().has_headers(true).flexible(false).from_reader(bytes);
    let headers: Vec<String> = rdr.headers()?.iter().map(String::from).collect();
    let records = rdr.records().map(|rec| rec.map(|fields| fields.iter().map(String::from).collect())).collect();
    Ok((headers, records))
}

/// The values of column `i`: field `i` of each record that has one, in
/// order.
pub open spec fn column_values(rows: Seq<Seq<Seq<char>>>, i: int) -> Seq<Seq<char>>
    decreases rows.len(),
{
    if rows.len() == 0 {
        Seq::empty()
    } else {
        let before = column_values(rows.drop_last(), i);
        if 0 <= i < rows.last().len() {
            before.push(rows.last()[i])
        } else {
            before
        }
    }
}

/// Field `i` of each record that has one.
fn column_of(records: &Vec<Vec<String>>, i: usize) -> (c: Vec<String>)
    ensures
        c.deep_view() == column_values(records.deep_view(), i as int),
{
    let mut c: Vec<String> = Vec::new();
    let mut j: usize = 0;
    while j < records.len()
        invariant
            j <= records@.len(),
            c.deep_view() == column_values(records.deep_view().take(j as int), i as int),
        decreases records@.len() - j,
    {
        let ghost before = c.deep_view();
        let ghost rows = records.deep_view();
        assert(rows.take(j + 1).drop_last() =~= rows.take(j as int));
        assert(rows.take(j + 1).last() == records@[j as int].deep_view());
        if i < records[j].len() {
            let field = records[j][i].clone();
            c.push(field);
            assert(c.deep_view() =~= before.push(records@[j as int].deep_view()[i as int]));
        } else {
            assert(c.deep_view() =~= before);
        }
        j = j + 1;
    }
    assert(records.deep_view().take(records@.len() as int) =~= records.deep_view());
    c
}

/// The header and the raw text columns of CSV input: column `i` holds field
/// `i` of every record. A reader error is `Parse`; a header row without
/// fields is `Empty`, found before any record is looked at.
pub fn csv_text_columns(bytes: &[u8]) -> (r: Result<(Vec<String>, Vec<Vec<String>>), CsvError>)
    ensures
        match csv_records(bytes@) {
            None => r matches Err(CsvError::Parse(_)),
            Some((h, rows)) => if h.len() == 0 {
                r matches Err(CsvError::Empty)
            } else {
                match rows {
                    None => r matches Err(CsvError::Parse(_)),
                    Some(rs) => r matches Ok((hv, cols)) && hv.deep_view() == h && cols@.len() == h.len()
                        && forall|k: int| 0 <= k < h.len() ==> #[trigger] cols@[k].deep_view() == column_values(rs, k),
                }
            },
        },
{
    match csv_read(bytes) {
        Err(e) => Err(CsvError::Parse(e)),
        Ok((headers, rows)) => {
            if headers.len() == 0 {
                return Err(CsvError::Empty);
            }
            match rows {
                Err(e) => Err(CsvError::Parse(e)),
                Ok(records) => {
                    let mut cols: Vec<Vec<String>> = Vec::new();
                    let mut i: usize = 0;
                    while i < headers.len()
                        invariant
                            i <= headers@.len(),
                            cols@.len() == i,
                            forall|k: int| 0 <= k < i ==> #[trigger] cols@[k].deep_view() == column_values(records.deep_view(), k),
                        decreases headers@.len() - i,
                    {
                        let c = column_of(&records, i);
                        cols.push(c);
                        i = i + 1;
                    }
                    Ok((headers, cols))
                },
            }
        },
    }
}

} // verus!
