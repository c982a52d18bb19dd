//! Table logic: column kinds, boolean cells, thousands separators, the rows a
//! table keeps, and the focal row picked by a (column, value) pair.

use vstd::prelude::*;
use crate::dataframe::DataFrameError;
use crate::grouping::texts;
use crate::text::{chars_of, dec_digits, push_decimal, push_str, string_from_chars, trim, trim_chars};

verus! {

/// How a table column is shown.
#[derive(Debug, Clone, Copy, PartialEq, Eq, Structural)]
pub enum ColumnType {
    Text,
    Number,
    Boolean,
}

/// What a table shows besides its cells.
#[derive(Debug, Clone)]
pub struct TableLayoutConfig {
    /// Column to draw an inline value bar for.
    pub bars: Option<String>,
    /// Column to sort by, descending.
    pub sort: Option<String>,
    /// Keep only the first this many rows after sorting.
    pub top: Option<usize>,
    /// Pick the focal row as the first whose cell in the named column reads
    /// the given value.
    pub focus_text: Option<(String, String)>,
}

impl Default for TableLayoutConfig {
    fn default() -> (c: TableLayoutConfig)
        ensures
            c.bars is None,
            c.sort is None,
            c.top is None,
            c.focus_text is None,
    {
        TableLayoutConfig { bars: None, sort: None, top: None, focus_text: None }
    }
}

/// Why a table cannot be laid out.
#[derive(Debug)]
pub enum TableLayoutError {
    /// The data has no rows.
    Empty,
    /// A column lookup failed.
    DataFrame(DataFrameError),
    /// The sort column is missing or not numeric; holds its name.
    NonNumericSort(String),
}

impl TableLayoutError {
    /// The message the error reads as.
    pub fn message(&self) -> (s: String)
        ensures
            match self {
                TableLayoutError::Empty => s@ == "no data rows"@,
                TableLayoutError::DataFrame(_) => true,
                TableLayoutError::NonNumericSort(name) => s@ == "sort column `"@ + name@ + "` must be numeric"@,
            },
            self matches TableLayoutError::DataFrame(e) ==> s@ == crate::dataframe::error_text(*e),
    {
        match self {
            TableLayoutError::Empty => "no data rows".to_string(),
            TableLayoutError::DataFrame(e) => e.message(),
            TableLayoutError::NonNumericSort(name) => {
                let mut out: Vec<char> = Vec::new();
                push_str(&mut out, "sort column `");
                push_str(&mut out, name.as_str());
                push_str(&mut out, "` must be numeric");
                string_from_chars(&out)
            },
        }
    }
}

/// `c` with an ASCII capital turned into its small letter.
pub open spec fn ascii_lower(c: char) -> char {
    if 'A' <= c && c <= 'Z' {
        ((c as u32) + 32) as char
    } else {
        c
    }
}

/// The text with its ASCII capitals made small.
pub open spec fn lower_text(s: Seq<char>) -> Seq<char> {
    s.map_values(|c: char| ascii_lower(c))
}

/// The words a boolean cell may hold, in lower case.
pub open spec fn is_boolean_word(w: Seq<char>) -> bool {
    ||| w == "true"@
    ||| w == "false"@
    ||| w == "yes"@
    ||| w == "no"@
    ||| w == "1"@
    ||| w == "0"@
    ||| w == "y"@
    ||| w == "n"@
    ||| w == "t"@
    ||| w == "f"@
}

/// The words that mean "true", in lower case.
pub open spec fn is_true_word(w: Seq<char>) -> bool {
    ||| w == "true"@
    ||| w == "yes"@
    ||| w == "1"@
    ||| w == "y"@
    ||| w == "t"@
}

/// A cell reads as a boolean: trimmed and in lower case it is one of the
/// boolean words.
pub open spec fn spec_is_boolean_like(s: Seq<char>) -> bool {
    is_boolean_word(lower_text(trim(s)))
}

/// All characters are small ASCII letters or digits.
pub open spec fn is_lower_word(w: Seq<char>) -> bool {
    forall|i: int| 0 <= i < w.len() ==> ('a' <= #[trigger] w[i] && w[i] <= 'z') || ('0' <= w[i] && w[i] <= '9')
}

/// Whether `cs`, with its ASCII capitals made small, reads `word`.
fn lower_eq(cs: &Vec<char>, word: &str) -> (r: bool)
    requires
        is_lower_word(word@),
    ensures
        r == (lower_text(cs@) == word@),
{
    let w = chars_of(word);
    if cs.len() != w.len() {
        proof {
            assert(lower_text(cs@).len() != word@.len());
        }
        return false;
    }
    let mut i: usize = 0;
    while i < cs.len()
        invariant
            w@ == word@,
            is_lower_word(word@),
            cs@.len() == w@.len(),
            i <= cs@.len(),
            forall|j: int| 0 <= j < i ==> ascii_lower(#[trigger] cs@[j]) == w@[j],
        decreases cs@.len() - i,
    {
        let c = cs[i];
        let t = w[i];
        let same = c == t || ('A' <= c && c <= 'Z' && (c as u32) + 32 == (t as u32));
        proof {
            assert(('a' <= t && t <= 'z') || ('0' <= t && t <= '9'));
            if 'A' <= c && c <= 'Z' {
                assert((((c as u32) + 32) as char == t) == ((c as u32) + 32 == (t as u32)));
            }
        }
        if !same {
            proof {
                assert(lower_text(cs@)[i as int] != word@[i as int]);
            }
            return false;
        }
        i = i + 1;
    }
    proof {
        assert(lower_text(cs@) == word@);
    }
    true
}

/// Whether a cell reads as a boolean (`true`, `false`, `yes`, `no`, `1`,
/// `0`, `y`, `n`, `t`, `f`, in any case, surrounding white space ignored).
/// Unicode lower-casing, which the words are matched under, agrees with ASCII
/// lower-casing on whether a text becomes one of these words.
pub fn is_boolean_like(s: &str) -> (r: bool)
    ensures
        r == spec_is_boolean_like(s@),
{
    let t = trim_chars(&chars_of(s));
    proof {
        reveal_strlit("true");
        reveal_strlit("false");
        reveal_strlit("yes");
        reveal_strlit("no");
        reveal_strlit("1");
        reveal_strlit("0");
        reveal_strlit("y");
        reveal_strlit("n");
        reveal_strlit("t");
        reveal_strlit("f");
    }
    lower_eq(&t, "true") || lower_eq(&t, "false") || lower_eq(&t, "yes") || lower_eq(&t, "no")
        || lower_eq(&t, "1") || lower_eq(&t, "0") || lower_eq(&t, "y") || lower_eq(&t, "n")
        || lower_eq(&t, "t") || lower_eq(&t, "f")
}

/// A boolean cell as shown: a check mark for the "true" words, a cross
/// otherwise.
pub fn boolean_cell(s: &str) -> (r: String)
    ensures
        r@ == if is_true_word(lower_text(trim(s@))) { "\u{2713}"@ } else { "\u{2717}"@ },
{
    let t = trim_chars(&chars_of(s));
    proof {
        reveal_strlit("true");
        reveal_strlit("yes");
        reveal_strlit("1");
        reveal_strlit("y");
        reveal_strlit("t");
    }
    if lower_eq(&t, "true") || lower_eq(&t, "yes") || lower_eq(&t, "1") || lower_eq(&t, "y") || lower_eq(&t, "t") {
        "\u{2713}".to_string()
    } else {
        "\u{2717}".to_string()
    }
}

/// The kind of a column of text cells: boolean when every cell reads as a
/// boolean, text otherwise.
pub fn text_column_kind(values: &Vec<String>) -> (k: ColumnType)
    ensures
        k == if forall|i: int| 0 <= i < values@.len() ==> #[trigger] spec_is_boolean_like(values@[i]@) {
            ColumnType::Boolean
        } else {
            ColumnType::Text
        },
{
    let mut i: usize = 0;
    while i < values.len()
        invariant
            i <= values@.len(),
            forall|j: int| 0 <= j < i ==> #[trigger] spec_is_boolean_like(values@[j]@),
        decreases values@.len() - i,
    {
        if !is_boolean_like(values[i].as_str()) {
            return ColumnType::Text;
        }
        i = i + 1;
    }
    ColumnType::Boolean
}

/// The digits grouped in threes from the right, separated by commas.
pub open spec fn group3(d: Seq<char>) -> Seq<char>
    decreases d.len(),
{
    if d.len() <= 3 {
        d
    } else {
        group3(d.take(d.len() - 3)) + seq![','] + d.skip(d.len() - 3)
    }
}

/// An integer written with a comma between each group of three digits.
pub open spec fn spec_with_thousands(n: int) -> Seq<char> {
    if n < 0 {
        seq!['-'] + group3(dec_digits((-n) as nat))
    } else {
        group3(dec_digits(n as nat))
    }
}

fn push_grouped(out: &mut Vec<char>, d: &Vec<char>, len: usize)
    requires
        len <= d@.len(),
    ensures
        final(out)@ == old(out)@ + group3(d@.take(len as int)),
    decreases len,
{
    if len <= 3 {
        let ghost start = out@;
        let mut i: usize = 0;
        while i < len
            invariant
                i <= len,
                len <= d@.len(),
                out@ == start + d@.take(i as int),
            decreases len - i,
        {
            out.push(d[i]);
            i = i + 1;
            assert(d@.take(i as int) == d@.take(i - 1).push(d@[i - 1]));
        }
    } else {
        push_grouped(out, d, len - 3);
        out.push(',');
        out.push(d[len - 3]);
        out.push(d[len - 2]);
        out.push(d[len - 1]);
        proof {
            let t = d@.take(len as int);
            assert(t.take(t.len() - 3) == d@.take(len - 3));
            assert(t.skip(t.len() - 3) == seq![d@[len - 3], d@[len - 2], d@[len - 1]]);
        }
    }
}

/// An integer with thousands separators: `1234567` reads `1,234,567`.
pub fn with_thousands(n: i64) -> (s: String)
    requires
        n != i64::MIN,
    ensures
        s@ == spec_with_thousands(n as int),
{
    let mag: u64 = if n < 0 { (-n) as u64 } else { n as u64 };
    let mut digits: Vec<char> = Vec::new();
    push_decimal(&mut digits, mag);
    let mut out: Vec<char> = Vec::new();
    if n < 0 {
        out.push('-');
    }
    push_grouped(&mut out, &digits, digits.len());
    proof {
        assert(digits@.take(digits@.len() as int) == digits@);
        assert(digits@ == dec_digits(mag as nat));
    }
    string_from_chars(&out)
}

/// The rows a table keeps: the first `top` in order when a limit is given.
pub fn keep_top(order: Vec<usize>, top: Option<usize>) -> (r: Vec<usize>)
    ensures
        r@ == match top {
            Some(n) => if n < order@.len() { order@.take(n as int) } else { order@ },
            None => order@,
        },
{
    let mut order = order;
    match top {
        Some(n) => {
            order.truncate(n);
        },
        None => {},
    }
    order
}

/// Place `i` holds the first occurrence of `x` in `names`.
pub open spec fn first_named(names: Seq<Seq<char>>, x: Seq<char>, i: int) -> bool {
    &&& 0 <= i < names.len()
    &&& names[i] == x
    &&& forall|j: int| 0 <= j < i ==> names[j] != x
}

/// The focal row picked by a (column, value) pair: the first row whose cell
/// in the first column of that name reads the value; none when no column
/// has the name or no row the value.
pub fn focal_row_by_text(column_names: &Vec<String>, rows: &Vec<Vec<String>>, column: &str, value: &str) -> (r: Option<usize>)
    requires
        forall|i: int| 0 <= i < rows@.len() ==> (#[trigger] rows@[i])@.len() == column_names@.len(),
    ensures
        !texts(column_names@).contains(column@) ==> r is None,
        forall|ci: int| #[trigger] first_named(texts(column_names@), column@, ci) ==> match r {
            Some(i) => i < rows@.len() && rows@[i as int]@[ci]@ == value@
                && forall|j: int| 0 <= j < i ==> (#[trigger] rows@[j])@[ci]@ != value@,
            None => forall|j: int| 0 <= j < rows@.len() ==> (#[trigger] rows@[j])@[ci]@ != value@,
        },
{
    let ci = match crate::dataframe::find_name(column_names, column) {
        Some(ci) => ci,
        None => {
            return None;
        },
    };
    proof {
        assert(first_named(texts(column_names@), column@, ci as int));
        assert forall|c: int| #[trigger] first_named(texts(column_names@), column@, c) implies c == ci by {
            if c < ci {
                assert(texts(column_names@)[c] == column@);
            } else if c > ci {
                assert(texts(column_names@)[ci as int] == column@);
            }
        }
    }
    let v = value.to_string();
    let mut i: usize = 0;
    while i < rows.len()
        invariant
            v@ == value@,
            ci < column_names@.len(),
            texts(column_names@).contains(column@),
            forall|c: int| #[trigger] first_named(texts(column_names@), column@, c) ==> c == ci,
            forall|q: int| 0 <= q < rows@.len() ==> (#[trigger] rows@[q])@.len() == column_names@.len(),
            i <= rows@.len(),
            forall|j: int| 0 <= j < i ==> (#[trigger] rows@[j])@[ci as int]@ != value@,
        decreases rows@.len() - i,
    {
        assert(rows@[i as int]@.len() == column_names@.len());
        if rows[i][ci] == v {
            return Some(i);
        }
        i = i + 1;
    }
    None
}


/// Among the boolean words, exactly those that are not a "false" word
/// (`false`, `no`, `0`, `n`, `f`) show as a check mark.
pub proof fn boolean_cells_check_unless_false(s: Seq<char>)
    requires
        spec_is_boolean_like(s),
    ensures
        ({
            let w = lower_text(trim(s));
            is_true_word(w) <==> !(w == "false"@ || w == "no"@ || w == "0"@ || w == "n"@ || w == "f"@)
        }),
{
    reveal_strlit("true");
    reveal_strlit("false");
    reveal_strlit("yes");
    reveal_strlit("no");
    reveal_strlit("1");
    reveal_strlit("0");
    reveal_strlit("y");
    reveal_strlit("n");
    reveal_strlit("t");
    reveal_strlit("f");
    assert("true"@.len() != "false"@.len());
    assert("true"@.len() != "no"@.len());
    assert("true"@.len() != "0"@.len());
    assert("true"@.len() != "n"@.len());
    assert("true"@.len() != "f"@.len());
    assert("yes"@.len() != "false"@.len());
    assert("yes"@.len() != "no"@.len());
    assert("yes"@.len() != "0"@.len());
    assert("yes"@.len() != "n"@.len());
    assert("yes"@.len() != "f"@.len());
    assert("1"@.len() != "false"@.len());
    assert("1"@.len() != "no"@.len());
    assert("y"@.len() != "false"@.len());
    assert("y"@.len() != "no"@.len());
    assert("t"@.len() != "false"@.len());
    assert("t"@.len() != "no"@.len());
    assert("1"@ != "0"@) by {
        assert("1"@[0] != "0"@[0]);
    }
    assert("1"@ != "n"@) by {
        assert("1"@[0] != "n"@[0]);
    }
    assert("1"@ != "f"@) by {
        assert("1"@[0] != "f"@[0]);
    }
    assert("y"@ != "0"@) by {
        assert("y"@[0] != "0"@[0]);
    }
    assert("y"@ != "n"@) by {
        assert("y"@[0] != "n"@[0]);
    }
    assert("y"@ != "f"@) by {
        assert("y"@[0] != "f"@[0]);
    }
    assert("t"@ != "0"@) by {
        assert("t"@[0] != "0"@[0]);
    }
    assert("t"@ != "n"@) by {
        assert("t"@[0] != "n"@[0]);
    }
    assert("t"@ != "f"@) by {
        assert("t"@[0] != "f"@[0]);
    }
}

} // verus!
