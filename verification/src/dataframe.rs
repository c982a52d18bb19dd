//! Column bookkeeping of a data frame: looking a column up by name with a
//! "did you mean" suggestion by edit distance, checking that the columns have
//! equal lengths, and the messages of the errors.

use vstd::prelude::*;
use crate::grouping::texts;
use crate::text::{chars_of, dec_digits, push_decimal, push_str, string_from_chars};

verus! {

/// Why a data frame cannot be built or queried.
#[derive(Debug)]
pub enum DataFrameError {
    /// Two columns have different numbers of rows; says which.
    MismatchedLengths(String),
    /// No column has the requested name; names the closest one, if any.
    UnknownColumn { name: String, suggestion: Option<String> },
}

/// The smallest of three numbers.
pub open spec fn min3(x: nat, y: nat, z: nat) -> nat {
    if x <= y && x <= z {
        x
    } else if y <= z {
        y
    } else {
        z
    }
}

/// The Levenshtein distance: the fewest single-character insertions,
/// deletions and substitutions that turn `a` into `b`.
pub open spec fn edit_distance(a: Seq<char>, b: Seq<char>) -> nat
    decreases a.len() + b.len(),
{
    if a.len() == 0 {
        b.len()
    } else if b.len() == 0 {
        a.len()
    } else {
        min3(
            edit_distance(a.drop_last(), b) + 1,
            edit_distance(a, b.drop_last()) + 1,
            edit_distance(a.drop_last(), b.drop_last()) + if a.last() == b.last() { 0nat } else { 1nat },
        )
    }
}

/// The distance never exceeds the two lengths together.
pub proof fn lemma_edit_distance_bound(a: Seq<char>, b: Seq<char>)
    ensures
        edit_distance(a, b) <= a.len() + b.len(),
    decreases a.len() + b.len(),
{
    if a.len() > 0 && b.len() > 0 {
        lemma_edit_distance_bound(a.drop_last(), b);
    }
}

/// The Levenshtein distance between two strings, by the two-row dynamic
/// program.
pub fn levenshtein(a: &str, b: &str) -> (d: usize)
    requires
        a@.len() + b@.len() <= usize::MAX,
    ensures
        d == edit_distance(a@, b@),
{
    let av = chars_of(a);
    let bv = chars_of(b);
    let m = bv.len();
    let mut prev: Vec<usize> = Vec::new();
    let mut curr: Vec<usize> = Vec::new();
    proof {
        assert(av@.take(0).len() == 0);
        assert(bv@.take(0).len() == 0);
    }
    prev.push(0);
    curr.push(0);
    let mut j: usize = 0;
    while j < m
        invariant
            m == bv@.len(),
            j <= m,
            prev@.len() == j + 1,
            curr@.len() == j + 1,
            forall|q: int| 0 <= q <= j ==> #[trigger] prev@[q] == edit_distance(av@.take(0), bv@.take(q)),
        decreases m - j,
    {
        j = j + 1;
        proof {
            assert(av@.take(0).len() == 0);
            assert(bv@.take(j as int).len() == j);
        }
        prev.push(j);
        curr.push(0);
    }
    let mut i: usize = 0;
    while i < av.len()
        invariant
            m == bv@.len(),
            av@ == a@,
            bv@ == b@,
            a@.len() + b@.len() <= usize::MAX,
            i <= av@.len(),
            prev@.len() == m + 1,
            curr@.len() == m + 1,
            forall|q: int| 0 <= q <= m ==> #[trigger] prev@[q] == edit_distance(av@.take(i as int), bv@.take(q)),
        decreases av@.len() - i,
    {
        curr.set(0, i + 1);
        proof {
            assert(bv@.take(0).len() == 0);
        }
        let ai = av[i];
        let mut j: usize = 0;
        while j < m
            invariant
                m == bv@.len(),
                a@.len() + b@.len() <= usize::MAX,
                av@ == a@,
                bv@ == b@,
                i < av@.len(),
                ai == av@[i as int],
                j <= m,
                prev@.len() == m + 1,
                curr@.len() == m + 1,
                forall|q: int| 0 <= q <= m ==> #[trigger] prev@[q] == edit_distance(av@.take(i as int), bv@.take(q)),
                forall|q: int| 0 <= q <= j ==> #[trigger] curr@[q] == edit_distance(av@.take(i + 1), bv@.take(q)),
            decreases m - j,
        {
            let cost: usize = if ai == bv[j] { 0 } else { 1 };
            proof {
                lemma_edit_distance_bound(av@.take(i as int), bv@.take(j + 1));
                lemma_edit_distance_bound(av@.take(i + 1), bv@.take(j as int));
                lemma_edit_distance_bound(av@.take(i as int), bv@.take(j as int));
                assert(av@.take(i as int).len() == i);
                assert(av@.take(i + 1).len() == i + 1);
                assert(bv@.take(j + 1).len() == j + 1);
                assert(bv@.take(j as int).len() == j);
                assert(prev@[j + 1] == edit_distance(av@.take(i as int), bv@.take(j + 1)));
                assert(curr@[j as int] == edit_distance(av@.take(i + 1), bv@.take(j as int)));
                assert(prev@[j as int] == edit_distance(av@.take(i as int), bv@.take(j as int)));
                assert(av@.take(i + 1).drop_last() == av@.take(i as int));
                assert(bv@.take(j + 1).drop_last() == bv@.take(j as int));
                assert(av@.take(i + 1).last() == ai);
                assert(bv@.take(j + 1).last() == bv@[j as int]);
            }
            let del = prev[j + 1] + 1;
            let ins = curr[j] + 1;
            let sub = prev[j] + cost;
            let mut best = del;
            if ins < best {
                best = ins;
            }
            if sub < best {
                best = sub;
            }
            curr.set(j + 1, best);
            j = j + 1;
        }
        std::mem::swap(&mut prev, &mut curr);
        i = i + 1;
    }
    proof {
        assert(av@.take(av@.len() as int) == a@);
        assert(bv@.take(m as int) == b@);
    }
    prev[m]
}

/// Name `i` is the one closest to `target` by edit distance, the first of
/// them on a tie.
pub open spec fn is_closest(names: Seq<Seq<char>>, target: Seq<char>, i: int) -> bool {
    &&& 0 <= i < names.len()
    &&& forall|j: int| 0 <= j < names.len() ==> edit_distance(names[i], target) <= #[trigger] edit_distance(names[j], target)
    &&& forall|j: int| 0 <= j < i ==> edit_distance(names[i], target) < #[trigger] edit_distance(names[j], target)
}

/// Each name is short enough to measure against `target`.
pub open spec fn measurable(names: Seq<Seq<char>>, target: Seq<char>) -> bool {
    forall|j: int| 0 <= j < names.len() ==> #[trigger] names[j].len() + target.len() <= usize::MAX
}

/// The place of the name closest to `target` by edit distance (the first on
/// a tie); none when there are no names.
pub fn closest_name(names: &Vec<String>, target: &str) -> (r: Option<usize>)
    requires
        measurable(texts(names@), target@),
    ensures
        r is None <==> names@.len() == 0,
        r matches Some(i) ==> is_closest(texts(names@), target@, i as int),
{
    if names.len() == 0 {
        return None;
    }
    let ghost ns = texts(names@);
    assert(ns[0].len() + target@.len() <= usize::MAX);
    let mut best: usize = 0;
    let mut best_d: usize = levenshtein(names[0].as_str(), target);
    let mut k: usize = 1;
    while k < names.len()
        invariant
            ns == texts(names@),
            measurable(ns, target@),
            1 <= k <= names@.len(),
            best < k,
            best_d == edit_distance(ns[best as int], target@),
            forall|j: int| 0 <= j < k ==> best_d <= #[trigger] edit_distance(ns[j], target@),
            forall|j: int| 0 <= j < best ==> best_d < #[trigger] edit_distance(ns[j], target@),
        decreases names@.len() - k,
    {
        assert(ns[k as int].len() + target@.len() <= usize::MAX);
        let d = levenshtein(names[k].as_str(), target);
        if d < best_d {
            best = k;
            best_d = d;
        }
        k = k + 1;
    }
    Some(best)
}

/// The first place where a name equals `target`.
pub fn find_name(names: &Vec<String>, target: &str) -> (r: Option<usize>)
    ensures
        r is Some <==> texts(names@).contains(target@),
        r matches Some(i) ==> i < names@.len() && names@[i as int]@ == target@
            && forall|j: int| 0 <= j < i ==> names@[j]@ != target@,
{
    let t = target.to_string();
    let mut i: usize = 0;
    while i < names.len()
        invariant
            t@ == target@,
            i <= names@.len(),
            forall|j: int| 0 <= j < i ==> names@[j]@ != target@,
        decreases names@.len() - i,
    {
        if names[i] == t {
            proof {
                assert(texts(names@)[i as int] == target@);
            }
            return Some(i);
        }
        i = i + 1;
    }
    proof {
        if texts(names@).contains(target@) {
            let j = choose|j: int| 0 <= j < texts(names@).len() && texts(names@)[j] == target@;
            assert(names@[j]@ == target@);
        }
    }
    None
}

/// Looks a column up by name among the columns' names: its place, or an
/// error that names the requested column and suggests the closest name.
pub fn find_column(names: &Vec<String>, name: &str) -> (r: Result<usize, DataFrameError>)
    requires
        measurable(texts(names@), name@),
    ensures
        r is Ok <==> texts(names@).contains(name@),
        r matches Ok(i) ==> i < names@.len() && names@[i as int]@ == name@
            && forall|j: int| 0 <= j < i ==> names@[j]@ != name@,
        r matches Err(e) ==> match e {
            DataFrameError::UnknownColumn { name: n, suggestion } => n@ == name@ && match suggestion {
                None => names@.len() == 0,
                Some(s) => exists|i: int| is_closest(texts(names@), name@, i) && s@ == names@[i]@,
            },
            DataFrameError::MismatchedLengths(_) => false,
        },
{
    match find_name(names, name) {
        Some(i) => Ok(i),
        None => {
            let suggestion = match closest_name(names, name) {
                Some(i) => Some(names[i].clone()),
                None => None,
            };
            Err(DataFrameError::UnknownColumn { name: name.to_string(), suggestion })
        },
    }
}

/// "`a` has n rows, `b` has m": the description of a length mismatch.
pub open spec fn mismatch_text(a: Seq<char>, n: nat, b: Seq<char>, m: nat) -> Seq<char> {
    "`"@ + a + "` has "@ + dec_digits(n) + " rows, `"@ + b + "` has "@ + dec_digits(m)
}

/// Checks that every column has as many rows as the first; on a mismatch,
/// names the first and the first column that differs from it.
pub fn check_column_lengths(names: &Vec<String>, lens: &Vec<usize>) -> (r: Result<(), DataFrameError>)
    requires
        names@.len() == lens@.len(),
    ensures
        r is Ok <==> forall|c: int| 0 <= c < lens@.len() ==> #[trigger] lens@[c] == lens@[0],
        r matches Err(e) ==> exists|c: int| 0 < c < lens@.len() && #[trigger] lens@[c] != lens@[0]
            && (forall|d: int| 0 < d < c ==> #[trigger] lens@[d] == lens@[0])
            && (e matches DataFrameError::MismatchedLengths(m)
            && m@ == mismatch_text(names@[0]@, lens@[0] as nat, names@[c]@, lens@[c] as nat)),
{
    if lens.len() == 0 {
        return Ok(());
    }
    let n = lens[0];
    let mut c: usize = 1;
    while c < lens.len()
        invariant
            names@.len() == lens@.len(),
            lens@.len() > 0,
            n == lens@[0],
            1 <= c <= lens@.len(),
            forall|d: int| 0 <= d < c ==> #[trigger] lens@[d] == n,
        decreases lens@.len() - c,
    {
        if lens[c] != n {
            let mut out: Vec<char> = Vec::new();
            push_str(&mut out, "`");
            push_str(&mut out, names[0].as_str());
            push_str(&mut out, "` has ");
            push_decimal(&mut out, n as u64);
            push_str(&mut out, " rows, `");
            push_str(&mut out, names[c].as_str());
            push_str(&mut out, "` has ");
            push_decimal(&mut out, lens[c] as u64);
            let m = string_from_chars(&out);
            proof {
                assert(m@ == mismatch_text(names@[0]@, lens@[0] as nat, names@[c as int]@, lens@[c as int] as nat));
            }
            return Err(DataFrameError::MismatchedLengths(m));
        }
        c = c + 1;
    }
    Ok(())
}

/// The text of each string slice.
pub open spec fn str_texts(v: Seq<&str>) -> Seq<Seq<char>> {
    v.map_values(|s: &str| s@)
}

/// `n` between backticks.
pub open spec fn backticked(n: Seq<char>) -> Seq<char> {
    "`"@ + n + "`"@
}

/// The names, each between backticks, separated by ", ".
pub open spec fn backtick_list(names: Seq<Seq<char>>) -> Seq<char>
    decreases names.len(),
{
    if names.len() == 0 {
        Seq::empty()
    } else if names.len() == 1 {
        backticked(names[0])
    } else {
        backtick_list(names.drop_last()) + ", "@ + backticked(names.last())
    }
}

/// A list of column names, each between backticks and separated by ", ";
/// `(none)` for an empty list.
pub fn comma_list(names: Vec<&str>) -> (s: String)
    ensures
        s@ == if names@.len() == 0 { "(none)"@ } else { backtick_list(str_texts(names@)) },
{
    if names.len() == 0 {
        return "(none)".to_string();
    }
    let mut out: Vec<char> = Vec::new();
    let mut i: usize = 0;
    while i < names.len()
        invariant
            i <= names@.len(),
            names@.len() > 0,
            out@ == backtick_list(str_texts(names@).take(i as int)),
        decreases names@.len() - i,
    {
        let ghost before = out@;
        if i > 0 {
            push_str(&mut out, ", ");
        }
        push_str(&mut out, "`");
        push_str(&mut out, names[i]);
        push_str(&mut out, "`");
        proof {
            let t = str_texts(names@).take(i + 1);
            assert(t.drop_last() == str_texts(names@).take(i as int));
            assert(t.last() == names@[i as int]@);
            if i == 0 {
                assert(t.len() == 1);
            }
        }
        i = i + 1;
    }
    proof {
        assert(str_texts(names@).take(names@.len() as int) == str_texts(names@));
    }
    string_from_chars(&out)
}

/// The message a data-frame error reads as.
pub open spec fn error_text(e: DataFrameError) -> Seq<char> {
    match e {
        DataFrameError::MismatchedLengths(m) => "column lengths differ: "@ + m@,
        DataFrameError::UnknownColumn { name, suggestion } => "unknown column `"@ + name@ + "`"@ + match suggestion {
            Some(sug) => " \u{2014} did you mean `"@ + sug@ + "`?"@,
            None => Seq::empty(),
        },
    }
}

impl DataFrameError {
    /// The message the error reads as.
    pub fn message(&self) -> (s: String)
        ensures
            s@ == error_text(*self),
    {
        let mut out: Vec<char> = Vec::new();
        match self {
            DataFrameError::MismatchedLengths(m) => {
                push_str(&mut out, "column lengths differ: ");
                push_str(&mut out, m.as_str());
            },
            DataFrameError::UnknownColumn { name, suggestion } => {
                push_str(&mut out, "unknown column `");
                push_str(&mut out, name.as_str());
                push_str(&mut out, "`");
                match suggestion {
                    Some(sug) => {
                        push_str(&mut out, " \u{2014} did you mean `");
                        push_str(&mut out, sug.as_str());
                        push_str(&mut out, "`?");
                    },
                    None => {},
                }
            },
        }
        string_from_chars(&out)
    }
}

} // verus!
