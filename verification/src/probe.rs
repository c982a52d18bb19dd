//! Terminal capability probing: the decisions taken on the bytes a terminal
//! answers to a device-attributes or graphics query. The reading and writing
//! themselves happen outside the library.

use vstd::prelude::*;
use vstd::utf8::{decode_utf8, valid_utf8};
use crate::text::{after_last, chars_contains, chars_eq_str, chars_of, seq_contains, trim, trim_chars};

verus! {

/// An I/O error reported by the terminal connection.
#[verifier::external_type_specification]
#[verifier::external_body]
pub struct ExIoError(std::io::Error);

/// Why a probe produced no answer.
#[derive(Debug)]
pub enum ProbeError {
    /// The terminal did not answer in time.
    Timeout,
    /// Reading or writing the terminal failed.
    Io(std::io::Error),
}

/// The text of an I/O error, as `std::io::Error` displays it.
#[verifier::external_body]
fn io_error_display(e: &std::io::Error) -> String {
    format!("{}", e)
}

impl ProbeError {
    /// The message the error reads as; an I/O error's own text follows
    /// "io error: ".
    pub fn message(&self) -> (s: String)
        ensures
            match self {
                ProbeError::Timeout => s@ == "timed out waiting for terminal response"@,
                ProbeError::Io(_) => exists|t: Seq<char>| s@ == "io error: "@ + t,
            },
    {
        match self {
            ProbeError::Timeout => "timed out waiting for terminal response".to_string(),
            ProbeError::Io(e) => {
                let t = io_error_display(e);
                crate::text::prefixed("io error: ", t.as_str())
            },
        }
    }
}

/// `std::str::from_utf8`: the text the bytes encode, when they are valid
/// UTF-8.
#[verifier::external_body]
fn str_from_utf8(v: &[u8]) -> (r: Option<&str>)
    ensures
        r is Some <==> valid_utf8(v@),
        r matches Some(s) ==> s@ == decode_utf8(v@),
{
    std::str::from_utf8(v).ok()
}

/// `s[i..j]` is a whole `;`-separated field of `s`.
pub open spec fn is_field(s: Seq<char>, i: int, j: int) -> bool {
    &&& 0 <= i <= j <= s.len()
    &&& (i == 0 || s[i - 1] == ';')
    &&& (j == s.len() || s[j] == ';')
    &&& forall|k: int| i <= k < j ==> s[k] != ';'
}

/// Some `;`-separated field of `s` is `4` once trimmed.
pub open spec fn has_feature_4(s: Seq<char>) -> bool {
    exists|i: int, j: int| is_field(s, i, j) && #[trigger] trim(s.subrange(i, j)) == "4"@
}

/// A device-attributes answer announces Sixel when it is UTF-8 text in which
/// a `;`-separated field after the last `?` (or of the whole text when there
/// is no `?`) reads `4`.
pub open spec fn spec_supports_sixel(response: Seq<u8>) -> bool {
    valid_utf8(response) && has_feature_4(after_last(decode_utf8(response), '?'))
}

/// A graphics-protocol answer accepts the query when it is UTF-8 text that
/// holds `;OK`.
pub open spec fn spec_supports_kitty(response: Seq<u8>) -> bool {
    valid_utf8(response) && seq_contains(decode_utf8(response), ";OK"@)
}

/// Whether a device-attributes answer announces Sixel graphics (feature code
/// `4` as a whole field, not inside `64`).
pub fn parse_response_supports_sixel(response: &[u8]) -> (r: bool)
    ensures
        r == spec_supports_sixel(response@),
{
    let s = match str_from_utf8(response) {
        Some(s) => s,
        None => return false,
    };
    let cs = chars_of(s);
    let mut q: usize = cs.len();
    while q > 0 && cs[q - 1] != '?'
        invariant
            q <= cs.len(),
            forall|k: int| q <= k < cs.len() ==> cs@[k] != '?',
        decreases q,
    {
        q = q - 1;
    }
    let mut after: Vec<char> = Vec::new();
    let mut k: usize = q;
    while k < cs.len()
        invariant
            q <= k <= cs.len(),
            after@ == cs@.subrange(q as int, k as int),
        decreases cs.len() - k,
    {
        after.push(cs[k]);
        k = k + 1;
        assert(after@ =~= cs@.subrange(q as int, k as int));
    }
    proof {
        if q > 0 {
            crate::text::lemma_after_last(cs@, '?', q - 1);
        } else {
            crate::text::lemma_after_last_none(cs@, '?');
            assert(cs@.subrange(0, cs@.len() as int) =~= cs@);
        }
    }
    has_field_4(&after)
}

/// Whether some `;`-separated field of `s` trims to `4`.
fn has_field_4(s: &Vec<char>) -> (r: bool)
    ensures
        r == has_feature_4(s@),
{
    let n = s.len();
    let mut start: usize = 0;
    let mut p: usize = 0;
    let mut found = false;
    while p < n
        invariant
            n == s@.len(),
            start <= p <= n,
            start == 0 || s@[start - 1] == ';',
            forall|k: int| start <= k < p ==> s@[k] != ';',
            found == exists|i: int, j: int| is_field(s@, i, j) && j < p && #[trigger] trim(s@.subrange(i, j)) == "4"@,
        decreases n - p,
    {
        if s[p] == ';' {
            let is4 = field_is_4(s, start, p);
            proof {
                lemma_field_start(s@, start as int, p as int);
            }
            found = found || is4;
            start = p + 1;
        }
        p = p + 1;
    }
    let is4 = field_is_4(s, start, n);
    proof {
        lemma_field_start(s@, start as int, n as int);
    }
    found || is4
}

proof fn lemma_field_start(s: Seq<char>, start: int, p: int)
    requires
        0 <= start <= p <= s.len(),
        start == 0 || s[start - 1] == ';',
        forall|k: int| start <= k < p ==> s[k] != ';',
        p == s.len() || s[p] == ';',
    ensures
        is_field(s, start, p),
        forall|i: int, j: int| is_field(s, i, j) && j == p ==> i == start,
{
    assert forall|i: int, j: int| is_field(s, i, j) && j == p implies i == start by {
        if i < start {
            assert(s[start - 1] == ';');
        }
        if i > start {
            assert(s[i - 1] == ';');
        }
    }
}

/// Whether `s[start..end]` trims to `4`.
fn field_is_4(s: &Vec<char>, start: usize, end: usize) -> (r: bool)
    requires
        start <= end <= s@.len(),
    ensures
        r == (trim(s@.subrange(start as int, end as int)) == "4"@),
{
    let mut field: Vec<char> = Vec::new();
    let mut k: usize = start;
    while k < end
        invariant
            start <= k <= end <= s@.len(),
            field@ == s@.subrange(start as int, k as int),
        decreases end - k,
    {
        field.push(s[k]);
        k = k + 1;
        assert(field@ =~= s@.subrange(start as int, k as int));
    }
    let t = trim_chars(&field);
    chars_eq_str(&t, "4")
}

/// Whether a graphics-protocol answer accepts the query (holds `;OK`).
pub fn parse_response_supports_kitty(response: &[u8]) -> (r: bool)
    ensures
        r == spec_supports_kitty(response@),
{
    match str_from_utf8(response) {
        Some(s) => chars_contains(&chars_of(s), &chars_of(";OK")),
        None => false,
    }
}

/// One byte read while waiting for `terminator`: returns `true` when the
/// byte is the terminator (which is consumed, not kept); otherwise keeps it.
pub fn read_until_accept(out: &mut Vec<u8>, byte: u8, terminator: u8) -> (done: bool)
    ensures
        done == (byte == terminator),
        done ==> final(out)@ == old(out)@,
        !done ==> final(out)@ == old(out)@.push(byte),
{
    if byte == terminator {
        true
    } else {
        out.push(byte);
        false
    }
}

/// What reading yields when the time runs out or the input ends before the
/// terminator: the bytes read so far, or a timeout when there are none.
pub fn read_until_result(out: Vec<u8>) -> (r: Result<Vec<u8>, ProbeError>)
    ensures
        out@.len() == 0 ==> r matches Err(ProbeError::Timeout),
        out@.len() > 0 ==> (r matches Ok(v) && v@ == out@),
{
    if out.len() == 0 {
        Err(ProbeError::Timeout)
    } else {
        Ok(out)
    }
}

/// The Sixel probe's answer from the query's outcome: read errors and
/// timeouts are passed on.
pub fn sixel_probe_outcome(response: Result<Vec<u8>, ProbeError>) -> (r: Result<bool, ProbeError>)
    ensures
        match response {
            Ok(v) => r == Ok::<bool, ProbeError>(spec_supports_sixel(v@)),
            Err(ProbeError::Timeout) => r matches Err(ProbeError::Timeout),
            Err(ProbeError::Io(_)) => r matches Err(ProbeError::Io(_)),
        },
{
    match response {
        Ok(v) => Ok(parse_response_supports_sixel(v.as_slice())),
        Err(e) => Err(e),
    }
}

/// The Kitty probe's answer from the query's outcome: a timeout is a plain
/// "not supported", other errors are passed on.
pub fn kitty_probe_outcome(response: Result<Vec<u8>, ProbeError>) -> (r: Result<bool, ProbeError>)
    ensures
        match response {
            Ok(v) => r == Ok::<bool, ProbeError>(spec_supports_kitty(v@)),
            Err(ProbeError::Timeout) => r == Ok::<bool, ProbeError>(false),
            Err(ProbeError::Io(_)) => r matches Err(ProbeError::Io(_)),
        },
{
    match response {
        Ok(v) => Ok(parse_response_supports_kitty(v.as_slice())),
        Err(ProbeError::Timeout) => Ok(false),
        Err(e) => Err(e),
    }
}

} // verus!
