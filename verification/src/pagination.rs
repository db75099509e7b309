//! A pagination window extracted from string query parameters.
//!
//! A request such as `/contacts?start=1&end=10` arrives as string key/value
//! pairs. `extract_pagination` reads the `start` and `end` parameters,
//! parses each as a non-negative integer, validates `start` against the
//! number of items available, clamps `end` to that number, and returns a
//! [`Pagination`] window or a [`PaginationError`].

use vstd::prelude::*;

verus! {

/// The window of a result set that a caller should return.
#[derive(Debug, Clone, Copy, PartialEq, Eq, Structural)]
pub struct Pagination {
    /// The index of the first item that has to be returned.
    pub start: usize,
    /// The index of the last item that has to be returned.
    pub end: usize,
}

/// Why a pagination window could not be extracted.
#[derive(Debug, Clone, Copy, PartialEq, Eq, Structural)]
pub enum PaginationError {
    /// The `start` or the `end` parameter (or both) is absent.
    MissingParameters,
    /// A parameter is present but is not a non-negative integer, or its
    /// value does not fit in `usize`.
    ParseError,
    /// The parsed `start` exceeds the number of items available. The name
    /// says nothing about `end`: this error fires on `start` alone.
    StartGreaterThanEnd,
}

/// Whether `c` is a decimal digit.
pub open spec fn is_digit(c: char) -> bool {
    '0' as int <= c as int && c as int <= '9' as int
}

/// The value of the decimal digit `c`; 0 for any other character.
pub open spec fn digit_val(c: char) -> nat {
    if is_digit(c) {
        (c as int - '0' as int) as nat
    } else {
        0
    }
}

/// The value of `s` read as a string of decimal digits, most significant
/// first.
pub open spec fn dec_val(s: Seq<char>) -> nat
    decreases s.len(),
{
    if s.len() == 0 {
        0
    } else {
        dec_val(s.drop_last()) * 10 + digit_val(s.last())
    }
}

/// The digits of a number literal: `s` without its leading `+` sign, if any.
pub open spec fn digits_of(s: Seq<char>) -> Seq<char> {
    if s.len() > 0 && s[0] == '+' {
        s.drop_first()
    } else {
        s
    }
}

/// Whether every character of `s` is a decimal digit.
pub open spec fn all_digits(s: Seq<char>) -> bool {
    forall|i: int| 0 <= i < s.len() ==> is_digit(#[trigger] s[i])
}

/// What parsing `s` as a non-negative integer returns: the value of its
/// digits (after an optional leading `+`) when there is at least one, all
/// are decimal digits, and the value fits in `usize`; nothing otherwise.
pub open spec fn spec_parse_usize(s: Seq<char>) -> Option<usize> {
    let ds = digits_of(s);
    if ds.len() > 0 && all_digits(ds) && dec_val(ds) <= usize::MAX {
        Some(dec_val(ds) as usize)
    } else {
        None
    }
}

/// The value under `key` in a sequence of key/value pairs: the value of the
/// first pair whose key matches, if any.
pub open spec fn lookup(pairs: Seq<(String, String)>, key: Seq<char>) -> Option<Seq<char>>
    decreases pairs.len(),
{
    if pairs.len() == 0 {
        None
    } else if pairs[0].0@ == key {
        Some(pairs[0].1@)
    } else {
        lookup(pairs.drop_first(), key)
    }
}

/// The value of a digit string never shrinks as the string grows to the
/// right: every prefix of `s` reads as at most `dec_val(s)`.
proof fn lemma_dec_val_prefix(s: Seq<char>, i: int)
    requires
        0 <= i <= s.len(),
    ensures
        dec_val(s.subrange(0, i)) <= dec_val(s),
    decreases s.len(),
{
    if i == s.len() {
        assert(s.subrange(0, i) =~= s);
    } else {
        let t = s.drop_last();
        lemma_dec_val_prefix(t, i);
        assert(t.subrange(0, i) =~= s.subrange(0, i));
    }
}

/// Reading one more digit multiplies the value so far by ten and adds the
/// digit.
proof fn lemma_dec_val_step(s: Seq<char>, lo: int, i: int)
    requires
        0 <= lo <= i < s.len(),
    ensures
        dec_val(s.subrange(lo, i + 1)) == dec_val(s.subrange(lo, i)) * 10 + digit_val(s[i]),
{
    assert(s.subrange(lo, i + 1).drop_last() =~= s.subrange(lo, i));
}

/// Whether the character sequences `a` and `b` are equal.
fn str_eq(a: &str, b: &str) -> (r: bool)
    ensures
        r == (a@ == b@),
{
    let a_len = a.unicode_len();
    let b_len = b.unicode_len();
    if a_len != b_len {
        return false;
    }
    let mut i: usize = 0;
    while i < a_len
        invariant
            a_len == a@.len(),
            b_len == b@.len(),
            a_len == b_len,
            0 <= i <= a_len,
            forall|j: int| 0 <= j < i ==> a@[j] == b@[j],
        decreases a_len - i,
    {
        if a.get_char(i) != b.get_char(i) {
            return false;
        }
        i = i + 1;
    }
    proof {
        assert(a@ =~= b@);
    }
    true
}

/// Parses `s` as a non-negative integer: an optional leading `+` followed
/// by one or more decimal digits, whose value fits in `usize`.
fn parse_usize(s: &str) -> (r: Option<usize>)
    ensures
        r == spec_parse_usize(s@),
{
    let len = s.unicode_len();
    let offset: usize = if len > 0 && s.get_char(0) == '+' {
        1
    } else {
        0
    };
    proof {
        assert(digits_of(s@) =~= s@.subrange(offset as int, len as int));
    }
    if len == offset {
        return None;
    }
    let mut i: usize = offset;
    let mut acc: usize = 0;
    while i < len
        invariant
            len == s@.len(),
            offset <= i <= len,
            digits_of(s@) =~= s@.subrange(offset as int, len as int),
            forall|j: int| offset <= j < i ==> is_digit(#[trigger] s@[j]),
            acc == dec_val(s@.subrange(offset as int, i as int)),
        decreases len - i,
    {
        let c = s.get_char(i);
        let code = c as u32;
        if code < 48 || code > 57 {
            proof {
                let ds = digits_of(s@);
                assert(ds[i - offset] == s@[i as int]);
                assert(!all_digits(ds));
            }
            return None;
        }
        let d = (code - 48) as usize;
        proof {
            lemma_dec_val_step(s@, offset as int, i as int);
            assert(digit_val(s@[i as int]) == d);
        }
        let shifted = match acc.checked_mul(10) {
            Some(v) => v,
            None => {
                proof {
                    lemma_parse_overflow(s@, offset as int, i as int, acc * 10 + d);
                }
                return None;
            },
        };
        acc = match shifted.checked_add(d) {
            Some(v) => v,
            None => {
                proof {
                    lemma_parse_overflow(s@, offset as int, i as int, acc * 10 + d);
                }
                return None;
            },
        };
        i = i + 1;
    }
    proof {
        let ds = digits_of(s@);
        assert(forall|j: int| 0 <= j < ds.len() ==> ds[j] == s@[j + offset]);
        assert(all_digits(ds));
    }
    Some(acc)
}

/// A value too large for `usize` at some digit makes the whole literal
/// unparseable: the value of the digits read so far only grows from there.
proof fn lemma_parse_overflow(s: Seq<char>, offset: int, i: int, next: int)
    requires
        0 <= offset <= i < s.len(),
        digits_of(s) =~= s.subrange(offset, s.len() as int),
        next == dec_val(s.subrange(offset, i)) * 10 + digit_val(s[i]),
        next > usize::MAX,
    ensures
        spec_parse_usize(s) is None,
{
    let ds = digits_of(s);
    lemma_dec_val_step(s, offset, i);
    assert(s.subrange(offset, i + 1) =~= ds.subrange(0, i + 1 - offset));
    lemma_dec_val_prefix(ds, i + 1 - offset);
}

/// The value of the first pair in `params` whose key is `key`, if any.
fn find_param<'a>(params: &'a Vec<(String, String)>, key: &str) -> (r: Option<&'a String>)
    ensures
        match r {
            Some(v) => lookup(params@, key@) == Some(v@),
            None => lookup(params@, key@) is None,
        },
{
    let mut i: usize = 0;
    proof {
        assert(params@.skip(0) =~= params@);
    }
    while i < params.len()
        invariant
            0 <= i <= params@.len(),
            lookup(params@, key@) == lookup(params@.skip(i as int), key@),
        decreases params@.len() - i,
    {
        let pair = &params[i];
        proof {
            assert(params@.skip(i as int)[0] == params@[i as int]);
        }
        if str_eq(pair.0.as_str(), key) {
            return Some(&pair.1);
        }
        proof {
            assert(params@.skip(i as int).drop_first() =~= params@.skip(i as int + 1));
        }
        i = i + 1;
    }
    None
}

/// What extraction returns for the pairs `params` and `response_length`
/// items available: `MissingParameters` when the `start` or the `end` key
/// is absent; otherwise `ParseError` when either value is not a
/// non-negative integer that fits in `usize`; otherwise
/// `StartGreaterThanEnd` when `start` exceeds `response_length`; otherwise
/// the window, with `end` clamped to `response_length`.
pub open spec fn spec_extract(pairs: Seq<(String, String)>, response_length: usize) -> Result<
    Pagination,
    PaginationError,
> {
    match (lookup(pairs, "start"@), lookup(pairs, "end"@)) {
        (Some(sv), Some(ev)) => match spec_parse_usize(sv) {
            None => Err(PaginationError::ParseError),
            Some(start) => match spec_parse_usize(ev) {
                None => Err(PaginationError::ParseError),
                Some(end) => if start > response_length {
                    Err(PaginationError::StartGreaterThanEnd)
                } else if end > response_length {
                    Ok(Pagination { start, end: response_length })
                } else {
                    Ok(Pagination { start, end })
                },
            },
        },
        _ => Err(PaginationError::MissingParameters),
    }
}

/// Extracts the pagination window from the query parameters of a request
/// such as `/contacts?start=1&end=10`, given as key/value pairs. Keys other
/// than `start` and `end` are ignored; of pairs with an equal key the first
/// counts. `response_length` is the number of items the caller can return.
pub fn extract_pagination(params: Vec<(String, String)>, response_length: usize) -> (r: Result<
    Pagination,
    PaginationError,
>)
    ensures
        r == spec_extract(params@, response_length),
{
    let start_val = find_param(&params, "start");
    let end_val = find_param(&params, "end");
    match (start_val, end_val) {
        (Some(sv), Some(ev)) => match parse_usize(sv.as_str()) {
            None => Err(PaginationError::ParseError),
            Some(start) => match parse_usize(ev.as_str()) {
                None => Err(PaginationError::ParseError),
                Some(end) => if start > response_length {
                    Err(PaginationError::StartGreaterThanEnd)
                } else if end > response_length {
                    Ok(Pagination { start, end: response_length })
                } else {
                    Ok(Pagination { start, end })
                },
            },
        },
        _ => Err(PaginationError::MissingParameters),
    }
}

/// For every numeric `start` at most `response_length` and every numeric
/// `end`, extraction succeeds, returns `start` unchanged, and returns the
/// smaller of `end` and `response_length`.
pub proof fn lemma_extract_success(
    params: Seq<(String, String)>,
    response_length: usize,
    sv: Seq<char>,
    ev: Seq<char>,
    start: usize,
    end: usize,
)
    requires
        lookup(params, "start"@) == Some(sv),
        lookup(params, "end"@) == Some(ev),
        spec_parse_usize(sv) == Some(start),
        spec_parse_usize(ev) == Some(end),
        start <= response_length,
    ensures
        spec_extract(params, response_length) == Ok::<Pagination, PaginationError>(
            Pagination {
                start,
                end: if end > response_length {
                    response_length
                } else {
                    end
                },
            },
        ),
{
}

/// When the `start` or the `end` key (or both) is absent, extraction fails
/// with `MissingParameters`, whatever the other key holds.
pub proof fn lemma_extract_missing(params: Seq<(String, String)>, response_length: usize)
    requires
        lookup(params, "start"@) is None || lookup(params, "end"@) is None,
    ensures
        spec_extract(params, response_length) == Err::<Pagination, PaginationError>(
            PaginationError::MissingParameters,
        ),
{
}

/// When both keys are present but the `start` or the `end` value is not a
/// non-negative integer that fits in `usize`, extraction fails with
/// `ParseError`.
pub proof fn lemma_extract_parse_error(
    params: Seq<(String, String)>,
    response_length: usize,
    sv: Seq<char>,
    ev: Seq<char>,
)
    requires
        lookup(params, "start"@) == Some(sv),
        lookup(params, "end"@) == Some(ev),
        spec_parse_usize(sv) is None || spec_parse_usize(ev) is None,
    ensures
        spec_extract(params, response_length) == Err::<Pagination, PaginationError>(
            PaginationError::ParseError,
        ),
{
}

/// A value with a character that is not a decimal digit (past the optional
/// leading `+`) does not parse.
pub proof fn lemma_non_numeric_rejected(s: Seq<char>, i: int)
    requires
        0 <= i < digits_of(s).len(),
        !is_digit(digits_of(s)[i]),
    ensures
        spec_parse_usize(s) is None,
{
}

/// When both values are numeric but `start` exceeds `response_length`,
/// extraction fails with `StartGreaterThanEnd`, whatever `end` holds.
pub proof fn lemma_extract_start_out_of_range(
    params: Seq<(String, String)>,
    response_length: usize,
    sv: Seq<char>,
    ev: Seq<char>,
    start: usize,
    end: usize,
)
    requires
        lookup(params, "start"@) == Some(sv),
        lookup(params, "end"@) == Some(ev),
        spec_parse_usize(sv) == Some(start),
        spec_parse_usize(ev) == Some(end),
        start > response_length,
    ensures
        spec_extract(params, response_length) == Err::<Pagination, PaginationError>(
            PaginationError::StartGreaterThanEnd,
        ),
{
}

/// When `start` is numeric and within range and `end` is numeric but
/// exceeds `response_length`, extraction succeeds with `end` clamped to
/// exactly `response_length`.
pub proof fn lemma_extract_end_clamped(
    params: Seq<(String, String)>,
    response_length: usize,
    sv: Seq<char>,
    ev: Seq<char>,
    start: usize,
    end: usize,
)
    requires
        lookup(params, "start"@) == Some(sv),
        lookup(params, "end"@) == Some(ev),
        spec_parse_usize(sv) == Some(start),
        spec_parse_usize(ev) == Some(end),
        start <= response_length,
        end > response_length,
    ensures
        spec_extract(params, response_length) == Ok::<Pagination, PaginationError>(
            Pagination { start, end: response_length },
        ),
{
}

/// Extraction is deterministic: every call on `params` and
/// `response_length` returns `spec_extract(params, response_length)`, so
/// two calls with identical inputs return results identical by value.
pub proof fn lemma_extract_idempotent(
    params: Seq<(String, String)>,
    response_length: usize,
    r1: Result<Pagination, PaginationError>,
    r2: Result<Pagination, PaginationError>,
)
    requires
        r1 == spec_extract(params, response_length),
        r2 == spec_extract(params, response_length),
    ensures
        r1 == r2,
{
}

} // verus!
