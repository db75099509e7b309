use contacts::pagination::{extract_pagination, Pagination, PaginationError};

fn params(pairs: &[(&str, &str)]) -> Vec<(String, String)> {
    let mut v: Vec<(String, String)> = Vec::new();
    for (k, val) in pairs {
        v.push((String::from(*k), String::from(*val)));
    }
    v
}

#[test]
fn window_within_range() {
    let r = extract_pagination(params(&[("start", "1"), ("end", "10")]), 10);
    assert_eq!(r, Ok(Pagination { start: 1, end: 10 }));
}

#[test]
fn end_clamped_to_length() {
    let r = extract_pagination(params(&[("start", "1"), ("end", "10")]), 5);
    assert_eq!(r, Ok(Pagination { start: 1, end: 5 }));
}

#[test]
fn start_past_length_rejected() {
    let r = extract_pagination(params(&[("start", "6"), ("end", "10")]), 5);
    assert_eq!(r, Err(PaginationError::StartGreaterThanEnd));
}

#[test]
fn non_numeric_start_rejected() {
    let r = extract_pagination(params(&[("start", "abc"), ("end", "10")]), 10);
    assert_eq!(r, Err(PaginationError::ParseError));
}

#[test]
fn non_numeric_end_rejected() {
    let r = extract_pagination(params(&[("start", "1"), ("end", "ten")]), 10);
    assert_eq!(r, Err(PaginationError::ParseError));
}

#[test]
fn negative_value_rejected() {
    let r = extract_pagination(params(&[("start", "-1"), ("end", "10")]), 10);
    assert_eq!(r, Err(PaginationError::ParseError));
}

#[test]
fn empty_value_rejected() {
    let r = extract_pagination(params(&[("start", ""), ("end", "10")]), 10);
    assert_eq!(r, Err(PaginationError::ParseError));
}

#[test]
fn whitespace_rejected() {
    let r = extract_pagination(params(&[("start", " 1"), ("end", "10")]), 10);
    assert_eq!(r, Err(PaginationError::ParseError));
}

#[test]
fn non_ascii_value_rejected() {
    let r = extract_pagination(params(&[("start", "1\u{e4}"), ("end", "10")]), 10);
    assert_eq!(r, Err(PaginationError::ParseError));
}

#[test]
fn plus_sign_accepted() {
    let r = extract_pagination(params(&[("start", "+2"), ("end", "+4")]), 10);
    assert_eq!(r, Ok(Pagination { start: 2, end: 4 }));
}

#[test]
fn plus_sign_alone_rejected() {
    let r = extract_pagination(params(&[("start", "+"), ("end", "10")]), 10);
    assert_eq!(r, Err(PaginationError::ParseError));
}

#[test]
fn leading_zeros_accepted() {
    let r = extract_pagination(params(&[("start", "007"), ("end", "0009")]), 20);
    assert_eq!(r, Ok(Pagination { start: 7, end: 9 }));
}

#[test]
fn overflow_rejected() {
    let big = "99999999999999999999999999";
    let r = extract_pagination(params(&[("start", big), ("end", "10")]), 10);
    assert_eq!(r, Err(PaginationError::ParseError));
}

#[test]
fn missing_start_rejected() {
    let r = extract_pagination(params(&[("end", "10")]), 10);
    assert_eq!(r, Err(PaginationError::MissingParameters));
}

#[test]
fn missing_end_rejected() {
    let r = extract_pagination(params(&[("start", "1")]), 10);
    assert_eq!(r, Err(PaginationError::MissingParameters));
}

#[test]
fn both_missing_rejected() {
    let r = extract_pagination(params(&[]), 10);
    assert_eq!(r, Err(PaginationError::MissingParameters));
}

#[test]
fn missing_key_wins_over_bad_value() {
    let r = extract_pagination(params(&[("end", "abc")]), 10);
    assert_eq!(r, Err(PaginationError::MissingParameters));
}

#[test]
fn start_equal_to_length_allowed() {
    let r = extract_pagination(params(&[("start", "5"), ("end", "5")]), 5);
    assert_eq!(r, Ok(Pagination { start: 5, end: 5 }));
}

#[test]
fn zero_length_response_clamps_end() {
    let r = extract_pagination(params(&[("start", "0"), ("end", "100")]), 0);
    assert_eq!(r, Ok(Pagination { start: 0, end: 0 }));
}

#[test]
fn end_before_start_is_representable() {
    let r = extract_pagination(params(&[("start", "8"), ("end", "2")]), 10);
    assert_eq!(r, Ok(Pagination { start: 8, end: 2 }));
}

#[test]
fn first_of_duplicate_keys_wins() {
    let r = extract_pagination(
        params(&[("start", "1"), ("start", "9"), ("end", "3")]),
        10,
    );
    assert_eq!(r, Ok(Pagination { start: 1, end: 3 }));
}

#[test]
fn unrelated_keys_ignored() {
    let r = extract_pagination(
        params(&[("order", "desc"), ("start", "2"), ("end", "3"), ("q", "x")]),
        10,
    );
    assert_eq!(r, Ok(Pagination { start: 2, end: 3 }));
}

#[test]
fn extraction_idempotent() {
    let pairs = [("start", "3"), ("end", "7")];
    let first = extract_pagination(params(&pairs), 8);
    let second = extract_pagination(params(&pairs), 8);
    assert_eq!(first, second);
    assert_eq!(first, Ok(Pagination { start: 3, end: 7 }));
}
