use orbitview::parse::{parse_content, parse_token};

fn val(s: &str) -> i64 {
    parse_token(&s.as_bytes().to_vec())
}

#[test]
fn plain_numbers() {
    assert_eq!(val("1"), 1_000_000);
    assert_eq!(val("-2"), -2_000_000);
    assert_eq!(val("+3"), 3_000_000);
    assert_eq!(val("0"), 0);
    assert_eq!(val("1.5"), 1_500_000);
    assert_eq!(val("-0.25"), -250_000);
    assert_eq!(val(".5"), 500_000);
    assert_eq!(val("1."), 1_000_000);
}

#[test]
fn exponents() {
    assert_eq!(val("1e3"), 1_000_000_000);
    assert_eq!(val("1E3"), 1_000_000_000);
    assert_eq!(val("2.5e2"), 250_000_000);
    assert_eq!(val("1e-3"), 1_000);
    assert_eq!(val("-4.5e+1"), -45_000_000);
    assert_eq!(val("1e-7"), 0);
}

#[test]
fn malformed_tokens_count_as_zero() {
    assert_eq!(val(""), 0);
    assert_eq!(val("foo"), 0);
    assert_eq!(val("+"), 0);
    assert_eq!(val("-"), 0);
    assert_eq!(val("."), 0);
    assert_eq!(val("1e"), 0);
    assert_eq!(val("1e+"), 0);
    assert_eq!(val("1x2"), 0);
    assert_eq!(val("--1"), 0);
    assert_eq!(val("1.2.3"), 0);
    // Non-finite float spellings are not numbers to this format.
    assert_eq!(val("inf"), 0);
    assert_eq!(val("NaN"), 0);
}

#[test]
fn truncation_toward_zero() {
    assert_eq!(val("0.0000009"), 0);
    assert_eq!(val("-0.0000009"), 0);
    assert_eq!(val("1.0000019"), 1_000_001);
}

#[test]
fn saturation_at_carrying_range() {
    assert_eq!(val("9999999999999999999999"), 1_000_000_000_000_000_000);
    assert_eq!(val("1e30"), 1_000_000_000_000_000_000);
    assert_eq!(val("-1e30"), -1_000_000_000_000_000_000);
    assert_eq!(val("1e-9999999999999999999999"), 0);
    // 38 mantissa digits still parse; a 39th is past this parser's
    // precision and the token is read as no number at all.
    assert_eq!(val("99999999999999999999999999999999999999"), 1_000_000_000_000_000_000);
    assert_eq!(val("999999999999999999999999999999999999999"), 0);
}

#[test]
fn content_splits_lines_and_triples() {
    let data = b"1 2 3\n4 5 6 7 8 9\n".to_vec();
    let snaps = parse_content(&data);
    assert_eq!(snaps.len(), 2);
    assert_eq!(snaps[0].len(), 1);
    assert_eq!(snaps[1].len(), 2);
    assert_eq!(snaps[0][0].x, 1_000_000);
    assert_eq!(snaps[1][1].z, 9_000_000);
}

#[test]
fn dangling_values_are_dropped() {
    let data = b"1 2 3 4 5\n".to_vec();
    let snaps = parse_content(&data);
    assert_eq!(snaps.len(), 1);
    assert_eq!(snaps[0].len(), 1);
    assert_eq!((snaps[0][0].x, snaps[0][0].y, snaps[0][0].z), (1_000_000, 2_000_000, 3_000_000));
}

#[test]
fn malformed_token_tolerance() {
    let data = b"1 foo 3\n".to_vec();
    let snaps = parse_content(&data);
    assert_eq!(snaps.len(), 1);
    assert_eq!(snaps[0].len(), 1);
    assert_eq!((snaps[0][0].x, snaps[0][0].y, snaps[0][0].z), (1_000_000, 0, 3_000_000));
}

#[test]
fn empty_and_blank_content() {
    assert_eq!(parse_content(&Vec::new()).len(), 0);
    let blank = b"\n\n".to_vec();
    let snaps = parse_content(&blank);
    assert_eq!(snaps.len(), 2);
    assert_eq!(snaps[0].len(), 0);
    assert_eq!(snaps[1].len(), 0);
}

#[test]
fn carriage_returns_and_tabs_separate_tokens() {
    let data = b"1\t2 3\r\n4 5 6\n".to_vec();
    let snaps = parse_content(&data);
    assert_eq!(snaps.len(), 2);
    assert_eq!(snaps[0].len(), 1);
    assert_eq!(snaps[1].len(), 1);
    assert_eq!(snaps[0][0].y, 2_000_000);
}
