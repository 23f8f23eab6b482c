use process_1bilrows::row::{parse_row, parse_units};
use process_1bilrows::stats::MAX_UNITS;

fn row(s: &str) -> Option<(String, i64)> {
    parse_row(s)
}

#[test]
fn parses_trimmed_key_and_value() {
    assert_eq!(row("A:3"), Some(("A".to_string(), 3_000_000)));
    assert_eq!(row("  New York :  -12.5 \t"), Some(("New York".to_string(), -12_500_000)));
    assert_eq!(row("x:+.5"), Some(("x".to_string(), 500_000)));
    assert_eq!(row("x:7."), Some(("x".to_string(), 7_000_000)));
    assert_eq!(row(":1"), Some(("".to_string(), 1_000_000)));
    assert_eq!(row("\u{3000}k\u{a0}:\u{2003}2"), Some(("k".to_string(), 2_000_000)));
}

#[test]
fn extra_fraction_digits_are_truncated() {
    assert_eq!(row("a:1.23456789"), Some(("a".to_string(), 1_234_567)));
    assert_eq!(row("a:-0.0000009"), Some(("a".to_string(), 0)));
}

#[test]
fn skips_malformed_rows() {
    assert_eq!(row(""), None);
    assert_eq!(row("   "), None);
    assert_eq!(row("no colon"), None);
    assert_eq!(row("k:"), None);
    assert_eq!(row("k:abc"), None);
    assert_eq!(row("k:."), None);
    assert_eq!(row("k:-"), None);
    assert_eq!(row("k:1 2"), None);
    assert_eq!(row("k:1:2"), None);
    assert_eq!(row("k:NaN"), None);
}

#[test]
fn value_range_limits() {
    assert_eq!(row("m:9223372036854.775807"), Some(("m".to_string(), MAX_UNITS)));
    assert_eq!(row("m:-9223372036854.775807"), Some(("m".to_string(), -MAX_UNITS)));
    assert_eq!(row("m:9223372036854.775808"), None);
    assert_eq!(row("m:99999999999999999999999999"), None);
}

#[test]
fn parse_units_reads_a_range() {
    let s: Vec<char> = "xx-4.25yy".chars().collect();
    assert_eq!(parse_units(&s, 2, 7), Some(-4_250_000));
    assert_eq!(parse_units(&s, 2, 8), None);
    assert_eq!(parse_units(&s, 2, 2), None);
}
