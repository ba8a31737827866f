//! Tests for the small text utilities.

use wafer_guest::text::{
    parse_usize, split_string, str_concat, str_eq, str_starts_with, trim_chars, u64_to_string,
};

#[test]
fn decimal_formatting() {
    assert_eq!(u64_to_string(0), "0");
    assert_eq!(u64_to_string(7), "7");
    assert_eq!(u64_to_string(1234567890), "1234567890");
    assert_eq!(u64_to_string(u64::MAX), "18446744073709551615");
}

#[test]
fn decimal_parsing() {
    assert_eq!(parse_usize("0"), Some(0));
    assert_eq!(parse_usize("42"), Some(42));
    assert_eq!(parse_usize("+42"), Some(42));
    assert_eq!(parse_usize(""), None);
    assert_eq!(parse_usize("+"), None);
    assert_eq!(parse_usize("4x2"), None);
    assert_eq!(parse_usize("-3"), None);
    assert_eq!(parse_usize("99999999999999999999999999"), None);
}

#[test]
fn splitting() {
    let segs = split_string("a,b,,c", ',');
    assert_eq!(segs, vec!["a", "b", "", "c"]);
    assert_eq!(split_string("", ','), vec![""]);
    assert_eq!(split_string("x", ','), vec!["x"]);
}

#[test]
fn trimming() {
    let chars: Vec<char> = "  hi there\t\n".chars().collect();
    let trimmed: String = trim_chars(&chars).into_iter().collect();
    assert_eq!(trimmed, "hi there");
    let blank: Vec<char> = "   ".chars().collect();
    assert!(trim_chars(&blank).is_empty());
}

#[test]
fn string_comparisons() {
    assert!(str_eq("same", "same"));
    assert!(!str_eq("same", "sam"));
    assert!(!str_eq("same", "samx"));
    assert!(str_starts_with("prefix.rest", "prefix."));
    assert!(!str_starts_with("pre", "prefix."));
    assert_eq!(str_concat("ab", "cd"), "abcd");
}
