//! Tests for the JSON value grammar: parsing, emission, escapes,
//! numbers, and the message accessors built on top of it.

use wafer_guest::json::{json_emit, json_parse, Json};
use wafer_guest::Message;

fn reemit(text: &str) -> String {
    json_emit(&json_parse(text).unwrap())
}

#[test]
fn parse_scalars() {
    assert_eq!(reemit("null"), "null");
    assert_eq!(reemit("true"), "true");
    assert_eq!(reemit("false"), "false");
    assert_eq!(reemit("0"), "0");
    assert_eq!(reemit("42"), "42");
    assert_eq!(reemit("-7"), "-7");
    assert_eq!(reemit("9223372036854775807"), "9223372036854775807");
}

#[test]
fn parse_structures_and_blanks() {
    assert_eq!(reemit(" [ 1 , 2 , 3 ] "), "[1,2,3]");
    assert_eq!(reemit("{ \"a\" : [ true , null ] , \"b\" : { } }"), r#"{"a":[true,null],"b":{}}"#);
    assert_eq!(reemit("[]"), "[]");
    assert_eq!(reemit("{}"), "{}");
}

#[test]
fn parse_string_escapes() {
    assert_eq!(reemit(r#""a\"b\\c\/d\n""#), "\"a\\\"b\\\\c/d\\n\"");
    assert_eq!(reemit(r#""\u0041""#), "\"A\"");
    assert_eq!(reemit(r#""\u00e9""#), "\"\u{e9}\"");
    // a surrogate pair recombines into one scalar value
    assert_eq!(reemit(r#""\ud83d\ude00""#), format!("\"{}\"", '\u{1F600}'));
}

#[test]
fn emit_escapes_control_characters() {
    let j = Json::Str("a\"b\\c\nd\te\u{1}".to_string());
    assert_eq!(json_emit(&j), "\"a\\\"b\\\\c\\nd\\te\\u0001\"");
}

#[test]
fn parse_rejects_bad_input() {
    for bad in [
        "", " ", "[1,]", "{\"a\":}", "{\"a\" 1}", "tru", "nul ll", "\"unterminated", "01",
        "1.5", "1e3", "--2", "9223372036854775808", "[1] extra", "\"\\q\"", "\"\\ud83d\"",
        "\"raw\u{1}control\"",
    ] {
        assert!(json_parse(bad).is_err(), "expected failure on {:?}", bad);
    }
}

#[test]
fn deep_nesting_round_trips() {
    let text = r#"[[[[{"k":[1,[2,[3]]]}]]]]"#;
    assert_eq!(reemit(text), text);
}

#[test]
fn message_payload_unmarshal_and_set_data() {
    let mut m = Message::new("job", Vec::new());
    m.set_data(&Json::Arr(vec![Json::Int(1), Json::Str("two".to_string())]));
    assert_eq!(m.data, br#"[1,"two"]"#.to_vec());
    let j = m.unmarshal().unwrap();
    assert_eq!(json_emit(&j), r#"[1,"two"]"#);
    let j2 = m.decode().unwrap();
    assert_eq!(json_emit(&j2), r#"[1,"two"]"#);

    let bad = Message::new("job", b"not json".to_vec());
    assert!(bad.unmarshal().is_err());
}
