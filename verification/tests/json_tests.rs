//! The JSON printer and parser, cross-checked against another JSON reader.

use dgg_chat::json::JsonValue;
use dgg_chat::json_parse::parse_text;
use dgg_chat::json_print::to_text;

fn sample() -> JsonValue {
    JsonValue::Obj(vec![
        ("title".to_string(), JsonValue::Str("a \"quoted\"\nline\t\\".to_string())),
        ("count".to_string(), JsonValue::Num("31".to_string())),
        ("share".to_string(), JsonValue::Num("-0.25e2".to_string())),
        ("ok".to_string(), JsonValue::Bool(true)),
        ("gap".to_string(), JsonValue::Null),
        (
            "items".to_string(),
            JsonValue::Arr(vec![
                JsonValue::Num("1".to_string()),
                JsonValue::Str("two".to_string()),
                JsonValue::Obj(vec![("deep".to_string(), JsonValue::Bool(false))]),
            ]),
        ),
    ])
}

#[test]
fn print_then_parse_is_identity() {
    let v = sample();
    let text = to_text(&v);
    let back = parse_text(&text).unwrap();
    assert_eq!(back, v);
}

#[test]
fn printed_text_is_plain_json() {
    let text = to_text(&sample());
    let outside: serde_json::Value = serde_json::from_str(&text).unwrap();
    let expected: serde_json::Value = serde_json::from_str(
        "{\"title\":\"a \\\"quoted\\\"\\nline\\t\\\\\",\"count\":31,\"share\":-0.25e2,\
         \"ok\":true,\"gap\":null,\"items\":[1,\"two\",{\"deep\":false}]}",
    )
    .unwrap();
    assert_eq!(outside, expected);
}

#[test]
fn parse_accepts_whitespace_and_escapes() {
    let v = parse_text(" { \"a\" : [ 1 , \"x\\u0041\\n\" ] } ").unwrap();
    let expected = JsonValue::Obj(vec![(
        "a".to_string(),
        JsonValue::Arr(vec![
            JsonValue::Num("1".to_string()),
            JsonValue::Str("xA\n".to_string()),
        ]),
    )]);
    assert_eq!(v, expected);
}

#[test]
fn parse_accepts_surrogate_pairs() {
    let v = parse_text("\"\\uD83D\\uDE00\"").unwrap();
    assert_eq!(v, JsonValue::Str("\u{1F600}".to_string()));
}

#[test]
fn parse_rejects_malformed_documents() {
    assert!(parse_text("").is_none());
    assert!(parse_text("{").is_none());
    assert!(parse_text("{\"a\":1,}").is_none());
    assert!(parse_text("[1 2]").is_none());
    assert!(parse_text("\"unterminated").is_none());
    assert!(parse_text("01").is_none());
    assert!(parse_text("{\"a\":1,\"a\":2}").is_none());
    assert!(parse_text("nulls").is_none());
}

#[test]
fn structural_equality_ignores_nothing() {
    let a = parse_text("{\"a\":1,\"b\":2}").unwrap();
    let b = parse_text("{\"b\":2,\"a\":1}").unwrap();
    // Field order is part of the held document; equality is structural.
    assert_ne!(a, b);
}
