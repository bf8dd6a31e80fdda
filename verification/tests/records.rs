use brochat::json::parse_json_text;
use brochat::records::{character_version_of, extensions_from_text, parse_string_array, string_array_text};

#[test]
fn string_lists_round_trip_through_text() {
    let v = vec!["a\"b".to_string(), "中文".to_string(), String::new()];
    let text = string_array_text(&v);
    assert_eq!(text, r#"["a\"b","中文",""]"#);
    assert_eq!(parse_string_array(&text), v);
    assert_eq!(string_array_text(&vec![]), "[]");
}

#[test]
fn bad_string_lists_read_as_empty() {
    assert!(parse_string_array("not json").is_empty());
    assert!(parse_string_array(r#"{"a":1}"#).is_empty());
    assert!(parse_string_array(r#"["a",1]"#).is_empty());
    assert_eq!(parse_string_array(r#" ["x"] "#), vec!["x"]);
}

#[test]
fn version_from_extensions() {
    let t = r#"{"_v2_extra":{"character_version":"1.2"}}"#;
    assert_eq!(character_version_of(Some(t)).as_deref(), Some("1.2"));
    assert!(character_version_of(Some(r#"{"_v2_extra":{"character_version":3}}"#)).is_none());
    assert!(character_version_of(Some("{")).is_none());
    assert!(character_version_of(None).is_none());
}

#[test]
fn extensions_text_parses_or_drops() {
    assert_eq!(extensions_from_text(Some(r#"{"k":[1]}"#)), Some(parse_json_text(r#"{"k":[1]}"#).unwrap()));
    assert!(extensions_from_text(Some("{oops")).is_none());
    assert!(extensions_from_text(None).is_none());
}

#[test]
fn json_reads_back_only_within_the_depth_limit() {
    let nested = |n: usize| format!("{}{}", "[".repeat(n), "]".repeat(n));
    let ok = parse_json_text(&nested(127)).unwrap();
    assert_eq!(parse_json_text(&brochat::json::to_compact_string(&ok)).unwrap(), ok);
    assert!(parse_json_text(&nested(128)).is_err());
    assert!(parse_json_text(&nested(200)).is_err());
}

#[test]
fn large_unsigned_integers_read_back() {
    let v = parse_json_text(r#"{"big":18446744073709551615,"neg":-9223372036854775808}"#).unwrap();
    let text = brochat::json::to_compact_string(&v);
    assert_eq!(text, r#"{"big":18446744073709551615,"neg":-9223372036854775808}"#);
    assert_eq!(parse_json_text(&text).unwrap(), v);
}
