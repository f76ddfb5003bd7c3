use jsonpp5::{allow_oneline, doc_size, prettify, render, value, Doc, JsonValue};

fn num(n: &str) -> JsonValue {
    JsonValue::Number(n.to_string())
}

fn st(s: &str) -> JsonValue {
    JsonValue::Str(s.to_string())
}

fn arr(xs: Vec<JsonValue>) -> JsonValue {
    JsonValue::Array(xs)
}

fn obj(ms: Vec<(&str, JsonValue)>) -> JsonValue {
    JsonValue::Object(ms.into_iter().map(|(k, v)| (k.to_string(), v)).collect())
}

fn fmt(v: &JsonValue) -> String {
    prettify(v, 2, 80).unwrap()
}

/// The library's value tree for a `serde_json::Value`.
fn from_json(v: &serde_json::Value) -> JsonValue {
    match v {
        serde_json::Value::Null => JsonValue::Null,
        serde_json::Value::Bool(b) => JsonValue::Bool(*b),
        serde_json::Value::Number(n) => JsonValue::Number(n.to_string()),
        serde_json::Value::String(s) => JsonValue::Str(s.clone()),
        serde_json::Value::Array(xs) => JsonValue::Array(xs.iter().map(from_json).collect()),
        serde_json::Value::Object(m) => {
            JsonValue::Object(m.iter().map(|(k, v)| (k.clone(), from_json(v))).collect())
        }
    }
}

#[test]
fn object_with_short_array() {
    let v = obj(vec![("a", num("1")), ("b", arr(vec![num("1"), num("2"), num("3")]))]);
    assert_eq!(fmt(&v), "{\n  \"a\": 1,\n  \"b\": [1, 2, 3]\n}");
}

#[test]
fn array_holding_object_breaks() {
    let v = obj(vec![("a", arr(vec![obj(vec![("x", num("1"))])]))]);
    assert_eq!(fmt(&v), "{\n  \"a\": [\n    {\n      \"x\": 1\n    }\n  ]\n}");
}

#[test]
fn empty_array() {
    assert_eq!(fmt(&arr(vec![])), "[]");
}

#[test]
fn empty_object() {
    assert_eq!(fmt(&obj(vec![])), "{}");
}

#[test]
fn empty_containers_any_width() {
    assert_eq!(prettify(&arr(vec![]), 4, 1).unwrap(), "[]");
    assert_eq!(prettify(&obj(vec![]), 0, 1).unwrap(), "{}");
}

#[test]
fn long_member_stays_whole() {
    let long = "a_value_whose_line_exceeds_eighty_characters_when_combined_with_its_key_text";
    let v = obj(vec![("long", st(long))]);
    assert_eq!(fmt(&v), format!("{{\n  \"long\": \"{}\"\n}}", long));
}

#[test]
fn scalars() {
    assert_eq!(fmt(&JsonValue::Null), "null");
    assert_eq!(fmt(&JsonValue::Bool(true)), "true");
    assert_eq!(fmt(&JsonValue::Bool(false)), "false");
    assert_eq!(fmt(&num("-1.5e3")), "-1.5e3");
}

#[test]
fn strings_are_escaped() {
    assert_eq!(fmt(&st("a\"b\\c\nd")), "\"a\\\"b\\\\c\\nd\"");
    let v = obj(vec![("k\"ey", num("1"))]);
    assert_eq!(fmt(&v), "{\n  \"k\\\"ey\": 1\n}");
}

#[test]
fn eligible_array_at_top_level_is_flat() {
    let v = arr(vec![num("1"), arr(vec![num("2"), num("3")]), obj(vec![]), arr(vec![])]);
    assert_eq!(fmt(&v), "[1, [2, 3], {}, []]");
}

#[test]
fn eligible_array_ignores_width() {
    let v = arr(vec![num("100"), num("200"), num("300")]);
    assert_eq!(prettify(&v, 2, 5).unwrap(), "[100, 200, 300]");
}

#[test]
fn ineligible_array_one_element_per_line() {
    let v = arr(vec![num("1"), obj(vec![("a", JsonValue::Null)]), arr(vec![num("2")])]);
    assert_eq!(fmt(&v), "[\n  1,\n  {\n    \"a\": null\n  },\n  [2]\n]");
}

#[test]
fn nested_ineligible_array() {
    let v = arr(vec![arr(vec![obj(vec![("a", num("1"))])])]);
    assert_eq!(fmt(&v), "[\n  [\n    {\n      \"a\": 1\n    }\n  ]\n]");
}

#[test]
fn indent_of_four() {
    let v = obj(vec![("a", obj(vec![("b", JsonValue::Null)]))]);
    assert_eq!(prettify(&v, 4, 80).unwrap(), "{\n    \"a\": {\n        \"b\": null\n    }\n}");
}

#[test]
fn indent_of_zero() {
    let v = obj(vec![("a", num("1")), ("b", num("2"))]);
    assert_eq!(prettify(&v, 0, 80).unwrap(), "{\n\"a\": 1,\n\"b\": 2\n}");
}

#[test]
fn collapse_eligibility() {
    assert!(allow_oneline(&num("1")));
    assert!(allow_oneline(&obj(vec![])));
    assert!(!allow_oneline(&obj(vec![("a", num("1"))])));
    assert!(allow_oneline(&arr(vec![arr(vec![num("1")]), obj(vec![])])));
    assert!(!allow_oneline(&arr(vec![arr(vec![obj(vec![("a", num("1"))])])])));
}

#[test]
fn formatting_is_deterministic() {
    let v = obj(vec![("a", arr(vec![num("1"), st("x")])), ("b", obj(vec![("c", JsonValue::Null)]))]);
    assert_eq!(fmt(&v), fmt(&v));
}

#[test]
fn round_trip_through_a_json_parser() {
    let src = r#"{"a":1,"b":[1,2,[3,{}]],"c":{"d":"e\"f","g":[{"h":null}]},"i":true}"#;
    let parsed: serde_json::Value = serde_json::from_str(src).unwrap();
    let text = fmt(&from_json(&parsed));
    let again: serde_json::Value = serde_json::from_str(&text).unwrap();
    assert_eq!(parsed, again);
}

#[test]
fn reformatting_is_idempotent() {
    let src = r#"{"a":1,"b":[1,2,[3,{}]],"c":{"d":"e","g":[{"h":null}]}}"#;
    let parsed: serde_json::Value = serde_json::from_str(src).unwrap();
    let once = fmt(&from_json(&parsed));
    let reparsed: serde_json::Value = serde_json::from_str(&once).unwrap();
    let twice = fmt(&from_json(&reparsed));
    assert_eq!(once, twice);
}

#[test]
fn group_breaks_when_too_wide() {
    let d = Doc::group(Doc::concat(
        Doc::text("abc".to_string()),
        Doc::nest(2, Doc::concat(Doc::Space, Doc::text("def".to_string()))),
    ));
    assert_eq!(render(&d, 80), "abc def");
    assert_eq!(render(&d, 7), "abc def");
    assert_eq!(render(&d, 6), "abc\n  def");
}

#[test]
fn group_with_line_never_fits() {
    let d = Doc::group(Doc::concat(Doc::text("a".to_string()), Doc::concat(Doc::Line, Doc::text("b".to_string()))));
    assert_eq!(render(&d, 80), "a\nb");
}

#[test]
fn flat_ignores_width() {
    let d = Doc::flat(Doc::concat(Doc::text("a".to_string()), Doc::concat(Doc::Space, Doc::concat(Doc::Line, Doc::text("b".to_string())))));
    assert_eq!(render(&d, 1), "a b");
}

#[test]
fn size_of_document() {
    let d = Doc::nest(3, Doc::concat(Doc::text("ab".to_string()), Doc::Space));
    assert_eq!(doc_size(&d), Some(6));
    let big = Doc::nest(usize::MAX, Doc::text("a".to_string()));
    assert_eq!(doc_size(&big), None);
}

#[test]
fn document_of_a_value() {
    let d = value(&arr(vec![num("1"), num("2")]), 2);
    assert_eq!(render(&d, 80), "[1, 2]");
    let d = value(&obj(vec![("a", num("1"))]), 3);
    assert_eq!(render(&d, 80), "{\n   \"a\": 1\n}");
}

#[test]
fn group_counts_what_follows_up_to_the_next_break() {
    let g = Doc::group(Doc::concat(
        Doc::text("abc".to_string()),
        Doc::nest(2, Doc::concat(Doc::Space, Doc::text("def".to_string()))),
    ));
    let d = Doc::concat(g, Doc::text("ghi".to_string()));
    assert_eq!(render(&d, 7), "abc\n  defghi");
    assert_eq!(render(&d, 10), "abc defghi");
}

#[test]
fn lookahead_stops_at_a_break() {
    let g = Doc::group(Doc::concat(Doc::text("ab".to_string()), Doc::concat(Doc::Space, Doc::text("c".to_string()))));
    let d = Doc::concat(g, Doc::concat(Doc::Line, Doc::text("a_long_tail".to_string())));
    assert_eq!(render(&d, 4), "ab c\na_long_tail");
}

#[test]
fn control_characters_are_escaped() {
    assert_eq!(fmt(&st("\u{1}\u{1f}\t\r\u{8}\u{c}")), "\"\\u0001\\u001f\\t\\r\\b\\f\"");
    assert_eq!(fmt(&st("\u{7f}é/")), "\"\u{7f}é/\"");
}
