use trimcp::json::{to_json_string, Json, JsonNumber};

fn s(x: &str) -> Json {
    Json::Str(x.to_string())
}

#[test]
fn scalars_are_written_compactly() {
    assert_eq!(to_json_string(&Json::Null), "null");
    assert_eq!(to_json_string(&Json::Bool(false)), "false");
    assert_eq!(to_json_string(&Json::Number(JsonNumber::PosInt(18_446_744_073_709_551_615))), "18446744073709551615");
    assert_eq!(to_json_string(&Json::Number(JsonNumber::NegInt(-42))), "-42");
    assert_eq!(to_json_string(&Json::Number(JsonNumber::NegInt(i64::MIN))), "-9223372036854775808");
    assert_eq!(to_json_string(&Json::Number(JsonNumber::Float("1.5".to_string()))), "1.5");
}

#[test]
fn strings_are_escaped() {
    assert_eq!(to_json_string(&s("a\"b\\c")), r#""a\"b\\c""#);
    assert_eq!(to_json_string(&s("\n\t\r\u{8}\u{c}")), r#""\n\t\r\b\f""#);
    assert_eq!(to_json_string(&s("\u{1}\u{1f}")), r#""\u0001\u001f""#);
    assert_eq!(to_json_string(&s("é/✓")), "\"é/✓\"");
}

#[test]
fn containers_keep_their_order() {
    let v = Json::Object(vec![
        ("z".to_string(), Json::Array(vec![Json::Null, s("x")])),
        ("a".to_string(), Json::Object(vec![])),
    ]);
    assert_eq!(to_json_string(&v), r#"{"z":[null,"x"],"a":{}}"#);
    assert_eq!(to_json_string(&Json::Array(vec![])), "[]");
}

#[test]
fn field_access() {
    let v = Json::Object(vec![
        ("name".to_string(), s("tool")),
        ("n".to_string(), Json::Number(JsonNumber::PosInt(3))),
        ("on".to_string(), Json::Bool(true)),
    ]);
    assert_eq!(v.get("name").and_then(|x| x.as_str()).map(|x| x.as_str()), Some("tool"));
    assert_eq!(v.get("n").and_then(|x| x.as_u64()), Some(3));
    assert_eq!(v.get("on").and_then(|x| x.as_bool()), Some(true));
    assert!(v.get("missing").is_none());
    assert!(s("x").get("name").is_none());
    assert!(v.get("name").unwrap().is_some_str("tool"));
}
