use trimcp::json::{Json, JsonNumber};
use trimcp::knowledge::{query_text, select_hit, tool_of_query};

fn s(x: &str) -> Json {
    Json::Str(x.to_string())
}

fn n(x: u64) -> Json {
    Json::Number(JsonNumber::PosInt(x))
}

fn obj(pairs: Vec<(&str, Json)>) -> Json {
    Json::Object(pairs.into_iter().map(|(k, v)| (k.to_string(), v)).collect())
}

fn meta(tool: &str, inserted_at: u64, tin: u64, tout: u64, body: &str) -> Json {
    obj(vec![
        ("inserted_at", n(inserted_at)),
        ("tool_name", s(tool)),
        ("response", obj(vec![("marker", s(body))])),
        ("tokens_original", n(tin)),
        ("tokens_compressed", n(tout)),
    ])
}

#[test]
fn test_query_text_format() {
    let args = obj(vec![("topic", s("hooks"))]);
    let qt = query_text("get-library-docs", &args);
    assert!(qt.starts_with("get-library-docs:"));
    assert!(qt.contains("hooks"));
}

#[test]
fn query_text_is_tool_colon_compact_arguments() {
    let args = obj(vec![("topic", s("hooks")), ("n", n(3))]);
    assert_eq!(query_text("docs", &args), "docs: {\"topic\":\"hooks\",\"n\":3}");
}

#[test]
fn tool_of_query_takes_text_before_first_separator() {
    assert_eq!(tool_of_query("get-library-docs: react hooks"), "get-library-docs");
    assert_eq!(tool_of_query("no separator"), "no separator");
    assert_eq!(tool_of_query("a: b: c"), "a");
    assert_eq!(tool_of_query(": x"), "");
}

#[test]
fn first_fresh_result_of_the_same_tool_is_the_hit() {
    let metas = vec![meta("other", 100, 1, 1, "wrong tool"), meta("docs", 100, 100, 40, "right")];
    let hit = select_hit("docs: react hooks", &metas, 150, 3_600).expect("a hit");
    assert_eq!(hit.tokens_original, 100);
    assert_eq!(hit.tokens_compressed, 40);
    match hit.response {
        Json::Object(fields) => assert_eq!(fields[0].0, "marker"),
        _ => panic!("expected the stored response"),
    }
}

#[test]
fn expired_results_are_skipped() {
    let metas = vec![meta("docs", 0, 1, 1, "old")];
    assert!(select_hit("docs: q", &metas, 604_800, 604_800).is_none());
    assert!(select_hit("docs: q", &metas, 604_799, 604_800).is_some());
}

#[test]
fn zero_ttl_never_hits() {
    let metas = vec![meta("some query", 50, 0, 0, "x")];
    assert!(select_hit("some query", &metas, 50, 0).is_none());
}

#[test]
fn malformed_metadata_ends_the_search() {
    let metas = vec![obj(vec![("tool_name", s("docs"))]), meta("docs", 1, 2, 3, "later")];
    assert!(select_hit("docs: q", &metas, 2, 100).is_none());
}

#[test]
fn missing_token_counts_read_as_zero() {
    let metas = vec![obj(vec![("inserted_at", n(10)), ("response", Json::Null)])];
    let hit = select_hit("anything", &metas, 10, 5).expect("a hit");
    assert_eq!((hit.tokens_original, hit.tokens_compressed), (0, 0));
}

#[test]
fn no_results_no_hit() {
    assert!(select_hit("anything", &vec![], 0, 100).is_none());
}

#[test]
fn metadata_records_tool_time_response_and_sizes() {
    let m = trimcp::knowledge::entry_metadata("docs: {\"q\":1}", s("resp"), 1_700_000_000, 120, 30);
    assert_eq!(
        trimcp::json::to_json_string(&m),
        r#"{"inserted_at":1700000000,"tool_name":"docs","response":"resp","tokens_original":120,"tokens_compressed":30}"#
    );
    let hit = select_hit("docs: other", &vec![m], 1_700_000_100, trimcp::knowledge::ttl_secs_of_days(7)).unwrap();
    assert_eq!((hit.tokens_original, hit.tokens_compressed), (120, 30));
}

#[test]
fn ttl_is_days_in_seconds() {
    assert_eq!(trimcp::knowledge::ttl_secs_of_days(0), 0);
    assert_eq!(trimcp::knowledge::ttl_secs_of_days(7), 604_800);
}
