use trimcp::cache::{make_cache_key, Cache};
use trimcp::json::Json;
use trimcp::protocol::{JsonRpcResponse, RequestId};

fn s(x: &str) -> Json {
    Json::Str(x.to_string())
}

fn obj(pairs: Vec<(&str, Json)>) -> Json {
    Json::Object(pairs.into_iter().map(|(k, v)| (k.to_string(), v)).collect())
}

fn make_response(id: i64) -> JsonRpcResponse {
    JsonRpcResponse::ok(RequestId::Number(id), obj(vec![("content", Json::Array(vec![]))]))
}

#[test]
fn test_insert_and_get_returns_response() {
    let mut cache = Cache::new(60);
    let resp = make_response(1);
    cache.insert(42, resp, 0, 0);
    assert!(cache.get(42).is_some());
}

#[test]
fn test_get_missing_key_returns_none() {
    let cache = Cache::new(60);
    assert!(cache.get(999).is_none());
}

#[test]
fn test_len_counts_live_entries() {
    let mut cache = Cache::new(60);
    cache.insert(1, make_response(1), 0, 0);
    cache.insert(2, make_response(2), 0, 0);
    assert_eq!(cache.len(), 2);
}

#[test]
fn test_make_cache_key_same_input_same_key() {
    let a = make_cache_key("tools/call", &obj(vec![("name", s("read_file")), ("path", s("/tmp"))]));
    let b = make_cache_key("tools/call", &obj(vec![("name", s("read_file")), ("path", s("/tmp"))]));
    assert_eq!(a, b);
}

#[test]
fn test_make_cache_key_different_args_different_key() {
    let a = make_cache_key("tools/call", &obj(vec![("path", s("/tmp/a"))]));
    let b = make_cache_key("tools/call", &obj(vec![("path", s("/tmp/b"))]));
    assert_ne!(a, b);
}

#[test]
fn test_make_cache_key_different_tool_different_key() {
    let a = make_cache_key("read_file", &obj(vec![]));
    let b = make_cache_key("write_file", &obj(vec![]));
    assert_ne!(a, b);
}

#[test]
fn entry_expires_when_its_time_is_reached() {
    let mut cache = Cache::new(0);
    cache.insert_at(1, make_response(1), 0, 0, 100);
    assert!(cache.get_at(1, 99).is_some());
    assert!(cache.get_at(1, 100).is_none());
}

#[test]
fn entry_is_live_until_ttl_has_passed() {
    let mut cache = Cache::new(60);
    cache.insert_at(7, make_response(7), 120, 40, 1_000);
    assert!(cache.get_at(7, 1_059).is_some());
    assert_eq!(cache.get_tokens_at(7, 1_059), Some((120, 40)));
    assert!(cache.get_at(7, 1_060).is_none());
    assert_eq!(cache.get_tokens_at(7, 1_060), None);
}

#[test]
fn evict_expired_at_removes_only_stale_entries() {
    let mut cache = Cache::new(10);
    cache.insert_at(1, make_response(1), 0, 0, 0);
    cache.insert_at(2, make_response(2), 0, 0, 50);
    cache.evict_expired_at(30);
    assert_eq!(cache.len_at(30), 1);
    assert!(cache.get_at(1, 0).is_none());
    assert!(cache.get_at(2, 55).is_some());
}

#[test]
fn len_at_counts_only_live_entries() {
    let mut cache = Cache::new(5);
    cache.insert_at(1, make_response(1), 0, 0, 0);
    cache.insert_at(2, make_response(2), 0, 0, 10);
    assert_eq!(cache.len_at(3), 2);
    assert_eq!(cache.len_at(7), 1);
    assert_eq!(cache.len_at(20), 0);
    assert!(cache.is_empty() || cache.len() <= 2);
}

#[test]
fn reinsert_replaces_entry() {
    let mut cache = Cache::new(100);
    cache.insert_at(3, make_response(1), 10, 5, 0);
    cache.insert_at(3, make_response(2), 20, 6, 0);
    assert_eq!(cache.get_tokens_at(3, 1), Some((20, 6)));
    match cache.get_at(3, 1) {
        Some(r) => assert!(matches!(r.id, RequestId::Number(2))),
        None => panic!("expected a hit"),
    }
}

#[test]
fn expiry_saturates_at_the_end_of_time() {
    let mut cache = Cache::new(u64::MAX);
    cache.insert_at(9, make_response(9), 0, 0, 10);
    assert!(cache.get_at(9, u64::MAX - 1).is_some());
}

#[test]
fn cache_key_depends_on_argument_order() {
    let a = make_cache_key("t", &obj(vec![("a", s("1")), ("b", s("2"))]));
    let b = make_cache_key("t", &obj(vec![("b", s("2")), ("a", s("1"))]));
    assert_ne!(a, b);
}

#[test]
fn len_and_is_empty_agree_at_one_instant() {
    let mut cache = Cache::new(10);
    assert!(cache.is_empty_at(0));
    cache.insert_at(1, make_response(1), 0, 0, 0);
    assert!(!cache.is_empty_at(5));
    assert_eq!(cache.len_at(5), 1);
    assert!(cache.is_empty_at(10));
    assert_eq!(cache.len_at(10), 0);
}
