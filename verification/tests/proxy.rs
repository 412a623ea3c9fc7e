use trimcp::cache::Cache;
use trimcp::compress::Pipeline;
use trimcp::json::Json;
use trimcp::metrics::Metrics;
use trimcp::protocol::{JsonRpcError, JsonRpcRequest, JsonRpcResponse, RequestId, ResponsePayload};
use trimcp::proxy::{
    extract_text_content, intercept_tools_call, tools_call_cache_key, tools_call_query_text,
    ProxyState,
};

fn s(x: &str) -> Json {
    Json::Str(x.to_string())
}

fn obj(pairs: Vec<(&str, Json)>) -> Json {
    Json::Object(pairs.into_iter().map(|(k, v)| (k.to_string(), v)).collect())
}

fn text_item(t: &str) -> Json {
    obj(vec![("type", s("text")), ("text", s(t))])
}

fn call(id: i64, tool: &str, args: Json) -> JsonRpcRequest {
    JsonRpcRequest {
        jsonrpc: "2.0".to_string(),
        id: RequestId::Number(id),
        method: "tools/call".to_string(),
        params: Some(obj(vec![("name", s(tool)), ("arguments", args)])),
    }
}

fn text_response(id: i64, t: &str) -> JsonRpcResponse {
    JsonRpcResponse::ok(RequestId::Number(id), obj(vec![("content", Json::Array(vec![text_item(t)]))]))
}

fn result_text(resp: &JsonRpcResponse) -> Option<String> {
    match &resp.payload {
        ResponsePayload::Result(v) => extract_text_content(v),
        ResponsePayload::Error(_) => None,
    }
}

#[test]
fn test_extract_text_content_single_item() {
    let value = obj(vec![("content", Json::Array(vec![text_item("hello world")]))]);
    assert_eq!(extract_text_content(&value), Some("hello world".to_string()));
}

#[test]
fn test_extract_text_content_multiple_items() {
    let value = obj(vec![("content", Json::Array(vec![text_item("line one"), text_item("line two")]))]);
    assert_eq!(extract_text_content(&value), Some("line one\nline two".to_string()));
}

#[test]
fn test_extract_text_content_ignores_non_text() {
    let value = obj(vec![(
        "content",
        Json::Array(vec![obj(vec![("type", s("image")), ("data", s("base64..."))]), text_item("only this")]),
    )]);
    assert_eq!(extract_text_content(&value), Some("only this".to_string()));
}

#[test]
fn test_extract_text_content_empty_content() {
    let value = obj(vec![("content", Json::Array(vec![]))]);
    assert_eq!(extract_text_content(&value), None);
}

#[test]
fn test_extract_text_content_missing_content_key() {
    let value = obj(vec![("result", s("ok"))]);
    assert_eq!(extract_text_content(&value), None);
}

#[test]
fn intercept_compresses_text_and_records_sizes() {
    let pipeline = Pipeline::default_pipeline();
    let mut m = Metrics::new();
    let noisy = "INFO started\nINFO started\nINFO started\nINFO started\nINFO started\nERROR failed";
    let out = intercept_tools_call(&pipeline, &mut m, text_response(1, noisy));
    assert_eq!(result_text(&out), Some("INFO started (x5)\nERROR failed".to_string()));
    assert_eq!(m.tool_calls(), 1);
    assert_eq!(m.tokens_in(), 20);
    assert_eq!(m.tokens_out(), 8);
}

#[test]
fn intercept_leaves_incompressible_text_alone() {
    let pipeline = Pipeline::default_pipeline();
    let mut m = Metrics::new();
    let out = intercept_tools_call(&pipeline, &mut m, text_response(2, "short"));
    assert_eq!(result_text(&out), Some("short".to_string()));
    assert_eq!(m.tool_calls(), 1);
    assert_eq!(m.tokens_in(), m.tokens_out());
}

#[test]
fn intercept_counts_a_result_without_text_as_a_call() {
    let pipeline = Pipeline::default_pipeline();
    let mut m = Metrics::new();
    let resp = JsonRpcResponse::ok(RequestId::Number(3), obj(vec![("content", Json::Array(vec![]))]));
    let _ = intercept_tools_call(&pipeline, &mut m, resp);
    assert_eq!(m.tool_calls(), 1);
    assert_eq!(m.tokens_in(), 0);
}

#[test]
fn intercept_ignores_errors() {
    let pipeline = Pipeline::default_pipeline();
    let mut m = Metrics::new();
    let resp = JsonRpcResponse::err(RequestId::Number(4), JsonRpcError::INTERNAL_ERROR, "boom".to_string());
    let out = intercept_tools_call(&pipeline, &mut m, resp);
    assert!(matches!(out.payload, ResponsePayload::Error(_)));
    assert_eq!(m.tool_calls(), 0);
}

#[test]
fn cache_key_and_query_text_of_a_call() {
    let req = call(1, "read_file", obj(vec![("path", s("/tmp"))]));
    assert!(tools_call_cache_key(&req).is_some());
    assert_eq!(tools_call_query_text(&req), Some("read_file: {\"path\":\"/tmp\"}".to_string()));
    let no_name = JsonRpcRequest {
        jsonrpc: "2.0".to_string(),
        id: RequestId::Number(1),
        method: "tools/call".to_string(),
        params: Some(obj(vec![])),
    };
    assert_eq!(tools_call_cache_key(&no_name), None);
    assert_eq!(tools_call_query_text(&no_name), None);
}

#[test]
fn missing_arguments_count_as_null() {
    let with_null = call(1, "t", Json::Null);
    let without = JsonRpcRequest {
        jsonrpc: "2.0".to_string(),
        id: RequestId::Number(2),
        method: "tools/call".to_string(),
        params: Some(obj(vec![("name", s("t"))])),
    };
    assert_eq!(tools_call_cache_key(&with_null), tools_call_cache_key(&without));
    assert_eq!(tools_call_query_text(&without), Some("t: null".to_string()));
}

#[test]
fn second_identical_call_is_served_from_cache() {
    let mut state = ProxyState::new().with_cache(Cache::new(60));
    let req = call(1, "read_file", obj(vec![("path", s("/a"))]));
    assert!(state.serve_from_cache_at(&req, 1_000).is_none());
    let noisy = "x\nx\nx\nx\nx\nx\nx\nx";
    let (out, tin, tout) = state.finish_tools_call_at(&req, Some(text_response(1, noisy)), 1_000);
    assert_eq!(result_text(&out.unwrap()), Some("x (x8)".to_string()));
    assert_eq!((tin, tout), (4, 2));

    let again = call(9, "read_file", obj(vec![("path", s("/a"))]));
    let hit = state.serve_from_cache_at(&again, 1_010).expect("cache hit");
    assert!(matches!(hit.id, RequestId::Number(9)));
    assert_eq!(result_text(&hit), Some("x (x8)".to_string()));
    assert_eq!(state.metrics().cache_hits(), 1);
    assert_eq!(state.metrics().tool_calls(), 2);
    assert_eq!(state.metrics().tokens_in(), 8);

    assert!(state.serve_from_cache_at(&again, 1_060).is_none());
}

#[test]
fn knowledge_hit_answers_under_the_request_id() {
    let mut state = ProxyState::new();
    let req = call(5, "docs", obj(vec![]));
    let out = state.serve_knowledge_hit(&req, text_response(77, "stored"), 100, 40);
    assert!(matches!(out.id, RequestId::Number(5)));
    assert_eq!(state.metrics().knowledge_hits(), 1);
    assert_eq!(state.metrics().tokens_in(), 100);
    assert_eq!(state.metrics().tokens_out(), 40);
}

#[test]
fn no_response_changes_nothing() {
    let mut state = ProxyState::new();
    let req = call(1, "t", Json::Null);
    let (out, tin, tout) = state.finish_tools_call_at(&req, None, 5);
    assert!(out.is_none());
    assert_eq!((tin, tout), (0, 0));
    assert_eq!(state.metrics().tool_calls(), 0);
    assert!(state.cache().is_none());
}

#[test]
fn compressed_text_replaces_the_text_items_once() {
    let pipeline = Pipeline::default_pipeline();
    let mut m = Metrics::new();
    let value = obj(vec![(
        "content",
        Json::Array(vec![
            text_item("x\nx\nx\nx"),
            obj(vec![("type", s("image")), ("data", s("d"))]),
            text_item("x\nx\nx\nx"),
        ]),
    )]);
    let resp = JsonRpcResponse::ok(RequestId::Number(1), value);
    let out = intercept_tools_call(&pipeline, &mut m, resp);
    assert_eq!(result_text(&out), Some("x (x8)".to_string()));
    match &out.payload {
        ResponsePayload::Result(v) => assert_eq!(
            trimcp::json::to_json_string(v),
            r#"{"content":[{"type":"text","text":"x (x8)"},{"type":"image","data":"d"}]}"#
        ),
        ResponsePayload::Error(_) => panic!("expected a result"),
    }
}

#[test]
fn compression_settings_choose_the_pipeline() {
    let mut off = trimcp::config::CompressionConfig::default();
    off.enabled = false;
    let mut state = ProxyState::from_compression(&off);
    let req = call(1, "t", Json::Null);
    let noisy = "a\na\na\na\na\na";
    let (out, _, _) = state.finish_tools_call_at(&req, Some(text_response(1, noisy)), 0);
    assert_eq!(result_text(&out.unwrap()), Some(noisy.to_string()));
    assert_eq!(state.metrics().tool_calls(), 1);

    let defaults = trimcp::config::CompressionConfig::default();
    let mut state = ProxyState::from_compression(&defaults);
    let code = "```rust\nlet a = 1;\n// keep this comment\n```";
    let (out, _, _) = state.finish_tools_call_at(&req, Some(text_response(2, code)), 0);
    assert_eq!(result_text(&out.unwrap()), Some(code.to_string()));
}
