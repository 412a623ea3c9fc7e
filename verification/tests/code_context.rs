use trimcp::code_context::{format_code_context, CodeChunk};

fn make_chunk(name: &str, content: &str) -> CodeChunk {
    CodeChunk {
        name: Some(name.to_string()),
        path: format!("src/{name}.rs"),
        language: "rust".to_string(),
        start_line: 10,
        end_line: 15,
        content: content.to_string(),
    }
}

#[test]
fn test_format_code_context_empty() {
    let result = format_code_context(&vec![]);
    assert_eq!(result, "[Code Context]");
}

#[test]
fn test_format_code_context_single_chunk() {
    let chunk = make_chunk("authenticate", "pub fn authenticate() {}");
    let result = format_code_context(&vec![chunk]);
    assert!(result.contains("[Code Context]"));
    assert!(result.contains("authenticate"));
    assert!(result.contains("src/authenticate.rs:10–15"));
    assert!(result.contains("rust"));
    assert!(result.contains("pub fn authenticate() {}"));
}

#[test]
fn test_format_code_context_truncates_at_six_lines() {
    let content = (0..20).map(|i| format!("  let x{i} = {i};")).collect::<Vec<_>>().join("\n");
    let chunk = make_chunk("big_fn", &content);
    let result = format_code_context(&vec![chunk]);
    // Only first 6 lines of content should appear
    let content_lines: Vec<&str> = result.lines().skip(2).collect(); // skip header + comment
    assert!(content_lines.len() <= 7); // 6 content lines + possible blank
}

#[test]
fn test_format_code_context_multiple_chunks() {
    let chunks = vec![make_chunk("fn_a", "pub fn fn_a() {}"), make_chunk("fn_b", "pub fn fn_b() {}")];
    let result = format_code_context(&chunks);
    assert!(result.contains("fn_a"));
    assert!(result.contains("fn_b"));
}

#[test]
fn test_format_code_context_unnamed_chunk() {
    let mut chunk = make_chunk("x", "fn x() {}");
    chunk.name = None;
    let result = format_code_context(&vec![chunk]);
    assert!(result.contains("(unnamed)"));
}

#[test]
fn exact_block_for_one_chunk() {
    let chunk = make_chunk("f", "a\nb");
    assert_eq!(
        format_code_context(&vec![chunk]),
        "[Code Context]\n// f — src/f.rs:10–15 (rust)\na\nb\n"
    );
}

#[test]
fn preview_keeps_exactly_six_lines() {
    let chunk = make_chunk("g", "1\n2\n3\n4\n5\n6\n7\n8");
    let text = format_code_context(&vec![chunk]);
    assert!(text.ends_with("\n1\n2\n3\n4\n5\n6\n"));
    assert!(!text.contains('7'));
}

use trimcp::code_context::inject_code_context_into_response;
use trimcp::json::{to_json_string, Json};
use trimcp::protocol::{JsonRpcError, JsonRpcResponse, RequestId, ResponsePayload};

fn obj(pairs: Vec<(&str, Json)>) -> Json {
    Json::Object(pairs.into_iter().map(|(k, v)| (k.to_string(), v)).collect())
}

fn result_json(r: &JsonRpcResponse) -> String {
    match &r.payload {
        ResponsePayload::Result(v) => to_json_string(v),
        ResponsePayload::Error(_) => String::new(),
    }
}

#[test]
fn context_goes_before_the_first_text_item_only() {
    let value = obj(vec![(
        "content",
        Json::Array(vec![
            obj(vec![("type", Json::Str("image".to_string())), ("data", Json::Str("x".to_string()))]),
            obj(vec![("type", Json::Str("text".to_string())), ("text", Json::Str("first".to_string()))]),
            obj(vec![("type", Json::Str("text".to_string())), ("text", Json::Str("second".to_string()))]),
        ]),
    )]);
    let resp = JsonRpcResponse::ok(RequestId::Number(1), value);
    let out = inject_code_context_into_response(resp, &vec![make_chunk("f", "body")]);
    assert_eq!(
        result_json(&out),
        concat_text(&[
            r#"{"content":[{"type":"image","data":"x"},{"type":"text","text":"[Code Context]\n// f — src/f.rs:10–15 (rust)\nbody\n\n\nfirst"},"#,
            r#"{"type":"text","text":"second"}]}"#,
        ])
    );
}

fn concat_text(parts: &[&str]) -> String {
    parts.join("")
}

#[test]
fn responses_without_text_are_unchanged() {
    let value = obj(vec![("content", Json::Array(vec![]))]);
    let out = inject_code_context_into_response(JsonRpcResponse::ok(RequestId::Number(2), value), &vec![]);
    assert_eq!(result_json(&out), r#"{"content":[]}"#);
    let err = JsonRpcResponse::err(RequestId::Number(3), JsonRpcError::INTERNAL_ERROR, "x".to_string());
    let out = inject_code_context_into_response(err, &vec![]);
    assert!(matches!(out.payload, ResponsePayload::Error(_)));
}
