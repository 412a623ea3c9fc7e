use trimcp::json::Json;
use trimcp::protocol::method;
use trimcp::protocol::{JsonRpcError, JsonRpcRequest, JsonRpcResponse, RequestId, ResponsePayload};

#[test]
fn test_method_tools_call_constant() {
    assert_eq!(method::TOOLS_CALL, "tools/call");
}

#[test]
fn test_is_tools_call() {
    let req = JsonRpcRequest {
        jsonrpc: "2.0".to_string(),
        id: RequestId::Number(1),
        method: "tools/call".to_string(),
        params: Some(Json::Object(vec![])),
    };
    assert!(req.is_tools_call());
}

#[test]
fn other_methods_are_not_tools_calls() {
    let req = JsonRpcRequest {
        jsonrpc: "2.0".to_string(),
        id: RequestId::String("abc".to_string()),
        method: method::TOOLS_LIST.to_string(),
        params: None,
    };
    assert!(!req.is_tools_call());
}

#[test]
fn ok_response_carries_result() {
    let resp = JsonRpcResponse::ok(RequestId::Number(7), Json::Bool(true));
    assert_eq!(resp.jsonrpc, "2.0");
    assert!(matches!(resp.id, RequestId::Number(7)));
    assert!(matches!(resp.payload, ResponsePayload::Result(Json::Bool(true))));
}

#[test]
fn err_response_carries_code_and_message() {
    let resp = JsonRpcResponse::err(
        RequestId::Number(1),
        JsonRpcError::METHOD_NOT_FOUND,
        "method not found".to_string(),
    );
    match resp.payload {
        ResponsePayload::Error(e) => {
            assert_eq!(e.code, -32601);
            assert_eq!(e.message, "method not found");
            assert!(e.data.is_none());
        }
        ResponsePayload::Result(_) => panic!("expected an error payload"),
    }
}

#[test]
fn method_names() {
    assert_eq!(method::INITIALIZE, "initialize");
    assert_eq!(method::TOOLS_LIST, "tools/list");
    assert_eq!(method::RESOURCES_READ, "resources/read");
    assert_eq!(JsonRpcError::PARSE_ERROR, -32700);
    assert_eq!(JsonRpcError::INTERNAL_ERROR, -32603);
}
