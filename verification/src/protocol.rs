//! JSON-RPC 2.0 messages of the MCP protocol.
use vstd::prelude::*;
use crate::compress::chars_eq;
use crate::json::{clone_json, Json, JsonV};
use crate::text::str_chars;

pub mod method;

verus! {

/// The id of a request: a number or a string.
#[derive(Debug)]
pub enum RequestId {
    Number(i64),
    String(String),
}

impl Clone for RequestId {
    fn clone(&self) -> (r: Self)
        ensures
            r == *self,
    {
        match self {
            RequestId::Number(n) => RequestId::Number(*n),
            RequestId::String(s) => RequestId::String(s.clone()),
        }
    }
}

#[derive(Debug)]
pub struct JsonRpcRequest {
    pub jsonrpc: String,
    pub id: RequestId,
    pub method: String,
    pub params: Option<Json>,
}

#[derive(Debug)]
pub struct JsonRpcResponse {
    pub jsonrpc: String,
    pub id: RequestId,
    pub payload: ResponsePayload,
}

#[derive(Debug)]
pub enum ResponsePayload {
    Result(Json),
    Error(JsonRpcError),
}

#[derive(Debug)]
pub struct JsonRpcNotification {
    pub jsonrpc: String,
    pub method: String,
    pub params: Option<Json>,
}

#[derive(Debug)]
pub struct JsonRpcError {
    pub code: i32,
    pub message: String,
    pub data: Option<Json>,
}

impl JsonRpcError {
    pub const PARSE_ERROR: i32 = -32700;

    pub const INVALID_REQUEST: i32 = -32600;

    pub const METHOD_NOT_FOUND: i32 = -32601;

    pub const INVALID_PARAMS: i32 = -32602;

    pub const INTERNAL_ERROR: i32 = -32603;
}

/// Any message received from the client or upstream.
#[derive(Debug)]
pub enum IncomingMessage {
    Request(JsonRpcRequest),
    Notification(JsonRpcNotification),
}

// ── Values ──────────────────────────────────────────────────────────────────

pub open spec fn opt_view(o: Option<Json>) -> Option<JsonV> {
    match o {
        Some(j) => Some(j@),
        None => None,
    }
}

/// What a response payload holds.
pub enum PayloadV {
    Result(JsonV),
    Error { code: i32, message: Seq<char>, data: Option<JsonV> },
}

/// What a response holds.
pub struct ResponseV {
    pub jsonrpc: Seq<char>,
    pub id: RequestId,
    pub payload: PayloadV,
}

pub open spec fn payload_view(p: ResponsePayload) -> PayloadV {
    match p {
        ResponsePayload::Result(v) => PayloadV::Result(v@),
        ResponsePayload::Error(e) => PayloadV::Error {
            code: e.code,
            message: e.message@,
            data: opt_view(e.data),
        },
    }
}

impl View for JsonRpcResponse {
    type V = ResponseV;

    open spec fn view(&self) -> ResponseV {
        ResponseV { jsonrpc: self.jsonrpc@, id: self.id, payload: payload_view(self.payload) }
    }
}

fn clone_opt(o: &Option<Json>) -> (r: Option<Json>)
    ensures
        opt_view(r) == opt_view(*o),
{
    match o {
        Some(j) => Some(clone_json(j)),
        None => None,
    }
}

impl Clone for ResponsePayload {
    fn clone(&self) -> (r: Self)
        ensures
            payload_view(r) == payload_view(*self),
    {
        match self {
            ResponsePayload::Result(v) => ResponsePayload::Result(clone_json(v)),
            ResponsePayload::Error(e) => ResponsePayload::Error(
                JsonRpcError { code: e.code, message: e.message.clone(), data: clone_opt(&e.data) },
            ),
        }
    }
}

impl Clone for JsonRpcResponse {
    fn clone(&self) -> (r: Self)
        ensures
            r@ == self@,
    {
        JsonRpcResponse {
            jsonrpc: self.jsonrpc.clone(),
            id: self.id.clone(),
            payload: self.payload.clone(),
        }
    }
}

// ── Helpers ─────────────────────────────────────────────────────────────────

impl JsonRpcRequest {
    pub fn is_tools_call(&self) -> (b: bool)
        ensures
            b == (self.method@ == "tools/call"@),
    {
        chars_eq(&str_chars(self.method.as_str()), &str_chars(method::TOOLS_CALL))
    }
}

impl JsonRpcResponse {
    pub fn ok(id: RequestId, result: Json) -> (r: Self)
        ensures
            r@ == (ResponseV { jsonrpc: "2.0"@, id: id, payload: PayloadV::Result(result@) }),
    {
        JsonRpcResponse {
            jsonrpc: "2.0".to_owned(),
            id,
            payload: ResponsePayload::Result(result),
        }
    }

    pub fn err(id: RequestId, code: i32, message: String) -> (r: Self)
        ensures
            r@ == (ResponseV {
                jsonrpc: "2.0"@,
                id: id,
                payload: PayloadV::Error { code: code, message: message@, data: None },
            }),
    {
        JsonRpcResponse {
            jsonrpc: "2.0".to_owned(),
            id,
            payload: ResponsePayload::Error(JsonRpcError { code, message, data: None }),
        }
    }
}

} // verus!
