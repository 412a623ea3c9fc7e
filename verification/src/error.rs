//! Errors of the proxy library.
use vstd::prelude::*;
use crate::text::{append_chars, str_chars, string_from_chars};

verus! {

#[verifier::external_type_specification]
#[verifier::external_body]
pub struct ExIoError(std::io::Error);

#[verifier::external_type_specification]
#[verifier::external_body]
pub struct ExJsonError(serde_json::Error);

/// Errors of configuration, the proxy and the upstream process.
#[derive(Debug)]
pub enum TrimcpError {
    Io(std::io::Error),
    Json(serde_json::Error),
    Config(String),
    Proxy(String),
    Upstream(String),
}

/// `std::io::Error`'s `Display` text. Nothing is stated of it: it comes from
/// the operating system.
#[verifier::external_body]
fn io_error_text(e: &std::io::Error) -> String {
    e.to_string()
}

/// `serde_json::Error`'s `Display` text (message with line and column).
/// Nothing is stated of its wording.
#[verifier::external_body]
fn json_error_text(e: &serde_json::Error) -> String {
    e.to_string()
}

/// `prefix` followed by `rest`.
fn prefixed(prefix: &str, rest: &String) -> (s: String)
    ensures
        s@ == prefix@ + rest@,
{
    let mut cs = str_chars(prefix);
    append_chars(&mut cs, &str_chars(rest.as_str()));
    string_from_chars(&cs)
}

impl TrimcpError {
    /// The text of the error, as its `Display` shows it.
    pub fn message(&self) -> (s: String)
        ensures
            match self {
                TrimcpError::Io(_) => exists|t: Seq<char>| s@ == "I/O error: "@ + t,
                TrimcpError::Json(_) => exists|t: Seq<char>| s@ == "JSON error: "@ + t,
                TrimcpError::Config(m) => s@ == "Config error: "@ + m@,
                TrimcpError::Proxy(m) => s@ == "Proxy error: "@ + m@,
                TrimcpError::Upstream(m) => s@ == "Upstream process error: "@ + m@,
            },
    {
        match self {
            TrimcpError::Io(e) => prefixed("I/O error: ", &io_error_text(e)),
            TrimcpError::Json(e) => prefixed("JSON error: ", &json_error_text(e)),
            TrimcpError::Config(m) => prefixed("Config error: ", m),
            TrimcpError::Proxy(m) => prefixed("Proxy error: ", m),
            TrimcpError::Upstream(m) => prefixed("Upstream process error: ", m),
        }
    }
}

} // verus!
