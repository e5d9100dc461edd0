//! Errors and how they are shown.

use bytemaker::error::AgentError;

#[test]
fn display_api_error() {
    let err = AgentError::Api { status: 429, body: "rate limited".into() };
    assert_eq!(err.to_string(), "API error (HTTP 429): rate limited");
}

#[test]
fn display_timeout() {
    let err = AgentError::Timeout { seconds: 30 };
    assert_eq!(err.to_string(), "Operation timed out after 30s");
}

#[test]
fn display_stream_error() {
    let err = AgentError::Stream("bad JSON".into());
    assert_eq!(err.to_string(), "Stream error: bad JSON");
}

#[test]
fn display_other() {
    let err = AgentError::Other("something went wrong".into());
    assert_eq!(err.to_string(), "something went wrong");
}

#[test]
fn every_other_variant_is_shown_with_its_parts() {
    assert_eq!(AgentError::Network("down".into()).to_string(), "Network error: down");
    assert_eq!(AgentError::InvalidResponse("x".into()).to_string(), "Invalid response: x");
    let missing = AgentError::ToolNotFound { name: "t".into(), available: "a, b".into() };
    assert_eq!(missing.to_string(), "Tool 't' not found. Available tools: a, b");
    let rejected = AgentError::ToolRejected { name: "t".into(), reason: "r".into() };
    assert_eq!(rejected.to_string(), "Tool 't' rejected: r");
    let denied = AgentError::ToolDenied { name: "t".into(), reason: "r".into() };
    assert_eq!(denied.to_string(), "Tool 't' denied: r");
    let failed = AgentError::ToolExecution { name: "t".into(), reason: "r".into() };
    assert_eq!(failed.to_string(), "Tool 't' execution failed: r");
    let escaped = AgentError::PathTraversal { path: "../x".into() };
    assert_eq!(escaped.to_string(), "Path '../x' escapes workspace");
    assert_eq!(AgentError::FileSystem("f".into()).to_string(), "File system error: f");
    assert_eq!(AgentError::Validation("v".into()).to_string(), "Validation error: v");
}

#[test]
fn from_io_error() {
    let io_err = std::io::Error::new(std::io::ErrorKind::NotFound, "file missing");
    let err: AgentError = io_err.into();
    assert!(matches!(err, AgentError::FileSystem(_)));
    assert!(err.to_string().contains("file missing"));
}

#[test]
fn json_errors_are_invalid_responses() {
    let json_err = serde_json::from_str::<serde_json::Value>("{").unwrap_err();
    let said = json_err.to_string();
    let err: AgentError = json_err.into();
    assert!(err.to_string().contains(&said));
}

#[test]
fn is_prompt_too_long_api_variant() {
    let err = AgentError::Api {
        status: 400,
        body: "prompt_too_long: request exceeds maximum context".into(),
    };
    assert!(err.is_prompt_too_long());

    let err2 = AgentError::Api { status: 400, body: "too many tokens in request".into() };
    assert!(err2.is_prompt_too_long());

    let err3 = AgentError::Api { status: 400, body: "request_too_large".into() };
    assert!(err3.is_prompt_too_long());

    // Case insensitive
    let err4 = AgentError::Api { status: 400, body: "PROMPT_TOO_LONG".into() };
    assert!(err4.is_prompt_too_long());
}

#[test]
fn is_prompt_too_long_negative() {
    let err = AgentError::Api { status: 401, body: "unauthorized".into() };
    assert!(!err.is_prompt_too_long());

    let err2 = AgentError::Stream("connection closed".into());
    assert!(!err2.is_prompt_too_long());

    let err3 = AgentError::Timeout { seconds: 30 };
    assert!(!err3.is_prompt_too_long());

    let err4 = AgentError::Other("some other error".into());
    assert!(!err4.is_prompt_too_long());
}
