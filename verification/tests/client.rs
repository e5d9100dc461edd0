//! Messages, requests, and the replies of the model.

use bytemaker::client::{
    render_message, CallResult, Client, ContentBlock, Message, MessagesResponse, StreamEvent,
};
use bytemaker::error::AgentError;
use bytemaker::json::Json;
use bytemaker::stream::{CollectSink, Delta};
use bytemaker::tools::ToolDefinition;

fn client() -> Client {
    Client::new("key".into(), "https://api.example.com".into(), "model".into())
}

fn data(s: &str) -> StreamEvent {
    StreamEvent::Data(s.to_string())
}

#[test]
fn call_result_into_response_success() {
    let r = MessagesResponse { content: vec![], stop_reason: "end_turn".into() };
    assert!(CallResult::Success(r).into_response().is_ok());
}

#[test]
fn call_result_into_response_prompt_too_long() {
    let e = AgentError::Api { status: 400, body: "prompt_too_long".into() };
    assert!(CallResult::PromptTooLong(e).into_response().is_err());
}

#[test]
fn call_result_into_response_failure() {
    let e = AgentError::Other("network down".into());
    assert!(CallResult::Failure(e).into_response().is_err());
}

#[test]
fn call_result_is_prompt_too_long() {
    let e = AgentError::Api { status: 400, body: "prompt_too_long".into() };
    assert!(CallResult::PromptTooLong(e).is_prompt_too_long());

    let r = MessagesResponse { content: vec![], stop_reason: "end_turn".into() };
    assert!(!CallResult::Success(r).is_prompt_too_long());

    let e = AgentError::Other("something".into());
    assert!(!CallResult::Failure(e).is_prompt_too_long());
}

#[test]
fn classify_error_prompt_too_long() {
    let err = AgentError::Api { status: 400, body: "error: prompt_too_long".into() };
    assert!(matches!(client().classify_error(err), CallResult::PromptTooLong(_)));
}

#[test]
fn classify_error_other() {
    let err = AgentError::Other("random failure".into());
    assert!(matches!(client().classify_error(err), CallResult::Failure(_)));
}

#[test]
fn delta_sink_collects_text_deltas() {
    let mut sink = CollectSink::default();
    sink.text("foo");
    sink.text("bar");
    assert_eq!(sink.drain_text(), "foobar");
}

#[test]
fn call_result_cancelled_variant_exists() {
    let r = CallResult::Cancelled;
    assert!(matches!(r, CallResult::Cancelled));
}

#[test]
fn call_result_into_response_cancelled() {
    assert!(CallResult::Cancelled.into_response().is_err());
}

#[test]
fn endpoint_has_one_slash_before_the_path() {
    let c = Client::new("k".into(), "http://localhost//".into(), "m".into());
    assert_eq!(c.endpoint(), "http://localhost/v1/messages");
    assert_eq!(client().endpoint(), "https://api.example.com/v1/messages");
}

#[test]
fn request_body_is_json_with_every_part() {
    let tool = ToolDefinition {
        name: "glob".into(),
        description: "find \"files\"".into(),
        input_schema: Json { text: r#"{"type":"object"}"#.into() },
    };
    let body = client().request_body("sys\n", &[Message::user_text("hi \"there\"")], &[tool], 77);
    let v: serde_json::Value = serde_json::from_str(&body).unwrap();
    assert_eq!(v["model"], "model");
    assert_eq!(v["max_tokens"], 77);
    assert_eq!(v["stream"], true);
    assert_eq!(v["system"], "sys\n");
    assert_eq!(v["messages"][0]["role"], "user");
    assert_eq!(v["messages"][0]["content"][0]["type"], "text");
    assert_eq!(v["messages"][0]["content"][0]["text"], "hi \"there\"");
    assert_eq!(v["tools"][0]["name"], "glob");
    assert_eq!(v["tools"][0]["description"], "find \"files\"");
    assert_eq!(v["tools"][0]["input_schema"]["type"], "object");
}

#[test]
fn messages_are_rendered_block_by_block() {
    let m = Message::builder()
        .assistant()
        .text("look")
        .tool_use("t1", "command", Json { text: r#"{"command":"ls"}"#.into() })
        .build();
    let v: serde_json::Value = serde_json::from_str(&render_message(&m)).unwrap();
    assert_eq!(v["role"], "assistant");
    assert_eq!(v["content"][0]["type"], "text");
    assert_eq!(v["content"][1]["type"], "tool_use");
    assert_eq!(v["content"][1]["id"], "t1");
    assert_eq!(v["content"][1]["input"]["command"], "ls");
    let r = Message::builder().user().tool_result("t1", "out").build();
    let v: serde_json::Value = serde_json::from_str(&render_message(&r)).unwrap();
    assert_eq!(v["content"][0]["type"], "tool_result");
    assert_eq!(v["content"][0]["tool_use_id"], "t1");
    assert_eq!(v["content"][0]["content"], "out");
}

#[test]
fn http_failures_are_classified() {
    let r = client().http_failure(400, "prompt_too_long");
    assert!(matches!(r, CallResult::PromptTooLong(AgentError::Api { status: 400, .. })));
    let r = client().http_failure(500, "boom");
    assert!(matches!(r, CallResult::Failure(AgentError::Api { status: 500, .. })));
}

#[test]
fn streamed_text_and_tool_call_are_put_together() {
    let events = vec![
        data(r#"{"type":"message_start","message":{"usage":{"input_tokens":3}}}"#),
        data(r#"{"type":"content_block_start","index":0,"content_block":{"type":"text","text":""}}"#),
        data(r#"{"type":"content_block_delta","index":0,"delta":{"type":"text_delta","text":"Hel"}}"#),
        data(r#"{"type":"content_block_delta","index":0,"delta":{"type":"text_delta","text":"lo"}}"#),
        data(r#"{"type":"content_block_stop","index":0}"#),
        data(r#"{"type":"content_block_start","index":1,"content_block":{"type":"tool_use","id":"t9","name":"command","input":{}}}"#),
        data(r#"{"type":"content_block_delta","index":1,"delta":{"type":"input_json_delta","partial_json":"{\"command\":"}}"#),
        data(r#"{"type":"content_block_delta","index":1,"delta":{"type":"input_json_delta","partial_json":"\"ls\"}"}}"#),
        data(r#"{"type":"content_block_stop","index":1}"#),
        data(r#"{"type":"message_delta","delta":{"stop_reason":"tool_use"},"usage":{"output_tokens":5}}"#),
        data(r#"{"type":"message_stop"}"#),
    ];
    let mut sink: Vec<Delta> = Vec::new();
    let response = match client().stream_messages(events, &mut sink) {
        CallResult::Success(r) => r,
        _ => panic!("the stream is complete"),
    };
    assert_eq!(response.stop_reason, "tool_use");
    assert_eq!(response.content.len(), 2);
    assert!(matches!(&response.content[0], ContentBlock::Text { text } if text == "Hello"));
    match &response.content[1] {
        ContentBlock::ToolUse { id, name, input } => {
            assert_eq!(id, "t9");
            assert_eq!(name, "command");
            assert_eq!(input.text, r#"{"command":"ls"}"#);
        }
        _ => panic!("the second block is a tool call"),
    }
    let shown: String = sink
        .iter()
        .filter_map(|d| match d {
            Delta::Text(t) => Some(t.as_str()),
            _ => None,
        })
        .collect();
    assert_eq!(shown, "Hello");
}

#[test]
fn a_stream_that_breaks_or_is_cancelled_is_no_success() {
    let mut sink: Vec<Delta> = Vec::new();
    let r = client().stream_messages(vec![StreamEvent::Cancelled], &mut sink);
    assert!(matches!(r, CallResult::Cancelled));
    let r = client().stream_messages(vec![StreamEvent::Broken("reset".into())], &mut sink);
    assert!(matches!(r, CallResult::Failure(_)));
    let r = client().stream_messages(
        vec![data(r#"{"type":"error","error":{"type":"x","message":"too many tokens"}}"#)],
        &mut sink,
    );
    assert!(!matches!(r, CallResult::Success(_)));
}
