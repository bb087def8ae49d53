use rift_bus::json::JsonNode;
use rift_bus::llm::{Message, Role, StopReason};
use rift_bus::llm_wire::{
    anthropic_health, anthropic_http_error, anthropic_sse_line, anthropic_system, anthropic_turns,
    gemini_health, gemini_http_error, gemini_needs_generation_config, gemini_stream_line, gemini_system,
    gemini_turns, logprob_request, read_anthropic_reply, read_gemini_reply, read_server_reply,
    server_grammar, server_health, server_http_error, server_messages, server_sse_line, tool_call_of,
    HealthVerdict, ReplyOutcome, ANTHROPIC_DEFAULT_MAX_TOKENS,
};
use rift_bus::llm::LlmError;
use rift_bus::json::parse_json;

fn msg(role: Role, content: &str) -> Message {
    Message { role, content: content.to_string() }
}

fn member<'a>(n: &'a JsonNode, key: &str) -> Option<&'a JsonNode> {
    match n {
        JsonNode::Object(m) => m.iter().find(|(k, _)| k == key).map(|(_, v)| v),
        _ => None,
    }
}

#[test]
fn build_request_extracts_system() {
    let messages = vec![msg(Role::User, "Hello")];
    assert_eq!(anthropic_system(&Some("Be helpful.".to_string()), &messages), Some("Be helpful.".to_string()));
    let turns = anthropic_turns(&messages);
    assert_eq!(turns.len(), 1);
    assert_eq!(turns[0].0, "user");
}

#[test]
fn build_request_system_from_messages() {
    let messages = vec![msg(Role::System, "System msg"), msg(Role::User, "Hi")];
    assert_eq!(anthropic_system(&None, &messages), Some("System msg".to_string()));
    assert_eq!(anthropic_turns(&messages).len(), 1);
    assert_eq!(ANTHROPIC_DEFAULT_MAX_TOKENS, 4096);
}

#[test]
fn build_request_concatenates_multiple_system_messages() {
    let messages = vec![msg(Role::System, "First."), msg(Role::System, "Second."), msg(Role::User, "Hi")];
    assert_eq!(anthropic_system(&None, &messages), Some("First.\n\nSecond.".to_string()));
    let turns = anthropic_turns(&messages);
    assert_eq!(turns.len(), 1);
    assert_eq!(turns[0].0, "user");
}

#[test]
fn build_request_system_prompt_takes_precedence() {
    let messages = vec![msg(Role::System, "Ignored.")];
    assert_eq!(anthropic_system(&Some("Explicit.".to_string()), &messages), Some("Explicit.".to_string()));
    assert_eq!(anthropic_system(&None, &vec![msg(Role::System, ""), msg(Role::User, "x")]), None);
}

#[test]
fn parse_content_block_delta() {
    let line = r#"data: {"type":"content_block_delta","index":0,"delta":{"type":"text_delta","text":"Hello"}}"#;
    let mut tokens = 0;
    let chunk = anthropic_sse_line(line, &mut tokens).unwrap();
    assert_eq!(chunk.text, "Hello");
    assert!(!chunk.is_final);
    assert_eq!(tokens, 1);
}

#[test]
fn parse_message_delta_stop() {
    let line = r#"data: {"type":"message_delta","delta":{"stop_reason":"end_turn"},"usage":{"output_tokens":42}}"#;
    let mut tokens = 5;
    let chunk = anthropic_sse_line(line, &mut tokens).unwrap();
    assert!(chunk.is_final);
    assert_eq!(chunk.stop_reason, Some(StopReason::EndTurn));
    assert_eq!(chunk.token_count, Some(42));
    assert_eq!(tokens, 42);
}

#[test]
fn parse_message_delta_without_usage_keeps_running_tally() {
    let line = r#"data: {"type":"message_delta","delta":{"stop_reason":"end_turn"}}"#;
    let mut tokens = 7;
    let chunk = anthropic_sse_line(line, &mut tokens).unwrap();
    assert!(chunk.is_final);
    assert_eq!(chunk.token_count, Some(7));
}

#[test]
fn anthropic_lines_that_give_nothing() {
    let mut tokens = 3;
    assert!(anthropic_sse_line(": ping", &mut tokens).is_none());
    assert!(anthropic_sse_line("event: message_start", &mut tokens).is_none());
    assert!(anthropic_sse_line(r#"data: {"type":"ping"}"#, &mut tokens).is_none());
    assert!(anthropic_sse_line(r#"data: {"type":"content_block_delta","delta":{"text":""}}"#, &mut tokens).is_none());
    // a mistyped member makes the whole event unreadable
    assert!(anthropic_sse_line(r#"data: {"type":"message_stop","usage":{"output_tokens":"x"}}"#, &mut tokens).is_none());
    assert_eq!(tokens, 3);
    let stop = anthropic_sse_line(r#"data: {"type":"message_stop"}"#, &mut tokens).unwrap();
    assert_eq!(stop.stop_reason, Some(StopReason::EndTurn));
}

#[test]
fn messages_response_parses() {
    let json = r#"{
        "content": [{"type": "text", "text": "Hi there!"}, {"type": "tool_use"}, {"type": "text", "text": " Bye"}],
        "model": "anth-model-a",
        "stop_reason": "end_turn",
        "usage": {"input_tokens": 10, "output_tokens": 3}
    }"#;
    let r = read_anthropic_reply(json, "fallback").unwrap();
    assert_eq!(r.content, "Hi there! Bye");
    assert_eq!(r.tokens_in, 10);
    assert_eq!(r.tokens_out, 3);
    assert_eq!(r.model_used, "anth-model-a");
    assert_eq!(r.stop_reason, StopReason::EndTurn);
    let bare = read_anthropic_reply(r#"{"content": []}"#, "fallback").unwrap();
    assert_eq!(bare.model_used, "fallback");
    assert!(read_anthropic_reply(r#"{"model": "m"}"#, "f").is_none());
}

#[test]
fn build_request_basic() {
    let messages = vec![msg(Role::User, "Hello")];
    let contents = gemini_turns(&messages);
    assert_eq!(contents.len(), 1);
    assert_eq!(contents[0].0, "user");
    assert!(gemini_system(&Some("Be helpful.".to_string()), &messages).is_some());
    assert!(gemini_needs_generation_config(Some(100), false, 0));
}

#[test]
fn build_request_no_system() {
    let messages = vec![msg(Role::User, "Test")];
    assert!(gemini_system(&None, &messages).is_none());
    assert!(!gemini_needs_generation_config(None, false, 0));
    let with_sys = vec![msg(Role::Assistant, "a"), msg(Role::System, ""), msg(Role::System, "b")];
    assert_eq!(gemini_system(&None, &with_sys), Some(String::new()));
    assert_eq!(gemini_turns(&with_sys)[0].0, "model");
}

#[test]
fn extract_text_from_response() {
    let json = r#"{
        "candidates": [{
            "content": {"role": "model", "parts": [{"text": "Hello"}, {"text": "!"}]},
            "finishReason": "STOP"
        }],
        "usageMetadata": {"promptTokenCount": 5, "candidatesTokenCount": 2}
    }"#;
    let doc = parse_json(json).unwrap();
    let r = read_gemini_reply(&doc).unwrap();
    assert_eq!(r.text, "Hello!");
    assert_eq!(r.prompt_tokens, Some(5));
    assert_eq!(r.candidates_tokens, Some(2));
    assert_eq!(r.finish.as_deref(), Some("STOP"));
    let bad = parse_json(r#"{"candidates": [{"content": {"parts": []}}]}"#).unwrap();
    assert!(read_gemini_reply(&bad).is_none());
}

#[test]
fn parse_stream_chunk() {
    let line = r#"{"candidates":[{"content":{"role":"model","parts":[{"text":"Hi"}]}}]}"#;
    let mut tokens = 0;
    let chunk = gemini_stream_line(line, &mut tokens).unwrap();
    assert_eq!(chunk.text, "Hi");
    assert!(!chunk.is_final);
    assert_eq!(tokens, 1);
    let last = r#",{"candidates":[{"finishReason":"MAX_TOKENS"}]}"#;
    let chunk = gemini_stream_line(last, &mut tokens).unwrap();
    assert!(chunk.is_final);
    assert_eq!(chunk.stop_reason, Some(StopReason::MaxTokens));
    assert_eq!(tokens, 1);
    assert!(gemini_stream_line("[", &mut tokens).is_none());
    assert!(gemini_stream_line("  ]  ", &mut tokens).is_none());
}

#[test]
fn build_chat_request_maps_roles() {
    let messages = vec![msg(Role::User, "Hello"), msg(Role::Assistant, "Hi")];
    let m = server_messages(&Some("Be helpful".to_string()), &messages);
    assert_eq!(m.len(), 3);
    assert_eq!(m[0].0, "system");
    assert_eq!(m[0].1, "Be helpful");
    assert_eq!(m[1].0, "user");
    assert_eq!(m[2].0, "assistant");
}

#[test]
fn build_chat_request_no_system() {
    let m = server_messages(&None, &vec![msg(Role::User, "Test")]);
    assert_eq!(m.len(), 1);
    let opts = parse_json("{}").unwrap();
    assert!(server_grammar(&opts).is_none());
}

#[test]
fn build_chat_request_forwards_grammar() {
    let opts = parse_json(r#"{ "grammar": "root ::= \"other\"" }"#).unwrap();
    assert_eq!(server_grammar(&opts).as_deref(), Some("root ::= \"other\""));
}

#[test]
fn chat_request_non_streaming_sets_logprobs_true() {
    assert_eq!(logprob_request(false), (true, 1));
}

#[test]
fn chat_request_streaming_does_not_set_logprobs() {
    assert_eq!(logprob_request(true), (false, 0));
}

#[test]
fn chat_response_parses() {
    let json = r#"{
        "id": "test",
        "object": "chat.completion",
        "choices": [{
            "message": {"role": "assistant", "content": "Hello!"},
            "finish_reason": "stop"
        }],
        "usage": {"prompt_tokens": 5, "completion_tokens": 2}
    }"#;
    match read_server_reply(json, "configured") {
        ReplyOutcome::Reply(r) => {
            assert_eq!(r.content, "Hello!");
            assert_eq!(r.tokens_in, 5);
            assert_eq!(r.tokens_out, 2);
            assert_eq!(r.model_used, "configured");
            assert_eq!(r.stop_reason, StopReason::EndTurn);
            assert!(r.tool_calls.is_none());
        },
        other => panic!("unexpected {other:?}"),
    }
}

#[test]
fn chat_response_without_logprobs_gives_none_confidence() {
    let json = r#"{"choices": [{"message": {"content": "Hello!"}, "finish_reason": "stop"}]}"#;
    match read_server_reply(json, "m") {
        ReplyOutcome::Reply(r) => assert!(r.logprobs.is_none()),
        other => panic!("unexpected {other:?}"),
    }
}

#[test]
fn logprob_texts_are_read() {
    let json = r#"{"choices": [{"message": {"content": "ok"}, "finish_reason": "stop",
        "logprobs": {"content": [{"token": "ok", "logprob": -0.5}, {"token": " is", "logprob": -1.0}]}}],
        "model": "granite"}"#;
    match read_server_reply(json, "m") {
        ReplyOutcome::Reply(r) => {
            assert_eq!(r.logprobs, Some(vec!["-0.5".to_string(), "-1.0".to_string()]));
            assert_eq!(r.model_used, "granite");
        },
        other => panic!("unexpected {other:?}"),
    }
    assert!(matches!(read_server_reply(r#"{"choices": []}"#, "m"), ReplyOutcome::NoChoices));
    assert!(matches!(read_server_reply(r#"{"choices": [{"finish_reason": 3}]}"#, "m"), ReplyOutcome::Unreadable));
    assert!(matches!(read_server_reply("nope", "m"), ReplyOutcome::Unreadable));
}

#[test]
fn chat_response_with_tool_calls_parses() {
    let json = r#"{
        "choices": [{
            "message": {
                "tool_calls": [{
                    "id": "call_0",
                    "type": "function",
                    "function": { "name": "fs_read", "arguments": "{\"path\":\"a.rs\"}" }
                }]
            },
            "finish_reason": "tool_calls"
        }],
        "model": "local"
    }"#;
    match read_server_reply(json, "m") {
        ReplyOutcome::Reply(r) => {
            let calls = r.tool_calls.expect("tool_calls");
            assert_eq!(calls.len(), 1);
            assert_eq!(calls[0].name, "fs_read");
            assert_eq!(calls[0].id, "call_0");
            match member(&calls[0].arguments, "path") {
                Some(JsonNode::Text(p)) => assert_eq!(p, "a.rs"),
                other => panic!("unexpected {other:?}"),
            }
            assert_eq!(r.stop_reason, StopReason::ToolUse);
        },
        other => panic!("unexpected {other:?}"),
    }
}

#[test]
fn tool_call_arguments_object_form_also_parses() {
    let call = parse_json(r#"{ "id": "c1", "function": { "name": "git_status", "arguments": { "x": 1 } } }"#).unwrap();
    let tc = tool_call_of(call, 2);
    match member(&tc.arguments, "x") {
        Some(JsonNode::Number { as_u64, .. }) => assert_eq!(*as_u64, Some(1)),
        other => panic!("unexpected {other:?}"),
    }
    assert_eq!(tc.id, "c1");
    let anon = parse_json(r#"{ "function": { "name": "n", "arguments": "not json" } }"#).unwrap();
    let tc = tool_call_of(anon, 4);
    assert_eq!(tc.id, "call_4");
    assert!(matches!(tc.arguments, JsonNode::Text(ref s) if s == "not json"));
}

#[test]
fn chat_chunk_parses() {
    let line = r#"data: {"id":"test","object":"chat.completion.chunk","choices":[{"delta":{"content":"He"},"finish_reason":null}]}"#;
    let mut tokens = 0;
    let c = server_sse_line(line, &mut tokens).unwrap();
    assert_eq!(c.text, "He");
    assert!(!c.is_final);
    assert_eq!(tokens, 1);
    let done = server_sse_line("data: [DONE]", &mut tokens).unwrap();
    assert!(done.is_final);
    assert_eq!(done.token_count, Some(1));
    let fin = server_sse_line(r#"data: {"choices":[{"delta":{},"finish_reason":"length"}]}"#, &mut tokens).unwrap();
    assert_eq!(fin.stop_reason, Some(StopReason::MaxTokens));
    assert!(server_sse_line(r#"data: {"choices":[]}"#, &mut tokens).is_none());
}

#[test]
fn health_response_parses() {
    assert_eq!(server_health(true, "200 OK", r#"{"status": "ok"}"#), HealthVerdict::Ready);
    assert_eq!(server_health(true, "200 OK", r#"{"status": "loading model"}"#), HealthVerdict::Loading);
    assert_eq!(server_health(true, "200 OK", "garbage"), HealthVerdict::Ready);
    assert_eq!(
        server_health(true, "200 OK", r#"{"status": "error"}"#),
        HealthVerdict::Failed { message: "error".to_string(), retryable: true }
    );
    assert_eq!(
        server_health(false, "503 Service Unavailable", ""),
        HealthVerdict::Failed { message: "HTTP 503 Service Unavailable".to_string(), retryable: true }
    );
}

#[test]
fn http_errors_map_to_llm_errors() {
    assert!(matches!(anthropic_http_error(401, "401", ""), LlmError::AuthFailed { ref provider } if provider == "anthropic"));
    assert!(matches!(anthropic_http_error(529, "529", ""), LlmError::Overloaded));
    match anthropic_http_error(400, "400 Bad Request", r#"{"error":{"message":"bad field","type":"invalid_request_error"}}"#) {
        LlmError::Internal { message } => assert_eq!(message, "HTTP 400 Bad Request: bad field"),
        other => panic!("unexpected {other:?}"),
    }
    match gemini_http_error(400, "400 Bad Request", "plain body") {
        LlmError::InvalidRequest { message } => assert_eq!(message, "plain body"),
        other => panic!("unexpected {other:?}"),
    }
    assert!(matches!(gemini_http_error(403, "403", ""), LlmError::AuthFailed { ref provider } if provider == "google"));
    match server_http_error(500, "500 Internal Server Error", "boom", "llama_server") {
        LlmError::Internal { message } => assert_eq!(message, "HTTP 500 Internal Server Error: boom"),
        other => panic!("unexpected {other:?}"),
    }
    assert!(matches!(server_http_error(429, "429", "", "t"), LlmError::RateLimited { retry_after: None }));
    let long: String = std::iter::repeat('z').take(300).collect();
    match anthropic_http_error(418, "418", &long) {
        LlmError::Internal { message } => assert_eq!(message.len(), "HTTP 418: ".len() + 200),
        other => panic!("unexpected {other:?}"),
    }
}

#[test]
fn health_of_cloud_providers() {
    assert_eq!(anthropic_health(200), HealthVerdict::Ready);
    assert_eq!(anthropic_health(429), HealthVerdict::RateLimited);
    assert_eq!(anthropic_health(404), HealthVerdict::Failed { message: "HTTP 404".to_string(), retryable: true });
    assert_eq!(gemini_health(403, "403"), HealthVerdict::Failed { message: "invalid API key".to_string(), retryable: false });
}
