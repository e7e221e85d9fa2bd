//! Messages, the wire format of the provider and its stream.
use ara::codec::{read_message, write_message, write_usage};
use ara::completions_chunk::{
    is_progress_chunk, map_stop_reason, parse_chunk_usage, ChunkFlow, ChunkState, EMPTY_STREAM_MESSAGE,
    INCOMPLETE_STREAM_MESSAGE,
};
use ara::completions_request::{build_params, StreamOptions, API};
use ara::error::{parse_error_envelope, ProviderError};
use ara::event::AssistantMessageEvent;
use ara::json::{
    complete_partial_json, json_kind, parse_final_arguments, parse_streaming_json, values_equal, Json, JsonObject,
};
use ara::sse::{SseDecoder, SseEvent};
use ara::transform::transform_messages;
use ara::types::{
    AssistantBlock, AssistantMessage, Context, Message, Model, StopReason, ThinkingContent, Tool, ToolCall, ToolChoice,
    ToolResultMessage, Usage, UserBlock, UserContent, UserMessage,
};
use ara::validation::validate_tool_arguments;

fn value(text: &str) -> Json {
    Json::from_text(text).unwrap()
}

fn object(text: &str) -> JsonObject {
    match value(text) {
        Json::Object(o) => o,
        other => panic!("{other:?}"),
    }
}

fn same(a: &Json, b: &str) -> bool {
    values_equal(a, &value(b))
}

fn same_object(a: JsonObject, b: &str) -> bool {
    same(&Json::Object(a), b)
}

// ------------------------------------------------------------------ errors

#[test]
fn envelope_variants() {
    assert_eq!(parse_error_envelope(r#"{"error":{"message":"bad key","code":401}}"#), "bad key");
    assert_eq!(parse_error_envelope(r#"{"error":"nope"}"#), "nope");
    assert_eq!(parse_error_envelope(r#"{"message":"flat"}"#), "flat");
    assert_eq!(parse_error_envelope("plain text"), "plain text");
    assert_eq!(parse_error_envelope(""), "(empty response body)");
}

#[test]
fn classification() {
    let e = ProviderError::Http { status: 429, detail: "slow down".into() };
    assert_eq!(e.message(), "429 slow down");
    assert!(e.is_retryable());
    assert!(!ProviderError::Http { status: 401, detail: String::new() }.is_retryable());
    assert_eq!(ProviderError::Aborted.stop_reason(), StopReason::Aborted);
    assert_eq!(ProviderError::Aborted.message(), "Request was aborted");
}

// ------------------------------------------------------------------ arguments

#[test]
fn repairs_truncated_buffers_for_display() {
    assert!(same_object(parse_streaming_json(r#"{"path": "a/b"#), r#"{"path": "a/b"}"#));
    assert!(same_object(parse_streaming_json(r#"{"a": 1, "b": ["x","#), r#"{"a": 1, "b": ["x"]}"#));
    assert!(same_object(parse_streaming_json(r#"{"a":"#), r#"{"a": null}"#));
    assert!(same_object(parse_streaming_json(""), "{}"));
    assert!(same_object(parse_streaming_json("not json"), "{}"));
}

#[test]
fn final_arguments_are_strict() {
    assert!(same_object(parse_final_arguments(r#"{"a":1}"#), r#"{"a": 1}"#));
    let bad = parse_final_arguments(r#"{"a":1"#);
    assert!(bad.contains_key("__parseError"));
    assert_eq!(bad.get("__rawJson"), Some(&Json::String(r#"{"a":1"#.into())));
    assert!(parse_final_arguments("[1]").contains_key("__parseError"));
    assert!(parse_final_arguments("  ").is_empty());
}

#[test]
fn truncated_text_is_closed() {
    assert_eq!(complete_partial_json(r#"{"a": ["x"#), r#"{"a": ["x"]}"#);
    assert_eq!(json_kind(&value("[1]")), "array");
    assert_eq!(json_kind(&value("null")), "null");
}

#[test]
fn numbers_keep_their_text() {
    assert_eq!(value(r#"{"b":1.50,"a":-3,"c":1e2}"#).text(), r#"{"b":1.5,"a":-3,"c":100.0}"#);
    assert!(values_equal(&value(r#"{"a":1,"b":2}"#), &value(r#"{"b":2,"a":1}"#)));
    assert!(Json::from_text("{").is_err());
}

// ------------------------------------------------------------------ chunks

fn model() -> Model {
    Model {
        id: "m".into(),
        api: API.into(),
        provider: "test".into(),
        base_url: "http://x".into(),
        reasoning: false,
        max_tokens: None,
    }
}

fn run_chunks(chunks: &[&str], done: bool) -> (ChunkState, Vec<AssistantMessageEvent>, Result<(), ProviderError>) {
    let mut state = ChunkState::new(&model());
    let mut events = Vec::new();
    for c in chunks {
        match state.handle_chunk(&value(c), &mut events) {
            Ok(ChunkFlow::Break) => break,
            Ok(ChunkFlow::Continue) => {}
            Err(e) => return (state, events, Err(e)),
        }
    }
    state.saw_done = done;
    let r = state.finish(&mut events);
    (state, events, r)
}

fn names(events: &[AssistantMessageEvent]) -> Vec<&'static str> {
    events.iter().map(|e| e.event_type()).collect()
}

#[test]
fn text_reasoning_and_usage() {
    let chunks = [
        r#"{"id": "r1", "provider": "Up", "choices": [{"delta": {"reasoning_content": "think"}}]}"#,
        r#"{"id": "r1", "choices": [{"delta": {"content": "Hel"}}]}"#,
        r#"{"id": "r1", "choices": [{"delta": {"content": "lo"}, "finish_reason": "stop"}]}"#,
        r#"{"id": "r1", "choices": [], "usage": {"prompt_tokens": 10, "completion_tokens": 5, "prompt_tokens_details": {"cached_tokens": 4}}}"#,
    ];
    let (state, events, r) = run_chunks(&chunks, false);
    r.unwrap();
    assert_eq!(
        names(&events),
        vec!["thinking_start", "thinking_delta", "thinking_end", "text_start", "text_delta", "text_delta", "text_end"]
    );
    let out = &state.output;
    assert_eq!(out.text(), "Hello");
    assert_eq!(out.response_id.as_deref(), Some("r1"));
    assert_eq!(out.upstream_provider.as_deref(), Some("Up"));
    assert_eq!(out.stop_reason, StopReason::Stop);
    assert_eq!(out.usage.input, Some(6));
    assert_eq!(out.usage.cache_read, Some(4));
    assert_eq!(out.usage.total_tokens, Some(15));
    match &out.content[0] {
        AssistantBlock::Thinking(t) => assert_eq!(t.thinking_signature.as_deref(), Some("reasoning_content")),
        other => panic!("{other:?}"),
    }
}

#[test]
fn indexed_tool_calls_and_stop_promotion() {
    let chunks = [
        r#"{"choices": [{"delta": {"tool_calls": [{"index": 0, "id": "c1", "function": {"name": "read", "arguments": "{\"pa"}}]}}]}"#,
        r#"{"choices": [{"delta": {"tool_calls": [{"index": 1, "id": "c2", "function": {"name": "bash", "arguments": "{}"}}]}}]}"#,
        r#"{"choices": [{"delta": {"tool_calls": [{"index": 0, "function": {"arguments": "th\":\"a\"}"}}]}}]}"#,
        r#"{"choices": [{"delta": {}, "finish_reason": "stop"}]}"#,
    ];
    let (state, events, r) = run_chunks(&chunks, true);
    r.unwrap();
    assert_eq!(state.output.stop_reason, StopReason::ToolUse);
    let calls = state.output.tool_calls();
    assert_eq!(calls.len(), 2);
    assert!(same_object(calls[0].arguments.clone(), r#"{"path": "a"}"#));
    assert_eq!(calls[1].name, "bash");
    assert_eq!(names(&events).iter().filter(|n| **n == "toolcall_end").count(), 2);
    assert!(state.output.usage.is_unknown());
}

#[test]
fn premature_close_is_incomplete_but_done_sentinel_completes() {
    let chunks = [r#"{"choices": [{"delta": {"content": "partial"}}]}"#];
    let (_, _, r) = run_chunks(&chunks, false);
    assert_eq!(r.unwrap_err(), ProviderError::Incomplete(INCOMPLETE_STREAM_MESSAGE.into()));
    let (state, _, r) = run_chunks(&chunks, true);
    r.unwrap();
    assert_eq!(state.output.stop_reason, StopReason::Stop);
}

#[test]
fn error_envelopes_and_finish_reasons() {
    let (_, _, r) = run_chunks(&[r#"{"error": {"message": "overloaded", "code": 503}}"#], false);
    assert_eq!(r.unwrap_err(), ProviderError::Http { status: 503, detail: "overloaded".into() });
    let (_, _, r) = run_chunks(&[r#"{"error": {"message": "rl", "type": "too_many_requests"}}"#], false);
    assert_eq!(r.unwrap_err().status(), Some(429));
    let (_, _, r) =
        run_chunks(&[r#"{"choices": [{"delta": {"content": "x"}, "finish_reason": "content_filter"}]}"#], false);
    assert_eq!(r.unwrap_err(), ProviderError::Stream("Provider finish_reason: content_filter".into()));
    assert_eq!(map_stop_reason(Some("MAX_TOKENS")).0, StopReason::Length);
    assert_eq!(map_stop_reason(None).0, StopReason::Stop);
    assert_eq!(map_stop_reason(Some("weird")).1.as_deref(), Some("Provider finish_reason: weird"));
}

#[test]
fn invalid_final_arguments_are_marked() {
    let chunks = [
        r#"{"choices": [{"delta": {"tool_calls": [{"index": 0, "id": "c1", "function": {"name": "write", "arguments": "{\"a\":"}}]}}]}"#,
        r#"{"choices": [{"finish_reason": "tool_calls", "delta": {}}]}"#,
    ];
    let (state, _, r) = run_chunks(&chunks, true);
    r.unwrap();
    assert!(state.output.tool_calls()[0].arguments.contains_key("__parseError"));
}

#[test]
fn empty_finish_reason_is_not_a_finish() {
    let chunks = [
        r#"{"choices": [{"delta": {"content": "a"}, "finish_reason": ""}]}"#,
        r#"{"choices": [{"delta": {"content": "b"}, "finish_reason": null}]}"#,
        r#"{"choices": [{"delta": {}, "finish_reason": "stop"}]}"#,
    ];
    let (state, _, r) = run_chunks(&chunks, true);
    r.unwrap();
    assert_eq!(state.output.text(), "ab");
}

#[test]
fn unreported_usage_buckets_stay_unknown() {
    let u = parse_chunk_usage(&value(r#"{"prompt_tokens": 12, "completion_tokens": 3}"#));
    assert_eq!((u.input, u.output, u.total_tokens), (Some(12), Some(3), Some(15)));
    assert_eq!((u.cache_read, u.cache_write), (None, None));
    let u = parse_chunk_usage(&value(r#"{"completion_tokens": 3}"#));
    assert_eq!((u.input, u.output, u.total_tokens), (None, Some(3), None));
    assert!(parse_chunk_usage(&value("{}")).is_unknown());
}

#[test]
fn stream_without_any_frame_is_an_error() {
    let (_, _, r) = run_chunks(&[], false);
    assert_eq!(r.unwrap_err(), ProviderError::Incomplete(EMPTY_STREAM_MESSAGE.into()));
    let (state, _, r) = run_chunks(&[], true);
    r.unwrap();
    assert!(state.output.content.is_empty(), "[DONE] alone is an agreed empty completion");
}

#[test]
fn keepalive_chunks_are_not_progress() {
    assert!(!is_progress_chunk(&value(r#"{"choices": [{"delta": {"content": ""}}]}"#)));
    assert!(!is_progress_chunk(&value(r#"{"choices": []}"#)));
    assert!(is_progress_chunk(&value(r#"{"choices": [{"delta": {"content": "a"}}]}"#)));
    assert!(is_progress_chunk(&value(r#"{"usage": {"prompt_tokens": 1}}"#)));
}

// ------------------------------------------------------------------ requests

#[test]
fn request_shape() {
    let mut assistant = AssistantMessage::empty(API, "test", "m");
    assistant.stop_reason = StopReason::ToolUse;
    assistant.content = vec![
        AssistantBlock::Thinking(ThinkingContent { thinking: "hidden".into(), thinking_signature: None }),
        AssistantBlock::ToolCall(ToolCall {
            id: "c1".into(),
            name: "read".into(),
            arguments: object(r#"{"path": "a"}"#),
            thought_signature: None,
        }),
    ];
    let context = Context {
        system_prompt: vec!["sys one".into(), "sys two".into()],
        messages: vec![
            Message::User(UserMessage::text("hi")),
            Message::Assistant(assistant),
            Message::ToolResult(ToolResultMessage {
                tool_call_id: "c1".into(),
                tool_name: "read".into(),
                content: vec![UserBlock::text("body")],
                details: None,
                is_error: false,
                timestamp: 2,
            }),
        ],
        tools: Some(vec![Tool {
            name: "read".into(),
            description: "Read".into(),
            parameters: value(r#"{"type": "object"}"#),
        }]),
    };
    let opts = StreamOptions {
        tool_choice: Some(ToolChoice::Tool("missing".into())),
        max_tokens: Some(64),
        ..Default::default()
    };
    let params = build_params(&model(), &context, &opts);
    assert!(same(params.get("stream").unwrap(), "true"));
    assert!(same(params.get("stream_options").unwrap(), r#"{"include_usage": true}"#));
    assert!(same(params.get("max_tokens").unwrap(), "64"));
    assert!(params.get("tool_choice").is_none(), "forced choice for an absent tool is dropped");
    let msgs = params.get("messages").unwrap();
    assert!(same(msgs.at(0).unwrap(), r#"{"role": "system", "content": "sys one"}"#));
    assert!(same(msgs.at(1).unwrap(), r#"{"role": "system", "content": "sys two"}"#));
    assert!(same(msgs.at(2).unwrap(), r#"{"role": "user", "content": "hi"}"#));
    assert!(same(
        msgs.at(3).unwrap(),
        r#"{"role": "assistant", "content": "", "tool_calls": [{"id": "c1", "type": "function", "function": {"name": "read", "arguments": "{\"path\":\"a\"}"}}]}"#
    ));
    assert!(same(msgs.at(4).unwrap(), r#"{"role": "tool", "content": "body", "tool_call_id": "c1"}"#));
    let tool = params.get("tools").unwrap().at(0).unwrap();
    assert!(same(tool.get("function").unwrap().get("name").unwrap(), "\"read\""));
}

#[test]
fn tools_sentinel_when_unspecified_with_tool_history() {
    let mut assistant = AssistantMessage::empty(API, "test", "m");
    assistant.content.push(AssistantBlock::ToolCall(ToolCall {
        id: "c".into(),
        name: "x".into(),
        arguments: JsonObject::new(),
        thought_signature: None,
    }));
    let context = Context { system_prompt: vec![], messages: vec![Message::Assistant(assistant)], tools: None };
    let params = build_params(&model(), &context, &StreamOptions::default());
    assert!(same(params.get("tools").unwrap(), "[]"));
    let context = Context { tools: Some(vec![]), ..context };
    assert!(build_params(&model(), &context, &StreamOptions::default()).get("tools").is_none());
}

// ------------------------------------------------------------------ server-sent events

#[test]
fn splits_across_chunks_and_line_endings() {
    let mut d = SseDecoder::new();
    assert!(d.feed(b"data: {\"a\"").is_empty());
    let evs = d.feed(b":1}\r\n\r\n: comment\n\ndata: x\rdata: y\r\r");
    // A trailing bare CR may be the first half of CRLF, so the second event waits.
    assert_eq!(evs, vec![SseEvent { event: None, data: "{\"a\":1}".into() }]);
    let evs = d.feed(b"event: e\ndata: [DONE]");
    assert_eq!(evs, vec![SseEvent { event: None, data: "x\ny".into() }]);
    assert_eq!(d.finish(), Some(SseEvent { event: Some("e".into()), data: "[DONE]".into() }));
}

#[test]
fn utf8_split_is_reassembled() {
    let text = "data: 你好\n\n".as_bytes();
    let mut d = SseDecoder::new();
    assert!(d.feed(&text[..8]).is_empty());
    assert_eq!(d.feed(&text[8..])[0].data, "你好");
}

#[test]
fn invalid_bytes_are_replaced() {
    let mut d = SseDecoder::new();
    assert_eq!(d.feed(b"data: a\xffb\n\n")[0].data, "a\u{fffd}b");
    assert_eq!(d.finish(), None);
}

#[test]
fn cuts_do_not_matter() {
    let bytes = b"event: a\r\ndata: 1\r\n\r\ndata: 2\n\n: c\ndata: 3\r\r".to_vec();
    let mut whole = SseDecoder::new();
    let mut all = whole.feed(&bytes);
    all.extend(whole.finish());
    let mut cut = SseDecoder::new();
    let mut parts = Vec::new();
    for b in &bytes {
        parts.extend(cut.feed(&[*b]));
    }
    parts.extend(cut.finish());
    assert_eq!(parts, all);
    assert_eq!(all.len(), 3);
}

// ------------------------------------------------------------------ the transcript

fn assistant(calls: &[&str], stop: StopReason) -> Message {
    let mut m = AssistantMessage::empty("a", "p", "m");
    m.stop_reason = stop;
    for id in calls {
        m.content.push(AssistantBlock::ToolCall(ToolCall {
            id: id.to_string(),
            name: "read".into(),
            arguments: JsonObject::new(),
            thought_signature: None,
        }));
    }
    Message::Assistant(m)
}

fn result(id: &str) -> Message {
    Message::ToolResult(ToolResultMessage {
        tool_call_id: id.into(),
        tool_name: "read".into(),
        content: vec![UserBlock::text("ok")],
        details: None,
        is_error: false,
        timestamp: 1,
    })
}

fn texts(msgs: &[Message]) -> Vec<String> {
    msgs.iter()
        .map(|m| match m {
            Message::ToolResult(r) => format!(
                "result:{}:{}",
                r.tool_call_id,
                match &r.content[0] {
                    UserBlock::Text(t) => t.text.clone(),
                    _ => String::new(),
                }
            ),
            Message::User(u) => format!("user:{}", u.content.plain_text()),
            other => other.role().to_string(),
        })
        .collect()
}

#[test]
fn missing_results_are_synthesized_and_duplicates_dropped() {
    let msgs = vec![
        assistant(&["a", "b"], StopReason::ToolUse),
        result("a"),
        result("a"),
        Message::User(UserMessage::text("next")),
    ];
    assert_eq!(
        texts(&transform_messages(&msgs)),
        vec!["assistant", "result:a:ok", "result:b:No result provided", "user:next"]
    );
}

#[test]
fn aborted_turn_gets_aborted_placeholders() {
    let msgs = vec![assistant(&["a"], StopReason::Aborted), Message::User(UserMessage::text("again"))];
    assert_eq!(texts(&transform_messages(&msgs)), vec!["assistant", "result:a:aborted", "user:again"]);
}

#[test]
fn orphan_result_becomes_stale_note() {
    let msgs = vec![Message::User(UserMessage::text("q")), result("gone")];
    let out = texts(&transform_messages(&msgs));
    assert_eq!(out[1], "user:<stale-tool-result tool=\"read\" id=\"gone\">\nok\n</stale-tool-result>");
}

#[test]
fn truncated_empty_assistant_is_dropped() {
    let msgs = vec![Message::User(UserMessage::text("q")), assistant(&[], StopReason::Error)];
    assert_eq!(texts(&transform_messages(&msgs)), vec!["user:q"]);
}

#[test]
fn a_reused_call_id_is_answered_in_each_turn() {
    let user = |t: &str| Message::User(UserMessage::text(t));
    let msgs = vec![
        assistant(&["a"], StopReason::ToolUse),
        result("a"),
        user("one"),
        assistant(&["a"], StopReason::ToolUse),
        user("two"),
    ];
    assert_eq!(
        texts(&transform_messages(&msgs)),
        vec!["assistant", "result:a:ok", "user:one", "assistant", "result:a:No result provided", "user:two"]
    );
}

#[test]
fn calls_that_share_an_id_share_a_result() {
    let msgs = vec![assistant(&["a", "a"], StopReason::ToolUse), Message::User(UserMessage::text("next"))];
    assert_eq!(texts(&transform_messages(&msgs)), vec!["assistant", "result:a:No result provided", "user:next"]);
    let msgs = vec![assistant(&["a", "a"], StopReason::ToolUse), result("a"), result("a")];
    assert_eq!(texts(&transform_messages(&msgs)), vec!["assistant", "result:a:ok"]);
}

#[test]
fn repairing_once_is_enough() {
    let user = |t: &str| Message::User(UserMessage::text(t));
    let msgs = vec![
        result("gone"),
        assistant(&["a", "b"], StopReason::ToolUse),
        user("early"),
        result("b"),
        assistant(&["a", "a"], StopReason::Aborted),
        result("a"),
        result("a"),
        assistant(&[], StopReason::Error),
        user("last"),
    ];
    let once = transform_messages(&msgs);
    assert_ne!(texts(&once), texts(&msgs));
    assert_eq!(transform_messages(&once), once);
}

// ------------------------------------------------------------------ messages as JSON

#[test]
fn message_json_shape_matches_omp() {
    let raw = value(
        r#"{
        "role": "assistant",
        "content": [
            {"type": "text", "text": "hi"},
            {"type": "toolCall", "id": "call_1", "name": "read", "arguments": {"path": "a.txt"}}
        ],
        "api": "openai-completions",
        "provider": "openrouter",
        "model": "m",
        "usage": {"input": 3, "output": 4, "cacheRead": 0, "cacheWrite": 0, "totalTokens": 7},
        "stopReason": "toolUse",
        "timestamp": 1
    }"#,
    );
    let msg = read_message(&raw).unwrap();
    let assistant = msg.as_assistant().unwrap();
    assert_eq!(assistant.stop_reason, StopReason::ToolUse);
    assert_eq!(assistant.tool_calls().len(), 1);
    assert!(values_equal(&write_message(&msg), &raw));
}

#[test]
fn unknown_usage_is_not_zero() {
    let usage = Usage::unknown();
    assert!(usage.is_unknown());
    assert!(same(&write_usage(&usage), "{}"));
}

#[test]
fn user_content_accepts_string_and_blocks() {
    let a = read_message(&value(r#"{"role": "user", "content": "x", "timestamp": 1}"#)).unwrap();
    match a {
        Message::User(u) => assert_eq!(u.content, UserContent::Text("x".into())),
        other => panic!("{other:?}"),
    }
    let b = read_message(&value(r#"{"role": "user", "content": [{"type": "text", "text": "y"}], "timestamp": 1}"#))
        .unwrap();
    match b {
        Message::User(u) => assert_eq!(u.content.plain_text(), "y"),
        other => panic!("{other:?}"),
    }
}

#[test]
fn written_messages_read_back() {
    for m in [assistant(&["a"], StopReason::ToolUse), result("a"), Message::User(UserMessage::text("q"))] {
        assert_eq!(read_message(&write_message(&m)), Some(m));
    }
    assert_eq!(read_message(&value(r#"{"role": "nobody"}"#)), None);
}

// ------------------------------------------------------------------ validation

fn tool(params: &str) -> Tool {
    Tool { name: "t".into(), description: String::new(), parameters: value(params) }
}

#[test]
fn accepts_valid_and_strips_optional_nulls() {
    let t = tool(
        r#"{"type": "object", "properties": {"path": {"type": "string"}, "limit": {"type": "number"}}, "required": ["path"]}"#,
    );
    let out = validate_tool_arguments(&t, "read", &object(r#"{"path": "a", "limit": null}"#)).unwrap();
    assert!(same_object(out, r#"{"path": "a"}"#));
}

#[test]
fn coerces_numeric_and_boolean_strings() {
    let t = tool(r#"{"type": "object", "properties": {"n": {"type": "integer"}, "b": {"type": "boolean"}}}"#);
    let out = validate_tool_arguments(&t, "x", &object(r#"{"n": "42", "b": "true"}"#)).unwrap();
    assert!(same_object(out, r#"{"n": 42, "b": true}"#));
}

#[test]
fn reports_missing_required_in_upstream_format() {
    let t = tool(
        r#"{"type": "object", "properties": {"path": {"type": "string"}}, "required": ["path"], "additionalProperties": false}"#,
    );
    let err = validate_tool_arguments(&t, "read", &object(r#"{"file": "a"}"#)).unwrap_err();
    assert!(err.starts_with("Validation failed for tool \"read\":\n"), "{err}");
    assert!(err.contains("  - path: is required"), "{err}");
    assert!(err.contains("  - file: is not an allowed property"), "{err}");
    assert!(err.contains("Received arguments:\n{\n  \"file\": \"a\"\n}"), "{err}");
}

#[test]
fn reports_parse_errors() {
    let t = tool(r#"{"type": "object"}"#);
    let args = parse_final_arguments("{\"a\":");
    let err = validate_tool_arguments(&t, "write", &args).unwrap_err();
    assert!(
        err.starts_with("Validation failed for tool \"write\": Tool call arguments are not valid JSON.\nParse Error: "),
        "{err}"
    );
    assert!(err.ends_with("Raw JSON:\n{\"a\":"), "{err}");
}

#[test]
fn type_mismatch_without_coercion_fails() {
    let t = tool(r#"{"type": "object", "properties": {"n": {"type": "integer"}}}"#);
    let err = validate_tool_arguments(&t, "x", &object(r#"{"n": "abc"}"#)).unwrap_err();
    assert!(err.contains("  - n: must be integer (was string)"), "{err}");
}

#[test]
fn numbers_are_held_to_their_bounds() {
    let t = tool(r#"{"type": "object", "properties": {"n": {"type": "number", "minimum": 1.5, "maximum": 2.25}}}"#);
    assert!(validate_tool_arguments(&t, "x", &object(r#"{"n": 1.5}"#)).is_ok());
    assert!(validate_tool_arguments(&t, "x", &object(r#"{"n": 2.25}"#)).is_ok());
    assert!(validate_tool_arguments(&t, "x", &object(r#"{"n": 1.25}"#)).is_err());
    assert!(validate_tool_arguments(&t, "x", &object(r#"{"n": 2.5}"#)).is_err());
    let out = validate_tool_arguments(&t, "x", &object(r#"{"n": "1.75"}"#)).unwrap();
    assert!(same_object(out, r#"{"n": 1.75}"#));
}

#[test]
fn accepted_arguments_are_accepted_again() {
    let t = tool(
        r#"{"type": "object", "properties": {"n": {"type": "integer"}, "o": {"type": "object", "properties": {"x": {"type": "number"}}}, "p": {"type": "string"}}}"#,
    );
    let args = object(r#"{"n": "42", "o": "{\"x\": null, \"y\": 1}", "p": null, "q": "kept"}"#);
    let once = validate_tool_arguments(&t, "x", &args).unwrap();
    let twice = validate_tool_arguments(&t, "x", &once).unwrap();
    assert!(same_object(once, r#"{"n": 42, "o": {"y": 1}, "q": "kept"}"#));
    assert!(same_object(twice, r#"{"n": 42, "o": {"y": 1}, "q": "kept"}"#));
}

// ------------------------------------------------------------------ members without names

#[test]
fn messages_are_read_without_names() {
    let read = |t: &str| read_message(&value(t));
    let named = read(r#"{"role": "user", "content": [{"type": "text", "text": "x"}], "timestamp": 7}"#).unwrap();
    assert_eq!(read(r#"["user", [["text", "x"]], null, 7]"#), Some(named.clone()));
    assert_eq!(read(r#"["user", [{"type": 0, "text": "x"}], null, 7]"#), Some(named.clone()));
    assert_eq!(read(r#"["user", [[0, "x", null]], null, 7]"#), Some(named));
    // Too many, too few, and a place where only the name will do.
    assert_eq!(read(r#"["user", "x", null, 7, 8]"#), None);
    assert_eq!(read(r#"["user", "x", null]"#), None);
    assert_eq!(read(r#"[0, "x", null, 7]"#), None);
    assert_eq!(read(r#"["user", [[2, "x"]], null, 7]"#), None);
    assert_eq!(read("[]"), None);
}

#[test]
fn assistant_messages_are_read_without_names() {
    let named = read_message(&value(
        r#"{"role": "assistant", "content": [
            {"type": "redactedThinking", "data": "d"},
            {"type": "toolCall", "id": "c", "name": "n", "arguments": {"a": 1}}],
            "api": "a", "provider": "p", "model": "m",
            "usage": {"input": 1, "cost": {"input": 1, "output": 2, "cacheRead": 3, "cacheWrite": 4, "total": 10}},
            "stopReason": "toolUse", "timestamp": 5}"#,
    ))
    .unwrap();
    let bare = r#"["assistant", [["redactedThinking", "d"], [4, "c", "n", {"a": 1}]], "a", "p", "m", null, null,
        [1, null, null, null, null, null, [1, 2, 3, 4, 10]], {"toolUse": null}, null, null, null, 5]"#;
    assert_eq!(read_message(&value(bare)), Some(named.clone()));
    assert_eq!(read_message(&value(&bare.replace(r#"{"toolUse": null}"#, r#"{"toolUse": {}}"#))), Some(named));
    assert_eq!(read_message(&value(&bare.replace(r#"{"toolUse": null}"#, r#"{"toolUse": 1}"#))), None);
    assert_eq!(read_message(&value(&bare.replace("[1, 2, 3, 4, 10]", "[1, 2, 3, 4]"))), None);
}
