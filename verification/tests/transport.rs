//! The transport of a model call, and the scripted upstream.
use ara::completions_chunk::ChunkState;
use ara::completions_request::{CallOptions, RetryPolicy, StreamOptions};
use ara::completions_run::{
    done_event, failure_events, request_headers, request_url, retry_after, retry_step, Attempt, ReadStep, RetryStep,
    StreamRun, Watch, FIRST_EVENT_TIMEOUT_MESSAGE, IDLE_TIMEOUT_MESSAGE,
};
use ara::error::ProviderError;
use ara::event::AssistantMessageEvent;
use ara::fake_upstream::{
    body_value, exhausted_response, find_head_end, finish, frame, read_request, record, redact, response_end,
    start_of, text_event, tool_call, usage, Frame, ResponseEnd, ScriptedEvent, ScriptedResponse,
};
use ara::json::{values_equal, Json, JsonObject, Number};
use ara::types::{Model, StopReason, ToolChoice};

fn model() -> Model {
    Model {
        id: "m".into(),
        api: "openai-completions".into(),
        provider: "test".into(),
        base_url: "http://x/v1//".into(),
        reasoning: false,
        max_tokens: None,
    }
}

fn stream() -> StreamRun {
    StreamRun::new(ChunkState::new_at(&model(), 5))
}

fn sent(event: &ScriptedEvent) -> String {
    match frame(event) {
        Frame::Send(s) => s,
        other => panic!("{other:?}"),
    }
}

// ------------------------------------------------------------------ requests

#[test]
fn where_a_request_goes() {
    assert_eq!(request_url("http://x/v1//").unwrap(), "http://x/v1/chat/completions");
    assert!(matches!(request_url("//"), Err(ProviderError::Config(_))));
    let options = StreamOptions {
        api_key: Some("k".into()),
        extra_headers: vec![("A".into(), "b".into())],
        ..StreamOptions::default()
    };
    assert_eq!(
        request_headers(&options),
        [("Authorization".to_string(), "Bearer k".to_string()), ("A".to_string(), "b".to_string())]
    );
    assert!(request_headers(&StreamOptions { api_key: Some(String::new()), ..StreamOptions::default() }).is_empty());
}

#[test]
fn a_call_goes_before_what_is_set_for_all() {
    let base = StreamOptions {
        api_key: Some("k".into()),
        max_tokens: Some(10),
        temperature: Some(Number::PosInt(1)),
        extra_headers: vec![("A".into(), "b".into())],
        idle_timeout: None,
        ..StreamOptions::default()
    };
    let call = CallOptions { tool_choice: Some(ToolChoice::Required), max_tokens: Some(3), ..CallOptions::default() };
    let options = base.for_call(&call);
    assert!(matches!(options.tool_choice, Some(ToolChoice::Required)));
    assert_eq!((options.max_tokens, options.temperature), (Some(3), Some(Number::PosInt(1))));
    assert_eq!((options.api_key.as_deref(), options.idle_timeout), (Some("k"), None));
    assert_eq!(options.extra_headers, [("A".to_string(), "b".to_string())]);
    assert_eq!(base.for_call(&CallOptions::default()).max_tokens, Some(10));
}

#[test]
fn how_long_a_server_asks_to_wait() {
    assert_eq!(retry_after(Some(" 250.7 "), Some("9"), 0), Some(250));
    assert_eq!(retry_after(None, Some("1.5"), 0), Some(1500));
    assert_eq!(retry_after(None, Some("-3"), 0), Some(0));
    // A date two seconds ahead, and one that has passed.
    assert_eq!(retry_after(None, Some("Thu, 01 Jan 1970 00:00:10 GMT"), 8_000), Some(2_000));
    assert_eq!(retry_after(None, Some("Thu, 01 Jan 1970 00:00:10 GMT"), 20_000), Some(0));
    assert_eq!(retry_after(None, Some("soon"), 0), None);
    assert_eq!(retry_after(None, None, 0), None);
    // The whole part is that of the float, to the last digit.
    assert_eq!(retry_after(Some("144115188075855872"), None, 0), Some(144_115_188_075_855_872));
    assert_eq!(retry_after(Some("9007199254740993"), None, 0), Some(9_007_199_254_740_992));
    assert_eq!(retry_after(None, Some("144115188075855872"), 0), Some(u64::MAX));
    assert_eq!(retry_after(Some("1e300"), None, 0), Some(u64::MAX));
    assert_eq!(retry_after(Some("inf"), None, 0), Some(u64::MAX));
    assert_eq!(retry_after(Some("NaN"), None, 0), Some(0));
    assert_eq!(retry_after(Some("0.999"), None, 0), Some(0));
}

fn status(status: u16, hint: Option<u64>, body: &str) -> Attempt {
    Attempt::Status { status, hint, body: body.into() }
}

#[test]
fn when_a_request_is_repeated() {
    let policy = RetryPolicy { max_attempts: 3, base_delay: 100, max_delay: 1_000 };
    let wait = |attempt, a: Attempt| match retry_step(&policy, attempt, &a) {
        RetryStep::Wait(ms) => Some(ms),
        _ => None,
    };
    assert!(matches!(retry_step(&policy, 0, &Attempt::Success), RetryStep::Read));
    assert_eq!(wait(0, status(429, None, "")), Some(100));
    assert_eq!(wait(1, status(503, None, "")), Some(200));
    assert_eq!(wait(0, status(408, Some(7), "")), Some(7));
    assert_eq!(wait(0, Attempt::Unsent("refused".into())), Some(100));
    let fails = |attempt, a: Attempt| match retry_step(&policy, attempt, &a) {
        RetryStep::Fail(e) => e,
        _ => panic!("not a failure"),
    };
    // Another status, the last attempt, a hint that is too long, an admission that was refused.
    assert_eq!(
        fails(0, status(401, None, r#"{"error":{"message":"bad key"}}"#)),
        ProviderError::Http { status: 401, detail: "bad key".into() }
    );
    assert_eq!(fails(2, status(500, None, "")).status(), Some(500));
    assert_eq!(fails(0, status(429, Some(1_001), "")).status(), Some(429));
    assert_eq!(
        fails(0, status(429, None, r#"{"rate_limit_type":"x","max_parallel_requests":1}"#)).status(),
        Some(429)
    );
    assert_eq!(fails(2, Attempt::Unsent("refused".into())), ProviderError::Transport("request failed: refused".into()));
    assert_eq!(fails(0, Attempt::Invalid("bad".into())), ProviderError::Config("invalid request: bad".into()));
}

// ------------------------------------------------------------------ responses

#[test]
fn a_response_is_read_to_its_end() {
    let mut run = stream();
    assert_eq!(run.watch(), Watch::FirstEvent);
    let keepalive = run.on_bytes(b": keep-alive\n\n");
    assert!(!keepalive.moved && keepalive.events.is_empty());
    assert_eq!(run.watch(), Watch::FirstEvent);
    let text = run.on_bytes(sent(&text_event("hi")).as_bytes());
    assert!(text.moved && matches!(text.step, ReadStep::More));
    assert_eq!(run.watch(), Watch::Idle);
    run.on_bytes(sent(&finish("stop")).as_bytes());
    assert_eq!(run.watch(), Watch::Grace);
    let done = run.on_bytes(sent(&ScriptedEvent::Done).as_bytes());
    assert!(matches!(done.step, ReadStep::Stop));
    let mut events = vec![];
    run.state.finish(&mut events).unwrap();
    match done_event(run.state.message(), 7, Some(3)) {
        AssistantMessageEvent::Done { reason, message } => {
            assert_eq!((reason, message.text()), (StopReason::Stop, "hi".to_string()));
            assert_eq!((message.duration, message.ttft), (Some(7), Some(3)));
        }
        other => panic!("{other:?}"),
    }
}

#[test]
fn usage_after_the_finish_ends_a_response() {
    let mut run = stream();
    run.on_bytes(sent(&text_event("hi")).as_bytes());
    run.on_bytes(sent(&finish("stop")).as_bytes());
    let last = run.on_bytes(sent(&usage(10, 2)).as_bytes());
    assert!(matches!(last.step, ReadStep::Stop));
    assert_eq!(run.state.output.usage.total_tokens, Some(12));
}

#[test]
fn clocks_that_run_out() {
    let mut run = stream();
    assert!(matches!(run.on_deadline(), ReadStep::Fail(ProviderError::Timeout(m)) if m == FIRST_EVENT_TIMEOUT_MESSAGE));
    run.on_bytes(sent(&text_event("hi")).as_bytes());
    assert!(matches!(run.on_deadline(), ReadStep::Fail(ProviderError::Timeout(m)) if m == IDLE_TIMEOUT_MESSAGE));
    assert!(matches!(run.on_read_error("reset"), ReadStep::Fail(ProviderError::Transport(_))));
    run.on_bytes(sent(&finish("stop")).as_bytes());
    assert!(matches!(run.on_deadline(), ReadStep::Stop));
    assert!(matches!(run.on_read_error("reset"), ReadStep::Stop));
}

#[test]
fn frames_that_are_no_json_are_errors() {
    let mut run = stream();
    match run.on_bytes(b"data: {nope\n\n").step {
        ReadStep::Fail(ProviderError::Stream(m)) => {
            assert!(m.starts_with("Malformed OpenAI completions stream frame (") && m.ends_with("): {nope"), "{m}")
        }
        _ => panic!("not a failure"),
    }
}

#[test]
fn a_response_has_one_terminal_event() {
    let script = [text_event("hi"), tool_call(0, "c1", "read", "{}"), finish("tool_calls"), ScriptedEvent::Done];
    for cut in 0..=script.len() {
        let mut run = stream();
        let mut events = vec![];
        for e in &script[..cut] {
            events.extend(run.on_bytes(sent(e).as_bytes()).events);
        }
        match run.state.finish(&mut events) {
            Ok(()) => events.push(done_event(run.state.message(), 1, None)),
            Err(e) => events.extend(failure_events(&mut run.state, &e, 1, None)),
        }
        assert_eq!(events.iter().filter(|e| e.is_terminal()).count(), 1);
        assert!(events.last().unwrap().is_terminal());
        assert_eq!(matches!(events.last(), Some(AssistantMessageEvent::Done { .. })), cut >= 3);
    }
}

#[test]
fn a_failure_closes_what_is_open() {
    let mut run = stream();
    run.on_bytes(sent(&tool_call(0, "c1", "read", "{\"a\":")).as_bytes());
    let events = failure_events(&mut run.state, &ProviderError::Aborted, 1, None);
    let names: Vec<&str> = events.iter().map(|e| e.event_type()).collect();
    assert_eq!(names, ["toolcall_end", "error"]);
    match events.last() {
        Some(AssistantMessageEvent::Error { reason, error }) => {
            assert_eq!(*reason, StopReason::Aborted);
            assert_eq!(error.error_message.as_deref(), Some("Request was aborted"));
        }
        other => panic!("{other:?}"),
    }
}

#[test]
fn the_rest_of_the_buffer_is_read_at_the_end() {
    let mut run = stream();
    run.on_bytes(sent(&finish("stop")).trim_end().as_bytes());
    assert_eq!(run.watch(), Watch::FirstEvent);
    run.on_end();
    assert!(run.state.is_finished());
}

// ------------------------------------------------------------------ the scripted upstream

#[test]
fn requests_are_read_and_recorded_without_secrets() {
    let raw = b"POST /v1 HTTP/1.1\r\nAuthorization:  Bearer abc \r\nContent-Length: 7\r\nX: y:z\r\n\r\n{\"a\":1}".to_vec();
    let end = find_head_end(&raw).unwrap();
    assert_eq!(&raw[end..], b"{\"a\":1}");
    assert_eq!(find_head_end(&b"POST / HTTP/1.1\r\n".to_vec()), None);
    let request = read_request(&raw[..end].to_vec());
    assert_eq!((request.line.as_str(), request.length), ("POST /v1 HTTP/1.1", 7));
    let headers = Json::Object(redact(&request.headers));
    assert!(values_equal(
        &headers,
        &Json::from_text(r#"{"authorization": "<redacted 10 chars>", "content-length": "7", "x": "y:z"}"#).unwrap()
    ));
    let entry = record(3, &request, body_value(&raw[end..].to_vec()));
    assert!(values_equal(entry.get("body").unwrap(), &Json::from_text(r#"{"a": 1}"#).unwrap()));
    assert_eq!(entry.get("request"), Some(&Json::String("POST /v1 HTTP/1.1".into())));
    assert_eq!(body_value(&b"no json".to_vec()), Json::String("no json".into()));
    assert_eq!(body_value(&b"\"\xff\"".to_vec()), Json::String("\"\u{fffd}\"".into()));
}

#[test]
fn responses_are_sent_as_scripted() {
    let mut headers = JsonObject::new();
    headers.insert("retry-after".into(), Json::String("0".into()));
    let plain = ScriptedResponse {
        status: 429,
        headers,
        body: Some("né".into()),
        events: None,
        end: None,
        delay_ms: None,
    };
    assert_eq!(
        start_of(&plain),
        "HTTP/1.1 429 Scripted\r\nconnection: close\r\nretry-after: 0\r\ncontent-type: application/json\r\ncontent-length: 3\r\n\r\nné"
    );
    let events = ScriptedResponse {
        status: 200,
        headers: JsonObject::new(),
        body: None,
        events: Some(vec![ScriptedEvent::Sleep(5)]),
        end: Some("hang".into()),
        delay_ms: None,
    };
    assert!(start_of(&events).ends_with("content-type: text/event-stream\r\ncache-control: no-cache\r\n\r\n"));
    assert_eq!(frame(&ScriptedEvent::Sleep(5)), Frame::Wait(5));
    assert_eq!(frame(&ScriptedEvent::Raw(": x\n\n".into())), Frame::Send(": x\n\n".into()));
    assert_eq!(response_end(&events.end), ResponseEnd::Hang);
    assert_eq!(response_end(&Some("drop".into())), ResponseEnd::Reset);
    assert_eq!(response_end(&None), ResponseEnd::Close);
    assert!(exhausted_response().contains("content-length: 54\r\n"));
}
