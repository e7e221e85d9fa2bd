//! Model calls against a scripted endpoint, on a clock that the test moves.
use ara::completions_chunk::{ChunkState, EMPTY_STREAM_MESSAGE, INCOMPLETE_STREAM_MESSAGE};
use ara::completions_request::{build_params, RetryPolicy, StreamOptions};
use ara::completions_run::{
    done_event, failure_events, request_headers, request_url, retry_after, retry_step, Attempt, Feed, ReadStep,
    RetryStep, StreamRun, Watch, FIRST_EVENT_TIMEOUT_MESSAGE, IDLE_TIMEOUT_MESSAGE, POST_FINISH_GRACE,
};
use ara::error::ProviderError;
use ara::event::AssistantMessageEvent;
use ara::fake_upstream::{
    body_value, exhausted_response, find_head_end, finish, frame, read_request, record, response_end, start_of,
    text_event, tool_call, usage, Frame, ResponseEnd, ScriptedEvent, ScriptedResponse,
};
use ara::json::{values_equal, Json, JsonObject};
use ara::types::{AssistantMessage, Context, Message, Model, StopReason, Tool, UserMessage};

/// 2025-01-01T00:00:00Z.
const NOW: u64 = 1_735_689_600_000;

fn value(text: &str) -> Json {
    Json::from_text(text).unwrap()
}

fn same(a: Option<&Json>, text: &str) -> bool {
    a.is_some_and(|a| values_equal(a, &value(text)))
}

fn model(base: &str) -> Model {
    Model {
        id: "fake-model".into(),
        api: "openai-completions".into(),
        provider: "fake".into(),
        base_url: base.into(),
        reasoning: false,
        max_tokens: None,
    }
}

fn ctx() -> Context {
    Context {
        system_prompt: vec!["be brief".into()],
        messages: vec![Message::User(UserMessage::text("hello"))],
        tools: Some(vec![Tool {
            name: "read".into(),
            description: "Read a file".into(),
            parameters: value(r#"{"type": "object", "properties": {"path": {"type": "string"}}}"#),
        }]),
    }
}

fn opts() -> StreamOptions {
    StreamOptions {
        api_key: Some("sk-test-secret".into()),
        retry: RetryPolicy { max_attempts: 3, base_delay: 10, max_delay: 1_000 },
        ..StreamOptions::default()
    }
}

fn events(events: Vec<ScriptedEvent>) -> ScriptedResponse {
    ScriptedResponse { status: 200, headers: JsonObject::new(), body: None, events: Some(events), end: None, delay_ms: None }
}

fn ending(list: Vec<ScriptedEvent>, end: &str) -> ScriptedResponse {
    ScriptedResponse { end: Some(end.into()), ..events(list) }
}

fn refusing(status: u16, body: &str) -> ScriptedResponse {
    ScriptedResponse {
        status,
        headers: JsonObject::new(),
        body: Some(body.into()),
        events: None,
        end: None,
        delay_ms: None,
    }
}

fn data(text: &str) -> ScriptedEvent {
    ScriptedEvent::Data(value(text))
}

/// The endpoint, the clock, and what was seen.
struct Http {
    responses: Vec<ScriptedResponse>,
    requests: Vec<Json>,
    clock: u64,
    served: usize,
    /// No request arrives.
    down: bool,
    /// The call is cancelled as soon as this text comes in.
    cancel_at: Option<String>,
    progress_at: u64,
    finished_at: Option<u64>,
}

impl Http {
    fn new(responses: Vec<ScriptedResponse>) -> Http {
        Http {
            responses,
            requests: vec![],
            clock: 0,
            served: 0,
            down: false,
            cancel_at: None,
            progress_at: 0,
            finished_at: None,
        }
    }

    fn send(&mut self, url: &str, options: &StreamOptions, body: &str) -> Result<usize, Attempt> {
        let Some(rest) = url.strip_prefix("http://") else {
            return Err(Attempt::Invalid("relative URL without a base".into()));
        };
        if self.down {
            return Err(Attempt::Unsent("connection refused".into()));
        }
        let path = &rest[rest.find('/').unwrap()..];
        let mut head = format!("POST {path} HTTP/1.1\r\ncontent-length: {}\r\n", body.len());
        for (name, told) in request_headers(options) {
            head.push_str(&format!("{name}: {told}\r\n"));
        }
        let raw = format!("{head}\r\n{body}").into_bytes();
        let end = find_head_end(&raw).unwrap();
        let request = read_request(&raw[..end].to_vec());
        assert_eq!(request.length as usize, body.len());
        self.requests.push(record(self.served as u64, &request, body_value(&raw[end..].to_vec())));
        self.served += 1;
        Ok(self.served - 1)
    }

    /// The response that is read, by its index.
    fn post(&mut self, url: &str, options: &StreamOptions, body: &str) -> Result<usize, ProviderError> {
        let mut attempt = 0;
        loop {
            let (outcome, index) = match self.send(url, options, body) {
                Err(outcome) => (outcome, 0),
                Ok(i) => {
                    let exhausted = refusing(500, "script exhausted");
                    let r = self.responses.get(i).unwrap_or(&exhausted);
                    self.clock += r.delay_ms.unwrap_or(0);
                    let header = |name: &str| match r.headers.get(name) {
                        Some(Json::String(s)) => Some(s.clone()),
                        _ => None,
                    };
                    let hint = retry_after(
                        header("retry-after-ms").as_deref(),
                        header("retry-after").as_deref(),
                        NOW + self.clock,
                    );
                    assert!(start_of(r).starts_with(&format!("HTTP/1.1 {} ", r.status)));
                    if r.status < 300 {
                        (Attempt::Success, i)
                    } else {
                        let body = r.body.clone().unwrap_or_default();
                        (Attempt::Status { status: r.status, hint, body }, i)
                    }
                }
            };
            if options.first_event_timeout.is_some_and(|limit| self.clock > limit) {
                return Err(ProviderError::Timeout(FIRST_EVENT_TIMEOUT_MESSAGE.into()));
            }
            match retry_step(&options.retry, attempt, &outcome) {
                RetryStep::Read => return Ok(index),
                RetryStep::Fail(e) => return Err(e),
                RetryStep::Wait(ms) => self.clock += ms,
            }
            attempt += 1;
        }
    }

    fn deadline(&mut self, run: &StreamRun, options: &StreamOptions) -> Option<u64> {
        match run.watch() {
            Watch::Grace => Some(*self.finished_at.get_or_insert(self.clock) + POST_FINISH_GRACE),
            Watch::FirstEvent => options.first_event_timeout,
            Watch::Idle => options.idle_timeout.map(|ms| self.progress_at + ms),
        }
    }

    fn take(&mut self, feed: Feed, out: &mut Vec<AssistantMessageEvent>) -> Result<bool, ProviderError> {
        if feed.moved {
            self.progress_at = self.clock;
        }
        for e in feed.events {
            let cancelled = matches!((&e, &self.cancel_at),
                (AssistantMessageEvent::TextDelta { delta, .. }, Some(at)) if delta == at);
            out.push(e);
            if cancelled {
                return Err(ProviderError::Aborted);
            }
        }
        match feed.step {
            ReadStep::More => Ok(true),
            ReadStep::Stop => Ok(false),
            ReadStep::Fail(e) => Err(e),
        }
    }

    fn read(
        &mut self,
        run: &mut StreamRun,
        model: &Model,
        options: &StreamOptions,
        out: &mut Vec<AssistantMessageEvent>,
    ) -> Result<(), ProviderError> {
        let url = request_url(&model.base_url)?;
        let body = build_params(model, &ctx(), options).text();
        let index = self.post(&url, options, &body)?;
        out.push(AssistantMessageEvent::Start { partial: run.state.message().clone() });
        let (frames, end): (Vec<Frame>, ResponseEnd) = {
            let r = &self.responses[index];
            (r.events.as_ref().unwrap().iter().map(frame).collect(), response_end(&r.end))
        };
        self.progress_at = self.clock;
        let mut open = true;
        for f in frames {
            match f {
                Frame::Send(s) => open = self.take(run.on_bytes(s.as_bytes()), out)?,
                Frame::Wait(ms) => {
                    let limit = self.deadline(run, options);
                    let to = self.clock + ms;
                    if let Some(at) = limit.filter(|at| *at <= to) {
                        self.clock = at;
                        match run.on_deadline() {
                            ReadStep::Fail(e) => return Err(e),
                            _ => open = false,
                        }
                    } else {
                        self.clock = to;
                    }
                }
            }
            if !open {
                break;
            }
        }
        if open {
            let last = match end {
                ResponseEnd::Close => {
                    self.take(run.on_end(), out)?;
                    ReadStep::Stop
                }
                ResponseEnd::Reset => run.on_read_error("connection reset"),
                ResponseEnd::Hang => {
                    self.clock = self.deadline(run, options).unwrap();
                    run.on_deadline()
                }
            };
            if let ReadStep::Fail(e) = last {
                return Err(e);
            }
        }
        run.state.finish(out)
    }

    fn call_with(&mut self, base: &str, options: &StreamOptions) -> (Vec<AssistantMessageEvent>, AssistantMessage) {
        let model = model(base);
        let mut run = StreamRun::new(ChunkState::new(&model));
        let mut out = vec![];
        match self.read(&mut run, &model, options, &mut out) {
            Ok(()) => out.push(done_event(run.state.message(), self.clock, None)),
            Err(e) => out.append(&mut failure_events(&mut run.state, &e, self.clock, None)),
        }
        assert_eq!(out.iter().filter(|e| e.is_terminal()).count(), 1, "exactly one terminal event");
        let message = match out.last().unwrap() {
            AssistantMessageEvent::Done { message, .. } => message.clone(),
            AssistantMessageEvent::Error { error, .. } => error.clone(),
            other => panic!("stream ended without terminal event: {other:?}"),
        };
        (out, message)
    }

    fn call(&mut self, options: &StreamOptions) -> (Vec<AssistantMessageEvent>, AssistantMessage) {
        self.call_with("http://127.0.0.1:9/v1", options)
    }
}

#[test]
fn streams_text_usage_and_records_request() {
    let mut server = Http::new(vec![events(vec![
        text_event("Hi"),
        text_event(" there"),
        finish("stop"),
        usage(12, 3),
        ScriptedEvent::Done,
    ])]);
    let (events, msg) = server.call(&opts());
    assert!(matches!(events[0], AssistantMessageEvent::Start { .. }));
    assert_eq!(msg.text(), "Hi there");
    assert_eq!(msg.stop_reason, StopReason::Stop);
    assert_eq!(msg.usage.input, Some(12));
    assert_eq!(msg.usage.output, Some(3));
    assert_eq!(msg.response_id.as_deref(), Some("fake-1"));
    assert_eq!(server.requests.len(), 1);
    let request = &server.requests[0];
    let body = request.get("body").unwrap();
    assert_eq!(request.get("request"), Some(&Json::String("POST /v1/chat/completions HTTP/1.1".into())));
    assert_eq!(body.get("model"), Some(&Json::String("fake-model".into())));
    assert_eq!(body.get("stream"), Some(&Json::Bool(true)));
    assert!(same(body.get("stream_options"), r#"{"include_usage": true}"#));
    let messages = body.get("messages").unwrap();
    assert!(same(messages.at(0), r#"{"role": "system", "content": "be brief"}"#));
    assert!(same(messages.at(1), r#"{"role": "user", "content": "hello"}"#));
    let tool = body.get("tools").unwrap().at(0).unwrap();
    assert!(same(tool.get("function").unwrap().get("name"), r#""read""#));
    match request.get("headers").unwrap().get("authorization") {
        Some(Json::String(auth)) => {
            assert!(auth.starts_with("<redacted"), "recorded auth must be redacted: {auth}")
        }
        other => panic!("{other:?}"),
    }
}

#[test]
fn retries_429_then_succeeds() {
    let mut headers = JsonObject::new();
    headers.insert("retry-after".into(), Json::String("0".into()));
    let mut server = Http::new(vec![
        ScriptedResponse { headers, ..refusing(429, r#"{"error":{"message":"slow down"}}"#) },
        refusing(503, "upstream down"),
        events(vec![text_event("ok"), finish("stop"), ScriptedEvent::Done]),
    ]);
    let (_, msg) = server.call(&opts());
    assert_eq!(msg.text(), "ok");
    assert_eq!(server.served, 3);
    assert!(msg.usage.is_unknown(), "no usage chunk means unknown usage, not zero");
}

#[test]
fn auth_failure_is_not_retried() {
    let mut server = Http::new(vec![refusing(401, r#"{"error":{"message":"bad key"}}"#)]);
    let (events, msg) = server.call(&opts());
    assert_eq!(events.len(), 1, "no start event before a failed request");
    assert_eq!(msg.stop_reason, StopReason::Error);
    assert_eq!(msg.error_status, Some(401));
    assert_eq!(msg.error_message.as_deref(), Some("401 bad key"));
    assert_eq!(server.served, 1);
}

#[test]
fn retries_exhausted_reports_last_status() {
    let mut server =
        Http::new(vec![refusing(500, "a"), refusing(500, "b"), refusing(502, r#"{"message":"gateway"}"#)]);
    let (_, msg) = server.call(&opts());
    assert_eq!(msg.error_status, Some(502));
    assert_eq!(msg.error_message.as_deref(), Some("502 gateway"));
    assert_eq!(server.served, 3);
}

#[test]
fn idle_stall_times_out_and_keepalive_does_not_reset() {
    let keep_alive = || ScriptedEvent::Raw(": keep-alive\n\n".into());
    let mut server = Http::new(vec![ending(
        vec![
            text_event("partial"),
            ScriptedEvent::Sleep(150),
            keep_alive(),
            ScriptedEvent::Sleep(150),
            data(r#"{"choices": [{"delta": {"content": ""}}]}"#),
            ScriptedEvent::Sleep(150),
            keep_alive(),
        ],
        "hang",
    )]);
    let (events, msg) = server.call(&StreamOptions { idle_timeout: Some(300), ..opts() });
    assert!(server.clock < 3_000);
    assert_eq!(msg.stop_reason, StopReason::Error);
    assert_eq!(msg.error_message.as_deref(), Some(IDLE_TIMEOUT_MESSAGE));
    assert_eq!(msg.text(), "partial", "partial output is kept on the error message");
    assert!(
        events.iter().any(|e| matches!(e, AssistantMessageEvent::TextEnd { .. })),
        "open text block closed before error"
    );
}

#[test]
fn first_event_timeout_covers_slow_headers() {
    let late = events(vec![text_event("late"), finish("stop"), ScriptedEvent::Done]);
    let mut server = Http::new(vec![ScriptedResponse { delay_ms: Some(2_000), ..late }]);
    let (_, msg) = server.call(&StreamOptions { first_event_timeout: Some(200), ..opts() });
    assert_eq!(msg.error_message.as_deref(), Some(FIRST_EVENT_TIMEOUT_MESSAGE));
}

#[test]
fn cancellation_mid_stream_aborts() {
    let mut server = Http::new(vec![ending(vec![text_event("working")], "hang")]);
    server.cancel_at = Some("working".into());
    let (_, msg) = server.call(&opts());
    assert_eq!(msg.stop_reason, StopReason::Aborted);
    assert_eq!(msg.error_message.as_deref(), Some("Request was aborted"));
    assert_eq!(msg.text(), "working");
}

#[test]
fn dropped_stream_is_incomplete() {
    let mut server = Http::new(vec![ending(vec![text_event("half")], "drop")]);
    let (_, msg) = server.call(&opts());
    assert_eq!(msg.stop_reason, StopReason::Error);
    let err = msg.error_message.unwrap();
    assert!(err == INCOMPLETE_STREAM_MESSAGE || err.starts_with("stream read failed"), "{err}");
}

#[test]
fn finish_with_usage_completes_without_done_sentinel() {
    let trailing = r#"{"choices": [], "usage": {"prompt_tokens": 5, "completion_tokens": 2,
        "prompt_tokens_details": {"cached_tokens": 1}}}"#;
    let mut server = Http::new(vec![ending(
        vec![tool_call(0, "c1", "read", r#"{"path":"a.txt"}"#), finish("tool_calls"), data(trailing)],
        "hang",
    )]);
    let (_, msg) = server.call(&opts());
    assert!(server.clock < 2_000, "usage-only trailing chunk ends the response");
    assert_eq!(msg.stop_reason, StopReason::ToolUse);
    assert_eq!(msg.tool_calls()[0].arguments.get("path"), Some(&Json::String("a.txt".into())));
}

#[test]
fn finish_without_usage_ends_after_grace() {
    let mut server = Http::new(vec![ending(vec![text_event("done"), finish("stop")], "hang")]);
    let (_, msg) = server.call(&opts());
    assert!(server.clock >= 2_400 && server.clock < 6_000, "{}", server.clock);
    assert_eq!(msg.stop_reason, StopReason::Stop);
    assert_eq!(msg.text(), "done");
}

#[test]
fn connection_refused_is_transport_error() {
    let mut server = Http::new(vec![]);
    server.down = true;
    let mut o = opts();
    o.retry.max_attempts = 2;
    let (_, msg) = server.call(&o);
    assert_eq!(msg.stop_reason, StopReason::Error);
    assert!(msg.error_message.unwrap().starts_with("request failed"));
}

#[test]
fn empty_and_non_sse_bodies_are_errors() {
    let mut server = Http::new(vec![
        events(vec![]),
        events(vec![ScriptedEvent::Raw("{\"error\":{\"message\":\"quota\"}}\n".into())]),
    ]);
    let (_, msg) = server.call(&opts());
    assert_eq!(msg.stop_reason, StopReason::Error);
    assert_eq!(msg.error_message.as_deref(), Some(EMPTY_STREAM_MESSAGE));
    let (_, msg) = server.call(&opts());
    assert_eq!(msg.error_message.as_deref(), Some(EMPTY_STREAM_MESSAGE));
}

#[test]
fn malformed_frame_is_an_error() {
    let mut server = Http::new(vec![events(vec![
        text_event("a"),
        ScriptedEvent::Raw("data: {\"choices\": [\n\n".into()),
        finish("stop"),
        ScriptedEvent::Done,
    ])]);
    let (_, msg) = server.call(&opts());
    assert_eq!(msg.stop_reason, StopReason::Error);
    assert!(msg.error_message.unwrap().starts_with("Malformed OpenAI completions stream frame"));
}

#[test]
fn builder_error_fails_fast_without_retry() {
    let mut server = Http::new(vec![]);
    let (_, msg) = server.call_with("api.example.invalid/v1", &StreamOptions::default());
    assert!(server.clock < 1_000, "{}", server.clock);
    assert!(msg.error_message.unwrap().starts_with("invalid request"));
}

#[test]
fn read_error_after_finish_keeps_completed_response() {
    let mut server = Http::new(vec![ending(vec![text_event("answer"), finish("stop"), usage(4, 2)], "drop")]);
    let (_, msg) = server.call(&opts());
    assert_eq!(msg.stop_reason, StopReason::Stop);
    assert_eq!(msg.text(), "answer");
    assert_eq!(msg.usage.output, Some(2));
}

#[test]
fn retry_after_http_date_beyond_cap_is_not_retried() {
    let mut headers = JsonObject::new();
    headers.insert("retry-after".into(), Json::String("Wed, 21 Oct 2099 07:28:00 GMT".into()));
    let mut server = Http::new(vec![
        ScriptedResponse { headers, ..refusing(429, r#"{"error":{"message":"later"}}"#) },
        events(vec![text_event("should not be reached"), finish("stop"), ScriptedEvent::Done]),
    ]);
    let (_, msg) = server.call(&opts());
    assert_eq!(msg.error_status, Some(429));
    assert_eq!(server.served, 1);
}

#[test]
fn a_script_that_is_used_up_answers_with_an_error() {
    assert!(exhausted_response().starts_with("HTTP/1.1 500 "));
}
