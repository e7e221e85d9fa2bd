//! Runs of the agent, driven by a host that does everything at once.
use ara::agent_event::{AgentEvent, ToolOutput};
use ara::agent_loop::{
    check_continue, retain_completed_tool_calls, unpaired_tool_call_tail, AgentRun, Clock, Phase, RunEnd, RunStep,
    StreamNext, UnpairedTail,
};
use ara::agent_tool::{
    blocked, coerce, events_of_answer, next_batch, outcome, prepare_call, progress, refusal, started, answer_at, synthetic_tool_result,
    Concurrency, Prepared, ToolDecision, ToolError, ToolOutcome,
};
use ara::event::AssistantMessageEvent;
use ara::json::{parse_final_arguments, values_equal, Json, JsonObject};
use ara::types::{
    AssistantBlock, AssistantMessage, Context, Message, StopReason, Tool, ToolCall, ToolResultMessage, UserBlock,
    UserMessage,
};

fn value(text: &str) -> Json {
    Json::from_text(text).unwrap()
}

fn object(text: &str) -> JsonObject {
    match value(text) {
        Json::Object(o) => o,
        other => panic!("{other:?}"),
    }
}

fn call_block(id: &str, name: &str, args: &str) -> ToolCall {
    ToolCall { id: id.into(), name: name.into(), arguments: object(args), thought_signature: None }
}

fn empty() -> AssistantMessage {
    AssistantMessage::empty("openai-completions", "test", "scripted")
}

/// A whole assistant turn.
fn reply(text: &str, calls: &[(&str, &str, &str)], stop: StopReason) -> Vec<StreamNext> {
    let mut msg = empty();
    let mut out = vec![AssistantMessageEvent::Start { partial: msg.clone() }];
    if !text.is_empty() {
        msg.content.push(AssistantBlock::text(""));
        out.push(AssistantMessageEvent::TextStart { content_index: 0, partial: msg.clone() });
        msg.content[0] = AssistantBlock::text(text);
        out.push(AssistantMessageEvent::TextDelta {
            content_index: 0,
            delta: text.into(),
            partial: msg.clone(),
        });
        out.push(AssistantMessageEvent::TextEnd { content_index: 0, content: text.into(), partial: msg.clone() });
    }
    for (id, name, args) in calls {
        let tool_call = call_block(id, name, args);
        msg.content.push(AssistantBlock::ToolCall(tool_call.clone()));
        let content_index = msg.content.len() - 1;
        out.push(AssistantMessageEvent::ToolcallStart { content_index, partial: msg.clone() });
        out.push(AssistantMessageEvent::ToolcallEnd { content_index, tool_call, partial: msg.clone() });
    }
    msg.stop_reason = stop;
    out.push(AssistantMessageEvent::Done { reason: stop, message: msg });
    out.into_iter().map(StreamNext::Event).collect()
}

/// Text, one complete call and one that is not, and no end.
fn hang_after_partial() -> Vec<StreamNext> {
    let mut msg = empty();
    let mut out = vec![AssistantMessageEvent::Start { partial: msg.clone() }];
    msg.content.push(AssistantBlock::text("thinking out loud"));
    out.push(AssistantMessageEvent::TextDelta {
        content_index: 0,
        delta: "thinking out loud".into(),
        partial: msg.clone(),
    });
    let tool_call = call_block("done-1", "echo", r#"{"text": "a"}"#);
    msg.content.push(AssistantBlock::ToolCall(tool_call.clone()));
    out.push(AssistantMessageEvent::ToolcallEnd { content_index: 1, tool_call, partial: msg.clone() });
    msg.content.push(AssistantBlock::ToolCall(call_block("partial-2", "echo", r#"{"te": null}"#)));
    out.push(AssistantMessageEvent::ToolcallStart { content_index: 2, partial: msg.clone() });
    out.into_iter().map(StreamNext::Event).collect()
}

fn echo_tool() -> Tool {
    Tool {
        name: "echo".into(),
        description: "Echo text".into(),
        parameters: value(
            r#"{"type": "object", "properties": {"text": {"type": "string"}}, "required": ["text"], "additionalProperties": false}"#,
        ),
    }
}

struct Host {
    turns: Vec<Vec<StreamNext>>,
    contexts: Vec<Context>,
    tools: Vec<Tool>,
    block: bool,
    steering: Vec<Message>,
    follow_up: Vec<Message>,
    log: Vec<String>,
    events: Vec<AgentEvent>,
    clock: Clock,
    /// The run is cancelled while a tool runs.
    cancel_in_tool: bool,
}

fn host(turns: Vec<Vec<StreamNext>>) -> Host {
    Host {
        turns,
        contexts: vec![],
        tools: vec![echo_tool()],
        block: false,
        steering: vec![],
        follow_up: vec![],
        log: vec![],
        events: vec![],
        clock: Clock { deadline_passed: false, deadline_fired: false, cancelled: false, now: 1 },
        cancel_in_tool: false,
    }
}

impl Host {
    fn execute(&mut self, p: &Prepared) -> ToolOutcome {
        if p.call.name == "boom" {
            return ToolOutcome::Panicked("kaboom".into());
        }
        let id = &p.call.id;
        let text = match p.args.get("text") {
            Some(Json::String(s)) => s.clone(),
            _ => String::new(),
        };
        self.log.push(format!("start:{id}"));
        self.events.push(progress(p, ToolOutput::text(&format!("partial {text}"))));
        if self.cancel_in_tool {
            self.clock.cancelled = true;
            self.log.push(format!("cancelled:{id}"));
            return ToolOutcome::Failed(ToolError("echo cancelled".into()));
        }
        self.log.push(format!("end:{id}"));
        if text == "fail" {
            return ToolOutcome::Returned(ToolOutput { content: vec![], details: None, is_error: true });
        }
        ToolOutcome::Returned(ToolOutput::text(&format!("echo: {text}")).with_details(value("{}")))
    }

    fn run_calls(&mut self, message: &AssistantMessage, concurrency: Concurrency) -> Vec<ToolResultMessage> {
        let mut calls = vec![];
        for call in message.tool_calls() {
            let p = prepare_call(call, &self.tools);
            let decision =
                if self.block { ToolDecision::Block(Some("denied by host policy".into())) } else { ToolDecision::Allow };
            calls.push(if p.needs_decision(self.clock.cancelled) { p.decide(concurrency, decision) } else { p });
        }
        let mut results = vec![];
        let mut from = 0;
        while from < calls.len() {
            let to = next_batch(&calls, from);
            for p in &calls[from..to] {
                let aborted = if self.clock.cancelled { Some("Request was aborted") } else { None };
                self.events.push(started(p));
                let out = match refusal(p, aborted) {
                    Some(out) => out,
                    None => match blocked(p) {
                        Some(out) => out,
                        None => {
                            let ended = self.execute(p);
                            outcome(&p.call.name, ended)
                        }
                    },
                };
                self.events.extend(events_of_answer(&p.call, &out, self.clock.now));
                results.push(answer_at(&p.call, &out, self.clock.now));
            }
            from = to;
        }
        results
    }

    fn drive(&mut self, run: &mut AgentRun) -> RunEnd {
        let mut stream: Option<Vec<StreamNext>> = None;
        let mut turn = run.begin(self.clock);
        loop {
            self.events.append(&mut turn.events);
            turn = match turn.step {
                RunStep::AskSteering => {
                    let messages = std::mem::take(&mut self.steering);
                    if run.phase == Phase::FirstSteering {
                        run.first_steering(messages, self.clock)
                    } else {
                        run.steering(messages, self.clock)
                    }
                }
                RunStep::CallModel => {
                    let mut rest = stream.take().unwrap_or_else(|| {
                        if self.clock.cancelled {
                            return vec![];
                        }
                        self.contexts.push(run.request(&vec!["sys".into()], &self.tools));
                        if self.turns.is_empty() { vec![StreamNext::Closed] } else { self.turns.remove(0) }
                    });
                    if rest.is_empty() {
                        self.clock.cancelled = true;
                        rest.push(StreamNext::Aborted("Request was aborted".into()));
                    }
                    let next = rest.remove(0);
                    let last = match &next {
                        StreamNext::Event(e) => e.is_terminal(),
                        _ => true,
                    };
                    if !last {
                        stream = Some(rest);
                    }
                    run.stream(next, self.clock)
                }
                RunStep::RunTools => {
                    let message = run.turn.clone().unwrap();
                    let results = self.run_calls(&message, Concurrency::Shared);
                    run.tools_done(results, self.clock)
                }
                RunStep::AskLate => {
                    let mut messages = std::mem::take(&mut self.steering);
                    messages.append(&mut self.follow_up);
                    run.late(messages, self.clock)
                }
                RunStep::Check => run.check(self.clock),
                RunStep::Finished(end) => return end,
            };
        }
    }

    fn types(&self) -> Vec<String> {
        self.events
            .iter()
            .map(|e| {
                let role = match e {
                    AgentEvent::MessageStart { message } | AgentEvent::MessageEnd { message } => {
                        format!(":{}", message.role())
                    }
                    _ => String::new(),
                };
                format!("{}{role}", e.event_type())
            })
            .filter(|t| t != "message_update")
            .collect()
    }
}

fn user(text: &str) -> Message {
    Message::User(UserMessage::text(text))
}

fn new_run(prompts: Vec<Message>, context: Vec<Message>, max: Option<u64>) -> AgentRun {
    AgentRun::new(prompts, context, "openai-completions".into(), "test".into(), "scripted".into(), max)
}

fn result_text(m: &Message) -> String {
    match m {
        Message::ToolResult(r) => r
            .content
            .iter()
            .map(|b| match b {
                UserBlock::Text(t) => t.text.clone(),
                _ => String::new(),
            })
            .collect(),
        _ => panic!("not a tool result: {m:?}"),
    }
}

fn roles(messages: &[Message]) -> Vec<&'static str> {
    messages.iter().map(|m| m.role()).collect()
}

#[test]
fn simple_prompt_event_sequence() {
    let mut h = host(vec![reply("Hello!", &[], StopReason::Stop)]);
    let mut run = new_run(vec![user("hi")], vec![], None);
    assert_eq!(h.drive(&mut run), RunEnd::Completed);
    assert_eq!(
        h.types(),
        vec![
            "agent_start",
            "turn_start",
            "message_start:user",
            "message_end:user",
            "message_start:assistant",
            "message_end:assistant",
            "turn_end",
            "agent_end",
        ]
    );
    assert_eq!(run.new_messages.len(), 2);
    assert_eq!(run.context.len(), 2);
    assert_eq!(h.contexts[0].system_prompt, vec!["sys".to_string()]);
    let updates = h.events.iter().filter(|e| matches!(e, AgentEvent::MessageUpdate { .. })).count();
    assert_eq!(updates, 3, "text_start/delta/end streamed as message_update");
}

#[test]
fn tool_call_turn_executes_and_continues() {
    let mut h = host(vec![
        reply("", &[("c1", "echo", r#"{"text": "one"}"#)], StopReason::ToolUse),
        reply("done", &[], StopReason::Stop),
    ]);
    let mut run = new_run(vec![user("go")], vec![], None);
    h.drive(&mut run);
    assert_eq!(
        h.types(),
        vec![
            "agent_start",
            "turn_start",
            "message_start:user",
            "message_end:user",
            "message_start:assistant",
            "message_end:assistant",
            "tool_execution_start",
            "tool_execution_update",
            "tool_execution_end",
            "message_start:toolResult",
            "message_end:toolResult",
            "turn_end",
            "turn_start",
            "message_start:assistant",
            "message_end:assistant",
            "turn_end",
            "agent_end",
        ]
    );
    assert_eq!(roles(&run.new_messages), vec!["user", "assistant", "toolResult", "assistant"]);
    assert_eq!(result_text(&run.new_messages[2]), "echo: one");
    assert_eq!(h.log, vec!["start:c1", "end:c1"]);
    // Second model call sees the tool result.
    assert_eq!(h.contexts[1].messages.last().unwrap().role(), "toolResult");
}

#[test]
fn validation_unknown_tool_blocked_and_empty_error() {
    let mut h = host(vec![
        reply(
            "",
            &[
                ("bad", "echo", r#"{"txt": "x"}"#),
                ("missing", "nope", "{}"),
                ("fail", "echo", r#"{"text": "fail"}"#),
            ],
            StopReason::ToolUse,
        ),
        reply("ok", &[], StopReason::Stop),
    ]);
    let mut run = new_run(vec![user("go")], vec![], None);
    h.drive(&mut run);
    let text_of = |id: &str| {
        run.new_messages
            .iter()
            .find(|m| matches!(m, Message::ToolResult(r) if r.tool_call_id == id))
            .map(result_text)
            .unwrap()
    };
    assert!(text_of("bad").starts_with("Validation failed for tool \"echo\":\n  - text: is required"));
    assert_eq!(text_of("missing"), "Tool nope not found");
    assert_eq!(text_of("fail"), "Tool failed with no output.");
    assert_eq!(h.log, vec!["start:fail", "end:fail"], "invalid calls never execute");

    let mut h = host(vec![
        reply("", &[("c", "echo", r#"{"text": "x"}"#)], StopReason::ToolUse),
        reply("ok", &[], StopReason::Stop),
    ]);
    h.block = true;
    let mut run = new_run(vec![user("go")], vec![], None);
    h.drive(&mut run);
    assert_eq!(result_text(&run.new_messages[2]), "denied by host policy");
    assert!(h.log.is_empty(), "blocked call has no effect");
}

#[test]
fn provider_error_pairs_completed_calls_with_synthetic_results() {
    let mut msg = empty();
    let mut events = vec![AssistantMessageEvent::Start { partial: msg.clone() }];
    let tool_call = call_block("c-err", "echo", r#"{"text": "x"}"#);
    msg.content.push(AssistantBlock::ToolCall(tool_call.clone()));
    events.push(AssistantMessageEvent::ToolcallEnd { content_index: 0, tool_call, partial: msg.clone() });
    msg.stop_reason = StopReason::Error;
    msg.error_message = Some("503 overloaded".into());
    events.push(AssistantMessageEvent::Error { reason: StopReason::Error, error: msg });
    let mut h = host(vec![events.into_iter().map(StreamNext::Event).collect()]);
    let mut run = new_run(vec![user("go")], vec![], None);
    assert_eq!(h.drive(&mut run), RunEnd::Error);
    let new = &run.new_messages;
    assert_eq!(new.len(), 3);
    assert_eq!(new[1].as_assistant().unwrap().stop_reason, StopReason::Error);
    assert_eq!(
        result_text(&new[2]),
        "Tool call was not executed because the provider stream ended with an error before the tool could run: 503 overloaded"
    );
    match &new[2] {
        Message::ToolResult(r) => assert_eq!(
            r.details.as_ref().unwrap().get("source"),
            Some(&Json::String("assistant_stop_error".into()))
        ),
        _ => unreachable!(),
    }
    assert!(h.log.is_empty());
    assert_eq!(h.types().last().unwrap(), "agent_end");
}

#[test]
fn abort_during_stream_keeps_only_completed_calls() {
    let mut h = host(vec![hang_after_partial()]);
    let mut run = new_run(vec![user("go")], vec![], None);
    assert_eq!(h.drive(&mut run), RunEnd::Aborted);
    let assistant = run.new_messages[1].as_assistant().unwrap();
    assert_eq!(assistant.stop_reason, StopReason::Aborted);
    assert_eq!(assistant.error_message.as_deref(), Some("Request was aborted"));
    let ids: Vec<&str> = assistant.tool_calls().iter().map(|c| c.id.as_str()).collect();
    assert_eq!(ids, vec!["done-1"], "unfinished tool call dropped");
    assert_eq!(
        assistant.stop_details.as_ref().unwrap().get("type"),
        Some(&Json::String("stream_interrupted_after_content".into()))
    );
    assert_eq!(result_text(&run.new_messages[2]), "Tool execution was aborted: Request was aborted");
    assert!(h.log.is_empty(), "aborted turn never executes tools");
    assert_eq!(run.context.len(), 3);
}

#[test]
fn abort_during_tool_execution_stops_before_next_model_call() {
    let mut h = host(vec![
        reply("", &[("slow", "echo", r#"{"text": "x"}"#)], StopReason::ToolUse),
        reply("never", &[], StopReason::Stop),
    ]);
    h.cancel_in_tool = true;
    let mut run = new_run(vec![user("go")], vec![], None);
    assert_eq!(h.drive(&mut run), RunEnd::Aborted);
    assert_eq!(h.log, vec!["start:slow", "cancelled:slow"]);
    assert_eq!(result_text(&run.new_messages[2]), "echo cancelled");
    let last = run.new_messages.last().unwrap().as_assistant().unwrap();
    assert_eq!(last.stop_reason, StopReason::Aborted);
    assert_eq!(h.contexts.len(), 1, "no second provider call after abort");
}

#[test]
fn length_stop_pairs_calls_and_resamples() {
    let mut h = host(vec![
        reply("", &[("big", "echo", r#"{"text": "x"}"#)], StopReason::Length),
        reply("smaller now", &[], StopReason::Stop),
    ]);
    let mut run = new_run(vec![user("go")], vec![], None);
    h.drive(&mut run);
    assert!(
        result_text(&run.new_messages[2])
            .starts_with("Tool call was not executed because the assistant hit its output token limit")
    );
    assert!(h.log.is_empty());
    assert_eq!(run.new_messages.last().unwrap().as_assistant().unwrap().text(), "smaller now");
    assert_eq!(h.contexts.len(), 2);
}

#[test]
fn panicking_tool_becomes_error_result() {
    let mut h = host(vec![
        reply("", &[("p", "boom", "{}"), ("e", "echo", r#"{"text": "fine"}"#)], StopReason::ToolUse),
        reply("ok", &[], StopReason::Stop),
    ]);
    h.tools.push(Tool {
        name: "boom".into(),
        description: String::new(),
        parameters: value(r#"{"type": "object"}"#),
    });
    let mut run = new_run(vec![user("go")], vec![], None);
    h.drive(&mut run);
    let texts: Vec<String> =
        run.new_messages.iter().filter(|m| m.role() == "toolResult").map(result_text).collect();
    assert!(texts.contains(&"Tool boom panicked: kaboom".to_string()), "{texts:?}");
    assert!(texts.contains(&"echo: fine".to_string()));
    assert_eq!(h.log, vec!["start:e", "end:e"]);
    assert_eq!(run.new_messages.last().unwrap().as_assistant().unwrap().text(), "ok");
}

#[test]
fn approval_hook_observes_abort() {
    let mut h = host(vec![]);
    h.clock.cancelled = true;
    let mut msg = empty();
    msg.content.push(AssistantBlock::ToolCall(call_block("a", "echo", r#"{"text": "x"}"#)));
    msg.content.push(AssistantBlock::ToolCall(call_block("b", "echo", r#"{"text": "y"}"#)));
    let results = h.run_calls(&msg, Concurrency::Shared);
    assert!(h.log.is_empty());
    let texts: Vec<String> = results.into_iter().map(|r| result_text(&Message::ToolResult(r))).collect();
    assert_eq!(texts, vec!["Tool was not executed because the run was aborted: Request was aborted."; 2]);
}

#[test]
fn parse_error_args_are_trimmed_in_events() {
    let mut msg = empty();
    msg.stop_reason = StopReason::ToolUse;
    msg.content.push(AssistantBlock::ToolCall(ToolCall {
        id: "w".into(),
        name: "echo".into(),
        arguments: parse_final_arguments(&format!("{{\"text\": \"{}", "x".repeat(10_000))),
        thought_signature: None,
    }));
    let mut h = host(vec![]);
    let results = h.run_calls(&msg, Concurrency::Shared);
    assert!(results[0].is_error);
    let AgentEvent::ToolExecutionStart { args, .. } = &h.events[0] else { panic!() };
    assert_eq!(args.entries.iter().map(|(k, _)| k.as_str()).collect::<Vec<_>>(), vec!["__parseError"]);
}

#[test]
fn retain_completed_falls_back_to_error_message_for_null_explanation() {
    let mut m = AssistantMessage::empty("a", "p", "m");
    m.stop_reason = StopReason::Error;
    m.error_message = Some("socket closed".into());
    m.stop_details = Some(value(r#"{"type": "x", "explanation": null}"#));
    m.content.push(AssistantBlock::ToolCall(call_block("dropped", "echo", "{}")));
    let out = retain_completed_tool_calls(m, &vec![]);
    assert!(values_equal(
        &out.stop_details.unwrap(),
        &value(r#"{"type": "stream_interrupted_after_content", "category": "x", "explanation": "socket closed"}"#)
    ));
    assert!(out.content.is_empty());
}

#[test]
fn steering_and_follow_up_messages() {
    let mut h = host(vec![
        reply("", &[("c1", "echo", r#"{"text": "x"}"#)], StopReason::ToolUse),
        reply("after steer", &[], StopReason::Stop),
        reply("after follow-up", &[], StopReason::Stop),
    ]);
    h.follow_up.push(user("follow up"));
    // Steering queued before the run starts is injected in the first turn.
    h.steering.push(user("steer"));
    let mut run = new_run(vec![user("go")], vec![], None);
    h.drive(&mut run);
    let told: Vec<String> = run
        .new_messages
        .iter()
        .map(|m| match m {
            Message::User(u) => format!("user:{}", u.content.plain_text()),
            o => o.role().into(),
        })
        .collect();
    assert_eq!(
        told,
        vec!["user:go", "user:steer", "assistant", "toolResult", "assistant", "user:follow up", "assistant"]
    );
    assert_eq!(h.contexts.len(), 3);
}

#[test]
fn continue_rules_and_unpaired_tail_resume() {
    let err = check_continue(&vec![], UnpairedTail::Execute).unwrap_err();
    assert_eq!(err.message(), "Cannot continue: no messages in context");
    let mut done = AssistantMessage::empty("a", "p", "m");
    done.content.push(AssistantBlock::text("fin"));
    let err = check_continue(&vec![user("q"), Message::Assistant(done)], UnpairedTail::Execute).unwrap_err();
    assert_eq!(err.message(), "Cannot continue from message role: assistant");

    let mut tail = AssistantMessage::empty("a", "p", "m");
    tail.stop_reason = StopReason::ToolUse;
    tail.content.push(AssistantBlock::ToolCall(call_block("again", "echo", r#"{"text": "r"}"#)));
    let ctx = vec![user("q"), Message::Assistant(tail)];
    assert!(unpaired_tool_call_tail(&ctx).is_some());
    let err = check_continue(&ctx, UnpairedTail::Refuse).unwrap_err();
    assert!(err.message().contains("effects are unknown"), "{}", err.message());
    check_continue(&ctx, UnpairedTail::Execute).unwrap();
    let mut h = host(vec![reply("resumed", &[], StopReason::Stop)]);
    let mut run = new_run(vec![], ctx, None);
    h.drive(&mut run);
    assert_eq!(h.log, vec!["start:again", "end:again"], "explicit continue re-executes the unpaired tail");
    assert_eq!(roles(&run.new_messages), vec!["toolResult", "assistant"]);
}

#[test]
fn budgets_and_deadlines_end_a_run() {
    let calls = || {
        vec![
            reply("", &[("c1", "echo", r#"{"text": "x"}"#)], StopReason::ToolUse),
            reply("never", &[], StopReason::Stop),
        ]
    };
    let mut h = host(calls());
    let mut run = new_run(vec![user("go")], vec![], Some(1));
    assert_eq!(h.drive(&mut run), RunEnd::ModelCallBudget);
    assert_eq!(h.contexts.len(), 1);
    let mut h = host(calls());
    h.clock.deadline_passed = true;
    let mut run = new_run(vec![user("go")], vec![], None);
    assert_eq!(h.drive(&mut run), RunEnd::Deadline);
    assert!(h.contexts.is_empty());
    assert_eq!(h.types().last().unwrap(), "agent_end");
    let report = run.report(RunEnd::Deadline);
    assert_eq!((report.messages.len(), report.end), (1, RunEnd::Deadline));
}

#[test]
fn streams_that_just_end_are_errors() {
    let mut h = host(vec![vec![StreamNext::Closed]]);
    let mut run = new_run(vec![user("go")], vec![], None);
    assert_eq!(h.drive(&mut run), RunEnd::Error);
    assert_eq!(
        run.new_messages[1].as_assistant().unwrap().error_message.as_deref(),
        Some("Provider stream ended without a terminal event")
    );
}

#[test]
fn exclusive_calls_are_alone_in_their_batch() {
    let tools = vec![echo_tool()];
    let call = |id: &str, c| {
        prepare_call(&call_block(id, "echo", r#"{"text": "x"}"#), &tools).decide(c, ToolDecision::Allow)
    };
    let calls = vec![
        call("a", Concurrency::Shared),
        call("b", Concurrency::Shared),
        call("c", Concurrency::Exclusive),
        call("d", Concurrency::Shared),
    ];
    assert_eq!((next_batch(&calls, 0), next_batch(&calls, 2), next_batch(&calls, 3)), (2, 3, 4));
}

#[test]
fn failures_that_are_passed_on_say_something() {
    let quiet = coerce(ToolOutput { content: vec![UserBlock::text("  ")], details: None, is_error: true });
    assert_eq!(quiet.content, vec![UserBlock::text("Tool failed with no output.")]);
    let fine = coerce(ToolOutput { content: vec![], details: None, is_error: false });
    assert!(fine.content.is_empty());
}

#[test]
fn calls_that_did_not_run_are_answered() {
    let call = call_block("c1", "echo", "{}");
    let failed = synthetic_tool_result(&call, "error", Some("boom"));
    assert_eq!((failed.tool_call_id.as_str(), failed.tool_name.as_str(), failed.is_error), ("c1", "echo", true));
    assert_eq!(
        failed.content,
        [UserBlock::text(
            "Tool call was not executed because the provider stream ended with an error before the tool could run: boom"
        )]
    );
    assert!(values_equal(
        failed.details.as_ref().unwrap(),
        &value(
            r#"{"__synthetic": true, "source": "assistant_stop_error", "executed": false, "upstreamError": "boom"}"#
        )
    ));
    let aborted = synthetic_tool_result(&call, "aborted", None);
    assert_eq!(aborted.content, [UserBlock::text("Tool execution was aborted.")]);
    let block = AssistantBlock::ToolCall(call.clone());
    assert_eq!(block.as_tool_call(), Some(&call));
}
