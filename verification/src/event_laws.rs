//! What is printed of the events of a response and of a run.
use crate::agent_event;
use crate::agent_event::{AgentEventView, ToolOutputView};
use crate::codec;
use crate::event;
use crate::event::AssistantMessageEventView;
use crate::json;
use crate::json::{JsonView, NumberView};
use crate::types;
use crate::types::{StopReason, ToolCallView};
use vstd::prelude::*;

verus! {

/// A text member.
pub open spec fn says(v: JsonView, name: Seq<char>, s: Seq<char>) -> bool {
    json::member(v, name) == Some(JsonView::String(s))
}

/// The index of the block that an event is about.
pub open spec fn points_at(v: JsonView, i: usize) -> bool {
    json::member(v, "contentIndex"@) == Some(JsonView::Number(NumberView::PosInt(i as u64)))
}

/// An event is printed under its name, with the block that it is about and with what it brings:
/// the text that was added, the whole text at its end, the call, or the reason to stop.
pub proof fn law_what_is_printed_of_a_response(e: AssistantMessageEventView)
    ensures
        ({
            let v = event::printed(e);
            match e {
                AssistantMessageEventView::Start { .. } => says(v, "type"@, "start"@),
                AssistantMessageEventView::TextStart { content_index, .. } => says(
                    v,
                    "type"@,
                    "text_start"@,
                ) && points_at(v, content_index),
                AssistantMessageEventView::TextDelta { content_index, delta, .. } => says(
                    v,
                    "type"@,
                    "text_delta"@,
                ) && points_at(v, content_index) && says(v, "delta"@, delta),
                AssistantMessageEventView::TextEnd { content_index, content, .. } => says(
                    v,
                    "type"@,
                    "text_end"@,
                ) && points_at(v, content_index) && says(v, "content"@, content),
                AssistantMessageEventView::ThinkingStart { content_index, .. } => says(
                    v,
                    "type"@,
                    "thinking_start"@,
                ) && points_at(v, content_index),
                AssistantMessageEventView::ThinkingDelta { content_index, delta, .. } => says(
                    v,
                    "type"@,
                    "thinking_delta"@,
                ) && points_at(v, content_index) && says(v, "delta"@, delta),
                AssistantMessageEventView::ThinkingEnd { content_index, content, .. } => says(
                    v,
                    "type"@,
                    "thinking_end"@,
                ) && points_at(v, content_index) && says(v, "content"@, content),
                AssistantMessageEventView::ToolcallStart { content_index, .. } => says(
                    v,
                    "type"@,
                    "toolcall_start"@,
                ) && points_at(v, content_index),
                AssistantMessageEventView::ToolcallDelta { content_index, delta, .. } => says(
                    v,
                    "type"@,
                    "toolcall_delta"@,
                ) && points_at(v, content_index) && says(v, "delta"@, delta),
                AssistantMessageEventView::ToolcallEnd { content_index, tool_call, .. } => says(
                    v,
                    "type"@,
                    "toolcall_end"@,
                ) && points_at(v, content_index) && json::member(v, "toolCall"@) == Some(
                    event::tool_call_json(tool_call),
                ),
                AssistantMessageEventView::Done { reason, .. } => says(v, "type"@, "done"@) && says(
                    v,
                    "reason"@,
                    types::stop_name(reason),
                ),
                AssistantMessageEventView::Error { reason, .. } => says(v, "type"@, "error"@)
                    && says(v, "reason"@, types::stop_name(reason)),
            }
        }),
{
    lemma_names();
    reveal_with_fuel(json::find_key, 4);
}

proof fn lemma_names()
    ensures
        "type"@.len() == 4,
        "contentIndex"@.len() == 12,
        "delta"@.len() == 5,
        "content"@.len() == 7,
        "toolCall"@.len() == 8,
        "reason"@.len() == 6,
{
    reveal_strlit("type");
    reveal_strlit("contentIndex");
    reveal_strlit("delta");
    reveal_strlit("content");
    reveal_strlit("toolCall");
    reveal_strlit("reason");
}

/// A call is printed with its id, its name and its arguments.
pub proof fn law_what_is_printed_of_a_call(c: ToolCallView)
    ensures
        ({
            let v = event::tool_call_json(c);
            &&& says(v, "id"@, c.id) && says(v, "name"@, c.name)
            &&& json::member(v, "arguments"@) == Some(JsonView::Object(c.arguments))
            &&& c.thought_signature matches Some(s) ==> says(v, "thoughtSignature"@, s)
            &&& c.thought_signature is None ==> json::member(v, "thoughtSignature"@) is None
        }),
{
    reveal_strlit("id");
    reveal_strlit("name");
    reveal_strlit("arguments");
    reveal_strlit("thoughtSignature");
    assert("id"@.len() == 2 && "name"@.len() == 4 && "arguments"@.len() == 9);
    assert("thoughtSignature"@.len() == 16);
    reveal_with_fuel(json::find_key, 6);
}

/// The reasons to stop go by these names, and no two of them share one.
pub proof fn law_what_reasons_are_called(a: StopReason, b: StopReason)
    ensures
        types::stop_name(StopReason::Stop) == "stop"@,
        types::stop_name(StopReason::Length) == "length"@,
        types::stop_name(StopReason::ToolUse) == "toolUse"@,
        types::stop_name(StopReason::Error) == "error"@,
        types::stop_name(StopReason::Aborted) == "aborted"@,
        types::stop_name(a) == types::stop_name(b) ==> a == b,
{
    reveal_strlit("stop");
    reveal_strlit("length");
    reveal_strlit("toolUse");
    reveal_strlit("error");
    reveal_strlit("aborted");
    assert("stop"@.len() == 4 && "length"@.len() == 6 && "toolUse"@.len() == 7);
    assert("error"@.len() == 5 && "aborted"@.len() == 7);
    assert("toolUse"@[0] == 't' && "aborted"@[0] == 'a');
}

/// The snapshot of an event is the message that it carries.
pub proof fn law_which_snapshot_an_event_carries(e: AssistantMessageEventView)
    ensures
        match e {
            AssistantMessageEventView::Done { message, .. } => event::snapshot_of(e) == message,
            AssistantMessageEventView::Error { error, .. } => event::snapshot_of(e) == error,
            AssistantMessageEventView::Start { partial } => event::snapshot_of(e) == partial,
            AssistantMessageEventView::TextDelta { partial, .. } => event::snapshot_of(e)
                == partial,
            AssistantMessageEventView::ThinkingDelta { partial, .. } => event::snapshot_of(e)
                == partial,
            AssistantMessageEventView::ToolcallDelta { partial, .. } => event::snapshot_of(e)
                == partial,
            _ => true,
        },
        event::ends_stream(e) <==> e is Done || e is Error,
{
}

/// The messages of a run are printed whole, those of a call under its id and its name; an update
/// prints only what was added.
pub proof fn law_what_is_printed_of_a_run(e: AgentEventView)
    ensures
        ({
            let v = agent_event::agent_printed(e);
            match e {
                AgentEventView::AgentStart => says(v, "type"@, "agent_start"@),
                AgentEventView::TurnStart => says(v, "type"@, "turn_start"@),
                AgentEventView::AgentEnd { messages } => says(v, "type"@, "agent_end"@)
                    && json::member(v, "messages"@) == Some(
                    JsonView::Array(
                        Seq::new(messages.len(), |i: int| codec::message_json(messages[i])),
                    ),
                ),
                AgentEventView::TurnEnd { message, tool_results } => says(v, "type"@, "turn_end"@)
                    && json::member(v, "message"@) == Some(codec::message_json(message)) && (
                json::member(v, "toolResults"@) matches Some(JsonView::Array(r)) && r.len()
                    == tool_results.len()),
                AgentEventView::MessageStart { message } => says(v, "type"@, "message_start"@)
                    && json::member(v, "message"@) == Some(codec::message_json(message)),
                AgentEventView::MessageEnd { message } => says(v, "type"@, "message_end"@)
                    && json::member(v, "message"@) == Some(codec::message_json(message)),
                AgentEventView::MessageUpdate { event: inner, .. } => says(
                    v,
                    "type"@,
                    "message_update"@,
                ) && json::member(v, "assistantMessageEvent"@) == Some(event::printed(inner))
                    && json::member(v, "message"@) is None,
                AgentEventView::ToolExecutionStart { tool_call_id, tool_name, args } => says(
                    v,
                    "type"@,
                    "tool_execution_start"@,
                ) && says(v, "toolCallId"@, tool_call_id) && says(v, "toolName"@, tool_name)
                    && json::member(v, "args"@) == Some(JsonView::Object(args)),
                AgentEventView::ToolExecutionUpdate { tool_call_id, tool_name, partial } => says(
                    v,
                    "type"@,
                    "tool_execution_update"@,
                ) && says(v, "toolCallId"@, tool_call_id) && says(v, "toolName"@, tool_name)
                    && json::member(v, "partialResult"@) == Some(
                    agent_event::output_json(partial),
                ),
                AgentEventView::ToolExecutionEnd { tool_call_id, tool_name, result, is_error } =>
                    says(v, "type"@, "tool_execution_end"@) && says(v, "toolCallId"@, tool_call_id)
                        && says(v, "toolName"@, tool_name) && json::member(v, "result"@) == Some(
                        agent_event::output_json(result),
                    ) && json::member(v, "isError"@) == Some(JsonView::Bool(is_error)),
            }
        }),
{
    reveal_strlit("type");
    reveal_strlit("messages");
    reveal_strlit("message");
    reveal_strlit("toolResults");
    reveal_strlit("assistantMessageEvent");
    reveal_strlit("toolCallId");
    reveal_strlit("toolName");
    reveal_strlit("args");
    reveal_strlit("partialResult");
    reveal_strlit("result");
    reveal_strlit("isError");
    assert("type"@.len() == 4 && "messages"@.len() == 8 && "message"@.len() == 7);
    assert("toolResults"@.len() == 11 && "assistantMessageEvent"@.len() == 21);
    assert("toolCallId"@.len() == 10 && "toolName"@.len() == 8 && "args"@.len() == 4);
    assert("args"@[0] == 'a' && "type"@[0] == 't');
    assert("partialResult"@.len() == 13 && "result"@.len() == 6 && "isError"@.len() == 7);
    reveal_with_fuel(json::find_key, 7);
    match e {
        AgentEventView::AgentEnd { messages } => {
            assert(agent_event::messages_json(messages)->Array_0 =~= Seq::new(
                messages.len(),
                |i: int| codec::message_json(messages[i]),
            ));
        },
        _ => {},
    }
}

/// An output is printed with its content, its details where there are any, and that it is a
/// failure where it is one.
pub proof fn law_what_is_printed_of_an_output(out: ToolOutputView)
    ensures
        ({
            let v = agent_event::output_json(out);
            &&& json::member(v, "content"@) == Some(codec::user_blocks_json(out.content))
            &&& out.details matches Some(d) ==> json::member(v, "details"@) == Some(d)
            &&& out.details is None ==> json::member(v, "details"@) is None
            &&& out.is_error ==> json::member(v, "isError"@) == Some(JsonView::Bool(true))
            &&& !out.is_error ==> json::member(v, "isError"@) is None
        }),
{
    reveal_strlit("content");
    reveal_strlit("details");
    reveal_strlit("isError");
    assert("content"@[0] == 'c' && "details"@[0] == 'd' && "isError"@[0] == 'i');
    reveal_with_fuel(json::find_key, 5);
}

} // verus!
