//! The stream protocol of an assistant message.
//!
//! A provider stream emits `start`, then the events of its blocks, then exactly one terminal
//! `done` or `error` event that carries the final message. `partial` is the provider's current
//! snapshot of the message.
use crate::json;
use crate::json::{object_1, object_2, object_3, Json, JsonObject, JsonView};
use crate::types;
use crate::types::{
    AssistantMessage, AssistantMessageView, StopReason, ToolCall, ToolCallView,
};
use vstd::prelude::*;

verus! {

/// One step of an assistant message.
#[derive(Debug, PartialEq)]
pub enum AssistantMessageEvent {
    Start { partial: AssistantMessage },
    TextStart { content_index: usize, partial: AssistantMessage },
    TextDelta { content_index: usize, delta: String, partial: AssistantMessage },
    TextEnd { content_index: usize, content: String, partial: AssistantMessage },
    ThinkingStart { content_index: usize, partial: AssistantMessage },
    ThinkingDelta { content_index: usize, delta: String, partial: AssistantMessage },
    ThinkingEnd { content_index: usize, content: String, partial: AssistantMessage },
    ToolcallStart { content_index: usize, partial: AssistantMessage },
    ToolcallDelta { content_index: usize, delta: String, partial: AssistantMessage },
    ToolcallEnd { content_index: usize, tool_call: ToolCall, partial: AssistantMessage },
    /// `reason` is `stop`, `length` or `toolUse`.
    Done { reason: StopReason, message: AssistantMessage },
    /// `reason` is `error` or `aborted`.
    Error { reason: StopReason, error: AssistantMessage },
}

/// What a [`AssistantMessageEvent`] stands for.
#[verifier::ext_equal]
pub enum AssistantMessageEventView {
    Start { partial: AssistantMessageView },
    TextStart { content_index: usize, partial: AssistantMessageView },
    TextDelta { content_index: usize, delta: Seq<char>, partial: AssistantMessageView },
    TextEnd { content_index: usize, content: Seq<char>, partial: AssistantMessageView },
    ThinkingStart { content_index: usize, partial: AssistantMessageView },
    ThinkingDelta { content_index: usize, delta: Seq<char>, partial: AssistantMessageView },
    ThinkingEnd { content_index: usize, content: Seq<char>, partial: AssistantMessageView },
    ToolcallStart { content_index: usize, partial: AssistantMessageView },
    ToolcallDelta { content_index: usize, delta: Seq<char>, partial: AssistantMessageView },
    ToolcallEnd { content_index: usize, tool_call: ToolCallView, partial: AssistantMessageView },
    Done { reason: StopReason, message: AssistantMessageView },
    Error { reason: StopReason, error: AssistantMessageView },
}

/// Whether an event ends its stream.
pub open spec fn ends_stream(e: AssistantMessageEventView) -> bool {
    e is Done || e is Error
}

impl View for AssistantMessageEvent {
    type V = AssistantMessageEventView;

    open spec fn view(&self) -> AssistantMessageEventView {
        match self {
            AssistantMessageEvent::Start { partial } => AssistantMessageEventView::Start { partial: partial@ },
            AssistantMessageEvent::TextStart { content_index, partial } => AssistantMessageEventView::TextStart { content_index: *content_index, partial: partial@ },
            AssistantMessageEvent::TextDelta { content_index, delta, partial } => AssistantMessageEventView::TextDelta { content_index: *content_index, delta: delta@, partial: partial@ },
            AssistantMessageEvent::TextEnd { content_index, content, partial } => AssistantMessageEventView::TextEnd { content_index: *content_index, content: content@, partial: partial@ },
            AssistantMessageEvent::ThinkingStart { content_index, partial } => AssistantMessageEventView::ThinkingStart { content_index: *content_index, partial: partial@ },
            AssistantMessageEvent::ThinkingDelta { content_index, delta, partial } => AssistantMessageEventView::ThinkingDelta { content_index: *content_index, delta: delta@, partial: partial@ },
            AssistantMessageEvent::ThinkingEnd { content_index, content, partial } => AssistantMessageEventView::ThinkingEnd { content_index: *content_index, content: content@, partial: partial@ },
            AssistantMessageEvent::ToolcallStart { content_index, partial } => AssistantMessageEventView::ToolcallStart { content_index: *content_index, partial: partial@ },
            AssistantMessageEvent::ToolcallDelta { content_index, delta, partial } => AssistantMessageEventView::ToolcallDelta { content_index: *content_index, delta: delta@, partial: partial@ },
            AssistantMessageEvent::ToolcallEnd { content_index, tool_call, partial } => AssistantMessageEventView::ToolcallEnd { content_index: *content_index, tool_call: tool_call@, partial: partial@ },
            AssistantMessageEvent::Done { reason, message } => AssistantMessageEventView::Done { reason: *reason, message: message@ },
            AssistantMessageEvent::Error { reason, error } => AssistantMessageEventView::Error { reason: *reason, error: error@ },
        }
    }
}

impl Clone for AssistantMessageEvent {
    fn clone(&self) -> (r: AssistantMessageEvent)
        ensures
            r@ == self@,
    {
        match self {
            AssistantMessageEvent::Start { partial } => AssistantMessageEvent::Start { partial: partial.clone() },
            AssistantMessageEvent::TextStart { content_index, partial } => AssistantMessageEvent::TextStart { content_index: *content_index, partial: partial.clone() },
            AssistantMessageEvent::TextDelta { content_index, delta, partial } => AssistantMessageEvent::TextDelta { content_index: *content_index, delta: delta.clone(), partial: partial.clone() },
            AssistantMessageEvent::TextEnd { content_index, content, partial } => AssistantMessageEvent::TextEnd { content_index: *content_index, content: content.clone(), partial: partial.clone() },
            AssistantMessageEvent::ThinkingStart { content_index, partial } => AssistantMessageEvent::ThinkingStart { content_index: *content_index, partial: partial.clone() },
            AssistantMessageEvent::ThinkingDelta { content_index, delta, partial } => AssistantMessageEvent::ThinkingDelta { content_index: *content_index, delta: delta.clone(), partial: partial.clone() },
            AssistantMessageEvent::ThinkingEnd { content_index, content, partial } => AssistantMessageEvent::ThinkingEnd { content_index: *content_index, content: content.clone(), partial: partial.clone() },
            AssistantMessageEvent::ToolcallStart { content_index, partial } => AssistantMessageEvent::ToolcallStart { content_index: *content_index, partial: partial.clone() },
            AssistantMessageEvent::ToolcallDelta { content_index, delta, partial } => AssistantMessageEvent::ToolcallDelta { content_index: *content_index, delta: delta.clone(), partial: partial.clone() },
            AssistantMessageEvent::ToolcallEnd { content_index, tool_call, partial } => AssistantMessageEvent::ToolcallEnd { content_index: *content_index, tool_call: tool_call.clone(), partial: partial.clone() },
            AssistantMessageEvent::Done { reason, message } => AssistantMessageEvent::Done { reason: *reason, message: message.clone() },
            AssistantMessageEvent::Error { reason, error } => AssistantMessageEvent::Error { reason: *reason, error: error.clone() },
        }
    }
}

/// The name of an event.
pub open spec fn event_name(e: AssistantMessageEventView) -> Seq<char> {
    match e {
        AssistantMessageEventView::Start { .. } => "start"@,
        AssistantMessageEventView::TextStart { .. } => "text_start"@,
        AssistantMessageEventView::TextDelta { .. } => "text_delta"@,
        AssistantMessageEventView::TextEnd { .. } => "text_end"@,
        AssistantMessageEventView::ThinkingStart { .. } => "thinking_start"@,
        AssistantMessageEventView::ThinkingDelta { .. } => "thinking_delta"@,
        AssistantMessageEventView::ThinkingEnd { .. } => "thinking_end"@,
        AssistantMessageEventView::ToolcallStart { .. } => "toolcall_start"@,
        AssistantMessageEventView::ToolcallDelta { .. } => "toolcall_delta"@,
        AssistantMessageEventView::ToolcallEnd { .. } => "toolcall_end"@,
        AssistantMessageEventView::Done { .. } => "done"@,
        AssistantMessageEventView::Error { .. } => "error"@,
    }
}

/// The snapshot that an event carries.
pub open spec fn snapshot_of(e: AssistantMessageEventView) -> AssistantMessageView {
    match e {
        AssistantMessageEventView::Start { partial } => partial,
        AssistantMessageEventView::TextStart { partial, .. } => partial,
        AssistantMessageEventView::TextDelta { partial, .. } => partial,
        AssistantMessageEventView::TextEnd { partial, .. } => partial,
        AssistantMessageEventView::ThinkingStart { partial, .. } => partial,
        AssistantMessageEventView::ThinkingDelta { partial, .. } => partial,
        AssistantMessageEventView::ThinkingEnd { partial, .. } => partial,
        AssistantMessageEventView::ToolcallStart { partial, .. } => partial,
        AssistantMessageEventView::ToolcallDelta { partial, .. } => partial,
        AssistantMessageEventView::ToolcallEnd { partial, .. } => partial,
        AssistantMessageEventView::Done { message, .. } => message,
        AssistantMessageEventView::Error { error, .. } => error,
    }
}

/// A tool call as JSON.
pub open spec fn tool_call_json(c: ToolCallView) -> JsonView {
    let head = seq![
        ("id"@, JsonView::String(c.id)),
        ("name"@, JsonView::String(c.name)),
        ("arguments"@, JsonView::Object(c.arguments)),
    ];
    JsonView::Object(
        match c.thought_signature {
            Some(s) => head.push(("thoughtSignature"@, JsonView::String(s))),
            None => head,
        },
    )
}

/// A tool call as JSON.
pub fn tool_call_value(c: &ToolCall) -> (r: Json)
    ensures
        r@ == tool_call_json(c@),
{
    let mut entries: Vec<(String, Json)> = Vec::new();
    entries.push(("id".to_owned(), Json::String(c.id.clone())));
    entries.push(("name".to_owned(), Json::String(c.name.clone())));
    entries.push(("arguments".to_owned(), Json::Object(c.arguments.clone())));
    match &c.thought_signature {
        Some(s) => {
            entries.push(("thoughtSignature".to_owned(), Json::String(s.clone())));
        },
        None => {},
    }
    let o = JsonObject { entries };
    assert(o@ =~= tool_call_json(c@)->Object_0);
    Json::Object(o)
}

/// An index as JSON.
pub open spec fn index_json(i: usize) -> JsonView {
    JsonView::Number(json::NumberView::PosInt(i as u64))
}

/// The event as JSON, without the snapshot.
pub open spec fn printed(e: AssistantMessageEventView) -> JsonView {
    let name = ("type"@, JsonView::String(event_name(e)));
    match e {
        AssistantMessageEventView::Start { .. } => JsonView::Object(seq![name]),
        AssistantMessageEventView::TextStart { content_index, .. } => JsonView::Object(
            seq![name, ("contentIndex"@, index_json(content_index))],
        ),
        AssistantMessageEventView::ThinkingStart { content_index, .. } => JsonView::Object(
            seq![name, ("contentIndex"@, index_json(content_index))],
        ),
        AssistantMessageEventView::ToolcallStart { content_index, .. } => JsonView::Object(
            seq![name, ("contentIndex"@, index_json(content_index))],
        ),
        AssistantMessageEventView::TextDelta { content_index, delta, .. } => JsonView::Object(
            seq![
                name,
                ("contentIndex"@, index_json(content_index)),
                ("delta"@, JsonView::String(delta)),
            ],
        ),
        AssistantMessageEventView::ThinkingDelta { content_index, delta, .. } => JsonView::Object(
            seq![
                name,
                ("contentIndex"@, index_json(content_index)),
                ("delta"@, JsonView::String(delta)),
            ],
        ),
        AssistantMessageEventView::ToolcallDelta { content_index, delta, .. } => JsonView::Object(
            seq![
                name,
                ("contentIndex"@, index_json(content_index)),
                ("delta"@, JsonView::String(delta)),
            ],
        ),
        AssistantMessageEventView::TextEnd { content_index, content, .. } => JsonView::Object(
            seq![
                name,
                ("contentIndex"@, index_json(content_index)),
                ("content"@, JsonView::String(content)),
            ],
        ),
        AssistantMessageEventView::ThinkingEnd { content_index, content, .. } => JsonView::Object(
            seq![
                name,
                ("contentIndex"@, index_json(content_index)),
                ("content"@, JsonView::String(content)),
            ],
        ),
        AssistantMessageEventView::ToolcallEnd { content_index, tool_call, .. } => JsonView::Object(
            seq![
                name,
                ("contentIndex"@, index_json(content_index)),
                ("toolCall"@, tool_call_json(tool_call)),
            ],
        ),
        AssistantMessageEventView::Done { reason, .. } => JsonView::Object(
            seq![name, ("reason"@, JsonView::String(types::stop_name(reason)))],
        ),
        AssistantMessageEventView::Error { reason, .. } => JsonView::Object(
            seq![name, ("reason"@, JsonView::String(types::stop_name(reason)))],
        ),
    }
}

fn text_json(s: &str) -> (r: Json)
    ensures
        r@ == JsonView::String(s@),
{
    Json::String(s.to_owned())
}

fn index_value(i: usize) -> (r: Json)
    ensures
        r@ == index_json(i),
{
    Json::Number(json::Number::PosInt(i as u64))
}

impl AssistantMessageEvent {
    /// The name of the event.
    pub fn event_type(&self) -> (r: &'static str)
        ensures
            r@ == event_name(self@),
    {
        match self {
            AssistantMessageEvent::Start { .. } => "start",
            AssistantMessageEvent::TextStart { .. } => "text_start",
            AssistantMessageEvent::TextDelta { .. } => "text_delta",
            AssistantMessageEvent::TextEnd { .. } => "text_end",
            AssistantMessageEvent::ThinkingStart { .. } => "thinking_start",
            AssistantMessageEvent::ThinkingDelta { .. } => "thinking_delta",
            AssistantMessageEvent::ThinkingEnd { .. } => "thinking_end",
            AssistantMessageEvent::ToolcallStart { .. } => "toolcall_start",
            AssistantMessageEvent::ToolcallDelta { .. } => "toolcall_delta",
            AssistantMessageEvent::ToolcallEnd { .. } => "toolcall_end",
            AssistantMessageEvent::Done { .. } => "done",
            AssistantMessageEvent::Error { .. } => "error",
        }
    }

    /// Whether the event ends the stream.
    pub fn is_terminal(&self) -> (r: bool)
        ensures
            r == ends_stream(self@),
    {
        matches!(self, AssistantMessageEvent::Done { .. } | AssistantMessageEvent::Error { .. })
    }

    /// The snapshot that the event carries.
    pub fn partial(&self) -> (r: &AssistantMessage)
        ensures
            r@ == snapshot_of(self@),
    {
        match self {
            AssistantMessageEvent::Start { partial } => partial,
            AssistantMessageEvent::TextStart { partial, .. } => partial,
            AssistantMessageEvent::TextDelta { partial, .. } => partial,
            AssistantMessageEvent::TextEnd { partial, .. } => partial,
            AssistantMessageEvent::ThinkingStart { partial, .. } => partial,
            AssistantMessageEvent::ThinkingDelta { partial, .. } => partial,
            AssistantMessageEvent::ThinkingEnd { partial, .. } => partial,
            AssistantMessageEvent::ToolcallStart { partial, .. } => partial,
            AssistantMessageEvent::ToolcallDelta { partial, .. } => partial,
            AssistantMessageEvent::ToolcallEnd { partial, .. } => partial,
            AssistantMessageEvent::Done { message, .. } => message,
            AssistantMessageEvent::Error { error, .. } => error,
        }
    }

    /// The event as JSON, without the snapshot.
    pub fn printable(&self) -> (r: Json)
        ensures
            r@ == printed(self@),
    {
        let name = text_json(self.event_type());
        match self {
            AssistantMessageEvent::Start { .. } => object_1("type", name),
            AssistantMessageEvent::TextStart { content_index, .. }
            | AssistantMessageEvent::ThinkingStart { content_index, .. }
            | AssistantMessageEvent::ToolcallStart { content_index, .. } => object_2(
                "type",
                name,
                "contentIndex",
                index_value(*content_index),
            ),
            AssistantMessageEvent::TextDelta { content_index, delta, .. }
            | AssistantMessageEvent::ThinkingDelta { content_index, delta, .. }
            | AssistantMessageEvent::ToolcallDelta { content_index, delta, .. } => object_3(
                "type",
                name,
                "contentIndex",
                index_value(*content_index),
                "delta",
                text_json(delta.as_str()),
            ),
            AssistantMessageEvent::TextEnd { content_index, content, .. }
            | AssistantMessageEvent::ThinkingEnd { content_index, content, .. } => object_3(
                "type",
                name,
                "contentIndex",
                index_value(*content_index),
                "content",
                text_json(content.as_str()),
            ),
            AssistantMessageEvent::ToolcallEnd { content_index, tool_call, .. } => object_3(
                "type",
                name,
                "contentIndex",
                index_value(*content_index),
                "toolCall",
                tool_call_value(tool_call),
            ),
            AssistantMessageEvent::Done { reason, .. } | AssistantMessageEvent::Error {
                reason,
                ..
            } => object_2("type", name, "reason", text_json(reason.as_str())),
        }
    }
}

} // verus!
