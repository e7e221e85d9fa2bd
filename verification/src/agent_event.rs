//! What a run of the agent tells its host.
use crate::codec;
use crate::codec::{write_message, write_result_body, write_user_blocks};
use crate::event;
use crate::event::{AssistantMessageEvent, AssistantMessageEventView};
use crate::json;
use crate::json::{object_1, object_2, object_3, Entries, Json, JsonObject, JsonView};
use crate::text;
use crate::text::{clone_all, clone_opt};
use crate::types::{
    Message, MessageView, ToolResultMessage, ToolResultMessageView, UserBlock, UserBlockView, TextContentView,
};
use vstd::prelude::*;

verus! {

/// What a tool produced.
#[derive(Debug, PartialEq)]
pub struct ToolOutput {
    pub content: Vec<UserBlock>,
    pub details: Option<Json>,
    /// A failure that the tool itself reports.
    pub is_error: bool,
}

/// What a [`ToolOutput`] stands for.
#[verifier::ext_equal]
pub struct ToolOutputView {
    pub content: Seq<UserBlockView>,
    pub details: Option<JsonView>,
    pub is_error: bool,
}

impl View for ToolOutput {
    type V = ToolOutputView;

    open spec fn view(&self) -> ToolOutputView {
        ToolOutputView {
            content: text::views(self.content@),
            details: text::opt_view(self.details),
            is_error: self.is_error,
        }
    }
}

impl Clone for ToolOutput {
    fn clone(&self) -> (r: ToolOutput)
        ensures
            r@ == self@,
    {
        ToolOutput {
            content: clone_all(&self.content),
            details: clone_opt(&self.details),
            is_error: self.is_error,
        }
    }
}

/// An output of one text.
pub open spec fn text_output(s: Seq<char>, details: Option<JsonView>, is_error: bool) -> ToolOutputView {
    ToolOutputView {
        content: seq![UserBlockView::Text(TextContentView { text: s, text_signature: None })],
        details,
        is_error,
    }
}

impl ToolOutput {
    /// A successful output of one text.
    pub fn text(s: &str) -> (r: ToolOutput)
        ensures
            r@ == text_output(s@, None, false),
    {
        let mut content: Vec<UserBlock> = Vec::new();
        content.push(UserBlock::text(s));
        let r = ToolOutput { content, details: None, is_error: false };
        assert(r@.content =~= text_output(s@, None, false).content);
        r
    }

    /// A failed output of one text.
    pub fn error(s: &str) -> (r: ToolOutput)
        ensures
            r@ == text_output(s@, None, true),
    {
        let mut content: Vec<UserBlock> = Vec::new();
        content.push(UserBlock::text(s));
        let r = ToolOutput { content, details: None, is_error: true };
        assert(r@.content =~= text_output(s@, None, true).content);
        r
    }

    /// The same output with details.
    pub fn with_details(self, details: Json) -> (r: ToolOutput)
        ensures
            r@ == (ToolOutputView { details: Some(details@), ..self@ }),
    {
        ToolOutput { content: self.content, details: Some(details), is_error: self.is_error }
    }
}

/// One event of a run.
#[derive(Debug, PartialEq)]
pub enum AgentEvent {
    AgentStart,
    AgentEnd { messages: Vec<Message> },
    TurnStart,
    TurnEnd { message: Message, tool_results: Vec<ToolResultMessage> },
    MessageStart { message: Message },
    MessageUpdate { message: Message, event: AssistantMessageEvent },
    MessageEnd { message: Message },
    ToolExecutionStart { tool_call_id: String, tool_name: String, args: JsonObject },
    ToolExecutionUpdate { tool_call_id: String, tool_name: String, partial: ToolOutput },
    ToolExecutionEnd { tool_call_id: String, tool_name: String, result: ToolOutput, is_error: bool },
}

/// What a [`AgentEvent`] stands for.
#[verifier::ext_equal]
pub enum AgentEventView {
    AgentStart,
    AgentEnd { messages: Seq<MessageView> },
    TurnStart,
    TurnEnd { message: MessageView, tool_results: Seq<ToolResultMessageView> },
    MessageStart { message: MessageView },
    MessageUpdate { message: MessageView, event: AssistantMessageEventView },
    MessageEnd { message: MessageView },
    ToolExecutionStart { tool_call_id: Seq<char>, tool_name: Seq<char>, args: Entries },
    ToolExecutionUpdate { tool_call_id: Seq<char>, tool_name: Seq<char>, partial: ToolOutputView },
    ToolExecutionEnd { tool_call_id: Seq<char>, tool_name: Seq<char>, result: ToolOutputView, is_error: bool },
}

impl View for AgentEvent {
    type V = AgentEventView;

    open spec fn view(&self) -> AgentEventView {
        match self {
            AgentEvent::AgentStart => AgentEventView::AgentStart,
            AgentEvent::AgentEnd { messages } => AgentEventView::AgentEnd { messages: text::views((*messages)@) },
            AgentEvent::TurnStart => AgentEventView::TurnStart,
            AgentEvent::TurnEnd { message, tool_results } => AgentEventView::TurnEnd { message: message@, tool_results: text::views((*tool_results)@) },
            AgentEvent::MessageStart { message } => AgentEventView::MessageStart { message: message@ },
            AgentEvent::MessageUpdate { message, event } => AgentEventView::MessageUpdate { message: message@, event: event@ },
            AgentEvent::MessageEnd { message } => AgentEventView::MessageEnd { message: message@ },
            AgentEvent::ToolExecutionStart { tool_call_id, tool_name, args } => AgentEventView::ToolExecutionStart { tool_call_id: tool_call_id@, tool_name: tool_name@, args: args@ },
            AgentEvent::ToolExecutionUpdate { tool_call_id, tool_name, partial } => AgentEventView::ToolExecutionUpdate { tool_call_id: tool_call_id@, tool_name: tool_name@, partial: partial@ },
            AgentEvent::ToolExecutionEnd { tool_call_id, tool_name, result, is_error } => AgentEventView::ToolExecutionEnd { tool_call_id: tool_call_id@, tool_name: tool_name@, result: result@, is_error: *is_error },
        }
    }
}

impl Clone for AgentEvent {
    fn clone(&self) -> (r: AgentEvent)
        ensures
            r@ == self@,
    {
        match self {
            AgentEvent::AgentStart => AgentEvent::AgentStart,
            AgentEvent::AgentEnd { messages } => AgentEvent::AgentEnd { messages: clone_all(messages) },
            AgentEvent::TurnStart => AgentEvent::TurnStart,
            AgentEvent::TurnEnd { message, tool_results } => AgentEvent::TurnEnd { message: message.clone(), tool_results: clone_all(tool_results) },
            AgentEvent::MessageStart { message } => AgentEvent::MessageStart { message: message.clone() },
            AgentEvent::MessageUpdate { message, event } => AgentEvent::MessageUpdate { message: message.clone(), event: event.clone() },
            AgentEvent::MessageEnd { message } => AgentEvent::MessageEnd { message: message.clone() },
            AgentEvent::ToolExecutionStart { tool_call_id, tool_name, args } => AgentEvent::ToolExecutionStart { tool_call_id: tool_call_id.clone(), tool_name: tool_name.clone(), args: args.clone() },
            AgentEvent::ToolExecutionUpdate { tool_call_id, tool_name, partial } => AgentEvent::ToolExecutionUpdate { tool_call_id: tool_call_id.clone(), tool_name: tool_name.clone(), partial: partial.clone() },
            AgentEvent::ToolExecutionEnd { tool_call_id, tool_name, result, is_error } => AgentEvent::ToolExecutionEnd { tool_call_id: tool_call_id.clone(), tool_name: tool_name.clone(), result: result.clone(), is_error: *is_error },
        }
    }
}

/// The name of an event.
pub open spec fn agent_event_name(e: AgentEventView) -> Seq<char> {
    match e {
        AgentEventView::AgentStart => "agent_start"@,
        AgentEventView::AgentEnd { .. } => "agent_end"@,
        AgentEventView::TurnStart => "turn_start"@,
        AgentEventView::TurnEnd { .. } => "turn_end"@,
        AgentEventView::MessageStart { .. } => "message_start"@,
        AgentEventView::MessageUpdate { .. } => "message_update"@,
        AgentEventView::MessageEnd { .. } => "message_end"@,
        AgentEventView::ToolExecutionStart { .. } => "tool_execution_start"@,
        AgentEventView::ToolExecutionUpdate { .. } => "tool_execution_update"@,
        AgentEventView::ToolExecutionEnd { .. } => "tool_execution_end"@,
    }
}

/// An output as JSON.
pub open spec fn output_json(out: ToolOutputView) -> JsonView {
    let head = codec::one("content"@, codec::user_blocks_json(out.content)) + codec::maybe(
        "details"@,
        out.details,
    );
    JsonView::Object(
        if out.is_error {
            head + codec::one("isError"@, JsonView::Bool(true))
        } else {
            head
        },
    )
}

/// An output as JSON.
fn write_output(out: &ToolOutput) -> (r: Json)
    ensures
        r@ == output_json(out@),
{
    let mut o = JsonObject::new();
    o.entries.push(("content".to_owned(), write_user_blocks(&out.content)));
    assert(o@ =~= codec::one("content"@, codec::user_blocks_json(out@.content)));
    let ghost first = o@;
    if let Some(d) = &out.details {
        o.entries.push(("details".to_owned(), d.clone()));
        assert(o@ =~= first + codec::one("details"@, d@));
    } else {
        assert(o@ =~= first + codec::maybe("details"@, None));
    }
    let ghost head = o@;
    if out.is_error {
        o.entries.push(("isError".to_owned(), Json::Bool(true)));
        assert(o@ =~= head + codec::one("isError"@, JsonView::Bool(true)));
    }
    Json::Object(o)
}

/// Messages as JSON.
pub open spec fn messages_json(m: Seq<MessageView>) -> JsonView {
    JsonView::Array(m.map_values(|x: MessageView| codec::message_json(x)))
}

/// Tool results as JSON.
pub open spec fn results_json(m: Seq<ToolResultMessageView>) -> JsonView {
    JsonView::Array(
        m.map_values(|x: ToolResultMessageView| JsonView::Object(codec::result_body(x))),
    )
}

fn write_messages(m: &Vec<Message>) -> (r: Json)
    ensures
        r@ == messages_json(text::views(m@)),
{
    let mut out: Vec<Json> = Vec::new();
    let mut i: usize = 0;
    while i < m.len()
        invariant
            i <= m@.len(),
            out@.len() == i,
            forall|j: int| 0 <= j < i ==> out@[j]@ == codec::message_json(m@[j]@),
        decreases m@.len() - i,
    {
        out.push(write_message(&m[i]));
        i += 1;
    }
    proof {
        json::lemma_values_view(out);
        assert(text::views(out@) =~= text::views(m@).map_values(
            |x: MessageView| codec::message_json(x),
        ));
    }
    Json::Array(out)
}

fn write_results(m: &Vec<ToolResultMessage>) -> (r: Json)
    ensures
        r@ == results_json(text::views(m@)),
{
    let mut out: Vec<Json> = Vec::new();
    let mut i: usize = 0;
    while i < m.len()
        invariant
            i <= m@.len(),
            out@.len() == i,
            forall|j: int|
                0 <= j < i ==> out@[j]@ == JsonView::Object(codec::result_body(m@[j]@)),
        decreases m@.len() - i,
    {
        out.push(Json::Object(write_result_body(&m[i])));
        i += 1;
    }
    proof {
        json::lemma_values_view(out);
        assert(text::views(out@) =~= text::views(m@).map_values(
            |x: ToolResultMessageView| JsonView::Object(codec::result_body(x)),
        ));
    }
    Json::Array(out)
}

/// The line that a host prints for an event: an update carries only what was added to the message,
/// never the snapshot.
pub open spec fn agent_printed(e: AgentEventView) -> JsonView {
    let t = ("type"@, JsonView::String(agent_event_name(e)));
    JsonView::Object(
        match e {
            AgentEventView::AgentStart => seq![t],
            AgentEventView::TurnStart => seq![t],
            AgentEventView::AgentEnd { messages } => seq![t, ("messages"@, messages_json(messages))],
            AgentEventView::TurnEnd { message, tool_results } => seq![
                t,
                ("message"@, codec::message_json(message)),
                ("toolResults"@, results_json(tool_results)),
            ],
            AgentEventView::MessageStart { message } => seq![
                t,
                ("message"@, codec::message_json(message)),
            ],
            AgentEventView::MessageEnd { message } => seq![
                t,
                ("message"@, codec::message_json(message)),
            ],
            AgentEventView::MessageUpdate { event, .. } => seq![
                t,
                ("assistantMessageEvent"@, event::printed(event)),
            ],
            AgentEventView::ToolExecutionStart { tool_call_id, tool_name, args } => seq![
                t,
                ("toolCallId"@, JsonView::String(tool_call_id)),
                ("toolName"@, JsonView::String(tool_name)),
                ("args"@, JsonView::Object(args)),
            ],
            AgentEventView::ToolExecutionUpdate { tool_call_id, tool_name, partial } => seq![
                t,
                ("toolCallId"@, JsonView::String(tool_call_id)),
                ("toolName"@, JsonView::String(tool_name)),
                ("partialResult"@, output_json(partial)),
            ],
            AgentEventView::ToolExecutionEnd { tool_call_id, tool_name, result, is_error } => seq![
                t,
                ("toolCallId"@, JsonView::String(tool_call_id)),
                ("toolName"@, JsonView::String(tool_name)),
                ("result"@, output_json(result)),
                ("isError"@, JsonView::Bool(is_error)),
            ],
        },
    )
}

fn tool_line(t: Json, id: &str, name: &str, key: &str, v: Json) -> (o: JsonObject)
    ensures
        o@ == seq![
            ("type"@, t@),
            ("toolCallId"@, JsonView::String(id@)),
            ("toolName"@, JsonView::String(name@)),
            (key@, v@),
        ],
{
    let id = Json::String(id.to_owned());
    let name = Json::String(name.to_owned());
    let mut entries: Vec<(String, Json)> = Vec::new();
    entries.push(("type".to_owned(), t));
    entries.push(("toolCallId".to_owned(), id));
    entries.push(("toolName".to_owned(), name));
    entries.push((key.to_owned(), v));
    let o = JsonObject { entries };
    assert(o@ =~= seq![("type"@, t@), ("toolCallId"@, id@), ("toolName"@, name@), (key@, v@)]);
    o
}

impl AgentEvent {
    /// The name of the event.
    pub fn event_type(&self) -> (r: &'static str)
        ensures
            r@ == agent_event_name(self@),
    {
        match self {
            AgentEvent::AgentStart => "agent_start",
            AgentEvent::AgentEnd { .. } => "agent_end",
            AgentEvent::TurnStart => "turn_start",
            AgentEvent::TurnEnd { .. } => "turn_end",
            AgentEvent::MessageStart { .. } => "message_start",
            AgentEvent::MessageUpdate { .. } => "message_update",
            AgentEvent::MessageEnd { .. } => "message_end",
            AgentEvent::ToolExecutionStart { .. } => "tool_execution_start",
            AgentEvent::ToolExecutionUpdate { .. } => "tool_execution_update",
            AgentEvent::ToolExecutionEnd { .. } => "tool_execution_end",
        }
    }

    /// The line that a host prints for the event.
    pub fn printable(&self) -> (r: Json)
        ensures
            r@ == agent_printed(self@),
    {
        let t = Json::String(self.event_type().to_owned());
        match self {
            AgentEvent::AgentStart => object_1("type", t),
            AgentEvent::TurnStart => object_1("type", t),
            AgentEvent::AgentEnd { messages } => object_2(
                "type",
                t,
                "messages",
                write_messages(messages),
            ),
            AgentEvent::TurnEnd { message, tool_results } => object_3(
                "type",
                t,
                "message",
                write_message(message),
                "toolResults",
                write_results(tool_results),
            ),
            AgentEvent::MessageStart { message } => object_2(
                "type",
                t,
                "message",
                write_message(message),
            ),
            AgentEvent::MessageEnd { message } => object_2(
                "type",
                t,
                "message",
                write_message(message),
            ),
            AgentEvent::MessageUpdate { event, .. } => object_2(
                "type",
                t,
                "assistantMessageEvent",
                event.printable(),
            ),
            AgentEvent::ToolExecutionStart { tool_call_id, tool_name, args } => Json::Object(
                tool_line(
                    t,
                    tool_call_id.as_str(),
                    tool_name.as_str(),
                    "args",
                    Json::Object(args.clone()),
                ),
            ),
            AgentEvent::ToolExecutionUpdate { tool_call_id, tool_name, partial } => Json::Object(
                tool_line(
                    t,
                    tool_call_id.as_str(),
                    tool_name.as_str(),
                    "partialResult",
                    write_output(partial),
                ),
            ),
            AgentEvent::ToolExecutionEnd { tool_call_id, tool_name, result, is_error } => {
                let mut o = tool_line(
                    t,
                    tool_call_id.as_str(),
                    tool_name.as_str(),
                    "result",
                    write_output(result),
                );
                let ghost head = o@;
                o.entries.push(("isError".to_owned(), Json::Bool(*is_error)));
                assert(o@ =~= head.push(("isError"@, JsonView::Bool(*is_error))));
                assert(o@ =~= agent_printed(self@)->Object_0);
                Json::Object(o)
            },
        }
    }
}

} // verus!
