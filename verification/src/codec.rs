//! The JSON form of messages, as it is kept in session files.
//!
//! Reading takes what writing writes: unknown members are passed over, optional members may be
//! absent or `null`, and everything else must be there in its kind. Members may also come without
//! their names, as an array in the order of their writing, of which optional ones may be missing
//! at the end; what tells the kind then comes first. Inside a message a kind may be told by its
//! place among the kinds, and a stop reason may be the one name of an object that holds nothing.
use crate::json;
use crate::json::{as_object, as_text, Entries, Json, JsonObject, JsonView, Number, NumberView};
use crate::number;
use crate::text;
use crate::text::same_text;
use crate::types;
use crate::types::{
    AssistantBlock, AssistantBlockView, AssistantMessage, AssistantMessageView, Cost, CostView,
    DeveloperMessage, DeveloperMessageView, ImageContent, ImageContentView, Message, MessageView,
    StopReason, TextContent, TextContentView, ThinkingContent, ThinkingContentView, ToolCall,
    ToolCallView, ToolResultMessage, ToolResultMessageView, Usage, UsageView, UserBlock,
    UserBlockView, UserContent, UserContentView, UserMessage, UserMessageView,
};
use vstd::prelude::*;

verus! {

// ------------------------------------------------------------------ the form

/// One member.
pub open spec fn one(name: Seq<char>, v: JsonView) -> Entries {
    seq![(name, v)]
}

/// One member, where there is a value.
pub open spec fn maybe(name: Seq<char>, v: Option<JsonView>) -> Entries {
    match v {
        Some(x) => one(name, x),
        None => Seq::empty(),
    }
}

/// A text.
pub open spec fn jtext(s: Seq<char>) -> JsonView {
    JsonView::String(s)
}

/// An optional text.
pub open spec fn opt_text(s: Option<Seq<char>>) -> Option<JsonView> {
    match s {
        Some(t) => Some(jtext(t)),
        None => None,
    }
}

/// A count.
pub open spec fn juint(n: u64) -> JsonView {
    JsonView::Number(NumberView::PosInt(n))
}

/// An optional count.
pub open spec fn opt_uint(n: Option<u64>) -> Option<JsonView> {
    match n {
        Some(x) => Some(juint(x)),
        None => None,
    }
}

/// An integer.
pub open spec fn jint(n: i64) -> JsonView {
    JsonView::Number(number::int_number(n as int))
}

/// The members of a text block.
pub open spec fn text_members(t: TextContentView) -> Entries {
    one("type"@, jtext("text"@)) + one("text"@, jtext(t.text)) + maybe(
        "textSignature"@,
        opt_text(t.text_signature),
    )
}

/// The members of a picture block.
pub open spec fn image_members(i: ImageContentView) -> Entries {
    one("type"@, jtext("image"@)) + one("data"@, jtext(i.data)) + one(
        "mimeType"@,
        jtext(i.mime_type),
    )
}

/// The members of a reasoning block.
pub open spec fn thinking_members(t: ThinkingContentView) -> Entries {
    one("type"@, jtext("thinking"@)) + one("thinking"@, jtext(t.thinking)) + maybe(
        "thinkingSignature"@,
        opt_text(t.thinking_signature),
    )
}

/// The members of a hidden reasoning block.
pub open spec fn redacted_members(data: Seq<char>) -> Entries {
    one("type"@, jtext("redactedThinking"@)) + one("data"@, jtext(data))
}

/// The members of a tool call block.
pub open spec fn call_members(c: ToolCallView) -> Entries {
    one("type"@, jtext("toolCall"@)) + one("id"@, jtext(c.id)) + one("name"@, jtext(c.name)) + one(
        "arguments"@,
        JsonView::Object(c.arguments),
    ) + maybe("thoughtSignature"@, opt_text(c.thought_signature))
}

/// A user block.
pub open spec fn user_block_json(b: UserBlockView) -> JsonView {
    JsonView::Object(
        match b {
            UserBlockView::Text(t) => text_members(t),
            UserBlockView::Image(i) => image_members(i),
        },
    )
}

/// An assistant block.
pub open spec fn assistant_block_json(b: AssistantBlockView) -> JsonView {
    JsonView::Object(
        match b {
            AssistantBlockView::Text(t) => text_members(t),
            AssistantBlockView::Thinking(t) => thinking_members(t),
            AssistantBlockView::RedactedThinking { data } => redacted_members(data),
            AssistantBlockView::Image(i) => image_members(i),
            AssistantBlockView::ToolCall(c) => call_members(c),
        },
    )
}

/// User blocks.
pub open spec fn user_blocks_json(blocks: Seq<UserBlockView>) -> JsonView {
    JsonView::Array(blocks.map_values(|b: UserBlockView| user_block_json(b)))
}

/// Assistant blocks.
pub open spec fn assistant_blocks_json(blocks: Seq<AssistantBlockView>) -> JsonView {
    JsonView::Array(blocks.map_values(|b: AssistantBlockView| assistant_block_json(b)))
}

/// A user content: a text, or blocks.
pub open spec fn content_json(c: UserContentView) -> JsonView {
    match c {
        UserContentView::Text(t) => jtext(t),
        UserContentView::Blocks(blocks) => user_blocks_json(blocks),
    }
}

/// A cost.
pub open spec fn cost_json(c: CostView) -> JsonView {
    JsonView::Object(
        one("input"@, JsonView::Number(c.input)) + one("output"@, JsonView::Number(c.output)) + one(
            "cacheRead"@,
            JsonView::Number(c.cache_read),
        ) + one("cacheWrite"@, JsonView::Number(c.cache_write)) + one(
            "total"@,
            JsonView::Number(c.total),
        ),
    )
}

/// Usage: what is unknown is left out.
pub open spec fn usage_json(u: UsageView) -> JsonView {
    JsonView::Object(
        maybe("input"@, opt_uint(u.input)) + maybe("output"@, opt_uint(u.output)) + maybe(
            "cacheRead"@,
            opt_uint(u.cache_read),
        ) + maybe("cacheWrite"@, opt_uint(u.cache_write)) + maybe(
            "totalTokens"@,
            opt_uint(u.total_tokens),
        ) + maybe("reasoningTokens"@, opt_uint(u.reasoning_tokens)) + maybe(
            "cost"@,
            match u.cost {
                Some(c) => Some(cost_json(c)),
                None => None,
            },
        ),
    )
}

/// The members of a user message.
pub open spec fn user_members(m: UserMessageView) -> Entries {
    one("role"@, jtext("user"@)) + one("content"@, content_json(m.content)) + maybe(
        "synthetic"@,
        match m.synthetic {
            Some(b) => Some(JsonView::Bool(b)),
            None => None,
        },
    ) + one("timestamp"@, jint(m.timestamp))
}

/// The members of a developer message.
pub open spec fn developer_members(m: DeveloperMessageView) -> Entries {
    one("role"@, jtext("developer"@)) + one("content"@, content_json(m.content)) + one(
        "timestamp"@,
        jint(m.timestamp),
    )
}

/// The members of an assistant message.
pub open spec fn assistant_members(m: AssistantMessageView) -> Entries {
    one("role"@, jtext("assistant"@)) + one("content"@, assistant_blocks_json(m.content)) + one(
        "api"@,
        jtext(m.api),
    ) + one("provider"@, jtext(m.provider)) + one("model"@, jtext(m.model)) + maybe(
        "responseId"@,
        opt_text(m.response_id),
    ) + maybe("upstreamProvider"@, opt_text(m.upstream_provider)) + one(
        "usage"@,
        usage_json(m.usage),
    ) + one("stopReason"@, jtext(types::stop_name(m.stop_reason))) + maybe(
        "stopDetails"@,
        m.stop_details,
    ) + maybe("errorMessage"@, opt_text(m.error_message)) + maybe(
        "errorStatus"@,
        match m.error_status {
            Some(n) => Some(juint(n as u64)),
            None => None,
        },
    ) + one("timestamp"@, jint(m.timestamp)) + maybe("duration"@, opt_uint(m.duration)) + maybe(
        "ttft"@,
        opt_uint(m.ttft),
    )
}

/// The members of a tool result, but for its role.
pub open spec fn result_body(m: ToolResultMessageView) -> Entries {
    one("toolCallId"@, jtext(m.tool_call_id)) + one("toolName"@, jtext(m.tool_name)) + one(
        "content"@,
        user_blocks_json(m.content),
    ) + maybe("details"@, m.details) + one("isError"@, JsonView::Bool(m.is_error)) + one(
        "timestamp"@,
        jint(m.timestamp),
    )
}

/// The members of a tool result.
pub open spec fn result_members(m: ToolResultMessageView) -> Entries {
    one("role"@, jtext("toolResult"@)) + result_body(m)
}

/// A message.
pub open spec fn message_json(m: MessageView) -> JsonView {
    JsonView::Object(
        match m {
            MessageView::User(u) => user_members(u),
            MessageView::Developer(d) => developer_members(d),
            MessageView::Assistant(a) => assistant_members(a),
            MessageView::ToolResult(r) => result_members(r),
        },
    )
}

// ------------------------------------------------------------------ writing

fn put(o: &mut JsonObject, name: &str, v: Json)
    ensures
        final(o)@ == old(o)@ + one(name@, v@),
{
    let ghost before = o@;
    o.entries.push((name.to_owned(), v));
    assert(o@ =~= before + one(name@, v@));
}

fn put_text(o: &mut JsonObject, name: &str, s: &str)
    ensures
        final(o)@ == old(o)@ + one(name@, jtext(s@)),
{
    put(o, name, Json::String(s.to_owned()));
}

fn put_opt(o: &mut JsonObject, name: &str, v: Option<Json>)
    ensures
        final(o)@ == old(o)@ + maybe(name@, text::opt_view(v)),
{
    let ghost before = o@;
    match v {
        Some(x) => put(o, name, x),
        None => {
            assert(before + Entries::empty() =~= before);
        },
    }
}

fn put_opt_text(o: &mut JsonObject, name: &str, s: &Option<String>)
    ensures
        final(o)@ == old(o)@ + maybe(name@, opt_text(text::opt_view(*s))),
{
    let v = match s {
        Some(t) => Some(Json::String(t.clone())),
        None => None,
    };
    put_opt(o, name, v);
}

fn put_opt_uint(o: &mut JsonObject, name: &str, n: Option<u64>)
    ensures
        final(o)@ == old(o)@ + maybe(name@, opt_uint(n)),
{
    let v = match n {
        Some(x) => Some(Json::Number(Number::PosInt(x))),
        None => None,
    };
    put_opt(o, name, v);
}

fn fresh() -> (o: JsonObject)
    ensures
        o@ == Entries::empty(),
{
    JsonObject::new()
}

proof fn lemma_from_empty()
    ensures
        forall|e: Entries| #[trigger] (Entries::empty() + e) == e,
{
    assert forall|e: Entries| #[trigger] (Entries::empty() + e) == e by {
        assert(Entries::empty() + e =~= e);
    }
}

fn write_text(t: &TextContent) -> (o: JsonObject)
    ensures
        o@ == text_members(t@),
{
    let mut o = fresh();
    proof {
        lemma_from_empty();
    }
    put_text(&mut o, "type", "text");
    put_text(&mut o, "text", t.text.as_str());
    put_opt_text(&mut o, "textSignature", &t.text_signature);
    o
}

fn write_image(i: &ImageContent) -> (o: JsonObject)
    ensures
        o@ == image_members(i@),
{
    let mut o = fresh();
    proof {
        lemma_from_empty();
    }
    put_text(&mut o, "type", "image");
    put_text(&mut o, "data", i.data.as_str());
    put_text(&mut o, "mimeType", i.mime_type.as_str());
    o
}

fn write_thinking(t: &ThinkingContent) -> (o: JsonObject)
    ensures
        o@ == thinking_members(t@),
{
    let mut o = fresh();
    proof {
        lemma_from_empty();
    }
    put_text(&mut o, "type", "thinking");
    put_text(&mut o, "thinking", t.thinking.as_str());
    put_opt_text(&mut o, "thinkingSignature", &t.thinking_signature);
    o
}

fn write_redacted(data: &str) -> (o: JsonObject)
    ensures
        o@ == redacted_members(data@),
{
    let mut o = fresh();
    proof {
        lemma_from_empty();
    }
    put_text(&mut o, "type", "redactedThinking");
    put_text(&mut o, "data", data);
    o
}

fn write_call(c: &ToolCall) -> (o: JsonObject)
    ensures
        o@ == call_members(c@),
{
    let mut o = fresh();
    proof {
        lemma_from_empty();
    }
    put_text(&mut o, "type", "toolCall");
    put_text(&mut o, "id", c.id.as_str());
    put_text(&mut o, "name", c.name.as_str());
    put(&mut o, "arguments", Json::Object(c.arguments.clone()));
    put_opt_text(&mut o, "thoughtSignature", &c.thought_signature);
    o
}

fn write_user_block(b: &UserBlock) -> (r: Json)
    ensures
        r@ == user_block_json(b@),
{
    Json::Object(
        match b {
            UserBlock::Text(t) => write_text(t),
            UserBlock::Image(i) => write_image(i),
        },
    )
}

fn write_assistant_block(b: &AssistantBlock) -> (r: Json)
    ensures
        r@ == assistant_block_json(b@),
{
    Json::Object(
        match b {
            AssistantBlock::Text(t) => write_text(t),
            AssistantBlock::Thinking(t) => write_thinking(t),
            AssistantBlock::RedactedThinking { data } => write_redacted(data.as_str()),
            AssistantBlock::Image(i) => write_image(i),
            AssistantBlock::ToolCall(c) => write_call(c),
        },
    )
}

/// User blocks as JSON.
pub fn write_user_blocks(blocks: &Vec<UserBlock>) -> (r: Json)
    ensures
        r@ == user_blocks_json(text::views(blocks@)),
{
    let mut out: Vec<Json> = Vec::new();
    let mut i: usize = 0;
    while i < blocks.len()
        invariant
            i <= blocks@.len(),
            out@.len() == i,
            forall|j: int| 0 <= j < i ==> out@[j]@ == user_block_json(blocks@[j]@),
        decreases blocks@.len() - i,
    {
        out.push(write_user_block(&blocks[i]));
        i += 1;
    }
    proof {
        json::lemma_values_view(out);
        assert(text::views(out@) =~= text::views(blocks@).map_values(
            |b: UserBlockView| user_block_json(b),
        ));
    }
    Json::Array(out)
}

fn write_assistant_blocks(blocks: &Vec<AssistantBlock>) -> (r: Json)
    ensures
        r@ == assistant_blocks_json(text::views(blocks@)),
{
    let mut out: Vec<Json> = Vec::new();
    let mut i: usize = 0;
    while i < blocks.len()
        invariant
            i <= blocks@.len(),
            out@.len() == i,
            forall|j: int| 0 <= j < i ==> out@[j]@ == assistant_block_json(blocks@[j]@),
        decreases blocks@.len() - i,
    {
        out.push(write_assistant_block(&blocks[i]));
        i += 1;
    }
    proof {
        json::lemma_values_view(out);
        assert(text::views(out@) =~= text::views(blocks@).map_values(
            |b: AssistantBlockView| assistant_block_json(b),
        ));
    }
    Json::Array(out)
}

fn write_content(c: &UserContent) -> (r: Json)
    ensures
        r@ == content_json(c@),
{
    match c {
        UserContent::Text(t) => Json::String(t.clone()),
        UserContent::Blocks(blocks) => write_user_blocks(blocks),
    }
}

fn write_cost(c: &Cost) -> (r: Json)
    ensures
        r@ == cost_json(c@),
{
    let mut o = fresh();
    proof {
        lemma_from_empty();
    }
    put(&mut o, "input", Json::Number(c.input.clone()));
    put(&mut o, "output", Json::Number(c.output.clone()));
    put(&mut o, "cacheRead", Json::Number(c.cache_read.clone()));
    put(&mut o, "cacheWrite", Json::Number(c.cache_write.clone()));
    put(&mut o, "total", Json::Number(c.total.clone()));
    Json::Object(o)
}

/// Usage as JSON.
pub fn write_usage(u: &Usage) -> (r: Json)
    ensures
        r@ == usage_json(u@),
{
    let mut o = fresh();
    proof {
        lemma_from_empty();
    }
    put_opt_uint(&mut o, "input", u.input);
    put_opt_uint(&mut o, "output", u.output);
    put_opt_uint(&mut o, "cacheRead", u.cache_read);
    put_opt_uint(&mut o, "cacheWrite", u.cache_write);
    put_opt_uint(&mut o, "totalTokens", u.total_tokens);
    put_opt_uint(&mut o, "reasoningTokens", u.reasoning_tokens);
    let cost = match &u.cost {
        Some(c) => Some(write_cost(c)),
        None => None,
    };
    put_opt(&mut o, "cost", cost);
    Json::Object(o)
}

fn write_int(n: i64) -> (r: Json)
    ensures
        r@ == jint(n),
{
    Json::Number(number::integer(n))
}

fn write_user(m: &UserMessage) -> (o: JsonObject)
    ensures
        o@ == user_members(m@),
{
    let mut o = fresh();
    proof {
        lemma_from_empty();
    }
    put_text(&mut o, "role", "user");
    put(&mut o, "content", write_content(&m.content));
    let synthetic = match m.synthetic {
        Some(b) => Some(Json::Bool(b)),
        None => None,
    };
    put_opt(&mut o, "synthetic", synthetic);
    put(&mut o, "timestamp", write_int(m.timestamp));
    o
}

fn write_developer(m: &DeveloperMessage) -> (o: JsonObject)
    ensures
        o@ == developer_members(m@),
{
    let mut o = fresh();
    proof {
        lemma_from_empty();
    }
    put_text(&mut o, "role", "developer");
    put(&mut o, "content", write_content(&m.content));
    put(&mut o, "timestamp", write_int(m.timestamp));
    o
}

fn write_assistant(m: &AssistantMessage) -> (o: JsonObject)
    ensures
        o@ == assistant_members(m@),
{
    let mut o = fresh();
    proof {
        lemma_from_empty();
    }
    put_text(&mut o, "role", "assistant");
    put(&mut o, "content", write_assistant_blocks(&m.content));
    put_text(&mut o, "api", m.api.as_str());
    put_text(&mut o, "provider", m.provider.as_str());
    put_text(&mut o, "model", m.model.as_str());
    put_opt_text(&mut o, "responseId", &m.response_id);
    put_opt_text(&mut o, "upstreamProvider", &m.upstream_provider);
    put(&mut o, "usage", write_usage(&m.usage));
    put_text(&mut o, "stopReason", m.stop_reason.as_str());
    put_opt(&mut o, "stopDetails", text::clone_opt(&m.stop_details));
    put_opt_text(&mut o, "errorMessage", &m.error_message);
    let status = match m.error_status {
        Some(n) => Some(Json::Number(Number::PosInt(n as u64))),
        None => None,
    };
    put_opt(&mut o, "errorStatus", status);
    put(&mut o, "timestamp", write_int(m.timestamp));
    put_opt_uint(&mut o, "duration", m.duration);
    put_opt_uint(&mut o, "ttft", m.ttft);
    o
}

/// A tool result as JSON, but for its role.
pub fn write_result_body(m: &ToolResultMessage) -> (o: JsonObject)
    ensures
        o@ == result_body(m@),
{
    let mut o = fresh();
    proof {
        lemma_from_empty();
    }
    put_text(&mut o, "toolCallId", m.tool_call_id.as_str());
    put_text(&mut o, "toolName", m.tool_name.as_str());
    put(&mut o, "content", write_user_blocks(&m.content));
    put_opt(&mut o, "details", text::clone_opt(&m.details));
    put(&mut o, "isError", Json::Bool(m.is_error));
    put(&mut o, "timestamp", write_int(m.timestamp));
    o
}

fn write_result(m: &ToolResultMessage) -> (o: JsonObject)
    ensures
        o@ == result_members(m@),
{
    let mut o = fresh();
    proof {
        lemma_from_empty();
    }
    put_text(&mut o, "role", "toolResult");
    let ghost head = o@;
    let mut body = write_result_body(m);
    o.entries.append(&mut body.entries);
    assert(o@ =~= head + result_body(m@));
    o
}

/// A message as JSON.
pub fn write_message(m: &Message) -> (r: Json)
    ensures
        r@ == message_json(m@),
{
    Json::Object(
        match m {
            Message::User(u) => write_user(u),
            Message::Developer(d) => write_developer(d),
            Message::Assistant(a) => write_assistant(a),
            Message::ToolResult(r) => write_result(r),
        },
    )
}

// ------------------------------------------------------------------ reading members

/// What stands under a name, `null` counting as nothing.
pub open spec fn present(o: Entries, name: Seq<char>) -> Option<JsonView> {
    match json::lookup(o, name) {
        Some(JsonView::Null) => None,
        other => other,
    }
}

/// The text under a name.
pub open spec fn text_at(o: Entries, name: Seq<char>) -> Option<Seq<char>> {
    json::text_of(json::lookup(o, name))
}

/// The text under a name, if any; nothing where something else stands there.
pub open spec fn opt_text_at(o: Entries, name: Seq<char>) -> Option<Option<Seq<char>>> {
    match present(o, name) {
        None => Some(None),
        Some(JsonView::String(s)) => Some(Some(s)),
        Some(_) => None,
    }
}

/// The count under a name, if any; nothing where something else stands there.
pub open spec fn opt_uint_at(o: Entries, name: Seq<char>) -> Option<Option<u64>> {
    match present(o, name) {
        None => Some(None),
        Some(JsonView::Number(NumberView::PosInt(n))) => Some(Some(n)),
        Some(_) => None,
    }
}

/// The short count under a name, if any; nothing where something else stands there.
pub open spec fn opt_short_at(o: Entries, name: Seq<char>) -> Option<Option<u16>> {
    match opt_uint_at(o, name) {
        Some(Some(n)) => if n <= u16::MAX {
            Some(Some(n as u16))
        } else {
            None
        },
        Some(None) => Some(None),
        None => None,
    }
}

/// The truth value under a name, if any; nothing where something else stands there.
pub open spec fn opt_bool_at(o: Entries, name: Seq<char>) -> Option<Option<bool>> {
    match present(o, name) {
        None => Some(None),
        Some(JsonView::Bool(b)) => Some(Some(b)),
        Some(_) => None,
    }
}

/// The truth value under a name.
pub open spec fn bool_at(o: Entries, name: Seq<char>) -> Option<bool> {
    match json::lookup(o, name) {
        Some(JsonView::Bool(b)) => Some(b),
        _ => None,
    }
}

/// The integer under a name.
pub open spec fn int_at(o: Entries, name: Seq<char>) -> Option<i64> {
    match json::lookup(o, name) {
        Some(JsonView::Number(NumberView::PosInt(n))) => if n <= i64::MAX {
            Some(n as i64)
        } else {
            None
        },
        Some(JsonView::Number(NumberView::NegInt(n))) => Some(n),
        _ => None,
    }
}

/// The number under a name, as a floating-point number.
pub open spec fn float_at(o: Entries, name: Seq<char>) -> Option<NumberView> {
    match json::lookup(o, name) {
        Some(JsonView::Number(NumberView::Float(t))) => Some(NumberView::Float(t)),
        Some(JsonView::Number(n)) => number::float_of(n),
        _ => None,
    }
}

fn get_present<'a>(o: &'a JsonObject, name: &str) -> (r: Option<&'a Json>)
    ensures
        text::opt_view(r) == present(o@, name@),
{
    match o.get(name) {
        Some(v) => if v.is_null() {
            None
        } else {
            Some(v)
        },
        None => None,
    }
}

fn get_text(o: &JsonObject, name: &str) -> (r: Option<String>)
    ensures
        text::opt_view(r) == text_at(o@, name@),
{
    match o.get(name) {
        Some(Json::String(s)) => Some(s.clone()),
        _ => None,
    }
}

/// An optional read text as a view.
pub open spec fn opt_opt_view<T: View>(o: Option<Option<T>>) -> Option<Option<T::V>> {
    match o {
        Some(x) => Some(text::opt_view(x)),
        None => None,
    }
}

fn get_opt_text(o: &JsonObject, name: &str) -> (r: Option<Option<String>>)
    ensures
        opt_opt_view(r) == opt_text_at(o@, name@),
{
    match get_present(o, name) {
        None => Some(None),
        Some(Json::String(s)) => Some(Some(s.clone())),
        Some(_) => None,
    }
}

fn get_opt_uint(o: &JsonObject, name: &str) -> (r: Option<Option<u64>>)
    ensures
        r == opt_uint_at(o@, name@),
{
    match get_present(o, name) {
        None => Some(None),
        Some(Json::Number(Number::PosInt(n))) => Some(Some(*n)),
        Some(_) => None,
    }
}

fn get_opt_short(o: &JsonObject, name: &str) -> (r: Option<Option<u16>>)
    ensures
        r == opt_short_at(o@, name@),
{
    match get_opt_uint(o, name) {
        Some(Some(n)) => if n <= 0xffff {
            Some(Some(n as u16))
        } else {
            None
        },
        Some(None) => Some(None),
        None => None,
    }
}

fn get_opt_bool(o: &JsonObject, name: &str) -> (r: Option<Option<bool>>)
    ensures
        r == opt_bool_at(o@, name@),
{
    match get_present(o, name) {
        None => Some(None),
        Some(Json::Bool(b)) => Some(Some(*b)),
        Some(_) => None,
    }
}

fn get_bool(o: &JsonObject, name: &str) -> (r: Option<bool>)
    ensures
        r == bool_at(o@, name@),
{
    match o.get(name) {
        Some(Json::Bool(b)) => Some(*b),
        _ => None,
    }
}

fn get_int(o: &JsonObject, name: &str) -> (r: Option<i64>)
    ensures
        r == int_at(o@, name@),
{
    match o.get(name) {
        Some(Json::Number(Number::PosInt(n))) => if *n <= 0x7fff_ffff_ffff_ffff {
            Some(*n as i64)
        } else {
            None
        },
        Some(Json::Number(Number::NegInt(n))) => Some(*n),
        _ => None,
    }
}

fn get_float(o: &JsonObject, name: &str) -> (r: Option<Number>)
    ensures
        text::opt_view(r) == float_at(o@, name@),
{
    match o.get(name) {
        Some(Json::Number(n)) => match n {
            Number::Float(_) => Some(n.clone()),
            _ => number::as_float(n),
        },
        _ => None,
    }
}

// ------------------------------------------------------------------ reading values

/// The text block that members hold.
pub open spec fn text_from(o: Entries) -> Option<TextContentView> {
    let text = text_at(o, "text"@);
    let text_signature = opt_text_at(o, "textSignature"@);
    if text is Some && text_signature is Some {
        Some(
            TextContentView {
                text: text.unwrap(),
                text_signature: text_signature.unwrap(),
            },
        )
    } else {
        None
    }
}

fn read_text(o: &JsonObject) -> (r: Option<TextContent>)
    ensures
        text::opt_view(r) == text_from(o@),
{
    let text = get_text(o, "text");
    let text_signature = get_opt_text(o, "textSignature");
    match (text, text_signature) {
        (Some(text), Some(text_signature)) => Some(
            TextContent { text, text_signature },
        ),
        _ => None,
    }
}

/// The picture that members hold.
pub open spec fn image_from(o: Entries) -> Option<ImageContentView> {
    let data = text_at(o, "data"@);
    let mime_type = text_at(o, "mimeType"@);
    if data is Some && mime_type is Some {
        Some(
            ImageContentView {
                data: data.unwrap(),
                mime_type: mime_type.unwrap(),
            },
        )
    } else {
        None
    }
}

fn read_image(o: &JsonObject) -> (r: Option<ImageContent>)
    ensures
        text::opt_view(r) == image_from(o@),
{
    let data = get_text(o, "data");
    let mime_type = get_text(o, "mimeType");
    match (data, mime_type) {
        (Some(data), Some(mime_type)) => Some(
            ImageContent { data, mime_type },
        ),
        _ => None,
    }
}

/// The reasoning that members hold.
pub open spec fn thinking_from(o: Entries) -> Option<ThinkingContentView> {
    let thinking = text_at(o, "thinking"@);
    let thinking_signature = opt_text_at(o, "thinkingSignature"@);
    if thinking is Some && thinking_signature is Some {
        Some(
            ThinkingContentView {
                thinking: thinking.unwrap(),
                thinking_signature: thinking_signature.unwrap(),
            },
        )
    } else {
        None
    }
}

fn read_thinking(o: &JsonObject) -> (r: Option<ThinkingContent>)
    ensures
        text::opt_view(r) == thinking_from(o@),
{
    let thinking = get_text(o, "thinking");
    let thinking_signature = get_opt_text(o, "thinkingSignature");
    match (thinking, thinking_signature) {
        (Some(thinking), Some(thinking_signature)) => Some(
            ThinkingContent { thinking, thinking_signature },
        ),
        _ => None,
    }
}

/// The object under a name.
pub open spec fn object_at(o: Entries, name: Seq<char>) -> Option<Entries> {
    json::object_of(json::lookup(o, name))
}

fn get_object(o: &JsonObject, name: &str) -> (r: Option<JsonObject>)
    ensures
        text::opt_view(r) == object_at(o@, name@),
{
    match as_object(o.get(name)) {
        Some(x) => Some(x.clone()),
        None => None,
    }
}

/// The tool call that members hold.
pub open spec fn call_from(o: Entries) -> Option<ToolCallView> {
    let id = text_at(o, "id"@);
    let name = text_at(o, "name"@);
    let arguments = object_at(o, "arguments"@);
    let thought_signature = opt_text_at(o, "thoughtSignature"@);
    if id is Some && name is Some && arguments is Some && thought_signature is Some {
        Some(
            ToolCallView {
                id: id.unwrap(),
                name: name.unwrap(),
                arguments: arguments.unwrap(),
                thought_signature: thought_signature.unwrap(),
            },
        )
    } else {
        None
    }
}

fn read_call(o: &JsonObject) -> (r: Option<ToolCall>)
    ensures
        text::opt_view(r) == call_from(o@),
{
    let id = get_text(o, "id");
    let name = get_text(o, "name");
    let arguments = get_object(o, "arguments");
    let thought_signature = get_opt_text(o, "thoughtSignature");
    match (id, name, arguments, thought_signature) {
        (Some(id), Some(name), Some(arguments), Some(thought_signature)) => Some(
            ToolCall { id, name, arguments, thought_signature },
        ),
        _ => None,
    }
}

// ------------------------------------------------------------------ members without names

/// The members that a value holds: those of an object, or those of an array from `from` on, which
/// get the names in turn.
pub open spec fn members_from(v: JsonView, from: int, names: Seq<Seq<char>>) -> Option<Entries> {
    match v {
        JsonView::Object(o) => Some(o),
        JsonView::Array(a) => if from <= a.len() <= from + names.len() {
            Some(Seq::new((a.len() - from) as nat, |i: int| (names[i], a[from + i])))
        } else {
            None
        },
        _ => None,
    }
}

/// Members that were found: in an object, or named in turn.
enum Members<'a> {
    Own(&'a JsonObject),
    Named(JsonObject),
}

impl<'a> Members<'a> {
    spec fn view(&self) -> Entries {
        match self {
            Members::Own(o) => o@,
            Members::Named(o) => o@,
        }
    }

    fn object(&self) -> (r: &JsonObject)
        ensures
            r@ == self.view(),
    {
        match self {
            Members::Own(o) => o,
            Members::Named(o) => o,
        }
    }
}

fn find_members<'a>(v: &'a Json, from: usize, names: Vec<&str>) -> (r: Option<Members<'a>>)
    ensures
        match r {
            Some(m) => members_from(v@, from as int, text::views(names@)) == Some(m.view()),
            None => members_from(v@, from as int, text::views(names@)) is None,
        },
{
    match v {
        Json::Object(o) => Some(Members::Own(o)),
        Json::Array(a) => {
            let ghost all = text::views(a@);
            let ghost known = text::views(names@);
            proof {
                json::lemma_values_view(*a);
            }
            let n: usize = a.len();
            if n < from || n - from > names.len() {
                return None;
            }
            let ghost wanted = Seq::new((n - from) as nat, |i: int| (known[i], all[from + i]));
            let mut o = JsonObject::new();
            let mut i: usize = 0;
            assert(o@ =~= wanted.take(0));
            while i < n - from
                invariant
                    i <= n - from,
                    n == a@.len(),
                    from <= n,
                    n - from <= names@.len(),
                    all == text::views(a@),
                    known == text::views(names@),
                    wanted == Seq::new((n - from) as nat, |i: int| (known[i], all[from + i])),
                    o@ == wanted.take(i as int),
                decreases n - from - i,
            {
                put(&mut o, names[i], a[from + i].clone());
                assert(known[i as int] == names@[i as int]@);
                assert(all[from + i as int] == a@[from + i as int]@);
                assert(o@ =~= wanted.take(i as int + 1));
                i += 1;
            }
            assert(wanted.take(i as int) =~= wanted);
            Some(Members::Named(o))
        },
        _ => None,
    }
}

/// The names of the members of a text, in the order of their writing.
pub open spec fn text_names() -> Seq<Seq<char>> {
    seq!["text"@, "textSignature"@]
}

fn list_text_names() -> (r: Vec<&'static str>)
    ensures
        text::views(r@) == text_names(),
{
    let r: Vec<&'static str> = vec!["text", "textSignature"];
    assert(text::views(r@) =~= text_names());
    r
}

/// The names of the members of an image, in the order of their writing.
pub open spec fn image_names() -> Seq<Seq<char>> {
    seq!["data"@, "mimeType"@]
}

fn list_image_names() -> (r: Vec<&'static str>)
    ensures
        text::views(r@) == image_names(),
{
    let r: Vec<&'static str> = vec!["data", "mimeType"];
    assert(text::views(r@) =~= image_names());
    r
}

/// The names of the members of reasoning, in the order of their writing.
pub open spec fn thinking_names() -> Seq<Seq<char>> {
    seq!["thinking"@, "thinkingSignature"@]
}

fn list_thinking_names() -> (r: Vec<&'static str>)
    ensures
        text::views(r@) == thinking_names(),
{
    let r: Vec<&'static str> = vec!["thinking", "thinkingSignature"];
    assert(text::views(r@) =~= thinking_names());
    r
}

/// The names of the members of hidden reasoning, in the order of their writing.
pub open spec fn redacted_names() -> Seq<Seq<char>> {
    seq!["data"@]
}

fn list_redacted_names() -> (r: Vec<&'static str>)
    ensures
        text::views(r@) == redacted_names(),
{
    let r: Vec<&'static str> = vec!["data"];
    assert(text::views(r@) =~= redacted_names());
    r
}

/// The names of the members of a tool call, in the order of their writing.
pub open spec fn call_names() -> Seq<Seq<char>> {
    seq!["id"@, "name"@, "arguments"@, "thoughtSignature"@]
}

fn list_call_names() -> (r: Vec<&'static str>)
    ensures
        text::views(r@) == call_names(),
{
    let r: Vec<&'static str> = vec!["id", "name", "arguments", "thoughtSignature"];
    assert(text::views(r@) =~= call_names());
    r
}

/// The names of the members of a cost, in the order of their writing.
pub open spec fn cost_names() -> Seq<Seq<char>> {
    seq!["input"@, "output"@, "cacheRead"@, "cacheWrite"@, "total"@]
}

fn list_cost_names() -> (r: Vec<&'static str>)
    ensures
        text::views(r@) == cost_names(),
{
    let r: Vec<&'static str> = vec!["input", "output", "cacheRead", "cacheWrite", "total"];
    assert(text::views(r@) =~= cost_names());
    r
}

/// The names of the members of a usage, in the order of their writing.
pub open spec fn usage_names() -> Seq<Seq<char>> {
    seq![
        "input"@,
        "output"@,
        "cacheRead"@,
        "cacheWrite"@,
        "totalTokens"@,
        "reasoningTokens"@,
        "cost"@,
    ]
}

fn list_usage_names() -> (r: Vec<&'static str>)
    ensures
        text::views(r@) == usage_names(),
{
    let r: Vec<&'static str> = vec![
        "input",
        "output",
        "cacheRead",
        "cacheWrite",
        "totalTokens",
        "reasoningTokens",
        "cost",
    ];
    assert(text::views(r@) =~= usage_names());
    r
}

/// The names of the members of a user message, in the order of their writing.
pub open spec fn user_names() -> Seq<Seq<char>> {
    seq!["content"@, "synthetic"@, "timestamp"@]
}

fn list_user_names() -> (r: Vec<&'static str>)
    ensures
        text::views(r@) == user_names(),
{
    let r: Vec<&'static str> = vec!["content", "synthetic", "timestamp"];
    assert(text::views(r@) =~= user_names());
    r
}

/// The names of the members of a developer message, in the order of their writing.
pub open spec fn developer_names() -> Seq<Seq<char>> {
    seq!["content"@, "timestamp"@]
}

fn list_developer_names() -> (r: Vec<&'static str>)
    ensures
        text::views(r@) == developer_names(),
{
    let r: Vec<&'static str> = vec!["content", "timestamp"];
    assert(text::views(r@) =~= developer_names());
    r
}

/// The names of the members of an assistant message, in the order of their writing.
pub open spec fn assistant_names() -> Seq<Seq<char>> {
    seq![
        "content"@,
        "api"@,
        "provider"@,
        "model"@,
        "responseId"@,
        "upstreamProvider"@,
        "usage"@,
        "stopReason"@,
        "stopDetails"@,
        "errorMessage"@,
        "errorStatus"@,
        "timestamp"@,
        "duration"@,
        "ttft"@,
    ]
}

fn list_assistant_names() -> (r: Vec<&'static str>)
    ensures
        text::views(r@) == assistant_names(),
{
    let r: Vec<&'static str> = vec![
        "content",
        "api",
        "provider",
        "model",
        "responseId",
        "upstreamProvider",
        "usage",
        "stopReason",
        "stopDetails",
        "errorMessage",
        "errorStatus",
        "timestamp",
        "duration",
        "ttft",
    ];
    assert(text::views(r@) =~= assistant_names());
    r
}

/// The names of the members of a tool result, in the order of their writing.
pub open spec fn result_names() -> Seq<Seq<char>> {
    seq!["toolCallId"@, "toolName"@, "content"@, "details"@, "isError"@, "timestamp"@]
}

fn list_result_names() -> (r: Vec<&'static str>)
    ensures
        text::views(r@) == result_names(),
{
    let r: Vec<&'static str> = vec![
        "toolCallId",
        "toolName",
        "content",
        "details",
        "isError",
        "timestamp",
    ];
    assert(text::views(r@) =~= result_names());
    r
}

/// What tells the kind of a value: the member of that name, or the first of an array.
pub open spec fn tag_of(v: JsonView, key: Seq<char>) -> Option<JsonView> {
    match v {
        JsonView::Object(o) => json::lookup(o, key),
        JsonView::Array(a) => if a.len() > 0 {
            Some(a[0])
        } else {
            None
        },
        _ => None,
    }
}

fn find_tag<'a>(v: &'a Json, key: &str) -> (r: Option<&'a Json>)
    ensures
        text::opt_view(r) == tag_of(v@, key@),
{
    match v {
        Json::Object(o) => o.get(key),
        Json::Array(a) => {
            proof {
                json::lemma_values_view(*a);
            }
            if a.len() > 0 {
                assert(text::views(a@)[0] == a@[0]@);
                Some(&a[0])
            } else {
                None
            }
        },
        _ => None,
    }
}

/// The kind that a tag names: by its name, or by its place among the kinds.
pub open spec fn kind_of(tag: Option<JsonView>, kinds: Seq<Seq<char>>) -> Option<Seq<char>> {
    match tag {
        Some(JsonView::String(s)) => Some(s),
        Some(JsonView::Number(NumberView::PosInt(n))) => if n < kinds.len() {
            Some(kinds[n as int])
        } else {
            None
        },
        _ => None,
    }
}

fn find_kind(tag: Option<&Json>, kinds: Vec<&str>) -> (r: Option<String>)
    ensures
        text::opt_view(r) == kind_of(text::opt_view(tag), text::views(kinds@)),
{
    match tag {
        Some(Json::String(s)) => Some(s.clone()),
        Some(Json::Number(Number::PosInt(n))) => {
            if *n < kinds.len() as u64 {
                let i: usize = *n as usize;
                assert(text::views(kinds@)[i as int] == kinds@[i as int]@);
                Some(kinds[i].to_owned())
            } else {
                None
            }
        },
        _ => None,
    }
}

/// The kinds of user blocks.
pub open spec fn user_kinds() -> Seq<Seq<char>> {
    seq!["text"@, "image"@]
}

/// The kinds of assistant blocks.
pub open spec fn assistant_kinds() -> Seq<Seq<char>> {
    seq!["text"@, "thinking"@, "redactedThinking"@, "image"@, "toolCall"@]
}

/// The data that members hold.
pub open spec fn redacted_from(o: Entries) -> Option<Seq<char>> {
    text_at(o, "data"@)
}

fn read_redacted(o: &JsonObject) -> (r: Option<String>)
    ensures
        text::opt_view(r) == redacted_from(o@),
{
    get_text(o, "data")
}

/// The text that a value holds behind its kind.
pub open spec fn text_in(v: JsonView) -> Option<TextContentView> {
    match members_from(v, 1, text_names()) {
        Some(o) => text_from(o),
        None => None,
    }
}

fn find_text(v: &Json) -> (r: Option<TextContent>)
    ensures
        text::opt_view(r) == text_in(v@),
{
    match find_members(v, 1, list_text_names()) {
        Some(m) => read_text(m.object()),
        None => None,
    }
}

/// The image that a value holds behind its kind.
pub open spec fn image_in(v: JsonView) -> Option<ImageContentView> {
    match members_from(v, 1, image_names()) {
        Some(o) => image_from(o),
        None => None,
    }
}

fn find_image(v: &Json) -> (r: Option<ImageContent>)
    ensures
        text::opt_view(r) == image_in(v@),
{
    match find_members(v, 1, list_image_names()) {
        Some(m) => read_image(m.object()),
        None => None,
    }
}

/// The reasoning that a value holds behind its kind.
pub open spec fn thinking_in(v: JsonView) -> Option<ThinkingContentView> {
    match members_from(v, 1, thinking_names()) {
        Some(o) => thinking_from(o),
        None => None,
    }
}

fn find_thinking(v: &Json) -> (r: Option<ThinkingContent>)
    ensures
        text::opt_view(r) == thinking_in(v@),
{
    match find_members(v, 1, list_thinking_names()) {
        Some(m) => read_thinking(m.object()),
        None => None,
    }
}

/// The hidden reasoning that a value holds behind its kind.
pub open spec fn redacted_in(v: JsonView) -> Option<Seq<char>> {
    match members_from(v, 1, redacted_names()) {
        Some(o) => redacted_from(o),
        None => None,
    }
}

fn find_redacted(v: &Json) -> (r: Option<String>)
    ensures
        text::opt_view(r) == redacted_in(v@),
{
    match find_members(v, 1, list_redacted_names()) {
        Some(m) => read_redacted(m.object()),
        None => None,
    }
}

/// The tool call that a value holds behind its kind.
pub open spec fn call_in(v: JsonView) -> Option<ToolCallView> {
    match members_from(v, 1, call_names()) {
        Some(o) => call_from(o),
        None => None,
    }
}

fn find_call(v: &Json) -> (r: Option<ToolCall>)
    ensures
        text::opt_view(r) == call_in(v@),
{
    match find_members(v, 1, list_call_names()) {
        Some(m) => read_call(m.object()),
        None => None,
    }
}

/// The user block that a value holds.
pub open spec fn user_block_from(v: JsonView) -> Option<UserBlockView> {
    match kind_of(tag_of(v, "type"@), user_kinds()) {
        None => None,
        Some(kind) => if kind == "text"@ {
            match text_in(v) {
                Some(x) => Some(UserBlockView::Text(x)),
                None => None,
            }
        } else if kind == "image"@ {
            match image_in(v) {
                Some(x) => Some(UserBlockView::Image(x)),
                None => None,
            }
        } else {
            None
        },
    }
}

fn read_user_block(v: &Json) -> (r: Option<UserBlock>)
    ensures
        text::opt_view(r) == user_block_from(v@),
{
    let kinds: Vec<&'static str> = vec!["text", "image"];
    assert(text::views(kinds@) =~= user_kinds());
    match find_kind(find_tag(v, "type"), kinds) {
        None => None,
        Some(kind) => if same_text(kind.as_str(), "text") {
            match find_text(v) {
                Some(x) => Some(UserBlock::Text(x)),
                None => None,
            }
        } else if same_text(kind.as_str(), "image") {
            match find_image(v) {
                Some(x) => Some(UserBlock::Image(x)),
                None => None,
            }
        } else {
            None
        },
    }
}

/// The assistant block that a value holds.
pub open spec fn assistant_block_from(v: JsonView) -> Option<AssistantBlockView> {
    match kind_of(tag_of(v, "type"@), assistant_kinds()) {
        None => None,
        Some(kind) => if kind == "text"@ {
            match text_in(v) {
                Some(x) => Some(AssistantBlockView::Text(x)),
                None => None,
            }
        } else if kind == "thinking"@ {
            match thinking_in(v) {
                Some(x) => Some(AssistantBlockView::Thinking(x)),
                None => None,
            }
        } else if kind == "redactedThinking"@ {
            match redacted_in(v) {
                Some(x) => Some(AssistantBlockView::RedactedThinking { data: x }),
                None => None,
            }
        } else if kind == "image"@ {
            match image_in(v) {
                Some(x) => Some(AssistantBlockView::Image(x)),
                None => None,
            }
        } else if kind == "toolCall"@ {
            match call_in(v) {
                Some(x) => Some(AssistantBlockView::ToolCall(x)),
                None => None,
            }
        } else {
            None
        },
    }
}

fn read_assistant_block(v: &Json) -> (r: Option<AssistantBlock>)
    ensures
        text::opt_view(r) == assistant_block_from(v@),
{
    let kinds: Vec<&'static str> = vec!["text", "thinking", "redactedThinking", "image", "toolCall"];
    assert(text::views(kinds@) =~= assistant_kinds());
    match find_kind(find_tag(v, "type"), kinds) {
        None => None,
        Some(kind) => if same_text(kind.as_str(), "text") {
            match find_text(v) {
                Some(x) => Some(AssistantBlock::Text(x)),
                None => None,
            }
        } else if same_text(kind.as_str(), "thinking") {
            match find_thinking(v) {
                Some(x) => Some(AssistantBlock::Thinking(x)),
                None => None,
            }
        } else if same_text(kind.as_str(), "redactedThinking") {
            match find_redacted(v) {
                Some(x) => Some(AssistantBlock::RedactedThinking { data: x }),
                None => None,
            }
        } else if same_text(kind.as_str(), "image") {
            match find_image(v) {
                Some(x) => Some(AssistantBlock::Image(x)),
                None => None,
            }
        } else if same_text(kind.as_str(), "toolCall") {
            match find_call(v) {
                Some(x) => Some(AssistantBlock::ToolCall(x)),
                None => None,
            }
        } else {
            None
        },
    }
}

/// The blocks that the values hold, every one of them readable.
pub open spec fn user_blocks_of(values: Seq<JsonView>) -> Option<Seq<UserBlockView>> {
    if forall|i: int| 0 <= i < values.len() ==> user_block_from(#[trigger] values[i]) is Some {
        Some(Seq::new(values.len(), |i: int| user_block_from(values[i]).unwrap()))
    } else {
        None
    }
}

/// The blocks that a value holds.
pub open spec fn user_blocks_from(v: Option<JsonView>) -> Option<Seq<UserBlockView>> {
    match v {
        Some(JsonView::Array(values)) => user_blocks_of(values),
        _ => None,
    }
}

fn read_user_blocks(v: Option<&Json>) -> (r: Option<Vec<UserBlock>>)
    ensures
        match r {
            Some(b) => Some(text::views(b@)) == user_blocks_from(text::opt_view(v)),
            None => user_blocks_from(text::opt_view(v)) is None,
        },
{
    let a = match v {
        Some(Json::Array(a)) => a,
        _ => {
            return None;
        },
    };
    let mut out: Vec<UserBlock> = Vec::new();
    let mut i: usize = 0;
    let ghost all = text::views(a@);
    proof {
        json::lemma_values_view(*a);
    }
    while i < a.len()
        invariant
            i <= a@.len(),
            all == text::views(a@),
            text::opt_view(v) == Some(JsonView::Array(all)),
            out@.len() == i,
            forall|j: int| 0 <= j < i ==> user_block_from(#[trigger] all[j]) == Some(out@[j]@),
        decreases a@.len() - i,
    {
        match read_user_block(&a[i]) {
            Some(b) => {
                assert(user_block_from(all[i as int]) == Some(b@));
                out.push(b);
                i += 1;
            },
            None => {
                assert(user_block_from(all[i as int]) is None);
                return None;
            },
        }
    }
    proof {
        assert(text::views(out@) =~= Seq::new(
            all.len(),
            |j: int| user_block_from(all[j]).unwrap(),
        )) by {
            assert forall|j: int| 0 <= j < all.len() implies text::views(out@)[j]
                == user_block_from(all[j]).unwrap() by {
                assert(user_block_from(all[j]) == Some(out@[j]@));
            }
        }
    }
    Some(out)
}

/// The blocks that the values hold, every one of them readable.
pub open spec fn assistant_blocks_of(values: Seq<JsonView>) -> Option<Seq<AssistantBlockView>> {
    if forall|i: int| 0 <= i < values.len() ==> assistant_block_from(#[trigger] values[i]) is Some {
        Some(Seq::new(values.len(), |i: int| assistant_block_from(values[i]).unwrap()))
    } else {
        None
    }
}

/// The blocks that a value holds.
pub open spec fn assistant_blocks_from(v: Option<JsonView>) -> Option<Seq<AssistantBlockView>> {
    match v {
        Some(JsonView::Array(values)) => assistant_blocks_of(values),
        _ => None,
    }
}

fn read_assistant_blocks(v: Option<&Json>) -> (r: Option<Vec<AssistantBlock>>)
    ensures
        match r {
            Some(b) => Some(text::views(b@)) == assistant_blocks_from(text::opt_view(v)),
            None => assistant_blocks_from(text::opt_view(v)) is None,
        },
{
    let a = match v {
        Some(Json::Array(a)) => a,
        _ => {
            return None;
        },
    };
    let mut out: Vec<AssistantBlock> = Vec::new();
    let mut i: usize = 0;
    let ghost all = text::views(a@);
    proof {
        json::lemma_values_view(*a);
    }
    while i < a.len()
        invariant
            i <= a@.len(),
            all == text::views(a@),
            text::opt_view(v) == Some(JsonView::Array(all)),
            out@.len() == i,
            forall|j: int| 0 <= j < i ==> assistant_block_from(#[trigger] all[j]) == Some(out@[j]@),
        decreases a@.len() - i,
    {
        match read_assistant_block(&a[i]) {
            Some(b) => {
                assert(assistant_block_from(all[i as int]) == Some(b@));
                out.push(b);
                i += 1;
            },
            None => {
                assert(assistant_block_from(all[i as int]) is None);
                return None;
            },
        }
    }
    proof {
        assert(text::views(out@) =~= Seq::new(
            all.len(),
            |j: int| assistant_block_from(all[j]).unwrap(),
        )) by {
            assert forall|j: int| 0 <= j < all.len() implies text::views(out@)[j]
                == assistant_block_from(all[j]).unwrap() by {
                assert(assistant_block_from(all[j]) == Some(out@[j]@));
            }
        }
    }
    Some(out)
}

/// The user content that a value holds.
pub open spec fn content_from(v: Option<JsonView>) -> Option<UserContentView> {
    match v {
        Some(JsonView::String(s)) => Some(UserContentView::Text(s)),
        _ => match user_blocks_from(v) {
            Some(blocks) => Some(UserContentView::Blocks(blocks)),
            None => None,
        },
    }
}

fn read_content(v: Option<&Json>) -> (r: Option<UserContent>)
    ensures
        text::opt_view(r) == content_from(text::opt_view(v)),
{
    match v {
        Some(Json::String(s)) => Some(UserContent::Text(s.clone())),
        _ => match read_user_blocks(v) {
            Some(blocks) => Some(UserContent::Blocks(blocks)),
            None => None,
        },
    }
}

/// The cost that members hold.
pub open spec fn cost_of(o: Entries) -> Option<CostView> {
    let input = float_at(o, "input"@);
    let output = float_at(o, "output"@);
    let cache_read = float_at(o, "cacheRead"@);
    let cache_write = float_at(o, "cacheWrite"@);
    let total = float_at(o, "total"@);
    if input is Some && output is Some && cache_read is Some && cache_write is Some && total is Some {
        Some(
            CostView {
                input: input.unwrap(),
                output: output.unwrap(),
                cache_read: cache_read.unwrap(),
                cache_write: cache_write.unwrap(),
                total: total.unwrap(),
            },
        )
    } else {
        None
    }
}

fn read_cost(o: &JsonObject) -> (r: Option<Cost>)
    ensures
        text::opt_view(r) == cost_of(o@),
{
    let input = get_float(o, "input");
    let output = get_float(o, "output");
    let cache_read = get_float(o, "cacheRead");
    let cache_write = get_float(o, "cacheWrite");
    let total = get_float(o, "total");
    match (input, output, cache_read, cache_write, total) {
        (Some(input), Some(output), Some(cache_read), Some(cache_write), Some(total)) => Some(
            Cost { input, output, cache_read, cache_write, total },
        ),
        _ => None,
    }
}

/// The cost under a name, if any; nothing where something else stands there.
pub open spec fn opt_cost_at(o: Entries, name: Seq<char>) -> Option<Option<CostView>> {
    match present(o, name) {
        None => Some(None),
        Some(v) => match members_from(v, 0, cost_names()) {
            Some(c) => match cost_of(c) {
                Some(cost) => Some(Some(cost)),
                None => None,
            },
            None => None,
        },
    }
}

fn get_opt_cost(o: &JsonObject, name: &str) -> (r: Option<Option<Cost>>)
    ensures
        opt_opt_view(r) == opt_cost_at(o@, name@),
{
    match get_present(o, name) {
        None => Some(None),
        Some(v) => match find_members(v, 0, list_cost_names()) {
            Some(m) => match read_cost(m.object()) {
                Some(cost) => Some(Some(cost)),
                None => None,
            },
            None => None,
        },
    }
}

/// The usage that members hold.
pub open spec fn usage_of(o: Entries) -> Option<UsageView> {
    let input = opt_uint_at(o, "input"@);
    let output = opt_uint_at(o, "output"@);
    let cache_read = opt_uint_at(o, "cacheRead"@);
    let cache_write = opt_uint_at(o, "cacheWrite"@);
    let total_tokens = opt_uint_at(o, "totalTokens"@);
    let reasoning_tokens = opt_uint_at(o, "reasoningTokens"@);
    let cost = opt_cost_at(o, "cost"@);
    if input is Some && output is Some && cache_read is Some && cache_write is Some && total_tokens is Some && reasoning_tokens is Some && cost is Some {
        Some(
            UsageView {
                input: input.unwrap(),
                output: output.unwrap(),
                cache_read: cache_read.unwrap(),
                cache_write: cache_write.unwrap(),
                total_tokens: total_tokens.unwrap(),
                reasoning_tokens: reasoning_tokens.unwrap(),
                cost: cost.unwrap(),
            },
        )
    } else {
        None
    }
}

fn read_usage(o: &JsonObject) -> (r: Option<Usage>)
    ensures
        text::opt_view(r) == usage_of(o@),
{
    let input = get_opt_uint(o, "input");
    let output = get_opt_uint(o, "output");
    let cache_read = get_opt_uint(o, "cacheRead");
    let cache_write = get_opt_uint(o, "cacheWrite");
    let total_tokens = get_opt_uint(o, "totalTokens");
    let reasoning_tokens = get_opt_uint(o, "reasoningTokens");
    let cost = get_opt_cost(o, "cost");
    match (input, output, cache_read, cache_write, total_tokens, reasoning_tokens, cost) {
        (Some(input), Some(output), Some(cache_read), Some(cache_write), Some(total_tokens), Some(reasoning_tokens), Some(cost)) => Some(
            Usage { input, output, cache_read, cache_write, total_tokens, reasoning_tokens, cost },
        ),
        _ => None,
    }
}

/// The usage under a name.
pub open spec fn usage_at(o: Entries, name: Seq<char>) -> Option<UsageView> {
    match json::lookup(o, name) {
        Some(v) => match members_from(v, 0, usage_names()) {
            Some(u) => usage_of(u),
            None => None,
        },
        None => None,
    }
}

fn get_usage(o: &JsonObject, name: &str) -> (r: Option<Usage>)
    ensures
        text::opt_view(r) == usage_at(o@, name@),
{
    match o.get(name) {
        Some(v) => match find_members(v, 0, list_usage_names()) {
            Some(m) => read_usage(m.object()),
            None => None,
        },
        None => None,
    }
}

/// The stop reason of a name.
pub open spec fn stop_of(name: Option<Seq<char>>) -> Option<StopReason> {
    match name {
        None => None,
        Some(s) => if s == "stop"@ {
            Some(StopReason::Stop)
        } else if s == "length"@ {
            Some(StopReason::Length)
        } else if s == "toolUse"@ {
            Some(StopReason::ToolUse)
        } else if s == "error"@ {
            Some(StopReason::Error)
        } else if s == "aborted"@ {
            Some(StopReason::Aborted)
        } else {
            None
        },
    }
}

/// The name that a value is, or that is the one name of an object and holds nothing.
pub open spec fn bare_name(v: Option<JsonView>) -> Option<Seq<char>> {
    match v {
        Some(JsonView::String(s)) => Some(s),
        Some(JsonView::Object(o)) => if o.len() == 1 && (o[0].1 is Null || o[0].1
            == JsonView::Object(Seq::empty())) {
            Some(o[0].0)
        } else {
            None
        },
        _ => None,
    }
}

fn find_bare_name(v: Option<&Json>) -> (r: Option<&str>)
    ensures
        text::opt_view(r) == bare_name(text::opt_view(v)),
{
    match v {
        Some(Json::String(s)) => Some(s.as_str()),
        Some(Json::Object(o)) => {
            assert(o@.len() == o.entries@.len());
            if o.entries.len() != 1 {
                return None;
            }
            let empty = match &o.entries[0].1 {
                Json::Null => true,
                Json::Object(inner) => {
                    assert(inner@.len() == 0 ==> inner@ =~= Seq::empty());
                    inner.entries.len() == 0
                },
                _ => false,
            };
            assert(o@[0] == (o.entries@[0].0@, o.entries@[0].1@));
            if empty {
                Some(o.entries[0].0.as_str())
            } else {
                None
            }
        },
        _ => None,
    }
}

fn get_stop(o: &JsonObject, name: &str) -> (r: Option<StopReason>)
    ensures
        r == stop_of(bare_name(json::lookup(o@, name@))),
{
    match find_bare_name(o.get(name)) {
        None => None,
        Some(s) => {
            if same_text(s, "stop") {
                Some(StopReason::Stop)
            } else if same_text(s, "length") {
                Some(StopReason::Length)
            } else if same_text(s, "toolUse") {
                Some(StopReason::ToolUse)
            } else if same_text(s, "error") {
                Some(StopReason::Error)
            } else if same_text(s, "aborted") {
                Some(StopReason::Aborted)
            } else {
                None
            }
        },
    }
}

fn get_any(o: &JsonObject, name: &str) -> (r: Option<Option<Json>>)
    ensures
        opt_opt_view(r) == Some(present(o@, name@)),
{
    match get_present(o, name) {
        Some(v) => Some(Some(v.clone())),
        None => Some(None),
    }
}

/// The user message that members hold.
pub open spec fn user_from(o: Entries) -> Option<UserMessageView> {
    let content = content_from(json::lookup(o, "content"@));
    let synthetic = opt_bool_at(o, "synthetic"@);
    let timestamp = int_at(o, "timestamp"@);
    if content is Some && synthetic is Some && timestamp is Some {
        Some(
            UserMessageView {
                content: content.unwrap(),
                synthetic: synthetic.unwrap(),
                timestamp: timestamp.unwrap(),
            },
        )
    } else {
        None
    }
}

fn read_user(o: &JsonObject) -> (r: Option<UserMessage>)
    ensures
        text::opt_view(r) == user_from(o@),
{
    let content = read_content(o.get("content"));
    let synthetic = get_opt_bool(o, "synthetic");
    let timestamp = get_int(o, "timestamp");
    match (content, synthetic, timestamp) {
        (Some(content), Some(synthetic), Some(timestamp)) => Some(
            UserMessage { content, synthetic, timestamp },
        ),
        _ => None,
    }
}

/// The developer message that members hold.
pub open spec fn developer_from(o: Entries) -> Option<DeveloperMessageView> {
    let content = content_from(json::lookup(o, "content"@));
    let timestamp = int_at(o, "timestamp"@);
    if content is Some && timestamp is Some {
        Some(
            DeveloperMessageView {
                content: content.unwrap(),
                timestamp: timestamp.unwrap(),
            },
        )
    } else {
        None
    }
}

fn read_developer(o: &JsonObject) -> (r: Option<DeveloperMessage>)
    ensures
        text::opt_view(r) == developer_from(o@),
{
    let content = read_content(o.get("content"));
    let timestamp = get_int(o, "timestamp");
    match (content, timestamp) {
        (Some(content), Some(timestamp)) => Some(
            DeveloperMessage { content, timestamp },
        ),
        _ => None,
    }
}

/// The assistant message that members hold.
pub open spec fn assistant_from(o: Entries) -> Option<AssistantMessageView> {
    let content = assistant_blocks_from(json::lookup(o, "content"@));
    let api = text_at(o, "api"@);
    let provider = text_at(o, "provider"@);
    let model = text_at(o, "model"@);
    let response_id = opt_text_at(o, "responseId"@);
    let upstream_provider = opt_text_at(o, "upstreamProvider"@);
    let usage = usage_at(o, "usage"@);
    let stop_reason = stop_of(bare_name(json::lookup(o, "stopReason"@)));
    let stop_details = Some(present(o, "stopDetails"@));
    let error_message = opt_text_at(o, "errorMessage"@);
    let error_status = opt_short_at(o, "errorStatus"@);
    let timestamp = int_at(o, "timestamp"@);
    let duration = opt_uint_at(o, "duration"@);
    let ttft = opt_uint_at(o, "ttft"@);
    if content is Some && api is Some && provider is Some && model is Some && response_id is Some && upstream_provider is Some && usage is Some && stop_reason is Some && stop_details is Some && error_message is Some && error_status is Some && timestamp is Some && duration is Some && ttft is Some {
        Some(
            AssistantMessageView {
                content: content.unwrap(),
                api: api.unwrap(),
                provider: provider.unwrap(),
                model: model.unwrap(),
                response_id: response_id.unwrap(),
                upstream_provider: upstream_provider.unwrap(),
                usage: usage.unwrap(),
                stop_reason: stop_reason.unwrap(),
                stop_details: stop_details.unwrap(),
                error_message: error_message.unwrap(),
                error_status: error_status.unwrap(),
                timestamp: timestamp.unwrap(),
                duration: duration.unwrap(),
                ttft: ttft.unwrap(),
            },
        )
    } else {
        None
    }
}

fn read_assistant(o: &JsonObject) -> (r: Option<AssistantMessage>)
    ensures
        text::opt_view(r) == assistant_from(o@),
{
    let content = read_assistant_blocks(o.get("content"));
    let api = get_text(o, "api");
    let provider = get_text(o, "provider");
    let model = get_text(o, "model");
    let response_id = get_opt_text(o, "responseId");
    let upstream_provider = get_opt_text(o, "upstreamProvider");
    let usage = get_usage(o, "usage");
    let stop_reason = get_stop(o, "stopReason");
    let stop_details = get_any(o, "stopDetails");
    let error_message = get_opt_text(o, "errorMessage");
    let error_status = get_opt_short(o, "errorStatus");
    let timestamp = get_int(o, "timestamp");
    let duration = get_opt_uint(o, "duration");
    let ttft = get_opt_uint(o, "ttft");
    match (content, api, provider, model, response_id, upstream_provider, usage, stop_reason, stop_details, error_message, error_status, timestamp, duration, ttft) {
        (Some(content), Some(api), Some(provider), Some(model), Some(response_id), Some(upstream_provider), Some(usage), Some(stop_reason), Some(stop_details), Some(error_message), Some(error_status), Some(timestamp), Some(duration), Some(ttft)) => Some(
            AssistantMessage { content, api, provider, model, response_id, upstream_provider, usage, stop_reason, stop_details, error_message, error_status, timestamp, duration, ttft },
        ),
        _ => None,
    }
}

/// The tool result that members hold.
pub open spec fn result_from(o: Entries) -> Option<ToolResultMessageView> {
    let tool_call_id = text_at(o, "toolCallId"@);
    let tool_name = text_at(o, "toolName"@);
    let content = user_blocks_from(json::lookup(o, "content"@));
    let details = Some(present(o, "details"@));
    let is_error = bool_at(o, "isError"@);
    let timestamp = int_at(o, "timestamp"@);
    if tool_call_id is Some && tool_name is Some && content is Some && details is Some && is_error is Some && timestamp is Some {
        Some(
            ToolResultMessageView {
                tool_call_id: tool_call_id.unwrap(),
                tool_name: tool_name.unwrap(),
                content: content.unwrap(),
                details: details.unwrap(),
                is_error: is_error.unwrap(),
                timestamp: timestamp.unwrap(),
            },
        )
    } else {
        None
    }
}

fn read_result(o: &JsonObject) -> (r: Option<ToolResultMessage>)
    ensures
        text::opt_view(r) == result_from(o@),
{
    let tool_call_id = get_text(o, "toolCallId");
    let tool_name = get_text(o, "toolName");
    let content = read_user_blocks(o.get("content"));
    let details = get_any(o, "details");
    let is_error = get_bool(o, "isError");
    let timestamp = get_int(o, "timestamp");
    match (tool_call_id, tool_name, content, details, is_error, timestamp) {
        (Some(tool_call_id), Some(tool_name), Some(content), Some(details), Some(is_error), Some(timestamp)) => Some(
            ToolResultMessage { tool_call_id, tool_name, content, details, is_error, timestamp },
        ),
        _ => None,
    }
}

/// The user message that a value holds behind its kind.
pub open spec fn user_in(v: JsonView) -> Option<UserMessageView> {
    match members_from(v, 1, user_names()) {
        Some(o) => user_from(o),
        None => None,
    }
}

fn find_user(v: &Json) -> (r: Option<UserMessage>)
    ensures
        text::opt_view(r) == user_in(v@),
{
    match find_members(v, 1, list_user_names()) {
        Some(m) => read_user(m.object()),
        None => None,
    }
}

/// The developer message that a value holds behind its kind.
pub open spec fn developer_in(v: JsonView) -> Option<DeveloperMessageView> {
    match members_from(v, 1, developer_names()) {
        Some(o) => developer_from(o),
        None => None,
    }
}

fn find_developer(v: &Json) -> (r: Option<DeveloperMessage>)
    ensures
        text::opt_view(r) == developer_in(v@),
{
    match find_members(v, 1, list_developer_names()) {
        Some(m) => read_developer(m.object()),
        None => None,
    }
}

/// The assistant message that a value holds behind its kind.
pub open spec fn assistant_in(v: JsonView) -> Option<AssistantMessageView> {
    match members_from(v, 1, assistant_names()) {
        Some(o) => assistant_from(o),
        None => None,
    }
}

fn find_assistant(v: &Json) -> (r: Option<AssistantMessage>)
    ensures
        text::opt_view(r) == assistant_in(v@),
{
    match find_members(v, 1, list_assistant_names()) {
        Some(m) => read_assistant(m.object()),
        None => None,
    }
}

/// The tool result that a value holds behind its kind.
pub open spec fn result_in(v: JsonView) -> Option<ToolResultMessageView> {
    match members_from(v, 1, result_names()) {
        Some(o) => result_from(o),
        None => None,
    }
}

fn find_result(v: &Json) -> (r: Option<ToolResultMessage>)
    ensures
        text::opt_view(r) == result_in(v@),
{
    match find_members(v, 1, list_result_names()) {
        Some(m) => read_result(m.object()),
        None => None,
    }
}

/// The message that a value holds, told by its role.
pub open spec fn message_from(v: JsonView) -> Option<MessageView> {
    match json::text_of(tag_of(v, "role"@)) {
        None => None,
        Some(kind) => if kind == "user"@ {
            match user_in(v) {
                Some(x) => Some(MessageView::User(x)),
                None => None,
            }
        } else if kind == "developer"@ {
            match developer_in(v) {
                Some(x) => Some(MessageView::Developer(x)),
                None => None,
            }
        } else if kind == "assistant"@ {
            match assistant_in(v) {
                Some(x) => Some(MessageView::Assistant(x)),
                None => None,
            }
        } else if kind == "toolResult"@ {
            match result_in(v) {
                Some(x) => Some(MessageView::ToolResult(x)),
                None => None,
            }
        } else {
            None
        },
    }
}

/// The message that a value holds, told by its role.
pub fn read_message(v: &Json) -> (r: Option<Message>)
    ensures
        text::opt_view(r) == message_from(v@),
{
    match as_text(find_tag(v, "role")) {
        None => None,
        Some(kind) => if same_text(kind, "user") {
            match find_user(v) {
                Some(x) => Some(Message::User(x)),
                None => None,
            }
        } else if same_text(kind, "developer") {
            match find_developer(v) {
                Some(x) => Some(Message::Developer(x)),
                None => None,
            }
        } else if same_text(kind, "assistant") {
            match find_assistant(v) {
                Some(x) => Some(Message::Assistant(x)),
                None => None,
            }
        } else if same_text(kind, "toolResult") {
            match find_result(v) {
                Some(x) => Some(Message::ToolResult(x)),
                None => None,
            }
        } else {
            None
        },
    }
}

// ------------------------------------------------------------------ what is written is read back

proof fn lemma_lookup_joined(a: Entries, b: Entries, k: Seq<char>, from: int)
    requires
        0 <= from <= a.len(),
    ensures
        json::find_key(a + b, k, from) == (match json::find_key(a, k, from) {
            Some(i) => Some(i),
            None => match json::find_key(b, k, 0) {
                Some(j) => Some(a.len() + j),
                None => None,
            },
        }),
    decreases a.len() - from,
{
    if from < a.len() {
        assert((a + b)[from] == a[from]);
        if a[from].0 != k {
            lemma_lookup_joined(a, b, k, from + 1);
        }
    } else {
        lemma_lookup_shifted(a, b, k, 0);
    }
}

proof fn lemma_lookup_shifted(a: Entries, b: Entries, k: Seq<char>, from: int)
    requires
        0 <= from <= b.len(),
    ensures
        json::find_key(a + b, k, a.len() + from) == (match json::find_key(b, k, from) {
            Some(j) => Some(a.len() + j),
            None => None,
        }),
    decreases b.len() - from,
{
    if from < b.len() {
        assert((a + b)[a.len() + from] == b[from]);
        if b[from].0 != k {
            lemma_lookup_shifted(a, b, k, from + 1);
        }
    }
}

/// What stands in members that were put one after the other.
pub proof fn lemma_lookups()
    ensures
        forall|a: Entries, b: Entries, k: Seq<char>| #[trigger]
            json::lookup(a + b, k) == (match json::lookup(a, k) {
                Some(v) => Some(v),
                None => json::lookup(b, k),
            }),
        forall|n: Seq<char>, v: JsonView, k: Seq<char>| #[trigger]
            json::lookup(one(n, v), k) == (if n == k {
                Some(v)
            } else {
                None
            }),
        forall|n: Seq<char>, v: Option<JsonView>, k: Seq<char>| #[trigger]
            json::lookup(maybe(n, v), k) == (if n == k {
                v
            } else {
                None
            }),
{
    assert forall|a: Entries, b: Entries, k: Seq<char>| #[trigger]
        json::lookup(a + b, k) == (match json::lookup(a, k) {
            Some(v) => Some(v),
            None => json::lookup(b, k),
        }) by {
        lemma_lookup_joined(a, b, k, 0);
        json::lemma_find_key(a, k, 0);
        json::lemma_find_key(b, k, 0);
    }
    assert forall|n: Seq<char>, v: JsonView, k: Seq<char>| #[trigger]
        json::lookup(one(n, v), k) == (if n == k {
            Some(v)
        } else {
            None
        }) by {
        reveal_with_fuel(json::find_key, 2);
    }
    assert forall|n: Seq<char>, v: Option<JsonView>, k: Seq<char>| #[trigger]
        json::lookup(maybe(n, v), k) == (if n == k {
            v
        } else {
            None
        }) by {
        reveal_with_fuel(json::find_key, 2);
    }
}

/// What stands under a name.
#[verifier::opaque]
spec fn got(o: Entries, k: Seq<char>) -> Option<JsonView> {
    json::lookup(o, k)
}

proof fn lemma_got()
    ensures
        forall|a: Entries, b: Entries, k: Seq<char>| #[trigger]
            got(a + b, k) == (match got(a, k) {
                Some(v) => Some(v),
                None => got(b, k),
            }),
        forall|n: Seq<char>, v: JsonView, k: Seq<char>| #[trigger]
            got(one(n, v), k) == (if n == k {
                Some(v)
            } else {
                None
            }),
        forall|n: Seq<char>, v: Option<JsonView>, k: Seq<char>| #[trigger]
            got(maybe(n, v), k) == (if n == k {
                v
            } else {
                None
            }),
{
    reveal(got);
    lemma_lookups();
}

proof fn lemma_text_names()
    ensures
        "type"@ != "text"@,
        "type"@ != "textSignature"@,
        "text"@ != "textSignature"@,
{
    reveal_strlit("type");
    assert("type"@.len() == 4);
    reveal_strlit("text");
    assert("text"@.len() == 4);
    reveal_strlit("textSignature");
    assert("textSignature"@.len() == 13);
    assert("type"@[1] != "text"@[1]);
}

proof fn lemma_image_names()
    ensures
        "type"@ != "data"@,
        "type"@ != "mimeType"@,
        "data"@ != "mimeType"@,
{
    reveal_strlit("type");
    assert("type"@.len() == 4);
    reveal_strlit("data");
    assert("data"@.len() == 4);
    reveal_strlit("mimeType");
    assert("mimeType"@.len() == 8);
    assert("type"@[0] != "data"@[0]);
}

proof fn lemma_thinking_names()
    ensures
        "type"@ != "thinking"@,
        "type"@ != "thinkingSignature"@,
        "thinking"@ != "thinkingSignature"@,
{
    reveal_strlit("type");
    assert("type"@.len() == 4);
    reveal_strlit("thinking");
    assert("thinking"@.len() == 8);
    reveal_strlit("thinkingSignature");
    assert("thinkingSignature"@.len() == 17);
}

proof fn lemma_call_names()
    ensures
        "type"@ != "id"@,
        "type"@ != "name"@,
        "type"@ != "arguments"@,
        "type"@ != "thoughtSignature"@,
        "id"@ != "name"@,
        "id"@ != "arguments"@,
        "id"@ != "thoughtSignature"@,
        "name"@ != "arguments"@,
        "name"@ != "thoughtSignature"@,
        "arguments"@ != "thoughtSignature"@,
{
    reveal_strlit("type");
    assert("type"@.len() == 4);
    reveal_strlit("id");
    assert("id"@.len() == 2);
    reveal_strlit("name");
    assert("name"@.len() == 4);
    reveal_strlit("arguments");
    assert("arguments"@.len() == 9);
    reveal_strlit("thoughtSignature");
    assert("thoughtSignature"@.len() == 16);
    assert("type"@[0] != "name"@[0]);
}

proof fn lemma_block_tags()
    ensures
        "text"@ != "thinking"@,
        "text"@ != "redactedThinking"@,
        "text"@ != "image"@,
        "text"@ != "toolCall"@,
        "thinking"@ != "redactedThinking"@,
        "thinking"@ != "image"@,
        "thinking"@ != "toolCall"@,
        "redactedThinking"@ != "image"@,
        "redactedThinking"@ != "toolCall"@,
        "image"@ != "toolCall"@,
{
    reveal_strlit("text");
    assert("text"@.len() == 4);
    reveal_strlit("thinking");
    assert("thinking"@.len() == 8);
    reveal_strlit("redactedThinking");
    assert("redactedThinking"@.len() == 16);
    reveal_strlit("image");
    assert("image"@.len() == 5);
    reveal_strlit("toolCall");
    assert("toolCall"@.len() == 8);
    assert("thinking"@[1] != "toolCall"@[1]);
}

proof fn lemma_cost_names()
    ensures
        "input"@ != "output"@,
        "input"@ != "cacheRead"@,
        "input"@ != "cacheWrite"@,
        "input"@ != "total"@,
        "output"@ != "cacheRead"@,
        "output"@ != "cacheWrite"@,
        "output"@ != "total"@,
        "cacheRead"@ != "cacheWrite"@,
        "cacheRead"@ != "total"@,
        "cacheWrite"@ != "total"@,
{
    reveal_strlit("input");
    assert("input"@.len() == 5);
    reveal_strlit("output");
    assert("output"@.len() == 6);
    reveal_strlit("cacheRead");
    assert("cacheRead"@.len() == 9);
    reveal_strlit("cacheWrite");
    assert("cacheWrite"@.len() == 10);
    reveal_strlit("total");
    assert("total"@.len() == 5);
    assert("input"@[0] != "total"@[0]);
}

proof fn lemma_usage_names()
    ensures
        "input"@ != "output"@,
        "input"@ != "cacheRead"@,
        "input"@ != "cacheWrite"@,
        "input"@ != "totalTokens"@,
        "input"@ != "reasoningTokens"@,
        "input"@ != "cost"@,
        "output"@ != "cacheRead"@,
        "output"@ != "cacheWrite"@,
        "output"@ != "totalTokens"@,
        "output"@ != "reasoningTokens"@,
        "output"@ != "cost"@,
        "cacheRead"@ != "cacheWrite"@,
        "cacheRead"@ != "totalTokens"@,
        "cacheRead"@ != "reasoningTokens"@,
        "cacheRead"@ != "cost"@,
        "cacheWrite"@ != "totalTokens"@,
        "cacheWrite"@ != "reasoningTokens"@,
        "cacheWrite"@ != "cost"@,
        "totalTokens"@ != "reasoningTokens"@,
        "totalTokens"@ != "cost"@,
        "reasoningTokens"@ != "cost"@,
{
    reveal_strlit("input");
    assert("input"@.len() == 5);
    reveal_strlit("output");
    assert("output"@.len() == 6);
    reveal_strlit("cacheRead");
    assert("cacheRead"@.len() == 9);
    reveal_strlit("cacheWrite");
    assert("cacheWrite"@.len() == 10);
    reveal_strlit("totalTokens");
    assert("totalTokens"@.len() == 11);
    reveal_strlit("reasoningTokens");
    assert("reasoningTokens"@.len() == 15);
    reveal_strlit("cost");
    assert("cost"@.len() == 4);
}

proof fn lemma_stop_names()
    ensures
        "stop"@ != "length"@,
        "stop"@ != "toolUse"@,
        "stop"@ != "error"@,
        "stop"@ != "aborted"@,
        "length"@ != "toolUse"@,
        "length"@ != "error"@,
        "length"@ != "aborted"@,
        "toolUse"@ != "error"@,
        "toolUse"@ != "aborted"@,
        "error"@ != "aborted"@,
{
    reveal_strlit("stop");
    assert("stop"@.len() == 4);
    reveal_strlit("length");
    assert("length"@.len() == 6);
    reveal_strlit("toolUse");
    assert("toolUse"@.len() == 7);
    reveal_strlit("error");
    assert("error"@.len() == 5);
    reveal_strlit("aborted");
    assert("aborted"@.len() == 7);
    assert("toolUse"@[0] != "aborted"@[0]);
}

proof fn lemma_user_names()
    ensures
        "role"@ != "content"@,
        "role"@ != "synthetic"@,
        "role"@ != "timestamp"@,
        "content"@ != "synthetic"@,
        "content"@ != "timestamp"@,
        "synthetic"@ != "timestamp"@,
{
    reveal_strlit("role");
    assert("role"@.len() == 4);
    reveal_strlit("content");
    assert("content"@.len() == 7);
    reveal_strlit("synthetic");
    assert("synthetic"@.len() == 9);
    reveal_strlit("timestamp");
    assert("timestamp"@.len() == 9);
    assert("synthetic"@[0] != "timestamp"@[0]);
}

proof fn lemma_assistant_names()
    ensures
        "role"@ != "content"@,
        "role"@ != "api"@,
        "role"@ != "provider"@,
        "role"@ != "model"@,
        "role"@ != "responseId"@,
        "role"@ != "upstreamProvider"@,
        "role"@ != "usage"@,
        "role"@ != "stopReason"@,
        "role"@ != "stopDetails"@,
        "role"@ != "errorMessage"@,
        "role"@ != "errorStatus"@,
        "role"@ != "timestamp"@,
        "role"@ != "duration"@,
        "role"@ != "ttft"@,
        "content"@ != "api"@,
        "content"@ != "provider"@,
        "content"@ != "model"@,
        "content"@ != "responseId"@,
        "content"@ != "upstreamProvider"@,
        "content"@ != "usage"@,
        "content"@ != "stopReason"@,
        "content"@ != "stopDetails"@,
        "content"@ != "errorMessage"@,
        "content"@ != "errorStatus"@,
        "content"@ != "timestamp"@,
        "content"@ != "duration"@,
        "content"@ != "ttft"@,
        "api"@ != "provider"@,
        "api"@ != "model"@,
        "api"@ != "responseId"@,
        "api"@ != "upstreamProvider"@,
        "api"@ != "usage"@,
        "api"@ != "stopReason"@,
        "api"@ != "stopDetails"@,
        "api"@ != "errorMessage"@,
        "api"@ != "errorStatus"@,
        "api"@ != "timestamp"@,
        "api"@ != "duration"@,
        "api"@ != "ttft"@,
        "provider"@ != "model"@,
        "provider"@ != "responseId"@,
        "provider"@ != "upstreamProvider"@,
        "provider"@ != "usage"@,
        "provider"@ != "stopReason"@,
        "provider"@ != "stopDetails"@,
        "provider"@ != "errorMessage"@,
        "provider"@ != "errorStatus"@,
        "provider"@ != "timestamp"@,
        "provider"@ != "duration"@,
        "provider"@ != "ttft"@,
        "model"@ != "responseId"@,
        "model"@ != "upstreamProvider"@,
        "model"@ != "usage"@,
        "model"@ != "stopReason"@,
        "model"@ != "stopDetails"@,
        "model"@ != "errorMessage"@,
        "model"@ != "errorStatus"@,
        "model"@ != "timestamp"@,
        "model"@ != "duration"@,
        "model"@ != "ttft"@,
        "responseId"@ != "upstreamProvider"@,
        "responseId"@ != "usage"@,
        "responseId"@ != "stopReason"@,
        "responseId"@ != "stopDetails"@,
        "responseId"@ != "errorMessage"@,
        "responseId"@ != "errorStatus"@,
        "responseId"@ != "timestamp"@,
        "responseId"@ != "duration"@,
        "responseId"@ != "ttft"@,
        "upstreamProvider"@ != "usage"@,
        "upstreamProvider"@ != "stopReason"@,
        "upstreamProvider"@ != "stopDetails"@,
        "upstreamProvider"@ != "errorMessage"@,
        "upstreamProvider"@ != "errorStatus"@,
        "upstreamProvider"@ != "timestamp"@,
        "upstreamProvider"@ != "duration"@,
        "upstreamProvider"@ != "ttft"@,
        "usage"@ != "stopReason"@,
        "usage"@ != "stopDetails"@,
        "usage"@ != "errorMessage"@,
        "usage"@ != "errorStatus"@,
        "usage"@ != "timestamp"@,
        "usage"@ != "duration"@,
        "usage"@ != "ttft"@,
        "stopReason"@ != "stopDetails"@,
        "stopReason"@ != "errorMessage"@,
        "stopReason"@ != "errorStatus"@,
        "stopReason"@ != "timestamp"@,
        "stopReason"@ != "duration"@,
        "stopReason"@ != "ttft"@,
        "stopDetails"@ != "errorMessage"@,
        "stopDetails"@ != "errorStatus"@,
        "stopDetails"@ != "timestamp"@,
        "stopDetails"@ != "duration"@,
        "stopDetails"@ != "ttft"@,
        "errorMessage"@ != "errorStatus"@,
        "errorMessage"@ != "timestamp"@,
        "errorMessage"@ != "duration"@,
        "errorMessage"@ != "ttft"@,
        "errorStatus"@ != "timestamp"@,
        "errorStatus"@ != "duration"@,
        "errorStatus"@ != "ttft"@,
        "timestamp"@ != "duration"@,
        "timestamp"@ != "ttft"@,
        "duration"@ != "ttft"@,
{
    reveal_strlit("role");
    assert("role"@.len() == 4);
    reveal_strlit("content");
    assert("content"@.len() == 7);
    reveal_strlit("api");
    assert("api"@.len() == 3);
    reveal_strlit("provider");
    assert("provider"@.len() == 8);
    reveal_strlit("model");
    assert("model"@.len() == 5);
    reveal_strlit("responseId");
    assert("responseId"@.len() == 10);
    reveal_strlit("upstreamProvider");
    assert("upstreamProvider"@.len() == 16);
    reveal_strlit("usage");
    assert("usage"@.len() == 5);
    reveal_strlit("stopReason");
    assert("stopReason"@.len() == 10);
    reveal_strlit("stopDetails");
    assert("stopDetails"@.len() == 11);
    reveal_strlit("errorMessage");
    assert("errorMessage"@.len() == 12);
    reveal_strlit("errorStatus");
    assert("errorStatus"@.len() == 11);
    reveal_strlit("timestamp");
    assert("timestamp"@.len() == 9);
    reveal_strlit("duration");
    assert("duration"@.len() == 8);
    reveal_strlit("ttft");
    assert("ttft"@.len() == 4);
    assert("role"@[0] != "ttft"@[0]);
    assert("provider"@[0] != "duration"@[0]);
    assert("model"@[0] != "usage"@[0]);
    assert("responseId"@[0] != "stopReason"@[0]);
    assert("stopDetails"@[0] != "errorStatus"@[0]);
}

proof fn lemma_result_names()
    ensures
        "role"@ != "toolCallId"@,
        "role"@ != "toolName"@,
        "role"@ != "content"@,
        "role"@ != "details"@,
        "role"@ != "isError"@,
        "role"@ != "timestamp"@,
        "toolCallId"@ != "toolName"@,
        "toolCallId"@ != "content"@,
        "toolCallId"@ != "details"@,
        "toolCallId"@ != "isError"@,
        "toolCallId"@ != "timestamp"@,
        "toolName"@ != "content"@,
        "toolName"@ != "details"@,
        "toolName"@ != "isError"@,
        "toolName"@ != "timestamp"@,
        "content"@ != "details"@,
        "content"@ != "isError"@,
        "content"@ != "timestamp"@,
        "details"@ != "isError"@,
        "details"@ != "timestamp"@,
        "isError"@ != "timestamp"@,
{
    reveal_strlit("role");
    assert("role"@.len() == 4);
    reveal_strlit("toolCallId");
    assert("toolCallId"@.len() == 10);
    reveal_strlit("toolName");
    assert("toolName"@.len() == 8);
    reveal_strlit("content");
    assert("content"@.len() == 7);
    reveal_strlit("details");
    assert("details"@.len() == 7);
    reveal_strlit("isError");
    assert("isError"@.len() == 7);
    reveal_strlit("timestamp");
    assert("timestamp"@.len() == 9);
    assert("content"@[0] != "details"@[0]);
    assert("content"@[0] != "isError"@[0]);
    assert("details"@[0] != "isError"@[0]);
}

proof fn lemma_roles()
    ensures
        "user"@ != "developer"@,
        "user"@ != "assistant"@,
        "user"@ != "toolResult"@,
        "developer"@ != "assistant"@,
        "developer"@ != "toolResult"@,
        "assistant"@ != "toolResult"@,
{
    reveal_strlit("user");
    assert("user"@.len() == 4);
    reveal_strlit("developer");
    assert("developer"@.len() == 9);
    reveal_strlit("assistant");
    assert("assistant"@.len() == 9);
    reveal_strlit("toolResult");
    assert("toolResult"@.len() == 10);
    assert("developer"@[0] != "assistant"@[0]);
}

proof fn lemma_text_back(t: TextContentView)
    ensures
        text_at(text_members(t), "type"@) == Some("text"@),
        text_from(text_members(t)) == Some(t),
{
    lemma_lookups();
    lemma_text_names();
}

proof fn lemma_image_back(i: ImageContentView)
    ensures
        text_at(image_members(i), "type"@) == Some("image"@),
        image_from(image_members(i)) == Some(i),
{
    lemma_lookups();
    lemma_image_names();
}

proof fn lemma_thinking_back(t: ThinkingContentView)
    ensures
        text_at(thinking_members(t), "type"@) == Some("thinking"@),
        thinking_from(thinking_members(t)) == Some(t),
{
    lemma_lookups();
    lemma_thinking_names();
}

proof fn lemma_call_back(c: ToolCallView)
    ensures
        text_at(call_members(c), "type"@) == Some("toolCall"@),
        call_from(call_members(c)) == Some(c),
{
    lemma_lookups();
    lemma_call_names();
}

proof fn lemma_user_block_back(b: UserBlockView)
    ensures
        user_block_from(user_block_json(b)) == Some(b),
{
    lemma_block_tags();
    match b {
        UserBlockView::Text(t) => lemma_text_back(t),
        UserBlockView::Image(i) => lemma_image_back(i),
    }
}

proof fn lemma_assistant_block_back(b: AssistantBlockView)
    ensures
        assistant_block_from(assistant_block_json(b)) == Some(b),
{
    lemma_block_tags();
    match b {
        AssistantBlockView::Text(t) => lemma_text_back(t),
        AssistantBlockView::Thinking(t) => lemma_thinking_back(t),
        AssistantBlockView::RedactedThinking { data } => {
            lemma_lookups();
            lemma_image_names();
        },
        AssistantBlockView::Image(i) => lemma_image_back(i),
        AssistantBlockView::ToolCall(c) => lemma_call_back(c),
    }
}

proof fn lemma_user_blocks_back(blocks: Seq<UserBlockView>)
    ensures
        user_blocks_from(Some(user_blocks_json(blocks))) == Some(blocks),
{
    let values = blocks.map_values(|b: UserBlockView| user_block_json(b));
    assert forall|i: int| 0 <= i < values.len() implies user_block_from(#[trigger] values[i])
        == Some(blocks[i]) by {
        lemma_user_block_back(blocks[i]);
    }
    assert(Seq::new(values.len(), |i: int| user_block_from(values[i]).unwrap()) =~= blocks);
}

proof fn lemma_assistant_blocks_back(blocks: Seq<AssistantBlockView>)
    ensures
        assistant_blocks_from(Some(assistant_blocks_json(blocks))) == Some(blocks),
{
    let values = blocks.map_values(|b: AssistantBlockView| assistant_block_json(b));
    assert forall|i: int| 0 <= i < values.len() implies assistant_block_from(#[trigger] values[i])
        == Some(blocks[i]) by {
        lemma_assistant_block_back(blocks[i]);
    }
    assert(Seq::new(values.len(), |i: int| assistant_block_from(values[i]).unwrap()) =~= blocks);
}

proof fn lemma_content_back(c: UserContentView)
    ensures
        content_from(Some(content_json(c))) == Some(c),
{
    match c {
        UserContentView::Text(_) => {},
        UserContentView::Blocks(blocks) => lemma_user_blocks_back(blocks),
    }
}

/// Every amount of the cost is a floating-point number.
pub open spec fn float_cost(c: CostView) -> bool {
    &&& c.input is Float
    &&& c.output is Float
    &&& c.cache_read is Float
    &&& c.cache_write is Float
    &&& c.total is Float
}

proof fn lemma_cost_back(c: CostView)
    requires
        float_cost(c),
    ensures
        cost_json(c) is Object,
        cost_of(cost_json(c)->Object_0) == Some(c),
{
    lemma_lookups();
    lemma_cost_names();
}

proof fn lemma_usage_got(u: UsageView)
    ensures
        usage_json(u) is Object,
        got(usage_json(u)->Object_0, "input"@) == opt_uint(u.input),
        got(usage_json(u)->Object_0, "output"@) == opt_uint(u.output),
        got(usage_json(u)->Object_0, "cacheRead"@) == opt_uint(u.cache_read),
        got(usage_json(u)->Object_0, "cacheWrite"@) == opt_uint(u.cache_write),
        got(usage_json(u)->Object_0, "totalTokens"@) == opt_uint(u.total_tokens),
        got(usage_json(u)->Object_0, "reasoningTokens"@) == opt_uint(u.reasoning_tokens),
        got(usage_json(u)->Object_0, "cost"@) == (match u.cost {
            Some(c) => Some(cost_json(c)),
            None => None,
        }),
{
    lemma_got();
    lemma_usage_names();
}

proof fn lemma_usage_back(u: UsageView)
    requires
        u.cost is Some ==> float_cost(u.cost.unwrap()),
    ensures
        usage_json(u) is Object,
        usage_of(usage_json(u)->Object_0) == Some(u),
{
    reveal(got);
    lemma_usage_got(u);
    match u.cost {
        Some(c) => lemma_cost_back(c),
        None => {},
    }
}

/// The message can be told from its JSON form: no `null` stands where nothing could, and costs are
/// floating-point numbers.
pub open spec fn storable(m: MessageView) -> bool {
    match m {
        MessageView::User(_) => true,
        MessageView::Developer(_) => true,
        MessageView::Assistant(a) => {
            &&& a.stop_details != Some(JsonView::Null)
            &&& a.usage.cost is Some ==> float_cost(a.usage.cost.unwrap())
        },
        MessageView::ToolResult(r) => r.details != Some(JsonView::Null),
    }
}

proof fn lemma_user_back(m: UserMessageView)
    ensures
        text_at(user_members(m), "role"@) == Some("user"@),
        user_from(user_members(m)) == Some(m),
{
    lemma_lookups();
    lemma_user_names();
    lemma_content_back(m.content);
}

proof fn lemma_developer_back(m: DeveloperMessageView)
    ensures
        text_at(developer_members(m), "role"@) == Some("developer"@),
        developer_from(developer_members(m)) == Some(m),
{
    lemma_lookups();
    lemma_user_names();
    lemma_content_back(m.content);
}

proof fn lemma_assistant_got(m: AssistantMessageView)
    ensures
        got(assistant_members(m), "role"@) == Some(jtext("assistant"@)),
        got(assistant_members(m), "content"@) == Some(assistant_blocks_json(m.content)),
        got(assistant_members(m), "api"@) == Some(jtext(m.api)),
        got(assistant_members(m), "provider"@) == Some(jtext(m.provider)),
        got(assistant_members(m), "model"@) == Some(jtext(m.model)),
        got(assistant_members(m), "responseId"@) == opt_text(m.response_id),
        got(assistant_members(m), "upstreamProvider"@) == opt_text(m.upstream_provider),
        got(assistant_members(m), "usage"@) == Some(usage_json(m.usage)),
        got(assistant_members(m), "stopReason"@) == Some(jtext(types::stop_name(m.stop_reason))),
        got(assistant_members(m), "stopDetails"@) == m.stop_details,
        got(assistant_members(m), "errorMessage"@) == opt_text(m.error_message),
        got(assistant_members(m), "errorStatus"@) == opt_uint(match m.error_status {
            Some(n) => Some(n as u64),
            None => None,
        }),
        got(assistant_members(m), "timestamp"@) == Some(jint(m.timestamp)),
        got(assistant_members(m), "duration"@) == opt_uint(m.duration),
        got(assistant_members(m), "ttft"@) == opt_uint(m.ttft),
{
    lemma_got();
    lemma_assistant_names();
}

proof fn lemma_assistant_back(m: AssistantMessageView)
    requires
        storable(MessageView::Assistant(m)),
    ensures
        text_at(assistant_members(m), "role"@) == Some("assistant"@),
        assistant_from(assistant_members(m)) == Some(m),
{
    reveal(got);
    lemma_assistant_got(m);
    lemma_assistant_blocks_back(m.content);
    lemma_usage_back(m.usage);
    lemma_stop_names();
}

proof fn lemma_result_back(m: ToolResultMessageView)
    requires
        storable(MessageView::ToolResult(m)),
    ensures
        text_at(result_members(m), "role"@) == Some("toolResult"@),
        result_from(result_members(m)) == Some(m),
{
    lemma_lookups();
    lemma_result_names();
    lemma_user_blocks_back(m.content);
}

/// What is written of a message reads back as that message.
pub proof fn law_written_messages_read_back(m: MessageView)
    requires
        storable(m),
    ensures
        message_from(message_json(m)) == Some(m),
{
    lemma_roles();
    match m {
        MessageView::User(u) => lemma_user_back(u),
        MessageView::Developer(d) => lemma_developer_back(d),
        MessageView::Assistant(a) => lemma_assistant_back(a),
        MessageView::ToolResult(r) => lemma_result_back(r),
    }
}

} // verus!
