//! When messages are equal. Numbers and JSON values are compared by what they stand for: the order of
//! members does not matter.
use crate::json;
use crate::json::{numbers_equal, values_equal, Json, JsonView};
use crate::text;
use crate::text::same_text;
use crate::types::{
    AssistantBlock, AssistantBlockView, AssistantMessage, AssistantMessageView, Cost, CostView,
    ImageContent, Message, MessageView, TextContent, ToolCall, ToolCallView, ToolResultMessage,
    ToolResultMessageView, Usage, UsageView, UserBlock, UserContent, UserMessage, DeveloperMessage,
    ThinkingContent,
};
use vstd::prelude::*;

verus! {

// ------------------------------------------------------------------ parts

pub(crate) fn equal_opt_text(a: &Option<String>, b: &Option<String>) -> (r: bool)
    ensures
        r == (text::opt_view(*a) == text::opt_view(*b)),
{
    match (a, b) {
        (Some(x), Some(y)) => same_text(x, y),
        (None, None) => true,
        _ => false,
    }
}

fn equal_opt_u64(a: Option<u64>, b: Option<u64>) -> (r: bool)
    ensures
        r == (a == b),
{
    match (a, b) {
        (Some(x), Some(y)) => x == y,
        (None, None) => true,
        _ => false,
    }
}

fn equal_opt_u16(a: Option<u16>, b: Option<u16>) -> (r: bool)
    ensures
        r == (a == b),
{
    match (a, b) {
        (Some(x), Some(y)) => x == y,
        (None, None) => true,
        _ => false,
    }
}

fn equal_opt_bool(a: Option<bool>, b: Option<bool>) -> (r: bool)
    ensures
        r == (a == b),
{
    match (a, b) {
        (Some(x), Some(y)) => x == y,
        (None, None) => true,
        _ => false,
    }
}

/// Whether two values, or their absence, are equal.
pub open spec fn same_opt_value(a: Option<JsonView>, b: Option<JsonView>) -> bool {
    match (a, b) {
        (Some(x), Some(y)) => json::same_value(x, y),
        (None, None) => true,
        _ => false,
    }
}

fn equal_opt_value(a: &Option<Json>, b: &Option<Json>) -> (r: bool)
    ensures
        r == same_opt_value(text::opt_view(*a), text::opt_view(*b)),
{
    match (a, b) {
        (Some(x), Some(y)) => values_equal(x, y),
        (None, None) => true,
        _ => false,
    }
}

fn equal_text_content(a: &TextContent, b: &TextContent) -> (r: bool)
    ensures
        r == (a@ == b@),
{
    same_text(&a.text, &b.text) && equal_opt_text(&a.text_signature, &b.text_signature)
}

fn equal_image(a: &ImageContent, b: &ImageContent) -> (r: bool)
    ensures
        r == (a@ == b@),
{
    same_text(&a.data, &b.data) && same_text(&a.mime_type, &b.mime_type)
}

fn equal_user_block(a: &UserBlock, b: &UserBlock) -> (r: bool)
    ensures
        r == (a@ == b@),
{
    match (a, b) {
        (UserBlock::Text(x), UserBlock::Text(y)) => equal_text_content(x, y),
        (UserBlock::Image(x), UserBlock::Image(y)) => equal_image(x, y),
        _ => false,
    }
}

fn equal_user_blocks(a: &Vec<UserBlock>, b: &Vec<UserBlock>) -> (r: bool)
    ensures
        r == (text::views(a@) == text::views(b@)),
{
    let ghost x = text::views(a@);
    let ghost y = text::views(b@);
    if a.len() != b.len() {
        assert(x.len() != y.len());
        return false;
    }
    let mut i: usize = 0;
    while i < a.len()
        invariant
            i <= a@.len(),
            a@.len() == b@.len(),
            x == text::views(a@),
            y == text::views(b@),
            forall|j: int| 0 <= j < i ==> x[j] == y[j],
        decreases a@.len() - i,
    {
        if !equal_user_block(&a[i], &b[i]) {
            assert(x[i as int] != y[i as int]);
            return false;
        }
        i += 1;
    }
    assert(x =~= y);
    true
}

fn equal_user_content(a: &UserContent, b: &UserContent) -> (r: bool)
    ensures
        r == (a@ == b@),
{
    match (a, b) {
        (UserContent::Text(x), UserContent::Text(y)) => same_text(x, y),
        (UserContent::Blocks(x), UserContent::Blocks(y)) => equal_user_blocks(x, y),
        _ => false,
    }
}

/// Whether two messages of the user are the same.
pub fn equal_user_message(a: &UserMessage, b: &UserMessage) -> (r: bool)
    ensures
        r == (a@ == b@),
{
    equal_user_content(&a.content, &b.content) && equal_opt_bool(a.synthetic, b.synthetic)
        && a.timestamp == b.timestamp
}

fn equal_developer_message(a: &DeveloperMessage, b: &DeveloperMessage) -> (r: bool)
    ensures
        r == (a@ == b@),
{
    equal_user_content(&a.content, &b.content) && a.timestamp == b.timestamp
}

// ------------------------------------------------------------------ the assistant's

/// Whether two calls are equal.
pub open spec fn same_call(a: ToolCallView, b: ToolCallView) -> bool {
    &&& a.id == b.id
    &&& a.name == b.name
    &&& json::same_value(JsonView::Object(a.arguments), JsonView::Object(b.arguments))
    &&& a.thought_signature == b.thought_signature
}

fn equal_call(a: &ToolCall, b: &ToolCall) -> (r: bool)
    ensures
        r == same_call(a@, b@),
{
    let x = Json::Object(a.arguments.clone());
    let y = Json::Object(b.arguments.clone());
    same_text(&a.id, &b.id) && same_text(&a.name, &b.name) && values_equal(&x, &y)
        && equal_opt_text(&a.thought_signature, &b.thought_signature)
}

/// Whether two blocks are equal.
pub open spec fn same_block(a: AssistantBlockView, b: AssistantBlockView) -> bool {
    match (a, b) {
        (AssistantBlockView::ToolCall(x), AssistantBlockView::ToolCall(y)) => same_call(x, y),
        _ => a == b,
    }
}

fn equal_thinking(a: &ThinkingContent, b: &ThinkingContent) -> (r: bool)
    ensures
        r == (a@ == b@),
{
    same_text(&a.thinking, &b.thinking) && equal_opt_text(
        &a.thinking_signature,
        &b.thinking_signature,
    )
}

fn equal_block(a: &AssistantBlock, b: &AssistantBlock) -> (r: bool)
    ensures
        r == same_block(a@, b@),
{
    match (a, b) {
        (AssistantBlock::Text(x), AssistantBlock::Text(y)) => equal_text_content(x, y),
        (AssistantBlock::Thinking(x), AssistantBlock::Thinking(y)) => equal_thinking(x, y),
        (
            AssistantBlock::RedactedThinking { data: x },
            AssistantBlock::RedactedThinking { data: y },
        ) => same_text(x, y),
        (AssistantBlock::Image(x), AssistantBlock::Image(y)) => equal_image(x, y),
        (AssistantBlock::ToolCall(x), AssistantBlock::ToolCall(y)) => equal_call(x, y),
        _ => false,
    }
}

/// Whether two lists of blocks are equal.
pub open spec fn same_blocks(a: Seq<AssistantBlockView>, b: Seq<AssistantBlockView>) -> bool {
    a.len() == b.len() && forall|i: int| 0 <= i < a.len() ==> same_block(#[trigger] a[i], b[i])
}

fn equal_blocks(a: &Vec<AssistantBlock>, b: &Vec<AssistantBlock>) -> (r: bool)
    ensures
        r == same_blocks(text::views(a@), text::views(b@)),
{
    let ghost x = text::views(a@);
    let ghost y = text::views(b@);
    if a.len() != b.len() {
        return false;
    }
    let mut i: usize = 0;
    while i < a.len()
        invariant
            i <= a@.len(),
            a@.len() == b@.len(),
            x == text::views(a@),
            y == text::views(b@),
            forall|j: int| 0 <= j < i ==> same_block(#[trigger] x[j], y[j]),
        decreases a@.len() - i,
    {
        if !equal_block(&a[i], &b[i]) {
            assert(!same_block(x[i as int], y[i as int]));
            return false;
        }
        i += 1;
    }
    true
}

/// Whether two costs are equal.
pub open spec fn same_cost(a: CostView, b: CostView) -> bool {
    &&& json::same_number(a.input, b.input)
    &&& json::same_number(a.output, b.output)
    &&& json::same_number(a.cache_read, b.cache_read)
    &&& json::same_number(a.cache_write, b.cache_write)
    &&& json::same_number(a.total, b.total)
}

fn equal_cost(a: &Cost, b: &Cost) -> (r: bool)
    ensures
        r == same_cost(a@, b@),
{
    numbers_equal(&a.input, &b.input) && numbers_equal(&a.output, &b.output) && numbers_equal(
        &a.cache_read,
        &b.cache_read,
    ) && numbers_equal(&a.cache_write, &b.cache_write) && numbers_equal(&a.total, &b.total)
}

/// Whether two usages are equal.
pub open spec fn same_usage(a: UsageView, b: UsageView) -> bool {
    &&& a.input == b.input
    &&& a.output == b.output
    &&& a.cache_read == b.cache_read
    &&& a.cache_write == b.cache_write
    &&& a.total_tokens == b.total_tokens
    &&& a.reasoning_tokens == b.reasoning_tokens
    &&& match (a.cost, b.cost) {
        (Some(x), Some(y)) => same_cost(x, y),
        (None, None) => true,
        _ => false,
    }
}

fn equal_usage(a: &Usage, b: &Usage) -> (r: bool)
    ensures
        r == same_usage(a@, b@),
{
    let costs = match (&a.cost, &b.cost) {
        (Some(x), Some(y)) => equal_cost(x, y),
        (None, None) => true,
        _ => false,
    };
    costs && equal_opt_u64(a.input, b.input) && equal_opt_u64(a.output, b.output) && equal_opt_u64(
        a.cache_read,
        b.cache_read,
    ) && equal_opt_u64(a.cache_write, b.cache_write) && equal_opt_u64(
        a.total_tokens,
        b.total_tokens,
    ) && equal_opt_u64(a.reasoning_tokens, b.reasoning_tokens)
}

/// Whether two messages of the assistant are equal.
pub open spec fn same_assistant(a: AssistantMessageView, b: AssistantMessageView) -> bool {
    &&& same_blocks(a.content, b.content)
    &&& same_usage(a.usage, b.usage)
    &&& same_opt_value(a.stop_details, b.stop_details)
    &&& a == (AssistantMessageView {
        content: a.content,
        usage: a.usage,
        stop_details: a.stop_details,
        ..b
    })
}

fn equal_assistant(a: &AssistantMessage, b: &AssistantMessage) -> (r: bool)
    ensures
        r == same_assistant(a@, b@),
{
    equal_blocks(&a.content, &b.content) && equal_usage(&a.usage, &b.usage) && equal_opt_value(
        &a.stop_details,
        &b.stop_details,
    ) && same_text(&a.api, &b.api) && same_text(&a.provider, &b.provider) && same_text(
        &a.model,
        &b.model,
    ) && equal_opt_text(&a.response_id, &b.response_id) && equal_opt_text(
        &a.upstream_provider,
        &b.upstream_provider,
    ) && a.stop_reason == b.stop_reason && equal_opt_text(&a.error_message, &b.error_message)
        && equal_opt_u16(a.error_status, b.error_status) && a.timestamp == b.timestamp
        && equal_opt_u64(a.duration, b.duration) && equal_opt_u64(a.ttft, b.ttft)
}

/// Whether two tool results are equal.
pub open spec fn same_result(a: ToolResultMessageView, b: ToolResultMessageView) -> bool {
    &&& same_opt_value(a.details, b.details)
    &&& a == (ToolResultMessageView { details: a.details, ..b })
}

fn equal_result(a: &ToolResultMessage, b: &ToolResultMessage) -> (r: bool)
    ensures
        r == same_result(a@, b@),
{
    equal_opt_value(&a.details, &b.details) && same_text(&a.tool_call_id, &b.tool_call_id)
        && same_text(&a.tool_name, &b.tool_name) && equal_user_blocks(&a.content, &b.content)
        && a.is_error == b.is_error && a.timestamp == b.timestamp
}

/// Whether two messages are equal.
pub open spec fn same_message(a: MessageView, b: MessageView) -> bool {
    match (a, b) {
        (MessageView::Assistant(x), MessageView::Assistant(y)) => same_assistant(x, y),
        (MessageView::ToolResult(x), MessageView::ToolResult(y)) => same_result(x, y),
        _ => a == b,
    }
}

/// Whether two messages are equal.
pub fn equal_message(a: &Message, b: &Message) -> (r: bool)
    ensures
        r == same_message(a@, b@),
{
    match (a, b) {
        (Message::User(x), Message::User(y)) => equal_user_message(x, y),
        (Message::Developer(x), Message::Developer(y)) => equal_developer_message(x, y),
        (Message::Assistant(x), Message::Assistant(y)) => equal_assistant(x, y),
        (Message::ToolResult(x), Message::ToolResult(y)) => equal_result(x, y),
        _ => false,
    }
}

} // verus!
