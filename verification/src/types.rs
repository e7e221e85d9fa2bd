//! The message model shared by providers, the agent loop and the session journal.
//!
//! Every [`Usage`] bucket is optional: usage that a provider does not report stays unknown
//! and is never taken for zero.
use crate::json::{Entries, Json, JsonObject, JsonView, Number, NumberView};
use crate::text;
use crate::text::{clone_all, clone_opt, clone_opt_string, clone_strings};
use vstd::prelude::*;

verus! {

// ------------------------------------------------------------------ content blocks

/// A piece of text.
#[derive(Debug, PartialEq)]
pub struct TextContent {
    pub text: String,
    pub text_signature: Option<String>,
}

/// What a [`TextContent`] stands for.
#[verifier::ext_equal]
pub struct TextContentView {
    pub text: Seq<char>,
    pub text_signature: Option<Seq<char>>,
}

impl View for TextContent {
    type V = TextContentView;

    open spec fn view(&self) -> TextContentView {
        TextContentView {
            text: self.text@,
            text_signature: text::opt_view(self.text_signature),
        }
    }
}

impl Clone for TextContent {
    fn clone(&self) -> (r: TextContent)
        ensures
            r@ == self@,
    {
        TextContent {
            text: self.text.clone(),
            text_signature: clone_opt_string(&self.text_signature),
        }
    }
}

/// A piece of reasoning.
#[derive(Debug, PartialEq)]
pub struct ThinkingContent {
    pub thinking: String,
    pub thinking_signature: Option<String>,
}

/// What a [`ThinkingContent`] stands for.
#[verifier::ext_equal]
pub struct ThinkingContentView {
    pub thinking: Seq<char>,
    pub thinking_signature: Option<Seq<char>>,
}

impl View for ThinkingContent {
    type V = ThinkingContentView;

    open spec fn view(&self) -> ThinkingContentView {
        ThinkingContentView {
            thinking: self.thinking@,
            thinking_signature: text::opt_view(self.thinking_signature),
        }
    }
}

impl Clone for ThinkingContent {
    fn clone(&self) -> (r: ThinkingContent)
        ensures
            r@ == self@,
    {
        ThinkingContent {
            thinking: self.thinking.clone(),
            thinking_signature: clone_opt_string(&self.thinking_signature),
        }
    }
}

/// A picture.
#[derive(Debug, PartialEq)]
pub struct ImageContent {
    /// Base64 encoded bytes.
    pub data: String,
    pub mime_type: String,
}

/// What a [`ImageContent`] stands for.
#[verifier::ext_equal]
pub struct ImageContentView {
    pub data: Seq<char>,
    pub mime_type: Seq<char>,
}

impl View for ImageContent {
    type V = ImageContentView;

    open spec fn view(&self) -> ImageContentView {
        ImageContentView {
            data: self.data@,
            mime_type: self.mime_type@,
        }
    }
}

impl Clone for ImageContent {
    fn clone(&self) -> (r: ImageContent)
        ensures
            r@ == self@,
    {
        ImageContent {
            data: self.data.clone(),
            mime_type: self.mime_type.clone(),
        }
    }
}

/// A request of the model to run a tool.
#[derive(Debug, PartialEq)]
pub struct ToolCall {
    pub id: String,
    pub name: String,
    pub arguments: JsonObject,
    pub thought_signature: Option<String>,
}

/// What a [`ToolCall`] stands for.
#[verifier::ext_equal]
pub struct ToolCallView {
    pub id: Seq<char>,
    pub name: Seq<char>,
    pub arguments: Entries,
    pub thought_signature: Option<Seq<char>>,
}

impl View for ToolCall {
    type V = ToolCallView;

    open spec fn view(&self) -> ToolCallView {
        ToolCallView {
            id: self.id@,
            name: self.name@,
            arguments: self.arguments@,
            thought_signature: text::opt_view(self.thought_signature),
        }
    }
}

impl Clone for ToolCall {
    fn clone(&self) -> (r: ToolCall)
        ensures
            r@ == self@,
    {
        ToolCall {
            id: self.id.clone(),
            name: self.name.clone(),
            arguments: self.arguments.clone(),
            thought_signature: clone_opt_string(&self.thought_signature),
        }
    }
}

/// Content allowed in user, developer and tool-result messages.
#[derive(Debug, PartialEq)]
pub enum UserBlock {
    Text(TextContent),
    Image(ImageContent),
}

/// What a [`UserBlock`] stands for.
#[verifier::ext_equal]
pub enum UserBlockView {
    Text(TextContentView),
    Image(ImageContentView),
}

impl View for UserBlock {
    type V = UserBlockView;

    open spec fn view(&self) -> UserBlockView {
        match self {
            UserBlock::Text(a) => UserBlockView::Text(a@),
            UserBlock::Image(a) => UserBlockView::Image(a@),
        }
    }
}

impl Clone for UserBlock {
    fn clone(&self) -> (r: UserBlock)
        ensures
            r@ == self@,
    {
        match self {
            UserBlock::Text(a) => UserBlock::Text(a.clone()),
            UserBlock::Image(a) => UserBlock::Image(a.clone()),
        }
    }
}

/// Content allowed in assistant messages.
#[derive(Debug, PartialEq)]
pub enum AssistantBlock {
    Text(TextContent),
    Thinking(ThinkingContent),
    RedactedThinking { data: String },
    Image(ImageContent),
    ToolCall(ToolCall),
}

/// What a [`AssistantBlock`] stands for.
#[verifier::ext_equal]
pub enum AssistantBlockView {
    Text(TextContentView),
    Thinking(ThinkingContentView),
    RedactedThinking { data: Seq<char> },
    Image(ImageContentView),
    ToolCall(ToolCallView),
}

impl View for AssistantBlock {
    type V = AssistantBlockView;

    open spec fn view(&self) -> AssistantBlockView {
        match self {
            AssistantBlock::Text(a) => AssistantBlockView::Text(a@),
            AssistantBlock::Thinking(a) => AssistantBlockView::Thinking(a@),
            AssistantBlock::RedactedThinking { data } => AssistantBlockView::RedactedThinking { data: data@ },
            AssistantBlock::Image(a) => AssistantBlockView::Image(a@),
            AssistantBlock::ToolCall(a) => AssistantBlockView::ToolCall(a@),
        }
    }
}

impl Clone for AssistantBlock {
    fn clone(&self) -> (r: AssistantBlock)
        ensures
            r@ == self@,
    {
        match self {
            AssistantBlock::Text(a) => AssistantBlock::Text(a.clone()),
            AssistantBlock::Thinking(a) => AssistantBlock::Thinking(a.clone()),
            AssistantBlock::RedactedThinking { data } => AssistantBlock::RedactedThinking { data: data.clone() },
            AssistantBlock::Image(a) => AssistantBlock::Image(a.clone()),
            AssistantBlock::ToolCall(a) => AssistantBlock::ToolCall(a.clone()),
        }
    }
}

/// A text, or a list of blocks.
#[derive(Debug, PartialEq)]
pub enum UserContent {
    Text(String),
    Blocks(Vec<UserBlock>),
}

/// What a [`UserContent`] stands for.
#[verifier::ext_equal]
pub enum UserContentView {
    Text(Seq<char>),
    Blocks(Seq<UserBlockView>),
}

impl View for UserContent {
    type V = UserContentView;

    open spec fn view(&self) -> UserContentView {
        match self {
            UserContent::Text(a) => UserContentView::Text(a@),
            UserContent::Blocks(a) => UserContentView::Blocks(text::views((*a)@)),
        }
    }
}

impl Clone for UserContent {
    fn clone(&self) -> (r: UserContent)
        ensures
            r@ == self@,
    {
        match self {
            UserContent::Text(a) => UserContent::Text(a.clone()),
            UserContent::Blocks(a) => UserContent::Blocks(clone_all(a)),
        }
    }
}

/// Why an assistant turn ended.
#[derive(Clone, Copy, Debug, PartialEq, Eq, Structural)]
pub enum StopReason {
    Stop,
    Length,
    ToolUse,
    Error,
    Aborted,
}

// ------------------------------------------------------------------ usage

/// What a call cost, as the provider reported it.
#[derive(Debug, PartialEq)]
pub struct Cost {
    pub input: Number,
    pub output: Number,
    pub cache_read: Number,
    pub cache_write: Number,
    pub total: Number,
}

/// What a [`Cost`] stands for.
#[verifier::ext_equal]
pub struct CostView {
    pub input: NumberView,
    pub output: NumberView,
    pub cache_read: NumberView,
    pub cache_write: NumberView,
    pub total: NumberView,
}

impl View for Cost {
    type V = CostView;

    open spec fn view(&self) -> CostView {
        CostView {
            input: self.input@,
            output: self.output@,
            cache_read: self.cache_read@,
            cache_write: self.cache_write@,
            total: self.total@,
        }
    }
}

impl Clone for Cost {
    fn clone(&self) -> (r: Cost)
        ensures
            r@ == self@,
    {
        Cost {
            input: self.input.clone(),
            output: self.output.clone(),
            cache_read: self.cache_read.clone(),
            cache_write: self.cache_write.clone(),
            total: self.total.clone(),
        }
    }
}

/// Token usage. `None` means that the provider did not report the bucket, never zero.
#[derive(Debug, PartialEq)]
pub struct Usage {
    pub input: Option<u64>,
    pub output: Option<u64>,
    pub cache_read: Option<u64>,
    pub cache_write: Option<u64>,
    pub total_tokens: Option<u64>,
    pub reasoning_tokens: Option<u64>,
    /// The cost that the provider reported, where it reported one.
    pub cost: Option<Cost>,
}

/// What a [`Usage`] stands for.
#[verifier::ext_equal]
pub struct UsageView {
    pub input: Option<u64>,
    pub output: Option<u64>,
    pub cache_read: Option<u64>,
    pub cache_write: Option<u64>,
    pub total_tokens: Option<u64>,
    pub reasoning_tokens: Option<u64>,
    pub cost: Option<CostView>,
}

impl View for Usage {
    type V = UsageView;

    open spec fn view(&self) -> UsageView {
        UsageView {
            input: self.input,
            output: self.output,
            cache_read: self.cache_read,
            cache_write: self.cache_write,
            total_tokens: self.total_tokens,
            reasoning_tokens: self.reasoning_tokens,
            cost: text::opt_view(self.cost),
        }
    }
}

impl Clone for Usage {
    fn clone(&self) -> (r: Usage)
        ensures
            r@ == self@,
    {
        Usage {
            input: self.input,
            output: self.output,
            cache_read: self.cache_read,
            cache_write: self.cache_write,
            total_tokens: self.total_tokens,
            reasoning_tokens: self.reasoning_tokens,
            cost: clone_opt(&self.cost),
        }
    }
}

// ------------------------------------------------------------------ messages

/// A message of the user.
#[derive(Debug, PartialEq)]
pub struct UserMessage {
    pub content: UserContent,
    pub synthetic: Option<bool>,
    pub timestamp: i64,
}

/// What a [`UserMessage`] stands for.
#[verifier::ext_equal]
pub struct UserMessageView {
    pub content: UserContentView,
    pub synthetic: Option<bool>,
    pub timestamp: i64,
}

impl View for UserMessage {
    type V = UserMessageView;

    open spec fn view(&self) -> UserMessageView {
        UserMessageView {
            content: self.content@,
            synthetic: self.synthetic,
            timestamp: self.timestamp,
        }
    }
}

impl Clone for UserMessage {
    fn clone(&self) -> (r: UserMessage)
        ensures
            r@ == self@,
    {
        UserMessage {
            content: self.content.clone(),
            synthetic: self.synthetic,
            timestamp: self.timestamp,
        }
    }
}

/// A message of the developer.
#[derive(Debug, PartialEq)]
pub struct DeveloperMessage {
    pub content: UserContent,
    pub timestamp: i64,
}

/// What a [`DeveloperMessage`] stands for.
#[verifier::ext_equal]
pub struct DeveloperMessageView {
    pub content: UserContentView,
    pub timestamp: i64,
}

impl View for DeveloperMessage {
    type V = DeveloperMessageView;

    open spec fn view(&self) -> DeveloperMessageView {
        DeveloperMessageView {
            content: self.content@,
            timestamp: self.timestamp,
        }
    }
}

impl Clone for DeveloperMessage {
    fn clone(&self) -> (r: DeveloperMessage)
        ensures
            r@ == self@,
    {
        DeveloperMessage {
            content: self.content.clone(),
            timestamp: self.timestamp,
        }
    }
}

/// A turn of the model.
#[derive(Debug, PartialEq)]
pub struct AssistantMessage {
    pub content: Vec<AssistantBlock>,
    pub api: String,
    pub provider: String,
    pub model: String,
    pub response_id: Option<String>,
    pub upstream_provider: Option<String>,
    pub usage: Usage,
    pub stop_reason: StopReason,
    pub stop_details: Option<Json>,
    pub error_message: Option<String>,
    pub error_status: Option<u16>,
    pub timestamp: i64,
    /// Request duration in milliseconds.
    pub duration: Option<u64>,
    /// Time to first token in milliseconds.
    pub ttft: Option<u64>,
}

/// What a [`AssistantMessage`] stands for.
#[verifier::ext_equal]
pub struct AssistantMessageView {
    pub content: Seq<AssistantBlockView>,
    pub api: Seq<char>,
    pub provider: Seq<char>,
    pub model: Seq<char>,
    pub response_id: Option<Seq<char>>,
    pub upstream_provider: Option<Seq<char>>,
    pub usage: UsageView,
    pub stop_reason: StopReason,
    pub stop_details: Option<JsonView>,
    pub error_message: Option<Seq<char>>,
    pub error_status: Option<u16>,
    pub timestamp: i64,
    pub duration: Option<u64>,
    pub ttft: Option<u64>,
}

impl View for AssistantMessage {
    type V = AssistantMessageView;

    open spec fn view(&self) -> AssistantMessageView {
        AssistantMessageView {
            content: text::views(self.content@),
            api: self.api@,
            provider: self.provider@,
            model: self.model@,
            response_id: text::opt_view(self.response_id),
            upstream_provider: text::opt_view(self.upstream_provider),
            usage: self.usage@,
            stop_reason: self.stop_reason,
            stop_details: text::opt_view(self.stop_details),
            error_message: text::opt_view(self.error_message),
            error_status: self.error_status,
            timestamp: self.timestamp,
            duration: self.duration,
            ttft: self.ttft,
        }
    }
}

impl Clone for AssistantMessage {
    fn clone(&self) -> (r: AssistantMessage)
        ensures
            r@ == self@,
    {
        AssistantMessage {
            content: clone_all(&self.content),
            api: self.api.clone(),
            provider: self.provider.clone(),
            model: self.model.clone(),
            response_id: clone_opt_string(&self.response_id),
            upstream_provider: clone_opt_string(&self.upstream_provider),
            usage: self.usage.clone(),
            stop_reason: self.stop_reason,
            stop_details: clone_opt(&self.stop_details),
            error_message: clone_opt_string(&self.error_message),
            error_status: self.error_status,
            timestamp: self.timestamp,
            duration: self.duration,
            ttft: self.ttft,
        }
    }
}

/// The result of a tool call.
#[derive(Debug, PartialEq)]
pub struct ToolResultMessage {
    pub tool_call_id: String,
    pub tool_name: String,
    pub content: Vec<UserBlock>,
    pub details: Option<Json>,
    pub is_error: bool,
    pub timestamp: i64,
}

/// What a [`ToolResultMessage`] stands for.
#[verifier::ext_equal]
pub struct ToolResultMessageView {
    pub tool_call_id: Seq<char>,
    pub tool_name: Seq<char>,
    pub content: Seq<UserBlockView>,
    pub details: Option<JsonView>,
    pub is_error: bool,
    pub timestamp: i64,
}

impl View for ToolResultMessage {
    type V = ToolResultMessageView;

    open spec fn view(&self) -> ToolResultMessageView {
        ToolResultMessageView {
            tool_call_id: self.tool_call_id@,
            tool_name: self.tool_name@,
            content: text::views(self.content@),
            details: text::opt_view(self.details),
            is_error: self.is_error,
            timestamp: self.timestamp,
        }
    }
}

impl Clone for ToolResultMessage {
    fn clone(&self) -> (r: ToolResultMessage)
        ensures
            r@ == self@,
    {
        ToolResultMessage {
            tool_call_id: self.tool_call_id.clone(),
            tool_name: self.tool_name.clone(),
            content: clone_all(&self.content),
            details: clone_opt(&self.details),
            is_error: self.is_error,
            timestamp: self.timestamp,
        }
    }
}

/// One entry of a transcript.
#[derive(Debug, PartialEq)]
pub enum Message {
    User(UserMessage),
    Developer(DeveloperMessage),
    Assistant(AssistantMessage),
    ToolResult(ToolResultMessage),
}

/// What a [`Message`] stands for.
#[verifier::ext_equal]
pub enum MessageView {
    User(UserMessageView),
    Developer(DeveloperMessageView),
    Assistant(AssistantMessageView),
    ToolResult(ToolResultMessageView),
}

impl View for Message {
    type V = MessageView;

    open spec fn view(&self) -> MessageView {
        match self {
            Message::User(a) => MessageView::User(a@),
            Message::Developer(a) => MessageView::Developer(a@),
            Message::Assistant(a) => MessageView::Assistant(a@),
            Message::ToolResult(a) => MessageView::ToolResult(a@),
        }
    }
}

impl Clone for Message {
    fn clone(&self) -> (r: Message)
        ensures
            r@ == self@,
    {
        match self {
            Message::User(a) => Message::User(a.clone()),
            Message::Developer(a) => Message::Developer(a.clone()),
            Message::Assistant(a) => Message::Assistant(a.clone()),
            Message::ToolResult(a) => Message::ToolResult(a.clone()),
        }
    }
}

// ------------------------------------------------------------------ requests

/// A tool definition sent to the model.
#[derive(Debug, PartialEq)]
pub struct Tool {
    pub name: String,
    pub description: String,
    /// JSON Schema object for the arguments.
    pub parameters: Json,
}

/// What a [`Tool`] stands for.
#[verifier::ext_equal]
pub struct ToolView {
    pub name: Seq<char>,
    pub description: Seq<char>,
    pub parameters: JsonView,
}

impl View for Tool {
    type V = ToolView;

    open spec fn view(&self) -> ToolView {
        ToolView {
            name: self.name@,
            description: self.description@,
            parameters: self.parameters@,
        }
    }
}

impl Clone for Tool {
    fn clone(&self) -> (r: Tool)
        ensures
            r@ == self@,
    {
        Tool {
            name: self.name.clone(),
            description: self.description.clone(),
            parameters: self.parameters.clone(),
        }
    }
}

/// What a model call sees.
#[derive(Debug, PartialEq)]
pub struct Context {
    pub system_prompt: Vec<String>,
    pub messages: Vec<Message>,
    /// `None` means that tools were not specified; an empty list that there are none.
    pub tools: Option<Vec<Tool>>,
}

/// What a [`Context`] stands for.
#[verifier::ext_equal]
pub struct ContextView {
    pub system_prompt: Seq<Seq<char>>,
    pub messages: Seq<MessageView>,
    pub tools: Option<Seq<ToolView>>,
}

impl View for Context {
    type V = ContextView;

    open spec fn view(&self) -> ContextView {
        ContextView {
            system_prompt: text::views(self.system_prompt@),
            messages: text::views(self.messages@),
            tools: match self.tools { Some(v) => Some(text::views(v@)), None => None },
        }
    }
}

impl Clone for Context {
    fn clone(&self) -> (r: Context)
        ensures
            r@ == self@,
    {
        Context {
            system_prompt: clone_strings(&self.system_prompt),
            messages: clone_all(&self.messages),
            tools: match &self.tools { Some(v) => Some(clone_all(v)), None => None },
        }
    }
}

/// A directive on which tool to call.
#[derive(Debug, PartialEq)]
pub enum ToolChoice {
    Auto,
    NoTool,
    Required,
    Tool(String),
}

/// What a [`ToolChoice`] stands for.
#[verifier::ext_equal]
pub enum ToolChoiceView {
    Auto,
    NoTool,
    Required,
    Tool(Seq<char>),
}

impl View for ToolChoice {
    type V = ToolChoiceView;

    open spec fn view(&self) -> ToolChoiceView {
        match self {
            ToolChoice::Auto => ToolChoiceView::Auto,
            ToolChoice::NoTool => ToolChoiceView::NoTool,
            ToolChoice::Required => ToolChoiceView::Required,
            ToolChoice::Tool(a) => ToolChoiceView::Tool(a@),
        }
    }
}

impl Clone for ToolChoice {
    fn clone(&self) -> (r: ToolChoice)
        ensures
            r@ == self@,
    {
        match self {
            ToolChoice::Auto => ToolChoice::Auto,
            ToolChoice::NoTool => ToolChoice::NoTool,
            ToolChoice::Required => ToolChoice::Required,
            ToolChoice::Tool(a) => ToolChoice::Tool(a.clone()),
        }
    }
}

/// A model endpoint selected by the host.
#[derive(Debug, PartialEq)]
pub struct Model {
    /// Local model id; also sent on the wire.
    pub id: String,
    /// Wire API, such as `openai-completions`.
    pub api: String,
    /// Provider label recorded on messages.
    pub provider: String,
    pub base_url: String,
    pub reasoning: bool,
    pub max_tokens: Option<u64>,
}

/// What a [`Model`] stands for.
#[verifier::ext_equal]
pub struct ModelView {
    pub id: Seq<char>,
    pub api: Seq<char>,
    pub provider: Seq<char>,
    pub base_url: Seq<char>,
    pub reasoning: bool,
    pub max_tokens: Option<u64>,
}

impl View for Model {
    type V = ModelView;

    open spec fn view(&self) -> ModelView {
        ModelView {
            id: self.id@,
            api: self.api@,
            provider: self.provider@,
            base_url: self.base_url@,
            reasoning: self.reasoning,
            max_tokens: self.max_tokens,
        }
    }
}

impl Clone for Model {
    fn clone(&self) -> (r: Model)
        ensures
            r@ == self@,
    {
        Model {
            id: self.id.clone(),
            api: self.api.clone(),
            provider: self.provider.clone(),
            base_url: self.base_url.clone(),
            reasoning: self.reasoning,
            max_tokens: self.max_tokens,
        }
    }
}

// ------------------------------------------------------------------ time

/// `SystemTime::now` and `duration_since`: milliseconds since the Unix epoch, or nothing where
/// the clock stands before it. What the clock says is open.
#[verifier::external_body]
fn clock_millis() -> (r: Option<u128>) {
    std::time::SystemTime::now().duration_since(std::time::UNIX_EPOCH).ok().map(|d| d.as_millis())
}

/// A clock reading as a timestamp: zero where the clock stands before the epoch.
pub fn timestamp_of(millis: Option<u128>) -> (r: i64)
    ensures
        r == (match millis {
            Some(m) => m as i64,
            None => 0,
        }),
{
    match millis {
        Some(m) => #[verifier::truncate] (m as i64),
        None => 0,
    }
}

/// Milliseconds since the Unix epoch.
pub fn now_ms() -> (r: i64) {
    timestamp_of(clock_millis())
}

// ------------------------------------------------------------------ reading messages

/// The texts of the text blocks, in order.
pub open spec fn user_texts(blocks: Seq<UserBlockView>) -> Seq<Seq<char>>
    decreases blocks.len(),
{
    if blocks.len() == 0 {
        Seq::empty()
    } else {
        let rest = user_texts(blocks.drop_last());
        match blocks.last() {
            UserBlockView::Text(t) => rest.push(t.text),
            UserBlockView::Image(_) => rest,
        }
    }
}

/// The texts of the text blocks, in order.
pub fn text_blocks(blocks: &Vec<UserBlock>) -> (r: Vec<String>)
    ensures
        text::views(r@) == user_texts(text::views(blocks@)),
{
    let mut out: Vec<String> = Vec::new();
    let mut i: usize = 0;
    let ghost all = text::views(blocks@);
    while i < blocks.len()
        invariant
            i <= blocks@.len(),
            all == text::views(blocks@),
            text::views(out@) == user_texts(all.take(i as int)),
        decreases blocks@.len() - i,
    {
        proof {
            assert(all.take(i as int + 1).drop_last() =~= all.take(i as int));
        }
        match &blocks[i] {
            UserBlock::Text(t) => {
                let ghost before = out@;
                out.push(t.text.clone());
                proof {
                    assert(text::views(out@) =~= text::views(before).push(t.text@));
                }
            },
            UserBlock::Image(_) => {},
        }
        i += 1;
    }
    assert(all.take(blocks@.len() as int) =~= all);
    out
}

/// The tool calls among the blocks, in order.
pub open spec fn tool_calls(blocks: Seq<AssistantBlockView>) -> Seq<ToolCallView>
    decreases blocks.len(),
{
    if blocks.len() == 0 {
        Seq::empty()
    } else {
        let rest = tool_calls(blocks.drop_last());
        match blocks.last() {
            AssistantBlockView::ToolCall(c) => rest.push(c),
            _ => rest,
        }
    }
}

/// The visible text of the blocks.
pub open spec fn visible_text(blocks: Seq<AssistantBlockView>) -> Seq<char>
    decreases blocks.len(),
{
    if blocks.len() == 0 {
        Seq::empty()
    } else {
        let rest = visible_text(blocks.drop_last());
        match blocks.last() {
            AssistantBlockView::Text(t) => rest + t.text,
            _ => rest,
        }
    }
}

impl UserBlock {
    /// A text block.
    pub fn text(text: &str) -> (r: UserBlock)
        ensures
            r@ == UserBlockView::Text(TextContentView { text: text@, text_signature: None }),
    {
        UserBlock::Text(TextContent { text: text.to_owned(), text_signature: None })
    }
}

impl AssistantBlock {
    /// A text block.
    pub fn text(text: &str) -> (r: AssistantBlock)
        ensures
            r@ == AssistantBlockView::Text(TextContentView { text: text@, text_signature: None }),
    {
        AssistantBlock::Text(TextContent { text: text.to_owned(), text_signature: None })
    }

    /// The tool call that the block holds, if it is one.
    pub fn as_tool_call(&self) -> (r: Option<&ToolCall>)
        ensures
            text::opt_view(r) == (match self@ {
                AssistantBlockView::ToolCall(c) => Some(c),
                _ => None,
            }),
    {
        match self {
            AssistantBlock::ToolCall(call) => Some(call),
            _ => None,
        }
    }
}

/// The text of a user content: the text itself, or the text blocks on lines of their own.
pub open spec fn plain_text(content: UserContentView) -> Seq<char> {
    match content {
        UserContentView::Text(t) => t,
        UserContentView::Blocks(blocks) => text::join(user_texts(blocks), "\n"@),
    }
}

impl UserContent {
    /// The text parts, on lines of their own; pictures are left out.
    pub fn plain_text(&self) -> (r: String)
        ensures
            r@ == plain_text(self@),
    {
        match self {
            UserContent::Text(text) => text.clone(),
            UserContent::Blocks(blocks) => {
                let texts = text_blocks(blocks);
                text::join_strings(&texts, "\n")
            },
        }
    }
}

impl StopReason {
    /// The name of the reason on the wire.
    pub fn as_str(self) -> (r: &'static str)
        ensures
            r@ == stop_name(self),
    {
        match self {
            StopReason::Stop => "stop",
            StopReason::Length => "length",
            StopReason::ToolUse => "toolUse",
            StopReason::Error => "error",
            StopReason::Aborted => "aborted",
        }
    }
}

/// The name of a stop reason on the wire.
pub open spec fn stop_name(reason: StopReason) -> Seq<char> {
    match reason {
        StopReason::Stop => "stop"@,
        StopReason::Length => "length"@,
        StopReason::ToolUse => "toolUse"@,
        StopReason::Error => "error"@,
        StopReason::Aborted => "aborted"@,
    }
}

/// Usage of which nothing was reported.
pub open spec fn unknown_usage() -> UsageView {
    UsageView {
        input: None,
        output: None,
        cache_read: None,
        cache_write: None,
        total_tokens: None,
        reasoning_tokens: None,
        cost: None,
    }
}

impl Usage {
    /// Usage for a call whose provider reported nothing.
    pub fn unknown() -> (r: Usage)
        ensures
            r@ == unknown_usage(),
    {
        Usage {
            input: None,
            output: None,
            cache_read: None,
            cache_write: None,
            total_tokens: None,
            reasoning_tokens: None,
            cost: None,
        }
    }

    /// Whether neither conversation bucket nor the total was reported.
    pub fn is_unknown(&self) -> (r: bool)
        ensures
            r == (self@.input is None && self@.output is None && self@.total_tokens is None),
    {
        self.input.is_none() && self.output.is_none() && self.total_tokens.is_none()
    }
}

impl UserMessage {
    /// A text message with a given timestamp.
    pub fn text_at(text: &str, timestamp: i64) -> (r: UserMessage)
        ensures
            r@ == (UserMessageView {
                content: UserContentView::Text(text@),
                synthetic: None,
                timestamp,
            }),
    {
        UserMessage { content: UserContent::Text(text.to_owned()), synthetic: None, timestamp }
    }

    /// A text message of now.
    pub fn text(text: &str) -> (r: UserMessage)
        ensures
            r@.content == UserContentView::Text(text@),
            r@.synthetic is None,
    {
        UserMessage::text_at(text, now_ms())
    }
}

/// An assistant message without content.
pub open spec fn empty_assistant(
    api: Seq<char>,
    provider: Seq<char>,
    model: Seq<char>,
    timestamp: i64,
) -> AssistantMessageView {
    AssistantMessageView {
        content: Seq::empty(),
        api,
        provider,
        model,
        response_id: None,
        upstream_provider: None,
        usage: unknown_usage(),
        stop_reason: StopReason::Stop,
        stop_details: None,
        error_message: None,
        error_status: None,
        timestamp,
        duration: None,
        ttft: None,
    }
}

impl AssistantMessage {
    /// A message without content and with a given timestamp.
    pub fn empty_at(api: &str, provider: &str, model: &str, timestamp: i64) -> (r: AssistantMessage)
        ensures
            r@ == empty_assistant(api@, provider@, model@, timestamp),
    {
        let r = AssistantMessage {
            content: Vec::new(),
            api: api.to_owned(),
            provider: provider.to_owned(),
            model: model.to_owned(),
            response_id: None,
            upstream_provider: None,
            usage: Usage::unknown(),
            stop_reason: StopReason::Stop,
            stop_details: None,
            error_message: None,
            error_status: None,
            timestamp,
            duration: None,
            ttft: None,
        };
        assert(r@.content =~= Seq::empty());
        r
    }

    /// A message of now without content.
    pub fn empty(api: &str, provider: &str, model: &str) -> (r: AssistantMessage)
        ensures
            r@ == empty_assistant(api@, provider@, model@, r@.timestamp),
    {
        AssistantMessage::empty_at(api, provider, model, now_ms())
    }

    /// The tool calls of the message, in order.
    pub fn tool_calls(&self) -> (r: Vec<&ToolCall>)
        ensures
            text::views(r@) == tool_calls(self@.content),
    {
        let mut out: Vec<&ToolCall> = Vec::new();
        let mut i: usize = 0;
        let ghost all = text::views(self.content@);
        while i < self.content.len()
            invariant
                i <= self.content@.len(),
                all == text::views(self.content@),
                text::views(out@) == tool_calls(all.take(i as int)),
            decreases self.content@.len() - i,
        {
            proof {
                assert(all.take(i as int + 1).drop_last() =~= all.take(i as int));
            }
            match &self.content[i] {
                AssistantBlock::ToolCall(c) => {
                    let ghost before = out@;
                    out.push(c);
                    proof {
                        assert(text::views(out@) =~= text::views(before).push(c@));
                    }
                },
                _ => {},
            }
            i += 1;
        }
        assert(all.take(self.content@.len() as int) =~= all);
        out
    }

    /// The visible text of the message.
    pub fn text(&self) -> (r: String)
        ensures
            r@ == visible_text(self@.content),
    {
        let mut out = String::new();
        let mut i: usize = 0;
        let ghost all = text::views(self.content@);
        while i < self.content.len()
            invariant
                i <= self.content@.len(),
                all == text::views(self.content@),
                out@ == visible_text(all.take(i as int)),
            decreases self.content@.len() - i,
        {
            proof {
                assert(all.take(i as int + 1).drop_last() =~= all.take(i as int));
            }
            match &self.content[i] {
                AssistantBlock::Text(t) => {
                    out.append(t.text.as_str());
                },
                _ => {},
            }
            i += 1;
        }
        assert(all.take(self.content@.len() as int) =~= all);
        out
    }
}

/// The name of a message's role.
pub open spec fn role_name(m: MessageView) -> Seq<char> {
    match m {
        MessageView::User(_) => "user"@,
        MessageView::Developer(_) => "developer"@,
        MessageView::Assistant(_) => "assistant"@,
        MessageView::ToolResult(_) => "toolResult"@,
    }
}

impl Message {
    /// The name of the role.
    pub fn role(&self) -> (r: &'static str)
        ensures
            r@ == role_name(self@),
    {
        match self {
            Message::User(_) => "user",
            Message::Developer(_) => "developer",
            Message::Assistant(_) => "assistant",
            Message::ToolResult(_) => "toolResult",
        }
    }

    /// The assistant message, if it is one.
    pub fn as_assistant(&self) -> (r: Option<&AssistantMessage>)
        ensures
            text::opt_view(r) == (match self@ {
                MessageView::Assistant(m) => Some(m),
                _ => None,
            }),
    {
        match self {
            Message::Assistant(m) => Some(m),
            _ => None,
        }
    }
}

} // verus!
