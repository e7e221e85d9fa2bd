//! Requests in the OpenAI Chat Completions format.
use crate::json;
use crate::json::{object_1, object_2, object_3, Json, JsonObject, JsonView, Number, NumberView};
use crate::text;
use crate::text::{clone_opt, clone_opt_string, is_blank, same_text, Space};
use crate::transform;
use crate::transform::transform_messages_at;
use crate::types;
use crate::types::{
    now_ms, AssistantBlock, AssistantBlockView, AssistantMessage, AssistantMessageView, Context,
    ContextView, ImageContent, ImageContentView, Message, MessageView, Model, ModelView, Tool,
    ToolCall, ToolCallView, ToolChoice, ToolChoiceView, ToolResultMessage, ToolResultMessageView,
    ToolView, UserBlock, UserBlockView, UserContent, UserContentView,
};
use vstd::prelude::*;

verus! {

/// The name of the wire API.
pub const API: &'static str = "openai-completions";

/// What stands for a picture that a model cannot see.
pub const NON_VISION_IMAGE_PLACEHOLDER: &'static str = "[image omitted: model does not support vision]";

/// The member that carries the limit on output tokens.
#[derive(Clone, Copy, Debug, PartialEq, Eq, Structural)]
pub enum MaxTokensField {
    MaxTokens,
    MaxCompletionTokens,
}

/// What the host says of the endpoint.
#[derive(Clone, Copy, Debug, PartialEq, Eq, Structural)]
pub struct OpenAICompat {
    pub supports_developer_role: bool,
    pub supports_usage_in_streaming: bool,
    pub supports_images: bool,
    pub max_tokens_field: MaxTokensField,
}

impl Default for OpenAICompat {
    fn default() -> (r: OpenAICompat)
        ensures
            r == (OpenAICompat {
                supports_developer_role: false,
                supports_usage_in_streaming: true,
                supports_images: true,
                max_tokens_field: MaxTokensField::MaxTokens,
            }),
    {
        OpenAICompat {
            supports_developer_role: false,
            supports_usage_in_streaming: true,
            supports_images: true,
            max_tokens_field: MaxTokensField::MaxTokens,
        }
    }
}

/// How often and when a request is repeated.
#[derive(Clone, Copy, Debug, PartialEq, Eq, Structural)]
pub struct RetryPolicy {
    /// All attempts, the first included.
    pub max_attempts: u32,
    /// The first delay in milliseconds; it doubles with each attempt.
    pub base_delay: u64,
    /// The longest delay in milliseconds.
    pub max_delay: u64,
}

impl Default for RetryPolicy {
    fn default() -> (r: RetryPolicy)
        ensures
            r == (RetryPolicy { max_attempts: 6, base_delay: 500, max_delay: 60_000 }),
    {
        RetryPolicy { max_attempts: 6, base_delay: 500, max_delay: 60_000 }
    }
}

/// What a model call is made with.
pub struct StreamOptions {
    pub api_key: Option<String>,
    pub max_tokens: Option<u64>,
    pub temperature: Option<Number>,
    pub tool_choice: Option<ToolChoice>,
    /// Milliseconds to the first event; without it there is no watchdog.
    pub first_event_timeout: Option<u64>,
    /// Milliseconds to the next event; without it there is no watchdog.
    pub idle_timeout: Option<u64>,
    pub extra_headers: Vec<(String, String)>,
    pub compat: OpenAICompat,
    pub retry: RetryPolicy,
}

impl Default for StreamOptions {
    fn default() -> (r: StreamOptions)
        ensures
            r.api_key is None,
            r.max_tokens is None,
            r.temperature is None,
            r.tool_choice is None,
            r.first_event_timeout == Some(300_000u64),
            r.idle_timeout == Some(300_000u64),
            r.extra_headers@.len() == 0,
            r.compat == (OpenAICompat {
                supports_developer_role: false,
                supports_usage_in_streaming: true,
                supports_images: true,
                max_tokens_field: MaxTokensField::MaxTokens,
            }),
            r.retry == (RetryPolicy { max_attempts: 6, base_delay: 500, max_delay: 60_000 }),
    {
        StreamOptions {
            api_key: None,
            max_tokens: None,
            temperature: None,
            tool_choice: None,
            first_event_timeout: Some(300_000),
            idle_timeout: Some(300_000),
            extra_headers: Vec::new(),
            compat: OpenAICompat::default(),
            retry: RetryPolicy::default(),
        }
    }
}

/// What a single model call may set.
pub struct CallOptions {
    pub tool_choice: Option<ToolChoice>,
    pub max_tokens: Option<u64>,
    pub temperature: Option<Number>,
}

impl Default for CallOptions {
    fn default() -> (r: CallOptions)
        ensures
            r.tool_choice is None,
            r.max_tokens is None,
            r.temperature is None,
    {
        CallOptions { tool_choice: None, max_tokens: None, temperature: None }
    }
}

/// The first value that is there.
pub open spec fn first_of<T>(a: Option<T>, b: Option<T>) -> Option<T> {
    match a {
        Some(_) => a,
        None => b,
    }
}

/// Pairs of texts.
pub open spec fn pairs(s: Seq<(String, String)>) -> Seq<(Seq<char>, Seq<char>)> {
    s.map_values(|p: (String, String)| (p.0@, p.1@))
}

fn clone_pairs(v: &Vec<(String, String)>) -> (r: Vec<(String, String)>)
    ensures
        pairs(r@) == pairs(v@),
{
    let mut out: Vec<(String, String)> = Vec::new();
    let mut i: usize = 0;
    while i < v.len()
        invariant
            i <= v@.len(),
            out@.len() == i,
            forall|j: int| 0 <= j < i ==> out@[j].0@ == v@[j].0@ && out@[j].1@ == v@[j].1@,
        decreases v@.len() - i,
    {
        out.push((v[i].0.clone(), v[i].1.clone()));
        i += 1;
    }
    assert(pairs(out@) =~= pairs(v@));
    out
}

impl StreamOptions {
    /// The options of one call: what the call sets goes before what is set for all calls.
    pub fn for_call(&self, call: &CallOptions) -> (r: StreamOptions)
        ensures
            text::opt_view(r.tool_choice) == first_of(
                text::opt_view(call.tool_choice),
                text::opt_view(self.tool_choice),
            ),
            r.max_tokens == first_of(call.max_tokens, self.max_tokens),
            text::opt_view(r.temperature) == first_of(
                text::opt_view(call.temperature),
                text::opt_view(self.temperature),
            ),
            text::opt_view(r.api_key) == text::opt_view(self.api_key),
            r.first_event_timeout == self.first_event_timeout,
            r.idle_timeout == self.idle_timeout,
            pairs(r.extra_headers@) == pairs(self.extra_headers@),
            r.compat == self.compat,
            r.retry == self.retry,
    {
        StreamOptions {
            api_key: clone_opt_string(&self.api_key),
            max_tokens: match call.max_tokens {
                Some(n) => Some(n),
                None => self.max_tokens,
            },
            temperature: match &call.temperature {
                Some(n) => Some(n.clone()),
                None => clone_opt(&self.temperature),
            },
            tool_choice: match &call.tool_choice {
                Some(c) => Some(c.clone()),
                None => clone_opt(&self.tool_choice),
            },
            first_event_timeout: self.first_event_timeout,
            idle_timeout: self.idle_timeout,
            extra_headers: clone_pairs(&self.extra_headers),
            compat: self.compat,
            retry: self.retry,
        }
    }
}

// ------------------------------------------------------------------ parts of a message

/// Whether a text shows something.
pub open spec fn shows(s: Seq<char>) -> bool {
    !text::all_space(Space::Unicode, s)
}

/// A text as JSON.
pub open spec fn jstr(s: Seq<char>) -> JsonView {
    JsonView::String(s)
}

/// A message with a role and a content.
pub open spec fn role_message(role: Seq<char>, content: JsonView) -> JsonView {
    JsonView::Object(seq![("role"@, jstr(role)), ("content"@, content)])
}

/// A text part.
pub open spec fn text_part(s: Seq<char>) -> JsonView {
    JsonView::Object(seq![("type"@, jstr("text"@)), ("text"@, jstr(s))])
}

/// A picture part: its bytes as a data URL.
pub open spec fn image_part(img: ImageContentView) -> JsonView {
    JsonView::Object(
        seq![
            ("type"@, jstr("image_url"@)),
            (
                "image_url"@,
                JsonView::Object(
                    seq![
                        ("url"@, jstr("data:"@ + img.mime_type + ";base64,"@ + img.data)),
                    ],
                ),
            ),
        ],
    )
}

/// The system messages: one for each prompt that shows something.
pub open spec fn system_messages(prompts: Seq<Seq<char>>) -> Seq<JsonView>
    decreases prompts.len(),
{
    if prompts.len() == 0 {
        Seq::empty()
    } else {
        let rest = system_messages(prompts.drop_last());
        if shows(prompts.last()) {
            rest.push(role_message("system"@, jstr(prompts.last())))
        } else {
            rest
        }
    }
}

/// The parts of user blocks: texts that show something and, where they are supported, pictures.
pub open spec fn shown_parts(blocks: Seq<UserBlockView>, images: bool) -> Seq<JsonView>
    decreases blocks.len(),
{
    if blocks.len() == 0 {
        Seq::empty()
    } else {
        let rest = shown_parts(blocks.drop_last(), images);
        match blocks.last() {
            UserBlockView::Text(t) => if shows(t.text) {
                rest.push(text_part(t.text))
            } else {
                rest
            },
            UserBlockView::Image(img) => if images {
                rest.push(image_part(img))
            } else {
                rest
            },
        }
    }
}

/// Whether there is a picture among the blocks.
pub open spec fn has_image(blocks: Seq<UserBlockView>) -> bool {
    exists|i: int| 0 <= i < blocks.len() && (#[trigger] blocks[i]) is Image
}

/// The parts of user blocks, with a note where pictures are left out.
pub open spec fn user_parts(blocks: Seq<UserBlockView>, images: bool) -> Seq<JsonView> {
    let parts = shown_parts(blocks, images);
    if has_image(blocks) && !images {
        parts.push(text_part(NON_VISION_IMAGE_PLACEHOLDER@))
    } else {
        parts
    }
}

/// The messages of a user content: none where it shows nothing. Blocks always go under the
/// role of the user.
pub open spec fn user_messages(role: Seq<char>, content: UserContentView, images: bool) -> Seq<
    JsonView,
> {
    match content {
        UserContentView::Text(t) => if shows(t) {
            seq![role_message(role, jstr(t))]
        } else {
            Seq::empty()
        },
        UserContentView::Blocks(blocks) => if user_parts(blocks, images).len() > 0 {
            seq![role_message("user"@, JsonView::Array(user_parts(blocks, images)))]
        } else {
            Seq::empty()
        },
    }
}

/// The text of an assistant turn: its text blocks that show something, one after the other.
pub open spec fn spoken(blocks: Seq<AssistantBlockView>) -> Seq<char>
    decreases blocks.len(),
{
    if blocks.len() == 0 {
        Seq::empty()
    } else {
        let rest = spoken(blocks.drop_last());
        match blocks.last() {
            AssistantBlockView::Text(t) => if shows(t.text) {
                rest + t.text
            } else {
                rest
            },
            _ => rest,
        }
    }
}

/// A tool call on the wire.
pub open spec fn wire_call(id: Seq<char>, call: ToolCallView) -> JsonView {
    JsonView::Object(
        seq![
            ("id"@, jstr(id)),
            ("type"@, jstr("function"@)),
            (
                "function"@,
                JsonView::Object(
                    seq![
                        ("name"@, jstr(call.name)),
                        ("arguments"@, jstr(json::compact(JsonView::Object(call.arguments)))),
                    ],
                ),
            ),
        ],
    )
}

/// The text of a tool result, with what stands for its pictures.
pub open spec fn result_text(r: ToolResultMessageView, images: bool) -> Seq<char> {
    let texts = text::join(types::user_texts(r.content), "\n"@);
    if has_image(r.content) && !images {
        if texts.len() == 0 {
            NON_VISION_IMAGE_PLACEHOLDER@
        } else {
            texts + "\n"@ + NON_VISION_IMAGE_PLACEHOLDER@
        }
    } else if texts.len() > 0 {
        texts
    } else if has_image(r.content) {
        "(see attached image)"@
    } else {
        Seq::empty()
    }
}

/// The pictures among the blocks.
pub open spec fn image_parts(blocks: Seq<UserBlockView>) -> Seq<JsonView>
    decreases blocks.len(),
{
    if blocks.len() == 0 {
        Seq::empty()
    } else {
        let rest = image_parts(blocks.drop_last());
        match blocks.last() {
            UserBlockView::Image(img) => rest.push(image_part(img)),
            UserBlockView::Text(_) => rest,
        }
    }
}

// ------------------------------------------------------------------ a transcript

/// Where the conversion of a transcript stands.
#[verifier::ext_equal]
pub struct WireView {
    /// The messages so far.
    pub params: Seq<JsonView>,
    /// How many ids were made up.
    pub generated: nat,
    /// The ids of calls with the ids that they go by on the wire, as far as no result has
    /// taken them.
    pub queue: Seq<(Seq<char>, Seq<char>)>,
    /// The pictures of the tool results that were written last.
    pub images: Seq<JsonView>,
}

/// The id that a call goes by: its own, or one that is made up of the index of the message, the
/// index of the call and a counter.
pub open spec fn wire_id(w: WireView, call: ToolCallView, message: nat, n: nat) -> Seq<char> {
    if shows(call.id) {
        call.id
    } else {
        "call_ara_"@ + text::decimal(message) + "_"@ + text::decimal(n) + "_"@ + text::decimal(
            w.generated + 1,
        )
    }
}

/// The state and the wire form after the first `n` calls of a turn.
pub open spec fn wire_calls(w: WireView, calls: Seq<ToolCallView>, message: nat, n: int) -> (
    WireView,
    Seq<JsonView>,
)
    decreases n,
{
    if n <= 0 {
        (w, Seq::empty())
    } else {
        let (v, out) = wire_calls(w, calls, message, n - 1);
        let call = calls[n - 1];
        let id = wire_id(v, call, message, (n - 1) as nat);
        (
            WireView {
                generated: if shows(call.id) {
                    v.generated
                } else {
                    v.generated + 1
                },
                queue: v.queue.push((call.id, id)),
                ..v
            },
            out.push(wire_call(id, call)),
        )
    }
}

/// The index of the first entry for `id` at or after `from`.
pub open spec fn queued(queue: Seq<(Seq<char>, Seq<char>)>, id: Seq<char>, from: int) -> Option<int>
    decreases queue.len() - from,
{
    if from < 0 || from >= queue.len() {
        None
    } else if queue[from].0 == id {
        Some(from)
    } else {
        queued(queue, id, from + 1)
    }
}

/// Writes the pictures of the last tool results, as a message of the user.
pub open spec fn with_images(w: WireView) -> WireView {
    if w.images.len() == 0 {
        w
    } else {
        WireView {
            params: w.params.push(
                role_message(
                    "user"@,
                    JsonView::Array(
                        seq![text_part("Attached image(s) from tool result:"@)] + w.images,
                    ),
                ),
            ),
            images: Seq::empty(),
            ..w
        }
    }
}

/// What an assistant turn does: it is written where it shows text or makes calls.
pub open spec fn wire_turn(w: WireView, a: AssistantMessageView, message: nat) -> WireView {
    let said = spoken(a.content);
    let calls = types::tool_calls(a.content);
    let (v, out) = wire_calls(w, calls, message, calls.len() as int);
    if calls.len() > 0 {
        WireView {
            params: v.params.push(
                JsonView::Object(
                    seq![
                        ("role"@, jstr("assistant"@)),
                        ("content"@, jstr(said)),
                        ("tool_calls"@, JsonView::Array(out)),
                    ],
                ),
            ),
            ..v
        }
    } else if said.len() > 0 {
        WireView { params: v.params.push(role_message("assistant"@, jstr(said))), ..v }
    } else {
        v
    }
}

/// What a tool result does: it takes the id of its call.
pub open spec fn wire_result(w: WireView, r: ToolResultMessageView, images: bool) -> WireView {
    let at = queued(w.queue, r.tool_call_id, 0);
    let id = match at {
        Some(i) => w.queue[i].1,
        None => r.tool_call_id,
    };
    WireView {
        params: w.params.push(
            JsonView::Object(
                seq![
                    ("role"@, jstr("tool"@)),
                    ("content"@, jstr(result_text(r, images))),
                    ("tool_call_id"@, jstr(id)),
                ],
            ),
        ),
        queue: match at {
            Some(i) => w.queue.remove(i),
            None => w.queue,
        },
        images: if images {
            w.images + image_parts(r.content)
        } else {
            w.images
        },
        ..w
    }
}

/// What one message does.
pub open spec fn wire_message(w: WireView, m: MessageView, message: nat, compat: OpenAICompat) -> WireView {
    let images = compat.supports_images;
    match m {
        MessageView::ToolResult(r) => wire_result(w, r, images),
        MessageView::Assistant(a) => wire_turn(with_images(w), a, message),
        MessageView::User(u) => {
            let v = with_images(w);
            WireView { params: v.params + user_messages("user"@, u.content, images), ..v }
        },
        MessageView::Developer(d) => {
            let v = with_images(w);
            let role = if compat.supports_developer_role {
                "developer"@
            } else {
                "user"@
            };
            WireView { params: v.params + user_messages(role, d.content, images), ..v }
        },
    }
}

/// After the first `n` messages.
pub open spec fn wired(
    prompts: Seq<Seq<char>>,
    messages: Seq<MessageView>,
    compat: OpenAICompat,
    n: int,
) -> WireView
    decreases n,
{
    if n <= 0 {
        WireView {
            params: system_messages(prompts),
            generated: 0,
            queue: Seq::empty(),
            images: Seq::empty(),
        }
    } else {
        wire_message(
            wired(prompts, messages, compat, n - 1),
            messages[n - 1],
            (n - 1) as nat,
            compat,
        )
    }
}

/// The messages of a request, for a repaired transcript.
pub open spec fn converted(
    prompts: Seq<Seq<char>>,
    messages: Seq<MessageView>,
    compat: OpenAICompat,
) -> Seq<JsonView> {
    with_images(wired(prompts, messages, compat, messages.len() as int)).params
}

// ------------------------------------------------------------------ building it

fn text_value(s: &str) -> (r: Json)
    ensures
        r@ == jstr(s@),
{
    Json::String(s.to_owned())
}

fn message_value(role: &str, content: Json) -> (r: Json)
    ensures
        r@ == role_message(role@, content@),
{
    object_2("role", text_value(role), "content", content)
}

fn part_value(s: &str) -> (r: Json)
    ensures
        r@ == text_part(s@),
{
    object_2("type", text_value("text"), "text", text_value(s))
}

fn image_url(img: &ImageContent) -> (r: Json)
    ensures
        r@ == image_part(img@),
{
    let mut url = "data:".to_owned();
    url.append(img.mime_type.as_str());
    url.append(";base64,");
    url.append(img.data.as_str());
    object_2(
        "type",
        text_value("image_url"),
        "image_url",
        object_1("url", Json::String(url)),
    )
}

fn push_json(list: &mut Vec<Json>, v: Json)
    ensures
        text::views(final(list)@) == text::views(old(list)@).push(v@),
{
    proof {
        text::lemma_views_push(list@, v);
    }
    list.push(v);
}

fn array_value(items: Vec<Json>) -> (r: Json)
    ensures
        r@ == JsonView::Array(text::views(items@)),
{
    proof {
        json::lemma_values_view(items);
    }
    Json::Array(items)
}

fn system_params(prompts: &Vec<String>) -> (r: Vec<Json>)
    ensures
        text::views(r@) == system_messages(text::views(prompts@)),
{
    let mut out: Vec<Json> = Vec::new();
    let ghost all = text::views(prompts@);
    assert(text::views(out@) =~= system_messages(all.take(0)));
    let mut i: usize = 0;
    while i < prompts.len()
        invariant
            i <= prompts@.len(),
            all == text::views(prompts@),
            text::views(out@) == system_messages(all.take(i as int)),
        decreases prompts@.len() - i,
    {
        assert(all.take(i as int + 1).drop_last() =~= all.take(i as int));
        if !is_blank(Space::Unicode, prompts[i].as_str()) {
            push_json(&mut out, message_value("system", text_value(prompts[i].as_str())));
        }
        i += 1;
    }
    assert(all.take(prompts@.len() as int) =~= all);
    out
}

fn contains_image(blocks: &Vec<UserBlock>) -> (r: bool)
    ensures
        r == has_image(text::views(blocks@)),
{
    let mut i: usize = 0;
    while i < blocks.len()
        invariant
            i <= blocks@.len(),
            forall|j: int| 0 <= j < i ==> !((#[trigger] text::views(blocks@)[j]) is Image),
        decreases blocks@.len() - i,
    {
        if matches!(&blocks[i], UserBlock::Image(_)) {
            assert(text::views(blocks@)[i as int] is Image);
            return true;
        }
        i += 1;
    }
    false
}

fn block_parts(blocks: &Vec<UserBlock>, images: bool) -> (r: Vec<Json>)
    ensures
        text::views(r@) == user_parts(text::views(blocks@), images),
{
    let mut out: Vec<Json> = Vec::new();
    let ghost all = text::views(blocks@);
    assert(text::views(out@) =~= shown_parts(all.take(0), images));
    let mut i: usize = 0;
    while i < blocks.len()
        invariant
            i <= blocks@.len(),
            all == text::views(blocks@),
            text::views(out@) == shown_parts(all.take(i as int), images),
        decreases blocks@.len() - i,
    {
        assert(all.take(i as int + 1).drop_last() =~= all.take(i as int));
        match &blocks[i] {
            UserBlock::Text(t) => {
                if !is_blank(Space::Unicode, t.text.as_str()) {
                    push_json(&mut out, part_value(t.text.as_str()));
                }
            },
            UserBlock::Image(img) => {
                if images {
                    push_json(&mut out, image_url(img));
                }
            },
        }
        i += 1;
    }
    assert(all.take(blocks@.len() as int) =~= all);
    if !images && contains_image(blocks) {
        push_json(&mut out, part_value(NON_VISION_IMAGE_PLACEHOLDER));
    }
    out
}

fn push_user(params: &mut Vec<Json>, role: &str, content: &UserContent, images: bool)
    ensures
        text::views(final(params)@) == text::views(old(params)@) + user_messages(
            role@,
            content@,
            images,
        ),
{
    let ghost before = text::views(params@);
    match content {
        UserContent::Text(t) => {
            if !is_blank(Space::Unicode, t.as_str()) {
                push_json(params, message_value(role, text_value(t.as_str())));
            }
        },
        UserContent::Blocks(blocks) => {
            let parts = block_parts(blocks, images);
            if parts.len() > 0 {
                push_json(params, message_value("user", array_value(parts)));
            }
        },
    }
    assert(text::views(params@) =~= before + user_messages(role@, content@, images));
}

fn spoken_text(a: &AssistantMessage) -> (r: String)
    ensures
        r@ == spoken(a@.content),
{
    let mut out = String::new();
    let ghost all = text::views(a.content@);
    let mut i: usize = 0;
    while i < a.content.len()
        invariant
            i <= a.content@.len(),
            all == text::views(a.content@),
            out@ == spoken(all.take(i as int)),
        decreases a.content@.len() - i,
    {
        assert(all.take(i as int + 1).drop_last() =~= all.take(i as int));
        match &a.content[i] {
            AssistantBlock::Text(t) => {
                if !is_blank(Space::Unicode, t.text.as_str()) {
                    out.append(t.text.as_str());
                }
            },
            _ => {},
        }
        i += 1;
    }
    assert(all.take(a.content@.len() as int) =~= all);
    out
}

fn serialize_tool_arguments(args: &JsonObject) -> (r: String)
    ensures
        r@ == json::compact(JsonView::Object(args@)),
{
    json::to_text(&Json::Object(args.clone()))
}

fn call_value(id: &str, call: &ToolCall) -> (r: Json)
    ensures
        r@ == wire_call(id@, call@),
{
    object_3(
        "id",
        text_value(id),
        "type",
        text_value("function"),
        "function",
        object_2(
            "name",
            text_value(call.name.as_str()),
            "arguments",
            Json::String(serialize_tool_arguments(&call.arguments)),
        ),
    )
}

fn result_content(r: &ToolResultMessage, images: bool) -> (s: String)
    ensures
        s@ == result_text(r@, images),
{
    let blocks = types::text_blocks(&r.content);
    let texts = text::join_strings(&blocks, "\n");
    let pictures = contains_image(&r.content);
    if pictures && !images {
        if texts.as_str().is_empty() {
            NON_VISION_IMAGE_PLACEHOLDER.to_owned()
        } else {
            let mut out = texts;
            out.append("\n");
            out.append(NON_VISION_IMAGE_PLACEHOLDER);
            out
        }
    } else if !texts.as_str().is_empty() {
        texts
    } else if pictures {
        "(see attached image)".to_owned()
    } else {
        String::new()
    }
}

/// The working state of the conversion.
struct Wire {
    params: Vec<Json>,
    generated: u128,
    queue: Vec<(String, String)>,
    images: Vec<Json>,
}

spec fn queue_view(q: Seq<(String, String)>) -> Seq<(Seq<char>, Seq<char>)> {
    q.map_values(|p: (String, String)| (p.0@, p.1@))
}

impl View for Wire {
    type V = WireView;

    closed spec fn view(&self) -> WireView {
        WireView {
            params: text::views(self.params@),
            generated: self.generated as nat,
            queue: queue_view(self.queue@),
            images: text::views(self.images@),
        }
    }
}

impl Wire {
    fn flush_images(&mut self)
        ensures
            final(self)@ == with_images(old(self)@),
    {
        if self.images.len() == 0 {
            assert(self@.images =~= Seq::empty());
            return;
        }
        let mut content: Vec<Json> = Vec::new();
        content.push(part_value("Attached image(s) from tool result:"));
        let ghost lead = content@;
        let ghost before = self.images@;
        content.append(&mut self.images);
        assert(text::views(content@) =~= seq![text_part("Attached image(s) from tool result:"@)]
            + text::views(before));
        push_json(&mut self.params, message_value("user", array_value(content)));
        assert(self@.images =~= Seq::empty());
    }

    fn call(&mut self, call: &ToolCall, message: usize, n: usize) -> (r: Json)
        requires
            old(self)@.generated < u128::MAX,
        ensures
            ({
                let id = wire_id(old(self)@, call@, message as nat, n as nat);
                &&& r@ == wire_call(id, call@)
                &&& final(self)@ == (WireView {
                    generated: if shows(call@.id) {
                        old(self)@.generated
                    } else {
                        old(self)@.generated + 1
                    },
                    queue: old(self)@.queue.push((call@.id, id)),
                    ..old(self)@
                })
            }),
    {
        let ghost before = self@;
        let id = if is_blank(Space::Unicode, call.id.as_str()) {
            self.generated = self.generated + 1;
            let mut made = "call_ara_".to_owned();
            made.append(text::decimal_text(message as u64).as_str());
            made.append("_");
            made.append(text::decimal_text(n as u64).as_str());
            made.append("_");
            made.append(text::wide_decimal_text(self.generated).as_str());
            made
        } else {
            call.id.clone()
        };
        let r = call_value(id.as_str(), call);
        self.queue.push((call.id.clone(), id));
        assert(self@.queue =~= before.queue.push((call@.id, id@)));
        r
    }

    fn turn(&mut self, a: &AssistantMessage, message: usize)
        requires
            old(self)@.generated + types::tool_calls(a@.content).len() <= u128::MAX,
        ensures
            final(self)@ == wire_turn(old(self)@, a@, message as nat),
            final(self)@.generated <= old(self)@.generated + types::tool_calls(a@.content).len(),
    {
        let said = spoken_text(a);
        let calls = a.tool_calls();
        let ghost start = self@;
        let ghost all = types::tool_calls(a@.content);
        let mut out: Vec<Json> = Vec::new();
        assert(text::views(out@) =~= Seq::empty());
        let mut n: usize = 0;
        while n < calls.len()
            invariant
                n <= calls@.len(),
                all == text::views(calls@),
                start.generated + all.len() <= u128::MAX,
                self@.generated <= start.generated + n,
                (self@, text::views(out@)) == wire_calls(start, all, message as nat, n as int),
            decreases calls@.len() - n,
        {
            assert(all[n as int] == calls@[n as int]@);
            let one = self.call(calls[n], message, n);
            push_json(&mut out, one);
            n += 1;
        }
        if calls.len() > 0 {
            push_json(
                &mut self.params,
                object_3(
                    "role",
                    text_value("assistant"),
                    "content",
                    Json::String(said),
                    "tool_calls",
                    array_value(out),
                ),
            );
        } else if !said.as_str().is_empty() {
            push_json(&mut self.params, message_value("assistant", Json::String(said)));
        }
    }

    fn result(&mut self, r: &ToolResultMessage, images: bool)
        ensures
            final(self)@ == wire_result(old(self)@, r@, images),
    {
        let ghost before = self@;
        let mut i: usize = 0;
        while i < self.queue.len() && !same_text(self.queue[i].0.as_str(), r.tool_call_id.as_str())
            invariant
                i <= self.queue@.len(),
                self@ == before,
                queued(before.queue, r@.tool_call_id, 0) == queued(
                    before.queue,
                    r@.tool_call_id,
                    i as int,
                ),
            decreases self.queue@.len() - i,
        {
            i += 1;
        }
        let id = if i < self.queue.len() {
            let (_, id) = self.queue.remove(i);
            assert(self@.queue =~= before.queue.remove(i as int));
            id
        } else {
            r.tool_call_id.clone()
        };
        push_json(
            &mut self.params,
            object_3(
                "role",
                text_value("tool"),
                "content",
                Json::String(result_content(r, images)),
                "tool_call_id",
                Json::String(id),
            ),
        );
        if images {
            self.add_images(&r.content);
        }
    }

    fn add_images(&mut self, blocks: &Vec<UserBlock>)
        ensures
            final(self)@ == (WireView {
                images: old(self)@.images + image_parts(text::views(blocks@)),
                ..old(self)@
            }),
    {
        let ghost before = self@;
        let ghost all = text::views(blocks@);
        let mut i: usize = 0;
        assert(before.images + image_parts(all.take(0)) =~= before.images);
        while i < blocks.len()
            invariant
                i <= blocks@.len(),
                all == text::views(blocks@),
                self@ == (WireView {
                    images: before.images + image_parts(all.take(i as int)),
                    ..before
                }),
            decreases blocks@.len() - i,
        {
            assert(all.take(i as int + 1).drop_last() =~= all.take(i as int));
            match &blocks[i] {
                UserBlock::Image(img) => {
                    let part = image_url(img);
                    push_json(&mut self.images, part);
                    assert(self@.images =~= before.images + image_parts(all.take(i as int + 1)));
                },
                UserBlock::Text(_) => {},
            }
            i += 1;
        }
        assert(all.take(blocks@.len() as int) =~= all);
    }
}

/// The messages of a request, for a repaired transcript.
pub fn convert_repaired(
    prompts: &Vec<String>,
    messages: &Vec<Message>,
    compat: &OpenAICompat,
) -> (r: Vec<Json>)
    ensures
        text::views(r@) == converted(text::views(prompts@), text::views(messages@), *compat),
{
    let mut w = Wire {
        params: system_params(prompts),
        generated: 0,
        queue: Vec::new(),
        images: Vec::new(),
    };
    let ghost all = text::views(messages@);
    assert(w@ =~= wired(text::views(prompts@), all, *compat, 0));
    let mut i: usize = 0;
    while i < messages.len()
        invariant
            i <= messages@.len(),
            all == text::views(messages@),
            w@ == wired(text::views(prompts@), all, *compat, i as int),
            w@.generated <= i * 0x1_0000_0000_0000_0000,
        decreases messages@.len() - i,
    {
        proof {
            assert(i * 0x1_0000_0000_0000_0000 + 0x1_0000_0000_0000_0000 == (i + 1)
                * 0x1_0000_0000_0000_0000) by (nonlinear_arith);
            assert((i + 1) * 0x1_0000_0000_0000_0000 <= u128::MAX + 1) by (nonlinear_arith)
                requires
                    i < 0x1_0000_0000_0000_0000,
            ;
        }
        match &messages[i] {
            Message::ToolResult(r) => w.result(r, compat.supports_images),
            Message::Assistant(a) => {
                w.flush_images();
                let count: usize = a.content.len();
                proof {
                    lemma_calls_fit(a@.content);
                }
                w.turn(a, i);
            },
            Message::User(u) => {
                w.flush_images();
                push_user(&mut w.params, "user", &u.content, compat.supports_images);
            },
            Message::Developer(d) => {
                w.flush_images();
                let role = if compat.supports_developer_role { "developer" } else { "user" };
                push_user(&mut w.params, role, &d.content, compat.supports_images);
            },
        }
        i += 1;
    }
    w.flush_images();
    w.params
}

/// There are no more calls than blocks.
proof fn lemma_calls_fit(blocks: Seq<AssistantBlockView>)
    ensures
        types::tool_calls(blocks).len() <= blocks.len(),
    decreases blocks.len(),
{
    if blocks.len() > 0 {
        lemma_calls_fit(blocks.drop_last());
    }
}

/// The messages of a request. The transcript is repaired first; what the repair writes at the
/// end carries the time of now, which does not go on the wire.
pub fn convert_messages(model: &Model, context: &Context, compat: &OpenAICompat) -> (r: Vec<Json>)
    ensures
        exists|now: i64|
            text::views(r@) == converted(
                context@.system_prompt,
                #[trigger] transform::repaired(context@.messages, now),
                *compat,
            ),
{
    let _ = model;
    let now: i64 = now_ms();
    let messages = transform_messages_at(&context.messages, now);
    assert(text::views(messages@) == transform::repaired(context@.messages, now));
    convert_repaired(&context.system_prompt, &messages, compat)
}

// ------------------------------------------------------------------ a whole request

/// A tool on the wire.
pub open spec fn wire_tool(t: ToolView) -> JsonView {
    JsonView::Object(
        seq![
            ("type"@, jstr("function"@)),
            (
                "function"@,
                JsonView::Object(
                    seq![
                        ("name"@, jstr(t.name)),
                        ("description"@, jstr(t.description)),
                        ("parameters"@, t.parameters),
                    ],
                ),
            ),
        ],
    )
}

/// Whether a transcript holds tool calls or results.
pub open spec fn tool_history(messages: Seq<MessageView>) -> bool {
    exists|i: int|
        0 <= i < messages.len() && ((#[trigger] messages[i]) is ToolResult || transform::calls_of(
            messages[i],
        ).len() > 0)
}

/// The member `tools`: the tools, or an empty list where none are specified but the transcript
/// needs them.
pub open spec fn tools_member(context: ContextView) -> json::Entries {
    match context.tools {
        Some(tools) => if tools.len() > 0 {
            seq![("tools"@, JsonView::Array(tools.map_values(|t: ToolView| wire_tool(t))))]
        } else {
            Seq::empty()
        },
        None => if tool_history(context.messages) {
            seq![("tools"@, JsonView::Array(Seq::empty()))]
        } else {
            Seq::empty()
        },
    }
}

/// Whether a tool of that name is offered.
pub open spec fn offers(tools: Option<Seq<ToolView>>, name: Seq<char>) -> bool {
    match tools {
        Some(list) => exists|i: int| 0 <= i < list.len() && (#[trigger] list[i]).name == name,
        None => false,
    }
}

/// Whether any tool is offered.
pub open spec fn offers_any(tools: Option<Seq<ToolView>>) -> bool {
    match tools {
        Some(list) => list.len() > 0,
        None => false,
    }
}

/// The member `tool_choice`: a choice that no offered tool can meet is left out.
pub open spec fn choice_member(
    choice: Option<ToolChoiceView>,
    tools: Option<Seq<ToolView>>,
) -> json::Entries {
    let wire = match choice {
        Some(ToolChoiceView::Auto) => Some(jstr("auto"@)),
        Some(ToolChoiceView::NoTool) => if offers_any(tools) {
            Some(jstr("none"@))
        } else {
            None
        },
        Some(ToolChoiceView::Required) => if offers_any(tools) {
            Some(jstr("required"@))
        } else {
            None
        },
        Some(ToolChoiceView::Tool(name)) => if offers(tools, name) {
            Some(
                JsonView::Object(
                    seq![
                        ("type"@, jstr("function"@)),
                        ("function"@, JsonView::Object(seq![("name"@, jstr(name))])),
                    ],
                ),
            )
        } else {
            None
        },
        None => None,
    };
    match wire {
        Some(v) => seq![("tool_choice"@, v)],
        None => Seq::empty(),
    }
}

/// The member with the limit on output tokens.
pub open spec fn limit_member(max: Option<u64>, field: MaxTokensField) -> json::Entries {
    let name = match field {
        MaxTokensField::MaxTokens => "max_tokens"@,
        MaxTokensField::MaxCompletionTokens => "max_completion_tokens"@,
    };
    match max {
        Some(n) => seq![(name, JsonView::Number(NumberView::PosInt(n)))],
        None => Seq::empty(),
    }
}

/// The member that asks for usage in the stream.
pub open spec fn usage_member(include_usage: bool) -> json::Entries {
    if include_usage {
        seq![
            ("stream_options"@, JsonView::Object(seq![("include_usage"@, JsonView::Bool(true))])),
        ]
    } else {
        Seq::empty()
    }
}

/// The member with the temperature.
pub open spec fn temperature_member(temperature: Option<NumberView>) -> json::Entries {
    match temperature {
        Some(t) => seq![("temperature"@, JsonView::Number(t))],
        None => Seq::empty(),
    }
}

/// The body of a request, given its messages.
pub open spec fn request_body(
    model: ModelView,
    context: ContextView,
    options: StreamOptions,
    messages: Seq<JsonView>,
) -> JsonView {
    let compat = options.compat;
    JsonView::Object(
        seq![
            ("model"@, jstr(model.id)),
            ("messages"@, JsonView::Array(messages)),
            ("stream"@, JsonView::Bool(true)),
        ] + usage_member(compat.supports_usage_in_streaming) + temperature_member(
            text::opt_view(options.temperature),
        ) + tools_member(context) + choice_member(
            text::opt_view(options.tool_choice),
            context.tools,
        ) + limit_member(options.max_tokens, compat.max_tokens_field),
    )
}

fn convert_tools(tools: &Vec<Tool>) -> (r: Vec<Json>)
    ensures
        text::views(r@) == text::views(tools@).map_values(|t: ToolView| wire_tool(t)),
{
    let mut out: Vec<Json> = Vec::new();
    let mut i: usize = 0;
    while i < tools.len()
        invariant
            i <= tools@.len(),
            out@.len() == i,
            forall|j: int| 0 <= j < i ==> out@[j]@ == wire_tool(tools@[j]@),
        decreases tools@.len() - i,
    {
        out.push(
            object_2(
                "type",
                text_value("function"),
                "function",
                object_3(
                    "name",
                    text_value(tools[i].name.as_str()),
                    "description",
                    text_value(tools[i].description.as_str()),
                    "parameters",
                    tools[i].parameters.clone(),
                ),
            ),
        );
        i += 1;
    }
    assert(text::views(out@) =~= text::views(tools@).map_values(|t: ToolView| wire_tool(t)));
    out
}

fn has_tool_history(messages: &Vec<Message>) -> (r: bool)
    ensures
        r == tool_history(text::views(messages@)),
{
    let mut i: usize = 0;
    while i < messages.len()
        invariant
            i <= messages@.len(),
            forall|j: int|
                0 <= j < i ==> !((#[trigger] text::views(messages@)[j]) is ToolResult)
                    && transform::calls_of(text::views(messages@)[j]).len() == 0,
        decreases messages@.len() - i,
    {
        let found = match &messages[i] {
            Message::Assistant(a) => {
                let calls = a.tool_calls();
                assert(text::views(calls@).len() == calls@.len());
                calls.len() > 0
            },
            Message::ToolResult(_) => true,
            _ => false,
        };
        if found {
            assert(text::views(messages@)[i as int] is ToolResult || transform::calls_of(
                text::views(messages@)[i as int],
            ).len() > 0);
            return true;
        }
        i += 1;
    }
    false
}

fn is_offered(tools: &Option<Vec<Tool>>, name: &str) -> (r: bool)
    ensures
        r == offers(
            (match *tools {
                Some(list) => Some(text::views(list@)),
                None => None,
            }),
            name@,
        ),
{
    match tools {
        Some(list) => {
            let mut i: usize = 0;
            while i < list.len()
                invariant
                    i <= list@.len(),
                    *tools == Some(*list),
                    forall|j: int| 0 <= j < i ==> (#[trigger] text::views(list@)[j]).name != name@,
                decreases list@.len() - i,
            {
                if same_text(list[i].name.as_str(), name) {
                    assert(text::views(list@)[i as int].name == name@);
                    return true;
                }
                i += 1;
            }
            false
        },
        None => false,
    }
}

fn push_member(entries: &mut JsonObject, name: &str, v: Json)
    ensures
        final(entries)@ == old(entries)@.push((name@, v@)),
{
    let ghost before = entries@;
    entries.entries.push((name.to_owned(), v));
    assert(entries@ =~= before.push((name@, v@)));
}

fn push_tools(out: &mut JsonObject, context: &Context)
    ensures
        final(out)@ == old(out)@ + tools_member(context@),
{
    let ghost so_far = out@;
    match &context.tools {
        Some(tools) => {
            if tools.len() > 0 {
                push_member(out, "tools", array_value(convert_tools(tools)));
            }
        },
        None => {
            if has_tool_history(&context.messages) {
                let none: Vec<Json> = Vec::new();
                assert(text::views(none@) =~= Seq::empty());
                push_member(out, "tools", array_value(none));
            }
        },
    }
    assert(out@ =~= so_far + tools_member(context@));
}

fn wire_choice(choice: &Option<ToolChoice>, tools: &Option<Vec<Tool>>) -> (r: Option<Json>)
    ensures
        ({
            let list = match *tools {
                Some(list) => Some(text::views(list@)),
                None => None,
            };
            choice_member(text::opt_view(*choice), list) == (match r {
                Some(v) => seq![("tool_choice"@, v@)],
                None => Seq::empty(),
            })
        }),
{
    let any = match tools {
        Some(tools) => tools.len() > 0,
        None => false,
    };
    match choice {
        Some(ToolChoice::Auto) => Some(text_value("auto")),
        Some(ToolChoice::NoTool) => if any {
            Some(text_value("none"))
        } else {
            None
        },
        Some(ToolChoice::Required) => if any {
            Some(text_value("required"))
        } else {
            None
        },
        Some(ToolChoice::Tool(name)) => if is_offered(tools, name.as_str()) {
            Some(
                object_2(
                    "type",
                    text_value("function"),
                    "function",
                    object_1("name", text_value(name.as_str())),
                ),
            )
        } else {
            None
        },
        None => None,
    }
}

fn push_choice(out: &mut JsonObject, choice: &Option<ToolChoice>, context: &Context)
    ensures
        final(out)@ == old(out)@ + choice_member(text::opt_view(*choice), context@.tools),
{
    let ghost so_far = out@;
    match wire_choice(choice, &context.tools) {
        Some(v) => push_member(out, "tool_choice", v),
        None => {},
    }
    assert(out@ =~= so_far + choice_member(text::opt_view(*choice), context@.tools));
}

fn push_limit(out: &mut JsonObject, max: Option<u64>, field: MaxTokensField)
    ensures
        final(out)@ == old(out)@ + limit_member(max, field),
{
    let ghost so_far = out@;
    match max {
        Some(n) => {
            let name = match field {
                MaxTokensField::MaxTokens => "max_tokens",
                MaxTokensField::MaxCompletionTokens => "max_completion_tokens",
            };
            push_member(out, name, Json::Number(Number::PosInt(n)));
        },
        None => {},
    }
    assert(out@ =~= so_far + limit_member(max, field));
}

fn push_usage(out: &mut JsonObject, include_usage: bool)
    ensures
        final(out)@ == old(out)@ + usage_member(include_usage),
{
    let ghost so_far = out@;
    if include_usage {
        push_member(out, "stream_options", object_1("include_usage", Json::Bool(true)));
    }
    assert(out@ =~= so_far + usage_member(include_usage));
}

fn push_temperature(out: &mut JsonObject, temperature: &Option<Number>)
    ensures
        final(out)@ == old(out)@ + temperature_member(text::opt_view(*temperature)),
{
    let ghost so_far = out@;
    match temperature {
        Some(t) => push_member(out, "temperature", Json::Number(t.clone())),
        None => {},
    }
    assert(out@ =~= so_far + temperature_member(text::opt_view(*temperature)));
}

/// The body of a request, given its messages.
pub fn build_body(
    model: &Model,
    context: &Context,
    options: &StreamOptions,
    messages: Vec<Json>,
) -> (r: Json)
    ensures
        r@ == request_body(model@, context@, *options, text::views(messages@)),
{
    let mut out = JsonObject::new();
    push_member(&mut out, "model", text_value(model.id.as_str()));
    push_member(&mut out, "messages", array_value(messages));
    push_member(&mut out, "stream", Json::Bool(true));
    assert(out@ =~= seq![
        ("model"@, jstr(model@.id)),
        ("messages"@, JsonView::Array(text::views(messages@))),
        ("stream"@, JsonView::Bool(true)),
    ]);
    push_usage(&mut out, options.compat.supports_usage_in_streaming);
    push_temperature(&mut out, &options.temperature);
    push_tools(&mut out, context);
    push_choice(&mut out, &options.tool_choice, context);
    push_limit(&mut out, options.max_tokens, options.compat.max_tokens_field);
    Json::Object(out)
}

/// The body of a request. The transcript is repaired first, as [`convert_messages`] does.
pub fn build_params(model: &Model, context: &Context, options: &StreamOptions) -> (r: Json)
    ensures
        exists|now: i64|
            r@ == request_body(
                model@,
                context@,
                *options,
                converted(
                    context@.system_prompt,
                    #[trigger] transform::repaired(context@.messages, now),
                    options.compat,
                ),
            ),
{
    let messages = convert_messages(model, context, &options.compat);
    build_body(model, context, options, messages)
}

} // verus!
