//! What a request tells the model: who said what, in which order, and which calls a result
//! answers.
use crate::completions_request;
use crate::completions_request::{MaxTokensField, OpenAICompat, StreamOptions, WireView};
use crate::json;
use crate::json::{Entries, JsonView, NumberView};
use crate::text;
use crate::text::Space;
use crate::types;
use crate::types::{
    AssistantBlockView, AssistantMessageView, ContextView, MessageView, ModelView, ToolCallView,
    ToolChoiceView, ToolResultMessageView, UserBlockView,
};
use vstd::prelude::*;

verus! {

/// The names on the wire differ.
proof fn lemma_names()
    ensures
        "role"@.len() == 4,
        "role"@[0] == 'r',
        "role"@[1] == 'o',
        "content"@.len() == 7,
        "content"@[0] == 'c',
        "content"@[1] == 'o',
        "tool_calls"@.len() == 10,
        "tool_calls"@[0] == 't',
        "tool_calls"@[1] == 'o',
        "tool_call_id"@.len() == 12,
        "tool_call_id"@[0] == 't',
        "tool_call_id"@[1] == 'o',
        "id"@.len() == 2,
        "id"@[0] == 'i',
        "id"@[1] == 'd',
        "type"@.len() == 4,
        "type"@[0] == 't',
        "type"@[1] == 'y',
        "function"@.len() == 8,
        "function"@[0] == 'f',
        "function"@[1] == 'u',
        "name"@.len() == 4,
        "name"@[0] == 'n',
        "name"@[1] == 'a',
        "arguments"@.len() == 9,
        "arguments"@[0] == 'a',
        "arguments"@[1] == 'r',
        "text"@.len() == 4,
        "text"@[0] == 't',
        "text"@[1] == 'e',
        "image_url"@.len() == 9,
        "image_url"@[0] == 'i',
        "image_url"@[1] == 'm',
        "url"@.len() == 3,
        "url"@[0] == 'u',
        "url"@[1] == 'r',
        "model"@.len() == 5,
        "model"@[0] == 'm',
        "model"@[1] == 'o',
        "messages"@.len() == 8,
        "messages"@[0] == 'm',
        "messages"@[1] == 'e',
        "stream"@.len() == 6,
        "stream"@[0] == 's',
        "stream"@[1] == 't',
        "stream_options"@.len() == 14,
        "stream_options"@[0] == 's',
        "stream_options"@[1] == 't',
        "temperature"@.len() == 11,
        "temperature"@[0] == 't',
        "temperature"@[1] == 'e',
        "tools"@.len() == 5,
        "tools"@[0] == 't',
        "tools"@[1] == 'o',
        "tool_choice"@.len() == 11,
        "tool_choice"@[0] == 't',
        "tool_choice"@[1] == 'o',
        "max_tokens"@.len() == 10,
        "max_tokens"@[0] == 'm',
        "max_tokens"@[1] == 'a',
        "max_completion_tokens"@.len() == 21,
        "max_completion_tokens"@[0] == 'm',
        "max_completion_tokens"@[1] == 'a',
        "description"@.len() == 11,
        "description"@[0] == 'd',
        "description"@[1] == 'e',
        "parameters"@.len() == 10,
        "parameters"@[0] == 'p',
        "parameters"@[1] == 'a',
        "assistant"@.len() == 9,
        "assistant"@[0] == 'a',
        "assistant"@[1] == 's',
        "user"@.len() == 4,
        "user"@[0] == 'u',
        "user"@[1] == 's',
        "system"@.len() == 6,
        "system"@[0] == 's',
        "system"@[1] == 'y',
        "tool"@.len() == 4,
        "tool"@[0] == 't',
        "tool"@[1] == 'o',
        "developer"@.len() == 9,
        "developer"@[0] == 'd',
        "developer"@[1] == 'e',
{
    reveal_strlit("role");
    reveal_strlit("content");
    reveal_strlit("tool_calls");
    reveal_strlit("tool_call_id");
    reveal_strlit("id");
    reveal_strlit("type");
    reveal_strlit("function");
    reveal_strlit("name");
    reveal_strlit("arguments");
    reveal_strlit("text");
    reveal_strlit("image_url");
    reveal_strlit("url");
    reveal_strlit("model");
    reveal_strlit("messages");
    reveal_strlit("stream");
    reveal_strlit("stream_options");
    reveal_strlit("temperature");
    reveal_strlit("tools");
    reveal_strlit("tool_choice");
    reveal_strlit("max_tokens");
    reveal_strlit("max_completion_tokens");
    reveal_strlit("description");
    reveal_strlit("parameters");
    reveal_strlit("assistant");
    reveal_strlit("user");
    reveal_strlit("system");
    reveal_strlit("tool");
    reveal_strlit("developer");
}

/// Nothing but white space.
pub open spec fn is_blank(s: Seq<char>) -> bool {
    forall|i: int| 0 <= i < s.len() ==> text::is_space(Space::Unicode, #[trigger] s[i])
}

/// The message says this under a role.
pub open spec fn says(m: JsonView, role: Seq<char>, content: JsonView) -> bool {
    json::member(m, "role"@) == Some(JsonView::String(role)) && json::member(m, "content"@) == Some(
        content,
    )
}

/// The value of the first member of a name.
proof fn lemma_member(o: Entries, key: Seq<char>, i: int)
    requires
        0 <= i < o.len(),
        o[i].0 == key,
        forall|j: int| 0 <= j < i ==> (#[trigger] o[j]).0 != key,
    ensures
        json::member(JsonView::Object(o), key) == Some(o[i].1),
{
    json::lemma_find_key(o, key, 0);
}

proof fn lemma_no_member(o: Entries, key: Seq<char>)
    requires
        forall|j: int| 0 <= j < o.len() ==> (#[trigger] o[j]).0 != key,
    ensures
        json::member(JsonView::Object(o), key) is None,
{
    json::lemma_find_key(o, key, 0);
}

proof fn lemma_role_message(role: Seq<char>, content: JsonView)
    ensures
        says(completions_request::role_message(role, content), role, content),
{
    lemma_names();
    let o = seq![("role"@, JsonView::String(role)), ("content"@, content)];
    lemma_member(o, "role"@, 0);
    lemma_member(o, "content"@, 1);
}

/// What a turn says: its texts that are not blank, from the first to the last.
pub open spec fn spoken_text(blocks: Seq<AssistantBlockView>) -> Seq<char>
    decreases blocks.len(),
{
    if blocks.len() == 0 {
        Seq::empty()
    } else {
        (match blocks[0] {
            AssistantBlockView::Text(t) => if is_blank(t.text) {
                Seq::empty()
            } else {
                t.text
            },
            _ => Seq::empty(),
        }) + spoken_text(blocks.skip(1))
    }
}

spec fn spoken_block(b: AssistantBlockView) -> Seq<char> {
    match b {
        AssistantBlockView::Text(t) => if is_blank(t.text) {
            Seq::empty()
        } else {
            t.text
        },
        _ => Seq::empty(),
    }
}

proof fn lemma_spoken(blocks: Seq<AssistantBlockView>)
    ensures
        completions_request::spoken(blocks) == spoken_text(blocks),
    decreases blocks.len(),
{
    if blocks.len() == 1 {
        let none = Seq::<AssistantBlockView>::empty();
        assert(blocks.drop_last() =~= none);
        assert(blocks.skip(1) =~= none);
        assert(completions_request::spoken(none) =~= Seq::empty());
        assert(spoken_text(none) =~= Seq::empty());
        assert(completions_request::spoken(blocks) =~= spoken_block(blocks[0]));
        assert(spoken_text(blocks) =~= spoken_block(blocks[0]));
    } else if blocks.len() > 1 {
        let mid = blocks.skip(1).drop_last();
        lemma_spoken(blocks.drop_last());
        lemma_spoken(blocks.skip(1));
        lemma_spoken(mid);
        assert(blocks.drop_last().skip(1) =~= mid);
        assert(blocks.skip(1).last() == blocks.last());
        assert(blocks.drop_last()[0] == blocks[0]);
        assert(completions_request::spoken(blocks) =~= spoken_text(blocks.drop_last())
            + spoken_block(blocks.last()));
        assert(spoken_text(blocks.drop_last()) == spoken_block(blocks[0]) + spoken_text(mid));
        assert(completions_request::spoken(blocks.skip(1)) =~= spoken_text(mid) + spoken_block(
            blocks.last(),
        ));
        assert(completions_request::spoken(blocks) =~= spoken_block(blocks[0]) + spoken_text(
            blocks.skip(1),
        ));
    }
}

/// The calls of a turn.
pub open spec fn calls_in(blocks: Seq<AssistantBlockView>) -> Seq<AssistantBlockView> {
    blocks.filter(|b: AssistantBlockView| b is ToolCall)
}

/// A call on the wire: its name, its arguments as JSON text, and an id.
pub open spec fn calls_for(wire: JsonView, id: Seq<char>, call: ToolCallView) -> bool {
    &&& json::member(wire, "id"@) == Some(JsonView::String(id))
    &&& json::member(wire, "type"@) == Some(JsonView::String("function"@))
    &&& json::member(wire, "function"@) is Some
    &&& json::member(json::member(wire, "function"@).unwrap(), "name"@) == Some(
        JsonView::String(call.name),
    )
    &&& json::member(json::member(wire, "function"@).unwrap(), "arguments"@) == Some(
        JsonView::String(json::compact(JsonView::Object(call.arguments))),
    )
}

proof fn lemma_wire_call(id: Seq<char>, call: ToolCallView)
    ensures
        calls_for(completions_request::wire_call(id, call), id, call),
{
    lemma_names();
    let args = json::compact(JsonView::Object(call.arguments));
    let f = seq![("name"@, JsonView::String(call.name)), ("arguments"@, JsonView::String(args))];
    let o = seq![
        ("id"@, JsonView::String(id)),
        ("type"@, JsonView::String("function"@)),
        ("function"@, JsonView::Object(f)),
    ];
    lemma_member(f, "name"@, 0);
    lemma_member(f, "arguments"@, 1);
    lemma_member(o, "id"@, 0);
    lemma_member(o, "type"@, 1);
    lemma_member(o, "function"@, 2);
    assert(completions_request::wire_call(id, call) == JsonView::Object(o));
}

/// The call at a place goes out under the id that is noted for it.
pub open spec fn is_noted(
    queue: Seq<(Seq<char>, Seq<char>)>,
    place: int,
    wire: JsonView,
    call: ToolCallView,
) -> bool {
    queue[place].0 == call.id && calls_for(wire, queue[place].1, call)
}

/// A call with an id of its own goes by it, and so do its results.
pub open spec fn ids_are_kept(queue: Seq<(Seq<char>, Seq<char>)>) -> bool {
    forall|i: int|
        0 <= i < queue.len() && !is_blank((#[trigger] queue[i]).0) ==> queue[i].1 == queue[i].0
}

proof fn lemma_wire_calls(w: WireView, calls: Seq<ToolCallView>, message: nat, n: int)
    requires
        0 <= n <= calls.len(),
    ensures
        ({
            let (v, out) = completions_request::wire_calls(w, calls, message, n);
            &&& v.params == w.params
            &&& v.images == w.images
            &&& out.len() == n
            &&& v.queue.len() == w.queue.len() + n
            &&& v.queue.take(w.queue.len() as int) == w.queue
            &&& forall|i: int|
                0 <= i < n ==> #[trigger] is_noted(v.queue, w.queue.len() + i, out[i], calls[i])
            &&& ids_are_kept(w.queue) ==> ids_are_kept(v.queue)
        }),
    decreases n,
{
    let (v, out) = completions_request::wire_calls(w, calls, message, n);
    if n > 0 {
        lemma_wire_calls(w, calls, message, n - 1);
        let (u, before) = completions_request::wire_calls(w, calls, message, n - 1);
        let call = calls[n - 1];
        let id = completions_request::wire_id(u, call, message, (n - 1) as nat);
        lemma_wire_call(id, call);
        assert(v.queue.take(w.queue.len() as int) =~= u.queue.take(w.queue.len() as int));
        assert forall|i: int| 0 <= i < n implies #[trigger] is_noted(
            v.queue,
            w.queue.len() + i,
            out[i],
            calls[i],
        ) by {
            if i < n - 1 {
                assert(is_noted(u.queue, w.queue.len() + i, before[i], calls[i]));
                assert(out[i] == before[i]);
                assert(v.queue[w.queue.len() + i] == u.queue[w.queue.len() + i]);
            }
        }
        if ids_are_kept(w.queue) {
            assert forall|i: int| 0 <= i < v.queue.len() && !is_blank(
                (#[trigger] v.queue[i]).0,
            ) implies v.queue[i].1 == v.queue[i].0 by {
                if i < u.queue.len() {
                    assert(v.queue[i] == u.queue[i]);
                }
            }
        }
    } else {
        assert(v.queue.take(w.queue.len() as int) =~= w.queue);
    }
}

/// The messages so far, with the pictures of the last results behind them, as something that the
/// user sends.
pub open spec fn settled(w: WireView, params: Seq<JsonView>) -> bool {
    if w.images.len() == 0 {
        params == w.params
    } else {
        &&& params.len() == w.params.len() + 1
        &&& params.take(w.params.len() as int) == w.params
        &&& json::member(params.last(), "role"@) == Some(JsonView::String("user"@))
        &&& json::member(params.last(), "content"@) matches Some(JsonView::Array(parts))
            && parts.len() == w.images.len() + 1 && parts.skip(1) == w.images
    }
}

proof fn lemma_with_images(w: WireView)
    ensures
        settled(w, completions_request::with_images(w).params),
        completions_request::with_images(w).images.len() == 0,
        completions_request::with_images(w).queue == w.queue,
{
    let v = completions_request::with_images(w);
    if w.images.len() > 0 {
        let parts = seq![completions_request::text_part("Attached image(s) from tool result:"@)]
            + w.images;
        lemma_role_message("user"@, JsonView::Array(parts));
        assert(v.params.take(w.params.len() as int) =~= w.params);
        assert(parts.skip(1) =~= w.images);
    }
}

/// An assistant turn goes out as one message of the assistant, with what it said and with each of
/// its calls, in order; a turn that says nothing and calls nothing is left out. Nothing that went
/// before changes.
pub proof fn law_a_turn_is_the_assistants(
    w: WireView,
    a: AssistantMessageView,
    n: nat,
    compat: OpenAICompat,
)
    ensures
        ({
            let v = completions_request::wire_message(w, MessageView::Assistant(a), n, compat);
            let said = spoken_text(a.content);
            let calls = calls_in(a.content);
            let new = v.params.last();
            &&& said.len() == 0 && calls.len() == 0 ==> settled(w, v.params)
            &&& said.len() > 0 || calls.len() > 0 ==> {
                &&& v.params.len() > 0 && settled(w, v.params.drop_last())
                &&& says(new, "assistant"@, JsonView::String(said))
            }
            &&& calls.len() == 0 ==> (said.len() > 0 ==> json::member(new, "tool_calls"@) is None)
                && v.queue == w.queue
            &&& calls.len() > 0 ==> {
                &&& v.queue.len() == w.queue.len() + calls.len()
                &&& v.queue.take(w.queue.len() as int) == w.queue
                &&& json::member(new, "tool_calls"@) matches Some(JsonView::Array(out))
                    && out.len() == calls.len() && forall|i: int|
                    0 <= i < out.len() ==> #[trigger] is_noted(
                        v.queue,
                        w.queue.len() + i,
                        out[i],
                        calls[i]->ToolCall_0,
                    )
            }
            &&& ids_are_kept(w.queue) ==> ids_are_kept(v.queue)
        }),
{
    lemma_names();
    lemma_spoken(a.content);
    crate::agent_laws::law_calls_are_the_call_blocks(a.content);
    lemma_with_images(w);
    let x = completions_request::with_images(w);
    let calls = types::tool_calls(a.content);
    lemma_wire_calls(x, calls, n, calls.len() as int);
    let (u, out) = completions_request::wire_calls(x, calls, n, calls.len() as int);
    let v = completions_request::wire_message(w, MessageView::Assistant(a), n, compat);
    let said = spoken_text(a.content);
    assert(calls.len() == calls_in(a.content).len());
    assert forall|i: int| 0 <= i < calls.len() implies calls[i] == #[trigger] calls_in(
        a.content,
    )[i]->ToolCall_0 by {}
    if calls.len() > 0 {
        let o = seq![
            ("role"@, JsonView::String("assistant"@)),
            ("content"@, JsonView::String(said)),
            ("tool_calls"@, JsonView::Array(out)),
        ];
        lemma_member(o, "role"@, 0);
        lemma_member(o, "content"@, 1);
        lemma_member(o, "tool_calls"@, 2);
        assert(v.params.last() == JsonView::Object(o));
        assert(v.params.drop_last() =~= x.params);
        assert forall|i: int| 0 <= i < out.len() implies #[trigger] is_noted(
            v.queue,
            w.queue.len() + i,
            out[i],
            calls_in(a.content)[i]->ToolCall_0,
        ) by {
            assert(calls[i] == calls_in(a.content)[i]->ToolCall_0);
            assert(is_noted(u.queue, x.queue.len() + i, out[i], calls[i]));
        }
    } else {
        assert(u.queue.take(x.queue.len() as int) =~= u.queue);
        if said.len() > 0 {
            lemma_role_message("assistant"@, JsonView::String(said));
            assert(v.params.drop_last() =~= x.params);
            lemma_no_member(
                seq![("role"@, JsonView::String("assistant"@)), ("content"@, JsonView::String(said))],
                "tool_calls"@,
            );
        }
    }
}

/// What a user or a developer says in a text goes out under their role, word for word; blank text
/// is left out.
pub proof fn law_words_keep_their_speaker(
    w: WireView,
    m: MessageView,
    n: nat,
    compat: OpenAICompat,
)
    requires
        match m {
            MessageView::User(u) => u.content is Text,
            MessageView::Developer(d) => d.content is Text,
            _ => false,
        },
    ensures
        ({
            let v = completions_request::wire_message(w, m, n, compat);
            let t = match m {
                MessageView::User(u) => u.content->Text_0,
                MessageView::Developer(d) => d.content->Text_0,
                _ => Seq::empty(),
            };
            let role = if m is Developer && compat.supports_developer_role {
                "developer"@
            } else {
                "user"@
            };
            &&& v.queue == w.queue
            &&& is_blank(t) ==> settled(w, v.params)
            &&& !is_blank(t) ==> v.params.len() > 0 && settled(w, v.params.drop_last()) && says(
                v.params.last(),
                role,
                JsonView::String(t),
            )
        }),
{
    lemma_with_images(w);
    let x = completions_request::with_images(w);
    let v = completions_request::wire_message(w, m, n, compat);
    let t = match m {
        MessageView::User(u) => u.content->Text_0,
        MessageView::Developer(d) => d.content->Text_0,
        _ => Seq::empty(),
    };
    let role = if m is Developer && compat.supports_developer_role {
        "developer"@
    } else {
        "user"@
    };
    if is_blank(t) {
        assert(v.params =~= x.params);
    } else {
        lemma_role_message(role, JsonView::String(t));
        assert(v.params.drop_last() =~= x.params);
    }
}

/// A part of a message that is text.
pub open spec fn is_text_part(p: JsonView, s: Seq<char>) -> bool {
    json::member(p, "type"@) == Some(JsonView::String("text"@)) && json::member(p, "text"@) == Some(
        JsonView::String(s),
    )
}

/// A part of a message that is a picture.
pub open spec fn is_image_part(p: JsonView, url: Seq<char>) -> bool {
    &&& json::member(p, "type"@) == Some(JsonView::String("image_url"@))
    &&& json::member(p, "image_url"@) is Some
    &&& json::member(json::member(p, "image_url"@).unwrap(), "url"@) == Some(JsonView::String(url))
}

proof fn lemma_parts(s: Seq<char>, img: types::ImageContentView)
    ensures
        is_text_part(completions_request::text_part(s), s),
        is_image_part(
            completions_request::image_part(img),
            "data:"@ + img.mime_type + ";base64,"@ + img.data,
        ),
{
    lemma_names();
    let t = seq![("type"@, JsonView::String("text"@)), ("text"@, JsonView::String(s))];
    lemma_member(t, "type"@, 0);
    reveal_strlit("text");
    reveal_strlit("type");
    assert("text"@[2] == 'x' && "type"@[2] == 'p');
    lemma_member(t, "text"@, 1);
    let url = "data:"@ + img.mime_type + ";base64,"@ + img.data;
    let u = seq![("url"@, JsonView::String(url))];
    lemma_member(u, "url"@, 0);
    let i = seq![
        ("type"@, JsonView::String("image_url"@)),
        ("image_url"@, JsonView::Object(u)),
    ];
    lemma_member(i, "type"@, 0);
    lemma_member(i, "image_url"@, 1);
    assert(completions_request::image_part(img) == JsonView::Object(i));
}

/// What blocks of a user show: texts that are not blank, and pictures where they can be seen.
pub open spec fn visible(images: bool) -> spec_fn(UserBlockView) -> bool {
    |b: UserBlockView|
        match b {
            UserBlockView::Text(t) => !is_blank(t.text),
            UserBlockView::Image(_) => images,
        }
}

/// The part shows the block.
pub open spec fn shows_block(p: JsonView, b: UserBlockView) -> bool {
    match b {
        UserBlockView::Text(t) => is_text_part(p, t.text),
        UserBlockView::Image(img) => is_image_part(
            p,
            "data:"@ + img.mime_type + ";base64,"@ + img.data,
        ),
    }
}

proof fn lemma_shown_parts(blocks: Seq<UserBlockView>, images: bool)
    ensures
        ({
            let parts = completions_request::shown_parts(blocks, images);
            let kept = blocks.filter(visible(images));
            parts.len() == kept.len() && forall|i: int|
                0 <= i < parts.len() ==> shows_block(#[trigger] parts[i], kept[i])
        }),
    decreases blocks.len(),
{
    reveal(Seq::filter);
    if blocks.len() > 0 {
        lemma_shown_parts(blocks.drop_last(), images);
        let before = blocks.drop_last().filter(visible(images));
        match blocks.last() {
            UserBlockView::Text(t) => {
                lemma_parts(
                    t.text,
                    types::ImageContentView { data: Seq::empty(), mime_type: Seq::empty() },
                );
            },
            UserBlockView::Image(img) => {
                lemma_parts(Seq::empty(), img);
            },
        }
        assert(visible(images)(blocks.last()) ==> blocks.filter(visible(images)) == before.push(
            blocks.last(),
        ));
    }
}

/// A picture is among the blocks.
pub open spec fn has_picture(blocks: Seq<UserBlockView>) -> bool {
    exists|i: int| 0 <= i < blocks.len() && (#[trigger] blocks[i]) is Image
}

/// The parts show the blocks, one by one; there may be more of them.
pub open spec fn show_blocks(parts: Seq<JsonView>, blocks: Seq<UserBlockView>) -> bool {
    parts.len() >= blocks.len() && forall|i: int|
        0 <= i < blocks.len() ==> shows_block(#[trigger] parts[i], blocks[i])
}

/// The blocks of a user go out under the role of the user, block by block; where pictures cannot
/// be seen a note stands for them. Blocks that show nothing are left out.
pub proof fn law_blocks_are_shown_in_order(
    w: WireView,
    m: MessageView,
    n: nat,
    compat: OpenAICompat,
)
    requires
        match m {
            MessageView::User(u) => u.content is Blocks,
            MessageView::Developer(d) => d.content is Blocks,
            _ => false,
        },
    ensures
        ({
            let v = completions_request::wire_message(w, m, n, compat);
            let blocks = match m {
                MessageView::User(u) => u.content->Blocks_0,
                MessageView::Developer(d) => d.content->Blocks_0,
                _ => Seq::empty(),
            };
            let kept = blocks.filter(visible(compat.supports_images));
            let noted = !compat.supports_images && has_picture(blocks);
            let count: int = kept.len() + if noted {
                1int
            } else {
                0int
            };
            &&& count == 0 ==> settled(w, v.params)
            &&& count > 0 ==> {
                &&& v.params.len() > 0 && settled(w, v.params.drop_last())
                &&& json::member(v.params.last(), "role"@) == Some(JsonView::String("user"@))
                &&& json::member(v.params.last(), "content"@) matches Some(JsonView::Array(parts))
                    && parts.len() == count && show_blocks(parts, kept) && (noted ==> is_text_part(
                    parts.last(),
                    "[image omitted: model does not support vision]"@,
                ))
            }
        }),
{
    let images = compat.supports_images;
    let v = completions_request::wire_message(w, m, n, compat);
    let blocks = match m {
        MessageView::User(u) => u.content->Blocks_0,
        MessageView::Developer(d) => d.content->Blocks_0,
        _ => Seq::empty(),
    };
    lemma_with_images(w);
    let x = completions_request::with_images(w);
    lemma_shown_parts(blocks, images);
    lemma_parts(
        completions_request::NON_VISION_IMAGE_PLACEHOLDER@,
        types::ImageContentView { data: Seq::empty(), mime_type: Seq::empty() },
    );
    let parts = completions_request::user_parts(blocks, images);
    if parts.len() == 0 {
        assert(v.params =~= x.params);
    } else {
        lemma_role_message("user"@, JsonView::Array(parts));
        assert(v.params.drop_last() =~= x.params);
        assert(completions_request::has_image(blocks) == has_picture(blocks));
        assert forall|i: int| 0 <= i < blocks.filter(visible(images)).len() implies shows_block(
            #[trigger] parts[i],
            blocks.filter(visible(images))[i],
        ) by {
            assert(parts[i] == completions_request::shown_parts(blocks, images)[i]);
        }
    }
}

/// The texts of a result.
pub open spec fn result_texts(blocks: Seq<UserBlockView>) -> Seq<Seq<char>> {
    blocks.filter(|b: UserBlockView| b is Text).map_values(|b: UserBlockView| b->Text_0.text)
}

proof fn lemma_result_texts(blocks: Seq<UserBlockView>)
    ensures
        types::user_texts(blocks) == result_texts(blocks),
    decreases blocks.len(),
{
    reveal(Seq::filter);
    let is_text = |b: UserBlockView| b is Text;
    let t = |b: UserBlockView| b->Text_0.text;
    if blocks.len() > 0 {
        lemma_result_texts(blocks.drop_last());
        let kept = blocks.drop_last().filter(is_text);
        if blocks.last() is Text {
            assert(kept.push(blocks.last()).map_values(t) =~= kept.map_values(t).push(
                t(blocks.last()),
            ));
        }
    } else {
        assert(blocks.filter(is_text).map_values(t) =~= Seq::empty());
    }
}

/// A result goes out as a message of a tool, with its texts, under the id of the call that it
/// answers: its own where that is no blank, else the one that the first open call of its id goes
/// by. That call is then answered; the others stay open.
pub proof fn law_a_result_answers_its_call(
    w: WireView,
    r: ToolResultMessageView,
    n: nat,
    compat: OpenAICompat,
)
    ensures
        ({
            let v = completions_request::wire_message(w, MessageView::ToolResult(r), n, compat);
            let new = v.params.last();
            let pictures = exists|i: int|
                0 <= i < r.content.len() && (#[trigger] r.content[i]) is Image;
            let texts = text::join(result_texts(r.content), "\n"@);
            &&& v.params.len() == w.params.len() + 1
            &&& v.params.drop_last() == w.params
            &&& json::member(new, "role"@) == Some(JsonView::String("tool"@))
            &&& texts.len() > 0 && (compat.supports_images || !pictures) ==> json::member(
                new,
                "content"@,
            ) == Some(JsonView::String(texts))
            &&& texts.len() == 0 && !pictures ==> json::member(new, "content"@) == Some(
                JsonView::String(Seq::empty()),
            )
            &&& pictures && !compat.supports_images && texts.len() > 0 ==> json::member(
                new,
                "content"@,
            ) == Some(
                JsonView::String(
                    texts + "\n"@ + "[image omitted: model does not support vision]"@,
                ),
            )
            &&& ids_are_kept(w.queue) && !is_blank(r.tool_call_id) ==> json::member(
                new,
                "tool_call_id"@,
            ) == Some(JsonView::String(r.tool_call_id))
            &&& forall|i: int|
                0 <= i < w.queue.len() && (#[trigger] w.queue[i]).0 == r.tool_call_id && (forall|
                    j: int,
                |
                    0 <= j < i ==> (#[trigger] w.queue[j]).0 != r.tool_call_id) ==> json::member(
                    new,
                    "tool_call_id"@,
                ) == Some(JsonView::String(w.queue[i].1)) && v.queue == w.queue.remove(i)
            &&& (forall|i: int|
                0 <= i < w.queue.len() ==> (#[trigger] w.queue[i]).0 != r.tool_call_id) ==> v.queue
                == w.queue
            &&& ids_are_kept(w.queue) ==> ids_are_kept(v.queue)
            &&& !compat.supports_images || !pictures ==> v.images == w.images
        }),
{
    lemma_names();
    lemma_result_texts(r.content);
    lemma_queued(w.queue, r.tool_call_id, 0);
    let v = completions_request::wire_message(w, MessageView::ToolResult(r), n, compat);
    let at = completions_request::queued(w.queue, r.tool_call_id, 0);
    let id = match at {
        Some(i) => w.queue[i].1,
        None => r.tool_call_id,
    };
    let o = seq![
        ("role"@, JsonView::String("tool"@)),
        (
            "content"@,
            JsonView::String(completions_request::result_text(r, compat.supports_images)),
        ),
        ("tool_call_id"@, JsonView::String(id)),
    ];
    lemma_member(o, "role"@, 0);
    lemma_member(o, "content"@, 1);
    lemma_member(o, "tool_call_id"@, 2);
    assert(v.params.last() == JsonView::Object(o));
    assert(v.params.drop_last() =~= w.params);
    if ids_are_kept(w.queue) && at is Some {
        let k = at.unwrap();
        let left = w.queue.remove(k);
        assert forall|i: int| 0 <= i < left.len() && !is_blank((#[trigger] left[i]).0) implies left[i].1
            == left[i].0 by {
            if i < k {
                assert(left[i] == w.queue[i]);
            } else {
                assert(left[i] == w.queue[i + 1]);
            }
        }
    }
    lemma_no_pictures(r.content);
    if !(exists|i: int| 0 <= i < r.content.len() && (#[trigger] r.content[i]) is Image) {
        assert(w.images + completions_request::image_parts(r.content) =~= w.images);
    }
}

proof fn lemma_no_pictures(blocks: Seq<UserBlockView>)
    ensures
        !(exists|i: int| 0 <= i < blocks.len() && (#[trigger] blocks[i]) is Image)
            ==> completions_request::image_parts(blocks).len() == 0,
    decreases blocks.len(),
{
    if blocks.len() > 0 {
        let init = blocks.drop_last();
        lemma_no_pictures(init);
        if !(exists|i: int| 0 <= i < blocks.len() && (#[trigger] blocks[i]) is Image) {
            assert forall|i: int| 0 <= i < init.len() implies !((#[trigger] init[i]) is Image) by {
                assert(!(blocks[i] is Image));
            }
            assert(!(blocks[blocks.len() - 1] is Image));
        }
    }
}

proof fn lemma_queued(queue: Seq<(Seq<char>, Seq<char>)>, id: Seq<char>, from: int)
    requires
        0 <= from,
    ensures
        match completions_request::queued(queue, id, from) {
            Some(k) => from <= k < queue.len() && queue[k].0 == id && forall|j: int|
                from <= j < k ==> (#[trigger] queue[j]).0 != id,
            None => forall|j: int| from <= j < queue.len() ==> (#[trigger] queue[j]).0 != id,
        },
    decreases queue.len() - from,
{
    if from < queue.len() && queue[from].0 != id {
        lemma_queued(queue, id, from + 1);
    }
}

/// How many of the messages have a role.
pub open spec fn with_role(params: Seq<JsonView>, role: Seq<char>) -> nat {
    params.filter(
        |m: JsonView| json::member(m, "role"@) == Some(JsonView::String(role)),
    ).len()
}

/// The turn says something or calls something.
pub open spec fn goes_out(m: MessageView) -> bool {
    m matches MessageView::Assistant(a) && (spoken_text(a.content).len() > 0 || calls_in(
        a.content,
    ).len() > 0)
}

proof fn lemma_one_more(params: Seq<JsonView>, m: JsonView, role: Seq<char>)
    ensures
        with_role(params.push(m), role) == with_role(params, role) + (if json::member(m, "role"@)
            == Some(JsonView::String(role)) {
            1nat
        } else {
            0nat
        }),
{
    reveal(Seq::filter);
    assert(params.push(m).drop_last() =~= params);
}

proof fn lemma_settled_roles(w: WireView, params: Seq<JsonView>)
    requires
        settled(w, params),
    ensures
        with_role(params, "assistant"@) == with_role(w.params, "assistant"@),
        with_role(params, "tool"@) == with_role(w.params, "tool"@),
        with_role(params, "system"@) == with_role(w.params, "system"@),
{
    lemma_names();
    if w.images.len() > 0 {
        assert(params =~= w.params.push(params.last()));
        lemma_one_more(w.params, params.last(), "assistant"@);
        lemma_one_more(w.params, params.last(), "tool"@);
        lemma_one_more(w.params, params.last(), "system"@);
    }
}

/// How many messages of a transcript are results.
pub open spec fn results_in(messages: Seq<MessageView>) -> nat {
    messages.filter(|m: MessageView| m is ToolResult).len()
}

/// How many turns of a transcript go out.
pub open spec fn turns_in(messages: Seq<MessageView>) -> nat {
    messages.filter(|m: MessageView| goes_out(m)).len()
}

proof fn lemma_wired_roles(
    prompts: Seq<Seq<char>>,
    messages: Seq<MessageView>,
    compat: OpenAICompat,
    n: int,
)
    requires
        0 <= n <= messages.len(),
    ensures
        ({
            let w = completions_request::wired(prompts, messages, compat, n);
            &&& with_role(w.params, "assistant"@) == turns_in(messages.take(n))
            &&& with_role(w.params, "tool"@) == results_in(messages.take(n))
            &&& ids_are_kept(w.queue)
        }),
    decreases n,
{
    reveal(Seq::filter);
    lemma_names();
    let w = completions_request::wired(prompts, messages, compat, n);
    if n == 0 {
        lemma_system_roles(prompts);
        assert(messages.take(0) =~= Seq::empty());
    } else {
        lemma_wired_roles(prompts, messages, compat, n - 1);
        let b = completions_request::wired(prompts, messages, compat, n - 1);
        let m = messages[n - 1];
        assert(messages.take(n).drop_last() =~= messages.take(n - 1));
        assert(messages.take(n).last() == m);
        match m {
            MessageView::Assistant(a) => {
                law_a_turn_is_the_assistants(b, a, (n - 1) as nat, compat);
                if goes_out(m) {
                    lemma_settled_roles(b, w.params.drop_last());
                    assert(w.params =~= w.params.drop_last().push(w.params.last()));
                    lemma_one_more(w.params.drop_last(), w.params.last(), "assistant"@);
                    lemma_one_more(w.params.drop_last(), w.params.last(), "tool"@);
                } else {
                    lemma_settled_roles(b, w.params);
                }
            },
            MessageView::ToolResult(r) => {
                law_a_result_answers_its_call(b, r, (n - 1) as nat, compat);
                assert(w.params =~= w.params.drop_last().push(w.params.last()));
                lemma_one_more(w.params.drop_last(), w.params.last(), "assistant"@);
                lemma_one_more(w.params.drop_last(), w.params.last(), "tool"@);
            },
            _ => {
                let texts = match m {
                    MessageView::User(u) => u.content is Text,
                    MessageView::Developer(d) => d.content is Text,
                    _ => false,
                };
                lemma_with_images(b);
                if texts {
                    law_words_keep_their_speaker(b, m, (n - 1) as nat, compat);
                } else {
                    law_blocks_are_shown_in_order(b, m, (n - 1) as nat, compat);
                }
                if settled(b, w.params) {
                    lemma_settled_roles(b, w.params);
                } else {
                    lemma_settled_roles(b, w.params.drop_last());
                    assert(w.params =~= w.params.drop_last().push(w.params.last()));
                    lemma_one_more(w.params.drop_last(), w.params.last(), "assistant"@);
                    lemma_one_more(w.params.drop_last(), w.params.last(), "tool"@);
                }
            },
        }
    }
}

proof fn lemma_system_roles(prompts: Seq<Seq<char>>)
    ensures
        with_role(completions_request::system_messages(prompts), "assistant"@) == 0,
        with_role(completions_request::system_messages(prompts), "tool"@) == 0,
    decreases prompts.len(),
{
    reveal(Seq::filter);
    lemma_names();
    if prompts.len() > 0 {
        let before = completions_request::system_messages(prompts.drop_last());
        lemma_system_roles(prompts.drop_last());
        if completions_request::shows(prompts.last()) {
            let m = completions_request::role_message(
                "system"@,
                JsonView::String(prompts.last()),
            );
            lemma_role_message("system"@, JsonView::String(prompts.last()));
            lemma_one_more(before, m, "assistant"@);
            lemma_one_more(before, m, "tool"@);
        }
    }
}

/// A request has as many messages of the assistant as the transcript has turns that say or call
/// something, and as many messages of tools as it has results.
pub proof fn law_every_turn_and_every_result_goes_out(
    prompts: Seq<Seq<char>>,
    messages: Seq<MessageView>,
    compat: OpenAICompat,
)
    ensures
        ({
            let params = completions_request::converted(prompts, messages, compat);
            &&& with_role(params, "assistant"@) == turns_in(messages)
            &&& with_role(params, "tool"@) == results_in(messages)
        }),
{
    let n = messages.len() as int;
    let w = completions_request::wired(prompts, messages, compat, n);
    lemma_wired_roles(prompts, messages, compat, n);
    lemma_with_images(w);
    lemma_settled_roles(w, completions_request::with_images(w).params);
    assert(messages.take(n) =~= messages);
}

/// The messages of the host come first: each prompt that is not blank, in order, as the system's.
pub proof fn law_system_prompts_come_first(
    prompts: Seq<Seq<char>>,
    messages: Seq<MessageView>,
    compat: OpenAICompat,
)
    ensures
        ({
            let params = completions_request::converted(prompts, messages, compat);
            let shown = prompts.filter(|p: Seq<char>| !is_blank(p));
            &&& params.len() >= shown.len()
            &&& messages.len() == 0 ==> params.len() == shown.len()
            &&& forall|i: int|
                0 <= i < shown.len() ==> says(
                    #[trigger] params[i],
                    "system"@,
                    JsonView::String(shown[i]),
                )
        }),
{
    let n = messages.len() as int;
    let w = completions_request::wired(prompts, messages, compat, n);
    let first = completions_request::system_messages(prompts);
    lemma_system_messages(prompts);
    lemma_params_stay(prompts, messages, compat, n);
    lemma_with_images(w);
    let params = completions_request::converted(prompts, messages, compat);
    let shown = prompts.filter(|p: Seq<char>| !is_blank(p));
    assert forall|i: int| 0 <= i < shown.len() implies says(
        #[trigger] params[i],
        "system"@,
        JsonView::String(shown[i]),
    ) by {
        assert(params[i] == w.params[i]);
        assert(w.params.take(first.len() as int)[i] == first[i]);
    }
}

proof fn lemma_system_messages(prompts: Seq<Seq<char>>)
    ensures
        ({
            let first = completions_request::system_messages(prompts);
            let shown = prompts.filter(|p: Seq<char>| !is_blank(p));
            first.len() == shown.len() && forall|i: int|
                0 <= i < shown.len() ==> says(
                    #[trigger] first[i],
                    "system"@,
                    JsonView::String(shown[i]),
                )
        }),
    decreases prompts.len(),
{
    reveal(Seq::filter);
    if prompts.len() > 0 {
        lemma_system_messages(prompts.drop_last());
        lemma_role_message("system"@, JsonView::String(prompts.last()));
    }
}

proof fn lemma_params_stay(
    prompts: Seq<Seq<char>>,
    messages: Seq<MessageView>,
    compat: OpenAICompat,
    n: int,
)
    requires
        0 <= n <= messages.len(),
    ensures
        ({
            let w = completions_request::wired(prompts, messages, compat, n);
            let first = completions_request::system_messages(prompts);
            &&& first.len() <= w.params.len()
            &&& w.params.take(first.len() as int) == first
            &&& n == 0 ==> w.params == first && w.images.len() == 0
        }),
    decreases n,
{
    let w = completions_request::wired(prompts, messages, compat, n);
    let first = completions_request::system_messages(prompts);
    if n == 0 {
        assert(w.params.take(first.len() as int) =~= first);
    } else {
        lemma_params_stay(prompts, messages, compat, n - 1);
        let b = completions_request::wired(prompts, messages, compat, n - 1);
        lemma_with_images(b);
        match messages[n - 1] {
            MessageView::Assistant(a) => {
                let calls = types::tool_calls(a.content);
                lemma_wire_calls(
                    completions_request::with_images(b),
                    calls,
                    (n - 1) as nat,
                    calls.len() as int,
                );
            },
            _ => {},
        }
        assert(w.params.take(first.len() as int) =~= b.params.take(first.len() as int));
    }
}

/// The members of a body, in their order, with the place where each group starts.
proof fn lemma_body(
    model: ModelView,
    context: ContextView,
    options: StreamOptions,
    messages: Seq<JsonView>,
)
    ensures
        ({
            let body = completions_request::request_body(model, context, options, messages);
            let warm = completions_request::temperature_member(text::opt_view(options.temperature));
            let tools = completions_request::tools_member(context);
            let choice = completions_request::choice_member(
                text::opt_view(options.tool_choice),
                context.tools,
            );
            let limit = completions_request::limit_member(
                options.max_tokens,
                options.compat.max_tokens_field,
            );
            &&& json::member(body, "model"@) == Some(JsonView::String(model.id))
            &&& json::member(body, "messages"@) == Some(JsonView::Array(messages))
            &&& json::member(body, "stream"@) == Some(JsonView::Bool(true))
            &&& json::member(body, "temperature"@) == (if warm.len() > 0 {
                Some(warm[0].1)
            } else {
                None
            })
            &&& json::member(body, "tools"@) == (if tools.len() > 0 {
                Some(tools[0].1)
            } else {
                None
            })
            &&& json::member(body, "tool_choice"@) == (if choice.len() > 0 {
                Some(choice[0].1)
            } else {
                None
            })
            &&& limit.len() > 0 ==> json::member(body, limit[0].0) == Some(limit[0].1)
            &&& limit.len() == 0 ==> json::member(body, "max_tokens"@) is None && json::member(
                body,
                "max_completion_tokens"@,
            ) is None
        }),
{
    lemma_names();
    let compat = options.compat;
    let head = seq![
        ("model"@, JsonView::String(model.id)),
        ("messages"@, JsonView::Array(messages)),
        ("stream"@, JsonView::Bool(true)),
    ];
    let usage = completions_request::usage_member(compat.supports_usage_in_streaming);
    let warm = completions_request::temperature_member(text::opt_view(options.temperature));
    let tools = completions_request::tools_member(context);
    let choice = completions_request::choice_member(
        text::opt_view(options.tool_choice),
        context.tools,
    );
    let limit = completions_request::limit_member(options.max_tokens, compat.max_tokens_field);
    let o = head + usage + warm + tools + choice + limit;
    assert(completions_request::request_body(model, context, options, messages)
        == JsonView::Object(o));
    let a: int = 3int + usage.len();
    let b: int = a + warm.len();
    let c: int = b + tools.len();
    let d: int = c + choice.len();
    assert(forall|i: int| 0 <= i < 3 ==> #[trigger] o[i] == head[i]);
    assert(forall|i: int| 3 <= i < a ==> (#[trigger] o[i]).0 == "stream_options"@);
    assert(forall|i: int| a <= i < b ==> (#[trigger] o[i]) == warm[i - a]);
    assert(forall|i: int| b <= i < c ==> (#[trigger] o[i]) == tools[i - b]);
    assert(forall|i: int| c <= i < d ==> (#[trigger] o[i]) == choice[i - c]);
    assert(forall|i: int| d <= i < o.len() ==> (#[trigger] o[i]) == limit[i - d]);
    assert(forall|i: int| 0 <= i < warm.len() ==> (#[trigger] warm[i]).0 == "temperature"@);
    assert(forall|i: int| 0 <= i < tools.len() ==> (#[trigger] tools[i]).0 == "tools"@);
    assert(forall|i: int| 0 <= i < choice.len() ==> (#[trigger] choice[i]).0 == "tool_choice"@);
    lemma_member(o, "model"@, 0);
    lemma_member(o, "messages"@, 1);
    lemma_member(o, "stream"@, 2);
    if warm.len() > 0 {
        lemma_member(o, "temperature"@, a);
    } else {
        lemma_no_member(o, "temperature"@);
    }
    if tools.len() > 0 {
        lemma_member(o, "tools"@, b);
    } else {
        lemma_no_member(o, "tools"@);
    }
    if choice.len() > 0 {
        lemma_member(o, "tool_choice"@, c);
    } else {
        lemma_no_member(o, "tool_choice"@);
    }
    if limit.len() > 0 {
        lemma_member(o, limit[0].0, d);
    } else {
        lemma_no_member(o, "max_tokens"@);
        lemma_no_member(o, "max_completion_tokens"@);
    }
}

/// A request names the model, carries the messages, and asks for a stream, with the temperature
/// and the limit that were asked for.
pub proof fn law_what_a_request_asks_for(
    model: ModelView,
    context: ContextView,
    options: StreamOptions,
    messages: Seq<JsonView>,
)
    ensures
        ({
            let body = completions_request::request_body(model, context, options, messages);
            &&& json::member(body, "model"@) == Some(JsonView::String(model.id))
            &&& json::member(body, "messages"@) == Some(JsonView::Array(messages))
            &&& json::member(body, "stream"@) == Some(JsonView::Bool(true))
            &&& json::member(body, "temperature"@) == (match options.temperature {
                Some(t) => Some(JsonView::Number(t@)),
                None => None,
            })
            &&& options.max_tokens matches Some(n) ==> json::member(
                body,
                if options.compat.max_tokens_field == MaxTokensField::MaxTokens {
                    "max_tokens"@
                } else {
                    "max_completion_tokens"@
                },
            ) == Some(JsonView::Number(NumberView::PosInt(n)))
            &&& options.max_tokens is None ==> json::member(body, "max_tokens"@) is None
                && json::member(body, "max_completion_tokens"@) is None
        }),
{
    lemma_body(model, context, options, messages);
}

/// The tools on offer.
pub open spec fn offered(context: ContextView) -> Seq<types::ToolView> {
    match context.tools {
        Some(list) => list,
        None => Seq::empty(),
    }
}

/// The wire offers the tools, one by one.
pub open spec fn offer_tools(list: Seq<JsonView>, tools: Seq<types::ToolView>) -> bool {
    list.len() == tools.len() && forall|i: int|
        0 <= i < list.len() ==> offers_tool(#[trigger] list[i], tools[i])
}

/// A tool of that name is on offer.
pub open spec fn is_offered(tools: Seq<types::ToolView>, name: Seq<char>) -> bool {
    exists|i: int| 0 <= i < tools.len() && (#[trigger] tools[i]).name == name
}

/// A request offers each tool with its name, its description and its parameters. It passes on the
/// choice of a tool, but one that no tool on offer can meet is left out.
pub proof fn law_tools_are_offered(
    model: ModelView,
    context: ContextView,
    options: StreamOptions,
    messages: Seq<JsonView>,
)
    ensures
        ({
            let body = completions_request::request_body(model, context, options, messages);
            let tools = json::member(body, "tools"@);
            let choice = json::member(body, "tool_choice"@);
            let some = offered(context).len() > 0;
            &&& some ==> (tools matches Some(JsonView::Array(list)) && offer_tools(
                list,
                offered(context),
            ))
            &&& !some ==> (tools is None || tools == Some(JsonView::Array(Seq::empty())))
            &&& match text::opt_view(options.tool_choice) {
                None => choice is None,
                Some(ToolChoiceView::Auto) => choice == Some(JsonView::String("auto"@)),
                Some(ToolChoiceView::NoTool) => choice == (if some {
                    Some(JsonView::String("none"@))
                } else {
                    None
                }),
                Some(ToolChoiceView::Required) => choice == (if some {
                    Some(JsonView::String("required"@))
                } else {
                    None
                }),
                Some(ToolChoiceView::Tool(name)) => if is_offered(offered(context), name) {
                    choice matches Some(v) && json::member(v, "type"@) == Some(
                        JsonView::String("function"@),
                    ) && (json::member(v, "function"@) matches Some(f) && json::member(f, "name"@)
                        == Some(JsonView::String(name)))
                } else {
                    choice is None
                },
            }
        }),
{
    lemma_names();
    lemma_body(model, context, options, messages);
    let body = completions_request::request_body(model, context, options, messages);
    match context.tools {
        Some(list) => {
            if list.len() > 0 {
                let wire = list.map_values(
                    |t: types::ToolView| completions_request::wire_tool(t),
                );
                assert(json::member(body, "tools"@) == Some(JsonView::Array(wire)));
                assert forall|i: int| 0 <= i < wire.len() implies offers_tool(
                    #[trigger] wire[i],
                    list[i],
                ) by {
                    lemma_wire_tool(list[i]);
                    assert(wire[i] == completions_request::wire_tool(list[i]));
                }
                assert(offer_tools(wire, list));
            }
        },
        None => {},
    }
    match text::opt_view(options.tool_choice) {
        Some(ToolChoiceView::Tool(name)) => {
            let f = seq![("name"@, JsonView::String(name))];
            let v = seq![
                ("type"@, JsonView::String("function"@)),
                ("function"@, JsonView::Object(f)),
            ];
            lemma_member(f, "name"@, 0);
            lemma_member(v, "type"@, 0);
            lemma_member(v, "function"@, 1);
            assert(completions_request::offers(context.tools, name) == is_offered(
                offered(context),
                name,
            ));
        },
        _ => {},
    }
}

/// A tool as it is offered.
pub open spec fn offers_tool(v: JsonView, t: types::ToolView) -> bool {
    &&& json::member(v, "type"@) == Some(JsonView::String("function"@))
    &&& json::member(v, "function"@) matches Some(f) && json::member(f, "name"@) == Some(
        JsonView::String(t.name),
    ) && json::member(f, "description"@) == Some(JsonView::String(t.description)) && json::member(
        f,
        "parameters"@,
    ) == Some(t.parameters)
}

proof fn lemma_wire_tool(t: types::ToolView)
    ensures
        offers_tool(completions_request::wire_tool(t), t),
{
    lemma_names();
    let f = seq![
        ("name"@, JsonView::String(t.name)),
        ("description"@, JsonView::String(t.description)),
        ("parameters"@, t.parameters),
    ];
    let o = seq![
        ("type"@, JsonView::String("function"@)),
        ("function"@, JsonView::Object(f)),
    ];
    lemma_member(f, "name"@, 0);
    lemma_member(f, "description"@, 1);
    lemma_member(f, "parameters"@, 2);
    lemma_member(o, "type"@, 0);
    lemma_member(o, "function"@, 1);
    assert(completions_request::wire_tool(t) == JsonView::Object(o));
}

/// Tools that the host says nothing of are sent as an empty list where the transcript holds a call
/// or a result, and are left out otherwise.
pub proof fn law_a_transcript_with_calls_needs_tools(
    context: crate::types::ContextView,
    before: Seq<MessageView>,
    after: Seq<MessageView>,
    m: MessageView,
)
    requires
        context.tools is None,
    ensures
        context.messages == before.push(m) + after && m is ToolResult
            ==> completions_request::tools_member(context) == seq![
            ("tools"@, JsonView::Array(Seq::empty())),
        ],
        context.messages == before.push(m) + after && crate::transform::calls_of(m).len() > 0
            ==> completions_request::tools_member(context) == seq![
            ("tools"@, JsonView::Array(Seq::empty())),
        ],
        (forall|i: int|
            0 <= i < context.messages.len() ==> !((#[trigger] context.messages[i]) is ToolResult)
                && crate::transform::calls_of(context.messages[i]).len() == 0)
            ==> completions_request::tools_member(context).len() == 0,
{
    let k = before.len() as int;
    if context.messages == before.push(m) + after {
        assert(context.messages[k] == m);
    }
}

} // verus!
