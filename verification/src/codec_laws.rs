//! The names under which messages are written.
use crate::codec;
use crate::json::{JsonView, NumberView};
use crate::types;
use crate::types::{
    AssistantBlockView, AssistantMessageView, MessageView, UserBlockView, UserContentView,
    UsageView,
};
use vstd::prelude::*;

verus! {

/// The value holds a member.
pub open spec fn holds(v: JsonView, name: Seq<char>, m: JsonView) -> bool {
    v matches JsonView::Object(o) && o.contains((name, m))
}

/// The value holds a text, where there is one.
pub open spec fn may_hold(v: JsonView, name: Seq<char>, s: Option<Seq<char>>) -> bool {
    s matches Some(t) ==> holds(v, name, JsonView::String(t))
}

/// The value holds a count, where there is one.
pub open spec fn may_count(v: JsonView, name: Seq<char>, n: Option<u64>) -> bool {
    n matches Some(k) ==> holds(v, name, JsonView::Number(NumberView::PosInt(k)))
}

proof fn lemma_one(name: Seq<char>, m: JsonView)
    ensures
        codec::one(name, m).contains((name, m)),
{
    assert(codec::one(name, m)[0] == (name, m));
}

/// A text, a picture, a thought and a call are written under their kinds, with what they hold.
pub proof fn law_how_blocks_are_written(b: AssistantBlockView)
    ensures
        ({
            let v = codec::assistant_block_json(b);
            match b {
                AssistantBlockView::Text(t) => holds(v, "type"@, JsonView::String("text"@)) && holds(
                    v,
                    "text"@,
                    JsonView::String(t.text),
                ) && may_hold(v, "textSignature"@, t.text_signature),
                AssistantBlockView::Thinking(t) => holds(
                    v,
                    "type"@,
                    JsonView::String("thinking"@),
                ) && holds(v, "thinking"@, JsonView::String(t.thinking)) && may_hold(
                    v,
                    "thinkingSignature"@,
                    t.thinking_signature,
                ),
                AssistantBlockView::RedactedThinking { data } => holds(
                    v,
                    "type"@,
                    JsonView::String("redactedThinking"@),
                ) && holds(v, "data"@, JsonView::String(data)),
                AssistantBlockView::Image(i) => holds(v, "type"@, JsonView::String("image"@))
                    && holds(v, "data"@, JsonView::String(i.data)) && holds(
                    v,
                    "mimeType"@,
                    JsonView::String(i.mime_type),
                ),
                AssistantBlockView::ToolCall(c) => holds(v, "type"@, JsonView::String("toolCall"@))
                    && holds(v, "id"@, JsonView::String(c.id)) && holds(
                    v,
                    "name"@,
                    JsonView::String(c.name),
                ) && holds(v, "arguments"@, JsonView::Object(c.arguments)) && may_hold(
                    v,
                    "thoughtSignature"@,
                    c.thought_signature,
                ),
            }
        }),
{
    broadcast use vstd::seq_lib::lemma_seq_concat_contains_all_elements;

    let v = codec::assistant_block_json(b);
    match b {
        AssistantBlockView::Text(t) => {
            lemma_one("type"@, JsonView::String("text"@));
            lemma_one("text"@, JsonView::String(t.text));
            if t.text_signature is Some {
                lemma_one("textSignature"@, JsonView::String(t.text_signature.unwrap()));
            }
        },
        AssistantBlockView::Thinking(t) => {
            lemma_one("type"@, JsonView::String("thinking"@));
            lemma_one("thinking"@, JsonView::String(t.thinking));
            if t.thinking_signature is Some {
                lemma_one("thinkingSignature"@, JsonView::String(t.thinking_signature.unwrap()));
            }
        },
        AssistantBlockView::RedactedThinking { data } => {
            lemma_one("type"@, JsonView::String("redactedThinking"@));
            lemma_one("data"@, JsonView::String(data));
        },
        AssistantBlockView::Image(i) => {
            lemma_one("type"@, JsonView::String("image"@));
            lemma_one("data"@, JsonView::String(i.data));
            lemma_one("mimeType"@, JsonView::String(i.mime_type));
        },
        AssistantBlockView::ToolCall(c) => {
            lemma_one("type"@, JsonView::String("toolCall"@));
            lemma_one("id"@, JsonView::String(c.id));
            lemma_one("name"@, JsonView::String(c.name));
            lemma_one("arguments"@, JsonView::Object(c.arguments));
            if c.thought_signature is Some {
                lemma_one("thoughtSignature"@, JsonView::String(c.thought_signature.unwrap()));
            }
        },
    }
}

/// The blocks of a user are written as those of the assistant that hold the same.
pub proof fn law_how_user_blocks_are_written(b: UserBlockView)
    ensures
        match b {
            UserBlockView::Text(t) => codec::user_block_json(b) == codec::assistant_block_json(
                AssistantBlockView::Text(t),
            ),
            UserBlockView::Image(i) => codec::user_block_json(b) == codec::assistant_block_json(
                AssistantBlockView::Image(i),
            ),
        },
{
}

/// The messages of users and developers, and tool results, are written under their roles, with
/// their content, block by block in order, and their times.
pub proof fn law_how_messages_are_written(m: MessageView)
    ensures
        ({
            let v = codec::message_json(m);
            match m {
                MessageView::User(u) => holds(v, "role"@, JsonView::String("user"@)) && holds(
                    v,
                    "content"@,
                    codec::content_json(u.content),
                ) && holds(v, "timestamp"@, codec::jint(u.timestamp)) && (u.synthetic matches Some(
                    b,
                ) ==> holds(v, "synthetic"@, JsonView::Bool(b))),
                MessageView::Developer(d) => holds(v, "role"@, JsonView::String("developer"@))
                    && holds(v, "content"@, codec::content_json(d.content)) && holds(
                    v,
                    "timestamp"@,
                    codec::jint(d.timestamp),
                ),
                MessageView::ToolResult(r) => holds(v, "role"@, JsonView::String("toolResult"@))
                    && holds(v, "toolCallId"@, JsonView::String(r.tool_call_id)) && holds(
                    v,
                    "toolName"@,
                    JsonView::String(r.tool_name),
                ) && holds(v, "content"@, codec::user_blocks_json(r.content)) && holds(
                    v,
                    "isError"@,
                    JsonView::Bool(r.is_error),
                ) && holds(v, "timestamp"@, codec::jint(r.timestamp)) && (r.details matches Some(d)
                    ==> holds(v, "details"@, d)),
                MessageView::Assistant(a) => holds(v, "role"@, JsonView::String("assistant"@))
                    && holds(v, "content"@, codec::assistant_blocks_json(a.content)),
            }
        }),
{
    broadcast use vstd::seq_lib::lemma_seq_concat_contains_all_elements;

    match m {
        MessageView::User(u) => {
            lemma_one("role"@, JsonView::String("user"@));
            lemma_one("content"@, codec::content_json(u.content));
            lemma_one("timestamp"@, codec::jint(u.timestamp));
            if u.synthetic is Some {
                lemma_one("synthetic"@, JsonView::Bool(u.synthetic.unwrap()));
            }
        },
        MessageView::Developer(d) => {
            lemma_one("role"@, JsonView::String("developer"@));
            lemma_one("content"@, codec::content_json(d.content));
            lemma_one("timestamp"@, codec::jint(d.timestamp));
        },
        MessageView::ToolResult(r) => {
            lemma_one("role"@, JsonView::String("toolResult"@));
            lemma_one("toolCallId"@, JsonView::String(r.tool_call_id));
            lemma_one("toolName"@, JsonView::String(r.tool_name));
            lemma_one("content"@, codec::user_blocks_json(r.content));
            lemma_one("isError"@, JsonView::Bool(r.is_error));
            lemma_one("timestamp"@, codec::jint(r.timestamp));
            if r.details is Some {
                lemma_one("details"@, r.details.unwrap());
            }
        },
        MessageView::Assistant(a) => {
            let all = codec::assistant_members(a);
            assert(all[0] == ("role"@, JsonView::String("assistant"@)));
            assert(all[1] == ("content"@, codec::assistant_blocks_json(a.content)));
        },
    }
}

/// A message of the assistant is written with the model that it came from, what it used, why it
/// stopped and what went wrong, and with its times.
pub proof fn law_how_answers_are_written(a: AssistantMessageView)
    ensures
        ({
            let v = codec::message_json(MessageView::Assistant(a));
            &&& holds(v, "api"@, JsonView::String(a.api))
            &&& holds(v, "provider"@, JsonView::String(a.provider))
            &&& holds(v, "model"@, JsonView::String(a.model))
            &&& holds(v, "usage"@, codec::usage_json(a.usage))
            &&& holds(v, "stopReason"@, JsonView::String(types::stop_name(a.stop_reason)))
            &&& holds(v, "timestamp"@, codec::jint(a.timestamp))
            &&& may_hold(v, "responseId"@, a.response_id)
            &&& may_hold(v, "upstreamProvider"@, a.upstream_provider)
            &&& may_hold(v, "errorMessage"@, a.error_message)
            &&& may_count(v, "duration"@, a.duration)
            &&& may_count(v, "ttft"@, a.ttft)
        }),
{
    broadcast use vstd::seq_lib::lemma_seq_concat_contains_all_elements;

    lemma_one("api"@, JsonView::String(a.api));
    lemma_one("provider"@, JsonView::String(a.provider));
    lemma_one("model"@, JsonView::String(a.model));
    lemma_one("usage"@, codec::usage_json(a.usage));
    lemma_one("stopReason"@, JsonView::String(types::stop_name(a.stop_reason)));
    lemma_one("timestamp"@, codec::jint(a.timestamp));
    if a.response_id is Some {
        lemma_one("responseId"@, JsonView::String(a.response_id.unwrap()));
    }
    if a.upstream_provider is Some {
        lemma_one("upstreamProvider"@, JsonView::String(a.upstream_provider.unwrap()));
    }
    if a.error_message is Some {
        lemma_one("errorMessage"@, JsonView::String(a.error_message.unwrap()));
    }
    if a.duration is Some {
        lemma_one("duration"@, codec::juint(a.duration.unwrap()));
    }
    if a.ttft is Some {
        lemma_one("ttft"@, codec::juint(a.ttft.unwrap()));
    }
}

/// What was used is written count by count, as far as it is known.
pub proof fn law_how_usage_is_written(u: UsageView)
    ensures
        ({
            let v = codec::usage_json(u);
            &&& may_count(v, "input"@, u.input)
            &&& may_count(v, "output"@, u.output)
            &&& may_count(v, "cacheRead"@, u.cache_read)
            &&& may_count(v, "cacheWrite"@, u.cache_write)
            &&& may_count(v, "totalTokens"@, u.total_tokens)
            &&& may_count(v, "reasoningTokens"@, u.reasoning_tokens)
        }),
{
    broadcast use vstd::seq_lib::lemma_seq_concat_contains_all_elements;

    if u.input is Some {
        lemma_one("input"@, codec::juint(u.input.unwrap()));
    }
    if u.output is Some {
        lemma_one("output"@, codec::juint(u.output.unwrap()));
    }
    if u.cache_read is Some {
        lemma_one("cacheRead"@, codec::juint(u.cache_read.unwrap()));
    }
    if u.cache_write is Some {
        lemma_one("cacheWrite"@, codec::juint(u.cache_write.unwrap()));
    }
    if u.total_tokens is Some {
        lemma_one("totalTokens"@, codec::juint(u.total_tokens.unwrap()));
    }
    if u.reasoning_tokens is Some {
        lemma_one("reasoningTokens"@, codec::juint(u.reasoning_tokens.unwrap()));
    }
}

/// A content is written as its text, or as its blocks in order.
pub proof fn law_how_contents_are_written(c: UserContentView, blocks: Seq<AssistantBlockView>)
    ensures
        c matches UserContentView::Text(t) ==> codec::content_json(c) == JsonView::String(t),
        c matches UserContentView::Blocks(b) ==> codec::content_json(c) == JsonView::Array(
            Seq::new(b.len(), |i: int| codec::user_block_json(b[i])),
        ),
        codec::assistant_blocks_json(blocks) == JsonView::Array(
            Seq::new(blocks.len(), |i: int| codec::assistant_block_json(blocks[i])),
        ),
{
    match c {
        UserContentView::Blocks(b) => {
            assert(codec::user_blocks_json(b)->Array_0 =~= Seq::new(
                b.len(),
                |i: int| codec::user_block_json(b[i]),
            ));
        },
        _ => {},
    }
    assert(codec::assistant_blocks_json(blocks)->Array_0 =~= Seq::new(
        blocks.len(),
        |i: int| codec::assistant_block_json(blocks[i]),
    ));
}

} // verus!
