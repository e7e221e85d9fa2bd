//! What errors are read from, which chunks bring a response forward, and what refusals say.
use crate::completions_chunk;
use crate::completions_run;
use crate::error;
use crate::error::ProviderErrorView;
use crate::json;
use crate::json::{JsonView, NumberView};
use crate::text;
use crate::text::Space;
use crate::types;
use crate::types::{AssistantBlockView, MessageView, UserBlockView, UserContentView};
use crate::validation;
use crate::validation::IssueView;
use vstd::prelude::*;

verus! {

// ------------------------------------------------------------------ errors

/// The message of an error is its text, the message in it, or the message beside it; an error
/// without a message is shown whole.
pub proof fn law_where_an_error_says_what(v: JsonView)
    ensures
        json::member(v, "error"@) matches Some(JsonView::String(s)) ==> error::envelope(v) == Some(
            s,
        ),
        json::member(v, "error"@) matches Some(JsonView::Object(o)) ==> error::envelope(v) == (
        match json::lookup(o, "message"@) {
            Some(JsonView::String(m)) => Some(m),
            _ => Some(json::compact(JsonView::Object(o))),
        }),
        json::member(v, "error"@) is None ==> error::envelope(v) == (match json::member(
            v,
            "message"@,
        ) {
            Some(JsonView::String(m)) => Some(m),
            _ => None,
        }),
{
}

/// Of the body of a failed response its message is shown, else its start; an empty one is said to
/// be empty.
pub proof fn law_what_is_shown_of_a_body(trimmed: Seq<char>, outcome: Result<JsonView, Seq<char>>)
    ensures
        ({
            let shown = error::body_detail(trimmed, outcome);
            let said = match outcome {
                Ok(v) => error::envelope(v),
                Err(_) => None,
            };
            &&& said matches Some(m) ==> shown == m
            &&& said is None && trimmed.len() == 0 ==> shown == "(empty response body)"@
            &&& said is None && 0 < trimmed.len() <= 2000 ==> shown == trimmed
            &&& said is None && trimmed.len() > 2000 ==> shown == trimmed.take(2000) + "…"@
        }),
{
}

/// Milliseconds win over anything else that a server asks to wait. A date is a wait from now on, and
/// one that is past is none.
pub proof fn law_how_long_to_wait(in_millis: Seq<char>, plain: Seq<char>, now: u64)
    ensures
        ({
            let ms = completions_run::scaled_millis(text::trim(Space::Unicode, in_millis), None);
            let t = text::trim(Space::Unicode, plain);
            let by_seconds = completions_run::scaled_millis(t, Some(1000));
            let by_date = completions_run::http_date(t);
            let both = completions_run::retry_hint(Some(in_millis), Some(plain), now);
            let alone = completions_run::retry_hint(None, Some(plain), now);
            &&& completions_run::retry_hint(None, None, now) is None
            &&& ms is Some ==> both == ms
            &&& ms is None ==> both == alone
            &&& by_seconds is Some ==> alone == by_seconds
            &&& by_seconds is None && by_date is None ==> alone is None
            &&& by_seconds is None && by_date is Some && by_date.unwrap() as int * 1000 <= u64::MAX
                ==> (alone matches Some(wait) && wait == (if by_date.unwrap() as int * 1000 >= now {
                by_date.unwrap() as int * 1000 - now
            } else {
                0
            }))
        }),
{
}

/// A frame that is no JSON is told of with what is wrong and with its first characters.
pub proof fn law_what_is_told_of_a_broken_frame(data: Seq<char>, e: Seq<char>)
    ensures
        completions_run::malformed_frame(data, e) == ProviderErrorView::Stream(
            "Malformed OpenAI completions stream frame ("@ + e + "): "@ + (if data.len() <= 200 {
                data
            } else {
                data.take(200)
            }),
        ),
{
}

// ------------------------------------------------------------------ chunks

/// A chunk whose first choice brings text, reasoning, a refusal or calls brings the response
/// forward; so does a reason to finish, and usage. One without a choice and without usage does not.
pub proof fn law_what_brings_a_response_forward(chunk: JsonView, choice: JsonView, delta: JsonView)
    requires
        completions_chunk::first_choice(chunk) == Some(choice),
        json::member(choice, "delta"@) == Some(delta),
    ensures
        (json::member(delta, "content"@) matches Some(JsonView::String(s)) && s.len() > 0)
            ==> completions_chunk::progress(chunk),
        (json::member(delta, "reasoning"@) matches Some(JsonView::String(s)) && s.len() > 0)
            ==> completions_chunk::progress(chunk),
        (json::member(delta, "reasoning_content"@) matches Some(JsonView::String(s)) && s.len() > 0)
            ==> completions_chunk::progress(chunk),
        (json::member(delta, "refusal"@) matches Some(JsonView::String(s)) && s.len() > 0)
            ==> completions_chunk::progress(chunk),
        (json::member(delta, "tool_calls"@) matches Some(JsonView::Array(a)) && a.len() > 0)
            ==> completions_chunk::progress(chunk),
        (json::member(choice, "finish_reason"@) matches Some(r) && !(r is Null))
            ==> completions_chunk::progress(chunk),
        (json::member(chunk, "usage"@) matches Some(u) && !(u is Null))
            ==> completions_chunk::progress(chunk),
        (delta == JsonView::Object(Seq::empty()) && json::member(chunk, "usage"@) is None
            && json::member(choice, "usage"@) is None && json::member(
            choice,
            "finish_reason"@,
        ) is None) ==> !completions_chunk::progress(chunk),
{
}

/// A chunk without a choice brings the response forward only where it has usage.
pub proof fn law_which_chunks_only_keep_alive(chunk: JsonView)
    requires
        completions_chunk::first_choice(chunk) is None,
    ensures
        completions_chunk::progress(chunk) <==> (json::member(chunk, "usage"@) matches Some(u)
            && !(u is Null)),
{
}

/// The status of an error in a stream is its code, where that is one of an error, as a number or as
/// its three digits.
pub proof fn law_which_status_an_error_has(n: u64, s: Seq<char>)
    requires
        400 <= n <= 599,
        text::trim(Space::Unicode, s).len() == 3,
        text::unsigned_value(text::trim(Space::Unicode, s)) == Some(n as int),
    ensures
        completions_chunk::code_status(Some(JsonView::Number(NumberView::PosInt(n)))) == Some(
            n as u16,
        ),
        completions_chunk::code_status(Some(JsonView::String(s))) == Some(n as u16),
        completions_chunk::code_status(None) is None,
        completions_chunk::type_status(None) is None,
{
}

/// Arguments that come in are read at their start, and again once they have grown by half, or by a
/// good deal.
pub proof fn law_when_arguments_are_read_again(args: Seq<char>, parsed: usize)
    ensures
        parsed == 0 ==> completions_chunk::parse_due(args, parsed),
        0 < parsed <= 512 ==> (completions_chunk::parse_due(args, parsed)
            <==> completions_chunk::byte_len(args) >= parsed + 256),
        parsed >= 514 ==> (completions_chunk::parse_due(args, parsed)
            <==> completions_chunk::byte_len(args) >= parsed + parsed / 2),
{
    reveal(completions_chunk::parse_due);
}

// ------------------------------------------------------------------ messages

/// The visible text of an answer is that of its text blocks, one behind the other.
pub proof fn law_what_is_visible(blocks: Seq<AssistantBlockView>, b: AssistantBlockView)
    ensures
        types::visible_text(Seq::empty()).len() == 0,
        types::visible_text(blocks.push(b)) == types::visible_text(blocks) + (match b {
            AssistantBlockView::Text(t) => t.text,
            _ => Seq::empty(),
        }),
{
    assert(blocks.push(b).drop_last() =~= blocks);
    let have = types::visible_text(blocks);
    assert(have + Seq::<char>::empty() =~= have);
}

/// The text of a message of a user is the text itself, or its text blocks on lines of their own.
pub proof fn law_what_a_user_says(blocks: Seq<UserBlockView>, b: UserBlockView, s: Seq<char>)
    ensures
        types::plain_text(UserContentView::Text(s)) == s,
        types::plain_text(UserContentView::Blocks(blocks)) == text::join(
            types::user_texts(blocks),
            "\n"@,
        ),
        types::user_texts(blocks.push(b)) == (match b {
            UserBlockView::Text(t) => types::user_texts(blocks).push(t.text),
            _ => types::user_texts(blocks),
        }),
{
    assert(blocks.push(b).drop_last() =~= blocks);
}

/// Messages go by these names for their roles.
pub proof fn law_what_roles_are_called(m: MessageView)
    ensures
        m is User ==> types::role_name(m) == "user"@,
        m is Developer ==> types::role_name(m) == "developer"@,
        m is Assistant ==> types::role_name(m) == "assistant"@,
        m is ToolResult ==> types::role_name(m) == "toolResult"@,
{
}

// ------------------------------------------------------------------ refusals

/// A refusal names the tool, lists every issue on a line of its own with the place it is about, and
/// shows what was received.
pub proof fn law_what_a_refusal_says(
    name: Seq<char>,
    found: Seq<IssueView>,
    shown: JsonView,
    i: int,
)
    ensures
        validation::issues_refusal(name, found, shown) == "Validation failed for tool \""@ + name
            + "\":"@ + "\n"@ + text::join(
            Seq::new(found.len(), |k: int| validation::issue_line(found[k])),
            "\n"@,
        ) + "\n\nReceived arguments:\n"@ + json::pretty(shown),
        (0 <= i < found.len() && found[i].path.len() > 0) ==> validation::issue_line(found[i])
            == "  - "@ + text::join(found[i].path, "/"@) + ": "@ + found[i].message,
        (0 <= i < found.len() && found[i].path.len() == 0) ==> validation::issue_line(found[i])
            == "  - "@ + "root"@ + ": "@ + found[i].message,
{
    assert(found.map_values(|x: IssueView| validation::issue_line(x)) =~= Seq::new(
        found.len(),
        |k: int| validation::issue_line(found[k]),
    ));
}

/// A text that is too short or too long is told of with the bound that it misses, and one within
/// its bounds is not.
pub proof fn law_what_is_said_of_lengths(
    schema: JsonView,
    s: Seq<char>,
    path: Seq<Seq<char>>,
    min: u64,
    max: u64,
)
    requires
        json::member(schema, "minLength"@) == Some(JsonView::Number(NumberView::PosInt(min))),
        json::member(schema, "maxLength"@) == Some(JsonView::Number(NumberView::PosInt(max))),
        min <= max,
    ensures
        ({
            let issues = validation::length_issues(schema, s, path);
            &&& issues.len() == 0 <==> min <= s.len() <= max
            &&& s.len() < min ==> issues.len() == 1 && issues[0].path == path && issues[0].message
                == "must have at least "@ + text::decimal(min as nat) + " characters"@
            &&& s.len() > max ==> issues.len() == 1 && issues[0].path == path && issues[0].message
                == "must have at most "@ + text::decimal(max as nat) + " characters"@
        }),
{
}

} // verus!
