//! What the scripted server reads, records and sends.
use crate::fake_upstream;
use crate::fake_upstream::{
    FakeHeaderView, FakeRequestView, FrameView, ScriptedEventView, ScriptedResponseView,
};
use crate::json;
use crate::json::{JsonView, NumberView};
use crate::session;
use crate::text;
use crate::text::Space;
use vstd::prelude::*;

verus! {

/// A header is read with its name in small letters, and without the space around its value.
pub proof fn law_how_a_header_is_read(name: Seq<char>, value: Seq<char>)
    requires
        !name.contains(':'),
    ensures
        fake_upstream::header_in(name + seq![':'] + value) == Some(
            FakeHeaderView {
                name: text::lower(text::trim(Space::Unicode, name)),
                value: text::trim(Space::Unicode, value),
            },
        ),
{
    let line = name + seq![':'] + value;
    let n = name.len() as int;
    text::lemma_find_char(line, ':', 0);
    assert(line[n] == ':');
    match text::find_char(line, ':', 0) {
        Some(i) => {
            if i < n {
                assert(name[i] == ':');
            }
        },
        None => {},
    }
    assert(line.subrange(0, n) =~= name);
    assert(line.subrange(n + 1, line.len() as int) =~= value);
}

/// Headers are read in order; a line that is none is passed over.
pub proof fn law_headers_are_read_in_order(lines: Seq<Seq<char>>, line: Seq<char>)
    ensures
        fake_upstream::headers_in(Seq::empty()).len() == 0,
        fake_upstream::headers_in(lines.push(line)) == (match fake_upstream::header_in(line) {
            Some(h) => fake_upstream::headers_in(lines).push(h),
            None => fake_upstream::headers_in(lines),
        }),
{
    assert(lines.push(line).drop_last() =~= lines);
}

/// A body is as long as its first header of that name says, and empty where none does.
pub proof fn law_how_long_a_body_is(headers: Seq<FakeHeaderView>, i: int, n: u64)
    requires
        0 <= i < headers.len(),
        headers[i].name == "content-length"@,
        text::unsigned_value(headers[i].value) == Some(n as int),
        forall|k: int| 0 <= k < i ==> (#[trigger] headers[k]).name != "content-length"@,
    ensures
        fake_upstream::body_length(headers) == n,
        fake_upstream::body_length(Seq::empty()) == 0,
{
    lemma_header(headers, "content-length"@, i, 0);
}

proof fn lemma_header(headers: Seq<FakeHeaderView>, name: Seq<char>, i: int, from: int)
    requires
        0 <= from <= i < headers.len(),
        headers[i].name == name,
        forall|k: int| 0 <= k < i ==> (#[trigger] headers[k]).name != name,
    ensures
        fake_upstream::header_at(headers, name, from) == Some(headers[i].value),
    decreases i - from,
{
    if from < i {
        lemma_header(headers, name, i, from + 1);
    }
}

/// A request is recorded with its place, its line, its headers and its body.
pub proof fn law_what_is_recorded(index: u64, request: FakeRequestView, body: JsonView)
    ensures
        ({
            let r = fake_upstream::record_of(index, request, body);
            &&& json::member(r, "index"@) == Some(JsonView::Number(NumberView::PosInt(index)))
            &&& json::member(r, "request"@) == Some(JsonView::String(request.line))
            &&& json::member(r, "headers"@) == Some(
                JsonView::Object(fake_upstream::redacted(request.headers)),
            )
            &&& json::member(r, "body"@) == Some(body)
        }),
        forall|h: FakeHeaderView|
            h.name != "authorization"@ ==> #[trigger] fake_upstream::recorded_value(h) == h.value,
{
    reveal_strlit("index");
    reveal_strlit("request");
    reveal_strlit("headers");
    reveal_strlit("body");
    assert("index"@.len() == 5 && "request"@.len() == 7 && "body"@.len() == 4);
    assert("headers"@.len() == 7 && "headers"@[0] == 'h' && "request"@[0] == 'r');
    reveal_with_fuel(json::find_key, 5);
}

/// An event of a script is sent as a frame of its JSON, as it is, as the end of the stream, or is
/// a wait.
pub proof fn law_what_an_event_sends(v: JsonView, s: Seq<char>, ms: u64)
    ensures
        fake_upstream::frame_of(ScriptedEventView::Data(v)) == FrameView::Send(
            "data: "@ + json::compact(v) + "\n\n"@,
        ),
        fake_upstream::frame_of(ScriptedEventView::Raw(s)) == FrameView::Send(s),
        fake_upstream::frame_of(ScriptedEventView::Sleep(ms)) == FrameView::Wait(ms),
        fake_upstream::frame_of(ScriptedEventView::Done) == FrameView::Send("data: [DONE]\n\n"@),
{
}

/// A stream ends as its script says; without a word it is closed.
pub proof fn law_how_a_stream_ends(end: Option<Seq<char>>)
    ensures
        end == Some("hang"@) ==> fake_upstream::end_of(end) is Hang,
        end == Some("drop"@) ==> fake_upstream::end_of(end) is Reset,
        end != Some("hang"@) && end != Some("drop"@) ==> fake_upstream::end_of(end) is Close,
{
    reveal_strlit("hang");
    reveal_strlit("drop");
    assert("hang"@[0] == 'h' && "drop"@[0] == 'd');
}

/// A response that is no stream is sent with its status, its headers and its body, whose length in
/// bytes is told before it.
pub proof fn law_what_a_plain_response_sends(r: ScriptedResponseView)
    requires
        r.events is None,
    ensures
        ({
            let body: Seq<char> = match r.body {
                Some(b) => b,
                None => Seq::empty(),
            };
            fake_upstream::response_start(r) == "HTTP/1.1 "@ + text::decimal(r.status as nat)
                + " Scripted\r\nconnection: close\r\n"@ + fake_upstream::header_lines(r.headers) + (
            "content-type: application/json\r\ncontent-length: "@ + text::decimal(
                session::byte_len(body),
            ) + "\r\n\r\n"@) + body
        }),
{
}

// ------------------------------------------------------------------ chunks of a script

/// The only choice of a chunk.
pub open spec fn choice_in(chunk: JsonView) -> Seq<(Seq<char>, JsonView)> {
    match chunk {
        JsonView::Object(o) => match o[1].1 {
            JsonView::Array(choices) => match choices[0] {
                JsonView::Object(c) => c,
                _ => Seq::empty(),
            },
            _ => Seq::empty(),
        },
        _ => Seq::empty(),
    }
}

/// A chunk of text brings the text, the last chunk the reason of the end, and the chunk of the usage
/// its counts with their sum.
pub proof fn law_what_scripted_chunks_bring(said: Seq<char>, reason: Seq<char>, p: u64, c: u64)
    requires
        p + c <= u64::MAX,
    ensures
        choice_in(fake_upstream::text_chunk(said)).contains(
            ("delta"@, JsonView::Object(seq![("content"@, JsonView::String(said))])),
        ),
        choice_in(fake_upstream::finish_chunk(reason)).contains(
            ("finish_reason"@, JsonView::String(reason)),
        ),
        choice_in(fake_upstream::finish_chunk(reason)).contains(
            ("delta"@, JsonView::Object(Seq::empty())),
        ),
        fake_upstream::text_chunk(said) matches JsonView::Object(o) && o.len() == 2 && o[1].0
            == "choices"@,
        fake_upstream::usage_chunk(p, c) matches JsonView::Object(o) && o.len() == 3 && o[1] == (
            "choices"@,
            JsonView::Array(Seq::empty()),
        ) && o[2].0 == "usage"@ && (o[2].1 matches JsonView::Object(u) && u.contains(
            ("prompt_tokens"@, JsonView::Number(NumberView::PosInt(p))),
        ) && u.contains(("completion_tokens"@, JsonView::Number(NumberView::PosInt(c))))
            && u.contains(
            ("total_tokens"@, JsonView::Number(NumberView::PosInt((p + c) as u64))),
        )),
{
    let text = choice_in(fake_upstream::text_chunk(said));
    let end = choice_in(fake_upstream::finish_chunk(reason));
    let usage = fake_upstream::usage_chunk(p, c)->Object_0;
    let counts = usage[2].1->Object_0;
    assert(text[1].0 == "delta"@);
    assert(end[1].0 == "delta"@);
    assert(end[2].0 == "finish_reason"@);
    assert(counts[0].0 == "prompt_tokens"@);
    assert(counts[1].0 == "completion_tokens"@);
    assert(counts[2].0 == "total_tokens"@);
}

/// A body is recorded as the value that it writes out, or else as a text; a header that is no text is
/// sent as JSON.
pub proof fn law_what_bodies_and_headers_hold(body: Seq<u8>, v: JsonView, s: Seq<char>)
    ensures
        vstd::utf8::valid_utf8(body) && json::parsed(crate::sse::utf8_text(body)) == Ok::<
            JsonView,
            Seq<char>,
        >(v) ==> fake_upstream::recorded_body(body) == v,
        json::parsed(crate::sse::utf8_text(body)) is Err ==> fake_upstream::recorded_body(body)
            == JsonView::String(crate::sse::utf8_text(body)),
        fake_upstream::header_value(JsonView::String(s)) == s,
        !(v is String) ==> fake_upstream::header_value(v) == json::compact(v),
{
}

} // verus!
