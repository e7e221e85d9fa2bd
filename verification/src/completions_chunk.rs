//! Chunks of an OpenAI Chat Completions stream.
//!
//! [`ChunkState`] turns decoded chunks into the events of an assistant message. It does no I/O.
use crate::completions_request::API;
use crate::error::{self, envelope_message, ProviderError, ProviderErrorView};
use crate::event::{AssistantMessageEvent, AssistantMessageEventView};
use crate::json;
use crate::json::{
    as_array, as_object, as_text, as_uint, parse_final_arguments, parse_streaming_json, Json,
    JsonObject, JsonView, Number, NumberView,
};
use crate::number;
use crate::text;
use crate::text::{same_text, Space};
use crate::types;
use crate::types::{
    now_ms, AssistantBlock, AssistantBlockView, AssistantMessage, AssistantMessageView, Cost,
    CostView, Model, StopReason, TextContent, TextContentView, ThinkingContent, ThinkingContentView,
    ToolCall, ToolCallView, Usage, UsageView,
};
use vstd::prelude::*;

verus! {

/// The stream ended before the model said that it was done.
pub const INCOMPLETE_STREAM_MESSAGE: &'static str = "OpenAI completions stream closed before a finish_reason was received";

/// The stream ended before it had begun.
pub const EMPTY_STREAM_MESSAGE: &'static str = "OpenAI completions stream ended without any event";

// ------------------------------------------------------------------ stop reasons

/// The stop reason of a wire reason, and the message of one that tells of an error.
#[verifier::opaque]
pub open spec fn mapped_stop(reason: Option<Seq<char>>) -> (StopReason, Option<Seq<char>>) {
    match reason {
        None => (StopReason::Stop, None),
        Some(r) => {
            let l = text::lower(r);
            if l == "stop"@ || l == "end"@ {
                (StopReason::Stop, None)
            } else if l == "length"@ || l == "max_tokens"@ {
                (StopReason::Length, None)
            } else if l == "function_call"@ || l == "tool_calls"@ {
                (StopReason::ToolUse, None)
            } else if l == "content_filter"@ {
                (StopReason::Error, Some("Provider finish_reason: content_filter"@))
            } else if l == "network_error"@ {
                (StopReason::Error, Some("Provider finish_reason: network_error"@))
            } else if l == "error"@ {
                (StopReason::Error, Some("Provider returned error finish_reason"@))
            } else if l == "insufficient_system_resource"@ {
                (
                    StopReason::Error,
                    Some("Provider returned error finish_reason: insufficient_system_resource"@),
                )
            } else {
                (StopReason::Error, Some("Provider finish_reason: "@ + r))
            }
        },
    }
}

/// The stop reason of a wire reason, and the message of one that tells of an error.
pub fn map_stop_reason(reason: Option<&str>) -> (r: (StopReason, Option<String>))
    ensures
        (r.0, text::opt_view(r.1)) == mapped_stop(text::opt_view(reason)),
{
    proof {
        reveal(mapped_stop);
    }
    let reason = match reason {
        Some(reason) => reason,
        None => {
            return (StopReason::Stop, None);
        },
    };
    let lowered = text::lower_text(reason);
    let l = lowered.as_str();
    if same_text(l, "stop") || same_text(l, "end") {
        (StopReason::Stop, None)
    } else if same_text(l, "length") || same_text(l, "max_tokens") {
        (StopReason::Length, None)
    } else if same_text(l, "function_call") || same_text(l, "tool_calls") {
        (StopReason::ToolUse, None)
    } else if same_text(l, "content_filter") {
        (StopReason::Error, Some("Provider finish_reason: content_filter".to_owned()))
    } else if same_text(l, "network_error") {
        (StopReason::Error, Some("Provider finish_reason: network_error".to_owned()))
    } else if same_text(l, "error") {
        (StopReason::Error, Some("Provider returned error finish_reason".to_owned()))
    } else if same_text(l, "insufficient_system_resource") {
        (
            StopReason::Error,
            Some(
                "Provider returned error finish_reason: insufficient_system_resource".to_owned(),
            ),
        )
    } else {
        (StopReason::Error, Some(text::concat("Provider finish_reason: ", reason)))
    }
}

// ------------------------------------------------------------------ usage

/// The member `b` of the member `a`.
pub open spec fn nested(v: JsonView, a: Seq<char>, b: Seq<char>) -> Option<JsonView> {
    match json::member(v, a) {
        Some(x) => json::member(x, b),
        None => None,
    }
}

fn nested_value<'a>(v: &'a Json, a: &str, b: &str) -> (r: Option<&'a Json>)
    ensures
        text::opt_view(r) == nested(v@, a@, b@),
{
    match v.get(a) {
        Some(x) => x.get(b),
        None => None,
    }
}

/// The first value from `from` on that is there and not zero, else zero.
pub open spec fn first_above_zero(values: Seq<Option<u64>>, from: int) -> u64
    decreases values.len() - from,
{
    if from < 0 || from >= values.len() {
        0
    } else if values[from] is Some && values[from].unwrap() > 0 {
        values[from].unwrap()
    } else {
        first_above_zero(values, from + 1)
    }
}

fn first_positive(values: &Vec<Option<u64>>) -> (r: u64)
    ensures
        r == first_above_zero(values@, 0),
{
    let mut i: usize = 0;
    while i < values.len()
        invariant
            i <= values@.len(),
            first_above_zero(values@, 0) == first_above_zero(values@, i as int),
        decreases values@.len() - i,
    {
        match values[i] {
            Some(v) => if v > 0 {
                return v;
            },
            None => {},
        }
        i += 1;
    }
    0
}

/// The places at which providers report tokens that were read from a cache.
pub open spec fn cache_reads(raw: JsonView) -> Seq<Option<u64>> {
    seq![
        json::uint_of(json::member(raw, "cached_tokens"@)),
        json::uint_of(json::member(raw, "prompt_cache_hit_tokens"@)),
        json::uint_of(nested(raw, "prompt_tokens_details"@, "cached_tokens"@)),
        json::uint_of(json::member(raw, "cachedContentTokenCount"@)),
    ]
}

fn cache_read_values(raw: &Json) -> (r: Vec<Option<u64>>)
    ensures
        r@ == cache_reads(raw@),
{
    let mut out: Vec<Option<u64>> = Vec::new();
    out.push(as_uint(raw.get("cached_tokens")));
    out.push(as_uint(raw.get("prompt_cache_hit_tokens")));
    out.push(as_uint(nested_value(raw, "prompt_tokens_details", "cached_tokens")));
    out.push(as_uint(raw.get("cachedContentTokenCount")));
    assert(out@ =~= cache_reads(raw@));
    out
}

/// The difference, or zero where it would be negative.
pub open spec fn minus(a: int, b: int) -> int {
    if a >= b {
        a - b
    } else {
        0
    }
}

/// Whether some value is there.
pub open spec fn some_reported(values: Seq<Option<u64>>) -> bool {
    values[0] is Some || values[1] is Some || values[2] is Some || values[3] is Some
}

/// A value where it was reported.
pub open spec fn when(reported: bool, v: int) -> Option<u64> {
    if reported {
        Some(v as u64)
    } else {
        None
    }
}

/// The cost that a provider reports: a total.
pub open spec fn reported_cost(raw: JsonView) -> Option<CostView> {
    let zero = NumberView::Float("0.0"@);
    match json::member(raw, "cost"@) {
        Some(JsonView::Number(n)) => match number::float_of(n) {
            Some(total) => Some(
                CostView { input: zero, output: zero, cache_read: zero, cache_write: zero, total },
            ),
            None => None,
        },
        _ => None,
    }
}

/// The usage that a provider reports. The input is what was neither read from a cache nor
/// written to one; where the provider counts cache misses in place of writes, misses are part
/// of the input. What is not reported stays unknown. The total wraps around where it does not
/// fit.
#[verifier::opaque]
pub open spec fn usage_of(raw: JsonView) -> UsageView {
    let prompt = json::uint_of(json::member(raw, "prompt_tokens"@));
    let completion = json::uint_of(json::member(raw, "completion_tokens"@));
    let cached = first_above_zero(cache_reads(raw), 0) as int;
    let write = json::uint_of(nested(raw, "prompt_tokens_details"@, "cache_write_tokens"@));
    let miss = json::uint_of(json::member(raw, "prompt_cache_miss_tokens"@));
    let misses_are_input = cache_reads(raw)[1] is Some && write is None && miss is Some
        && miss.unwrap() > 0;
    let written = match write {
        Some(n) => n as int,
        None => match miss {
            Some(n) => n as int,
            None => 0,
        },
    };
    let reasoning = json::uint_of(
        nested(raw, "completion_tokens_details"@, "reasoning_tokens"@),
    );
    if prompt is None && completion is None {
        types::unknown_usage()
    } else {
        let fresh = minus(
            if prompt is Some {
                prompt.unwrap() as int
            } else {
                0
            },
            cached,
        );
        let input = if misses_are_input {
            fresh
        } else {
            minus(fresh, written)
        };
        let cache_write = if misses_are_input {
            0
        } else {
            written
        };
        let output = if completion is Some {
            completion.unwrap() as int
        } else {
            0
        };
        UsageView {
            input: when(prompt is Some, input),
            output: completion,
            cache_read: when(some_reported(cache_reads(raw)), cached),
            cache_write: when(write is Some || miss is Some, cache_write),
            total_tokens: when(
                prompt is Some && completion is Some,
                (input + output + cached + cache_write) % 0x1_0000_0000_0000_0000,
            ),
            reasoning_tokens: match reasoning {
                Some(n) => when(n > 0, n as int),
                None => None,
            },
            cost: reported_cost(raw),
        }
    }
}

fn zero_float() -> (r: Number)
    ensures
        r@ == NumberView::Float("0.0"@),
{
    Number::Float("0.0".to_owned())
}

fn cost_of(raw: &Json) -> (r: Option<Cost>)
    ensures
        text::opt_view(r) == reported_cost(raw@),
{
    match raw.get("cost") {
        Some(Json::Number(n)) => match number::as_float(n) {
            Some(total) => Some(
                Cost {
                    input: zero_float(),
                    output: zero_float(),
                    cache_read: zero_float(),
                    cache_write: zero_float(),
                    total,
                },
            ),
            None => None,
        },
        _ => None,
    }
}

fn subtract(a: u64, b: u64) -> (r: u64)
    ensures
        r == minus(a as int, b as int),
{
    if a >= b {
        a - b
    } else {
        0
    }
}

/// The usage that a provider reports.
pub fn parse_chunk_usage(raw: &Json) -> (r: Usage)
    ensures
        r@ == usage_of(raw@),
{
    proof {
        reveal(usage_of);
    }
    let reads = cache_read_values(raw);
    let prompt = as_uint(raw.get("prompt_tokens"));
    let completion = as_uint(raw.get("completion_tokens"));
    let cached: u64 = first_positive(&reads);
    let write = as_uint(nested_value(raw, "prompt_tokens_details", "cache_write_tokens"));
    let miss = as_uint(raw.get("prompt_cache_miss_tokens"));
    let misses_are_input = reads[1].is_some() && write.is_none() && (match miss {
        Some(n) => n > 0,
        None => false,
    });
    let written: u64 = match write {
        Some(n) => n,
        None => match miss {
            Some(n) => n,
            None => 0,
        },
    };
    let reasoning = as_uint(nested_value(raw, "completion_tokens_details", "reasoning_tokens"));
    if prompt.is_none() && completion.is_none() {
        return Usage::unknown();
    }
    let prompt_tokens: u64 = match prompt {
        Some(n) => n,
        None => 0,
    };
    let output: u64 = match completion {
        Some(n) => n,
        None => 0,
    };
    let fresh: u64 = subtract(prompt_tokens, cached);
    let input: u64 = if misses_are_input { fresh } else { subtract(fresh, written) };
    let cache_write: u64 = if misses_are_input { 0 } else { written };
    let total: u128 = input as u128 + output as u128 + cached as u128 + cache_write as u128;
    let reported = reads[0].is_some() || reads[1].is_some() || reads[2].is_some()
        || reads[3].is_some();
    Usage {
        input: if prompt.is_some() { Some(input) } else { None },
        output: completion,
        cache_read: if reported { Some(cached) } else { None },
        cache_write: if write.is_some() || miss.is_some() { Some(cache_write) } else { None },
        total_tokens: if prompt.is_some() && completion.is_some() {
            Some((total % 0x1_0000_0000_0000_0000) as u64)
        } else {
            None
        },
        reasoning_tokens: match reasoning {
            Some(n) => if n > 0 { Some(n) } else { None },
            None => None,
        },
        cost: cost_of(raw),
    }
}

/// Usage that a provider does not report is never taken for zero: a bucket is known exactly
/// where the provider reports what it is made of.
pub proof fn law_unreported_usage_is_unknown(raw: JsonView)
    ensures
        usage_of(raw).input is Some <==> json::uint_of(json::member(raw, "prompt_tokens"@)) is Some,
        usage_of(raw).output == json::uint_of(json::member(raw, "completion_tokens"@)),
        usage_of(raw).total_tokens is Some <==> (json::uint_of(
            json::member(raw, "prompt_tokens"@),
        ) is Some && json::uint_of(json::member(raw, "completion_tokens"@)) is Some),
        usage_of(raw).cache_read is Some ==> some_reported(cache_reads(raw)),
{
    reveal(usage_of);
}

/// Whether a positive number of tokens was read from a cache.
pub open spec fn positive_cache_read(raw: JsonView) -> bool {
    first_above_zero(cache_reads(raw), 0) > 0
}

fn has_positive_cache_read(raw: &Json) -> (r: bool)
    ensures
        r == positive_cache_read(raw@),
{
    first_positive(&cache_read_values(raw)) > 0
}

// ------------------------------------------------------------------ what a chunk says

/// The first choice of a chunk.
pub open spec fn first_choice(chunk: JsonView) -> Option<JsonView> {
    match json::member(chunk, "choices"@) {
        Some(c) => json::element(c, 0),
        None => None,
    }
}

fn choice_of(chunk: &Json) -> (r: Option<&Json>)
    ensures
        text::opt_view(r) == first_choice(chunk@),
{
    match chunk.get("choices") {
        Some(c) => c.at(0),
        None => None,
    }
}

/// Whether a member is there and not `null`.
pub open spec fn is_set(v: JsonView, key: Seq<char>) -> bool {
    match json::member(v, key) {
        Some(m) => !(m is Null),
        None => false,
    }
}

fn has_member(v: &Json, key: &str) -> (r: bool)
    ensures
        r == is_set(v@, key@),
{
    match v.get(key) {
        Some(m) => !m.is_null(),
        None => false,
    }
}

/// The text of a member, where it is one that is not empty.
pub open spec fn filled(v: JsonView, key: Seq<char>) -> Option<Seq<char>> {
    match json::text_of(json::member(v, key)) {
        Some(s) => if s.len() > 0 {
            Some(s)
        } else {
            None
        },
        None => None,
    }
}

fn filled_text<'a>(v: &'a Json, key: &str) -> (r: Option<&'a str>)
    ensures
        text::opt_view(r) == filled(v@, key@),
{
    match as_text(v.get(key)) {
        Some(s) => if s.is_empty() {
            None
        } else {
            Some(s)
        },
        None => None,
    }
}

/// Whether a list member holds something.
pub open spec fn has_items(v: JsonView, key: Seq<char>) -> bool {
    match json::array_of(json::member(v, key)) {
        Some(a) => a.len() > 0,
        None => false,
    }
}

fn has_item(v: &Json, key: &str) -> (r: bool)
    ensures
        r == has_items(v@, key@),
{
    match as_array(v.get(key)) {
        Some(a) => a.len() > 0,
        None => false,
    }
}

/// Whether a delta brings output.
pub open spec fn delta_progress(delta: JsonView) -> bool {
    filled(delta, "content"@) is Some || has_items(delta, "content"@) || has_items(
        delta,
        "tool_calls"@,
    ) || filled(delta, "reasoning"@) is Some || filled(delta, "reasoning_content"@) is Some
        || filled(delta, "reasoning_text"@) is Some || filled(delta, "refusal"@) is Some
}

/// Whether a chunk brings the response forward. A keep-alive chunk does not.
pub open spec fn progress(chunk: JsonView) -> bool {
    is_set(chunk, "usage"@) || match first_choice(chunk) {
        Some(choice) => is_set(choice, "finish_reason"@) || is_set(choice, "usage"@) || match json::member(
            choice,
            "delta"@,
        ) {
            Some(delta) => delta_progress(delta),
            None => false,
        },
        None => false,
    }
}

/// Whether a chunk brings the response forward. A keep-alive chunk does not.
pub fn is_progress_chunk(chunk: &Json) -> (r: bool)
    ensures
        r == progress(chunk@),
{
    if has_member(chunk, "usage") {
        return true;
    }
    let choice = match choice_of(chunk) {
        Some(choice) => choice,
        None => {
            return false;
        },
    };
    if has_member(choice, "finish_reason") || has_member(choice, "usage") {
        return true;
    }
    let delta = match choice.get("delta") {
        Some(delta) => delta,
        None => {
            return false;
        },
    };
    filled_text(delta, "content").is_some() || has_item(delta, "content") || has_item(
        delta,
        "tool_calls",
    ) || filled_text(delta, "reasoning").is_some() || filled_text(
        delta,
        "reasoning_content",
    ).is_some() || filled_text(delta, "reasoning_text").is_some() || filled_text(
        delta,
        "refusal",
    ).is_some()
}

/// The HTTP status that the code of an error gives: the lower 16 bits of a number, or a text
/// of three characters, where it is one of an error.
pub open spec fn code_status(code: Option<JsonView>) -> Option<u16> {
    let n = match code {
        Some(JsonView::Number(NumberView::PosInt(v))) => Some(v as int % 0x1_0000),
        Some(JsonView::String(s)) => {
            let t = text::trim(Space::Unicode, s);
            if t.len() == 3 {
                text::unsigned_value(t)
            } else {
                None
            }
        },
        _ => None,
    };
    match n {
        Some(v) => if 400 <= v <= 599 {
            Some(v as u16)
        } else {
            None
        },
        None => None,
    }
}

/// The HTTP status that the type of an error gives.
pub open spec fn type_status(kind: Option<Seq<char>>) -> Option<u16> {
    match kind {
        Some(s) => {
            let t = text::upper(text::trim(Space::Unicode, s));
            if t == "SERVICE_UNAVAILABLE"@ {
                Some(503u16)
            } else if t == "TOO_MANY_REQUESTS"@ {
                Some(429u16)
            } else if t == "REQUEST_TIMEOUT"@ {
                Some(408u16)
            } else {
                None
            }
        },
        None => None,
    }
}

/// The error that a chunk carries in place of a response.
#[verifier::opaque]
pub open spec fn chunk_error(chunk: JsonView) -> Option<ProviderErrorView> {
    let err = json::member(chunk, "error"@);
    let flat = json::text_of(json::member(chunk, "message"@)) is Some && json::member(
        chunk,
        "choices"@,
    ) is None;
    let detail = match error::envelope(chunk) {
        Some(m) => m,
        None => "Provider returned an in-band OpenAI completions stream error"@,
    };
    match err {
        Some(JsonView::Object(o)) => {
            let e = JsonView::Object(o);
            let status = match code_status(json::member(e, "code"@)) {
                Some(s) => Some(s),
                None => type_status(json::text_of(json::member(e, "type"@))),
            };
            match status {
                Some(status) => Some(ProviderErrorView::Http { status, detail }),
                None => Some(ProviderErrorView::Stream(detail)),
            }
        },
        Some(JsonView::String(_)) => Some(ProviderErrorView::Stream(detail)),
        _ => if flat {
            Some(ProviderErrorView::Stream(detail))
        } else {
            None
        },
    }
}

fn status_of_code(code: Option<&Json>) -> (r: Option<u16>)
    ensures
        r == code_status(text::opt_view(code)),
{
    let n: Option<u64> = match code {
        Some(Json::Number(Number::PosInt(v))) => Some(*v % 0x1_0000),
        Some(Json::String(s)) => {
            let t = text::trim_text(Space::Unicode, s.as_str());
            if t.as_str().unicode_len() == 3 {
                text::parse_unsigned(t.as_str())
            } else {
                None
            }
        },
        _ => None,
    };
    match n {
        Some(v) => if 400 <= v && v <= 599 {
            Some(v as u16)
        } else {
            None
        },
        None => None,
    }
}

fn status_of_type(kind: Option<&str>) -> (r: Option<u16>)
    ensures
        r == type_status(text::opt_view(kind)),
{
    match kind {
        Some(s) => {
            let trimmed = text::trim_text(Space::Unicode, s);
            let t = text::upper_text(trimmed.as_str());
            if same_text(t.as_str(), "SERVICE_UNAVAILABLE") {
                Some(503)
            } else if same_text(t.as_str(), "TOO_MANY_REQUESTS") {
                Some(429)
            } else if same_text(t.as_str(), "REQUEST_TIMEOUT") {
                Some(408)
            } else {
                None
            }
        },
        None => None,
    }
}

/// The error that a chunk carries in place of a response.
pub fn stream_error(chunk: &Json) -> (r: Option<ProviderError>)
    ensures
        text::opt_view(r) == chunk_error(chunk@),
{
    proof {
        reveal(chunk_error);
    }
    let flat = as_text(chunk.get("message")).is_some() && chunk.get("choices").is_none();
    let detail = match envelope_message(chunk) {
        Some(m) => m,
        None => "Provider returned an in-band OpenAI completions stream error".to_owned(),
    };
    match chunk.get("error") {
        Some(e) => match e {
            Json::Object(_) => {
                let status = match status_of_code(e.get("code")) {
                    Some(s) => Some(s),
                    None => status_of_type(as_text(e.get("type"))),
                };
                match status {
                    Some(status) => Some(ProviderError::Http { status, detail }),
                    None => Some(ProviderError::Stream(detail)),
                }
            },
            Json::String(_) => Some(ProviderError::Stream(detail)),
            _ => if flat {
                Some(ProviderError::Stream(detail))
            } else {
                None
            },
        },
        None => if flat {
            Some(ProviderError::Stream(detail))
        } else {
            None
        },
    }
}

/// The text of one part of a content.
pub open spec fn part_text(part: JsonView) -> Seq<char> {
    match part {
        JsonView::String(s) => s,
        JsonView::Object(_) => match json::text_of(json::member(part, "text"@)) {
            Some(s) => s,
            None => Seq::empty(),
        },
        _ => Seq::empty(),
    }
}

/// The texts of parts, one after the other.
pub open spec fn parts_text(parts: Seq<JsonView>) -> Seq<char>
    decreases parts.len(),
{
    if parts.len() == 0 {
        Seq::empty()
    } else {
        parts_text(parts.drop_last()) + part_text(parts.last())
    }
}

/// The text of a content: a text, or parts.
pub open spec fn content_of(content: Option<JsonView>) -> Seq<char> {
    match content {
        Some(JsonView::String(s)) => s,
        Some(JsonView::Array(parts)) => parts_text(parts),
        _ => Seq::empty(),
    }
}

fn content_text(content: Option<&Json>) -> (r: String)
    ensures
        r@ == content_of(text::opt_view(content)),
{
    match content {
        Some(Json::String(s)) => s.clone(),
        Some(Json::Array(parts)) => {
            proof {
                json::lemma_values_view(*parts);
            }
            let ghost all = text::views(parts@);
            let mut out = String::new();
            let mut i: usize = 0;
            while i < parts.len()
                invariant
                    i <= parts@.len(),
                    all == text::views(parts@),
                    out@ == parts_text(all.take(i as int)),
                decreases parts@.len() - i,
            {
                assert(all.take(i as int + 1).drop_last() =~= all.take(i as int));
                let ghost before = out@;
                match &parts[i] {
                    Json::String(s) => out.append(s.as_str()),
                    Json::Object(_) => match as_text(parts[i].get("text")) {
                        Some(s) => out.append(s),
                        None => {},
                    },
                    _ => {},
                }
                assert(out@ =~= before + part_text(all[i as int]));
                i += 1;
            }
            assert(all.take(parts@.len() as int) =~= all);
            out
        },
        _ => String::new(),
    }
}

// ------------------------------------------------------------------ the state

/// Outcome of one decoded chunk.
#[derive(Clone, Copy, Debug, PartialEq, Eq, Structural)]
pub enum ChunkFlow {
    Continue,
    /// The response is complete; stop reading.
    Break,
}

/// A tool call whose arguments are still coming in.
pub struct OpenTool {
    /// The index of its block.
    pub block: usize,
    /// The arguments so far.
    pub args: String,
    /// How long they were when they were last parsed for display; zero where they were not.
    pub parsed: usize,
}

/// What is known of a tool call whose arguments are still coming in.
pub struct OpenToolView {
    pub block: usize,
    pub args: Seq<char>,
    pub parsed: usize,
}

impl View for OpenTool {
    type V = OpenToolView;

    open spec fn view(&self) -> OpenToolView {
        OpenToolView { block: self.block, args: self.args@, parsed: self.parsed }
    }
}

/// The state machine over the chunks of a response. Its functions return the events to emit.
pub struct ChunkState {
    pub output: AssistantMessage,
    /// The block that is written to.
    pub current: Option<usize>,
    /// The blocks of the tool calls by their index in the stream.
    pub by_index: Vec<(u64, usize)>,
    /// The tool calls whose arguments are still coming in.
    pub open: Vec<OpenTool>,
    pub finished: bool,
    pub saw_usage: bool,
    /// Usage may still follow the finish.
    pub await_trailing_usage: bool,
    pub saw_done: bool,
    /// At least one chunk was decoded.
    pub saw_frame: bool,
    /// At least one piece of output has come in.
    pub first_token: bool,
}

/// What a [`ChunkState`] holds.
pub struct ChunkStateView {
    pub output: AssistantMessageView,
    /// The block that is written to.
    pub current: Option<usize>,
    /// The blocks of the tool calls by their index in the stream.
    pub by_index: Seq<(u64, usize)>,
    /// The tool calls whose arguments are still coming in.
    pub open: Seq<OpenToolView>,
    pub finished: bool,
    pub saw_usage: bool,
    pub await_trailing_usage: bool,
    pub saw_done: bool,
    pub saw_frame: bool,
    pub first_token: bool,
}

impl View for ChunkState {
    type V = ChunkStateView;

    open spec fn view(&self) -> ChunkStateView {
        ChunkStateView {
            output: self.output@,
            current: self.current,
            by_index: self.by_index@,
            open: text::views(self.open@),
            finished: self.finished,
            saw_usage: self.saw_usage,
            await_trailing_usage: self.await_trailing_usage,
            saw_done: self.saw_done,
            saw_frame: self.saw_frame,
            first_token: self.first_token,
        }
    }
}

/// The events that were emitted.
pub type Events = Seq<AssistantMessageEventView>;

/// The state and the events so far.
pub struct RunView {
    pub st: ChunkStateView,
    pub events: Events,
}

/// The run with one more event.
pub open spec fn emitted(r: RunView, e: AssistantMessageEventView) -> RunView {
    RunView { events: r.events.push(e), ..r }
}

/// The run with another content.
pub open spec fn with_content(r: RunView, content: Seq<AssistantBlockView>) -> RunView {
    RunView {
        st: ChunkStateView {
            output: AssistantMessageView { content, ..r.st.output },
            ..r.st
        },
        ..r
    }
}

/// The block at an index.
pub open spec fn block_at(content: Seq<AssistantBlockView>, i: usize) -> Option<
    AssistantBlockView,
> {
    if i < content.len() {
        Some(content[i as int])
    } else {
        None
    }
}

/// Whether the block at an index is a tool call.
pub open spec fn tool_at(content: Seq<AssistantBlockView>, i: usize) -> bool {
    block_at(content, i) matches Some(AssistantBlockView::ToolCall(_))
}

/// The place, from `from` on, of the tool call with that block among those that are open.
pub open spec fn open_place(open: Seq<OpenToolView>, block: usize, from: int) -> Option<int>
    decreases open.len() - from,
{
    if from < 0 || from >= open.len() {
        None
    } else if open[from].block == block {
        Some(from)
    } else {
        open_place(open, block, from + 1)
    }
}

/// The entries but those for the block.
pub open spec fn without_block(list: Seq<(u64, usize)>, block: usize) -> Seq<(u64, usize)>
    decreases list.len(),
{
    if list.len() == 0 {
        Seq::empty()
    } else {
        let rest = without_block(list.drop_last(), block);
        if list.last().1 == block {
            rest
        } else {
            rest.push(list.last())
        }
    }
}

/// The tool call with its final arguments.
pub open spec fn with_arguments(c: ToolCallView, raw: Seq<char>) -> ToolCallView {
    ToolCallView { arguments: json::final_arguments(raw), ..c }
}

/// Ends an open tool call: its arguments are parsed strictly.
#[verifier::opaque]
pub open spec fn tool_finished(r: RunView, block: usize) -> RunView {
    match open_place(r.st.open, block, 0) {
        None => r,
        Some(k) => {
            let closed = RunView {
                st: ChunkStateView {
                    open: r.st.open.remove(k),
                    by_index: without_block(r.st.by_index, block),
                    ..r.st
                },
                ..r
            };
            match block_at(r.st.output.content, block) {
                Some(AssistantBlockView::ToolCall(c)) => {
                    let call = with_arguments(c, r.st.open[k].args);
                    let w = with_content(
                        closed,
                        r.st.output.content.update(
                            block as int,
                            AssistantBlockView::ToolCall(call),
                        ),
                    );
                    emitted(
                        w,
                        AssistantMessageEventView::ToolcallEnd {
                            content_index: block,
                            tool_call: call,
                            partial: w.st.output,
                        },
                    )
                },
                _ => closed,
            }
        },
    }
}

/// Ends a block.
#[verifier::opaque]
pub open spec fn block_finished(r: RunView, i: usize) -> RunView {
    match block_at(r.st.output.content, i) {
        Some(AssistantBlockView::Text(t)) => emitted(
            r,
            AssistantMessageEventView::TextEnd {
                content_index: i,
                content: t.text,
                partial: r.st.output,
            },
        ),
        Some(AssistantBlockView::Thinking(t)) => emitted(
            r,
            AssistantMessageEventView::ThinkingEnd {
                content_index: i,
                content: t.thinking,
                partial: r.st.output,
            },
        ),
        Some(AssistantBlockView::ToolCall(_)) => tool_finished(r, i),
        _ => r,
    }
}

/// Ends the block that is written to, unless it is a tool call: a tool call stays open, for a
/// later chunk may go on with it.
#[verifier::opaque]
pub open spec fn current_finished(r: RunView) -> RunView {
    match r.st.current {
        Some(i) => if tool_at(r.st.output.content, i) {
            r
        } else {
            block_finished(r, i)
        },
        None => r,
    }
}

/// Ends the tool calls of the first `n` entries of a list.
pub open spec fn tools_finished(r: RunView, list: Seq<OpenToolView>, n: int) -> RunView
    decreases n,
{
    if n <= 0 {
        r
    } else {
        tool_finished(tools_finished(r, list, n - 1), list[n - 1].block)
    }
}

/// Ends all blocks that are open.
pub open spec fn all_finished(r: RunView) -> RunView {
    let c = current_finished(r);
    let d = RunView { st: ChunkStateView { current: None, ..c.st }, ..c };
    tools_finished(d, d.st.open, d.st.open.len() as int)
}

/// Begins a block.
pub open spec fn begun(r: RunView, block: AssistantBlockView) -> RunView {
    let w = with_content(r, r.st.output.content.push(block));
    RunView {
        st: ChunkStateView { current: Some(r.st.output.content.len() as usize), ..w.st },
        ..w
    }
}

/// Notes that output has come in.
pub open spec fn token_seen(r: RunView) -> RunView {
    RunView { st: ChunkStateView { first_token: true, ..r.st }, ..r }
}

/// The run with a text block to write to.
#[verifier::opaque]
pub open spec fn text_ready(r: RunView) -> RunView {
    if r.st.current is Some && (block_at(r.st.output.content, r.st.current.unwrap()) matches Some(
        AssistantBlockView::Text(_),
    )) {
        r
    } else {
        let w = begun(
            current_finished(r),
            AssistantBlockView::Text(
                TextContentView { text: Seq::empty(), text_signature: None },
            ),
        );
        emitted(
            w,
            AssistantMessageEventView::TextStart {
                content_index: w.st.current.unwrap(),
                partial: w.st.output,
            },
        )
    }
}

/// The blocks with more text in the one at an index.
#[verifier::opaque]
pub open spec fn text_grown(content: Seq<AssistantBlockView>, i: usize, s: Seq<char>) -> Seq<
    AssistantBlockView,
> {
    match block_at(content, i) {
        Some(AssistantBlockView::Text(t)) => content.update(
            i as int,
            AssistantBlockView::Text(TextContentView { text: t.text + s, ..t }),
        ),
        _ => content,
    }
}

/// Appends text to the message.
#[verifier::opaque]
pub open spec fn text_appended(r: RunView, s: Seq<char>) -> RunView {
    if s.len() == 0 {
        r
    } else {
        let w = text_ready(token_seen(r));
        let i = w.st.current.unwrap();
        let x = with_content(w, text_grown(w.st.output.content, i, s));
        emitted(
            x,
            AssistantMessageEventView::TextDelta {
                content_index: i,
                delta: s,
                partial: x.st.output,
            },
        )
    }
}

/// Whether the block that is written to is reasoning with that signature.
pub open spec fn thinks(st: ChunkStateView, signature: Seq<char>) -> bool {
    st.current is Some && match block_at(st.output.content, st.current.unwrap()) {
        Some(AssistantBlockView::Thinking(t)) => t.thinking_signature == Some(signature),
        _ => false,
    }
}

/// The run with a reasoning block to write to.
#[verifier::opaque]
pub open spec fn thinking_ready(r: RunView, signature: Seq<char>) -> RunView {
    if thinks(r.st, signature) {
        r
    } else {
        let w = begun(
            current_finished(r),
            AssistantBlockView::Thinking(
                ThinkingContentView {
                    thinking: Seq::empty(),
                    thinking_signature: Some(signature),
                },
            ),
        );
        emitted(
            w,
            AssistantMessageEventView::ThinkingStart {
                content_index: w.st.current.unwrap(),
                partial: w.st.output,
            },
        )
    }
}

/// The blocks with more reasoning in the one at an index.
#[verifier::opaque]
pub open spec fn thinking_grown(content: Seq<AssistantBlockView>, i: usize, s: Seq<char>) -> Seq<
    AssistantBlockView,
> {
    match block_at(content, i) {
        Some(AssistantBlockView::Thinking(t)) => content.update(
            i as int,
            AssistantBlockView::Thinking(ThinkingContentView { thinking: t.thinking + s, ..t }),
        ),
        _ => content,
    }
}

/// Appends reasoning to the message.
#[verifier::opaque]
pub open spec fn thinking_appended(r: RunView, s: Seq<char>, signature: Seq<char>) -> RunView {
    let w = thinking_ready(token_seen(r), signature);
    let i = w.st.current.unwrap();
    let x = with_content(w, thinking_grown(w.st.output.content, i, s));
    emitted(
        x,
        AssistantMessageEventView::ThinkingDelta {
            content_index: i,
            delta: s,
            partial: x.st.output,
        },
    )
}

// ------------------------------------------------------------------ tool call deltas

/// The block of the first entry, from `from` on, with that index in the stream.
pub open spec fn indexed(list: Seq<(u64, usize)>, index: u64, from: int) -> Option<usize>
    decreases list.len() - from,
{
    if from < 0 || from >= list.len() {
        None
    } else if list[from].0 == index {
        Some(list[from].1)
    } else {
        indexed(list, index, from + 1)
    }
}

/// The id of the tool call of a block; empty where it is none.
pub open spec fn call_id(content: Seq<AssistantBlockView>, block: usize) -> Seq<char> {
    match block_at(content, block) {
        Some(AssistantBlockView::ToolCall(c)) => c.id,
        _ => Seq::empty(),
    }
}

/// The block of the first open tool call, from `from` on, with that id.
pub open spec fn open_with_id(st: ChunkStateView, id: Seq<char>, from: int) -> Option<usize>
    decreases st.open.len() - from,
{
    if from < 0 || from >= st.open.len() {
        None
    } else if tool_at(st.output.content, st.open[from].block) && call_id(
        st.output.content,
        st.open[from].block,
    ) == id {
        Some(st.open[from].block)
    } else {
        open_with_id(st, id, from + 1)
    }
}

/// The text of the member `name` of the member `function`, where it is not empty.
pub open spec fn function_text(call: JsonView, name: Seq<char>) -> Option<Seq<char>> {
    match json::member(call, "function"@) {
        Some(f) => filled(f, name),
        None => None,
    }
}

/// The block that a delta goes on with: by its index, else by its id, else the one that is
/// written to where that is open and the delta names no other.
#[verifier::opaque]
pub open spec fn target(st: ChunkStateView, call: JsonView) -> Option<usize> {
    let index = json::uint_of(json::member(call, "index"@));
    let id = filled(call, "id"@);
    let by_index = match index {
        Some(i) => indexed(st.by_index, i, 0),
        None => None,
    };
    let by_id = match id {
        Some(s) => open_with_id(st, s, 0),
        None => None,
    };
    if by_index is Some {
        by_index
    } else if by_id is Some {
        by_id
    } else {
        match st.current {
            Some(c) => if open_place(st.open, c, 0) is Some && (id is None || id.unwrap()
                == call_id(st.output.content, c)) {
                Some(c)
            } else {
                None
            },
            None => None,
        }
    }
}

/// The run with the tool call of a delta to write to: one that is open, or a new one.
#[verifier::opaque]
pub open spec fn tool_ready(r: RunView, call: JsonView) -> RunView {
    let index = json::uint_of(json::member(call, "index"@));
    match target(r.st, call) {
        Some(block) => {
            let c = if r.st.current != Some(block) {
                current_finished(r)
            } else {
                r
            };
            RunView {
                st: ChunkStateView {
                    current: Some(block),
                    by_index: match index {
                        Some(i) => if indexed(c.st.by_index, i, 0) is Some {
                            c.st.by_index
                        } else {
                            c.st.by_index.push((i, block))
                        },
                        None => c.st.by_index,
                    },
                    ..c.st
                },
                ..c
            }
        },
        None => {
            let id = filled(call, "id"@);
            let name = function_text(call, "name"@);
            let w = begun(
                current_finished(r),
                AssistantBlockView::ToolCall(
                    ToolCallView {
                        id: if id is Some {
                            id.unwrap()
                        } else {
                            Seq::empty()
                        },
                        name: if name is Some {
                            name.unwrap()
                        } else {
                            Seq::empty()
                        },
                        arguments: Seq::empty(),
                        thought_signature: None,
                    },
                ),
            );
            let block = w.st.current.unwrap();
            let x = RunView {
                st: ChunkStateView {
                    by_index: match index {
                        Some(i) => w.st.by_index.push((i, block)),
                        None => w.st.by_index,
                    },
                    open: w.st.open.push(
                        OpenToolView { block, args: Seq::empty(), parsed: 0 },
                    ),
                    ..w.st
                },
                ..w
            };
            emitted(
                x,
                AssistantMessageEventView::ToolcallStart {
                    content_index: block,
                    partial: x.st.output,
                },
            )
        },
    }
}

/// The open tool calls with one for the block: one that is there, or a new one.
pub open spec fn opened(open: Seq<OpenToolView>, block: usize) -> Seq<OpenToolView> {
    if open_place(open, block, 0) is Some {
        open
    } else {
        open.push(OpenToolView { block, args: Seq::empty(), parsed: 0 })
    }
}

/// The members of `more` set in `o`, from the first up to the `n`th.
pub open spec fn merged(o: json::Entries, more: json::Entries, n: int) -> json::Entries
    decreases n,
{
    if n <= 0 {
        o
    } else {
        json::with_member(merged(o, more, n - 1), more[n - 1].0, more[n - 1].1)
    }
}

/// The arguments after a delta: text is appended, an object is merged in.
#[verifier::opaque]
pub open spec fn args_after(args: Seq<char>, delta: Option<JsonView>) -> Seq<char> {
    match delta {
        Some(JsonView::String(s)) => args + s,
        Some(JsonView::Object(o)) => json::compact(
            JsonView::Object(merged(json::streamed(args), o, o.len() as int)),
        ),
        _ => args,
    }
}

/// The text that a delta appends.
pub open spec fn appended(delta: Option<JsonView>) -> Seq<char> {
    match delta {
        Some(JsonView::String(s)) => s,
        _ => Seq::empty(),
    }
}

/// The number of bytes of a text.
#[verifier::opaque]
pub open spec fn byte_len(s: Seq<char>) -> usize {
    vstd::utf8::encode_utf8(s).len() as usize
}

/// Whether arguments are parsed again for display: they have grown by half, and by 256 bytes,
/// since the last time.
#[verifier::opaque]
pub open spec fn parse_due(args: Seq<char>, parsed: usize) -> bool {
    parsed == 0 || byte_len(args) >= parsed + (if parsed / 2 > 256 {
        (parsed / 2) as int
    } else {
        256
    })
}

/// The tool call after a delta.
#[verifier::opaque]
pub open spec fn call_after(c: ToolCallView, call: JsonView, display: Option<json::Entries>) -> ToolCallView {
    let id = filled(call, "id"@);
    let name = function_text(call, "name"@);
    ToolCallView {
        id: if id is Some {
            id.unwrap()
        } else {
            c.id
        },
        name: if name is Some {
            name.unwrap()
        } else {
            c.name
        },
        arguments: if display is Some {
            display.unwrap()
        } else {
            c.arguments
        },
        thought_signature: c.thought_signature,
    }
}

/// The blocks with the tool call of one of them as it is after a delta.
#[verifier::opaque]
pub open spec fn call_changed(
    content: Seq<AssistantBlockView>,
    block: usize,
    call: JsonView,
    display: Option<json::Entries>,
) -> Seq<AssistantBlockView> {
    match block_at(content, block) {
        Some(AssistantBlockView::ToolCall(c)) => content.update(
            block as int,
            AssistantBlockView::ToolCall(call_after(c, call, display)),
        ),
        _ => content,
    }
}

/// What a delta of a tool call does.
#[verifier::opaque]
pub open spec fn tool_delta(r: RunView, call: JsonView) -> RunView {
    let w = tool_ready(r, call);
    let block = w.st.current.unwrap();
    let open = opened(w.st.open, block);
    let k = open_place(open, block, 0).unwrap();
    let delta = nested(call, "function"@, "arguments"@);
    let args = args_after(open[k].args, delta);
    let due = parse_due(args, open[k].parsed);
    let parsed = if due {
        if byte_len(args) > 1 {
            byte_len(args)
        } else {
            1usize
        }
    } else {
        open[k].parsed
    };
    let display = if due {
        Some(json::streamed(args))
    } else {
        None
    };
    let x = RunView {
        st: ChunkStateView {
            open: open.update(k, OpenToolView { block, args, parsed }),
            first_token: true,
            ..w.st
        },
        ..w
    };
    let y = with_content(x, call_changed(x.st.output.content, block, call, display));
    emitted(
        y,
        AssistantMessageEventView::ToolcallDelta {
            content_index: block,
            delta: appended(delta),
            partial: y.st.output,
        },
    )
}

/// After the first `n` deltas of a list.
pub open spec fn tool_deltas(r: RunView, calls: Seq<JsonView>, n: int) -> RunView
    decreases n,
{
    if n <= 0 {
        r
    } else {
        tool_delta(tool_deltas(r, calls, n - 1), calls[n - 1])
    }
}

// ------------------------------------------------------------------ whole chunks

/// Takes over the usage that is reported.
pub open spec fn usage_applied(r: RunView, raw: JsonView) -> RunView {
    RunView {
        st: ChunkStateView {
            output: AssistantMessageView { usage: usage_of(raw), ..r.st.output },
            saw_usage: true,
            await_trailing_usage: !positive_cache_read(raw),
            ..r.st
        },
        ..r
    }
}

/// Takes over the member `usage`, where it is an object.
#[verifier::opaque]
pub open spec fn usage_taken(r: RunView, v: JsonView) -> RunView {
    match json::member(v, "usage"@) {
        Some(JsonView::Object(o)) => usage_applied(r, JsonView::Object(o)),
        _ => r,
    }
}

/// Takes over the names of the response and of its provider, where they are not known.
#[verifier::opaque]
pub open spec fn names_taken(r: RunView, chunk: JsonView) -> RunView {
    let out = r.st.output;
    RunView {
        st: ChunkStateView {
            output: AssistantMessageView {
                response_id: if out.response_id is None {
                    filled(chunk, "id"@)
                } else {
                    out.response_id
                },
                upstream_provider: if out.upstream_provider is None {
                    filled(chunk, "provider"@)
                } else {
                    out.upstream_provider
                },
                ..out
            },
            ..r.st
        },
        ..r
    }
}

/// Takes over the reason why the response is finished.
#[verifier::opaque]
pub open spec fn finish_taken(r: RunView, choice: JsonView) -> RunView {
    match filled(choice, "finish_reason"@) {
        Some(reason) => {
            let (stop, message) = mapped_stop(Some(reason));
            RunView {
                st: ChunkStateView {
                    output: AssistantMessageView {
                        stop_reason: stop,
                        error_message: if message is Some {
                            message
                        } else {
                            r.st.output.error_message
                        },
                        ..r.st.output
                    },
                    finished: true,
                    ..r.st
                },
                ..r
            }
        },
        None => r,
    }
}

/// The reasoning of a delta: the first of the members that providers use, with its name.
pub open spec fn reasoning_of(delta: JsonView) -> Option<(Seq<char>, Seq<char>)> {
    if filled(delta, "reasoning_content"@) is Some {
        Some((filled(delta, "reasoning_content"@).unwrap(), "reasoning_content"@))
    } else if filled(delta, "reasoning"@) is Some {
        Some((filled(delta, "reasoning"@).unwrap(), "reasoning"@))
    } else if filled(delta, "reasoning_text"@) is Some {
        Some((filled(delta, "reasoning_text"@).unwrap(), "reasoning_text"@))
    } else {
        None
    }
}

/// What the delta of a choice does: reasoning, then text, then tool calls.
#[verifier::opaque]
pub open spec fn delta_taken(r: RunView, delta: JsonView) -> RunView {
    let a = match reasoning_of(delta) {
        Some((s, field)) => thinking_appended(r, s, field),
        None => r,
    };
    let b = text_appended(a, content_of(json::member(delta, "content"@)));
    match json::array_of(json::member(delta, "tool_calls"@)) {
        Some(calls) => tool_deltas(b, calls, calls.len() as int),
        None => b,
    }
}

/// What a choice does: its usage, unless the chunk has some, why it is finished, its delta.
#[verifier::opaque]
pub open spec fn choice_taken(r: RunView, choice: JsonView, usage_known: bool) -> RunView {
    let c = finish_taken(
        if usage_known {
            r
        } else {
            usage_taken(r, choice)
        },
        choice,
    );
    match json::member(choice, "delta"@) {
        Some(delta) => delta_taken(c, delta),
        None => c,
    }
}

/// Reading stops where the response is finished and its usage is known.
pub open spec fn flow_after(st: ChunkStateView) -> ChunkFlow {
    if st.finished && st.saw_usage && !st.await_trailing_usage {
        ChunkFlow::Break
    } else {
        ChunkFlow::Continue
    }
}

/// What a chunk does, and whether to go on reading.
pub open spec fn handled(r: RunView, chunk: JsonView) -> (RunView, Result<
    ChunkFlow,
    ProviderErrorView,
>) {
    if !(chunk is Object) {
        (r, Ok(ChunkFlow::Continue))
    } else {
        let a = RunView { st: ChunkStateView { saw_frame: true, ..r.st }, ..r };
        match chunk_error(chunk) {
            Some(e) => (a, Err(e)),
            None => {
                let b = usage_taken(names_taken(a, chunk), chunk);
                match first_choice(chunk) {
                    None => (
                        b,
                        Ok(
                            if b.st.finished && b.st.saw_usage {
                                ChunkFlow::Break
                            } else {
                                ChunkFlow::Continue
                            },
                        ),
                    ),
                    Some(choice) => {
                        let c = choice_taken(
                            b,
                            choice,
                            json::object_of(json::member(chunk, "usage"@)) is Some,
                        );
                        (c, Ok(flow_after(c.st)))
                    },
                }
            },
        }
    }
}

/// What the end of the stream does. A stream that stops without a terminal signal is an error;
/// a turn that stops with tool calls is one that uses tools.
pub open spec fn concluded(r: RunView) -> (RunView, Result<(), ProviderErrorView>) {
    if !r.st.finished && !r.st.saw_done && r.st.output.content.len() > 0 {
        (r, Err(ProviderErrorView::Incomplete(INCOMPLETE_STREAM_MESSAGE@)))
    } else if !r.st.finished && !r.st.saw_done && !r.st.saw_frame {
        (r, Err(ProviderErrorView::Incomplete(EMPTY_STREAM_MESSAGE@)))
    } else {
        let a = all_finished(r);
        let out = a.st.output;
        let stop = if out.stop_reason == StopReason::Stop && types::tool_calls(out.content).len()
            > 0 {
            StopReason::ToolUse
        } else {
            out.stop_reason
        };
        let error = if stop == StopReason::Error {
            out.error_message
        } else {
            None
        };
        let b = RunView {
            st: ChunkStateView {
                output: AssistantMessageView {
                    stop_reason: stop,
                    error_message: error,
                    ..out
                },
                ..a.st
            },
            ..a
        };
        if stop == StopReason::Error {
            (
                b,
                Err(
                    ProviderErrorView::Stream(
                        match out.error_message {
                            Some(m) => m,
                            None => "Provider returned an error stop reason"@,
                        },
                    ),
                ),
            )
        } else {
            (b, Ok(()))
        }
    }
}

// ------------------------------------------------------------------ running it

fn push_event(events: &mut Vec<AssistantMessageEvent>, e: AssistantMessageEvent)
    ensures
        text::views(final(events)@) == text::views(old(events)@).push(e@),
{
    proof {
        text::lemma_views_push(events@, e);
    }
    events.push(e);
}

/// The state and the events as one.
pub open spec fn run(st: ChunkStateView, events: Seq<AssistantMessageEvent>) -> RunView {
    RunView { st, events: text::views(events) }
}

fn drop_block(list: &Vec<(u64, usize)>, block: usize) -> (r: Vec<(u64, usize)>)
    ensures
        r@ == without_block(list@, block),
{
    let mut out: Vec<(u64, usize)> = Vec::new();
    let mut i: usize = 0;
    while i < list.len()
        invariant
            i <= list@.len(),
            out@ == without_block(list@.take(i as int), block),
        decreases list@.len() - i,
    {
        assert(list@.take(i as int + 1).drop_last() =~= list@.take(i as int));
        if list[i].1 != block {
            out.push(list[i]);
        }
        i += 1;
    }
    assert(list@.take(list@.len() as int) =~= list@);
    out
}

fn find_index(list: &Vec<(u64, usize)>, index: u64) -> (r: Option<usize>)
    ensures
        r == indexed(list@, index, 0),
{
    let mut i: usize = 0;
    while i < list.len()
        invariant
            i <= list@.len(),
            indexed(list@, index, 0) == indexed(list@, index, i as int),
        decreases list@.len() - i,
    {
        if list[i].0 == index {
            return Some(list[i].1);
        }
        i += 1;
    }
    None
}

fn text_len(s: &String) -> (r: usize)
    ensures
        r == byte_len(s@),
{
    proof {
        reveal(byte_len);
    }
    s.as_str().len()
}

fn merge(o: JsonObject, more: &JsonObject) -> (r: JsonObject)
    ensures
        r@ == merged(o@, more@, more@.len() as int),
{
    let ghost start = o@;
    let mut out = o;
    let mut i: usize = 0;
    while i < more.entries.len()
        invariant
            i <= more.entries@.len(),
            more@.len() == more.entries@.len(),
            out@ == merged(start, more@, i as int),
        decreases more.entries@.len() - i,
    {
        assert(more@[i as int] == (more.entries@[i as int].0@, more.entries@[i as int].1@));
        out.insert(more.entries[i].0.clone(), more.entries[i].1.clone());
        i += 1;
    }
    out
}

fn arguments_after(args: &String, delta: Option<&Json>) -> (r: String)
    ensures
        r@ == args_after(args@, text::opt_view(delta)),
{
    proof {
        reveal(args_after);
    }
    match delta {
        Some(Json::String(s)) => text::concat(args.as_str(), s.as_str()),
        Some(Json::Object(o)) => {
            let all = merge(parse_streaming_json(args.as_str()), o);
            json::to_text(&Json::Object(all))
        },
        _ => args.clone(),
    }
}

fn is_parse_due(args: &String, parsed: usize) -> (r: bool)
    ensures
        r == parse_due(args@, parsed),
{
    proof {
        reveal(parse_due);
    }
    let half: usize = parsed / 2;
    let growth: usize = if half > 256 { half } else { 256 };
    parsed == 0 || text_len(args) as u128 >= parsed as u128 + growth as u128
}

impl ChunkState {
    /// The state before any chunk, with a given timestamp for the message.
    pub fn new_at(model: &Model, timestamp: i64) -> (r: ChunkState)
        ensures
            r@ == (ChunkStateView {
                output: types::empty_assistant(
                    API@,
                    model@.provider,
                    model@.id,
                    timestamp,
                ),
                current: None,
                by_index: Seq::empty(),
                open: Seq::empty(),
                finished: false,
                saw_usage: false,
                await_trailing_usage: false,
                saw_done: false,
                saw_frame: false,
                first_token: false,
            }),
    {
        let r = ChunkState {
            output: AssistantMessage::empty_at(
                API,
                model.provider.as_str(),
                model.id.as_str(),
                timestamp,
            ),
            current: None,
            by_index: Vec::new(),
            open: Vec::new(),
            finished: false,
            saw_usage: false,
            await_trailing_usage: false,
            saw_done: false,
            saw_frame: false,
            first_token: false,
        };
        assert(r@.open =~= Seq::empty());
        r
    }

    /// The state before any chunk.
    pub fn new(model: &Model) -> (r: ChunkState)
        ensures
            r@ == (ChunkStateView {
                output: types::empty_assistant(
                    API@,
                    model@.provider,
                    model@.id,
                    r@.output.timestamp,
                ),
                current: None,
                by_index: Seq::empty(),
                open: Seq::empty(),
                finished: false,
                saw_usage: false,
                await_trailing_usage: false,
                saw_done: false,
                saw_frame: false,
                first_token: false,
            }),
    {
        ChunkState::new_at(model, now_ms())
    }

    /// Whether the model has said that it is done.
    pub fn is_finished(&self) -> (r: bool)
        ensures
            r == self@.finished,
    {
        self.finished
    }

    /// Notes that the stream has said that it is done.
    pub fn mark_done(&mut self)
        ensures
            final(self)@ == (ChunkStateView { saw_done: true, ..old(self)@ }),
    {
        self.saw_done = true;
    }

    /// The message so far.
    pub fn message(&self) -> (r: &AssistantMessage)
        ensures
            r@ == self@.output,
    {
        &self.output
    }

    fn snapshot(&self) -> (r: AssistantMessage)
        ensures
            r@ == self@.output,
    {
        self.output.clone()
    }

    fn is_tool(&self, i: usize) -> (r: bool)
        ensures
            r == tool_at(self@.output.content, i),
    {
        i < self.output.content.len() && matches!(
            &self.output.content[i],
            AssistantBlock::ToolCall(_)
        )
    }

    fn find_open(&self, block: usize) -> (r: Option<usize>)
        ensures
            match r {
                Some(k) => open_place(self@.open, block, 0) == Some(k as int) && k < self.open@.len(),
                None => open_place(self@.open, block, 0) is None,
            },
    {
        let mut i: usize = 0;
        while i < self.open.len()
            invariant
                i <= self.open@.len(),
                open_place(self@.open, block, 0) == open_place(self@.open, block, i as int),
            decreases self.open@.len() - i,
        {
            assert(self@.open[i as int] == self.open@[i as int]@);
            if self.open[i].block == block {
                return Some(i);
            }
            i += 1;
        }
        None
    }

    fn set_block(&mut self, i: usize, block: AssistantBlock)
        requires
            i < old(self)@.output.content.len(),
        ensures
            final(self)@ == (ChunkStateView {
                output: AssistantMessageView {
                    content: old(self)@.output.content.update(i as int, block@),
                    ..old(self)@.output
                },
                ..old(self)@
            }),
    {
        let ghost before = self@;
        self.output.content.set(i, block);
        assert(self@.output.content =~= before.output.content.update(i as int, block@));
    }

    fn push_block(&mut self, block: AssistantBlock) -> (r: usize)
        ensures
            r == old(self)@.output.content.len() as usize,
            r == old(self)@.output.content.len(),
            final(self)@ == (ChunkStateView {
                output: AssistantMessageView {
                    content: old(self)@.output.content.push(block@),
                    ..old(self)@.output
                },
                current: Some(r),
                ..old(self)@
            }),
    {
        let i: usize = self.output.content.len();
        proof {
            text::lemma_views_push(self.output.content@, block);
        }
        self.output.content.push(block);
        self.current = Some(i);
        i
    }

    fn finish_tool(&mut self, block: usize, events: &mut Vec<AssistantMessageEvent>)
        ensures
            run(final(self)@, final(events)@) == tool_finished(
                run(old(self)@, old(events)@),
                block,
            ),
    {
        proof {
            reveal(tool_finished);
        }
        let ghost r = run(self@, events@);
        let k: usize = match self.find_open(block) {
            Some(k) => k,
            None => {
                return;
            },
        };
        let raw = self.open[k].args.clone();
        let _ = self.open.remove(k);
        assert(self@.open =~= r.st.open.remove(k as int));
        self.by_index = drop_block(&self.by_index, block);
        if block < self.output.content.len() {
            let call = match &self.output.content[block] {
                AssistantBlock::ToolCall(c) => Some(
                    ToolCall {
                        id: c.id.clone(),
                        name: c.name.clone(),
                        arguments: parse_final_arguments(raw.as_str()),
                        thought_signature: text::clone_opt_string(&c.thought_signature),
                    },
                ),
                _ => None,
            };
            match call {
                Some(call) => {
                    self.set_block(block, AssistantBlock::ToolCall(call.clone()));
                    push_event(
                        events,
                        AssistantMessageEvent::ToolcallEnd {
                            content_index: block,
                            tool_call: call,
                            partial: self.snapshot(),
                        },
                    );
                },
                None => {},
            }
        }
        assert(run(self@, events@) =~= tool_finished(r, block));
    }

    fn finish_block(&mut self, i: usize, events: &mut Vec<AssistantMessageEvent>)
        ensures
            run(final(self)@, final(events)@) == block_finished(run(old(self)@, old(events)@), i),
    {
        proof {
            reveal(block_finished);
        }
        if i >= self.output.content.len() {
            return;
        }
        let partial = self.snapshot();
        match &self.output.content[i] {
            AssistantBlock::Text(t) => {
                push_event(
                    events,
                    AssistantMessageEvent::TextEnd {
                        content_index: i,
                        content: t.text.clone(),
                        partial,
                    },
                );
            },
            AssistantBlock::Thinking(t) => {
                push_event(
                    events,
                    AssistantMessageEvent::ThinkingEnd {
                        content_index: i,
                        content: t.thinking.clone(),
                        partial,
                    },
                );
            },
            AssistantBlock::ToolCall(_) => self.finish_tool(i, events),
            _ => {},
        }
    }

    fn finish_current(&mut self, events: &mut Vec<AssistantMessageEvent>)
        ensures
            run(final(self)@, final(events)@) == current_finished(run(old(self)@, old(events)@)),
    {
        proof {
            reveal(current_finished);
        }
        match self.current {
            Some(i) => {
                if !self.is_tool(i) {
                    self.finish_block(i, events);
                }
            },
            None => {},
        }
    }

    /// Ends all blocks that are open, at the end of a response and after an error alike.
    pub fn close_open_blocks(&mut self, events: &mut Vec<AssistantMessageEvent>)
        ensures
            run(final(self)@, final(events)@) == all_finished(run(old(self)@, old(events)@)),
    {
        self.finish_current(events);
        self.current = None;
        let ghost start = run(self@, events@);
        let mut blocks: Vec<usize> = Vec::new();
        let mut k: usize = 0;
        while k < self.open.len()
            invariant
                k <= self.open@.len(),
                blocks@.len() == k,
                forall|j: int| 0 <= j < k ==> blocks@[j] == text::views(self.open@)[j].block,
            decreases self.open@.len() - k,
        {
            assert(text::views(self.open@)[k as int] == self.open@[k as int]@);
            blocks.push(self.open[k].block);
            k += 1;
        }
        let mut i: usize = 0;
        while i < blocks.len()
            invariant
                i <= blocks@.len(),
                blocks@.len() == start.st.open.len(),
                forall|j: int| 0 <= j < blocks@.len() ==> blocks@[j] == start.st.open[j].block,
                run(self@, events@) == tools_finished(start, start.st.open, i as int),
            decreases blocks@.len() - i,
        {
            self.finish_tool(blocks[i], events);
            i += 1;
        }
    }

    fn ready_text(&mut self, events: &mut Vec<AssistantMessageEvent>) -> (i: usize)
        ensures
            run(final(self)@, final(events)@) == text_ready(run(old(self)@, old(events)@)),
            final(self)@.current == Some(i),
    {
        proof {
            reveal(text_ready);
        }
        let ghost r = run(self@, events@);
        match self.current {
            Some(i) => {
                if i < self.output.content.len() && matches!(
                    &self.output.content[i],
                    AssistantBlock::Text(_)
                ) {
                    assert(block_at(r.st.output.content, i) == Some(self.output.content@[i as int]@));
                    return i;
                }
            },
            None => {},
        }
        self.finish_current(events);
        let block = AssistantBlock::Text(
            TextContent { text: String::new(), text_signature: None },
        );
        let i: usize = self.push_block(block);
        push_event(
            events,
            AssistantMessageEvent::TextStart { content_index: i, partial: self.snapshot() },
        );
        i
    }

    fn grow_text(&mut self, i: usize, s: &str)
        ensures
            final(self)@ == (ChunkStateView {
                output: AssistantMessageView {
                    content: text_grown(old(self)@.output.content, i, s@),
                    ..old(self)@.output
                },
                ..old(self)@
            }),
    {
        proof {
            reveal(text_grown);
        }
        if i < self.output.content.len() {
            let grown = match &self.output.content[i] {
                AssistantBlock::Text(t) => Some(
                    TextContent {
                        text: text::concat(t.text.as_str(), s),
                        text_signature: text::clone_opt_string(&t.text_signature),
                    },
                ),
                _ => None,
            };
            match grown {
                Some(t) => self.set_block(i, AssistantBlock::Text(t)),
                None => {},
            }
        }
    }

    fn grow_thinking(&mut self, i: usize, s: &str)
        ensures
            final(self)@ == (ChunkStateView {
                output: AssistantMessageView {
                    content: thinking_grown(old(self)@.output.content, i, s@),
                    ..old(self)@.output
                },
                ..old(self)@
            }),
    {
        proof {
            reveal(thinking_grown);
        }
        if i < self.output.content.len() {
            let grown = match &self.output.content[i] {
                AssistantBlock::Thinking(t) => Some(
                    ThinkingContent {
                        thinking: text::concat(t.thinking.as_str(), s),
                        thinking_signature: text::clone_opt_string(&t.thinking_signature),
                    },
                ),
                _ => None,
            };
            match grown {
                Some(t) => self.set_block(i, AssistantBlock::Thinking(t)),
                None => {},
            }
        }
    }

    fn change_call(&mut self, block: usize, call: &Json, display: Option<JsonObject>)
        ensures
            final(self)@ == (ChunkStateView {
                output: AssistantMessageView {
                    content: call_changed(
                        old(self)@.output.content,
                        block,
                        call@,
                        text::opt_view(display),
                    ),
                    ..old(self)@.output
                },
                ..old(self)@
            }),
    {
        proof {
            reveal(call_changed);
        }
        if block < self.output.content.len() {
            let changed = match &self.output.content[block] {
                AssistantBlock::ToolCall(c) => Some(changed_call(c, call, display)),
                _ => None,
            };
            match changed {
                Some(c) => self.set_block(block, AssistantBlock::ToolCall(c)),
                None => {},
            }
        }
    }

    fn append_text(&mut self, s: &str, events: &mut Vec<AssistantMessageEvent>)
        ensures
            run(final(self)@, final(events)@) == text_appended(run(old(self)@, old(events)@), s@),
    {
        proof {
            reveal(text_appended);
        }
        if s.is_empty() {
            return;
        }
        let ghost r = run(self@, events@);
        self.first_token = true;
        let i: usize = self.ready_text(events);
        self.grow_text(i, s);
        push_event(
            events,
            AssistantMessageEvent::TextDelta {
                content_index: i,
                delta: s.to_owned(),
                partial: self.snapshot(),
            },
        );
        assert(run(self@, events@) == text_appended(r, s@));
    }

    fn ready_thinking(&mut self, signature: &str, events: &mut Vec<AssistantMessageEvent>) -> (i:
        usize)
        ensures
            run(final(self)@, final(events)@) == thinking_ready(
                run(old(self)@, old(events)@),
                signature@,
            ),
            final(self)@.current == Some(i),
    {
        proof {
            reveal(thinking_ready);
        }
        let ghost r = run(self@, events@);
        match self.current {
            Some(i) => {
                if i < self.output.content.len() {
                    assert(block_at(r.st.output.content, i) == Some(self.output.content@[i as int]@));
                    let same = match &self.output.content[i] {
                        AssistantBlock::Thinking(t) => match &t.thinking_signature {
                            Some(s) => same_text(s.as_str(), signature),
                            None => false,
                        },
                        _ => false,
                    };
                    if same {
                        return i;
                    }
                }
            },
            None => {},
        }
        assert(!thinks(r.st, signature@));
        self.finish_current(events);
        let block = AssistantBlock::Thinking(
            ThinkingContent {
                thinking: String::new(),
                thinking_signature: Some(signature.to_owned()),
            },
        );
        let i: usize = self.push_block(block);
        push_event(
            events,
            AssistantMessageEvent::ThinkingStart { content_index: i, partial: self.snapshot() },
        );
        i
    }

    fn append_thinking(
        &mut self,
        s: &str,
        signature: &str,
        events: &mut Vec<AssistantMessageEvent>,
    )
        ensures
            run(final(self)@, final(events)@) == thinking_appended(
                run(old(self)@, old(events)@),
                s@,
                signature@,
            ),
    {
        proof {
            reveal(thinking_appended);
        }
        let ghost r = run(self@, events@);
        self.first_token = true;
        let i: usize = self.ready_thinking(signature, events);
        self.grow_thinking(i, s);
        push_event(
            events,
            AssistantMessageEvent::ThinkingDelta {
                content_index: i,
                delta: s.to_owned(),
                partial: self.snapshot(),
            },
        );
        assert(run(self@, events@) =~= thinking_appended(r, s@, signature@));
    }

    fn find_open_id(&self, id: &str) -> (r: Option<usize>)
        ensures
            r == open_with_id(self@, id@, 0),
    {
        let mut i: usize = 0;
        while i < self.open.len()
            invariant
                i <= self.open@.len(),
                open_with_id(self@, id@, 0) == open_with_id(self@, id@, i as int),
            decreases self.open@.len() - i,
        {
            assert(self@.open[i as int] == self.open@[i as int]@);
            let block: usize = self.open[i].block;
            let found = block < self.output.content.len() && (match &self.output.content[block] {
                AssistantBlock::ToolCall(c) => same_text(c.id.as_str(), id),
                _ => false,
            });
            if found {
                return Some(block);
            }
            i += 1;
        }
        None
    }

    fn target_block(&self, call: &Json) -> (r: Option<usize>)
        ensures
            r == target(self@, call@),
    {
        proof {
            reveal(target);
        }
        match as_uint(call.get("index")) {
            Some(index) => {
                let found = find_index(&self.by_index, index);
                if found.is_some() {
                    return found;
                }
            },
            None => {},
        }
        let id = filled_text(call, "id");
        match id {
            Some(s) => {
                let found = self.find_open_id(s);
                if found.is_some() {
                    return found;
                }
            },
            None => {},
        }
        match self.current {
            Some(c) => {
                if self.find_open(c).is_none() {
                    return None;
                }
                let same = match id {
                    None => true,
                    Some(s) => {
                        if c < self.output.content.len() {
                            match &self.output.content[c] {
                                AssistantBlock::ToolCall(call) => same_text(s, call.id.as_str()),
                                _ => false,
                            }
                        } else {
                            false
                        }
                    },
                };
                assert(same == (id is None || id.unwrap()@ == call_id(self@.output.content, c)));
                if same {
                    Some(c)
                } else {
                    None
                }
            },
            None => None,
        }
    }

    fn ready_tool(&mut self, call: &Json, events: &mut Vec<AssistantMessageEvent>) -> (i: usize)
        ensures
            run(final(self)@, final(events)@) == tool_ready(
                run(old(self)@, old(events)@),
                call@,
            ),
            final(self)@.current == Some(i),
    {
        proof {
            reveal(tool_ready);
        }
        let ghost r = run(self@, events@);
        let index = as_uint(call.get("index"));
        match self.target_block(call) {
            Some(block) => {
                let other = match self.current {
                    Some(c) => c != block,
                    None => true,
                };
                if other {
                    self.finish_current(events);
                }
                self.current = Some(block);
                match index {
                    Some(index) => {
                        if find_index(&self.by_index, index).is_none() {
                            self.by_index.push((index, block));
                        }
                    },
                    None => {},
                }
                assert(run(self@, events@) =~= tool_ready(r, call@));
                block
            },
            None => {
                self.finish_current(events);
                let id = match filled_text(call, "id") {
                    Some(s) => s.to_owned(),
                    None => String::new(),
                };
                let name = match call.get("function") {
                    Some(f) => match filled_text(f, "name") {
                        Some(s) => s.to_owned(),
                        None => String::new(),
                    },
                    None => String::new(),
                };
                let block: usize = self.push_block(
                    AssistantBlock::ToolCall(
                        ToolCall {
                            id,
                            name,
                            arguments: JsonObject::new(),
                            thought_signature: None,
                        },
                    ),
                );
                match index {
                    Some(index) => {
                        self.by_index.push((index, block));
                    },
                    None => {},
                }
                let fresh = OpenTool { block, args: String::new(), parsed: 0 };
                proof {
                    text::lemma_views_push(self.open@, fresh);
                }
                self.open.push(fresh);
                push_event(
                    events,
                    AssistantMessageEvent::ToolcallStart {
                        content_index: block,
                        partial: self.snapshot(),
                    },
                );
                assert(run(self@, events@) =~= tool_ready(r, call@));
                block
            },
        }
    }

    /// The place of the open tool call of a block; one is opened where there is none.
    fn open_tool(&mut self, block: usize) -> (k: usize)
        ensures
            final(self)@ == (ChunkStateView {
                open: opened(old(self)@.open, block),
                ..old(self)@
            }),
            open_place(final(self)@.open, block, 0) == Some(k as int),
            k < final(self)@.open.len(),
    {
        match self.find_open(block) {
            Some(k) => k,
            None => {
                let fresh = OpenTool { block, args: String::new(), parsed: 0 };
                let k: usize = self.open.len();
                proof {
                    text::lemma_views_push(self.open@, fresh);
                    lemma_place_of_new(self@.open, fresh@, 0);
                }
                self.open.push(fresh);
                k
            },
        }
    }

    fn tool_call_delta(&mut self, call: &Json, events: &mut Vec<AssistantMessageEvent>)
        ensures
            run(final(self)@, final(events)@) == tool_delta(
                run(old(self)@, old(events)@),
                call@,
            ),
    {
        proof {
            reveal(tool_delta);
        }
        let ghost r = run(self@, events@);
        let block: usize = self.ready_tool(call, events);
        let ghost w = run(self@, events@);
        let k: usize = self.open_tool(block);
        let ghost open = self@.open;
        assert(open[k as int] == self.open@[k as int]@);
        let delta = nested_value(call, "function", "arguments");
        let args = arguments_after(&self.open[k].args, delta);
        let due = is_parse_due(&args, self.open[k].parsed);
        let display = if due { Some(parse_streaming_json(args.as_str())) } else { None };
        let size: usize = text_len(&args);
        let parsed: usize = if due {
            if size > 1 { size } else { 1 }
        } else {
            self.open[k].parsed
        };
        self.open.set(k, OpenTool { block, args, parsed });
        assert(self@.open =~= open.update(k as int, OpenToolView { block, args: args@, parsed }));
        self.first_token = true;
        self.change_call(block, call, display);
        let piece = match delta {
            Some(Json::String(s)) => s.clone(),
            _ => String::new(),
        };
        push_event(
            events,
            AssistantMessageEvent::ToolcallDelta {
                content_index: block,
                delta: piece,
                partial: self.snapshot(),
            },
        );
        assert(run(self@, events@) =~= tool_delta(r, call@));
    }

    fn apply_usage(&mut self, v: &Json, events: &Vec<AssistantMessageEvent>)
        ensures
            run(final(self)@, events@) == usage_taken(run(old(self)@, events@), v@),
    {
        proof {
            reveal(usage_taken);
        }
        match v.get("usage") {
            Some(raw) => {
                if raw.is_object() {
                    self.output.usage = parse_chunk_usage(raw);
                    self.saw_usage = true;
                    self.await_trailing_usage = !has_positive_cache_read(raw);
                }
            },
            None => {},
        }
    }

    fn take_names(&mut self, chunk: &Json, events: &Vec<AssistantMessageEvent>)
        ensures
            run(final(self)@, events@) == names_taken(run(old(self)@, events@), chunk@),
    {
        proof {
            reveal(names_taken);
        }
        if self.output.response_id.is_none() {
            self.output.response_id = match filled_text(chunk, "id") {
                Some(s) => Some(s.to_owned()),
                None => None,
            };
        }
        if self.output.upstream_provider.is_none() {
            self.output.upstream_provider = match filled_text(chunk, "provider") {
                Some(s) => Some(s.to_owned()),
                None => None,
            };
        }
    }

    fn take_finish(&mut self, choice: &Json, events: &Vec<AssistantMessageEvent>)
        ensures
            run(final(self)@, events@) == finish_taken(run(old(self)@, events@), choice@),
    {
        proof {
            reveal(finish_taken);
        }
        match filled_text(choice, "finish_reason") {
            Some(reason) => {
                let (stop, message) = map_stop_reason(Some(reason));
                self.output.stop_reason = stop;
                if message.is_some() {
                    self.output.error_message = message;
                }
                self.finished = true;
            },
            None => {},
        }
    }

    fn take_delta(&mut self, delta: &Json, events: &mut Vec<AssistantMessageEvent>)
        ensures
            run(final(self)@, final(events)@) == delta_taken(
                run(old(self)@, old(events)@),
                delta@,
            ),
    {
        proof {
            reveal(delta_taken);
        }
        match filled_text(delta, "reasoning_content") {
            Some(s) => self.append_thinking(s, "reasoning_content", events),
            None => match filled_text(delta, "reasoning") {
                Some(s) => self.append_thinking(s, "reasoning", events),
                None => match filled_text(delta, "reasoning_text") {
                    Some(s) => self.append_thinking(s, "reasoning_text", events),
                    None => {},
                },
            },
        }
        let said = content_text(delta.get("content"));
        self.append_text(said.as_str(), events);
        match as_array(delta.get("tool_calls")) {
            Some(calls) => {
                let ghost start = run(self@, events@);
                let mut i: usize = 0;
                while i < calls.len()
                    invariant
                        i <= calls@.len(),
                        run(self@, events@) == tool_deltas(
                            start,
                            text::views(calls@),
                            i as int,
                        ),
                    decreases calls@.len() - i,
                {
                    assert(text::views(calls@)[i as int] == calls@[i as int]@);
                    self.tool_call_delta(&calls[i], events);
                    i += 1;
                }
            },
            None => {},
        }
    }

    fn take_choice(
        &mut self,
        choice: &Json,
        usage_known: bool,
        events: &mut Vec<AssistantMessageEvent>,
    )
        ensures
            run(final(self)@, final(events)@) == choice_taken(
                run(old(self)@, old(events)@),
                choice@,
                usage_known,
            ),
    {
        proof {
            reveal(choice_taken);
        }
        if !usage_known {
            self.apply_usage(choice, &*events);
        }
        self.take_finish(choice, &*events);
        match choice.get("delta") {
            Some(delta) => self.take_delta(delta, events),
            None => {},
        }
    }

    /// Handles one decoded chunk.
    pub fn handle_chunk(&mut self, chunk: &Json, events: &mut Vec<AssistantMessageEvent>) -> (r:
        Result<ChunkFlow, ProviderError>)
        ensures
            run(final(self)@, final(events)@) == handled(
                run(old(self)@, old(events)@),
                chunk@,
            ).0,
            match r {
                Ok(flow) => handled(run(old(self)@, old(events)@), chunk@).1 == Ok::<
                    ChunkFlow,
                    ProviderErrorView,
                >(flow),
                Err(e) => handled(run(old(self)@, old(events)@), chunk@).1 == Err::<
                    ChunkFlow,
                    ProviderErrorView,
                >(e@),
            },
    {
        if !chunk.is_object() {
            return Ok(ChunkFlow::Continue);
        }
        self.saw_frame = true;
        match stream_error(chunk) {
            Some(err) => {
                return Err(err);
            },
            None => {},
        }
        self.take_names(chunk, &*events);
        self.apply_usage(chunk, &*events);
        let choice = match choice_of(chunk) {
            Some(choice) => choice,
            None => {
                return Ok(
                    if self.finished && self.saw_usage {
                        ChunkFlow::Break
                    } else {
                        ChunkFlow::Continue
                    },
                );
            },
        };
        self.take_choice(choice, as_object(chunk.get("usage")).is_some(), events);
        if self.finished && self.saw_usage && !self.await_trailing_usage {
            return Ok(ChunkFlow::Break);
        }
        Ok(ChunkFlow::Continue)
    }

    /// Ends the response. An error tells of a stream that closed too early or of a response
    /// that finished with an error.
    pub fn finish(&mut self, events: &mut Vec<AssistantMessageEvent>) -> (r: Result<
        (),
        ProviderError,
    >)
        ensures
            run(final(self)@, final(events)@) == concluded(run(old(self)@, old(events)@)).0,
            match r {
                Ok(_) => concluded(run(old(self)@, old(events)@)).1 is Ok,
                Err(e) => concluded(run(old(self)@, old(events)@)).1 == Err::<
                    (),
                    ProviderErrorView,
                >(e@),
            },
    {
        if !self.finished && !self.saw_done && self.output.content.len() > 0 {
            return Err(ProviderError::Incomplete(INCOMPLETE_STREAM_MESSAGE.to_owned()));
        }
        if !self.finished && !self.saw_done && !self.saw_frame {
            return Err(ProviderError::Incomplete(EMPTY_STREAM_MESSAGE.to_owned()));
        }
        self.close_open_blocks(events);
        let calls = self.output.tool_calls();
        assert(text::views(calls@).len() == calls@.len());
        let count: usize = calls.len();
        if self.output.stop_reason == StopReason::Stop && count > 0 {
            self.output.stop_reason = StopReason::ToolUse;
        }
        if self.output.stop_reason == StopReason::Error {
            let message = match &self.output.error_message {
                Some(m) => m.clone(),
                None => "Provider returned an error stop reason".to_owned(),
            };
            return Err(ProviderError::Stream(message));
        }
        self.output.error_message = None;
        Ok(())
    }
}

proof fn lemma_place_of_new(open: Seq<OpenToolView>, fresh: OpenToolView, from: int)
    requires
        0 <= from <= open.len(),
        open_place(open, fresh.block, from) is None,
    ensures
        open_place(open.push(fresh), fresh.block, from) == Some(open.len() as int),
    decreases open.len() - from,
{
    if from < open.len() {
        lemma_place_of_new(open, fresh, from + 1);
    }
}

fn changed_call(c: &ToolCall, call: &Json, display: Option<JsonObject>) -> (r: ToolCall)
    ensures
        r@ == call_after(c@, call@, text::opt_view(display)),
{
    proof {
        reveal(call_after);
    }
    ToolCall {
        id: match filled_text(call, "id") {
            Some(s) => s.to_owned(),
            None => c.id.clone(),
        },
        name: match call.get("function") {
            Some(f) => match filled_text(f, "name") {
                Some(s) => s.to_owned(),
                None => c.name.clone(),
            },
            None => c.name.clone(),
        },
        arguments: match display {
            Some(d) => d,
            None => c.arguments.clone(),
        },
        thought_signature: text::clone_opt_string(&c.thought_signature),
    }
}

// ------------------------------------------------------------------ laws

proof fn lemma_tools_finished(d: RunView, list: Seq<OpenToolView>, n: int)
    requires
        0 <= n <= list.len(),
        d.st.open == list,
    ensures
        tools_finished(d, list, n).st.open == list.skip(n),
        tools_finished(d, list, n).st.current == d.st.current,
    decreases n,
{
    reveal(tool_finished);
    if n == 0 {
        assert(list.skip(0) =~= list);
    } else {
        lemma_tools_finished(d, list, n - 1);
        let before = tools_finished(d, list, n - 1);
        assert(before.st.open[0] == list[n - 1]);
        assert(open_place(before.st.open, list[n - 1].block, 0) == Some(0int));
        assert(before.st.open.remove(0) =~= list.skip(n));
    }
}

/// At the end of a response no tool call and no block is left open.
pub proof fn law_nothing_stays_open(r: RunView)
    ensures
        all_finished(r).st.open.len() == 0,
        all_finished(r).st.current is None,
{
    let c = current_finished(r);
    let d = RunView { st: ChunkStateView { current: None, ..c.st }, ..c };
    lemma_tools_finished(d, d.st.open, d.st.open.len() as int);
}

/// A response that ends well and calls tools is one that uses tools: the plain stop reason is
/// promoted. A response that ends well carries no error.
pub proof fn law_calls_mean_tool_use(r: RunView)
    ensures
        concluded(r).1 is Ok ==> {
            let out = concluded(r).0.st.output;
            &&& types::tool_calls(out.content).len() > 0 ==> out.stop_reason != StopReason::Stop
            &&& out.stop_reason != StopReason::Error
            &&& out.error_message is None
        },
{
}

// ------------------------------------------------------------------ events that go on

/// Whether events were added, none of which ends the stream.
pub open spec fn goes_on(before: Events, after: Events) -> bool {
    &&& before.len() <= after.len()
    &&& forall|i: int| 0 <= i < before.len() ==> #[trigger] after[i] == before[i]
    &&& forall|i: int|
        before.len() <= i < after.len() ==> !crate::event::ends_stream(#[trigger] after[i])
}

proof fn lemma_tool_goes_on(r: RunView, block: usize)
    ensures
        goes_on(r.events, tool_finished(r, block).events),
{
    reveal(tool_finished);
}

proof fn lemma_current_goes_on(r: RunView)
    ensures
        goes_on(r.events, current_finished(r).events),
{
    reveal(current_finished);
    reveal(block_finished);
    match r.st.current {
        Some(i) => {
            lemma_tool_goes_on(r, i);
        },
        None => {},
    }
}

proof fn lemma_tools_go_on(r: RunView, list: Seq<OpenToolView>, n: int)
    ensures
        goes_on(r.events, tools_finished(r, list, n).events),
    decreases n,
{
    if n > 0 {
        lemma_tools_go_on(r, list, n - 1);
        lemma_tool_goes_on(tools_finished(r, list, n - 1), list[n - 1].block);
    }
}

proof fn lemma_text_goes_on(r: RunView, s: Seq<char>)
    ensures
        goes_on(r.events, text_appended(r, s).events),
{
    reveal(text_appended);
    reveal(text_ready);
    lemma_current_goes_on(token_seen(r));
}

proof fn lemma_thinking_goes_on(r: RunView, s: Seq<char>, signature: Seq<char>)
    ensures
        goes_on(r.events, thinking_appended(r, s, signature).events),
{
    reveal(thinking_appended);
    reveal(thinking_ready);
    lemma_current_goes_on(token_seen(r));
}

proof fn lemma_call_goes_on(r: RunView, call: JsonView)
    ensures
        goes_on(r.events, tool_delta(r, call).events),
{
    reveal(tool_delta);
    reveal(tool_ready);
    lemma_current_goes_on(r);
}

proof fn lemma_calls_go_on(r: RunView, calls: Seq<JsonView>, n: int)
    ensures
        goes_on(r.events, tool_deltas(r, calls, n).events),
    decreases n,
{
    if n > 0 {
        lemma_calls_go_on(r, calls, n - 1);
        lemma_call_goes_on(tool_deltas(r, calls, n - 1), calls[n - 1]);
    }
}

proof fn lemma_delta_goes_on(r: RunView, delta: JsonView)
    ensures
        goes_on(r.events, delta_taken(r, delta).events),
{
    reveal(delta_taken);
    let a = match reasoning_of(delta) {
        Some((s, field)) => {
            lemma_thinking_goes_on(r, s, field);
            thinking_appended(r, s, field)
        },
        None => r,
    };
    let content = content_of(json::member(delta, "content"@));
    lemma_text_goes_on(a, content);
    let b = text_appended(a, content);
    match json::array_of(json::member(delta, "tool_calls"@)) {
        Some(calls) => {
            lemma_calls_go_on(b, calls, calls.len() as int);
        },
        None => {},
    }
}

/// To end the blocks that are open ends no stream.
pub proof fn law_closing_blocks_ends_no_stream(r: RunView)
    ensures
        goes_on(r.events, all_finished(r).events),
{
    lemma_current_goes_on(r);
    let c = current_finished(r);
    let d = RunView { st: ChunkStateView { current: None, ..c.st }, ..c };
    lemma_tools_go_on(d, d.st.open, d.st.open.len() as int);
}

/// A chunk adds events, and none of them ends the stream.
pub proof fn law_a_chunk_ends_no_stream(r: RunView, chunk: JsonView)
    ensures
        goes_on(r.events, handled(r, chunk).0.events),
{
    reveal(usage_taken);
    reveal(names_taken);
    reveal(finish_taken);
    reveal(choice_taken);
    let a = RunView { st: ChunkStateView { saw_frame: true, ..r.st }, ..r };
    let b = usage_taken(names_taken(a, chunk), chunk);
    match first_choice(chunk) {
        Some(choice) => {
            let known = json::object_of(json::member(chunk, "usage"@)) is Some;
            let c = finish_taken(
                if known {
                    b
                } else {
                    usage_taken(b, choice)
                },
                choice,
            );
            match json::member(choice, "delta"@) {
                Some(delta) => {
                    lemma_delta_goes_on(c, delta);
                },
                None => {},
            }
        },
        None => {},
    }
}

/// The end of the bytes adds events, and none of them ends the stream: what ends it is sent
/// once the outcome is known.
pub proof fn law_concluding_ends_no_stream(r: RunView)
    ensures
        goes_on(r.events, concluded(r).0.events),
{
    law_closing_blocks_ends_no_stream(r);
}

} // verus!
