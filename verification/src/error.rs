//! Classification of provider errors.
//!
//! A provider does not fail towards the loop: a failure becomes a terminal event whose
//! assistant message carries the stop reason, the error message and, for HTTP failures, the
//! status.
use crate::json;
use crate::json::{as_text, Json, JsonView};
use crate::text;
use crate::text::Space;
use crate::types::StopReason;
use vstd::prelude::*;

verus! {

/// What went wrong in a model call.
#[derive(Debug, PartialEq)]
pub enum ProviderError {
    /// A response with another status than success; `detail` is the message of its body.
    Http { status: u16, detail: String },
    /// An error envelope inside the stream.
    Stream(String),
    /// A transport failure: connect, reset, body read.
    Transport(String),
    /// The stream ended without a terminal signal.
    Incomplete(String),
    /// No first event, or no further event, in time.
    Timeout(String),
    /// A configuration problem found before the request.
    Config(String),
    /// Cancelled by the caller.
    Aborted,
}

/// What a [`ProviderError`] stands for.
#[verifier::ext_equal]
pub enum ProviderErrorView {
    Http { status: u16, detail: Seq<char> },
    Stream(Seq<char>),
    Transport(Seq<char>),
    Incomplete(Seq<char>),
    Timeout(Seq<char>),
    Config(Seq<char>),
    Aborted,
}

impl View for ProviderError {
    type V = ProviderErrorView;

    open spec fn view(&self) -> ProviderErrorView {
        match self {
            ProviderError::Http { status, detail } => ProviderErrorView::Http { status: *status, detail: detail@ },
            ProviderError::Stream(a) => ProviderErrorView::Stream(a@),
            ProviderError::Transport(a) => ProviderErrorView::Transport(a@),
            ProviderError::Incomplete(a) => ProviderErrorView::Incomplete(a@),
            ProviderError::Timeout(a) => ProviderErrorView::Timeout(a@),
            ProviderError::Config(a) => ProviderErrorView::Config(a@),
            ProviderError::Aborted => ProviderErrorView::Aborted,
        }
    }
}

impl Clone for ProviderError {
    fn clone(&self) -> (r: ProviderError)
        ensures
            r@ == self@,
    {
        match self {
            ProviderError::Http { status, detail } => ProviderError::Http { status: *status, detail: detail.clone() },
            ProviderError::Stream(a) => ProviderError::Stream(a.clone()),
            ProviderError::Transport(a) => ProviderError::Transport(a.clone()),
            ProviderError::Incomplete(a) => ProviderError::Incomplete(a.clone()),
            ProviderError::Timeout(a) => ProviderError::Timeout(a.clone()),
            ProviderError::Config(a) => ProviderError::Config(a.clone()),
            ProviderError::Aborted => ProviderError::Aborted,
        }
    }
}

/// The text of an error.
pub open spec fn error_text(e: ProviderErrorView) -> Seq<char> {
    match e {
        ProviderErrorView::Http { status, detail } => text::decimal(status as nat) + " "@ + detail,
        ProviderErrorView::Stream(s) => s,
        ProviderErrorView::Transport(s) => s,
        ProviderErrorView::Incomplete(s) => s,
        ProviderErrorView::Timeout(s) => s,
        ProviderErrorView::Config(s) => s,
        ProviderErrorView::Aborted => "Request was aborted"@,
    }
}

/// Whether an HTTP status tells of a transient failure.
pub open spec fn transient_status(status: u16) -> bool {
    status == 408 || status == 409 || status == 425 || status == 429 || 500 <= status <= 599
}

/// The stop reason of the turn that an error ends.
pub open spec fn stop_of(e: ProviderErrorView) -> StopReason {
    if e is Aborted {
        StopReason::Aborted
    } else {
        StopReason::Error
    }
}

/// The HTTP status of an error, where there is one.
pub open spec fn status_of(e: ProviderErrorView) -> Option<u16> {
    match e {
        ProviderErrorView::Http { status, .. } => Some(status),
        _ => None,
    }
}

/// Whether a failure is transient.
pub open spec fn is_transient(e: ProviderErrorView) -> bool {
    match e {
        ProviderErrorView::Http { status, .. } => transient_status(status),
        ProviderErrorView::Transport(_) => true,
        ProviderErrorView::Timeout(_) => true,
        ProviderErrorView::Incomplete(_) => true,
        _ => false,
    }
}

impl ProviderError {
    /// The text of the error.
    pub fn message(&self) -> (r: String)
        ensures
            r@ == error_text(self@),
    {
        match self {
            ProviderError::Http { status, detail } => {
                let mut out = text::decimal_text(*status as u64);
                out.append(" ");
                out.append(detail.as_str());
                out
            },
            ProviderError::Stream(s) => s.clone(),
            ProviderError::Transport(s) => s.clone(),
            ProviderError::Incomplete(s) => s.clone(),
            ProviderError::Timeout(s) => s.clone(),
            ProviderError::Config(s) => s.clone(),
            ProviderError::Aborted => "Request was aborted".to_owned(),
        }
    }

    /// The stop reason of the turn that the error ends.
    pub fn stop_reason(&self) -> (r: StopReason)
        ensures
            r == stop_of(self@),
    {
        match self {
            ProviderError::Aborted => StopReason::Aborted,
            _ => StopReason::Error,
        }
    }

    /// The HTTP status, where there is one.
    pub fn status(&self) -> (r: Option<u16>)
        ensures
            r == status_of(self@),
    {
        match self {
            ProviderError::Http { status, .. } => Some(*status),
            _ => None,
        }
    }

    /// Whether the failure is transient, so that a caller may retry before output was committed.
    pub fn is_retryable(&self) -> (r: bool)
        ensures
            r == is_transient(self@),
    {
        match self {
            ProviderError::Http { status, .. } => {
                let s: u16 = *status;
                s == 408 || s == 409 || s == 425 || s == 429 || (500 <= s && s <= 599)
            },
            ProviderError::Transport(_) | ProviderError::Timeout(_) | ProviderError::Incomplete(
                _,
            ) => true,
            _ => false,
        }
    }
}

// ------------------------------------------------------------------ error bodies

/// The message of an error envelope: the text `error`, the text `message` of the object
/// `error` or that object itself, or the text `message`.
pub open spec fn envelope(value: JsonView) -> Option<Seq<char>> {
    match json::member(value, "error"@) {
        Some(JsonView::String(s)) => Some(s),
        Some(JsonView::Object(err)) => match json::lookup(err, "message"@) {
            Some(JsonView::String(m)) => Some(m),
            _ => Some(json::compact(JsonView::Object(err))),
        },
        _ => json::text_of(json::member(value, "message"@)),
    }
}

/// The message of an error envelope.
pub fn envelope_message(value: &Json) -> (r: Option<String>)
    ensures
        text::opt_view(r) == envelope(value@),
{
    match value.get("error") {
        Some(Json::String(s)) => {
            return Some(s.clone());
        },
        Some(Json::Object(err)) => {
            match err.get("message") {
                Some(Json::String(m)) => {
                    return Some(m.clone());
                },
                _ => {},
            }
            return Some(json::to_text(&Json::Object(err.clone())));
        },
        _ => {},
    }
    match as_text(value.get("message")) {
        Some(s) => Some(s.to_owned()),
        None => None,
    }
}

/// What is shown of an error body, given the outcome of parsing it.
pub open spec fn body_detail(
    trimmed: Seq<char>,
    outcome: Result<JsonView, Seq<char>>,
) -> Seq<char> {
    let message = match outcome {
        Ok(v) => envelope(v),
        Err(_) => None,
    };
    match message {
        Some(m) => m,
        None => if trimmed.len() == 0 {
            "(empty response body)"@
        } else {
            text::truncated(trimmed, 2000)
        },
    }
}

/// What is shown of an error body, given the outcome of parsing it.
pub fn detail_of(trimmed: &str, outcome: Result<Json, String>) -> (r: String)
    ensures
        match outcome {
            Ok(v) => r@ == body_detail(trimmed@, Ok(v@)),
            Err(e) => r@ == body_detail(trimmed@, Err(e@)),
        },
{
    match &outcome {
        Ok(value) => {
            match envelope_message(value) {
                Some(message) => {
                    return message;
                },
                None => {},
            }
        },
        Err(_) => {},
    }
    if trimmed.is_empty() {
        "(empty response body)".to_owned()
    } else {
        text::truncate(trimmed, 2000)
    }
}

/// A readable detail of an error body: the message of its envelope, or its text.
pub fn parse_error_envelope(body: &str) -> (r: String)
    ensures
        r@ == body_detail(
            text::trim(Space::Unicode, body@),
            json::parsed(text::trim(Space::Unicode, body@)),
        ),
{
    let trimmed = text::trim_text(Space::Unicode, body);
    detail_of(trimmed.as_str(), json::parse(trimmed.as_str()))
}

} // verus!
