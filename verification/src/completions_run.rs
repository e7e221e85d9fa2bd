//! The transport of an OpenAI Chat Completions call: what is sent, when it is repeated, and how
//! the bytes that come back drive the response. The host performs the I/O.
use crate::completions_chunk;
use crate::completions_chunk::{
    is_progress_chunk, ChunkFlow, ChunkState, ChunkStateView, RunView,
};
use crate::completions_request;
use crate::completions_request::{RetryPolicy, StreamOptions};
use crate::error;
use crate::error::{parse_error_envelope, ProviderError, ProviderErrorView};
use crate::event::{AssistantMessageEvent, AssistantMessageEventView};
use crate::json;
use crate::json::{Json, JsonView, Number, NumberView};
use crate::number;
use crate::sse;
use crate::sse::{SseDecoder, SseDecoderView, SseEvent, SseEventView};
use crate::text;
use crate::text::{same_text, to_chars, Space};
use crate::types::{AssistantMessage, AssistantMessageView};
use vstd::prelude::*;

verus! {

/// No event came in time.
pub const FIRST_EVENT_TIMEOUT_MESSAGE: &'static str = "OpenAI completions stream timed out while waiting for the first event";

/// No further event came in time.
pub const IDLE_TIMEOUT_MESSAGE: &'static str = "OpenAI completions stream stalled while waiting for the next event";

/// How long, in milliseconds, a finished response is waited for to be complete.
pub const POST_FINISH_GRACE: u64 = 2_500;

// ------------------------------------------------------------------ where a request goes

/// The text without the slashes at its end.
pub open spec fn without_slashes(s: Seq<char>) -> Seq<char>
    decreases s.len(),
{
    if s.len() > 0 && s.last() == '/' {
        without_slashes(s.drop_last())
    } else {
        s
    }
}

/// The address of a request; an error where no base address is set.
pub open spec fn request_address(base_url: Seq<char>) -> Result<Seq<char>, ProviderErrorView> {
    let base = without_slashes(base_url);
    if base.len() == 0 {
        Err(ProviderErrorView::Config("OpenAI request setup did not resolve a base URL"@))
    } else {
        Ok(base + "/chat/completions"@)
    }
}

/// The address of a request.
pub fn request_url(base_url: &str) -> (r: Result<String, ProviderError>)
    ensures
        match r {
            Ok(url) => request_address(base_url@) == Ok::<Seq<char>, ProviderErrorView>(url@),
            Err(e) => request_address(base_url@) == Err::<Seq<char>, ProviderErrorView>(e@),
        },
{
    let mut v = to_chars(base_url);
    while v.len() > 0 && v[v.len() - 1] == '/'
        invariant
            without_slashes(v@) == without_slashes(base_url@),
        decreases v@.len(),
    {
        v.pop();
    }
    if v.len() == 0 {
        return Err(
            ProviderError::Config("OpenAI request setup did not resolve a base URL".to_owned()),
        );
    }
    let mut url = text::from_chars(&v);
    url.append("/chat/completions");
    Ok(url)
}

/// The headers of a request: the key, where there is one, then what the host adds.
pub open spec fn headers_of(options: StreamOptions) -> Seq<(Seq<char>, Seq<char>)> {
    let key = match options.api_key {
        Some(k) => if k@.len() > 0 {
            seq![("Authorization"@, "Bearer "@ + k@)]
        } else {
            Seq::empty()
        },
        None => Seq::empty(),
    };
    key + completions_request::pairs(options.extra_headers@)
}

/// The headers of a request.
pub fn request_headers(options: &StreamOptions) -> (r: Vec<(String, String)>)
    ensures
        completions_request::pairs(r@) == headers_of(*options),
{
    let mut out: Vec<(String, String)> = Vec::new();
    match &options.api_key {
        Some(k) => {
            if !k.as_str().is_empty() {
                out.push(("Authorization".to_owned(), text::concat("Bearer ", k.as_str())));
            }
        },
        None => {},
    }
    let ghost lead = completions_request::pairs(out@);
    let mut i: usize = 0;
    assert(lead + completions_request::pairs(options.extra_headers@).take(0) =~= lead);
    while i < options.extra_headers.len()
        invariant
            i <= options.extra_headers@.len(),
            completions_request::pairs(out@) == lead + completions_request::pairs(options.extra_headers@).take(i as int),
        decreases options.extra_headers@.len() - i,
    {
        let one = (options.extra_headers[i].0.clone(), options.extra_headers[i].1.clone());
        let ghost before = out@;
        out.push(one);
        assert(completions_request::pairs(out@) =~= completions_request::pairs(before).push((one.0@, one.1@)));
        assert(completions_request::pairs(options.extra_headers@)[i as int] == (one.0@, one.1@));
        assert(completions_request::pairs(out@) =~= lead + completions_request::pairs(options.extra_headers@).take(i as int + 1));
        i += 1;
    }
    assert(completions_request::pairs(options.extra_headers@).take(options.extra_headers@.len() as int) =~= completions_request::pairs(
        options.extra_headers@,
    ));
    assert(completions_request::pairs(out@) =~= headers_of(*options));
    out
}

// ------------------------------------------------------------------ when a request is repeated

/// The seconds since the epoch that `httpdate::parse_http_date` reads in a text.
pub uninterp spec fn http_date(s: Seq<char>) -> Option<u64>;

/// `httpdate::parse_http_date`: the time of an HTTP date, in seconds since the epoch. The
/// outcome depends on the text alone; it is named [`http_date`].
#[verifier::external_body]
fn parse_date(s: &str) -> (r: Option<u64>)
    ensures
        r == http_date(s@),
{
    let time = httpdate::parse_http_date(s).ok()?;
    time.duration_since(std::time::UNIX_EPOCH).ok().map(|d| d.as_secs())
}

/// Whether the text of a float that is not finite stands for something above every number.
pub open spec fn is_unbounded(s: Seq<char>) -> bool {
    !(s.len() > 0 && s[0] == '-') && text::find_text(text::lower(s), "nan"@, 0) is None
}

/// The milliseconds of a text that is a float; `scale` is what one of its units holds.
pub open spec fn scaled_millis(s: Seq<char>, scale: Option<u64>) -> Option<u64> {
    match number::float_parsed(s) {
        None => None,
        Some(None) => Some(
            if is_unbounded(s) {
                u64::MAX
            } else {
                0
            },
        ),
        Some(Some(n)) => match scale {
            None => Some(number::float_whole(n)),
            Some(k) => match number::float_product(n, NumberView::PosInt(k)) {
                Some(p) => Some(number::float_whole(p)),
                None => Some(
                    if is_unbounded(s) {
                        u64::MAX
                    } else {
                        0
                    },
                ),
            },
        },
    }
}

/// How long a server asks to wait: milliseconds, seconds or a date, of which the first that is
/// there and readable counts.
pub open spec fn retry_hint(
    in_millis: Option<Seq<char>>,
    plain: Option<Seq<char>>,
    now: u64,
) -> Option<u64> {
    let by_millis = match in_millis {
        Some(s) => scaled_millis(text::trim(Space::Unicode, s), None),
        None => None,
    };
    match by_millis {
        Some(ms) => Some(ms),
        None => match plain {
            None => None,
            Some(s) => {
                let t = text::trim(Space::Unicode, s);
                match scaled_millis(t, Some(1000)) {
                    Some(ms) => Some(ms),
                    None => match http_date(t) {
                        Some(secs) => Some(
                            completions_chunk::minus(
                                if secs as int * 1000 > u64::MAX {
                                    u64::MAX as int
                                } else {
                                    secs as int * 1000
                                },
                                now as int,
                            ) as u64,
                        ),
                        None => None,
                    },
                }
            },
        },
    }
}

fn above_all(s: &str) -> (r: bool)
    ensures
        r == is_unbounded(s@),
{
    let v = to_chars(s);
    let lowered = to_chars(text::lower_text(s).as_str());
    !(v.len() > 0 && v[0] == '-') && text::find_text_at(&lowered, "nan", 0).is_none()
}

fn float_millis(s: &str, scale: Option<u64>) -> (r: Option<u64>)
    ensures
        r == scaled_millis(s@, scale),
{
    match number::parse_float(s) {
        None => None,
        Some(None) => Some(if above_all(s) { u64::MAX } else { 0 }),
        Some(Some(n)) => match scale {
            None => Some(number::whole(&n)),
            Some(k) => match number::product(&n, &Number::PosInt(k)) {
                Some(p) => Some(number::whole(&p)),
                None => Some(if above_all(s) { u64::MAX } else { 0 }),
            },
        },
    }
}

/// How long a server asks to wait, by its headers `retry-after-ms` and `retry-after`.
pub fn retry_after(in_millis: Option<&str>, plain: Option<&str>, now: u64) -> (r: Option<u64>)
    ensures
        r == retry_hint(text::opt_view(in_millis), text::opt_view(plain), now),
{
    match in_millis {
        Some(s) => {
            let t = text::trim_text(Space::Unicode, s);
            match float_millis(t.as_str(), None) {
                Some(ms) => {
                    return Some(ms);
                },
                None => {},
            }
        },
        None => {},
    }
    match plain {
        None => None,
        Some(s) => {
            let t = text::trim_text(Space::Unicode, s);
            match float_millis(t.as_str(), Some(1000)) {
                Some(ms) => {
                    return Some(ms);
                },
                None => {},
            }
            match parse_date(t.as_str()) {
                Some(secs) => {
                    let wide: u128 = secs as u128 * 1000;
                    let at: u64 = if wide > u64::MAX as u128 { u64::MAX } else { wide as u64 };
                    Some(if at >= now { at - now } else { 0 })
                },
                None => None,
            }
        },
    }
}

/// What became of an attempt to send a request.
pub enum Attempt {
    /// A response with a status of success.
    Success,
    /// A response with another status; `hint` is how long the server asks to wait.
    Status { status: u16, hint: Option<u64>, body: String },
    /// The request cannot be built.
    Invalid(String),
    /// The request could not be sent.
    Unsent(String),
}

/// What to do after an attempt.
pub enum RetryStep {
    /// Read the response.
    Read,
    /// Wait that many milliseconds and try again.
    Wait(u64),
    /// Give up.
    Fail(ProviderError),
}

/// What a [`RetryStep`] stands for.
pub enum RetryStepView {
    Read,
    Wait(u64),
    Fail(ProviderErrorView),
}

impl View for RetryStep {
    type V = RetryStepView;

    open spec fn view(&self) -> RetryStepView {
        match self {
            RetryStep::Read => RetryStepView::Read,
            RetryStep::Wait(ms) => RetryStepView::Wait(*ms),
            RetryStep::Fail(e) => RetryStepView::Fail(e@),
        }
    }
}

/// Two to the power of `n`, at most the largest number of 32 bits.
pub open spec fn doubling(n: nat) -> int
    decreases n,
{
    if n == 0 {
        1
    } else if doubling((n - 1) as nat) * 2 > u32::MAX {
        u32::MAX as int
    } else {
        doubling((n - 1) as nat) * 2
    }
}

/// The delay after an attempt: it doubles with each one, up to the longest.
pub open spec fn backoff(policy: RetryPolicy, attempt: u32) -> u64 {
    let ms = policy.base_delay * doubling(attempt as nat);
    if ms > policy.max_delay {
        policy.max_delay
    } else {
        ms as u64
    }
}

/// Whether a request with that status may be sent again.
pub open spec fn may_repeat(status: u16) -> bool {
    status == 408 || status == 429 || 500 <= status <= 599
}

/// Whether a body tells that the server takes no more requests at the same time.
pub open spec fn rejects_admission(body: Seq<char>) -> bool {
    text::find_text(body, "\"rate_limit_type\""@, 0) is Some && text::find_text(
        body,
        "max_parallel_requests"@,
        0,
    ) is Some
}

/// What to do after an attempt: it is repeated only while attempts are left, for a transient
/// failure, and within the longest delay.
pub open spec fn next_step(policy: RetryPolicy, attempt: u32, outcome: Attempt) -> RetryStepView {
    let last = attempt + 1 >= policy.max_attempts;
    match outcome {
        Attempt::Success => RetryStepView::Read,
        Attempt::Status { status, hint, body } => {
            let too_long = match hint {
                Some(h) => h > policy.max_delay,
                None => false,
            };
            if !may_repeat(status) || last || rejects_admission(body@) || too_long {
                RetryStepView::Fail(
                    ProviderErrorView::Http {
                        status,
                        detail: error::body_detail(
                            text::trim(Space::Unicode, body@),
                            json::parsed(text::trim(Space::Unicode, body@)),
                        ),
                    },
                )
            } else {
                RetryStepView::Wait(
                    match hint {
                        Some(h) => h,
                        None => backoff(policy, attempt),
                    },
                )
            }
        },
        Attempt::Invalid(e) => RetryStepView::Fail(
            ProviderErrorView::Config("invalid request: "@ + e@),
        ),
        Attempt::Unsent(e) => if last {
            RetryStepView::Fail(ProviderErrorView::Transport("request failed: "@ + e@))
        } else {
            RetryStepView::Wait(backoff(policy, attempt))
        },
    }
}

fn doubled(n: u32) -> (r: u32)
    ensures
        r == doubling(n as nat),
        r >= 1,
    decreases n,
{
    if n == 0 {
        1
    } else {
        let half: u32 = doubled(n - 1);
        if half > u32::MAX / 2 {
            u32::MAX
        } else {
            half * 2
        }
    }
}

fn default_delay(policy: &RetryPolicy, attempt: u32) -> (r: u64)
    ensures
        r == backoff(*policy, attempt),
{
    let factor: u32 = doubled(attempt);
    assert(policy.base_delay * factor <= 0xffff_ffff_ffff_ffff * 0xffff_ffff) by (nonlinear_arith)
        requires
            policy.base_delay <= 0xffff_ffff_ffff_ffff,
            factor <= 0xffff_ffff,
    ;
    let ms: u128 = policy.base_delay as u128 * factor as u128;
    if ms > policy.max_delay as u128 {
        policy.max_delay
    } else {
        ms as u64
    }
}

/// What to do after an attempt.
pub fn retry_step(policy: &RetryPolicy, attempt: u32, outcome: &Attempt) -> (r: RetryStep)
    ensures
        r@ == next_step(*policy, attempt, *outcome),
{
    let last = attempt as u64 + 1 >= policy.max_attempts as u64;
    match outcome {
        Attempt::Success => RetryStep::Read,
        Attempt::Status { status, hint, body } => {
            let s: u16 = *status;
            let repeat = s == 408 || s == 429 || (500 <= s && s <= 599);
            let v = to_chars(body.as_str());
            let rejected = text::find_text_at(&v, "\"rate_limit_type\"", 0).is_some()
                && text::find_text_at(&v, "max_parallel_requests", 0).is_some();
            let too_long = match hint {
                Some(h) => *h > policy.max_delay,
                None => false,
            };
            if !repeat || last || rejected || too_long {
                RetryStep::Fail(
                    ProviderError::Http {
                        status: s,
                        detail: parse_error_envelope(body.as_str()),
                    },
                )
            } else {
                RetryStep::Wait(
                    match hint {
                        Some(h) => *h,
                        None => default_delay(policy, attempt),
                    },
                )
            }
        },
        Attempt::Invalid(e) => RetryStep::Fail(
            ProviderError::Config(text::concat("invalid request: ", e.as_str())),
        ),
        Attempt::Unsent(e) => if last {
            RetryStep::Fail(ProviderError::Transport(text::concat("request failed: ", e.as_str())))
        } else {
            RetryStep::Wait(default_delay(policy, attempt))
        },
    }
}

/// A request is repeated only while attempts are left, and a wait never exceeds the longest
/// delay.
pub proof fn law_retries_are_bounded(policy: RetryPolicy, attempt: u32, outcome: Attempt)
    ensures
        match next_step(policy, attempt, outcome) {
            RetryStepView::Wait(ms) => attempt + 1 < policy.max_attempts && ms <= policy.max_delay,
            _ => true,
        },
{
    lemma_doubling(attempt as nat);
    assert(policy.base_delay * doubling(attempt as nat) >= 0) by (nonlinear_arith)
        requires
            policy.base_delay >= 0,
            doubling(attempt as nat) >= 1,
    ;
}

proof fn lemma_doubling(n: nat)
    ensures
        doubling(n) >= 1,
    decreases n,
{
    if n > 0 {
        lemma_doubling((n - 1) as nat);
    }
}

// ------------------------------------------------------------------ reading a response

/// What to do after something was read.
pub enum ReadStep {
    /// Read on.
    More,
    /// The response is over.
    Stop,
    /// Give up.
    Fail(ProviderError),
}

/// What a [`ReadStep`] stands for.
pub enum ReadStepView {
    More,
    Stop,
    Fail(ProviderErrorView),
}

impl View for ReadStep {
    type V = ReadStepView;

    open spec fn view(&self) -> ReadStepView {
        match self {
            ReadStep::More => ReadStepView::More,
            ReadStep::Stop => ReadStepView::Stop,
            ReadStep::Fail(e) => ReadStepView::Fail(e@),
        }
    }
}

/// What was read did: the events to emit, whether the response came forward, and what to do.
pub struct Feed {
    pub events: Vec<AssistantMessageEvent>,
    pub moved: bool,
    pub step: ReadStep,
}

/// Which clock runs while the host waits for bytes.
#[derive(Clone, Copy, Debug, PartialEq, Eq, Structural)]
pub enum Watch {
    /// The response is finished and is waited for to be complete.
    Grace,
    /// Nothing has come forward yet.
    FirstEvent,
    /// Something has come forward.
    Idle,
}

/// A response that is being read.
pub struct StreamRun {
    pub decoder: SseDecoder,
    pub state: ChunkState,
    /// Some chunk brought the response forward.
    pub progressed: bool,
    /// The response was seen to be finished.
    pub finished_seen: bool,
}

/// What a [`StreamRun`] holds.
pub struct StreamRunView {
    pub decoder: SseDecoderView,
    pub state: ChunkStateView,
    /// Some chunk brought the response forward.
    pub progressed: bool,
    /// The response was seen to be finished.
    pub finished_seen: bool,
}

impl View for StreamRun {
    type V = StreamRunView;

    open spec fn view(&self) -> StreamRunView {
        StreamRunView {
            decoder: self.decoder@,
            state: self.state@,
            progressed: self.progressed,
            finished_seen: self.finished_seen,
        }
    }
}

/// Where the reading of frames stands.
pub struct FeedView {
    pub run: RunView,
    pub progressed: bool,
    pub finished_seen: bool,
    pub moved: bool,
    pub step: ReadStepView,
}

/// The error of a frame that is no JSON.
pub open spec fn malformed_frame(data: Seq<char>, e: Seq<char>) -> ProviderErrorView {
    let preview = if data.len() <= 200 {
        data
    } else {
        data.take(200)
    };
    ProviderErrorView::Stream(
        "Malformed OpenAI completions stream frame ("@ + e + "): "@ + preview,
    )
}

/// What a decoded chunk does.
pub open spec fn after_chunk(f: FeedView, chunk: JsonView) -> FeedView {
    let forward = completions_chunk::progress(chunk);
    let (run, flow) = completions_chunk::handled(f.run, chunk);
    FeedView {
        run,
        progressed: f.progressed || forward,
        moved: f.moved || forward,
        finished_seen: f.finished_seen || (flow == Ok::<ChunkFlow, ProviderErrorView>(
            ChunkFlow::Continue,
        ) && run.st.finished),
        step: match flow {
            Ok(ChunkFlow::Continue) => ReadStepView::More,
            Ok(ChunkFlow::Break) => ReadStepView::Stop,
            Err(e) => ReadStepView::Fail(e),
        },
    }
}

/// What a frame does.
pub open spec fn after_frame(f: FeedView, data: Seq<char>) -> FeedView {
    if data == "[DONE]"@ {
        FeedView {
            run: RunView { st: ChunkStateView { saw_done: true, ..f.run.st }, ..f.run },
            step: ReadStepView::Stop,
            ..f
        }
    } else {
        match json::parsed(data) {
            Err(e) => FeedView { step: ReadStepView::Fail(malformed_frame(data, e)), ..f },
            Ok(chunk) => after_chunk(f, chunk),
        }
    }
}

/// What the frames from `from` on do, up to the one that ends the reading.
pub open spec fn after_frames(f: FeedView, frames: Seq<SseEventView>, from: int) -> FeedView
    decreases frames.len() - from,
{
    if from < 0 || from >= frames.len() || !(f.step is More) {
        f
    } else {
        after_frames(after_frame(f, frames[from].data), frames, from + 1)
    }
}

/// The frames are about to be read.
pub open spec fn before_frames(s: StreamRunView) -> FeedView {
    FeedView {
        run: RunView { st: s.state, events: Seq::empty() },
        progressed: s.progressed,
        finished_seen: s.finished_seen,
        moved: false,
        step: ReadStepView::More,
    }
}

/// There are no further frames: a reading that would go on stops.
pub open spec fn at_the_end(f: FeedView) -> FeedView {
    FeedView {
        step: if f.step is More {
            ReadStepView::Stop
        } else {
            f.step
        },
        ..f
    }
}

/// What is handed back once frames were read.
pub open spec fn is_feed(f: FeedView, feed: Feed, s: StreamRunView) -> bool {
    &&& text::views(feed.events@) == f.run.events
    &&& feed.moved == f.moved
    &&& feed.step@ == f.step
    &&& s.state == f.run.st
    &&& s.progressed == f.progressed
    &&& s.finished_seen == f.finished_seen
}

/// Which clock runs while the host waits for bytes.
pub open spec fn clock_of(s: StreamRunView) -> Watch {
    if s.finished_seen {
        Watch::Grace
    } else if !s.progressed {
        Watch::FirstEvent
    } else {
        Watch::Idle
    }
}

/// What follows where bytes could not be read: a finished response is taken as it is.
pub open spec fn after_read_error(s: StreamRunView, e: Seq<char>) -> ReadStepView {
    if s.state.finished {
        ReadStepView::Stop
    } else {
        ReadStepView::Fail(ProviderErrorView::Transport("stream read failed: "@ + e))
    }
}

/// What follows once the clock has run out.
pub open spec fn after_deadline(s: StreamRunView) -> ReadStepView {
    if s.finished_seen {
        ReadStepView::Stop
    } else {
        ReadStepView::Fail(
            ProviderErrorView::Timeout(
                if s.progressed {
                    IDLE_TIMEOUT_MESSAGE@
                } else {
                    FIRST_EVENT_TIMEOUT_MESSAGE@
                },
            ),
        )
    }
}

impl StreamRun {
    /// A response of which nothing has been read.
    pub fn new(state: ChunkState) -> (r: StreamRun)
        ensures
            r@.state == state@,
            r@.decoder == (SseDecoderView {
                buf: Seq::empty(),
                event: None,
                data: Seq::empty(),
            }),
            !r@.progressed,
            !r@.finished_seen,
    {
        StreamRun { decoder: SseDecoder::new(), state, progressed: false, finished_seen: false }
    }

    /// Which clock runs while the host waits for bytes.
    pub fn watch(&self) -> (r: Watch)
        ensures
            r == clock_of(self@),
    {
        if self.finished_seen {
            Watch::Grace
        } else if !self.progressed {
            Watch::FirstEvent
        } else {
            Watch::Idle
        }
    }

    fn take_chunk(&mut self, chunk: &Json, feed: &mut Feed)
        requires
            old(feed).step is More,
        ensures
            forall|f: FeedView| #[trigger]
                is_feed(f, *old(feed), old(self)@) ==> is_feed(
                    after_chunk(f, chunk@),
                    *final(feed),
                    final(self)@,
                ),
            final(self)@.decoder == old(self)@.decoder,
    {
        if is_progress_chunk(chunk) {
            self.progressed = true;
            feed.moved = true;
        }
        match self.state.handle_chunk(chunk, &mut feed.events) {
            Ok(ChunkFlow::Continue) => {
                if self.state.is_finished() {
                    self.finished_seen = true;
                }
            },
            Ok(ChunkFlow::Break) => {
                feed.step = ReadStep::Stop;
            },
            Err(e) => {
                feed.step = ReadStep::Fail(e);
            },
        }
    }

    fn take_frame(&mut self, data: &str, feed: &mut Feed)
        requires
            old(feed).step is More,
        ensures
            forall|f: FeedView| #[trigger]
                is_feed(f, *old(feed), old(self)@) ==> is_feed(
                    after_frame(f, data@),
                    *final(feed),
                    final(self)@,
                ),
            final(self)@.decoder == old(self)@.decoder,
    {
        if same_text(data, "[DONE]") {
            self.state.mark_done();
            feed.step = ReadStep::Stop;
            return;
        }
        match json::parse(data) {
            Err(e) => {
                let v = to_chars(data);
                let preview = if v.len() <= 200 {
                    data.to_owned()
                } else {
                    text::slice_string(&v, 0, 200)
                };
                let mut message = "Malformed OpenAI completions stream frame (".to_owned();
                message.append(e.as_str());
                message.append("): ");
                message.append(preview.as_str());
                assert(preview@ =~= if data@.len() <= 200 { data@ } else { data@.take(200) });
                feed.step = ReadStep::Fail(ProviderError::Stream(message));
            },
            Ok(chunk) => self.take_chunk(&chunk, feed),
        }
    }

    fn take_frames(&mut self, frames: &Vec<SseEvent>) -> (feed: Feed)
        ensures
            is_feed(
                after_frames(before_frames(old(self)@), text::views(frames@), 0),
                feed,
                final(self)@,
            ),
            final(self)@.decoder == old(self)@.decoder,
    {
        let ghost start = self@;
        let ghost all = text::views(frames@);
        let ghost target = after_frames(before_frames(start), all, 0);
        let mut feed = Feed { events: Vec::new(), moved: false, step: ReadStep::More };
        let ghost mut f = before_frames(start);
        assert(text::views(feed.events@) =~= Seq::empty());
        let mut i: usize = 0;
        while i < frames.len() && matches!(&feed.step, ReadStep::More)
            invariant
                i <= frames@.len(),
                all == text::views(frames@),
                is_feed(f, feed, self@),
                target == after_frames(f, all, i as int),
                self@.decoder == start.decoder,
            decreases frames@.len() - i,
        {
            assert(all[i as int] == frames@[i as int]@);
            self.take_frame(frames[i].data.as_str(), &mut feed);
            proof {
                f = after_frame(f, all[i as int].data);
            }
            i += 1;
        }
        feed
    }

    /// Bytes have come in.
    pub fn on_bytes(&mut self, bytes: &[u8]) -> (feed: Feed)
        ensures
            final(self)@.decoder == sse::fed(old(self)@.decoder, bytes@).0,
            is_feed(
                after_frames(
                    before_frames(old(self)@),
                    sse::fed(old(self)@.decoder, bytes@).1,
                    0,
                ),
                feed,
                final(self)@,
            ),
    {
        let frames = self.decoder.feed(bytes);
        self.take_frames(&frames)
    }

    /// The bytes are at their end: what is buffered is read, and the response is over.
    pub fn on_end(&mut self) -> (feed: Feed)
        ensures
            ({
                let f = after_frames(
                    before_frames(old(self)@),
                    sse::first(sse::finished(old(self)@.decoder).1),
                    0,
                );
                is_feed(at_the_end(f), feed, final(self)@)
            }),
    {
        let mut frames: Vec<SseEvent> = Vec::new();
        match self.decoder.finish() {
            Some(e) => {
                frames.push(e);
                assert(text::views(frames@) =~= seq![e@]);
            },
            None => {
                assert(text::views(frames@) =~= Seq::empty());
            },
        }
        let mut feed = self.take_frames(&frames);
        if matches!(&feed.step, ReadStep::More) {
            feed.step = ReadStep::Stop;
        }
        feed
    }

    /// The bytes could not be read: a finished response is taken as it is.
    pub fn on_read_error(&self, e: &str) -> (r: ReadStep)
        ensures
            r@ == after_read_error(self@, e@),
    {
        if self.state.is_finished() {
            ReadStep::Stop
        } else {
            ReadStep::Fail(ProviderError::Transport(text::concat("stream read failed: ", e)))
        }
    }

    /// The clock that [`StreamRun::watch`] names has run out.
    pub fn on_deadline(&self) -> (r: ReadStep)
        ensures
            r@ == after_deadline(self@),
    {
        if self.finished_seen {
            ReadStep::Stop
        } else if self.progressed {
            ReadStep::Fail(ProviderError::Timeout(IDLE_TIMEOUT_MESSAGE.to_owned()))
        } else {
            ReadStep::Fail(ProviderError::Timeout(FIRST_EVENT_TIMEOUT_MESSAGE.to_owned()))
        }
    }
}

// ------------------------------------------------------------------ the terminal event

/// The message with the times that it took.
pub open spec fn timed(m: AssistantMessageView, duration: u64, ttft: Option<u64>) -> AssistantMessageView {
    AssistantMessageView { duration: Some(duration), ttft, ..m }
}

/// The event that ends a response.
pub open spec fn done(m: AssistantMessageView, duration: u64, ttft: Option<u64>) -> AssistantMessageEventView {
    AssistantMessageEventView::Done {
        reason: m.stop_reason,
        message: timed(m, duration, ttft),
    }
}

/// The stop reason of the turn that an error ends.
pub open spec fn error_stop(e: ProviderErrorView) -> crate::types::StopReason {
    if e is Aborted {
        crate::types::StopReason::Aborted
    } else {
        crate::types::StopReason::Error
    }
}

/// The event that ends a response that failed: the message carries what went wrong.
pub open spec fn failed(
    m: AssistantMessageView,
    e: ProviderErrorView,
    duration: u64,
    ttft: Option<u64>,
) -> AssistantMessageEventView {
    AssistantMessageEventView::Error {
        reason: error_stop(e),
        error: AssistantMessageView {
            stop_reason: error_stop(e),
            error_status: match e {
                ProviderErrorView::Http { status, .. } => Some(status),
                _ => None,
            },
            error_message: Some(error::error_text(e)),
            ..timed(m, duration, ttft)
        },
    }
}

/// The event that ends a response.
pub fn done_event(m: &AssistantMessage, duration: u64, ttft: Option<u64>) -> (r:
    AssistantMessageEvent)
    ensures
        r@ == done(m@, duration, ttft),
{
    let mut message = m.clone();
    message.duration = Some(duration);
    message.ttft = ttft;
    AssistantMessageEvent::Done { reason: m.stop_reason, message }
}

/// The events that end a response that failed: what is open is closed, then the terminal event
/// carries what went wrong.
pub fn failure_events(
    state: &mut ChunkState,
    e: &ProviderError,
    duration: u64,
    ttft: Option<u64>,
) -> (r: Vec<AssistantMessageEvent>)
    ensures
        ({
            let run = completions_chunk::all_finished(
                RunView { st: old(state)@, events: Seq::empty() },
            );
            &&& final(state)@ == run.st
            &&& text::views(r@) == events_of_failure(old(state)@, e@, duration, ttft)
        }),
{
    let mut events: Vec<AssistantMessageEvent> = Vec::new();
    assert(text::views(events@) =~= Seq::empty());
    state.close_open_blocks(&mut events);
    let mut error = state.message().clone();
    error.duration = Some(duration);
    error.ttft = ttft;
    error.stop_reason = e.stop_reason();
    error.error_status = e.status();
    error.error_message = Some(e.message());
    let last = AssistantMessageEvent::Error { reason: error.stop_reason, error };
    proof {
        text::lemma_views_push(events@, last);
    }
    events.push(last);
    events
}

/// To read frames adds events, and none of them ends the stream.
pub proof fn law_reading_ends_no_stream(f: FeedView, frames: Seq<SseEventView>, from: int)
    ensures
        completions_chunk::goes_on(f.run.events, after_frames(f, frames, from).run.events),
    decreases frames.len() - from,
{
    if 0 <= from < frames.len() && f.step is More {
        let g = after_frame(f, frames[from].data);
        match json::parsed(frames[from].data) {
            Ok(chunk) => {
                completions_chunk::law_a_chunk_ends_no_stream(f.run, chunk);
            },
            Err(_) => {},
        }
        law_reading_ends_no_stream(g, frames, from + 1);
    }
}

/// Where a response stands, and the events that were sent, once the first `n` batches of frames
/// were read, one after the other.
pub open spec fn read_in_turn(
    s: StreamRunView,
    batches: Seq<Seq<SseEventView>>,
    n: int,
) -> (StreamRunView, completions_chunk::Events)
    decreases n,
{
    if n <= 0 {
        (s, Seq::empty())
    } else {
        let (before, sent) = read_in_turn(s, batches, n - 1);
        let f = after_frames(before_frames(before), batches[n - 1], 0);
        (
            StreamRunView {
                state: f.run.st,
                progressed: f.progressed,
                finished_seen: f.finished_seen,
                ..before
            },
            sent + f.run.events,
        )
    }
}

/// The events of a failure: those that close what is open, and the one that carries what went
/// wrong.
pub open spec fn events_of_failure(
    st: ChunkStateView,
    e: ProviderErrorView,
    duration: u64,
    ttft: Option<u64>,
) -> completions_chunk::Events {
    let run = completions_chunk::all_finished(RunView { st, events: Seq::empty() });
    run.events.push(failed(run.st.output, e, duration, ttft))
}

/// The events at the end of a response: of the error that cut it off, where there is one, else of
/// its own end, good or bad.
pub open spec fn events_at_end(
    st: ChunkStateView,
    cut: Option<ProviderErrorView>,
    duration: u64,
    ttft: Option<u64>,
) -> completions_chunk::Events {
    match cut {
        Some(e) => events_of_failure(st, e, duration, ttft),
        None => {
            let (run, end) = completions_chunk::concluded(RunView { st, events: Seq::empty() });
            match end {
                Ok(_) => run.events.push(done(run.st.output, duration, ttft)),
                Err(e) => run.events + events_of_failure(run.st, e, duration, ttft),
            }
        },
    }
}

proof fn lemma_batches_end_no_stream(s: StreamRunView, batches: Seq<Seq<SseEventView>>, n: int)
    ensures
        completions_chunk::goes_on(Seq::empty(), read_in_turn(s, batches, n).1),
    decreases n,
{
    if n > 0 {
        lemma_batches_end_no_stream(s, batches, n - 1);
        let (before, sent) = read_in_turn(s, batches, n - 1);
        let f = after_frames(before_frames(before), batches[n - 1], 0);
        law_reading_ends_no_stream(before_frames(before), batches[n - 1], 0);
        let all = sent + f.run.events;
        assert forall|i: int| 0 <= i < all.len() implies !crate::event::ends_stream(
            #[trigger] all[i],
        ) by {
            if i < sent.len() {
                assert(all[i] == sent[i]);
            } else {
                assert(all[i] == f.run.events[i - sent.len()]);
            }
        }
    }
}

/// A response has exactly one terminal event, and it is the last one: whatever frames come, in
/// whatever batches, and wherever an error cuts them off.
pub proof fn law_one_terminal_event(
    s: StreamRunView,
    first: AssistantMessageView,
    batches: Seq<Seq<SseEventView>>,
    cut: Option<ProviderErrorView>,
    duration: u64,
    ttft: Option<u64>,
)
    ensures
        ({
            let (end, sent) = read_in_turn(s, batches, batches.len() as int);
            let events = seq![AssistantMessageEventView::Start { partial: first }] + sent
                + events_at_end(end.state, cut, duration, ttft);
            &&& crate::event::ends_stream(events.last())
            &&& forall|i: int|
                0 <= i < events.len() - 1 ==> !crate::event::ends_stream(#[trigger] events[i])
        }),
{
    let (end, sent) = read_in_turn(s, batches, batches.len() as int);
    let start = seq![AssistantMessageEventView::Start { partial: first }];
    let last = events_at_end(end.state, cut, duration, ttft);
    let events = start + sent + last;
    let open = RunView { st: end.state, events: Seq::empty() };
    let run = completions_chunk::concluded(open).0;
    let closed = RunView { st: run.st, events: Seq::empty() };
    lemma_batches_end_no_stream(s, batches, batches.len() as int);
    completions_chunk::law_concluding_ends_no_stream(open);
    completions_chunk::law_closing_blocks_ends_no_stream(open);
    completions_chunk::law_closing_blocks_ends_no_stream(closed);
    assert(last.len() > 0 && crate::event::ends_stream(last.last()));
    assert forall|i: int| 0 <= i < last.len() - 1 implies !crate::event::ends_stream(
        #[trigger] last[i],
    ) by {
        if cut is None && i >= run.events.len() {
            assert(last[i] == events_of_failure(
                run.st,
                completions_chunk::concluded(open).1.unwrap_err(),
                duration,
                ttft,
            )[i - run.events.len()]);
        }
    }
    assert forall|i: int| 0 <= i < events.len() - 1 implies !crate::event::ends_stream(
        #[trigger] events[i],
    ) by {
        if i == 0 {
            assert(events[i] == start[0]);
        } else if i <= sent.len() {
            assert(events[i] == sent[i - 1]);
        } else {
            assert(events[i] == last[i - 1 - sent.len()]);
        }
    }
}

/// The event that ends a failed response carries the text of what went wrong.
pub proof fn law_a_failure_carries_its_error(
    m: AssistantMessageView,
    e: ProviderErrorView,
    duration: u64,
    ttft: Option<u64>,
)
    ensures
        crate::event::snapshot_of(failed(m, e, duration, ttft)).error_message == Some(
            error::error_text(e),
        ),
        crate::event::snapshot_of(failed(m, e, duration, ttft)).stop_reason == error_stop(e),
{
}

} // verus!
