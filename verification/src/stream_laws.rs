//! How a response is asked for and read: where it is asked for, when it is asked for again, what
//! its bytes say, and how it ends.
use crate::completions_chunk;
use crate::completions_chunk::ChunkFlow;
use crate::completions_request::{RetryPolicy, StreamOptions};
use crate::completions_run;
use crate::completions_run::{
    Attempt, FeedView, ReadStepView, RetryStepView, StreamRunView, Watch,
};
use crate::error;
use crate::error::ProviderErrorView;
use crate::event::AssistantMessageEventView;
use crate::json;
use crate::sse;
use crate::sse::{SseDecoderView, SseEventView};
use crate::text;
use crate::types::AssistantMessageView;
use vstd::arithmetic::power2::pow2;
use vstd::prelude::*;

verus! {

// ------------------------------------------------------------------ frames

proof fn lemma_colon(name: Seq<char>, rest: Seq<char>, from: int)
    requires
        0 <= from <= name.len(),
        !name.contains(':'),
    ensures
        text::find_char(name + seq![':'] + rest, ':', from) == Some(name.len() as int),
    decreases name.len() - from,
{
    let s = name + seq![':'] + rest;
    if from < name.len() {
        assert(s[from] == name[from]);
        lemma_colon(name, rest, from + 1);
    } else {
        assert(s[from] == ':');
    }
}

/// A line gives a field its value. One space behind the colon does not belong to the value, data
/// lines add up, the last name of an event counts, a field of another name does nothing, and no
/// such line ends an event.
pub proof fn law_a_line_gives_a_field(
    d: SseDecoderView,
    name: Seq<char>,
    value: Seq<char>,
    spaced: bool,
)
    requires
        name.len() > 0,
        !name.contains(':'),
        !spaced ==> value.len() == 0 || value[0] != ' ',
    ensures
        ({
            let line = name + seq![':'] + (if spaced {
                seq![' '] + value
            } else {
                value
            });
            let (next, event) = sse::lined(d, line);
            &&& event is None
            &&& next.buf == d.buf
            &&& name == "data"@ ==> next.data == d.data.push(value) && next.event == d.event
            &&& name == "event"@ ==> next.data == d.data && next.event == Some(value)
            &&& name != "data"@ && name != "event"@ ==> next == d
        }),
{
    let rest = if spaced {
        seq![' '] + value
    } else {
        value
    };
    let line = name + seq![':'] + rest;
    reveal_strlit("data");
    reveal_strlit("event");
    assert("data"@.len() == 4 && "event"@.len() == 5);
    lemma_colon(name, rest, 0);
    assert(line.take(name.len() as int) =~= name);
    assert(line[0] == name[0]);
    assert(name[0] != ':');
    if spaced {
        assert(line[name.len() as int + 1] == ' ');
        assert(line.skip(name.len() as int + 2) =~= value);
    } else {
        assert(line.skip(name.len() as int + 1) =~= value);
        if value.len() > 0 {
            assert(line[name.len() as int + 1] == value[0]);
        }
    }
}

/// A comment does nothing, and an empty line ends the event: it comes out where it has data, with
/// its lines in order, and the next one starts anew.
pub proof fn law_an_empty_line_ends_an_event(d: SseDecoderView, comment: Seq<char>)
    ensures
        sse::lined(d, seq![':'] + comment) == (d, None::<SseEventView>),
        ({
            let (next, event) = sse::lined(d, Seq::empty());
            &&& next.buf == d.buf && next.event is None && next.data.len() == 0
            &&& event is Some <==> d.data.len() > 0
            &&& event matches Some(e) ==> e.event == d.event && e.data == text::join(
                d.data,
                "\n"@,
            )
        }),
        d.data.len() == 1 ==> text::join(d.data, "\n"@) == d.data[0],
        forall|more: Seq<char>|
            d.data.len() > 0 ==> #[trigger] text::join(d.data.push(more), "\n"@) == text::join(
                d.data,
                "\n"@,
            ) + "\n"@ + more,
{
    assert forall|more: Seq<char>| d.data.len() > 0 implies #[trigger] text::join(
        d.data.push(more),
        "\n"@,
    ) == text::join(d.data, "\n"@) + "\n"@ + more by {
        assert(d.data.push(more).drop_last() =~= d.data);
    }
    assert((seq![':'] + comment)[0] == ':');
}

proof fn lemma_no_end(line: Seq<u8>, rest: Seq<u8>, from: int)
    requires
        0 <= from <= line.len(),
        forall|i: int| 0 <= i < line.len() ==> (#[trigger] line[i]) != 10 && line[i] != 13,
    ensures
        rest.len() == 0 || rest[0] == 10 || rest[0] == 13 ==> sse::line_end(line + rest, from)
            == line.len(),
    decreases line.len() - from,
{
    let s = line + rest;
    if from < line.len() {
        assert(s[from] == line[from]);
        lemma_no_end(line, rest, from + 1);
    } else if rest.len() > 0 {
        assert(s[from] == rest[0]);
    }
}

/// A line ends with a line feed, with a carriage return and a line feed, or with a carriage return
/// alone; all of them mean the same. The line then does what its text does, and the bytes behind
/// it are read on. Without an end the line waits.
pub proof fn law_how_lines_end(d: SseDecoderView, line: Seq<u8>, rest: Seq<u8>)
    requires
        d.buf.len() == 0,
        forall|i: int| 0 <= i < line.len() ==> (#[trigger] line[i]) != 10 && line[i] != 13,
    ensures
        ({
            let (next, event) = sse::lined(d, sse::utf8_text(line));
            let (end, events) = sse::fed(next, rest);
            let all = (match event {
                Some(e) => seq![e] + events,
                None => events,
            });
            &&& sse::fed(d, line + seq![10u8] + rest) == (end, all)
            &&& sse::fed(d, line + seq![13u8, 10u8] + rest) == (end, all)
            &&& rest.len() > 0 && rest[0] != 10 ==> sse::fed(d, line + seq![13u8] + rest) == (
                end,
                all,
            )
            &&& sse::fed(d, line) == (
                SseDecoderView { buf: line, ..d },
                Seq::<SseEventView>::empty(),
            )
        }),
{
    let (next, event) = sse::lined(d, sse::utf8_text(line));
    lemma_one_line(d, line, seq![10u8], rest);
    lemma_one_line(d, line, seq![13u8, 10u8], rest);
    if rest.len() > 0 && rest[0] != 10 {
        lemma_one_line(d, line, seq![13u8], rest);
    }
    lemma_no_end(line, Seq::empty(), 0);
    assert(line + Seq::<u8>::empty() =~= line);
    assert(d.buf + line =~= line);
}

proof fn lemma_one_line(d: SseDecoderView, line: Seq<u8>, end: Seq<u8>, rest: Seq<u8>)
    requires
        d.buf.len() == 0,
        forall|i: int| 0 <= i < line.len() ==> (#[trigger] line[i]) != 10 && line[i] != 13,
        end == seq![10u8] || end == seq![13u8, 10u8] || (end == seq![13u8] && rest.len() > 0
            && rest[0] != 10),
    ensures
        ({
            let (next, event) = sse::lined(d, sse::utf8_text(line));
            let (last, events) = sse::fed(next, rest);
            sse::fed(d, line + end + rest) == (
                last,
                match event {
                    Some(e) => seq![e] + events,
                    None => events,
                },
            )
        }),
{
    let (next, event) = sse::lined(d, sse::utf8_text(line));
    let s = line + end + rest;
    let p = line.len() as int;
    let f = SseDecoderView { buf: d.buf + s, ..d };
    assert(d.buf + s =~= s);
    assert(s =~= line + (end + rest));
    assert((end + rest)[0] == end[0]);
    lemma_no_end(line, end + rest, 0);
    assert(s[p] == end[0]);
    if end.len() == 2 {
        assert(s[p + 1] == 10);
    } else if end[0] == 13 {
        assert(s[p + 1] == rest[0]);
    }
    let n = p + end.len();
    assert(sse::next_line(s) == Some(n as int));
    assert(s.take(p) =~= line);
    assert(s.skip(n as int) =~= rest);
    assert(next.buf + rest =~= rest);
    let g = sse::lined(SseDecoderView { buf: rest, ..d }, sse::utf8_text(line));
    assert(g.1 == event);
    assert(g.0 =~= SseDecoderView { buf: next.buf + rest, ..next });
    let (last, events) = sse::fed(next, rest);
    match event {
        Some(e) => {},
        None => {
            assert(Seq::<SseEventView>::empty() + events =~= events);
        },
    }
}

/// At the end of the bytes nothing is lost: a line that has no end is read all the same, and an
/// event that has data comes out.
pub proof fn law_nothing_is_lost_at_the_end(d: SseDecoderView)
    ensures
        d.buf.len() == 0 && d.data.len() > 0 ==> (sse::finished(d).1 matches Some(e) && e.event
            == d.event && e.data == text::join(d.data, "\n"@)),
        d.buf.len() == 0 && d.data.len() == 0 ==> sse::finished(d).1 is None,
        d.buf.len() > 0 ==> ({
            let line = sse::utf8_text(d.buf);
            let (next, event) = sse::lined(SseDecoderView { buf: Seq::empty(), ..d }, line);
            line.len() > 0 && line.last() != '\r' ==> sse::finished(d).1 == (match event {
                Some(e) => Some(e),
                None => sse::finished(next).1,
            })
        }),
        sse::finished(d).0.data.len() == 0 && sse::finished(d).0.buf.len() == 0,
{
}

// ------------------------------------------------------------------ requests

proof fn lemma_slashes(b: Seq<char>, n: nat)
    requires
        b.len() == 0 || b.last() != '/',
    ensures
        completions_run::without_slashes(b + Seq::new(n, |i: int| '/')) == b,
    decreases n,
{
    let s = b + Seq::new(n, |i: int| '/');
    if n == 0 {
        assert(s =~= b);
    } else {
        assert(s.last() == '/');
        assert(s.drop_last() =~= b + Seq::new((n - 1) as nat, |i: int| '/'));
        lemma_slashes(b, (n - 1) as nat);
    }
}

/// A request goes to the chat completions below the base address, however many slashes end it.
/// Without a base address there is no request.
pub proof fn law_where_requests_go(base: Seq<char>, n: nat)
    requires
        base.len() == 0 || base.last() != '/',
    ensures
        ({
            let address = completions_run::request_address(base + Seq::new(n, |i: int| '/'));
            &&& base.len() > 0 ==> address == Ok::<Seq<char>, ProviderErrorView>(
                base + "/chat/completions"@,
            )
            &&& base.len() == 0 ==> (address matches Err(e) && e is Config)
        }),
{
    lemma_slashes(base, n);
}

/// The key of a request, where there is one, is its bearer token. What the host adds follows, name
/// for name and value for value.
pub proof fn law_what_headers_say(options: StreamOptions)
    ensures
        ({
            let h = completions_run::headers_of(options);
            let extra = options.extra_headers@;
            let n: int = if options.api_key matches Some(k) && k@.len() > 0 {
                1
            } else {
                0
            };
            &&& h.len() == n + extra.len()
            &&& n == 1 ==> h[0].0 == "Authorization"@ && h[0].1 == "Bearer "@
                + options.api_key.unwrap()@
            &&& forall|i: int|
                0 <= i < extra.len() ==> (#[trigger] h[n + i]).0 == extra[i].0@ && h[n + i].1
                    == extra[i].1@
        }),
{
}

/// A request that failed is sent again exactly where attempts are left and the failure may pass:
/// it could not be sent, or the server timed out, was too busy or failed, asked for no longer wait
/// than is allowed, and did not refuse it for good.
pub proof fn law_which_requests_are_repeated(policy: RetryPolicy, attempt: u32, outcome: Attempt)
    ensures
        ({
            let step = completions_run::next_step(policy, attempt, outcome);
            let left = attempt + 1 < policy.max_attempts;
            match outcome {
                Attempt::Success => step is Read,
                Attempt::Invalid(e) => step matches RetryStepView::Fail(f) && f
                    == ProviderErrorView::Config("invalid request: "@ + e@),
                Attempt::Unsent(e) => {
                    &&& left ==> step == RetryStepView::Wait(
                        completions_run::backoff(policy, attempt),
                    )
                    &&& !left ==> step == RetryStepView::Fail(
                        ProviderErrorView::Transport("request failed: "@ + e@),
                    )
                },
                Attempt::Status { status, hint, body } => {
                    let passes = status == 408 || status == 429 || 500 <= status < 600;
                    let in_time = hint is None || hint.unwrap() <= policy.max_delay;
                    let admitted = text::find_text(body@, "\"rate_limit_type\""@, 0) is None
                        || text::find_text(body@, "max_parallel_requests"@, 0) is None;
                    &&& step is Wait <==> left && passes && in_time && admitted
                    &&& step matches RetryStepView::Wait(ms) ==> ms == (match hint {
                        Some(h) => h,
                        None => completions_run::backoff(policy, attempt),
                    })
                    &&& !(step is Wait) ==> (step matches RetryStepView::Fail(
                        ProviderErrorView::Http { status: told, .. },
                    ) && told == status)
                },
            }
        }),
{
}

proof fn lemma_doubling_is_a_power(n: nat)
    requires
        n < 32,
    ensures
        completions_run::doubling(n) == pow2(n),
    decreases n,
{
    vstd::arithmetic::power2::lemma2_to64();
    if n > 0 {
        lemma_doubling_is_a_power((n - 1) as nat);
        vstd::arithmetic::power2::lemma_pow2_unfold(n);
        if n < 31 {
            vstd::arithmetic::power2::lemma_pow2_strictly_increases(n, 31);
        }
    }
}

/// The delay is the shortest one after the first attempt and doubles with each further one, up to
/// the longest.
pub proof fn law_delays_double(policy: RetryPolicy, attempt: u32)
    requires
        attempt < 32,
    ensures
        ({
            let ms = policy.base_delay * pow2(attempt as nat);
            completions_run::backoff(policy, attempt) == (if ms > policy.max_delay {
                policy.max_delay as int
            } else {
                ms
            })
        }),
        pow2(0) == 1,
{
    lemma_doubling_is_a_power(attempt as nat);
    vstd::arithmetic::power2::lemma2_to64();
    assert(policy.base_delay * pow2(attempt as nat) >= 0) by (nonlinear_arith)
        requires
            policy.base_delay >= 0,
            pow2(attempt as nat) >= 0,
    ;
}

// ------------------------------------------------------------------ reading

/// A frame that says that all is done ends the reading; one that is no JSON fails it; every other
/// one is handed on as a chunk, and what that chunk decides is done.
pub proof fn law_what_a_frame_does(f: FeedView, data: Seq<char>)
    ensures
        ({
            let g = completions_run::after_frame(f, data);
            let (run, flow) = completions_chunk::handled(f.run, json::parsed(data)->Ok_0);
            &&& data == "[DONE]"@ ==> g.step is Stop && g.run.st.saw_done && g.run.events
                == f.run.events && g.run.st.output == f.run.st.output && g.progressed
                == f.progressed && g.moved == f.moved && g.finished_seen == f.finished_seen
            &&& data != "[DONE]"@ && json::parsed(data) is Err ==> g.step is Fail && g.run == f.run
            &&& data != "[DONE]"@ && json::parsed(data) is Ok ==> {
                &&& g.run == run
                &&& g.step is More <==> flow == Ok::<ChunkFlow, ProviderErrorView>(
                    ChunkFlow::Continue,
                )
                &&& g.step is Stop <==> flow == Ok::<ChunkFlow, ProviderErrorView>(
                    ChunkFlow::Break,
                )
                &&& flow matches Err(e) ==> g.step == ReadStepView::Fail(e)
                &&& f.progressed ==> g.progressed
                &&& f.moved ==> g.moved
                &&& f.finished_seen ==> g.finished_seen
                &&& completions_chunk::progress(json::parsed(data)->Ok_0) ==> g.progressed
                    && g.moved
                &&& g.moved && !f.moved ==> completions_chunk::progress(
                    json::parsed(data)->Ok_0,
                )
                &&& g.progressed && !f.progressed ==> completions_chunk::progress(
                    json::parsed(data)->Ok_0,
                )
                &&& g.step is More && run.st.finished ==> g.finished_seen
                &&& g.finished_seen && !f.finished_seen ==> run.st.finished
            }
        }),
{
}

/// Frames are read one after the other, in order, up to the one that ends the reading.
pub proof fn law_frames_are_read_in_order(
    f: FeedView,
    a: Seq<SseEventView>,
    b: Seq<SseEventView>,
    from: int,
)
    requires
        0 <= from <= a.len(),
    ensures
        completions_run::after_frames(f, a + b, from) == completions_run::after_frames(
            completions_run::after_frames(f, a, from),
            b,
            0,
        ),
        !(f.step is More) ==> completions_run::after_frames(f, a, from) == f,
        f.step is More && from + 1 == a.len() ==> completions_run::after_frames(f, a, from)
            == completions_run::after_frame(f, a[from].data),
    decreases a.len() - from,
{
    if f.step is More && from < a.len() {
        assert((a + b)[from] == a[from]);
        law_frames_are_read_in_order(
            completions_run::after_frame(f, a[from].data),
            a,
            b,
            from + 1,
        );
    } else if from == a.len() {
        lemma_shifted(f, a, b, 0);
    } else {
        assert(completions_run::after_frames(f, b, 0) == f);
    }
}

proof fn lemma_shifted(f: FeedView, a: Seq<SseEventView>, b: Seq<SseEventView>, from: int)
    requires
        0 <= from <= b.len(),
    ensures
        completions_run::after_frames(f, a + b, a.len() + from) == completions_run::after_frames(
            f,
            b,
            from,
        ),
    decreases b.len() - from,
{
    if f.step is More && from < b.len() {
        assert((a + b)[a.len() + from] == b[from]);
        lemma_shifted(completions_run::after_frame(f, b[from].data), a, b, from + 1);
    }
}

/// A response that was seen to be finished is waited for only a moment, and taken as it is where
/// nothing more comes. One that is not is failed: by the clock that was running, or because its
/// bytes could not be read.
pub proof fn law_a_finished_response_is_taken(s: StreamRunView, e: Seq<char>)
    ensures
        completions_run::clock_of(s) is Grace <==> s.finished_seen,
        completions_run::after_deadline(s) is Stop <==> s.finished_seen,
        !s.finished_seen ==> (completions_run::clock_of(s) is FirstEvent <==> !s.progressed),
        !s.finished_seen ==> completions_run::after_deadline(s) == ReadStepView::Fail(
            ProviderErrorView::Timeout(
                match completions_run::clock_of(s) {
                    Watch::FirstEvent => completions_run::FIRST_EVENT_TIMEOUT_MESSAGE@,
                    _ => completions_run::IDLE_TIMEOUT_MESSAGE@,
                },
            ),
        ),
        completions_run::after_read_error(s, e) is Stop <==> s.state.finished,
        !s.state.finished ==> completions_run::after_read_error(s, e) == ReadStepView::Fail(
            ProviderErrorView::Transport("stream read failed: "@ + e),
        ),
{
}

// ------------------------------------------------------------------ ends

/// A response that ends well ends with its message as it stands, and with the times that it took.
/// One that fails keeps what it has said, and says what went wrong.
pub proof fn law_what_the_last_event_says(
    m: AssistantMessageView,
    e: ProviderErrorView,
    duration: u64,
    ttft: Option<u64>,
)
    ensures
        completions_run::done(m, duration, ttft) matches AssistantMessageEventView::Done {
            reason,
            message,
        } && reason == m.stop_reason && message == (AssistantMessageView {
            duration: Some(duration),
            ttft,
            ..m
        }),
        completions_run::failed(m, e, duration, ttft) matches AssistantMessageEventView::Error {
            reason,
            error: message,
        } && (reason is Aborted <==> e is Aborted) && (reason is Error <==> !(e is Aborted))
            && message == (AssistantMessageView {
            duration: Some(duration),
            ttft,
            stop_reason: reason,
            error_status: message.error_status,
            error_message: Some(error::error_text(e)),
            ..m
        }) && (match e {
            ProviderErrorView::Http { status, .. } => message.error_status == Some(status),
            _ => message.error_status is None,
        }),
{
}

/// The turn that an error ends stops as the last event says, with the status of the response where
/// there was one.
pub proof fn law_how_an_error_ends_a_turn(
    m: AssistantMessageView,
    e: ProviderErrorView,
    duration: u64,
    ttft: Option<u64>,
)
    ensures
        completions_run::failed(m, e, duration, ttft) matches AssistantMessageEventView::Error {
            reason,
            error: message,
        } && reason == error::stop_of(e) && message.stop_reason == error::stop_of(e)
            && message.error_status == error::status_of(e),
        error::stop_of(e) is Aborted <==> e is Aborted,
        error::status_of(e) is Some <==> e is Http,
{
}

/// Where the bytes end, the reading stops; a failure stays one, and nothing that was read is
/// changed.
pub proof fn law_the_end_stops_the_reading(f: FeedView)
    ensures
        ({
            let g = completions_run::at_the_end(f);
            &&& g.step is More ==> false
            &&& f.step is More ==> g.step is Stop
            &&& !(f.step is More) ==> g.step == f.step
            &&& g.run == f.run && g.progressed == f.progressed && g.moved == f.moved
                && g.finished_seen == f.finished_seen
        }),
{
}

/// The text of an error is what it was made of; the status of a response stands before its detail.
pub proof fn law_what_errors_say(s: Seq<char>, status: u16)
    ensures
        error::error_text(ProviderErrorView::Stream(s)) == s,
        error::error_text(ProviderErrorView::Transport(s)) == s,
        error::error_text(ProviderErrorView::Incomplete(s)) == s,
        error::error_text(ProviderErrorView::Timeout(s)) == s,
        error::error_text(ProviderErrorView::Config(s)) == s,
        error::error_text(ProviderErrorView::Http { status, detail: s }) == text::decimal(
            status as nat,
        ) + " "@ + s,
        error::error_text(ProviderErrorView::Aborted) == "Request was aborted"@,
{
}

/// A failure may pass where bytes or time were missing, or where the status is one of a server
/// that is busy, late, in conflict or failing.
pub proof fn law_which_failures_may_pass(e: ProviderErrorView)
    ensures
        e is Transport || e is Timeout || e is Incomplete ==> error::is_transient(e),
        e is Stream || e is Config || e is Aborted ==> !error::is_transient(e),
        e matches ProviderErrorView::Http { status, .. } ==> (error::is_transient(e) <==> (
        status == 408 || status == 409 || status == 425 || status == 429 || 500 <= status < 600)),
        e matches ProviderErrorView::Http { status, .. } ==> (completions_run::may_repeat(status)
            ==> error::is_transient(e)),
{
}

} // verus!
