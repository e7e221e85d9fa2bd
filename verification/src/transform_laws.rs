//! What the repair of a transcript keeps, what it adds and what it drops.
use crate::text;
use crate::text::Space;
use crate::transform;
use crate::transform::RepairView;
use crate::types;
use crate::types::{
    AssistantBlockView, AssistantMessageView, MessageView, StopReason, ToolCallView,
    ToolResultMessageView, UserBlockView,
};
use vstd::prelude::*;

verus! {

/// A turn that was cut off with nothing to show for it: no call, and no text but white space.
pub open spec fn cut_off(a: AssistantMessageView) -> bool {
    &&& a.stop_reason == StopReason::Length || a.stop_reason == StopReason::Error || a.stop_reason
        == StopReason::Aborted
    &&& forall|i: int|
        0 <= i < a.content.len() ==> match #[trigger] a.content[i] {
            AssistantBlockView::ToolCall(_) => false,
            AssistantBlockView::Text(t) => forall|k: int|
                0 <= k < t.text.len() ==> text::is_space(Space::Unicode, #[trigger] t.text[k]),
            _ => true,
        }
}

/// A turn that stays in the transcript.
pub open spec fn is_kept_turn(m: MessageView) -> bool {
    m matches MessageView::Assistant(a) && !cut_off(a)
}

/// A message that is no result and is not cut off.
pub open spec fn is_kept_word(m: MessageView) -> bool {
    match m {
        MessageView::Assistant(a) => !cut_off(a),
        MessageView::ToolResult(_) => false,
        _ => true,
    }
}

proof fn lemma_cut_off(a: AssistantMessageView)
    ensures
        transform::truncated_empty(a) == cut_off(a),
{
    if cut_off(a) {
        assert forall|i: int| 0 <= i < a.content.len() implies !transform::has_substance(
            #[trigger] a.content[i],
        ) by {}
    }
    if transform::truncated_empty(a) {
        assert forall|i: int| 0 <= i < a.content.len() implies match #[trigger] a.content[i] {
            AssistantBlockView::ToolCall(_) => false,
            AssistantBlockView::Text(t) => forall|k: int|
                0 <= k < t.text.len() ==> text::is_space(Space::Unicode, #[trigger] t.text[k]),
            _ => true,
        } by {
            assert(!transform::has_substance(a.content[i]));
        }
    }
}

proof fn lemma_pushed(out: Seq<MessageView>, m: MessageView, p: spec_fn(MessageView) -> bool)
    ensures
        out.push(m).filter(p) == (if p(m) {
            out.filter(p).push(m)
        } else {
            out.filter(p)
        }),
{
    reveal(Seq::filter);
    assert(out.push(m).drop_last() =~= out);
}

/// Answers to calls change nothing but results.
proof fn lemma_answered(
    w: RepairView,
    calls: Seq<ToolCallView>,
    note: Seq<char>,
    timestamp: i64,
    from: int,
    p: spec_fn(MessageView) -> bool,
)
    requires
        forall|r: ToolResultMessageView| !#[trigger] p(MessageView::ToolResult(r)),
    ensures
        transform::answered(w, calls, note, timestamp, from).out.filter(p) == w.out.filter(p),
    decreases calls.len() - from,
{
    if 0 <= from < calls.len() {
        let m = transform::stand_in(calls[from], note, timestamp);
        let next = RepairView {
            out: w.out.push(m),
            resolved: w.resolved.push(calls[from].id),
            ..w
        };
        lemma_pushed(w.out, m, p);
        lemma_answered(w, calls, note, timestamp, from + 1, p);
        lemma_answered(next, calls, note, timestamp, from + 1, p);
        assert(!p(MessageView::ToolResult(m->ToolResult_0)));
    }
}

proof fn lemma_flushed(w: RepairView, timestamp: i64, p: spec_fn(MessageView) -> bool)
    requires
        forall|r: ToolResultMessageView| !#[trigger] p(MessageView::ToolResult(r)),
    ensures
        transform::flushed(w, timestamp).out.filter(p) == w.out.filter(p),
{
    let a = transform::answered(w, w.pending, "No result provided"@, timestamp, 0);
    lemma_answered(w, w.pending, "No result provided"@, timestamp, 0, p);
    if w.aborted_at is Some {
        lemma_answered(a, w.aborted, "aborted"@, w.aborted_at.unwrap(), 0, p);
    }
}

proof fn lemma_kept(
    messages: Seq<MessageView>,
    n: int,
    p: spec_fn(MessageView) -> bool,
    words: bool,
)
    requires
        0 <= n <= messages.len(),
        forall|r: ToolResultMessageView| !#[trigger] p(MessageView::ToolResult(r)),
        forall|a: AssistantMessageView|
            cut_off(a) ==> !#[trigger] p(MessageView::Assistant(a)),
        words ==> forall|i: int| 0 <= i < messages.len() ==> !((#[trigger] messages[i]) is ToolResult),
        !words ==> forall|m: MessageView| m is User ==> !#[trigger] p(m),
    ensures
        transform::after_messages(messages, n).out.filter(p) == messages.take(n).filter(p),
    decreases n,
{
    if n == 0 {
        reveal(Seq::filter);
        assert(messages.take(0) =~= Seq::empty());
    } else {
        lemma_kept(messages, n - 1, p, words);
        let w = transform::after_messages(messages, n - 1);
        let m = messages[n - 1];
        assert(messages.take(n) =~= messages.take(n - 1).push(m));
        lemma_pushed(messages.take(n - 1), m, p);
        match m {
            MessageView::Assistant(a) => {
                lemma_cut_off(a);
                lemma_flushed(w, a.timestamp, p);
                lemma_pushed(transform::flushed(w, a.timestamp).out, m, p);
            },
            MessageView::ToolResult(r) => {
                lemma_pushed(w.out, m, p);
                lemma_pushed(w.out, transform::stale_note(r), p);
                assert(!p(MessageView::ToolResult(r)));
                assert(!words);
                assert(!p(transform::stale_note(r)));
            },
            MessageView::User(u) => {
                lemma_flushed(w, u.timestamp, p);
                lemma_pushed(transform::flushed(w, u.timestamp).out, m, p);
            },
            MessageView::Developer(d) => {
                lemma_flushed(w, d.timestamp, p);
                lemma_pushed(transform::flushed(w, d.timestamp).out, m, p);
            },
        }
    }
}

/// Of the turns of a transcript, all but those that were cut off with nothing to show stay, as
/// they are and in their order; so do all messages of the developer.
pub proof fn law_turns_stay_in_order(messages: Seq<MessageView>, now: i64)
    ensures
        transform::repaired(messages, now).filter(|m: MessageView| m is Assistant)
            == messages.filter(|m: MessageView| is_kept_turn(m)),
        transform::repaired(messages, now).filter(|m: MessageView| m is Developer)
            == messages.filter(|m: MessageView| m is Developer),
{
    let n = messages.len() as int;
    let w = transform::after_messages(messages, n);
    let kept = |m: MessageView| is_kept_turn(m);
    let dev = |m: MessageView| m is Developer;
    lemma_kept(messages, n, kept, false);
    lemma_kept(messages, n, dev, false);
    lemma_flushed(w, now, kept);
    lemma_flushed(w, now, dev);
    assert(messages.take(n) =~= messages);
    let out = transform::repaired(messages, now);
    assert forall|i: int| 0 <= i < out.len() && (#[trigger] out[i]) is Assistant implies !cut_off(
        out[i]->Assistant_0,
    ) by {
        transform::law_truncated_turns_are_dropped(messages, now, i);
        lemma_cut_off(out[i]->Assistant_0);
    }
    lemma_same_filter(out, |m: MessageView| m is Assistant, kept);
}

proof fn lemma_same_filter(
    s: Seq<MessageView>,
    p: spec_fn(MessageView) -> bool,
    q: spec_fn(MessageView) -> bool,
)
    requires
        forall|i: int| 0 <= i < s.len() ==> p(#[trigger] s[i]) == q(s[i]),
    ensures
        s.filter(p) == s.filter(q),
    decreases s.len(),
{
    reveal(Seq::filter);
    if s.len() > 0 {
        let init = s.drop_last();
        assert forall|i: int| 0 <= i < init.len() implies p(#[trigger] init[i]) == q(init[i]) by {
            assert(init[i] == s[i]);
        }
        lemma_same_filter(init, p, q);
        assert(p(s[s.len() - 1]) == q(s[s.len() - 1]));
    }
}

/// In a transcript without results, all that was said stays in its order; only answers are added.
pub proof fn law_words_stay_in_order(messages: Seq<MessageView>, now: i64)
    requires
        forall|i: int| 0 <= i < messages.len() ==> !((#[trigger] messages[i]) is ToolResult),
    ensures
        transform::repaired(messages, now).filter(|m: MessageView| is_kept_word(m))
            == messages.filter(|m: MessageView| is_kept_word(m)),
{
    let n = messages.len() as int;
    let kept = |m: MessageView| is_kept_word(m);
    lemma_kept(messages, n, kept, true);
    lemma_flushed(transform::after_messages(messages, n), now, kept);
    assert(messages.take(n) =~= messages);
}

/// A call of a turn that ended well waits for its result.
pub open spec fn awaits(calls: Seq<ToolCallView>, id: Seq<char>) -> bool {
    exists|i: int| 0 <= i < calls.len() && (#[trigger] calls[i]).id == id
}

/// A result that a call of the last turn waits for is kept as it came; a second one is dropped. A
/// result whose call is gone from the transcript is turned into a note of the user, which names
/// the tool and the call and carries its texts, as long as no call waits and it has texts.
pub proof fn law_what_becomes_of_a_result(
    w: RepairView,
    r: ToolResultMessageView,
    messages: Seq<MessageView>,
)
    ensures
        ({
            let id = r.tool_call_id;
            let m = MessageView::ToolResult(r);
            let out = transform::after_message(w, m, messages).out;
            let waits = awaits(w.pending, id) || awaits(w.aborted, id);
            &&& w.resolved.contains(id) ==> out == w.out
            &&& !w.resolved.contains(id) && waits ==> out == w.out.push(m)
                && transform::after_message(w, m, messages).resolved.contains(id)
            &&& !w.resolved.contains(id) && !waits && transform::known_call(messages, id) ==> out
                == w.out
            &&& !waits ==> (out == w.out || (out.len() == w.out.len() + 1 && out.drop_last()
                == w.out && (out.last() matches MessageView::User(u)
                && u.content is Text)))
        }),
{
    let id = r.tool_call_id;
    let m = MessageView::ToolResult(r);
    let next = transform::after_message(w, m, messages);
    assert(w.resolved.push(id)[w.resolved.len() as int] == id);
    if next.out != w.out {
        assert(next.out.drop_last() =~= w.out);
    }
}

/// Missing results are made up: one for each call that has none, in order, under its id and its
/// name, as a failure that says what is known.
pub proof fn law_missing_results_are_made_up(
    w: RepairView,
    calls: Seq<ToolCallView>,
    note: Seq<char>,
    timestamp: i64,
)
    requires
        w.resolved.len() == 0,
        forall|i: int, j: int|
            0 <= i < j < calls.len() ==> (#[trigger] calls[i]).id != (#[trigger] calls[j]).id,
    ensures
        ({
            let out = transform::answered(w, calls, note, timestamp, 0).out;
            &&& out.len() == w.out.len() + calls.len()
            &&& out.take(w.out.len() as int) == w.out
            &&& forall|i: int|
                0 <= i < calls.len() ==> made_up(
                    out[w.out.len() + i],
                    #[trigger] calls[i],
                    note,
                    timestamp,
                )
        }),
{
    lemma_made_up(w, calls, note, timestamp, 0);
}

/// A failure under the id and the name of a call, with a note.
pub open spec fn made_up(m: MessageView, call: ToolCallView, note: Seq<char>, at: i64) -> bool {
    m matches MessageView::ToolResult(r) && r.tool_call_id == call.id && r.tool_name == call.name
        && r.is_error && r.timestamp == at && r.content.len() == 1 && (
    r.content[0] matches UserBlockView::Text(t) && t.text == note)
}

proof fn lemma_made_up(
    w: RepairView,
    calls: Seq<ToolCallView>,
    note: Seq<char>,
    timestamp: i64,
    from: int,
)
    requires
        0 <= from <= calls.len(),
        forall|i: int|
            from <= i < calls.len() ==> !w.resolved.contains((#[trigger] calls[i]).id),
        forall|i: int, j: int|
            0 <= i < j < calls.len() ==> (#[trigger] calls[i]).id != (#[trigger] calls[j]).id,
    ensures
        ({
            let out = transform::answered(w, calls, note, timestamp, from).out;
            &&& out.len() == w.out.len() + calls.len() - from
            &&& out.take(w.out.len() as int) == w.out
            &&& forall|i: int|
                from <= i < calls.len() ==> made_up(
                    out[w.out.len() + i - from],
                    #[trigger] calls[i],
                    note,
                    timestamp,
                )
        }),
    decreases calls.len() - from,
{
    let out = transform::answered(w, calls, note, timestamp, from).out;
    if from < calls.len() {
        let m = transform::stand_in(calls[from], note, timestamp);
        let next = RepairView {
            out: w.out.push(m),
            resolved: w.resolved.push(calls[from].id),
            ..w
        };
        assert(!w.resolved.contains(calls[from].id));
        assert forall|i: int| from + 1 <= i < calls.len() implies !next.resolved.contains(
            (#[trigger] calls[i]).id,
        ) by {
            if next.resolved.contains(calls[i].id) {
                let k = choose|k: int|
                    0 <= k < next.resolved.len() && next.resolved[k] == calls[i].id;
                if k < w.resolved.len() {
                    assert(w.resolved[k] == calls[i].id);
                } else {
                    assert(calls[from].id != calls[i].id);
                }
            }
        }
        lemma_made_up(next, calls, note, timestamp, from + 1);
        assert(out.take(w.out.len() as int) =~= next.out.take(w.out.len() as int));
        assert(next.out.take(w.out.len() as int) =~= w.out);
        assert(out[w.out.len() as int] == out.take(next.out.len() as int)[w.out.len() as int]);
        assert forall|i: int| from <= i < calls.len() implies made_up(
            out[w.out.len() + i - from],
            #[trigger] calls[i],
            note,
            timestamp,
        ) by {
            if i > from {
                assert(next.out.len() + i - (from + 1) == w.out.len() + i - from);
            }
        }
    } else {
        assert(out.take(w.out.len() as int) =~= w.out);
    }
}

/// Before anything else is said, the calls of the last turn that have no result are answered: with
/// a note that there is none, or that the turn was aborted where it failed.
pub proof fn law_open_calls_are_closed_first(
    messages: Seq<MessageView>,
    a: AssistantMessageView,
    now: i64,
)
    requires
        messages.len() == 1,
        messages[0] == MessageView::Assistant(a),
        !cut_off(a),
        forall|i: int, j: int|
            0 <= i < j < types::tool_calls(a.content).len() ==> (
            #[trigger] types::tool_calls(a.content)[i]).id != (
            #[trigger] types::tool_calls(a.content)[j]).id,
    ensures
        ({
            let calls = types::tool_calls(a.content);
            let failed = a.stop_reason == StopReason::Error || a.stop_reason == StopReason::Aborted;
            let out = transform::repaired(messages, now);
            &&& out.len() == 1 + calls.len()
            &&& out[0] == messages[0]
            &&& forall|i: int|
                0 <= i < calls.len() ==> made_up(
                    out[1 + i],
                    #[trigger] calls[i],
                    if failed {
                        "aborted"@
                    } else {
                        "No result provided"@
                    },
                    if failed {
                        a.timestamp
                    } else {
                        now
                    },
                )
        }),
{
    let calls = types::tool_calls(a.content);
    let failed = a.stop_reason == StopReason::Error || a.stop_reason == StopReason::Aborted;
    lemma_cut_off(a);
    reveal_with_fuel(transform::after_messages, 2);
    let start = transform::fresh();
    let none = Seq::<ToolCallView>::empty();
    assert(transform::answered(start, none, "No result provided"@, a.timestamp, 0) == start);
    let w = transform::after_messages(messages, 1);
    assert(w.out =~= seq![messages[0]]);
    let out = transform::repaired(messages, now);
    if failed {
        transform::law_distinct_calls_are_all_answered(calls);
        assert(transform::answered(w, none, "No result provided"@, now, 0) == w);
        law_missing_results_are_made_up(w, calls, "aborted"@, a.timestamp);
        assert(out == transform::answered(w, calls, "aborted"@, a.timestamp, 0).out);
    } else {
        law_missing_results_are_made_up(w, calls, "No result provided"@, now);
        assert(out == transform::answered(w, calls, "No result provided"@, now, 0).out);
    }
    assert(out.take(1)[0] == out[0]);
}

proof fn lemma_gone(calls: Seq<ToolCallView>, id: Seq<char>)
    ensures
        !transform::has_call(transform::without_call(calls, id), id),
    decreases calls.len(),
{
    if calls.len() > 0 {
        lemma_gone(calls.drop_last(), id);
        let rest = transform::without_call(calls.drop_last(), id);
        if calls.last().id != id {
            assert forall|i: int| 0 <= i < rest.push(calls.last()).len() implies (
            #[trigger] rest.push(calls.last())[i]).id != id by {
                if i < rest.len() {
                    assert(rest[i].id != id);
                }
            }
        }
    }
}

/// The first result of a call that waits for it is kept, and the call waits no more; a second one
/// changes nothing.
pub proof fn law_one_result_for_each_call(
    w: RepairView,
    first: ToolResultMessageView,
    second: ToolResultMessageView,
    messages: Seq<MessageView>,
)
    requires
        first.tool_call_id == second.tool_call_id,
        !w.resolved.contains(first.tool_call_id),
        transform::has_call(w.aborted, first.tool_call_id) || transform::has_call(
            w.pending,
            first.tool_call_id,
        ),
    ensures
        ({
            let next = transform::after_result(w, first, messages);
            &&& next.out == w.out.push(MessageView::ToolResult(first))
            &&& !transform::has_call(next.aborted, first.tool_call_id)
            &&& transform::after_result(next, second, messages) == next
        }),
{
    let id = first.tool_call_id;
    lemma_gone(w.aborted, id);
    let next = transform::after_result(w, first, messages);
    assert(w.resolved.push(id)[w.resolved.len() as int] == id);
    assert(next.resolved.contains(id));
}

/// A result of no call is told of where no call waits, and it shows something; while a call waits it
/// is dropped.
pub proof fn law_results_of_no_call(
    w: RepairView,
    r: ToolResultMessageView,
    messages: Seq<MessageView>,
)
    requires
        !w.resolved.contains(r.tool_call_id),
        !transform::has_call(w.aborted, r.tool_call_id),
        !transform::has_call(w.pending, r.tool_call_id),
    ensures
        w.aborted.len() > 0 ==> transform::after_result(w, r, messages) == w,
        (exists|i: int|
            0 <= i < w.pending.len() && !w.resolved.contains((#[trigger] w.pending[i]).id))
            ==> transform::after_result(w, r, messages) == w,
        transform::known_call(messages, r.tool_call_id) ==> transform::after_result(w, r, messages)
            == w,
        w.aborted.len() == 0 && w.pending.len() == 0 && !transform::known_call(
            messages,
            r.tool_call_id,
        ) && transform::shown_texts(r.content).len() > 0 ==> transform::after_result(
            w,
            r,
            messages,
        ).out == w.out.push(transform::stale_note(r)),
{
}

} // verus!
