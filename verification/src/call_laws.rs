//! What the chunks of a response say of tool calls, of its end, of its usage and of errors.
use crate::completions_chunk;
use crate::completions_chunk::{ChunkFlow, ChunkStateView, Events, OpenToolView, RunView};
use crate::error::ProviderErrorView;
use crate::event::AssistantMessageEventView;
use crate::json;
use crate::json::{JsonView, NumberView};
use crate::text;
use crate::types::{AssistantBlockView, StopReason};
use vstd::prelude::*;

verus! {

/// The arguments that the events tell of a call, piece by piece.
pub open spec fn arguments_told(events: Events, i: int) -> Seq<char>
    decreases events.len(),
{
    if events.len() == 0 {
        Seq::empty()
    } else {
        let before = arguments_told(events.drop_last(), i);
        match events.last() {
            AssistantMessageEventView::ToolcallDelta { content_index, delta, .. } => if content_index
                == i {
                before + delta
            } else {
                before
            },
            _ => before,
        }
    }
}

/// The calls that are open are calls of the message, each once, and what the stream calls them
/// leads to open calls.
pub open spec fn calls_are_kept(st: ChunkStateView) -> bool {
    let content = st.output.content;
    &&& content.len() <= usize::MAX
    &&& forall|k: int|
        0 <= k < st.open.len() ==> (#[trigger] st.open[k]).block < content.len()
            && content[st.open[k].block as int] is ToolCall
    &&& forall|k: int, l: int|
        0 <= k < l < st.open.len() ==> (#[trigger] st.open[k]).block != (
        #[trigger] st.open[l]).block
    &&& forall|j: int|
        0 <= j < st.by_index.len() ==> is_open(st, (#[trigger] st.by_index[j]).1)
}

/// The call of a block still takes arguments.
pub open spec fn is_open(st: ChunkStateView, block: usize) -> bool {
    exists|k: int| 0 <= k < st.open.len() && (#[trigger] st.open[k]).block == block
}

/// A finished call has the arguments that its text stands for.
pub open spec fn ends_true(before: Events, e: AssistantMessageEventView) -> bool {
    match e {
        AssistantMessageEventView::ToolcallEnd { content_index, tool_call, .. } => {
            tool_call.arguments == json::final_arguments(
                arguments_told(before, content_index as int),
            )
        },
        _ => true,
    }
}

/// The open calls hold the arguments that were told of them, and each call that ended was given
/// what all of its arguments stand for.
pub open spec fn arguments_are_kept(r: RunView) -> bool {
    &&& calls_are_kept(r.st)
    &&& forall|k: int|
        0 <= k < r.st.open.len() ==> (#[trigger] r.st.open[k]).args == arguments_told(
            r.events,
            r.st.open[k].block as int,
        )
    &&& forall|i: int|
        r.st.output.content.len() <= i ==> (#[trigger] arguments_told(r.events, i)).len() == 0
    &&& forall|k: int|
        0 <= k < r.events.len() ==> ends_true(r.events.take(k), #[trigger] r.events[k])
}

proof fn lemma_open_place(open: Seq<OpenToolView>, block: usize, from: int)
    requires
        0 <= from,
    ensures
        match completions_chunk::open_place(open, block, from) {
            Some(k) => from <= k < open.len() && open[k].block == block && forall|j: int|
                from <= j < k ==> (#[trigger] open[j]).block != block,
            None => forall|j: int| from <= j < open.len() ==> (#[trigger] open[j]).block != block,
        },
    decreases open.len() - from,
{
    if from < open.len() && open[from].block != block {
        lemma_open_place(open, block, from + 1);
    }
}

proof fn lemma_without_block(list: Seq<(u64, usize)>, block: usize, j: int)
    requires
        0 <= j < completions_chunk::without_block(list, block).len(),
    ensures
        completions_chunk::without_block(list, block)[j].1 != block,
        list.contains(completions_chunk::without_block(list, block)[j]),
    decreases list.len(),
{
    if list.len() > 0 {
        let rest = completions_chunk::without_block(list.drop_last(), block);
        if j < rest.len() {
            lemma_without_block(list.drop_last(), block, j);
            let i = choose|i: int|
                0 <= i < list.drop_last().len() && list.drop_last()[i] == rest[j];
            assert(list[i] == rest[j]);
        } else {
            assert(list[list.len() - 1] == list.last());
        }
    }
}

proof fn lemma_indexed(list: Seq<(u64, usize)>, index: u64, from: int)
    requires
        0 <= from,
    ensures
        match completions_chunk::indexed(list, index, from) {
            Some(b) => exists|j: int|
                from <= j < list.len() && #[trigger] list[j] == (index, b) && forall|i: int|
                    from <= i < j ==> (#[trigger] list[i]).0 != index,
            None => forall|j: int| from <= j < list.len() ==> (#[trigger] list[j]).0 != index,
        },
    decreases list.len() - from,
{
    if from < list.len() {
        if list[from].0 == index {
            assert(list[from] == (index, list[from].1));
        } else {
            lemma_indexed(list, index, from + 1);
            match completions_chunk::indexed(list, index, from + 1) {
                Some(b) => {
                    let j = choose|j: int|
                        from + 1 <= j < list.len() && #[trigger] list[j] == (index, b) && forall|
                            i: int,
                        |
                            from + 1 <= i < j ==> (#[trigger] list[i]).0 != index;
                    assert forall|i: int| from <= i < j implies (#[trigger] list[i]).0
                        != index by {}
                },
                None => {},
            }
        }
    }
}

proof fn lemma_open_with_id(st: ChunkStateView, id: Seq<char>, from: int)
    requires
        0 <= from,
    ensures
        match completions_chunk::open_with_id(st, id, from) {
            Some(b) => exists|k: int|
                from <= k < st.open.len() && (#[trigger] st.open[k]).block == b && named(st, k, id),
            None => forall|k: int|
                from <= k < st.open.len() ==> !named(st, k, id) || (#[trigger] st.open[k]).block
                    >= st.output.content.len(),
        },
    decreases st.open.len() - from,
{
    if from < st.open.len() {
        lemma_open_with_id(st, id, from + 1);
        assert(st.open[from].block == st.open[from].block);
    }
}

/// The open call at a place has an id.
pub open spec fn named(st: ChunkStateView, k: int, id: Seq<char>) -> bool {
    st.open[k].block < st.output.content.len() && (
    st.output.content[st.open[k].block as int] matches AssistantBlockView::ToolCall(c) && c.id
        == id)
}

/// What is kept of calls stays kept, where the calls, the indices and the calls that are open do
/// not change, and neither does what was told of them.
proof fn lemma_same_calls(a: RunView, b: RunView)
    requires
        a.st.open == b.st.open,
        a.st.by_index == b.st.by_index,
        a.st.output.content.len() <= b.st.output.content.len() <= usize::MAX,
        forall|i: int|
            0 <= i < a.st.output.content.len() && (#[trigger] a.st.output.content[i]) is ToolCall
                ==> b.st.output.content[i] is ToolCall,
        a.events.len() <= b.events.len(),
        b.events.take(a.events.len() as int) == a.events,
        forall|k: int|
            a.events.len() <= k < b.events.len() ==> !((#[trigger] b.events[k]) is ToolcallDelta)
                && !(b.events[k] is ToolcallEnd),
    ensures
        calls_are_kept(a.st) ==> calls_are_kept(b.st),
        arguments_are_kept(a) ==> arguments_are_kept(b),
        forall|i: int| #[trigger] arguments_told(b.events, i) == arguments_told(a.events, i),
    decreases b.events.len() - a.events.len(),
{
    if calls_are_kept(a.st) {
        assert forall|j: int| 0 <= j < b.st.by_index.len() implies is_open(
            b.st,
            (#[trigger] b.st.by_index[j]).1,
        ) by {
            assert(is_open(a.st, a.st.by_index[j].1));
            let k = choose|k: int|
                0 <= k < a.st.open.len() && (#[trigger] a.st.open[k]).block == a.st.by_index[j].1;
            assert(b.st.open[k].block == b.st.by_index[j].1);
        }
    }
    if b.events.len() == a.events.len() {
        assert(b.events.take(a.events.len() as int) =~= b.events);
        if arguments_are_kept(a) {
            assert forall|i: int| b.st.output.content.len() <= i implies (
            #[trigger] arguments_told(b.events, i)).len() == 0 by {
                assert(arguments_told(a.events, i).len() == 0);
            }
        }
    } else {
        let n = b.events.len() - 1;
        let m = RunView { events: b.events.drop_last(), ..b };
        assert(m.events.take(a.events.len() as int) =~= a.events);
        assert forall|k: int| a.events.len() <= k < m.events.len() implies !((
        #[trigger] m.events[k]) is ToolcallDelta) && !(m.events[k] is ToolcallEnd) by {
            assert(m.events[k] == b.events[k]);
        }
        lemma_same_calls(a, m);
        assert(!(b.events[n as int] is ToolcallDelta));
        assert forall|i: int| true implies #[trigger] arguments_told(b.events, i) == arguments_told(
            a.events,
            i,
        ) by {
            assert(arguments_told(m.events, i) == arguments_told(a.events, i));
        }
        if arguments_are_kept(a) {
            assert forall|k: int| 0 <= k < b.events.len() implies ends_true(
                b.events.take(k),
                #[trigger] b.events[k],
            ) by {
                if k < n {
                    assert(m.events[k] == b.events[k]);
                    assert(m.events.take(k) =~= b.events.take(k));
                }
            }
            assert forall|i: int| b.st.output.content.len() <= i implies (
            #[trigger] arguments_told(b.events, i)).len() == 0 by {
                assert(arguments_told(m.events, i).len() == 0);
            }
        }
    }
}

proof fn lemma_tool_finished(r: RunView, block: usize)
    requires
        calls_are_kept(r.st),
    ensures
        ({
            let z = completions_chunk::tool_finished(r, block);
            &&& calls_are_kept(z.st)
            &&& arguments_are_kept(r) ==> arguments_are_kept(z)
            &&& z.st.output.content.len() == r.st.output.content.len()
            &&& z.st.current == r.st.current
        }),
{
    reveal(completions_chunk::tool_finished);
    lemma_open_place(r.st.open, block, 0);
    let z = completions_chunk::tool_finished(r, block);
    match completions_chunk::open_place(r.st.open, block, 0) {
        None => {},
        Some(k) => {
            let open = r.st.open;
            let left = open.remove(k);
            assert forall|i: int| 0 <= i < left.len() implies (#[trigger] left[i]) == (if i < k {
                open[i]
            } else {
                open[i + 1]
            }) by {}
            assert forall|i: int, j: int| 0 <= i < j < left.len() implies (
            #[trigger] left[i]).block != (#[trigger] left[j]).block by {
                let a = if i < k {
                    i
                } else {
                    i + 1
                };
                let b = if j < k {
                    j
                } else {
                    j + 1
                };
                assert(open[a].block != open[b].block);
            }
            assert(z.st.open == left);
            assert forall|j: int| 0 <= j < z.st.by_index.len() implies is_open(
                z.st,
                (#[trigger] z.st.by_index[j]).1,
            ) by {
                let kept = z.st.by_index[j];
                lemma_without_block(r.st.by_index, block, j);
                let i = choose|i: int|
                    0 <= i < r.st.by_index.len() && r.st.by_index[i] == kept;
                assert(is_open(r.st, r.st.by_index[i].1));
                let l = choose|l: int|
                    0 <= l < open.len() && (#[trigger] open[l]).block == kept.1;
                assert(l != k);
                let at = if l < k {
                    l
                } else {
                    l - 1
                };
                assert(z.st.open[at].block == kept.1);
            }
            assert(open[k].block == block);
            let content = r.st.output.content;
            assert(content[block as int] is ToolCall);
            let c = content[block as int]->ToolCall_0;
            let call = completions_chunk::with_arguments(c, open[k].args);
            assert(z.st.output.content == content.update(
                block as int,
                AssistantBlockView::ToolCall(call),
            ));
            assert forall|i: int| 0 <= i < z.st.open.len() implies (
            #[trigger] z.st.open[i]).block < z.st.output.content.len()
                && z.st.output.content[z.st.open[i].block as int] is ToolCall by {
                let a = if i < k {
                    i
                } else {
                    i + 1
                };
                assert(open[a].block < content.len());
            }
            assert(z.events.drop_last() =~= r.events);
            assert(z.events.last() is ToolcallEnd);
            if arguments_are_kept(r) {
                assert forall|i: int| true implies #[trigger] arguments_told(z.events, i)
                    == arguments_told(r.events, i) by {}
                assert forall|i: int| 0 <= i < z.st.open.len() implies (
                #[trigger] z.st.open[i]).args == arguments_told(
                    z.events,
                    z.st.open[i].block as int,
                ) by {
                    let a = if i < k {
                        i
                    } else {
                        i + 1
                    };
                    assert(open[a].args == arguments_told(r.events, open[a].block as int));
                }
                assert forall|i: int| z.st.output.content.len() <= i implies (
                #[trigger] arguments_told(z.events, i)).len() == 0 by {
                    assert(arguments_told(r.events, i).len() == 0);
                }
                assert forall|i: int| 0 <= i < z.events.len() implies ends_true(
                    z.events.take(i),
                    #[trigger] z.events[i],
                ) by {
                    if i < r.events.len() {
                        assert(z.events.take(i) =~= r.events.take(i));
                        assert(z.events[i] == r.events[i]);
                    } else {
                        assert(z.events.take(i) =~= r.events);
                        assert(open[k].args == arguments_told(r.events, open[k].block as int));
                    }
                }
            }
        },
    }
}

proof fn lemma_tools_finished(r: RunView, list: Seq<OpenToolView>, n: int)
    requires
        calls_are_kept(r.st),
    ensures
        ({
            let z = completions_chunk::tools_finished(r, list, n);
            &&& calls_are_kept(z.st)
            &&& arguments_are_kept(r) ==> arguments_are_kept(z)
        }),
    decreases n,
{
    if n > 0 {
        lemma_tools_finished(r, list, n - 1);
        lemma_tool_finished(
            completions_chunk::tools_finished(r, list, n - 1),
            list[n - 1].block,
        );
    }
}

/// Nothing that has to do with calls happens.
spec fn no_calls(a: RunView, b: RunView) -> bool {
    &&& a.st.open == b.st.open
    &&& a.st.by_index == b.st.by_index
    &&& a.st.output.content.len() <= b.st.output.content.len()
    &&& forall|i: int|
        0 <= i < a.st.output.content.len() && (#[trigger] a.st.output.content[i]) is ToolCall
            ==> b.st.output.content[i] == a.st.output.content[i]
    &&& a.events.len() <= b.events.len()
    &&& b.events.take(a.events.len() as int) == a.events
    &&& forall|k: int|
        a.events.len() <= k < b.events.len() ==> !((#[trigger] b.events[k]) is ToolcallDelta)
            && !(b.events[k] is ToolcallEnd)
}

proof fn lemma_no_calls_twice(a: RunView, b: RunView, c: RunView)
    requires
        no_calls(a, b),
        no_calls(b, c),
    ensures
        no_calls(a, c),
{
    assert(c.events.take(a.events.len() as int) =~= b.events.take(a.events.len() as int));
    assert forall|k: int| a.events.len() <= k < c.events.len() implies !((
    #[trigger] c.events[k]) is ToolcallDelta) && !(c.events[k] is ToolcallEnd) by {
        if k < b.events.len() {
            assert(c.events.take(b.events.len() as int)[k] == b.events[k]);
        }
    }
}

proof fn lemma_one_event(a: RunView, b: RunView, e: AssistantMessageEventView)
    requires
        a.st.open == b.st.open,
        a.st.by_index == b.st.by_index,
        a.st.output.content.len() <= b.st.output.content.len(),
        forall|i: int|
            0 <= i < a.st.output.content.len() && (#[trigger] a.st.output.content[i]) is ToolCall
                ==> b.st.output.content[i] == a.st.output.content[i],
        b.events == a.events.push(e),
        !(e is ToolcallDelta),
        !(e is ToolcallEnd),
    ensures
        no_calls(a, b),
{
    assert(b.events.take(a.events.len() as int) =~= a.events);
}

proof fn lemma_current_finished(r: RunView)
    ensures
        no_calls(r, completions_chunk::current_finished(r)),
        completions_chunk::current_finished(r).st == r.st,
{
    reveal(completions_chunk::current_finished);
    reveal(completions_chunk::block_finished);
    let z = completions_chunk::current_finished(r);
    assert(r.events.take(r.events.len() as int) =~= r.events);
    if z.events != r.events {
        lemma_one_event(r, z, z.events.last());
    }
}

proof fn lemma_text_appended(r: RunView, s: Seq<char>)
    ensures
        no_calls(r, completions_chunk::text_appended(r, s)),
{
    reveal(completions_chunk::text_appended);
    reveal(completions_chunk::text_ready);
    reveal(completions_chunk::text_grown);
    let z = completions_chunk::text_appended(r, s);
    assert(r.events.take(r.events.len() as int) =~= r.events);
    if s.len() > 0 {
        let t = completions_chunk::token_seen(r);
        let w = completions_chunk::text_ready(t);
        assert(no_calls(r, t));
        lemma_current_finished(t);
        let c = completions_chunk::current_finished(t);
        if w != t {
            lemma_one_event(c, w, w.events.last());
            lemma_no_calls_twice(t, c, w);
        }
        lemma_no_calls_twice(r, t, w);
        lemma_one_event(w, z, z.events.last());
        lemma_no_calls_twice(r, w, z);
    }
}

proof fn lemma_thinking_appended(r: RunView, s: Seq<char>, signature: Seq<char>)
    ensures
        no_calls(r, completions_chunk::thinking_appended(r, s, signature)),
{
    reveal(completions_chunk::thinking_appended);
    reveal(completions_chunk::thinking_ready);
    reveal(completions_chunk::thinking_grown);
    let z = completions_chunk::thinking_appended(r, s, signature);
    assert(r.events.take(r.events.len() as int) =~= r.events);
    let t = completions_chunk::token_seen(r);
    let w = completions_chunk::thinking_ready(t, signature);
    assert(no_calls(r, t));
    lemma_current_finished(t);
    let c = completions_chunk::current_finished(t);
    if w != t {
        lemma_one_event(c, w, w.events.last());
        lemma_no_calls_twice(t, c, w);
    }
    lemma_no_calls_twice(r, t, w);
    lemma_one_event(w, z, z.events.last());
    lemma_no_calls_twice(r, w, z);
}

/// The text that a delta of a call appends to its arguments.
pub open spec fn more_arguments(call: JsonView) -> Option<JsonView> {
    match json::member(call, "function"@) {
        Some(f) => json::member(f, "arguments"@),
        None => None,
    }
}

/// A member of a delta that is a text with something in it.
pub open spec fn given(v: Option<JsonView>, s: Seq<char>) -> bool {
    v == Some(JsonView::String(s)) && s.len() > 0
}

/// A delta of a tool call goes to one call: to the one that its index was given to, else to the
/// open one with its id, else to the one that is written to where that is open and the delta has
/// no id, else to a new one behind all blocks. That call takes the id and the name that the delta
/// gives, the arguments grow by what it brings, and no other block changes.
pub proof fn law_a_delta_goes_to_its_call(r: RunView, call: JsonView)
    requires
        calls_are_kept(r.st),
        r.st.output.content.len() < usize::MAX,
    ensures
        ({
            let z = completions_chunk::tool_delta(r, call);
            let old = r.st.output.content;
            let new = z.st.output.content;
            let b = z.st.current.unwrap();
            let id = json::member(call, "id"@);
            let f = json::member(call, "function"@);
            &&& calls_are_kept(z.st)
            &&& z.st.current is Some && b < new.len() && new[b as int] is ToolCall
            &&& is_open(z.st, b)
            &&& new.len() == (if b < old.len() {
                old.len() as int
            } else {
                old.len() + 1int
            })
            &&& forall|i: int| 0 <= i < old.len() && i != b ==> #[trigger] new[i] == old[i]
            &&& forall|s: Seq<char>|
                #[trigger] given(id, s) ==> new[b as int]->ToolCall_0.id == s
            &&& forall|s: Seq<char>|
                f is Some && #[trigger] given(json::member(f.unwrap(), "name"@), s)
                    ==> new[b as int]->ToolCall_0.name == s
            &&& (forall|s: Seq<char>| !#[trigger] given(id, s)) ==> new[b as int]->ToolCall_0.id
                == (if b < old.len() {
                old[b as int]->ToolCall_0.id
            } else {
                Seq::empty()
            })
            &&& z.events.len() > 0
            &&& z.events.last() matches AssistantMessageEventView::ToolcallDelta {
                content_index,
                delta,
                partial,
            } && content_index == b && partial == z.st.output && (more_arguments(
                call,
            ) matches Some(JsonView::String(s)) ==> delta == s)
            &&& forall|j: int|
                0 <= j < r.st.by_index.len() && json::member(call, "index"@) == Some(
                    JsonView::Number(NumberView::PosInt((#[trigger] r.st.by_index[j]).0)),
                ) && (forall|i: int|
                    0 <= i < j ==> (#[trigger] r.st.by_index[i]).0 != r.st.by_index[j].0) ==> b
                    == r.st.by_index[j].1
            &&& (forall|j: int|
                0 <= j < r.st.by_index.len() ==> json::member(call, "index"@) != Some(
                    JsonView::Number(NumberView::PosInt((#[trigger] r.st.by_index[j]).0)),
                )) && (exists|s: Seq<char>| #[trigger]
                given(id, s) && forall|k: int|
                    0 <= k < r.st.open.len() ==> (#[trigger] old[r.st.open[k].block as int])->ToolCall_0.id
                        != s) ==> b == old.len()
            &&& (forall|j: int|
                0 <= j < r.st.by_index.len() ==> json::member(call, "index"@) != Some(
                    JsonView::Number(NumberView::PosInt((#[trigger] r.st.by_index[j]).0)),
                )) && (forall|s: Seq<char>| !#[trigger] given(id, s)) && r.st.current is Some
                && is_open(r.st, r.st.current.unwrap()) ==> b == r.st.current.unwrap()
            &&& r.st.current is None && r.st.by_index.len() == 0 && r.st.open.len() == 0 ==> b
                == old.len()
            &&& json::member(call, "index"@) matches Some(JsonView::Number(NumberView::PosInt(n)))
                ==> z.st.by_index.contains((n, b))
        }),
{
    reveal(completions_chunk::tool_delta);
    reveal(completions_chunk::tool_ready);
    reveal(completions_chunk::call_changed);
    reveal(completions_chunk::call_after);
    reveal(completions_chunk::target);
    let z = completions_chunk::tool_delta(r, call);
    let w = completions_chunk::tool_ready(r, call);
    let old = r.st.output.content;
    let b = w.st.current.unwrap();
    let id = json::member(call, "id"@);
    let index = json::uint_of(json::member(call, "index"@));
    lemma_current_finished(r);
    if index is Some {
        lemma_indexed(r.st.by_index, index.unwrap(), 0);
    }
    if completions_chunk::filled(call, "id"@) is Some {
        let s = completions_chunk::filled(call, "id"@).unwrap();
        assert(given(id, s));
        lemma_open_with_id(r.st, s, 0);
    }
    if r.st.current is Some {
        lemma_open_place(r.st.open, r.st.current.unwrap(), 0);
    }
    if completions_chunk::target(r.st, call) is Some {
        let t = completions_chunk::target(r.st, call).unwrap();
        assert(is_open(r.st, t)) by {
            if index is Some && completions_chunk::indexed(r.st.by_index, index.unwrap(), 0) is Some {
                let j = choose|j: int|
                    0 <= j < r.st.by_index.len() && #[trigger] r.st.by_index[j] == (
                        index.unwrap(),
                        t,
                    );
                assert(is_open(r.st, r.st.by_index[j].1));
            }
        }
        let k = choose|k: int| 0 <= k < r.st.open.len() && (#[trigger] r.st.open[k]).block == t;
        assert(t < old.len() && old[t as int] is ToolCall);
        assert(w.st.output.content == old);
        assert(w.st.open == r.st.open);
        assert(b == t);
    } else {
        assert(b == old.len());
        assert(w.st.output.content.len() == old.len() + 1);
        assert(w.st.open == r.st.open.push(
            OpenToolView { block: b, args: Seq::empty(), parsed: 0 },
        ));
        assert(w.st.open[w.st.open.len() - 1].block == b);
    }
    lemma_open_place(w.st.open, b, 0);
    assert(is_open(w.st, b)) by {
        if completions_chunk::target(r.st, call) is None {
            assert(w.st.open[w.st.open.len() - 1].block == b);
        } else {
            let k = choose|k: int|
                0 <= k < r.st.open.len() && (#[trigger] r.st.open[k]).block == b;
            assert(w.st.open[k].block == b);
        }
    }
    let k = completions_chunk::open_place(w.st.open, b, 0).unwrap();
    assert(z.st.open.len() == w.st.open.len());
    assert(z.st.open[k].block == b);
    assert forall|i: int| 0 <= i < z.st.open.len() implies (#[trigger] z.st.open[i]).block
        == w.st.open[i].block by {}
    let new = z.st.output.content;
    assert forall|i: int| 0 <= i < z.st.open.len() implies (#[trigger] z.st.open[i]).block
        < new.len() && new[z.st.open[i].block as int] is ToolCall by {
        if i < r.st.open.len() {
            assert(r.st.open[i].block < old.len());
            assert(w.st.open[i] == r.st.open[i]);
        }
    }
    assert forall|i: int, j: int| 0 <= i < j < z.st.open.len() implies (
    #[trigger] z.st.open[i]).block != (#[trigger] z.st.open[j]).block by {
        if j < r.st.open.len() {
            assert(r.st.open[i].block != r.st.open[j].block);
        } else {
            assert(r.st.open[i].block < old.len());
        }
    }
    assert forall|j: int| 0 <= j < z.st.by_index.len() implies is_open(
        z.st,
        (#[trigger] z.st.by_index[j]).1,
    ) by {
        if j < r.st.by_index.len() {
            assert(z.st.by_index[j] == r.st.by_index[j]);
            assert(is_open(r.st, r.st.by_index[j].1));
            let l = choose|l: int|
                0 <= l < r.st.open.len() && (#[trigger] r.st.open[l]).block == r.st.by_index[j].1;
            assert(z.st.open[l].block == z.st.by_index[j].1);
        } else {
            assert(z.st.by_index[j].1 == b);
        }
    }
    if index is Some {
        match completions_chunk::indexed(r.st.by_index, index.unwrap(), 0) {
            Some(t) => {
                let j = choose|j: int|
                    0 <= j < r.st.by_index.len() && #[trigger] r.st.by_index[j] == (
                        index.unwrap(),
                        t,
                    );
                assert(z.st.by_index[j] == (index.unwrap(), b));
            },
            None => {
                assert(z.st.by_index[z.st.by_index.len() - 1] == (index.unwrap(), b));
            },
        }
    }
    assert((forall|s: Seq<char>| !#[trigger] given(id, s)) ==> completions_chunk::filled(
        call,
        "id"@,
    ) is None);
    assert forall|j: int|
        0 <= j < r.st.by_index.len() && json::member(call, "index"@) == Some(
            JsonView::Number(NumberView::PosInt((#[trigger] r.st.by_index[j]).0)),
        ) && (forall|i: int|
            0 <= i < j ==> (#[trigger] r.st.by_index[i]).0 != r.st.by_index[j].0) implies b
        == r.st.by_index[j].1 by {
        assert(index == Some(r.st.by_index[j].0));
    }
    if (exists|s: Seq<char>| #[trigger]
        given(id, s) && forall|k: int|
            0 <= k < r.st.open.len() ==> (#[trigger] old[r.st.open[k].block as int])->ToolCall_0.id
                != s) {
        let s = choose|s: Seq<char>| #[trigger]
            given(id, s) && forall|k: int|
                0 <= k < r.st.open.len() ==> (#[trigger] old[r.st.open[k].block as int])->ToolCall_0.id
                    != s;
        assert(completions_chunk::filled(call, "id"@) == Some(s));
        assert forall|k: int| 0 <= k < r.st.open.len() implies !named(r.st, k, s) by {
            assert(old[r.st.open[k].block as int]->ToolCall_0.id != s);
        }
        if r.st.current is Some && is_open(r.st, r.st.current.unwrap()) {
            let k = choose|k: int|
                0 <= k < r.st.open.len() && (#[trigger] r.st.open[k]).block
                    == r.st.current.unwrap();
            assert(!named(r.st, k, s));
            assert(old[r.st.open[k].block as int] is ToolCall);
        }
    }
}

/// The call that a delta goes to is open: one that was, or a new one behind all blocks.
proof fn lemma_ready(r: RunView, call: JsonView)
    requires
        calls_are_kept(r.st),
        r.st.output.content.len() < usize::MAX,
    ensures
        ({
            let w = completions_chunk::tool_ready(r, call);
            let c = completions_chunk::current_finished(r);
            let b = w.st.current.unwrap();
            let at = completions_chunk::open_place(w.st.open, b, 0);
            &&& w.st.current is Some
            &&& at is Some && 0 <= at.unwrap() < w.st.open.len() && w.st.open[at.unwrap()].block
                == b
            &&& if completions_chunk::target(r.st, call) is Some {
                &&& w.st.open == r.st.open
                &&& w.events == r.events || w.events == c.events
            } else {
                &&& b == r.st.output.content.len()
                &&& w.st.open == r.st.open.push(
                    OpenToolView { block: b, args: Seq::empty(), parsed: 0 },
                )
                &&& w.events.len() == c.events.len() + 1
                &&& w.events.drop_last() == c.events
                &&& w.events.last() is ToolcallStart
            }
        }),
{
    reveal(completions_chunk::tool_ready);
    reveal(completions_chunk::target);
    let w = completions_chunk::tool_ready(r, call);
    let b = w.st.current.unwrap();
    let index = json::uint_of(json::member(call, "index"@));
    lemma_current_finished(r);
    lemma_open_place(w.st.open, b, 0);
    if index is Some {
        lemma_indexed(r.st.by_index, index.unwrap(), 0);
    }
    if completions_chunk::filled(call, "id"@) is Some {
        lemma_open_with_id(r.st, completions_chunk::filled(call, "id"@).unwrap(), 0);
    }
    if r.st.current is Some {
        lemma_open_place(r.st.open, r.st.current.unwrap(), 0);
    }
    if completions_chunk::target(r.st, call) is Some {
        assert(is_open(r.st, b)) by {
            if index is Some && completions_chunk::indexed(r.st.by_index, index.unwrap(), 0) is Some {
                let j = choose|j: int|
                    0 <= j < r.st.by_index.len() && #[trigger] r.st.by_index[j] == (
                        index.unwrap(),
                        b,
                    );
                assert(is_open(r.st, r.st.by_index[j].1));
            }
        }
        let k = choose|k: int| 0 <= k < r.st.open.len() && (#[trigger] r.st.open[k]).block == b;
        assert(w.st.open[k].block == b);
    } else {
        assert(w.st.open[w.st.open.len() - 1].block == b);
        assert(w.events.drop_last() =~= completions_chunk::current_finished(r).events);
    }
}

/// Behind a call that is ready to be written to, the same arguments were told.
proof fn lemma_ready_arguments(r: RunView, call: JsonView)
    requires
        arguments_are_kept(r),
        r.st.output.content.len() < usize::MAX,
    ensures
        ({
            let w = completions_chunk::tool_ready(r, call);
            &&& forall|i: int| #[trigger] arguments_told(w.events, i) == arguments_told(r.events, i)
            &&& forall|k: int|
                0 <= k < w.events.len() ==> ends_true(w.events.take(k), #[trigger] w.events[k])
        }),
{
    let w = completions_chunk::tool_ready(r, call);
    let c = completions_chunk::current_finished(r);
    lemma_ready(r, call);
    lemma_current_finished(r);
    lemma_same_calls(r, c);
    if completions_chunk::target(r.st, call) is None {
        assert forall|i: int| true implies #[trigger] arguments_told(w.events, i) == arguments_told(
            r.events,
            i,
        ) by {
            assert(arguments_told(c.events, i) == arguments_told(r.events, i));
        }
        assert forall|k: int| 0 <= k < w.events.len() implies ends_true(
            w.events.take(k),
            #[trigger] w.events[k],
        ) by {
            if k < c.events.len() {
                assert(w.events.take(k) =~= c.events.take(k));
                assert(w.events.drop_last()[k] == c.events[k]);
                assert(w.events[k] == c.events[k]);
            } else {
                assert(w.events[k] == w.events.last());
            }
        }
    }
}

/// Arguments that come as texts add up: behind a delta, what was told of each call is what its
/// open entry holds.
proof fn lemma_delta_arguments(r: RunView, call: JsonView)
    requires
        arguments_are_kept(r),
        r.st.output.content.len() < usize::MAX,
        !(more_arguments(call) matches Some(JsonView::Object(_))),
    ensures
        arguments_are_kept(completions_chunk::tool_delta(r, call)),
        completions_chunk::tool_delta(r, call).st.output.content.len()
            <= r.st.output.content.len() + 1,
{
    law_a_delta_goes_to_its_call(r, call);
    lemma_ready(r, call);
    lemma_ready_arguments(r, call);
    reveal(completions_chunk::tool_delta);
    reveal(completions_chunk::args_after);
    let z = completions_chunk::tool_delta(r, call);
    let w = completions_chunk::tool_ready(r, call);
    let b = z.st.current.unwrap();
    let e = z.events.last();
    assert(z.events.drop_last() =~= w.events);
    assert forall|i: int| true implies #[trigger] arguments_told(z.events, i) == (if i == b {
        arguments_told(r.events, i) + e->ToolcallDelta_delta
    } else {
        arguments_told(r.events, i)
    }) by {
        assert(arguments_told(w.events, i) == arguments_told(r.events, i));
    }
    let at = completions_chunk::open_place(w.st.open, b, 0).unwrap();
    assert(w.st.open[at].args == arguments_told(r.events, b as int)) by {
        if at < r.st.open.len() {
            assert(r.st.open[at] == w.st.open[at]);
            assert(r.st.open[at].args == arguments_told(r.events, r.st.open[at].block as int));
        } else {
            assert(arguments_told(r.events, b as int).len() == 0);
            assert(w.st.open[at].args =~= arguments_told(r.events, b as int));
        }
    }
    assert(w.st.open[at].args + Seq::<char>::empty() =~= w.st.open[at].args);
    assert(z.st.open.len() == w.st.open.len());
    assert(z.st.open[at].block == b);
    assert forall|i: int| 0 <= i < z.st.open.len() implies (#[trigger] z.st.open[i]).args
        == arguments_told(z.events, z.st.open[i].block as int) by {
        if i != at {
            assert(z.st.open[i] == w.st.open[i]);
            assert(z.st.open[i].block != b) by {
                if i < at {
                    assert(z.st.open[i].block != z.st.open[at].block);
                } else {
                    assert(z.st.open[at].block != z.st.open[i].block);
                }
            }
            assert(i < r.st.open.len());
            assert(w.st.open[i] == r.st.open[i]);
            assert(r.st.open[i].args == arguments_told(r.events, r.st.open[i].block as int));
        }
    }
    assert forall|i: int| z.st.output.content.len() <= i implies (#[trigger] arguments_told(
        z.events,
        i,
    )).len() == 0 by {
        assert(arguments_told(r.events, i).len() == 0);
    }
    assert forall|k: int| 0 <= k < z.events.len() implies ends_true(
        z.events.take(k),
        #[trigger] z.events[k],
    ) by {
        if k < w.events.len() {
            assert(z.events.take(k) =~= w.events.take(k));
            assert(z.events.drop_last()[k] == w.events[k]);
        } else {
            assert(z.events[k] == e);
        }
    }
}

/// The deltas of tool calls that a chunk brings.
pub open spec fn call_deltas(chunk: JsonView) -> Seq<JsonView> {
    match crate::chunk_laws::delta_of(chunk) {
        Some(delta) => match json::member(delta, "tool_calls"@) {
            Some(JsonView::Array(calls)) => calls,
            _ => Seq::empty(),
        },
        None => Seq::empty(),
    }
}

proof fn lemma_deltas_arguments(r: RunView, calls: Seq<JsonView>, n: int)
    requires
        arguments_are_kept(r),
        0 <= n <= calls.len(),
        r.st.output.content.len() + n <= usize::MAX,
        forall|i: int|
            0 <= i < calls.len() ==> !(more_arguments(#[trigger] calls[i]) matches Some(
                JsonView::Object(_),
            )),
    ensures
        arguments_are_kept(completions_chunk::tool_deltas(r, calls, n)),
        completions_chunk::tool_deltas(r, calls, n).st.output.content.len()
            <= r.st.output.content.len() + n,
    decreases n,
{
    if n > 0 {
        lemma_deltas_arguments(r, calls, n - 1);
        assert(!(more_arguments(calls[n - 1]) matches Some(JsonView::Object(_))));
        lemma_delta_arguments(completions_chunk::tool_deltas(r, calls, n - 1), calls[n - 1]);
    }
}

/// Through every chunk whose arguments are texts, the open calls hold the arguments that were
/// told of them, piece by piece, and calls that ended were given what all of it stands for.
pub proof fn law_arguments_add_up(r: RunView, chunk: JsonView)
    requires
        arguments_are_kept(r),
        r.st.output.content.len() + 2 + call_deltas(chunk).len() <= usize::MAX,
        forall|i: int|
            0 <= i < call_deltas(chunk).len() ==> !(more_arguments(
                #[trigger] call_deltas(chunk)[i],
            ) matches Some(JsonView::Object(_))),
    ensures
        arguments_are_kept(completions_chunk::handled(r, chunk).0),
{
    reveal(completions_chunk::usage_taken);
    reveal(completions_chunk::names_taken);
    reveal(completions_chunk::finish_taken);
    reveal(completions_chunk::choice_taken);
    reveal(completions_chunk::delta_taken);
    let z = completions_chunk::handled(r, chunk).0;
    assert(r.events.take(r.events.len() as int) =~= r.events);
    if chunk is Object {
        let a = RunView { st: ChunkStateView { saw_frame: true, ..r.st }, ..r };
        lemma_same_calls(r, a);
        if completions_chunk::chunk_error(chunk) is None {
            let b = completions_chunk::usage_taken(
                completions_chunk::names_taken(a, chunk),
                chunk,
            );
            lemma_same_calls(r, b);
            match completions_chunk::first_choice(chunk) {
                None => {},
                Some(choice) => {
                    let known = json::object_of(json::member(chunk, "usage"@)) is Some;
                    let c = completions_chunk::finish_taken(
                        if known {
                            b
                        } else {
                            completions_chunk::usage_taken(b, choice)
                        },
                        choice,
                    );
                    lemma_same_calls(r, c);
                    match json::member(choice, "delta"@) {
                        None => {},
                        Some(delta) => {
                            let d = match completions_chunk::reasoning_of(delta) {
                                Some((s, field)) => completions_chunk::thinking_appended(
                                    c,
                                    s,
                                    field,
                                ),
                                None => c,
                            };
                            match completions_chunk::reasoning_of(delta) {
                                Some((s, field)) => {
                                    lemma_thinking_appended(c, s, field);
                                    lemma_thinking_length(c, s, field);
                                    lemma_same_calls(c, d);
                                },
                                None => {},
                            }
                            let s = completions_chunk::content_of(json::member(delta, "content"@));
                            let e = completions_chunk::text_appended(d, s);
                            lemma_text_appended(d, s);
                            lemma_text_length(d, s);
                            lemma_same_calls(d, e);
                            match json::array_of(json::member(delta, "tool_calls"@)) {
                                Some(calls) => {
                                    assert(calls == call_deltas(chunk));
                                    lemma_deltas_arguments(e, calls, calls.len() as int);
                                },
                                None => {},
                            }
                        },
                    }
                },
            }
        }
    }
}

proof fn lemma_text_length(r: RunView, s: Seq<char>)
    ensures
        completions_chunk::text_appended(r, s).st.output.content.len()
            <= r.st.output.content.len() + 1,
{
    reveal(completions_chunk::text_appended);
    reveal(completions_chunk::text_ready);
    reveal(completions_chunk::text_grown);
    lemma_current_finished(completions_chunk::token_seen(r));
}

proof fn lemma_thinking_length(r: RunView, s: Seq<char>, signature: Seq<char>)
    ensures
        completions_chunk::thinking_appended(r, s, signature).st.output.content.len()
            <= r.st.output.content.len() + 1,
{
    reveal(completions_chunk::thinking_appended);
    reveal(completions_chunk::thinking_ready);
    reveal(completions_chunk::thinking_grown);
    lemma_current_finished(completions_chunk::token_seen(r));
}

/// At the end of a response, every call that was open is given what its arguments stand for.
pub proof fn law_open_calls_are_finished(r: RunView)
    requires
        arguments_are_kept(r),
    ensures
        arguments_are_kept(completions_chunk::concluded(r).0),
        completions_chunk::concluded(r).1 is Ok ==> completions_chunk::concluded(r).0.st.open.len()
            == 0,
{
    let c = completions_chunk::current_finished(r);
    let d = RunView { st: ChunkStateView { current: None, ..c.st }, ..c };
    lemma_current_finished(r);
    lemma_same_calls(r, c);
    assert(c.events.take(c.events.len() as int) =~= c.events);
    lemma_same_calls(c, d);
    lemma_tools_finished(d, d.st.open, d.st.open.len() as int);
    completions_chunk::law_nothing_stays_open(r);
    let a = completions_chunk::all_finished(r);
    let z = completions_chunk::concluded(r).0;
    assert(a.events.take(a.events.len() as int) =~= a.events);
    if z != r {
        lemma_same_calls(a, z);
    }
}

// ------------------------------------------------------------------ ends, usage, errors

/// Which reasons of the wire mean what. A reason that is none of these is an error, and its
/// message names it.
pub proof fn law_what_stop_reasons_mean(reason: Seq<char>)
    ensures
        ({
            let l = text::lower(reason);
            let (stop, error) = completions_chunk::mapped_stop(Some(reason));
            let known = l == "stop"@ || l == "end"@ || l == "length"@ || l == "max_tokens"@ || l
                == "function_call"@ || l == "tool_calls"@;
            &&& l == "stop"@ || l == "end"@ ==> stop == StopReason::Stop
            &&& l == "length"@ || l == "max_tokens"@ ==> stop == StopReason::Length
            &&& l == "function_call"@ || l == "tool_calls"@ ==> stop == StopReason::ToolUse
            &&& known ==> error is None
            &&& !known ==> stop == StopReason::Error && error is Some
            &&& completions_chunk::mapped_stop(None) == (StopReason::Stop, None::<Seq<char>>)
        }),
{
    reveal(completions_chunk::mapped_stop);
    reveal_strlit("stop");
    reveal_strlit("end");
    reveal_strlit("length");
    reveal_strlit("max_tokens");
    reveal_strlit("function_call");
    reveal_strlit("tool_calls");
    assert("stop"@[0] == 's' && "end"@[0] == 'e' && "length"@[0] == 'l');
    assert("max_tokens"@[0] == 'm' && "function_call"@[0] == 'f' && "tool_calls"@[0] == 't');
}

/// A response is finished from the chunk on whose choice gives a reason, and stopped for what
/// this reason means; no other chunk says why it stopped.
pub proof fn law_a_reason_finishes_the_response(r: RunView, choice: JsonView)
    ensures
        ({
            let z = completions_chunk::finish_taken(r, choice);
            match json::member(choice, "finish_reason"@) {
                Some(JsonView::String(s)) => if s.len() > 0 {
                    &&& z.st.finished
                    &&& z.st.output.stop_reason == completions_chunk::mapped_stop(Some(s)).0
                    &&& z.st.output.content == r.st.output.content
                    &&& z.events == r.events
                } else {
                    z == r
                },
                _ => z == r,
            }
        }),
{
    reveal(completions_chunk::finish_taken);
}

/// The tokens that a provider counts, under one name.
pub open spec fn tokens(raw: JsonView, name: Seq<char>) -> Option<u64> {
    match json::member(raw, name) {
        Some(JsonView::Number(NumberView::PosInt(n))) => Some(n),
        _ => None,
    }
}

/// The tokens that a provider counts, under a name in a group.
pub open spec fn tokens_in(raw: JsonView, group: Seq<char>, name: Seq<char>) -> Option<u64> {
    match json::member(raw, group) {
        Some(g) => tokens(g, name),
        None => None,
    }
}

/// What is reported of tokens adds up: the output is what the provider calls completion, what was
/// read from a cache, written to one and neither make up the prompt, and the total is both. A
/// provider that reports neither prompt nor completion reports nothing, and without caches the
/// input is the prompt.
pub proof fn law_tokens_add_up(raw: JsonView)
    ensures
        ({
            let u = completions_chunk::usage_of(raw);
            let prompt = tokens(raw, "prompt_tokens"@);
            let completion = tokens(raw, "completion_tokens"@);
            let read = if u.cache_read is Some {
                u.cache_read.unwrap() as int
            } else {
                0
            };
            let written = if u.cache_write is Some {
                u.cache_write.unwrap() as int
            } else {
                0
            };
            &&& u.output == completion
            &&& u.input is Some <==> prompt is Some
            &&& prompt is Some && read + written <= prompt.unwrap() ==> u.input.unwrap() + read
                + written == prompt.unwrap()
            &&& prompt is Some && read + written > prompt.unwrap() ==> u.input.unwrap() == 0
            &&& u.total_tokens is Some <==> prompt is Some && completion is Some
            &&& prompt is Some && completion is Some && prompt.unwrap() + completion.unwrap()
                <= u64::MAX && read + written <= prompt.unwrap() ==> u.total_tokens.unwrap()
                == prompt.unwrap() + completion.unwrap()
            &&& prompt is Some || completion is Some ==> {
                &&& tokens(raw, "cached_tokens"@) matches Some(n) ==> n > 0 ==> u.cache_read == Some(n)
                &&& tokens(raw, "cached_tokens"@) is None && (tokens(
                    raw,
                    "prompt_cache_hit_tokens"@,
                ) matches Some(n) && n > 0) ==> u.cache_read == tokens(
                    raw,
                    "prompt_cache_hit_tokens"@,
                )
                &&& tokens(raw, "cached_tokens"@) is None && tokens(
                    raw,
                    "prompt_cache_hit_tokens"@,
                ) is None && (tokens_in(
                    raw,
                    "prompt_tokens_details"@,
                    "cached_tokens"@,
                ) matches Some(n) && n > 0) ==> u.cache_read == tokens_in(
                    raw,
                    "prompt_tokens_details"@,
                    "cached_tokens"@,
                )
                &&& tokens_in(
                    raw,
                    "prompt_tokens_details"@,
                    "cache_write_tokens"@,
                ) matches Some(n) ==> u.cache_write == Some(n)
                &&& tokens_in(
                    raw,
                    "completion_tokens_details"@,
                    "reasoning_tokens"@,
                ) matches Some(n) ==> n > 0 ==> u.reasoning_tokens == Some(n)
            }
            &&& prompt is None && completion is None ==> u.input is None && u.output is None
                && u.cache_read is None && u.cache_write is None && u.total_tokens is None
                && u.reasoning_tokens is None && u.cost is None
        }),
{
    reveal(completions_chunk::usage_of);
    let values = completions_chunk::cache_reads(raw);
    reveal_with_fuel(completions_chunk::first_above_zero, 5);
    assert(values.len() == 4);
}

/// The usage of a chunk, where it is an object, is taken over as it is reported.
pub proof fn law_usage_is_taken_over(r: RunView, v: JsonView)
    ensures
        ({
            let z = completions_chunk::usage_taken(r, v);
            match json::member(v, "usage"@) {
                Some(JsonView::Object(o)) => {
                    &&& z.st.saw_usage
                    &&& z.st.output.usage == completions_chunk::usage_of(JsonView::Object(o))
                    &&& z.st.output.content == r.st.output.content
                    &&& z.st.output.stop_reason == r.st.output.stop_reason
                    &&& z.st.finished == r.st.finished
                    &&& z.events == r.events
                },
                _ => z == r,
            }
        }),
{
    reveal(completions_chunk::usage_taken);
}

/// A chunk is an error where it carries one as an object or as a text, or where it is a message
/// without choices; then nothing of it enters the message. The message of the error is told, and
/// the status that its code names.
pub proof fn law_which_chunks_are_errors(r: RunView, chunk: JsonView)
    requires
        chunk is Object,
    ensures
        ({
            let (z, flow) = completions_chunk::handled(r, chunk);
            let e = json::member(chunk, "error"@);
            let carries = (e matches Some(JsonView::Object(_))) || (e matches Some(
                JsonView::String(_),
            ));
            let flat = (json::member(chunk, "message"@) matches Some(JsonView::String(_)))
                && json::member(chunk, "choices"@) is None;
            &&& flow is Err <==> carries || flat
            &&& flow is Err ==> z.events == r.events && z.st.output == r.st.output
            &&& e matches Some(JsonView::String(s)) ==> flow == Err::<
                ChunkFlow,
                ProviderErrorView,
            >(ProviderErrorView::Stream(s))
            &&& e matches Some(v) ==> json::member(v, "message"@) matches Some(JsonView::String(m))
                ==> json::member(v, "code"@) matches Some(
                JsonView::Number(NumberView::PosInt(n)),
            ) ==> 400 <= n <= 599 ==> flow == Err::<ChunkFlow, ProviderErrorView>(
                ProviderErrorView::Http { status: n as u16, detail: m },
            )
        }),
{
    reveal(completions_chunk::chunk_error);
}

/// Reading stops as soon as the response is finished and its usage is known, unless more usage may
/// follow; a chunk without a choice is the last word on usage.
pub proof fn law_when_reading_stops(r: RunView, chunk: JsonView)
    ensures
        ({
            let (z, flow) = completions_chunk::handled(r, chunk);
            let choices = json::member(chunk, "choices"@);
            let chosen = choices matches Some(JsonView::Array(a)) && a.len() > 0;
            &&& !(chunk is Object) ==> z == r && flow == Ok::<ChunkFlow, ProviderErrorView>(
                ChunkFlow::Continue,
            )
            &&& chunk is Object ==> z.st.saw_frame
            &&& chunk is Object && flow is Ok && chosen ==> (flow == Ok::<
                ChunkFlow,
                ProviderErrorView,
            >(ChunkFlow::Break) <==> z.st.finished && z.st.saw_usage && !z.st.await_trailing_usage)
            &&& chunk is Object && flow is Ok && !chosen ==> (flow == Ok::<
                ChunkFlow,
                ProviderErrorView,
            >(ChunkFlow::Break) <==> z.st.finished && z.st.saw_usage)
        }),
{
    reveal(completions_chunk::usage_taken);
    reveal(completions_chunk::names_taken);
    reveal(completions_chunk::finish_taken);
    reveal(completions_chunk::choice_taken);
    lemma_frames_stay(r, chunk);
}

proof fn lemma_frames_stay(r: RunView, chunk: JsonView)
    ensures
        chunk is Object ==> completions_chunk::handled(r, chunk).0.st.saw_frame,
{
    reveal(completions_chunk::usage_taken);
    reveal(completions_chunk::names_taken);
    reveal(completions_chunk::finish_taken);
    reveal(completions_chunk::choice_taken);
    reveal(completions_chunk::delta_taken);
    reveal(completions_chunk::thinking_appended);
    reveal(completions_chunk::thinking_ready);
    reveal(completions_chunk::text_appended);
    reveal(completions_chunk::text_ready);
    if chunk is Object && completions_chunk::chunk_error(chunk) is None {
        let a = RunView { st: ChunkStateView { saw_frame: true, ..r.st }, ..r };
        let b = completions_chunk::usage_taken(completions_chunk::names_taken(a, chunk), chunk);
        match completions_chunk::first_choice(chunk) {
            None => {},
            Some(choice) => {
                let known = json::object_of(json::member(chunk, "usage"@)) is Some;
                let c = completions_chunk::finish_taken(
                    if known {
                        b
                    } else {
                        completions_chunk::usage_taken(b, choice)
                    },
                    choice,
                );
                match json::member(choice, "delta"@) {
                    None => {},
                    Some(delta) => {
                        let d = match completions_chunk::reasoning_of(delta) {
                            Some((s, field)) => completions_chunk::thinking_appended(c, s, field),
                            None => c,
                        };
                        lemma_current_finished(completions_chunk::token_seen(c));
                        assert(d.st.saw_frame);
                        let s = completions_chunk::content_of(json::member(delta, "content"@));
                        let e = completions_chunk::text_appended(d, s);
                        lemma_current_finished(completions_chunk::token_seen(d));
                        assert(e.st.saw_frame);
                        match json::array_of(json::member(delta, "tool_calls"@)) {
                            Some(calls) => lemma_deltas_frame(e, calls, calls.len() as int),
                            None => {},
                        }
                    },
                }
            },
        }
    }
}

proof fn lemma_deltas_frame(r: RunView, calls: Seq<JsonView>, n: int)
    ensures
        completions_chunk::tool_deltas(r, calls, n).st.saw_frame == r.st.saw_frame,
    decreases n,
{
    if n > 0 {
        lemma_deltas_frame(r, calls, n - 1);
        reveal(completions_chunk::tool_delta);
        reveal(completions_chunk::tool_ready);
        lemma_current_finished(completions_chunk::tool_deltas(r, calls, n - 1));
    }
}

/// The end of a stream is an error where nothing told that it is complete: something was said, or
/// nothing at all came. A response that stopped with an error is one too. Every other one is
/// complete, with the reason that it gave, or with the use of tools where it made calls.
pub proof fn law_how_a_response_ends(r: RunView)
    ensures
        ({
            let (z, end) = completions_chunk::concluded(r);
            let open = !r.st.finished && !r.st.saw_done;
            &&& open && (r.st.output.content.len() > 0 || !r.st.saw_frame) ==> end is Err
                && end->Err_0 is Incomplete && z == r
            &&& !(open && (r.st.output.content.len() > 0 || !r.st.saw_frame)) ==> {
                &&& end is Err <==> r.st.output.stop_reason == StopReason::Error
                &&& end is Err ==> end->Err_0 is Stream && (r.st.output.error_message is Some
                    ==> end->Err_0->Stream_0 == r.st.output.error_message.unwrap())
                &&& r.st.output.stop_reason != StopReason::Stop ==> z.st.output.stop_reason
                    == r.st.output.stop_reason
                &&& r.st.output.stop_reason == StopReason::Stop ==> (z.st.output.stop_reason
                    == StopReason::ToolUse || z.st.output.stop_reason == StopReason::Stop)
                &&& r.st.output.stop_reason == StopReason::Stop ==> (z.st.output.stop_reason
                    == StopReason::ToolUse <==> exists|i: int|
                    0 <= i < z.st.output.content.len() && (
                    #[trigger] z.st.output.content[i]) is ToolCall)
            }
        }),
{
    lemma_current_finished(r);
    let c = completions_chunk::current_finished(r);
    let d = RunView { st: ChunkStateView { current: None, ..c.st }, ..c };
    lemma_tools_stop(d, d.st.open, d.st.open.len() as int);
    lemma_some_call(completions_chunk::all_finished(r).st.output.content);
}

proof fn lemma_tools_stop(r: RunView, list: Seq<OpenToolView>, n: int)
    ensures
        ({
            let z = completions_chunk::tools_finished(r, list, n);
            &&& z.st.output.stop_reason == r.st.output.stop_reason
            &&& z.st.output.error_message == r.st.output.error_message
        }),
    decreases n,
{
    reveal(completions_chunk::tool_finished);
    if n > 0 {
        lemma_tools_stop(r, list, n - 1);
    }
}

proof fn lemma_some_call(blocks: Seq<AssistantBlockView>)
    ensures
        crate::types::tool_calls(blocks).len() > 0 <==> exists|i: int|
            0 <= i < blocks.len() && (#[trigger] blocks[i]) is ToolCall,
    decreases blocks.len(),
{
    if blocks.len() > 0 {
        let init = blocks.drop_last();
        lemma_some_call(init);
        if exists|i: int| 0 <= i < blocks.len() && (#[trigger] blocks[i]) is ToolCall {
            let i = choose|i: int| 0 <= i < blocks.len() && (#[trigger] blocks[i]) is ToolCall;
            if i < init.len() {
                assert(init[i] is ToolCall);
            }
        }
        if crate::types::tool_calls(init).len() > 0 {
            let i = choose|i: int| 0 <= i < init.len() && (#[trigger] init[i]) is ToolCall;
            assert(blocks[i] is ToolCall);
        }
        if blocks.last() is ToolCall {
            assert(blocks[blocks.len() - 1] is ToolCall);
        }
    }
}

/// A cost that is reported is taken over as the total, and nothing else is told of the costs; what is
/// not a number tells none.
pub proof fn law_costs_are_taken_as_reported(raw: JsonView, n: crate::json::NumberView)
    requires
        crate::json::uint_of(crate::json::member(raw, "prompt_tokens"@)) is Some
            || crate::json::uint_of(crate::json::member(raw, "completion_tokens"@)) is Some,
    ensures
        crate::json::member(raw, "cost"@) == Some(JsonView::Number(n)) ==> (
        crate::number::float_of(n) matches Some(t) ==> (
        completions_chunk::usage_of(raw).cost matches Some(c) && c.total == t && c.input
            == crate::json::NumberView::Float("0.0"@) && c.output == c.input && c.cache_read
            == c.input && c.cache_write == c.input)),
        !(crate::json::member(raw, "cost"@) matches Some(JsonView::Number(_)))
            ==> completions_chunk::usage_of(raw).cost is None,
{
    reveal(completions_chunk::usage_of);
}

} // verus!
