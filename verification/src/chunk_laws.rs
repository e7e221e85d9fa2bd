//! What the chunks of a response make of a message: that its blocks hold what the events told, and
//! that the events tell what the chunks brought.
use crate::completions_chunk;
use crate::completions_chunk::{ChunkStateView, Events, OpenToolView, RunView};
use crate::event::AssistantMessageEventView;
use crate::json;
use crate::json::JsonView;
use crate::text;
use crate::types::{AssistantBlockView, TextContentView, ThinkingContentView, ToolCallView};
use vstd::prelude::*;

verus! {

/// The text that the events tell of a block, piece by piece.
pub open spec fn text_told(events: Events, i: int) -> Seq<char>
    decreases events.len(),
{
    if events.len() == 0 {
        Seq::empty()
    } else {
        let before = text_told(events.drop_last(), i);
        match events.last() {
            AssistantMessageEventView::TextDelta { content_index, delta, .. } => if content_index
                == i {
                before + delta
            } else {
                before
            },
            _ => before,
        }
    }
}

/// The reasoning that the events tell of a block, piece by piece.
pub open spec fn reasoning_told(events: Events, i: int) -> Seq<char>
    decreases events.len(),
{
    if events.len() == 0 {
        Seq::empty()
    } else {
        let before = reasoning_told(events.drop_last(), i);
        match events.last() {
            AssistantMessageEventView::ThinkingDelta { content_index, delta, .. } => if content_index
                == i {
                before + delta
            } else {
                before
            },
            _ => before,
        }
    }
}

/// All text that the events tell, in whatever block.
pub open spec fn said(events: Events) -> Seq<char>
    decreases events.len(),
{
    if events.len() == 0 {
        Seq::empty()
    } else {
        match events.last() {
            AssistantMessageEventView::TextDelta { delta, .. } => said(events.drop_last()) + delta,
            _ => said(events.drop_last()),
        }
    }
}

/// All reasoning that the events tell, in whatever block.
pub open spec fn thought(events: Events) -> Seq<char>
    decreases events.len(),
{
    if events.len() == 0 {
        Seq::empty()
    } else {
        match events.last() {
            AssistantMessageEventView::ThinkingDelta { delta, .. } => thought(events.drop_last())
                + delta,
            _ => thought(events.drop_last()),
        }
    }
}

/// The block at an index is text, and this text.
pub open spec fn is_text(content: Seq<AssistantBlockView>, i: usize, s: Seq<char>) -> bool {
    i < content.len() && (content[i as int] matches AssistantBlockView::Text(t) && t.text == s)
}

/// The block at an index is reasoning, and this reasoning.
pub open spec fn is_reasoning(content: Seq<AssistantBlockView>, i: usize, s: Seq<char>) -> bool {
    i < content.len() && (content[i as int] matches AssistantBlockView::Thinking(t) && t.thinking
        == s)
}

/// An event tells the truth: its message shows the block as far as it was told, and the end of a
/// block tells all of it.
pub open spec fn honest(before: Events, e: AssistantMessageEventView) -> bool {
    match e {
        AssistantMessageEventView::TextStart { content_index, partial } => is_text(
            partial.content,
            content_index,
            Seq::empty(),
        ) && content_index + 1 == partial.content.len(),
        AssistantMessageEventView::TextDelta { content_index, delta, partial } => is_text(
            partial.content,
            content_index,
            text_told(before, content_index as int) + delta,
        ),
        AssistantMessageEventView::TextEnd { content_index, content, partial } => content
            == text_told(before, content_index as int) && is_text(
            partial.content,
            content_index,
            content,
        ),
        AssistantMessageEventView::ThinkingStart { content_index, partial } => is_reasoning(
            partial.content,
            content_index,
            Seq::empty(),
        ) && content_index + 1 == partial.content.len(),
        AssistantMessageEventView::ThinkingDelta { content_index, delta, partial } => is_reasoning(
            partial.content,
            content_index,
            reasoning_told(before, content_index as int) + delta,
        ),
        AssistantMessageEventView::ThinkingEnd { content_index, content, partial } => content
            == reasoning_told(before, content_index as int) && is_reasoning(
            partial.content,
            content_index,
            content,
        ),
        AssistantMessageEventView::ToolcallStart { content_index, partial } => content_index + 1
            == partial.content.len() && partial.content[content_index as int] is ToolCall,
        AssistantMessageEventView::ToolcallDelta { .. } => true,
        AssistantMessageEventView::ToolcallEnd { content_index, tool_call, partial } => content_index
            < partial.content.len() && partial.content[content_index as int]
            == AssistantBlockView::ToolCall(tool_call),
        _ => true,
    }
}

/// The blocks of the message hold what the events told of them, no more and no less, and every
/// event is honest.
pub open spec fn holds_what_was_told(r: RunView) -> bool {
    let content = r.st.output.content;
    &&& content.len() <= usize::MAX
    &&& forall|i: int|
        0 <= i < content.len() ==> match #[trigger] content[i] {
            AssistantBlockView::Text(t) => t.text == text_told(r.events, i),
            AssistantBlockView::Thinking(t) => t.thinking == reasoning_told(r.events, i),
            _ => true,
        }
    &&& forall|i: int| content.len() <= i ==> (#[trigger] text_told(r.events, i)).len() == 0
    &&& forall|i: int| content.len() <= i ==> (#[trigger] reasoning_told(r.events, i)).len() == 0
    &&& forall|k: int| 0 <= k < r.events.len() ==> honest(r.events.take(k), #[trigger] r.events[k])
}

/// More was told, and all else stands.
spec fn continues(a: RunView, b: RunView, text: Seq<char>, reasoning: Seq<char>) -> bool {
    &&& a.st.output.content.len() <= b.st.output.content.len()
    &&& b.st.output.content.len() <= usize::MAX && holds_what_was_told(a)
        ==> holds_what_was_told(b)
    &&& said(b.events) == said(a.events) + text
    &&& thought(b.events) == thought(a.events) + reasoning
}

proof fn lemma_continues(a: RunView, b: RunView, c: RunView, s: Seq<char>, t: Seq<char>, u: Seq<
    char,
>, v: Seq<char>)
    requires
        continues(a, b, s, u),
        continues(b, c, t, v),
    ensures
        continues(a, c, s + t, u + v),
{
    assert(said(a.events) + s + t =~= said(a.events) + (s + t));
    assert(thought(a.events) + u + v =~= thought(a.events) + (u + v));
}

proof fn lemma_nothing_more(a: RunView, b: RunView, c: RunView, s: Seq<char>, u: Seq<char>)
    requires
        continues(a, b, Seq::empty(), Seq::empty()),
        continues(b, c, s, u),
    ensures
        continues(a, c, s, u),
{
    let none = Seq::<char>::empty();
    lemma_continues(a, b, c, none, s, none, u);
    assert(none + s =~= s);
    assert(none + u =~= u);
}

/// The same message and the same events.
proof fn lemma_still(a: RunView, b: RunView)
    requires
        a.st.output.content == b.st.output.content,
        a.events == b.events,
    ensures
        continues(a, b, Seq::empty(), Seq::empty()),
{
    let none = Seq::<char>::empty();
    assert(said(a.events) + none =~= said(a.events));
    assert(thought(a.events) + none =~= thought(a.events));
}

proof fn lemma_event(r: RunView, e: AssistantMessageEventView)
    requires
        !(e is TextDelta),
        !(e is ThinkingDelta),
        holds_what_was_told(r) ==> honest(r.events, e),
    ensures
        continues(r, completions_chunk::emitted(r, e), Seq::empty(), Seq::empty()),
{
    let b = completions_chunk::emitted(r, e);
    assert(b.events.drop_last() =~= r.events);
    assert(said(r.events) + Seq::<char>::empty() =~= said(r.events));
    assert(thought(r.events) + Seq::<char>::empty() =~= thought(r.events));
    if holds_what_was_told(r) {
        assert forall|i: int| true implies text_told(b.events, i) == #[trigger] text_told(
            r.events,
            i,
        ) by {}
        assert forall|i: int| true implies reasoning_told(b.events, i) == #[trigger] reasoning_told(
            r.events,
            i,
        ) by {}
        let n = b.st.output.content.len();
        assert forall|i: int| n <= i implies (#[trigger] text_told(b.events, i)).len() == 0 by {
            assert(text_told(r.events, i).len() == 0);
        }
        assert forall|i: int| n <= i implies (#[trigger] reasoning_told(b.events, i)).len()
            == 0 by {
            assert(reasoning_told(r.events, i).len() == 0);
        }
        assert forall|k: int| 0 <= k < b.events.len() implies honest(
            b.events.take(k),
            #[trigger] b.events[k],
        ) by {
            if k < r.events.len() {
                assert(b.events.take(k) =~= r.events.take(k));
                assert(honest(r.events.take(k), r.events[k]));
            } else {
                assert(b.events.take(k) =~= r.events);
            }
        }
    }
}

/// A block is pushed or changed in a way that tells nothing.
proof fn lemma_content(r: RunView, content: Seq<AssistantBlockView>)
    requires
        r.st.output.content.len() <= content.len(),
        forall|i: int|
            0 <= i < content.len() && !((#[trigger] content[i]) is ToolCall) ==> if i
                < r.st.output.content.len() {
                content[i] == r.st.output.content[i]
            } else {
                match content[i] {
                    AssistantBlockView::Text(t) => t.text.len() == 0,
                    AssistantBlockView::Thinking(t) => t.thinking.len() == 0,
                    _ => true,
                }
            },
    ensures
        continues(r, completions_chunk::with_content(r, content), Seq::empty(), Seq::empty()),
{
    let b = completions_chunk::with_content(r, content);
    assert(said(r.events) + Seq::<char>::empty() =~= said(r.events));
    assert(thought(r.events) + Seq::<char>::empty() =~= thought(r.events));
    if holds_what_was_told(r) && content.len() <= usize::MAX {
        assert forall|i: int| 0 <= i < content.len() implies match #[trigger] content[i] {
            AssistantBlockView::Text(t) => t.text == text_told(r.events, i),
            AssistantBlockView::Thinking(t) => t.thinking == reasoning_told(r.events, i),
            _ => true,
        } by {
            if i >= r.st.output.content.len() {
                assert(text_told(r.events, i).len() == 0);
                assert(reasoning_told(r.events, i).len() == 0);
                match content[i] {
                    AssistantBlockView::Text(t) => {
                        assert(t.text =~= text_told(r.events, i));
                    },
                    AssistantBlockView::Thinking(t) => {
                        assert(t.thinking =~= reasoning_told(r.events, i));
                    },
                    _ => {},
                }
            } else if !(content[i] is ToolCall) {
                assert(content[i] == r.st.output.content[i]);
            }
        }
    }
}

proof fn lemma_tool_finished(r: RunView, block: usize)
    ensures
        continues(r, completions_chunk::tool_finished(r, block), Seq::empty(), Seq::empty()),
{
    reveal(completions_chunk::tool_finished);
    match completions_chunk::open_place(r.st.open, block, 0) {
        None => {
            lemma_still(r, r);
        },
        Some(k) => {
            let closed = RunView {
                st: ChunkStateView {
                    open: r.st.open.remove(k),
                    by_index: completions_chunk::without_block(r.st.by_index, block),
                    ..r.st
                },
                ..r
            };
            lemma_still(r, closed);
            match completions_chunk::block_at(r.st.output.content, block) {
                Some(AssistantBlockView::ToolCall(c)) => {
                    let call = completions_chunk::with_arguments(c, r.st.open[k].args);
                    let content = r.st.output.content.update(
                        block as int,
                        AssistantBlockView::ToolCall(call),
                    );
                    let w = completions_chunk::with_content(closed, content);
                    lemma_content(closed, content);
                    lemma_nothing_more(r, closed, w, Seq::empty(), Seq::empty());
                    let e = AssistantMessageEventView::ToolcallEnd {
                        content_index: block,
                        tool_call: call,
                        partial: w.st.output,
                    };
                    lemma_event(w, e);
                    lemma_nothing_more(
                        r,
                        w,
                        completions_chunk::emitted(w, e),
                        Seq::empty(),
                        Seq::empty(),
                    );
                },
                _ => {},
            }
        },
    }
}

proof fn lemma_current_finished(r: RunView)
    ensures
        continues(r, completions_chunk::current_finished(r), Seq::empty(), Seq::empty()),
{
    reveal(completions_chunk::current_finished);
    reveal(completions_chunk::block_finished);
    lemma_still(r, r);
    match r.st.current {
        Some(i) => {
            match completions_chunk::block_at(r.st.output.content, i) {
                Some(AssistantBlockView::Text(t)) => {
                    lemma_event(
                        r,
                        AssistantMessageEventView::TextEnd {
                            content_index: i,
                            content: t.text,
                            partial: r.st.output,
                        },
                    );
                },
                Some(AssistantBlockView::Thinking(t)) => {
                    lemma_event(
                        r,
                        AssistantMessageEventView::ThinkingEnd {
                            content_index: i,
                            content: t.thinking,
                            partial: r.st.output,
                        },
                    );
                },
                _ => {},
            }
        },
        None => {},
    }
}

proof fn lemma_tools_finished(r: RunView, list: Seq<OpenToolView>, n: int)
    ensures
        continues(r, completions_chunk::tools_finished(r, list, n), Seq::empty(), Seq::empty()),
    decreases n,
{
    if n > 0 {
        let b = completions_chunk::tools_finished(r, list, n - 1);
        lemma_tools_finished(r, list, n - 1);
        lemma_tool_finished(b, list[n - 1].block);
        lemma_nothing_more(
            r,
            b,
            completions_chunk::tool_finished(b, list[n - 1].block),
            Seq::empty(),
            Seq::empty(),
        );
    } else {
        lemma_still(r, r);
    }
}

proof fn lemma_begun(r: RunView, block: AssistantBlockView)
    requires
        match block {
            AssistantBlockView::Text(t) => t.text.len() == 0,
            AssistantBlockView::Thinking(t) => t.thinking.len() == 0,
            _ => true,
        },
    ensures
        continues(r, completions_chunk::begun(r, block), Seq::empty(), Seq::empty()),
        completions_chunk::begun(r, block).st.output.content == r.st.output.content.push(block),
        completions_chunk::begun(r, block).st.output.content.len() <= usize::MAX
            ==> completions_chunk::begun(r, block).st.current == Some(
            r.st.output.content.len() as usize,
        ) && (r.st.output.content.len() as usize) as int == r.st.output.content.len(),
{
    let content = r.st.output.content.push(block);
    let w = completions_chunk::with_content(r, content);
    lemma_content(r, content);
    lemma_still(w, completions_chunk::begun(r, block));
    lemma_nothing_more(r, w, completions_chunk::begun(r, block), Seq::empty(), Seq::empty());
}

proof fn lemma_text_ready(r: RunView)
    ensures
        ({
            let w = completions_chunk::text_ready(r);
            &&& continues(r, w, Seq::empty(), Seq::empty())
            &&& w.st.output.content.len() <= usize::MAX ==> w.st.current is Some
                && w.st.current.unwrap() < w.st.output.content.len()
                && w.st.output.content[w.st.current.unwrap() as int] is Text
        }),
{
    reveal(completions_chunk::text_ready);
    let w = completions_chunk::text_ready(r);
    if r.st.current is Some && (completions_chunk::block_at(
        r.st.output.content,
        r.st.current.unwrap(),
    ) matches Some(AssistantBlockView::Text(_))) {
        lemma_still(r, r);
    } else {
        let c = completions_chunk::current_finished(r);
        let block = AssistantBlockView::Text(
            TextContentView { text: Seq::empty(), text_signature: None },
        );
        let b = completions_chunk::begun(c, block);
        let e = AssistantMessageEventView::TextStart {
            content_index: b.st.current.unwrap(),
            partial: b.st.output,
        };
        lemma_current_finished(r);
        lemma_begun(c, block);
        lemma_nothing_more(r, c, b, Seq::empty(), Seq::empty());
        lemma_event(b, e);
        lemma_nothing_more(r, b, w, Seq::empty(), Seq::empty());
    }
}

proof fn lemma_thinking_ready(r: RunView, signature: Seq<char>)
    ensures
        ({
            let w = completions_chunk::thinking_ready(r, signature);
            &&& continues(r, w, Seq::empty(), Seq::empty())
            &&& w.st.output.content.len() <= usize::MAX ==> w.st.current is Some
                && w.st.current.unwrap() < w.st.output.content.len()
                && w.st.output.content[w.st.current.unwrap() as int] is Thinking
        }),
{
    reveal(completions_chunk::thinking_ready);
    let w = completions_chunk::thinking_ready(r, signature);
    if completions_chunk::thinks(r.st, signature) {
        lemma_still(r, r);
    } else {
        let c = completions_chunk::current_finished(r);
        let block = AssistantBlockView::Thinking(
            ThinkingContentView { thinking: Seq::empty(), thinking_signature: Some(signature) },
        );
        let b = completions_chunk::begun(c, block);
        let e = AssistantMessageEventView::ThinkingStart {
            content_index: b.st.current.unwrap(),
            partial: b.st.output,
        };
        lemma_current_finished(r);
        lemma_begun(c, block);
        lemma_nothing_more(r, c, b, Seq::empty(), Seq::empty());
        lemma_event(b, e);
        lemma_nothing_more(r, b, w, Seq::empty(), Seq::empty());
    }
}

/// Text is appended to a block, and told.
proof fn lemma_text_told(w: RunView, i: usize, s: Seq<char>)
    requires
        i < w.st.output.content.len(),
        w.st.output.content[i as int] is Text,
    ensures
        ({
            let x = completions_chunk::with_content(
                w,
                completions_chunk::text_grown(w.st.output.content, i, s),
            );
            let e = AssistantMessageEventView::TextDelta {
                content_index: i,
                delta: s,
                partial: x.st.output,
            };
            continues(w, completions_chunk::emitted(x, e), s, Seq::empty())
        }),
{
    reveal(completions_chunk::text_grown);
    let content = w.st.output.content;
    let grown = completions_chunk::text_grown(content, i, s);
    let x = completions_chunk::with_content(w, grown);
    let e = AssistantMessageEventView::TextDelta { content_index: i, delta: s, partial: x.st.output };
    let b = completions_chunk::emitted(x, e);
    assert(b.events.drop_last() =~= w.events);
    assert(thought(w.events) + Seq::<char>::empty() =~= thought(w.events));
    if holds_what_was_told(w) {
        assert forall|j: int| true implies (#[trigger] text_told(b.events, j)) == (if j == i {
            text_told(w.events, j) + s
        } else {
            text_told(w.events, j)
        }) by {}
        assert forall|j: int| true implies (#[trigger] reasoning_told(b.events, j))
            == reasoning_told(w.events, j) by {}
        assert forall|j: int| 0 <= j < grown.len() implies match #[trigger] grown[j] {
            AssistantBlockView::Text(t) => t.text == text_told(b.events, j),
            AssistantBlockView::Thinking(t) => t.thinking == reasoning_told(b.events, j),
            _ => true,
        } by {
            let old = content[j];
            assert(j != i ==> grown[j] == old);
        }
        assert forall|j: int| grown.len() <= j implies (#[trigger] text_told(b.events, j)).len()
            == 0 by {
            assert(text_told(w.events, j).len() == 0);
        }
        assert forall|j: int| grown.len() <= j implies (#[trigger] reasoning_told(
            b.events,
            j,
        )).len() == 0 by {
            assert(reasoning_told(w.events, j).len() == 0);
        }
        assert forall|k: int| 0 <= k < b.events.len() implies honest(
            b.events.take(k),
            #[trigger] b.events[k],
        ) by {
            if k < w.events.len() {
                assert(b.events.take(k) =~= w.events.take(k));
                assert(honest(w.events.take(k), w.events[k]));
            } else {
                assert(b.events.take(k) =~= w.events);
                assert(content[i as int] is Text);
            }
        }
    }
}

/// Reasoning is appended to a block, and told.
proof fn lemma_reasoning_told(w: RunView, i: usize, s: Seq<char>)
    requires
        i < w.st.output.content.len(),
        w.st.output.content[i as int] is Thinking,
    ensures
        ({
            let x = completions_chunk::with_content(
                w,
                completions_chunk::thinking_grown(w.st.output.content, i, s),
            );
            let e = AssistantMessageEventView::ThinkingDelta {
                content_index: i,
                delta: s,
                partial: x.st.output,
            };
            continues(w, completions_chunk::emitted(x, e), Seq::empty(), s)
        }),
{
    reveal(completions_chunk::thinking_grown);
    let content = w.st.output.content;
    let grown = completions_chunk::thinking_grown(content, i, s);
    let x = completions_chunk::with_content(w, grown);
    let e = AssistantMessageEventView::ThinkingDelta {
        content_index: i,
        delta: s,
        partial: x.st.output,
    };
    let b = completions_chunk::emitted(x, e);
    assert(b.events.drop_last() =~= w.events);
    assert(said(w.events) + Seq::<char>::empty() =~= said(w.events));
    if holds_what_was_told(w) {
        assert forall|j: int| true implies (#[trigger] reasoning_told(b.events, j)) == (if j == i {
            reasoning_told(w.events, j) + s
        } else {
            reasoning_told(w.events, j)
        }) by {}
        assert forall|j: int| true implies (#[trigger] text_told(b.events, j)) == text_told(
            w.events,
            j,
        ) by {}
        assert forall|j: int| 0 <= j < grown.len() implies match #[trigger] grown[j] {
            AssistantBlockView::Text(t) => t.text == text_told(b.events, j),
            AssistantBlockView::Thinking(t) => t.thinking == reasoning_told(b.events, j),
            _ => true,
        } by {
            let old = content[j];
            assert(j != i ==> grown[j] == old);
        }
        assert forall|j: int| grown.len() <= j implies (#[trigger] text_told(b.events, j)).len()
            == 0 by {
            assert(text_told(w.events, j).len() == 0);
        }
        assert forall|j: int| grown.len() <= j implies (#[trigger] reasoning_told(
            b.events,
            j,
        )).len() == 0 by {
            assert(reasoning_told(w.events, j).len() == 0);
        }
        assert forall|k: int| 0 <= k < b.events.len() implies honest(
            b.events.take(k),
            #[trigger] b.events[k],
        ) by {
            if k < w.events.len() {
                assert(b.events.take(k) =~= w.events.take(k));
                assert(honest(w.events.take(k), w.events[k]));
            } else {
                assert(b.events.take(k) =~= w.events);
                assert(content[i as int] is Thinking);
            }
        }
    }
}

/// More text continues the message, as far as its blocks can be counted.
spec fn reaches(a: RunView, b: RunView, text: Seq<char>, reasoning: Seq<char>) -> bool {
    &&& a.st.output.content.len() <= b.st.output.content.len()
    &&& b.st.output.content.len() <= usize::MAX ==> continues(a, b, text, reasoning)
}

proof fn lemma_reaches(a: RunView, b: RunView, c: RunView, s: Seq<char>, t: Seq<char>, u: Seq<
    char,
>, v: Seq<char>)
    requires
        reaches(a, b, s, u),
        reaches(b, c, t, v),
    ensures
        reaches(a, c, s + t, u + v),
{
    if c.st.output.content.len() <= usize::MAX {
        lemma_continues(a, b, c, s, t, u, v);
    }
}

proof fn lemma_text_appended(r: RunView, s: Seq<char>)
    ensures
        reaches(r, completions_chunk::text_appended(r, s), s, Seq::empty()),
{
    reveal(completions_chunk::text_appended);
    reveal(completions_chunk::text_grown);
    let x = completions_chunk::text_appended(r, s);
    if s.len() == 0 {
        lemma_still(r, r);
        assert(s =~= Seq::empty());
    } else {
        let t = completions_chunk::token_seen(r);
        let w = completions_chunk::text_ready(t);
        lemma_still(r, t);
        lemma_text_ready(t);
        lemma_nothing_more(r, t, w, Seq::empty(), Seq::empty());
        if x.st.output.content.len() <= usize::MAX {
            lemma_text_told(w, w.st.current.unwrap(), s);
            lemma_nothing_more(r, w, x, s, Seq::empty());
        }
    }
}

proof fn lemma_thinking_appended(r: RunView, s: Seq<char>, signature: Seq<char>)
    ensures
        reaches(r, completions_chunk::thinking_appended(r, s, signature), Seq::empty(), s),
{
    reveal(completions_chunk::thinking_appended);
    reveal(completions_chunk::thinking_grown);
    let x = completions_chunk::thinking_appended(r, s, signature);
    let t = completions_chunk::token_seen(r);
    let w = completions_chunk::thinking_ready(t, signature);
    lemma_still(r, t);
    lemma_thinking_ready(t, signature);
    lemma_nothing_more(r, t, w, Seq::empty(), Seq::empty());
    if x.st.output.content.len() <= usize::MAX {
        lemma_reasoning_told(w, w.st.current.unwrap(), s);
        lemma_nothing_more(r, w, x, Seq::empty(), s);
    }
}

proof fn lemma_tool_ready(r: RunView, call: JsonView)
    ensures
        continues(r, completions_chunk::tool_ready(r, call), Seq::empty(), Seq::empty()),
{
    reveal(completions_chunk::tool_ready);
    let z = completions_chunk::tool_ready(r, call);
    let c = completions_chunk::current_finished(r);
    lemma_current_finished(r);
    match completions_chunk::target(r.st, call) {
        Some(block) => {
            let d = if r.st.current != Some(block) {
                c
            } else {
                r
            };
            lemma_still(r, r);
            lemma_still(d, z);
            lemma_nothing_more(r, d, z, Seq::empty(), Seq::empty());
        },
        None => {
            let id = completions_chunk::filled(call, "id"@);
            let name = completions_chunk::function_text(call, "name"@);
            let block = AssistantBlockView::ToolCall(
                ToolCallView {
                    id: if id is Some {
                        id.unwrap()
                    } else {
                        Seq::empty()
                    },
                    name: if name is Some {
                        name.unwrap()
                    } else {
                        Seq::empty()
                    },
                    arguments: Seq::empty(),
                    thought_signature: None,
                },
            );
            let w = completions_chunk::begun(c, block);
            lemma_begun(c, block);
            lemma_nothing_more(r, c, w, Seq::empty(), Seq::empty());
            let x = RunView { st: z.st, events: w.events };
            lemma_still(w, x);
            lemma_nothing_more(r, w, x, Seq::empty(), Seq::empty());
            lemma_event(
                x,
                AssistantMessageEventView::ToolcallStart {
                    content_index: w.st.current.unwrap(),
                    partial: x.st.output,
                },
            );
            lemma_nothing_more(r, x, z, Seq::empty(), Seq::empty());
        },
    }
}

proof fn lemma_tool_delta(r: RunView, call: JsonView)
    ensures
        continues(r, completions_chunk::tool_delta(r, call), Seq::empty(), Seq::empty()),
{
    reveal(completions_chunk::tool_delta);
    reveal(completions_chunk::call_changed);
    let w = completions_chunk::tool_ready(r, call);
    let z = completions_chunk::tool_delta(r, call);
    lemma_tool_ready(r, call);
    let x = RunView {
        st: ChunkStateView { output: w.st.output, ..z.st },
        events: w.events,
    };
    lemma_still(w, x);
    lemma_nothing_more(r, w, x, Seq::empty(), Seq::empty());
    let y = completions_chunk::with_content(x, z.st.output.content);
    lemma_content(x, z.st.output.content);
    lemma_nothing_more(r, x, y, Seq::empty(), Seq::empty());
    let e = z.events.last();
    assert(z.events =~= y.events.push(e));
    lemma_event(y, e);
    assert(completions_chunk::emitted(y, e) == z);
    lemma_nothing_more(r, y, z, Seq::empty(), Seq::empty());
}

proof fn lemma_tool_deltas(r: RunView, calls: Seq<JsonView>, n: int)
    ensures
        continues(r, completions_chunk::tool_deltas(r, calls, n), Seq::empty(), Seq::empty()),
    decreases n,
{
    if n > 0 {
        let b = completions_chunk::tool_deltas(r, calls, n - 1);
        lemma_tool_deltas(r, calls, n - 1);
        lemma_tool_delta(b, calls[n - 1]);
        lemma_nothing_more(
            r,
            b,
            completions_chunk::tool_delta(b, calls[n - 1]),
            Seq::empty(),
            Seq::empty(),
        );
    } else {
        lemma_still(r, r);
    }
}

/// The text that a delta brings: its content, as a text or in parts.
pub open spec fn brought_text(delta: JsonView) -> Seq<char> {
    match json::member(delta, "content"@) {
        Some(JsonView::String(s)) => s,
        Some(JsonView::Array(parts)) => brought_by_parts(parts),
        _ => Seq::empty(),
    }
}

/// The texts of the parts that are texts or have one, from the first to the last.
pub open spec fn brought_by_parts(parts: Seq<JsonView>) -> Seq<char>
    decreases parts.len(),
{
    if parts.len() == 0 {
        Seq::empty()
    } else {
        (match parts[0] {
            JsonView::String(s) => s,
            part => match json::member(part, "text"@) {
                Some(JsonView::String(s)) => s,
                _ => Seq::empty(),
            },
        }) + brought_by_parts(parts.skip(1))
    }
}

/// A member that is a text with something in it.
pub open spec fn has_text(v: JsonView, key: Seq<char>) -> bool {
    json::member(v, key) matches Some(JsonView::String(s)) && s.len() > 0
}

/// The reasoning that a delta brings, under the first of the names that providers use.
pub open spec fn brought_reasoning(delta: JsonView) -> Seq<char> {
    if has_text(delta, "reasoning_content"@) {
        json::member(delta, "reasoning_content"@).unwrap()->String_0
    } else if has_text(delta, "reasoning"@) {
        json::member(delta, "reasoning"@).unwrap()->String_0
    } else if has_text(delta, "reasoning_text"@) {
        json::member(delta, "reasoning_text"@).unwrap()->String_0
    } else {
        Seq::empty()
    }
}

proof fn lemma_parts(parts: Seq<JsonView>)
    ensures
        completions_chunk::parts_text(parts) == brought_by_parts(parts),
    decreases parts.len(),
{
    if parts.len() == 1 {
        let none = parts.drop_last();
        assert(none.len() == 0);
        assert(parts.skip(1).len() == 0);
        assert(completions_chunk::parts_text(none) =~= Seq::empty());
        assert(completions_chunk::parts_text(parts) =~= completions_chunk::part_text(parts[0]));
        assert(brought_by_parts(parts.skip(1)) =~= Seq::empty());
        assert(brought_by_parts(parts) =~= completions_chunk::part_text(parts[0]));
    } else if parts.len() > 1 {
        let first = parts[0];
        let mid = parts.skip(1).drop_last();
        lemma_parts(parts.drop_last());
        lemma_parts(parts.skip(1));
        lemma_parts(mid);
        assert(parts.drop_last().skip(1) =~= mid);
        assert(parts.skip(1).last() == parts.last());
        assert(parts.drop_last()[0] == first);
        let head = brought_by_parts(seq![first]);
        let p = completions_chunk::part_text(first);
        assert(brought_by_parts(parts.drop_last()) == p + brought_by_parts(mid));
        assert(completions_chunk::parts_text(parts.skip(1)) == completions_chunk::parts_text(mid)
            + completions_chunk::part_text(parts.last()));
        assert(completions_chunk::parts_text(parts) =~= p + brought_by_parts(parts.skip(1)));
    }
}

/// The delta of the choice that counts.
pub open spec fn delta_of(chunk: JsonView) -> Option<JsonView> {
    match json::member(chunk, "choices"@) {
        Some(JsonView::Array(choices)) => if choices.len() > 0 {
            json::member(choices[0], "delta"@)
        } else {
            None
        },
        _ => None,
    }
}

/// A chunk that is no error tells exactly the text and the reasoning that its delta brings; every
/// other chunk tells none. The blocks go on holding what was told of them, and what the events
/// tell stays true.
pub proof fn law_a_chunk_tells_what_it_brings(r: RunView, chunk: JsonView)
    requires
        completions_chunk::handled(r, chunk).0.st.output.content.len() <= usize::MAX,
    ensures
        ({
            let (b, flow) = completions_chunk::handled(r, chunk);
            let brings = flow is Ok && chunk is Object && delta_of(chunk) is Some;
            let text = if brings {
                brought_text(delta_of(chunk).unwrap())
            } else {
                Seq::empty()
            };
            let reasoning = if brings {
                brought_reasoning(delta_of(chunk).unwrap())
            } else {
                Seq::empty()
            };
            &&& said(b.events) == said(r.events) + text
            &&& thought(b.events) == thought(r.events) + reasoning
            &&& holds_what_was_told(r) ==> holds_what_was_told(b)
        }),
{
    reveal(completions_chunk::usage_taken);
    reveal(completions_chunk::names_taken);
    reveal(completions_chunk::finish_taken);
    reveal(completions_chunk::choice_taken);
    reveal(completions_chunk::delta_taken);
    let (z, flow) = completions_chunk::handled(r, chunk);
    let none = Seq::<char>::empty();
    lemma_still(r, r);
    if chunk is Object {
        let a = RunView { st: ChunkStateView { saw_frame: true, ..r.st }, ..r };
        lemma_still(r, a);
        if completions_chunk::chunk_error(chunk) is None {
            let b = completions_chunk::usage_taken(
                completions_chunk::names_taken(a, chunk),
                chunk,
            );
            lemma_still(r, b);
            match completions_chunk::first_choice(chunk) {
                None => {},
                Some(choice) => {
                    let known = json::object_of(json::member(chunk, "usage"@)) is Some;
                    let c = completions_chunk::finish_taken(
                        if known {
                            b
                        } else {
                            completions_chunk::usage_taken(b, choice)
                        },
                        choice,
                    );
                    lemma_still(r, c);
                    match json::member(choice, "delta"@) {
                        None => {},
                        Some(delta) => {
                            let reasoning = brought_reasoning(delta);
                            let d = match completions_chunk::reasoning_of(delta) {
                                Some((s, field)) => completions_chunk::thinking_appended(
                                    c,
                                    s,
                                    field,
                                ),
                                None => c,
                            };
                            match completions_chunk::reasoning_of(delta) {
                                Some((s, field)) => {
                                    lemma_thinking_appended(c, s, field);
                                    assert(s == reasoning);
                                },
                                None => {
                                    lemma_still(c, c);
                                },
                            }
                            assert(reaches(c, d, none, reasoning));
                            let content = json::member(delta, "content"@);
                            let s = completions_chunk::content_of(content);
                            match content {
                                Some(JsonView::Array(parts)) => lemma_parts(parts),
                                _ => {},
                            }
                            assert(s == brought_text(delta));
                            let e = completions_chunk::text_appended(d, s);
                            lemma_text_appended(d, s);
                            lemma_reaches(c, d, e, none, s, reasoning, none);
                            match json::array_of(json::member(delta, "tool_calls"@)) {
                                Some(calls) => {
                                    lemma_tool_deltas(e, calls, calls.len() as int);
                                },
                                None => {
                                    lemma_still(e, e);
                                },
                            }
                            lemma_reaches(c, e, z, none + s, none, reasoning + none, none);
                            lemma_reaches(r, c, z, none, none + s + none, none, reasoning + none
                                + none);
                            assert(none + (none + s + none) =~= s);
                            assert(none + (reasoning + none + none) =~= reasoning);
                        },
                    }
                },
            }
        }
    }
}

/// The end of a response tells no further text and no further reasoning, and the blocks of its
/// message hold what was told of them.
pub proof fn law_the_end_tells_nothing_new(r: RunView)
    requires
        r.st.output.content.len() <= usize::MAX,
    ensures
        said(completions_chunk::concluded(r).0.events) == said(r.events),
        thought(completions_chunk::concluded(r).0.events) == thought(r.events),
        holds_what_was_told(r) ==> holds_what_was_told(completions_chunk::concluded(r).0),
        completions_chunk::concluded(r).0.st.output.content.len() == r.st.output.content.len(),
{
    let none = Seq::<char>::empty();
    let c = completions_chunk::current_finished(r);
    let d = RunView { st: ChunkStateView { current: None, ..c.st }, ..c };
    let a = completions_chunk::all_finished(r);
    lemma_current_finished(r);
    lemma_still(c, d);
    lemma_nothing_more(r, c, d, none, none);
    lemma_tools_finished(d, d.st.open, d.st.open.len() as int);
    lemma_nothing_more(r, d, a, none, none);
    assert(said(r.events) + none =~= said(r.events));
    assert(thought(r.events) + none =~= thought(r.events));
    lemma_current_length(r);
    lemma_tools_length(d, d.st.open, d.st.open.len() as int);
    let z = completions_chunk::concluded(r).0;
    if z.events == a.events && z.st.output.content == a.st.output.content {
        lemma_still(a, z);
    }
}

proof fn lemma_current_length(r: RunView)
    ensures
        completions_chunk::current_finished(r).st.output.content == r.st.output.content,
{
    reveal(completions_chunk::current_finished);
    reveal(completions_chunk::block_finished);
}

proof fn lemma_tools_length(r: RunView, list: Seq<OpenToolView>, n: int)
    ensures
        completions_chunk::tools_finished(r, list, n).st.output.content.len()
            == r.st.output.content.len(),
    decreases n,
{
    reveal(completions_chunk::tool_finished);
    if n > 0 {
        lemma_tools_length(r, list, n - 1);
    }
}

} // verus!
