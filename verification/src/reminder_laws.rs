//! When the model is told of the date and the working directory, and where.
use crate::reminder;
use crate::reminder::{PlacementView, ReminderView};
use crate::same;
use crate::text;
use crate::text::Space;
use crate::types::{ContextView, MessageView, UserBlockView, UserContentView, UserMessageView};
use vstd::prelude::*;

verus! {

/// A reminder is put in front of a message, which then starts with it, and is otherwise kept.
pub proof fn law_a_reminder_stands_in_front(m: UserMessageView, told: Seq<char>)
    ensures
        ({
            let n = reminder::injected(m, told);
            &&& reminder::starts_with_reminder(n, told)
            &&& n.timestamp == m.timestamp
            &&& match m.content {
                UserContentView::Text(t) => n.content == UserContentView::Text(
                    told + "\n\n"@ + t,
                ),
                UserContentView::Blocks(b) => n.content matches UserContentView::Blocks(c)
                    && c.len() == b.len() + 1 && c.skip(1) == b && (
                c[0] matches UserBlockView::Text(t) && t.text == told),
            }
            &&& n == (UserMessageView { content: n.content, ..m })
        }),
{
    match m.content {
        UserContentView::Text(t) => {
            assert((told + "\n\n"@ + t).subrange(0, told.len() as int) =~= told);
        },
        UserContentView::Blocks(b) => {
            let n = reminder::injected(m, told);
            assert(n.content->Blocks_0.skip(1) =~= b);
        },
    }
}

/// What is told is what was rendered, or else a plain text with the date and the directory.
pub proof fn law_what_a_reminder_says(
    rendered: Result<Seq<char>, Seq<char>>,
    date: Seq<char>,
    cwd: Seq<char>,
)
    ensures
        rendered matches Ok(s) ==> reminder::reminder_from(rendered, date, cwd) == text::trim(
            Space::Js,
            s,
        ),
        rendered is Err ==> reminder::reminder_from(rendered, date, cwd) == text::trim(
            Space::Js,
            "<system-reminder>\nToday: "@ + date + "; current working directory: '"@ + cwd
                + "'.\n</system-reminder>"@,
        ),
{
}

proof fn lemma_first_user(messages: Seq<MessageView>, i: int)
    requires
        0 <= i <= messages.len(),
    ensures
        match reminder::first_user(messages, i) {
            Some(k) => i <= k < messages.len() && messages[k] is User && forall|j: int|
                i <= j < k ==> !((#[trigger] messages[j]) is User),
            None => forall|j: int| i <= j < messages.len() ==> !((#[trigger] messages[j]) is User),
        },
    decreases messages.len() - i,
{
    if i < messages.len() && !(messages[i] is User) {
        lemma_first_user(messages, i + 1);
    }
}

proof fn lemma_told_at(injections: Seq<PlacementView>, messages: Seq<MessageView>)
    ensures
        ({
            let told = reminder::told_messages(injections, Seq::empty(), messages);
            &&& told.len() == messages.len()
            &&& forall|i: int|
                0 <= i < messages.len() ==> #[trigger] told[i] == reminder::told_for(
                    injections,
                    i,
                    messages[i],
                )
        }),
    decreases messages.len(),
{
    if messages.len() > 0 {
        lemma_told_at(injections, messages.drop_last());
        let n = messages.len() - 1;
        assert(reminder::told_behind(Seq::empty(), n, messages.last()).len() == 0);
    }
}

/// The first request of a conversation tells the reminder with the first message of the user,
/// unless that starts with it already. Every other message goes out as it is.
pub proof fn law_the_first_request_tells_the_reminder(
    c: ContextView,
    told: Seq<char>,
    now: i64,
    first: int,
)
    requires
        c.system_prompt.len() > 0,
        0 <= first < c.messages.len() <= usize::MAX,
        c.messages[first] is User,
        forall|j: int| 0 <= j < first ==> !((#[trigger] c.messages[j]) is User),
    ensures
        ({
            let out = reminder::reminded(reminder::nothing_told(), c, told, now).1;
            let user = c.messages[first]->User_0;
            &&& out.len() == c.messages.len()
            &&& forall|i: int|
                0 <= i < out.len() && i != first ==> #[trigger] out[i] == c.messages[i]
            &&& reminder::starts_with_reminder(user, told) ==> out[first] == c.messages[first]
            &&& !reminder::starts_with_reminder(user, told) ==> out[first] == MessageView::User(
                reminder::injected(user, told),
            )
        }),
{
    lemma_first_user(c.messages, 0);
    assert(reminder::first_user(c.messages, 0) == Some(first));
    let s = reminder::settled(reminder::nothing_told(), c.messages, first, told, now);
    lemma_told_at(s.injections, c.messages);
    let user = c.messages[first]->User_0;
    let out = reminder::reminded(reminder::nothing_told(), c, told, now).1;
    reveal_with_fuel(reminder::told_for, 3);
    if !reminder::starts_with_reminder(user, told) {
        let p = s.injections[0];
        assert(s.injections.drop_last() =~= Seq::empty());
        assert(same::same_message(p.original, c.messages[first]));
        assert(p.index == first);
        assert(reminder::belongs(p, first, c.messages[first]));
    }
    assert forall|i: int| 0 <= i < out.len() && i != first implies #[trigger] out[i]
        == c.messages[i] by {
        if !reminder::starts_with_reminder(user, told) {
            assert(!reminder::belongs(s.injections[0], i, c.messages[i]));
        }
    }
}

/// As long as the conversation goes on and there is nothing new to tell, nothing is told anew: the
/// placements stay what they were.
pub proof fn law_the_same_is_not_told_twice(
    st: ReminderView,
    c: ContextView,
    told: Seq<char>,
    now: i64,
)
    requires
        c.system_prompt.len() > 0,
        reminder::first_user(c.messages, 0) matches Some(first) && st.root == Some(
            (first as usize, c.messages[first]->User_0),
        ),
        st.current == Some(told),
    ensures
        ({
            let next = reminder::reminded(st, c, told, now).0;
            &&& next.injections == st.injections && next.controls == st.controls
            &&& next.current == st.current && next.root == st.root
            &&& next.seen == c.messages
        }),
{
}

proof fn lemma_last_new(messages: Seq<MessageView>, seen: Seq<MessageView>, n: int)
    requires
        0 <= n <= messages.len(),
    ensures
        match reminder::last_new_user(messages, seen, n) {
            Some(i) => 0 <= i < n && messages[i] is User && !(i < seen.len() && seen[i]
                == messages[i]) && forall|j: int|
                i < j < n && (#[trigger] messages[j]) is User ==> j < seen.len() && seen[j]
                    == messages[j],
            None => forall|j: int|
                0 <= j < n && (#[trigger] messages[j]) is User ==> j < seen.len() && seen[j]
                    == messages[j],
        },
    decreases n,
{
    if n > 0 {
        let m = messages[n - 1];
        assert(m is User && n - 1 < seen.len() ==> (same::same_message(seen[n - 1], m) <==> seen[n
            - 1] == m));
        if !(m is User && !reminder::was_seen(seen, n - 1, m)) {
            lemma_last_new(messages, seen, n - 1);
        }
    }
}

/// Something new is told with the last message of the user that was not sent before; where there
/// is none, it is told as a note of its own behind the last message. What was placed before stays
/// where it is.
pub proof fn law_where_something_new_is_told(
    st: ReminderView,
    c: ContextView,
    told: Seq<char>,
    now: i64,
)
    requires
        c.system_prompt.len() > 0,
        c.messages.len() <= usize::MAX,
        reminder::first_user(c.messages, 0) matches Some(first) && st.root == Some(
            (first as usize, c.messages[first]->User_0),
        ),
        st.current != Some(told),
    ensures
        ({
            let next = reminder::reminded(st, c, told, now).0;
            let more = next.injections.len() > st.injections.len();
            &&& next.current == Some(told)
            &&& next.injections.take(st.injections.len() as int) == st.injections
            &&& next.controls.take(st.controls.len() as int) == st.controls
            &&& more ==> {
                let p = next.injections.last();
                let i = p.index as int;
                &&& next.injections.len() == st.injections.len() + 1
                &&& next.controls == st.controls
                &&& i < c.messages.len() && c.messages[i] is User && p.original == c.messages[i]
                &&& !(i < st.seen.len() && st.seen[i] == c.messages[i])
                &&& p.told == MessageView::User(reminder::injected(c.messages[i]->User_0, told))
                &&& forall|j: int|
                    i < j < c.messages.len() && (#[trigger] c.messages[j]) is User ==> j
                        < st.seen.len() && st.seen[j] == c.messages[j]
            }
            &&& !more ==> {
                let p = next.controls.last();
                &&& next.injections == st.injections
                &&& next.controls.len() == st.controls.len() + 1
                &&& p.index == c.messages.len() - 1 && p.original == c.messages.last()
                &&& (p.told matches MessageView::Developer(d) && d.content == UserContentView::Text(
                    told,
                ) && d.timestamp == now)
                &&& forall|j: int|
                    0 <= j < c.messages.len() && (#[trigger] c.messages[j]) is User ==> j
                        < st.seen.len() && st.seen[j] == c.messages[j]
            }
        }),
{
    lemma_first_user(c.messages, 0);
    lemma_last_new(c.messages, st.seen, c.messages.len() as int);
    let next = reminder::reminded(st, c, told, now).0;
    assert(next.injections.take(st.injections.len() as int) =~= st.injections);
    assert(next.controls.take(st.controls.len() as int) =~= st.controls);
}

/// Messages are the same where they hold the same: those of users and developers as they are, those
/// of the assistant by their blocks and their further fields, results by their calls and contents.
/// Messages of different kinds never are.
pub proof fn law_which_messages_are_the_same(a: MessageView, b: MessageView)
    ensures
        a is User || a is Developer || b is User || b is Developer ==> (same::same_message(a, b)
            <==> a == b),
        a is Assistant && b is ToolResult ==> !same::same_message(a, b),
        a is ToolResult && b is Assistant ==> !same::same_message(a, b),
        same::same_message(a, b) ==> (a matches MessageView::ToolResult(x) ==> (
        b matches MessageView::ToolResult(y) && x.tool_call_id == y.tool_call_id && x.content
            == y.content && x.is_error == y.is_error && x.timestamp == y.timestamp)),
        same::same_message(a, b) ==> (a matches MessageView::Assistant(x) ==> (
        b matches MessageView::Assistant(y) && x.content.len() == y.content.len() && x.stop_reason
            == y.stop_reason && x.timestamp == y.timestamp && x.model == y.model
            && x.error_message == y.error_message && x.response_id == y.response_id)),
{
}

/// A call, and every other block, is the same only as one that holds the same.
pub proof fn law_which_blocks_are_the_same(
    x: crate::types::AssistantMessageView,
    y: crate::types::AssistantMessageView,
    i: int,
)
    requires
        same::same_message(MessageView::Assistant(x), MessageView::Assistant(y)),
        0 <= i < x.content.len(),
    ensures
        match x.content[i] {
            crate::types::AssistantBlockView::ToolCall(c) => {
                y.content[i] matches crate::types::AssistantBlockView::ToolCall(d) && c.id == d.id
                    && c.name == d.name
            },
            _ => x.content[i] == y.content[i],
        },
        x.usage.input == y.usage.input && x.usage.output == y.usage.output
            && x.usage.total_tokens == y.usage.total_tokens,
{
    assert(same::same_block(x.content[i], y.content[i]));
}

} // verus!
