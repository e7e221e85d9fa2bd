//! Repair of a transcript before it is sent to a provider.
//!
//! Every assistant tool call comes to be followed at once by exactly one result, also where an
//! earlier turn made a call with the same id. Calls of one turn that share an id share one
//! result, since nothing could tell their results apart. A missing result becomes
//! `No result provided`, or `aborted` after a turn that failed or was aborted. A second result
//! for a call is dropped. A result whose call is gone is turned into a
//! user-role note, so that stale tool output never gains priority. A truncated assistant turn
//! with neither text nor tool calls is dropped.
use crate::text;
use crate::text::{contains_text, is_blank, join_strings, same_text, Space};
use crate::types;
use crate::types::{
    now_ms, AssistantBlock, AssistantBlockView, AssistantMessage, AssistantMessageView, Message,
    MessageView, StopReason, TextContentView, ToolCall, ToolCallView, ToolResultMessage,
    ToolResultMessageView, UserBlock, UserBlockView, UserContent, UserContentView, UserMessage,
    UserMessageView,
};
use vstd::prelude::*;

verus! {

// ------------------------------------------------------------------ what is said of one message

/// Whether a block shows text or calls a tool.
pub open spec fn has_substance(b: AssistantBlockView) -> bool {
    match b {
        AssistantBlockView::Text(t) => !text::all_space(Space::Unicode, t.text),
        AssistantBlockView::ToolCall(_) => true,
        _ => false,
    }
}

/// A turn that was cut off before it said anything.
pub open spec fn truncated_empty(m: AssistantMessageView) -> bool {
    &&& m.stop_reason == StopReason::Length || m.stop_reason == StopReason::Error || m.stop_reason
        == StopReason::Aborted
    &&& forall|i: int| 0 <= i < m.content.len() ==> !has_substance(#[trigger] m.content[i])
}

/// The result that stands in for a missing one.
pub open spec fn stand_in(call: ToolCallView, note: Seq<char>, timestamp: i64) -> MessageView {
    MessageView::ToolResult(
        ToolResultMessageView {
            tool_call_id: call.id,
            tool_name: call.name,
            content: seq![
                UserBlockView::Text(TextContentView { text: note, text_signature: None }),
            ],
            details: None,
            is_error: true,
            timestamp,
        },
    )
}

/// The tool calls of a message.
pub open spec fn calls_of(m: MessageView) -> Seq<ToolCallView> {
    match m {
        MessageView::Assistant(a) => types::tool_calls(a.content),
        _ => Seq::empty(),
    }
}

/// Whether some call of the list has the id.
pub open spec fn has_call(calls: Seq<ToolCallView>, id: Seq<char>) -> bool {
    exists|i: int| 0 <= i < calls.len() && (#[trigger] calls[i]).id == id
}

/// Whether some assistant message of the transcript made a call with the id.
pub open spec fn known_call(messages: Seq<MessageView>, id: Seq<char>) -> bool {
    exists|k: int| 0 <= k < messages.len() && has_call(calls_of(#[trigger] messages[k]), id)
}

/// The text blocks that are not blank.
pub open spec fn shown_texts(blocks: Seq<UserBlockView>) -> Seq<Seq<char>>
    decreases blocks.len(),
{
    if blocks.len() == 0 {
        Seq::empty()
    } else {
        let rest = shown_texts(blocks.drop_last());
        match blocks.last() {
            UserBlockView::Text(t) => if text::all_space(Space::Unicode, t.text) {
                rest
            } else {
                rest.push(t.text)
            },
            UserBlockView::Image(_) => rest,
        }
    }
}

/// The user note that a result without its call is turned into.
pub open spec fn stale_note(r: ToolResultMessageView) -> MessageView {
    MessageView::User(
        UserMessageView {
            content: UserContentView::Text(
                "<stale-tool-result tool=\""@ + r.tool_name + "\" id=\""@ + r.tool_call_id + "\""@ + (
                if r.is_error {
                    " is-error=\"true\""@
                } else {
                    ""@
                }) + ">\n"@ + text::join(shown_texts(r.content), "\n"@)
                    + "\n</stale-tool-result>"@,
            ),
            synthetic: None,
            timestamp: r.timestamp,
        },
    )
}

// ------------------------------------------------------------------ the repair

/// Where the repair stands after some messages.
#[verifier::ext_equal]
pub struct RepairView {
    /// What has been written.
    pub out: Seq<MessageView>,
    /// The calls of the last turn, where it ended well.
    pub pending: Seq<ToolCallView>,
    /// The calls of the last turn that wait for a result, where it failed.
    pub aborted: Seq<ToolCallView>,
    /// When the last turn failed.
    pub aborted_at: Option<i64>,
    /// The ids of the calls of the last turn that have a result.
    pub resolved: Seq<Seq<char>>,
}

/// Writes a stand-in for each call from `from` on that has no result.
pub open spec fn answered(
    w: RepairView,
    calls: Seq<ToolCallView>,
    note: Seq<char>,
    timestamp: i64,
    from: int,
) -> RepairView
    decreases calls.len() - from,
{
    if from < 0 || from >= calls.len() {
        w
    } else if w.resolved.contains(calls[from].id) {
        answered(w, calls, note, timestamp, from + 1)
    } else {
        let next = RepairView {
            out: w.out.push(stand_in(calls[from], note, timestamp)),
            resolved: w.resolved.push(calls[from].id),
            ..w
        };
        answered(next, calls, note, timestamp, from + 1)
    }
}

/// Answering calls leaves the window as it is.
proof fn lemma_answered(
    w: RepairView,
    calls: Seq<ToolCallView>,
    note: Seq<char>,
    timestamp: i64,
    from: int,
)
    ensures
        ({
            let r = answered(w, calls, note, timestamp, from);
            r.pending == w.pending && r.aborted == w.aborted && r.aborted_at == w.aborted_at
        }),
    decreases calls.len() - from,
{
    if 0 <= from < calls.len() {
        let next = RepairView {
            out: w.out.push(stand_in(calls[from], note, timestamp)),
            resolved: w.resolved.push(calls[from].id),
            ..w
        };
        lemma_answered(w, calls, note, timestamp, from + 1);
        lemma_answered(next, calls, note, timestamp, from + 1);
    }
}

/// Closes the window of the last turn.
pub open spec fn flushed(w: RepairView, timestamp: i64) -> RepairView {
    let a = answered(w, w.pending, "No result provided"@, timestamp, 0);
    let b = match w.aborted_at {
        Some(at) => answered(a, w.aborted, "aborted"@, at, 0),
        None => a,
    };
    RepairView { pending: Seq::empty(), aborted: Seq::empty(), aborted_at: None, ..b }
}

/// The calls with one entry for each id: at the place of the first call with it, as the last
/// call with it stands.
pub open spec fn one_per_id(calls: Seq<ToolCallView>) -> Seq<ToolCallView>
    decreases calls.len(),
{
    if calls.len() == 0 {
        Seq::empty()
    } else {
        put_call(one_per_id(calls.drop_last()), calls.last(), 0)
    }
}

/// The list with `call` in place of the entry with its id, or at the end.
pub open spec fn put_call(list: Seq<ToolCallView>, call: ToolCallView, from: int) -> Seq<
    ToolCallView,
>
    decreases list.len() - from,
{
    if from < 0 || from >= list.len() {
        list.push(call)
    } else if list[from].id == call.id {
        list.update(from, call)
    } else {
        put_call(list, call, from + 1)
    }
}

/// The calls but those with the id.
pub open spec fn without_call(calls: Seq<ToolCallView>, id: Seq<char>) -> Seq<ToolCallView>
    decreases calls.len(),
{
    if calls.len() == 0 {
        Seq::empty()
    } else {
        let rest = without_call(calls.drop_last(), id);
        if calls.last().id == id {
            rest
        } else {
            rest.push(calls.last())
        }
    }
}

/// Whether a call of the last turn still waits for its result.
pub open spec fn window_open(w: RepairView) -> bool {
    w.aborted.len() > 0 || exists|i: int|
        0 <= i < w.pending.len() && !w.resolved.contains((#[trigger] w.pending[i]).id)
}

/// What a tool result does.
pub open spec fn after_result(
    w: RepairView,
    r: ToolResultMessageView,
    messages: Seq<MessageView>,
) -> RepairView {
    let id = r.tool_call_id;
    if w.resolved.contains(id) {
        w
    } else if has_call(w.aborted, id) {
        RepairView {
            aborted: without_call(w.aborted, id),
            resolved: w.resolved.push(id),
            out: w.out.push(MessageView::ToolResult(r)),
            ..w
        }
    } else if has_call(w.pending, id) {
        RepairView {
            resolved: w.resolved.push(id),
            out: w.out.push(MessageView::ToolResult(r)),
            ..w
        }
    } else if known_call(messages, id) || window_open(w) || shown_texts(r.content).len() == 0 {
        w
    } else {
        RepairView { out: w.out.push(stale_note(r)), ..w }
    }
}

/// What an assistant turn does.
pub open spec fn after_turn(w: RepairView, a: AssistantMessageView) -> RepairView {
    let f = flushed(w, a.timestamp);
    let calls = types::tool_calls(a.content);
    if truncated_empty(a) {
        f
    } else if a.stop_reason == StopReason::Error || a.stop_reason == StopReason::Aborted {
        RepairView {
            aborted: one_per_id(calls),
            aborted_at: Some(a.timestamp),
            resolved: Seq::empty(),
            out: f.out.push(MessageView::Assistant(a)),
            ..f
        }
    } else {
        RepairView {
            pending: calls,
            resolved: Seq::empty(),
            out: f.out.push(MessageView::Assistant(a)),
            ..f
        }
    }
}

/// What one message does.
pub open spec fn after_message(
    w: RepairView,
    m: MessageView,
    messages: Seq<MessageView>,
) -> RepairView {
    match m {
        MessageView::Assistant(a) => after_turn(w, a),
        MessageView::ToolResult(r) => after_result(w, r, messages),
        MessageView::User(u) => {
            let f = flushed(w, u.timestamp);
            RepairView { out: f.out.push(m), ..f }
        },
        MessageView::Developer(d) => {
            let f = flushed(w, d.timestamp);
            RepairView { out: f.out.push(m), ..f }
        },
    }
}

/// Before any message.
pub open spec fn fresh() -> RepairView {
    RepairView {
        out: Seq::empty(),
        pending: Seq::empty(),
        aborted: Seq::empty(),
        aborted_at: None,
        resolved: Seq::empty(),
    }
}

/// After the first `n` messages.
pub open spec fn after_messages(messages: Seq<MessageView>, n: int) -> RepairView
    decreases n,
{
    if n <= 0 {
        fresh()
    } else {
        after_message(after_messages(messages, n - 1), messages[n - 1], messages)
    }
}

/// The repaired transcript, where a call that is open at the end is answered at `now`.
pub open spec fn repaired(messages: Seq<MessageView>, now: i64) -> Seq<MessageView> {
    flushed(after_messages(messages, messages.len() as int), now).out
}

// ------------------------------------------------------------------ running it

/// The working state of the repair.
struct Repair {
    out: Vec<Message>,
    pending: Vec<ToolCall>,
    aborted: Vec<ToolCall>,
    aborted_at: Option<i64>,
    resolved: Vec<String>,
}

impl View for Repair {
    type V = RepairView;

    closed spec fn view(&self) -> RepairView {
        RepairView {
            out: text::views(self.out@),
            pending: text::views(self.pending@),
            aborted: text::views(self.aborted@),
            aborted_at: self.aborted_at,
            resolved: text::views(self.resolved@),
        }
    }
}

fn is_truncated_empty_assistant(msg: &AssistantMessage) -> (r: bool)
    ensures
        r == truncated_empty(msg@),
{
    match msg.stop_reason {
        StopReason::Length | StopReason::Error | StopReason::Aborted => {},
        _ => {
            return false;
        },
    }
    let mut i: usize = 0;
    while i < msg.content.len()
        invariant
            i <= msg.content@.len(),
            msg@.content == text::views(msg.content@),
            forall|j: int| 0 <= j < i ==> !has_substance(#[trigger] msg@.content[j]),
        decreases msg.content@.len() - i,
    {
        let found = match &msg.content[i] {
            AssistantBlock::Text(t) => !is_blank(Space::Unicode, t.text.as_str()),
            AssistantBlock::ToolCall(_) => true,
            _ => false,
        };
        if found {
            assert(has_substance(msg@.content[i as int]));
            return false;
        }
        i += 1;
    }
    true
}

fn synthetic_result(call: &ToolCall, note: &str, timestamp: i64) -> (r: Message)
    ensures
        r@ == stand_in(call@, note@, timestamp),
{
    let mut content: Vec<UserBlock> = Vec::new();
    content.push(UserBlock::text(note));
    let r = Message::ToolResult(
        ToolResultMessage {
            tool_call_id: call.id.clone(),
            tool_name: call.name.clone(),
            content,
            details: None,
            is_error: true,
            timestamp,
        },
    );
    assert(text::views(content@) =~= seq![content@[0]@]);
    r
}

fn find_call(calls: &Vec<ToolCall>, id: &str) -> (r: bool)
    ensures
        r == has_call(text::views(calls@), id@),
{
    let mut i: usize = 0;
    while i < calls.len()
        invariant
            i <= calls@.len(),
            forall|j: int| 0 <= j < i ==> (#[trigger] text::views(calls@)[j]).id != id@,
        decreases calls@.len() - i,
    {
        if same_text(calls[i].id.as_str(), id) {
            assert(text::views(calls@)[i as int].id == id@);
            return true;
        }
        i += 1;
    }
    false
}

fn is_known_call(messages: &Vec<Message>, id: &str) -> (r: bool)
    ensures
        r == known_call(text::views(messages@), id@),
{
    let mut i: usize = 0;
    while i < messages.len()
        invariant
            i <= messages@.len(),
            forall|j: int|
                0 <= j < i ==> !has_call(calls_of(#[trigger] text::views(messages@)[j]), id@),
        decreases messages@.len() - i,
    {
        match &messages[i] {
            Message::Assistant(a) => {
                let calls = call_list(a);
                if find_call(&calls, id) {
                    assert(has_call(calls_of(text::views(messages@)[i as int]), id@));
                    return true;
                }
            },
            _ => {},
        }
        i += 1;
    }
    false
}

/// Copies of the tool calls of a message.
fn call_list(a: &AssistantMessage) -> (r: Vec<ToolCall>)
    ensures
        text::views(r@) == types::tool_calls(a@.content),
{
    let refs = a.tool_calls();
    let mut out: Vec<ToolCall> = Vec::new();
    let mut i: usize = 0;
    while i < refs.len()
        invariant
            i <= refs@.len(),
            out@.len() == i,
            forall|j: int| 0 <= j < i ==> out@[j]@ == refs@[j]@,
        decreases refs@.len() - i,
    {
        out.push(refs[i].clone());
        i += 1;
    }
    assert(text::views(out@) =~= text::views(refs@));
    out
}

fn put(list: &mut Vec<ToolCall>, call: ToolCall)
    ensures
        text::views(final(list)@) == put_call(text::views(old(list)@), call@, 0),
{
    let ghost before = text::views(list@);
    let mut i: usize = 0;
    while i < list.len()
        invariant
            i <= list@.len(),
            text::views(list@) == before,
            before == text::views(old(list)@),
            put_call(before, call@, 0) == put_call(before, call@, i as int),
        decreases list@.len() - i,
    {
        if same_text(list[i].id.as_str(), call.id.as_str()) {
            list.set(i, call);
            assert(text::views(list@) =~= before.update(i as int, call@));
            return;
        }
        i += 1;
    }
    list.push(call);
    assert(text::views(list@) =~= before.push(call@));
}

fn distinct_calls(calls: Vec<ToolCall>) -> (r: Vec<ToolCall>)
    ensures
        text::views(r@) == one_per_id(text::views(calls@)),
{
    let mut out: Vec<ToolCall> = Vec::new();
    let ghost all = text::views(calls@);
    assert(text::views(out@) =~= one_per_id(all.take(0)));
    let mut i: usize = 0;
    while i < calls.len()
        invariant
            i <= calls@.len(),
            all == text::views(calls@),
            text::views(out@) == one_per_id(all.take(i as int)),
        decreases calls@.len() - i,
    {
        assert(all.take(i as int + 1).drop_last() =~= all.take(i as int));
        put(&mut out, calls[i].clone());
        i += 1;
    }
    assert(all.take(calls@.len() as int) =~= all);
    out
}

fn drop_call(calls: &Vec<ToolCall>, id: &str) -> (r: Vec<ToolCall>)
    ensures
        text::views(r@) == without_call(text::views(calls@), id@),
{
    let mut out: Vec<ToolCall> = Vec::new();
    let ghost all = text::views(calls@);
    assert(text::views(out@) =~= without_call(all.take(0), id@));
    let mut i: usize = 0;
    while i < calls.len()
        invariant
            i <= calls@.len(),
            all == text::views(calls@),
            text::views(out@) == without_call(all.take(i as int), id@),
        decreases calls@.len() - i,
    {
        assert(all.take(i as int + 1).drop_last() =~= all.take(i as int));
        if !same_text(calls[i].id.as_str(), id) {
            let c = calls[i].clone();
            proof {
                text::lemma_views_push(out@, c);
            }
            out.push(c);
        }
        i += 1;
    }
    assert(all.take(calls@.len() as int) =~= all);
    out
}

fn shown(blocks: &Vec<UserBlock>) -> (r: Vec<String>)
    ensures
        text::views(r@) == shown_texts(text::views(blocks@)),
{
    let mut out: Vec<String> = Vec::new();
    let ghost all = text::views(blocks@);
    assert(text::views(out@) =~= shown_texts(all.take(0)));
    let mut i: usize = 0;
    while i < blocks.len()
        invariant
            i <= blocks@.len(),
            all == text::views(blocks@),
            text::views(out@) == shown_texts(all.take(i as int)),
        decreases blocks@.len() - i,
    {
        assert(all.take(i as int + 1).drop_last() =~= all.take(i as int));
        match &blocks[i] {
            UserBlock::Text(t) => {
                if !is_blank(Space::Unicode, t.text.as_str()) {
                    let c = t.text.clone();
                    proof {
                        text::lemma_views_push(out@, c);
                    }
                    out.push(c);
                }
            },
            UserBlock::Image(_) => {},
        }
        i += 1;
    }
    assert(all.take(blocks@.len() as int) =~= all);
    out
}

fn stale(r: &ToolResultMessage, texts: &Vec<String>) -> (m: Message)
    requires
        text::views(texts@) == shown_texts(r@.content),
    ensures
        m@ == stale_note(r@),
{
    let mut note = "<stale-tool-result tool=\"".to_owned();
    note.append(r.tool_name.as_str());
    note.append("\" id=\"");
    note.append(r.tool_call_id.as_str());
    note.append("\"");
    note.append(if r.is_error { " is-error=\"true\"" } else { "" });
    note.append(">\n");
    note.append(join_strings(texts, "\n").as_str());
    note.append("\n</stale-tool-result>");
    Message::User(
        UserMessage { content: UserContent::Text(note), synthetic: None, timestamp: r.timestamp },
    )
}

impl Repair {
    fn answer(&mut self, calls: &Vec<ToolCall>, note: &str, timestamp: i64)
        ensures
            final(self)@ == answered(old(self)@, text::views(calls@), note@, timestamp, 0),
    {
        let ghost target = answered(self@, text::views(calls@), note@, timestamp, 0);
        let mut i: usize = 0;
        while i < calls.len()
            invariant
                i <= calls@.len(),
                target == answered(self@, text::views(calls@), note@, timestamp, i as int),
            decreases calls@.len() - i,
        {
            if !contains_text(&self.resolved, calls[i].id.as_str()) {
                let ghost before = self@;
                let m = synthetic_result(&calls[i], note, timestamp);
                let id = calls[i].id.clone();
                proof {
                    text::lemma_views_push(self.out@, m);
                    text::lemma_views_push(self.resolved@, id);
                }
                self.out.push(m);
                self.resolved.push(id);
                assert(self@ =~= RepairView {
                    out: before.out.push(m@),
                    resolved: before.resolved.push(id@),
                    ..before
                });
            }
            i += 1;
        }
    }

    fn flush(&mut self, timestamp: i64)
        ensures
            final(self)@ == flushed(old(self)@, timestamp),
    {
        let pending = text::clone_all(&self.pending);
        proof {
            lemma_answered(self@, self@.pending, "No result provided"@, timestamp, 0);
        }
        self.answer(&pending, "No result provided", timestamp);
        match self.aborted_at {
            Some(at) => {
                let aborted = text::clone_all(&self.aborted);
                self.answer(&aborted, "aborted", at);
            },
            None => {},
        }
        self.pending = Vec::new();
        self.aborted = Vec::new();
        self.aborted_at = None;
        assert(text::views(self.pending@) =~= Seq::empty());
        assert(text::views(self.aborted@) =~= Seq::empty());
    }

    fn is_open(&self) -> (r: bool)
        ensures
            r == window_open(self@),
    {
        if self.aborted.len() > 0 {
            return true;
        }
        let mut i: usize = 0;
        while i < self.pending.len()
            invariant
                i <= self.pending@.len(),
                forall|j: int|
                    0 <= j < i ==> self@.resolved.contains((#[trigger] self@.pending[j]).id),
            decreases self.pending@.len() - i,
        {
            if !contains_text(&self.resolved, self.pending[i].id.as_str()) {
                assert(!self@.resolved.contains(self@.pending[i as int].id));
                return true;
            }
            i += 1;
        }
        false
    }

    fn push(&mut self, m: Message)
        ensures
            final(self)@ == (RepairView { out: old(self)@.out.push(m@), ..old(self)@ }),
    {
        proof {
            text::lemma_views_push(self.out@, m);
        }
        self.out.push(m);
    }

    fn resolve(&mut self, id: String)
        ensures
            final(self)@ == (RepairView { resolved: old(self)@.resolved.push(id@), ..old(self)@ }),
    {
        proof {
            text::lemma_views_push(self.resolved@, id);
        }
        self.resolved.push(id);
    }

    fn turn(&mut self, a: &AssistantMessage)
        ensures
            final(self)@ == after_turn(old(self)@, a@),
    {
        self.flush(a.timestamp);
        if is_truncated_empty_assistant(a) {
            return;
        }
        let calls = call_list(a);
        match a.stop_reason {
            StopReason::Error | StopReason::Aborted => {
                self.aborted = distinct_calls(calls);
                self.aborted_at = Some(a.timestamp);
            },
            _ => {
                self.pending = calls;
            },
        }
        self.resolved = Vec::new();
        assert(text::views(self.resolved@) =~= Seq::empty());
        self.push(Message::Assistant(a.clone()));
    }

    fn result(&mut self, r: &ToolResultMessage, messages: &Vec<Message>)
        ensures
            final(self)@ == after_result(old(self)@, r@, text::views(messages@)),
    {
        let id = r.tool_call_id.as_str();
        if contains_text(&self.resolved, id) {
            return;
        }
        if find_call(&self.aborted, id) {
            self.aborted = drop_call(&self.aborted, id);
            self.resolve(r.tool_call_id.clone());
            self.push(Message::ToolResult(r.clone()));
            return;
        }
        if find_call(&self.pending, id) {
            self.resolve(r.tool_call_id.clone());
            self.push(Message::ToolResult(r.clone()));
            return;
        }
        if is_known_call(messages, id) || self.is_open() {
            return;
        }
        let texts = shown(&r.content);
        if texts.len() > 0 {
            self.push(stale(r, &texts));
        }
    }
}

/// The repaired transcript, where a call that is open at the end is answered at `now`.
pub fn transform_messages_at(messages: &Vec<Message>, now: i64) -> (r: Vec<Message>)
    ensures
        text::views(r@) == repaired(text::views(messages@), now),
{
    let mut state = Repair {
        out: Vec::new(),
        pending: Vec::new(),
        aborted: Vec::new(),
        aborted_at: None,
        resolved: Vec::new(),
    };
    let ghost all = text::views(messages@);
    assert(state@ =~= fresh());
    let mut i: usize = 0;
    while i < messages.len()
        invariant
            i <= messages@.len(),
            all == text::views(messages@),
            state@ == after_messages(all, i as int),
        decreases messages@.len() - i,
    {
        match &messages[i] {
            Message::Assistant(a) => state.turn(a),
            Message::ToolResult(r) => state.result(r, messages),
            Message::User(u) => {
                state.flush(u.timestamp);
                state.push(messages[i].clone());
            },
            Message::Developer(d) => {
                state.flush(d.timestamp);
                state.push(messages[i].clone());
            },
        }
        i += 1;
    }
    state.flush(now);
    state.out
}

/// The repaired transcript. A call that is open at the end is answered with the time of now.
pub fn transform_messages(messages: &Vec<Message>) -> (r: Vec<Message>)
    ensures
        exists|now: i64| text::views(r@) == #[trigger] repaired(text::views(messages@), now),
{
    transform_messages_at(messages, now_ms())
}

// ------------------------------------------------------------------ what the repair guarantees

/// Each call has exactly one of the results, and no result is for another call.
pub open spec fn answers(results: Seq<MessageView>, calls: Seq<ToolCallView>) -> bool {
    &&& results.len() == calls.len()
    &&& forall|i: int| 0 <= i < results.len() ==> (#[trigger] results[i]) is ToolResult
    &&& forall|i: int|
        0 <= i < results.len() ==> has_call(calls, (#[trigger] results[i])->ToolResult_0.tool_call_id)
    &&& forall|i: int, j: int|
        0 <= i < j < results.len() ==> (#[trigger] results[i])->ToolResult_0.tool_call_id != (
        #[trigger] results[j])->ToolResult_0.tool_call_id
}

/// The calls of a turn that are to be answered: one for each id.
pub open spec fn own_calls(a: AssistantMessageView) -> Seq<ToolCallView> {
    one_per_id(types::tool_calls(a.content))
}

/// Every assistant turn is followed at once by one result for each id of its calls, and there is
/// no other result.
pub open spec fn well_paired(out: Seq<MessageView>) -> bool
    decreases out.len(),
{
    if out.len() == 0 {
        true
    } else {
        match out[0] {
            MessageView::Assistant(a) => {
                let calls = own_calls(a);
                let n = calls.len() as int;
                &&& out.len() > n
                &&& answers(out.subrange(1, n + 1), calls)
                &&& well_paired(out.skip(n + 1))
            },
            MessageView::ToolResult(_) => false,
            _ => well_paired(out.skip(1)),
        }
    }
}

/// A turn whose calls are being answered, with the results so far.
ghost struct Turn {
    pub a: AssistantMessageView,
    pub results: Seq<ToolResultMessageView>,
}

spec fn written(t: Turn) -> Seq<MessageView> {
    seq![MessageView::Assistant(t.a)] + t.results.map_values(
        |r: ToolResultMessageView| MessageView::ToolResult(r),
    )
}

spec fn has_result(t: Turn, id: Seq<char>) -> bool {
    exists|j: int| 0 <= j < t.results.len() && (#[trigger] t.results[j]).tool_call_id == id
}

/// The output is `base` followed by the turn, whose calls are resolved as far as it has results.
spec fn in_turn(w: RepairView, base: Seq<MessageView>, t: Turn) -> bool {
    let calls = own_calls(t.a);
    &&& w.out == base + written(t)
    &&& well_paired(base)
    &&& forall|i: int, j: int|
        0 <= i < j < calls.len() ==> (#[trigger] calls[i]).id != (#[trigger] calls[j]).id
    &&& forall|i: int, j: int|
        0 <= i < j < t.results.len() ==> (#[trigger] t.results[i]).tool_call_id != (
        #[trigger] t.results[j]).tool_call_id
    &&& forall|j: int|
        0 <= j < t.results.len() ==> has_call(calls, (#[trigger] t.results[j]).tool_call_id)
    &&& forall|i: int|
        0 <= i < calls.len() ==> (w.resolved.contains((#[trigger] calls[i]).id) <==> has_result(
            t,
            calls[i].id,
        ))
}

/// What holds after some messages.
spec fn paired_so_far(w: RepairView, base: Seq<MessageView>, turn: Option<Turn>) -> bool {
    match turn {
        None => {
            &&& w.out == base
            &&& well_paired(base)
            &&& w.aborted.len() == 0
            &&& forall|i: int|
                0 <= i < w.pending.len() ==> w.resolved.contains((#[trigger] w.pending[i]).id)
        },
        Some(t) => {
            let calls = own_calls(t.a);
            &&& in_turn(w, base, t)
            &&& (w.pending == types::tool_calls(t.a.content) && w.aborted.len() == 0) || (
            w.pending.len() == 0 && w.aborted_at is Some && forall|i: int|
                0 <= i < calls.len() ==> (has_call(w.aborted, (#[trigger] calls[i]).id)
                    || w.resolved.contains(calls[i].id)))
            &&& forall|i: int| 0 <= i < w.aborted.len() ==> has_call(calls, (#[trigger] w.aborted[i]).id)
        },
    }
}

proof fn lemma_paired_append(x: Seq<MessageView>, y: Seq<MessageView>)
    requires
        well_paired(x),
        well_paired(y),
    ensures
        well_paired(x + y),
    decreases x.len(),
{
    if x.len() == 0 {
        assert(x + y =~= y);
    } else {
        let z = x + y;
        match x[0] {
            MessageView::Assistant(a) => {
                let n = own_calls(a).len() as int;
                assert(z.subrange(1, n + 1) =~= x.subrange(1, n + 1));
                assert(z.skip(n + 1) =~= x.skip(n + 1) + y);
                lemma_paired_append(x.skip(n + 1), y);
            },
            MessageView::ToolResult(_) => {},
            _ => {
                assert(z.skip(1) =~= x.skip(1) + y);
                lemma_paired_append(x.skip(1), y);
            },
        }
    }
}

proof fn lemma_turn_done(w: RepairView, base: Seq<MessageView>, t: Turn)
    requires
        in_turn(w, base, t),
        forall|i: int|
            0 <= i < own_calls(t.a).len() ==> w.resolved.contains((#[trigger] own_calls(t.a)[i]).id),
    ensures
        well_paired(w.out),
{
    let calls = own_calls(t.a);
    let call_ids = calls.map_values(|c: ToolCallView| c.id);
    let result_ids = t.results.map_values(|r: ToolResultMessageView| r.tool_call_id);
    assert(call_ids.no_duplicates()) by {
        assert forall|i: int, j: int|
            0 <= i < call_ids.len() && 0 <= j < call_ids.len() && i != j implies call_ids[i]
            != call_ids[j] by {
            if i < j {
                assert(calls[i].id != calls[j].id);
            } else {
                assert(calls[j].id != calls[i].id);
            }
        }
    }
    assert(result_ids.no_duplicates()) by {
        assert forall|i: int, j: int|
            0 <= i < result_ids.len() && 0 <= j < result_ids.len() && i != j implies result_ids[i]
            != result_ids[j] by {
            if i < j {
                assert(t.results[i].tool_call_id != t.results[j].tool_call_id);
            } else {
                assert(t.results[j].tool_call_id != t.results[i].tool_call_id);
            }
        }
    }
    call_ids.unique_seq_to_set();
    result_ids.unique_seq_to_set();
    assert(call_ids.to_set() =~= result_ids.to_set()) by {
        assert forall|id: Seq<char>| call_ids.to_set().contains(id) implies result_ids.to_set().contains(
            id,
        ) by {
            let i = choose|i: int| 0 <= i < call_ids.len() && call_ids[i] == id;
            assert(calls[i].id == id);
            assert(has_result(t, id));
            let j = choose|j: int|
                0 <= j < t.results.len() && (#[trigger] t.results[j]).tool_call_id == id;
            assert(result_ids[j] == id);
        }
        assert forall|id: Seq<char>| result_ids.to_set().contains(id) implies call_ids.to_set().contains(
            id,
        ) by {
            let j = choose|j: int| 0 <= j < result_ids.len() && result_ids[j] == id;
            assert(t.results[j].tool_call_id == id);
            let i = choose|i: int| 0 <= i < calls.len() && (#[trigger] calls[i]).id == id;
            assert(call_ids[i] == id);
        }
    }
    let block = written(t);
    let n = calls.len() as int;
    assert(block.len() == n + 1);
    let results = block.subrange(1, n + 1);
    assert forall|i: int| 0 <= i < results.len() implies #[trigger] results[i]
        == MessageView::ToolResult(t.results[i]) by {}
    assert(block.skip(n + 1) =~= Seq::empty());
    assert(block[0] == MessageView::Assistant(t.a));
    assert(answers(results, calls));
    assert(well_paired(block.skip(n + 1)));
    assert(well_paired(block));
    lemma_paired_append(base, block);
}

/// Answering calls of the turn keeps the turn in order and leaves those calls resolved.
proof fn lemma_answer(
    w: RepairView,
    base: Seq<MessageView>,
    t: Turn,
    list: Seq<ToolCallView>,
    note: Seq<char>,
    timestamp: i64,
    from: int,
) -> (u: Turn)
    requires
        in_turn(w, base, t),
        0 <= from,
        forall|i: int|
            0 <= i < list.len() ==> has_call(own_calls(t.a), (#[trigger] list[i]).id),
    ensures
        u.a == t.a,
        in_turn(answered(w, list, note, timestamp, from), base, u),
        forall|id: Seq<char>|
            w.resolved.contains(id) ==> #[trigger] answered(
                w,
                list,
                note,
                timestamp,
                from,
            ).resolved.contains(id),
        forall|i: int|
            from <= i < list.len() ==> answered(
                w,
                list,
                note,
                timestamp,
                from,
            ).resolved.contains((#[trigger] list[i]).id),
    decreases list.len() - from,
{
    if from >= list.len() {
        t
    } else if w.resolved.contains(list[from].id) {
        lemma_answer(w, base, t, list, note, timestamp, from + 1)
    } else {
        let call = list[from];
        let m = stand_in(call, note, timestamp);
        let next = RepairView {
            out: w.out.push(m),
            resolved: w.resolved.push(call.id),
            ..w
        };
        let u = lemma_result(w, next, base, t, m->ToolResult_0);
        let v = lemma_answer(next, base, u, list, note, timestamp, from + 1);
        assert(next.resolved.contains(call.id)) by {
            assert(next.resolved.last() == call.id);
        }
        assert forall|id: Seq<char>| w.resolved.contains(id) implies next.resolved.contains(id) by {
            let k = choose|k: int| 0 <= k < w.resolved.len() && w.resolved[k] == id;
            assert(next.resolved[k] == id);
        }
        v
    }
}

/// One more result for a call of the turn that had none.
proof fn lemma_result(
    w: RepairView,
    next: RepairView,
    base: Seq<MessageView>,
    t: Turn,
    r: ToolResultMessageView,
) -> (u: Turn)
    requires
        in_turn(w, base, t),
        has_call(own_calls(t.a), r.tool_call_id),
        !w.resolved.contains(r.tool_call_id),
        next.out == w.out.push(MessageView::ToolResult(r)),
        next.resolved == w.resolved.push(r.tool_call_id),
    ensures
        u.a == t.a,
        in_turn(next, base, u),
{
    let id = r.tool_call_id;
    let calls = own_calls(t.a);
    let u = Turn { a: t.a, results: t.results.push(r) };
    assert(written(u) =~= written(t).push(MessageView::ToolResult(r)));
    assert(next.out =~= base + written(u));
    let c = choose|i: int| 0 <= i < calls.len() && (#[trigger] calls[i]).id == id;
    assert(!has_result(t, calls[c].id));
    assert forall|i: int| 0 <= i < calls.len() implies (next.resolved.contains(
        (#[trigger] calls[i]).id,
    ) <==> has_result(u, calls[i].id)) by {
        let cid = calls[i].id;
        if has_result(t, cid) {
            let j = choose|j: int|
                0 <= j < t.results.len() && (#[trigger] t.results[j]).tool_call_id == cid;
            assert(u.results[j].tool_call_id == cid);
            let k = choose|k: int| 0 <= k < w.resolved.len() && w.resolved[k] == cid;
            assert(next.resolved[k] == cid);
        } else if cid == id {
            assert(u.results[t.results.len() as int].tool_call_id == cid);
            assert(next.resolved[w.resolved.len() as int] == cid);
        } else {
            assert(!next.resolved.contains(cid));
            assert(!has_result(u, cid));
        }
    }
    u
}

/// Closing the window completes the turn.
proof fn lemma_flush(w: RepairView, base: Seq<MessageView>, turn: Option<Turn>, timestamp: i64)
    requires
        paired_so_far(w, base, turn),
    ensures
        ({
            let f = flushed(w, timestamp);
            paired_so_far(f, f.out, None)
        }),
{
    let note = "No result provided"@;
    lemma_answered(w, w.pending, note, timestamp, 0);
    let a = answered(w, w.pending, note, timestamp, 0);
    let f = flushed(w, timestamp);
    match turn {
        None => {
            lemma_answered_none(w, w.pending, note, timestamp, 0);
            if w.aborted_at is Some {
                lemma_answered_none(a, w.aborted, "aborted"@, w.aborted_at.unwrap(), 0);
            }
            assert(f.out == base);
        },
        Some(t) => {
            let raw = types::tool_calls(t.a.content);
            let calls = own_calls(t.a);
            lemma_one_per_id(raw);
            assert forall|i: int| 0 <= i < w.pending.len() implies has_call(
                calls,
                (#[trigger] w.pending[i]).id,
            ) by {
                assert(raw[i].id == w.pending[i].id);
            }
            let u = lemma_answer(w, base, t, w.pending, note, timestamp, 0);
            if w.pending == raw {
                assert forall|i: int| 0 <= i < calls.len() implies a.resolved.contains(
                    (#[trigger] calls[i]).id,
                ) by {
                    let k = choose|k: int| 0 <= k < raw.len() && (#[trigger] raw[k]).id == calls[i].id;
                    assert(a.resolved.contains(w.pending[k].id));
                }
            }
            if w.aborted_at is Some {
                let at = w.aborted_at.unwrap();
                let v = lemma_answer(a, base, u, w.aborted, "aborted"@, at, 0);
                let b = answered(a, w.aborted, "aborted"@, at, 0);
                assert forall|i: int| 0 <= i < calls.len() implies b.resolved.contains(
                    (#[trigger] calls[i]).id,
                ) by {
                    if !a.resolved.contains(calls[i].id) {
                        let k = choose|k: int|
                            0 <= k < w.aborted.len() && (#[trigger] w.aborted[k]).id == calls[i].id;
                        assert(b.resolved.contains(w.aborted[k].id));
                    }
                }
                lemma_turn_done(b, base, v);
                assert(f.out == b.out);
            } else {
                lemma_turn_done(a, base, u);
            }
        },
    }
}

/// Where every call has a result, answering writes nothing.
proof fn lemma_answered_none(
    w: RepairView,
    calls: Seq<ToolCallView>,
    note: Seq<char>,
    timestamp: i64,
    from: int,
)
    requires
        forall|i: int| 0 <= i < calls.len() ==> w.resolved.contains((#[trigger] calls[i]).id),
    ensures
        answered(w, calls, note, timestamp, from) == w,
    decreases calls.len() - from,
{
    if 0 <= from < calls.len() {
        lemma_answered_none(w, calls, note, timestamp, from + 1);
    }
}

/// No two of the calls have the same id.
pub open spec fn distinct_ids(calls: Seq<ToolCallView>) -> bool {
    forall|i: int, j: int|
        0 <= i < j < calls.len() ==> (#[trigger] calls[i]).id != (#[trigger] calls[j]).id
}

proof fn lemma_put_call(list: Seq<ToolCallView>, call: ToolCallView, from: int)
    requires
        0 <= from,
    ensures
        has_call(put_call(list, call, from), call.id),
        forall|i: int|
            0 <= i < list.len() ==> has_call(put_call(list, call, from), (#[trigger] list[i]).id),
        forall|i: int|
            0 <= i < put_call(list, call, from).len() ==> (#[trigger] put_call(list, call, from)[i]).id
                == call.id || has_call(list, put_call(list, call, from)[i].id),
        distinct_ids(list) && (forall|i: int| 0 <= i < from && i < list.len() ==> (#[trigger] list[i]).id
            != call.id) ==> distinct_ids(put_call(list, call, from)),
    decreases list.len() - from,
{
    let out = put_call(list, call, from);
    if from >= list.len() {
        assert(out[list.len() as int].id == call.id);
        assert forall|i: int| 0 <= i < list.len() implies has_call(out, (#[trigger] list[i]).id) by {
            assert(out[i].id == list[i].id);
        }
    } else if list[from].id == call.id {
        assert(out[from].id == call.id);
        assert forall|i: int| 0 <= i < list.len() implies has_call(out, (#[trigger] list[i]).id) by {
            assert(out[i].id == list[i].id);
        }
        assert forall|i: int| 0 <= i < out.len() implies (#[trigger] out[i]).id == call.id
            || has_call(list, out[i].id) by {
            assert(list[i].id == out[i].id);
        }
    } else {
        lemma_put_call(list, call, from + 1);
    }
}

proof fn lemma_one_per_id(calls: Seq<ToolCallView>)
    ensures
        forall|i: int|
            0 <= i < calls.len() ==> has_call(one_per_id(calls), (#[trigger] calls[i]).id),
        forall|i: int|
            0 <= i < one_per_id(calls).len() ==> has_call(
                calls,
                (#[trigger] one_per_id(calls)[i]).id,
            ),
        distinct_ids(one_per_id(calls)),
    decreases calls.len(),
{
    if calls.len() > 0 {
        let init = calls.drop_last();
        let list = one_per_id(init);
        lemma_one_per_id(init);
        lemma_put_call(list, calls.last(), 0);
        let out = one_per_id(calls);
        assert forall|i: int| 0 <= i < calls.len() implies has_call(out, (#[trigger] calls[i]).id) by {
            if i < init.len() {
                assert(has_call(list, init[i].id));
                let k = choose|k: int| 0 <= k < list.len() && (#[trigger] list[k]).id == init[i].id;
                assert(has_call(out, list[k].id));
            }
        }
        assert forall|i: int| 0 <= i < out.len() implies has_call(calls, (#[trigger] out[i]).id) by {
            if out[i].id == calls.last().id {
                assert(calls[calls.len() - 1].id == out[i].id);
            } else {
                let k = choose|k: int| 0 <= k < list.len() && (#[trigger] list[k]).id == out[i].id;
                assert(has_call(init, list[k].id));
                let c = choose|c: int| 0 <= c < init.len() && (#[trigger] init[c]).id == list[k].id;
                assert(calls[c].id == out[i].id);
            }
        }
    }
}

proof fn lemma_without_call(calls: Seq<ToolCallView>, id: Seq<char>)
    ensures
        forall|i: int|
            0 <= i < calls.len() && (#[trigger] calls[i]).id != id ==> has_call(
                without_call(calls, id),
                calls[i].id,
            ),
        forall|i: int|
            0 <= i < without_call(calls, id).len() ==> has_call(
                calls,
                (#[trigger] without_call(calls, id)[i]).id,
            ),
    decreases calls.len(),
{
    if calls.len() > 0 {
        let init = calls.drop_last();
        let rest = without_call(init, id);
        let out = without_call(calls, id);
        lemma_without_call(init, id);
        assert forall|i: int| 0 <= i < calls.len() && (#[trigger] calls[i]).id != id implies has_call(
            out,
            calls[i].id,
        ) by {
            if i < init.len() {
                assert(init[i].id != id);
                let k = choose|k: int| 0 <= k < rest.len() && (#[trigger] rest[k]).id == init[i].id;
                assert(out[k].id == calls[i].id);
            } else {
                assert(out[rest.len() as int].id == calls[i].id);
            }
        }
        assert forall|i: int| 0 <= i < out.len() implies has_call(calls, (#[trigger] out[i]).id) by {
            if i < rest.len() {
                assert(has_call(init, rest[i].id));
                let c = choose|c: int| 0 <= c < init.len() && (#[trigger] init[c]).id == rest[i].id;
                assert(calls[c].id == out[i].id);
            } else {
                assert(calls[calls.len() - 1].id == out[i].id);
            }
        }
    }
}

proof fn lemma_paired_one(m: MessageView)
    requires
        m is User || m is Developer,
    ensures
        well_paired(seq![m]),
{
    let s = seq![m];
    assert(s.skip(1) =~= Seq::<MessageView>::empty());
    assert(well_paired(s.skip(1)));
}

proof fn lemma_after_turn(
    w: RepairView,
    base: Seq<MessageView>,
    turn: Option<Turn>,
    a: AssistantMessageView,
) -> (r: (Seq<MessageView>, Option<Turn>))
    requires
        paired_so_far(w, base, turn),
    ensures
        paired_so_far(after_turn(w, a), r.0, r.1),
{
    let f = flushed(w, a.timestamp);
    lemma_flush(w, base, turn, a.timestamp);
    if truncated_empty(a) {
        (f.out, None)
    } else {
        let t = Turn { a, results: Seq::empty() };
        let next = after_turn(w, a);
        assert(next.out =~= f.out + written(t));
        lemma_one_per_id(types::tool_calls(a.content));
        assert(in_turn(next, f.out, t));
        assert forall|i: int| 0 <= i < own_calls(a).len() implies has_call(
            own_calls(a),
            (#[trigger] own_calls(a)[i]).id,
        ) by {}
        (f.out, Some(t))
    }
}

proof fn lemma_after_result(
    w: RepairView,
    base: Seq<MessageView>,
    turn: Option<Turn>,
    r: ToolResultMessageView,
    messages: Seq<MessageView>,
) -> (p: (Seq<MessageView>, Option<Turn>))
    requires
        paired_so_far(w, base, turn),
    ensures
        paired_so_far(after_result(w, r, messages), p.0, p.1),
{
    let id = r.tool_call_id;
    let next = after_result(w, r, messages);
    if w.resolved.contains(id) {
        (base, turn)
    } else if has_call(w.aborted, id) || has_call(w.pending, id) {
        assert(turn is Some) by {
            if turn is None {
                let i = choose|i: int| 0 <= i < w.pending.len() && (#[trigger] w.pending[i]).id == id;
                assert(w.resolved.contains(w.pending[i].id));
            }
        }
        let t = turn.unwrap();
        let calls = own_calls(t.a);
        lemma_one_per_id(types::tool_calls(t.a.content));
        assert(has_call(calls, id)) by {
            if has_call(w.aborted, id) {
                let i = choose|i: int| 0 <= i < w.aborted.len() && (#[trigger] w.aborted[i]).id == id;
                assert(has_call(calls, w.aborted[i].id));
            } else {
                let i = choose|i: int| 0 <= i < w.pending.len() && (#[trigger] w.pending[i]).id == id;
                assert(has_call(calls, types::tool_calls(t.a.content)[i].id));
            }
        }
        let u = lemma_result(w, next, base, t, r);
        if has_call(w.aborted, id) {
            lemma_without_call(w.aborted, id);
            assert forall|i: int| 0 <= i < calls.len() implies has_call(
                next.aborted,
                (#[trigger] calls[i]).id,
            ) || next.resolved.contains(calls[i].id) by {
                let cid = calls[i].id;
                if cid == id {
                    assert(next.resolved[w.resolved.len() as int] == id);
                } else if w.resolved.contains(cid) {
                    let k = choose|k: int| 0 <= k < w.resolved.len() && w.resolved[k] == cid;
                    assert(next.resolved[k] == cid);
                } else {
                    let k = choose|k: int| 0 <= k < w.aborted.len() && (#[trigger] w.aborted[k]).id == cid;
                    assert(w.aborted[k].id != id);
                }
            }
            assert forall|i: int| 0 <= i < next.aborted.len() implies has_call(
                calls,
                (#[trigger] next.aborted[i]).id,
            ) by {
                let k = choose|k: int|
                    0 <= k < w.aborted.len() && (#[trigger] w.aborted[k]).id == next.aborted[i].id;
                assert(has_call(calls, w.aborted[k].id));
            }
        }
        (base, Some(u))
    } else if known_call(messages, id) || window_open(w) || shown_texts(r.content).len() == 0 {
        (base, turn)
    } else {
        let note = stale_note(r);
        assert(well_paired(w.out)) by {
            if turn is Some {
                let t = turn.unwrap();
                let raw = types::tool_calls(t.a.content);
                let calls = own_calls(t.a);
                lemma_one_per_id(raw);
                assert forall|i: int| 0 <= i < calls.len() implies w.resolved.contains(
                    (#[trigger] calls[i]).id,
                ) by {
                    if w.pending == raw {
                        let k = choose|k: int|
                            0 <= k < raw.len() && (#[trigger] raw[k]).id == calls[i].id;
                        assert(w.resolved.contains(w.pending[k].id));
                    }
                }
                lemma_turn_done(w, base, t);
            }
        }
        lemma_paired_one(note);
        lemma_paired_append(w.out, seq![note]);
        assert(next.out =~= w.out + seq![note]);
        (next.out, None)
    }
}

proof fn lemma_paired(messages: Seq<MessageView>, n: int) -> (r: (Seq<MessageView>, Option<Turn>))
    requires
        0 <= n <= messages.len(),
    ensures
        paired_so_far(after_messages(messages, n), r.0, r.1),
    decreases n,
{
    if n == 0 {
        (Seq::empty(), None)
    } else {
        let (base, turn) = lemma_paired(messages, n - 1);
        let w = after_messages(messages, n - 1);
        let m = messages[n - 1];
        match m {
            MessageView::Assistant(a) => lemma_after_turn(w, base, turn, a),
            MessageView::ToolResult(r) => lemma_after_result(w, base, turn, r, messages),
            _ => {
                let at = match m {
                    MessageView::User(u) => u.timestamp,
                    MessageView::Developer(d) => d.timestamp,
                    _ => 0,
                };
                let f = flushed(w, at);
                lemma_flush(w, base, turn, at);
                lemma_paired_one(m);
                lemma_paired_append(f.out, seq![m]);
                assert(f.out.push(m) =~= f.out + seq![m]);
                (f.out.push(m), None)
            },
        }
    }
}

/// In the repaired transcript every assistant turn is followed at once by exactly one result
/// for each of its tool calls, and no other result is left: missing results are there,
/// duplicates and orphans are not. It does not matter whether an earlier turn used the id of a
/// call. Calls of one turn that share an id share one result.
pub proof fn law_every_call_is_answered_once(messages: Seq<MessageView>, now: i64)
    ensures
        well_paired(repaired(messages, now)),
{
    let n = messages.len() as int;
    let (base, turn) = lemma_paired(messages, n);
    lemma_flush(after_messages(messages, n), base, turn, now);
}

proof fn lemma_put_new(list: Seq<ToolCallView>, call: ToolCallView, from: int)
    requires
        0 <= from,
        !has_call(list, call.id),
    ensures
        put_call(list, call, from) == list.push(call),
    decreases list.len() - from,
{
    if from < list.len() {
        assert(list[from].id != call.id);
        lemma_put_new(list, call, from + 1);
    }
}

/// Where the calls of a turn have ids of their own, each of them is to be answered.
pub proof fn law_distinct_calls_are_all_answered(calls: Seq<ToolCallView>)
    requires
        distinct_ids(calls),
    ensures
        one_per_id(calls) == calls,
    decreases calls.len(),
{
    if calls.len() > 0 {
        let init = calls.drop_last();
        assert forall|i: int, j: int| 0 <= i < j < init.len() implies (#[trigger] init[i]).id != (
        #[trigger] init[j]).id by {
            assert(calls[i].id != calls[j].id);
        }
        law_distinct_calls_are_all_answered(init);
        assert(!has_call(init, calls.last().id)) by {
            if has_call(init, calls.last().id) {
                let k = choose|k: int|
                    0 <= k < init.len() && (#[trigger] init[k]).id == calls.last().id;
                assert(calls[k].id != calls[calls.len() - 1].id);
            }
        }
        lemma_put_new(init, calls.last(), 0);
        assert(init.push(calls.last()) =~= calls);
    } else {
        assert(calls =~= Seq::empty());
    }
}

/// The output holds no truncated turn without content.
spec fn no_truncated(out: Seq<MessageView>) -> bool {
    forall|i: int|
        0 <= i < out.len() ==> ((#[trigger] out[i]) is Assistant ==> !truncated_empty(
            out[i]->Assistant_0,
        ))
}

proof fn lemma_answered_no_truncated(
    w: RepairView,
    calls: Seq<ToolCallView>,
    note: Seq<char>,
    timestamp: i64,
    from: int,
)
    requires
        no_truncated(w.out),
    ensures
        no_truncated(answered(w, calls, note, timestamp, from).out),
    decreases calls.len() - from,
{
    if 0 <= from < calls.len() {
        let next = RepairView {
            out: w.out.push(stand_in(calls[from], note, timestamp)),
            resolved: w.resolved.push(calls[from].id),
            ..w
        };
        lemma_answered_no_truncated(w, calls, note, timestamp, from + 1);
        lemma_answered_no_truncated(next, calls, note, timestamp, from + 1);
    }
}

proof fn lemma_flushed_no_truncated(w: RepairView, timestamp: i64)
    requires
        no_truncated(w.out),
    ensures
        no_truncated(flushed(w, timestamp).out),
{
    lemma_answered_no_truncated(w, w.pending, "No result provided"@, timestamp, 0);
    if w.aborted_at is Some {
        lemma_answered_no_truncated(
            answered(w, w.pending, "No result provided"@, timestamp, 0),
            w.aborted,
            "aborted"@,
            w.aborted_at.unwrap(),
            0,
        );
    }
}

proof fn lemma_no_truncated(messages: Seq<MessageView>, n: int)
    ensures
        no_truncated(after_messages(messages, n).out),
    decreases n,
{
    if n > 0 {
        lemma_no_truncated(messages, n - 1);
        let w = after_messages(messages, n - 1);
        match messages[n - 1] {
            MessageView::Assistant(a) => lemma_flushed_no_truncated(w, a.timestamp),
            MessageView::ToolResult(_) => {},
            MessageView::User(u) => lemma_flushed_no_truncated(w, u.timestamp),
            MessageView::Developer(d) => lemma_flushed_no_truncated(w, d.timestamp),
        }
    }
}

/// No turn that was cut off before it said anything is left in the repaired transcript.
pub proof fn law_truncated_turns_are_dropped(messages: Seq<MessageView>, now: i64, i: int)
    requires
        0 <= i < repaired(messages, now).len(),
        repaired(messages, now)[i] is Assistant,
    ensures
        !truncated_empty(repaired(messages, now)[i]->Assistant_0),
{
    let n = messages.len() as int;
    lemma_no_truncated(messages, n);
    lemma_flushed_no_truncated(after_messages(messages, n), now);
}

/// The repair has written the first `k` messages as they are, and no call waits for a result.
spec fn at_rest(w: RepairView, out: Seq<MessageView>, k: int) -> bool {
    &&& w.out == out.take(k)
    &&& w.aborted.len() == 0
    &&& forall|i: int|
        0 <= i < w.pending.len() ==> w.resolved.contains((#[trigger] w.pending[i]).id)
}

proof fn lemma_rest_flush(w: RepairView, out: Seq<MessageView>, k: int, timestamp: i64)
    requires
        at_rest(w, out, k),
    ensures
        flushed(w, timestamp).out == w.out,
        flushed(w, timestamp).pending.len() == 0,
        flushed(w, timestamp).aborted.len() == 0,
{
    let note = "No result provided"@;
    lemma_answered_none(w, w.pending, note, timestamp, 0);
    if w.aborted_at is Some {
        lemma_answered_none(w, w.aborted, "aborted"@, w.aborted_at.unwrap(), 0);
    }
}

/// The ids of the first `n` results.
spec fn result_ids(results: Seq<MessageView>, n: int) -> Seq<Seq<char>> {
    Seq::new(n as nat, |i: int| results[i]->ToolResult_0.tool_call_id)
}

/// The repair has written the turn at `k` and the first `n` of its results as they are.
spec fn in_block(w: RepairView, out: Seq<MessageView>, k: int, n: int) -> bool {
    let a = out[k]->Assistant_0;
    let calls = own_calls(a);
    let results = out.subrange(k + 1, k + 1 + calls.len());
    &&& w.out == out.take(k + 1 + n)
    &&& w.resolved == result_ids(results, n)
    &&& (w.pending == types::tool_calls(a.content) && w.aborted.len() == 0) || (w.pending.len() == 0
        && (forall|i: int|
        0 <= i < calls.len() ==> has_call(w.aborted, (#[trigger] calls[i]).id)
            || w.resolved.contains(calls[i].id)) && forall|i: int|
        0 <= i < w.aborted.len() ==> has_call(calls, (#[trigger] w.aborted[i]).id)
            && !w.resolved.contains(w.aborted[i].id))
}

proof fn lemma_without_id(calls: Seq<ToolCallView>, id: Seq<char>)
    ensures
        !has_call(without_call(calls, id), id),
    decreases calls.len(),
{
    if calls.len() > 0 {
        let rest = without_call(calls.drop_last(), id);
        lemma_without_id(calls.drop_last(), id);
        let out = without_call(calls, id);
        assert forall|i: int| 0 <= i < out.len() implies (#[trigger] out[i]).id != id by {
            if i < rest.len() {
                assert(rest[i].id != id);
            }
        }
    }
}

proof fn lemma_block(out: Seq<MessageView>, k: int, n: int)
    requires
        0 <= k < out.len(),
        out[k] is Assistant,
        !truncated_empty(out[k]->Assistant_0),
        0 <= n <= own_calls(out[k]->Assistant_0).len(),
        k + 1 + own_calls(out[k]->Assistant_0).len() <= out.len(),
        answers(
            out.subrange(k + 1, k + 1 + own_calls(out[k]->Assistant_0).len()),
            own_calls(out[k]->Assistant_0),
        ),
        at_rest(after_messages(out, k), out, k),
    ensures
        in_block(after_messages(out, k + 1 + n), out, k, n),
    decreases n,
{
    let a = out[k]->Assistant_0;
    let raw = types::tool_calls(a.content);
    let calls = own_calls(a);
    let results = out.subrange(k + 1, k + 1 + calls.len());
    lemma_one_per_id(raw);
    if n == 0 {
        let w = after_messages(out, k);
        lemma_rest_flush(w, out, k, a.timestamp);
        assert(out.take(k).push(out[k]) =~= out.take(k + 1));
        let next = after_turn(w, a);
        assert(after_messages(out, k + 1) == next);
        assert(next.resolved =~= result_ids(results, 0));
    } else {
        lemma_block(out, k, n - 1);
        let w = after_messages(out, k + n);
        let m = results[n - 1];
        assert(m == out[k + n]);
        let r = m->ToolResult_0;
        let id = r.tool_call_id;
        let next = after_messages(out, k + 1 + n);
        assert(next == after_result(w, r, out));
        assert(out.take(k + n).push(m) =~= out.take(k + 1 + n));
        assert(!w.resolved.contains(id)) by {
            if w.resolved.contains(id) {
                let i = choose|i: int| 0 <= i < w.resolved.len() && w.resolved[i] == id;
                assert(results[i]->ToolResult_0.tool_call_id != results[n - 1]->ToolResult_0.tool_call_id);
            }
        }
        assert(has_call(calls, id));
        let c = choose|c: int| 0 <= c < calls.len() && (#[trigger] calls[c]).id == id;
        if w.pending == raw && w.aborted.len() == 0 {
            assert(has_call(raw, calls[c].id));
        } else {
            assert(has_call(w.aborted, calls[c].id));
        }
        assert(w.resolved.push(id) =~= result_ids(results, n));
        if has_call(w.aborted, id) {
            lemma_without_call(w.aborted, id);
            lemma_without_id(w.aborted, id);
            assert forall|i: int| 0 <= i < calls.len() implies has_call(
                next.aborted,
                (#[trigger] calls[i]).id,
            ) || next.resolved.contains(calls[i].id) by {
                let cid = calls[i].id;
                if cid == id {
                    assert(next.resolved[w.resolved.len() as int] == id);
                } else if w.resolved.contains(cid) {
                    let j = choose|j: int| 0 <= j < w.resolved.len() && w.resolved[j] == cid;
                    assert(next.resolved[j] == cid);
                } else {
                    let j = choose|j: int| 0 <= j < w.aborted.len() && (#[trigger] w.aborted[j]).id == cid;
                    assert(w.aborted[j].id != id);
                }
            }
            assert forall|i: int| 0 <= i < next.aborted.len() implies has_call(
                calls,
                (#[trigger] next.aborted[i]).id,
            ) && !next.resolved.contains(next.aborted[i].id) by {
                let x = next.aborted[i].id;
                assert(has_call(next.aborted, x));
                let j = choose|j: int| 0 <= j < w.aborted.len() && (#[trigger] w.aborted[j]).id == x;
                assert(has_call(calls, w.aborted[j].id));
                if next.resolved.contains(x) {
                    let q = choose|q: int| 0 <= q < next.resolved.len() && next.resolved[q] == x;
                    if q < w.resolved.len() {
                        assert(w.resolved[q] == x);
                        assert(w.resolved.contains(w.aborted[j].id));
                    }
                }
            }
        }
    }
}

proof fn lemma_repaired_stays(out: Seq<MessageView>, k: int)
    requires
        0 <= k <= out.len(),
        well_paired(out.skip(k)),
        no_truncated(out),
        at_rest(after_messages(out, k), out, k),
    ensures
        at_rest(after_messages(out, out.len() as int), out, out.len() as int),
    decreases out.len() - k,
{
    if k < out.len() {
        let rest = out.skip(k);
        let m = out[k];
        assert(rest[0] == m);
        match m {
            MessageView::Assistant(a) => {
                let calls = own_calls(a);
                let n = calls.len() as int;
                assert(rest.subrange(1, n + 1) =~= out.subrange(k + 1, k + 1 + n));
                assert(rest.skip(n + 1) =~= out.skip(k + 1 + n));
                lemma_block(out, k, n);
                let w = after_messages(out, k + 1 + n);
                let results = out.subrange(k + 1, k + 1 + n);
                lemma_one_per_id(types::tool_calls(a.content));
                lemma_all_resolved(results, calls);
                assert forall|i: int| 0 <= i < w.pending.len() implies w.resolved.contains(
                    (#[trigger] w.pending[i]).id,
                ) by {
                    assert(has_call(calls, types::tool_calls(a.content)[i].id));
                }
                assert(w.aborted.len() == 0) by {
                    if w.aborted.len() > 0 {
                        assert(has_call(calls, w.aborted[0].id));
                        assert(w.resolved.contains(w.aborted[0].id));
                    }
                }
                lemma_repaired_stays(out, k + 1 + n);
            },
            MessageView::ToolResult(_) => {},
            _ => {
                let w = after_messages(out, k);
                let at = match m {
                    MessageView::User(u) => u.timestamp,
                    MessageView::Developer(d) => d.timestamp,
                    _ => 0,
                };
                lemma_rest_flush(w, out, k, at);
                assert(out.take(k).push(m) =~= out.take(k + 1));
                assert(rest.skip(1) =~= out.skip(k + 1));
                lemma_repaired_stays(out, k + 1);
            },
        }
    }
}

/// As many results as calls, of different ids and each for one of the calls, answer every call.
proof fn lemma_all_resolved(results: Seq<MessageView>, calls: Seq<ToolCallView>)
    requires
        answers(results, calls),
        distinct_ids(calls),
    ensures
        forall|id: Seq<char>| #[trigger]
            has_call(calls, id) ==> result_ids(results, results.len() as int).contains(id),
{
    let call_ids = calls.map_values(|c: ToolCallView| c.id);
    let ids = result_ids(results, results.len() as int);
    assert forall|i: int, j: int|
        0 <= i < call_ids.len() && 0 <= j < call_ids.len() && i != j implies call_ids[i]
        != call_ids[j] by {
        if i < j {
            assert(calls[i].id != calls[j].id);
        } else {
            assert(calls[j].id != calls[i].id);
        }
    }
    assert forall|i: int, j: int| 0 <= i < ids.len() && 0 <= j < ids.len() && i != j implies ids[i]
        != ids[j] by {
        if i < j {
            assert(results[i]->ToolResult_0.tool_call_id != results[j]->ToolResult_0.tool_call_id);
        } else {
            assert(results[j]->ToolResult_0.tool_call_id != results[i]->ToolResult_0.tool_call_id);
        }
    }
    call_ids.unique_seq_to_set();
    ids.unique_seq_to_set();
    assert(ids.to_set().subset_of(call_ids.to_set())) by {
        assert forall|id: Seq<char>| ids.to_set().contains(id) implies call_ids.to_set().contains(
            id,
        ) by {
            let j = choose|j: int| 0 <= j < ids.len() && ids[j] == id;
            assert(has_call(calls, results[j]->ToolResult_0.tool_call_id));
            let i = choose|i: int| 0 <= i < calls.len() && (#[trigger] calls[i]).id == id;
            assert(call_ids[i] == id);
        }
    }
    vstd::set_lib::lemma_subset_equality(ids.to_set(), call_ids.to_set());
    assert forall|id: Seq<char>| #[trigger] has_call(calls, id) implies ids.contains(id) by {
        let i = choose|i: int| 0 <= i < calls.len() && (#[trigger] calls[i]).id == id;
        assert(call_ids[i] == id);
        assert(ids.to_set().contains(id));
    }
}

/// A repaired transcript needs no further repair, whenever it is repaired again.
pub proof fn law_repairing_once_is_enough(messages: Seq<MessageView>, now: i64, later: i64)
    ensures
        repaired(repaired(messages, now), later) == repaired(messages, now),
{
    let out = repaired(messages, now);
    let n = messages.len() as int;
    law_every_call_is_answered_once(messages, now);
    lemma_no_truncated(messages, n);
    lemma_flushed_no_truncated(after_messages(messages, n), now);
    assert(out.skip(0) =~= out);
    assert(out.take(0) =~= Seq::empty());
    lemma_repaired_stays(out, 0);
    lemma_rest_flush(after_messages(out, out.len() as int), out, out.len() as int, later);
    assert(out.take(out.len() as int) =~= out);
}

/// A transcript in which every call is answered at once, and no turn was cut off before it said
/// anything, is kept as it is.
pub proof fn law_a_sound_transcript_is_kept(messages: Seq<MessageView>, now: i64)
    requires
        well_paired(messages),
        forall|i: int|
            0 <= i < messages.len() && (#[trigger] messages[i]) is Assistant ==> !truncated_empty(
                messages[i]->Assistant_0,
            ),
    ensures
        repaired(messages, now) == messages,
{
    let n = messages.len() as int;
    assert(messages.skip(0) =~= messages);
    assert(messages.take(0) =~= Seq::empty());
    lemma_repaired_stays(messages, 0);
    lemma_rest_flush(after_messages(messages, n), messages, n, now);
    assert(messages.take(n) =~= messages);
}

} // verus!
