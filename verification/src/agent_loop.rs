//! The agent loop as a state machine.
//!
//! A run asks its host for one thing at a time ([`RunStep`]): queued messages, a model call, the
//! tools of a turn. The host does it and comes back with what happened and with the time as it is
//! then ([`Clock`]); the run answers with the events to emit and the next step.
use crate::agent_event::{AgentEvent, AgentEventView, ToolOutput, ToolOutputView};
use crate::agent_tool;
use crate::agent_tool::synthetic_tool_result_at;
use crate::event;
use crate::event::{AssistantMessageEvent, AssistantMessageEventView};
use crate::json;
use crate::json::{as_text, object_3, Json, JsonView};
use crate::text;
use crate::text::{clone_all, clone_opt, clone_strings, contains_text, same_text};
use crate::types;
use crate::types::{
    AssistantBlock, AssistantBlockView, AssistantMessage, AssistantMessageView, Context,
    ContextView, Message, MessageView, StopReason, Tool, ToolCall, ToolCallView, ToolResultMessage,
    ToolResultMessageView,
};
use vstd::prelude::*;

verus! {

/// The detail of a turn that broke off in the middle of its calls.
pub const STREAM_INTERRUPTED_AFTER_CONTENT_STOP_DETAIL: &'static str = "stream_interrupted_after_content";

/// Why a turn was aborted, where nothing else is known.
pub const ABORTED_TEXT: &'static str = "Request was aborted";

/// Why a turn was aborted by the deadline.
pub const DEADLINE_TEXT: &'static str = "Deadline exceeded";

/// Why a transcript with open calls is not continued.
pub const UNPAIRED_TAIL_REFUSED: &'static str = "Cannot continue: the last assistant message has tool calls without recorded results; their effects are unknown";

/// What is told of a model stream that ended without an end.
pub const MISSING_TERMINAL_EVENT: &'static str = "Provider stream ended without a terminal event";

/// What is done with a last assistant message whose calls have no results.
#[derive(Clone, Copy, Debug, PartialEq, Eq, Structural)]
pub enum UnpairedTail {
    /// Refuse: the calls may have run already, so that their effects are unknown.
    Refuse,
    /// Run them: for a host that knows that they never ran.
    Execute,
}

/// Why a run ended.
#[derive(Clone, Copy, Debug, PartialEq, Eq, Structural)]
pub enum RunEnd {
    /// The assistant stopped with nothing left to do.
    Completed,
    /// The deadline passed.
    Deadline,
    /// The budget of model calls was used up before another call.
    ModelCallBudget,
    /// The caller cancelled the run.
    Aborted,
    /// The last assistant turn failed.
    Error,
}

/// The time and the cancellation as they are at one moment.
#[derive(Clone, Copy, Debug, PartialEq, Eq, Structural)]
pub struct Clock {
    /// The deadline has passed.
    pub deadline_passed: bool,
    /// The run was cancelled by its deadline.
    pub deadline_fired: bool,
    /// The run was cancelled.
    pub cancelled: bool,
    /// Milliseconds since the epoch.
    pub now: i64,
}

/// What the host does next.
#[derive(Clone, Copy, Debug, PartialEq, Eq, Structural)]
pub enum RunStep {
    /// Take the steering messages from their queue.
    AskSteering,
    /// Read the model stream on; open it where it is not open.
    CallModel,
    /// Run the calls of the turn.
    RunTools,
    /// Take the steering and the follow-up messages from their queues.
    AskLate,
    /// Come back with the clock.
    Check,
    /// The run is over.
    Finished(RunEnd),
}

/// What the run waits for.
#[derive(Clone, Copy, Debug, PartialEq, Eq, Structural)]
pub enum Phase {
    Begin,
    FirstSteering,
    TailTools,
    Model,
    Tools,
    AfterTurn,
    Steering,
    Late,
    Ended,
}

/// Why a run cannot be continued.
#[derive(Debug, PartialEq)]
pub enum LoopError {
    CannotContinue(String),
}

impl LoopError {
    /// The message of the error.
    pub fn message(&self) -> (r: &str)
        ensures
            r@ == self->CannotContinue_0@,
    {
        match self {
            LoopError::CannotContinue(m) => m.as_str(),
        }
    }
}

/// The messages that a run added, and why it ended.
#[derive(Debug, PartialEq)]
pub struct RunReport {
    pub messages: Vec<Message>,
    pub end: RunEnd,
}

/// What came of the model stream.
#[derive(Debug, PartialEq)]
pub enum StreamNext {
    Event(AssistantMessageEvent),
    /// The stream ended.
    Closed,
    /// The run was cancelled, and why.
    Aborted(String),
}

/// What a [`StreamNext`] stands for.
pub enum StreamNextView {
    Event(AssistantMessageEventView),
    Closed,
    Aborted(Seq<char>),
}

impl View for StreamNext {
    type V = StreamNextView;

    open spec fn view(&self) -> StreamNextView {
        match self {
            StreamNext::Event(e) => StreamNextView::Event(e@),
            StreamNext::Closed => StreamNextView::Closed,
            StreamNext::Aborted(why) => StreamNextView::Aborted(why@),
        }
    }
}

/// The events to emit, in order, and what the host does next.
#[derive(Debug, PartialEq)]
pub struct RunTurn {
    pub events: Vec<AgentEvent>,
    pub step: RunStep,
}

/// A run.
#[derive(Debug, PartialEq)]
pub struct AgentRun {
    pub api: String,
    pub provider: String,
    pub model: String,
    /// The transcript.
    pub context: Vec<Message>,
    /// What the run added to it.
    pub new_messages: Vec<Message>,
    /// Inputs that no event told of yet.
    pub to_emit: Vec<Message>,
    /// Queued messages that are not in the transcript yet.
    pub pending: Vec<Message>,
    pub model_calls: u64,
    pub max_model_calls: Option<u64>,
    /// Another turn follows.
    pub has_more: bool,
    /// The turn whose calls run.
    pub turn: Option<AssistantMessage>,
    /// The snapshot of the streamed message.
    pub partial: Option<AssistantMessage>,
    /// The snapshot is the last message of the transcript.
    pub added: bool,
    /// The calls of the streamed message that are complete.
    pub completed: Vec<String>,
    pub phase: Phase,
}

/// What a [`AgentRun`] stands for.
pub struct AgentRunView {
    pub api: Seq<char>,
    pub provider: Seq<char>,
    pub model: Seq<char>,
    pub context: Seq<MessageView>,
    pub new_messages: Seq<MessageView>,
    pub to_emit: Seq<MessageView>,
    pub pending: Seq<MessageView>,
    pub model_calls: u64,
    pub max_model_calls: Option<u64>,
    pub has_more: bool,
    pub turn: Option<AssistantMessageView>,
    pub partial: Option<AssistantMessageView>,
    pub added: bool,
    pub completed: Seq<Seq<char>>,
    pub phase: Phase,
}

impl View for AgentRun {
    type V = AgentRunView;

    open spec fn view(&self) -> AgentRunView {
        AgentRunView {
            api: self.api@,
            provider: self.provider@,
            model: self.model@,
            context: text::views(self.context@),
            new_messages: text::views(self.new_messages@),
            to_emit: text::views(self.to_emit@),
            pending: text::views(self.pending@),
            model_calls: self.model_calls,
            max_model_calls: self.max_model_calls,
            has_more: self.has_more,
            turn: text::opt_view(self.turn),
            partial: text::opt_view(self.partial),
            added: self.added,
            completed: text::views(self.completed@),
            phase: self.phase,
        }
    }
}

// ------------------------------------------------------------------ transcripts

/// The last message, where it is an assistant message with calls that may run and none is answered.
pub open spec fn unpaired(messages: Seq<MessageView>) -> Option<AssistantMessageView> {
    if messages.len() == 0 {
        None
    } else {
        match messages.last() {
            MessageView::Assistant(a) => if runnable(a.stop_reason) && types::tool_calls(
                a.content,
            ).len() > 0 {
                Some(a)
            } else {
                None
            },
            _ => None,
        }
    }
}

/// The calls of a turn that stopped so may run.
pub open spec fn runnable(reason: StopReason) -> bool {
    reason == StopReason::ToolUse || reason == StopReason::Stop
}

fn may_run(reason: StopReason) -> (r: bool)
    ensures
        r == runnable(reason),
{
    match reason {
        StopReason::ToolUse => true,
        StopReason::Stop => true,
        _ => false,
    }
}

/// The last message, where it is an assistant message with calls that may run and none is answered.
pub fn unpaired_tool_call_tail(messages: &Vec<Message>) -> (r: Option<&AssistantMessage>)
    ensures
        text::opt_view(r) == unpaired(text::views(messages@)),
{
    let n: usize = messages.len();
    if n == 0 {
        return None;
    }
    assert(text::views(messages@).last() == messages@[n - 1]@);
    match &messages[n - 1] {
        Message::Assistant(a) => {
            let calls = a.tool_calls();
            if may_run(a.stop_reason) && calls.len() > 0 {
                Some(a)
            } else {
                None
            }
        },
        _ => None,
    }
}

/// Why a transcript cannot be continued, if it cannot.
pub open spec fn continue_error(messages: Seq<MessageView>, tail: UnpairedTail) -> Option<Seq<char>> {
    if messages.len() == 0 {
        Some("Cannot continue: no messages in context"@)
    } else if messages.last() is Assistant && unpaired(messages) is None {
        Some("Cannot continue from message role: assistant"@)
    } else if unpaired(messages) is Some && tail == UnpairedTail::Refuse {
        Some(UNPAIRED_TAIL_REFUSED@)
    } else {
        None
    }
}

/// Whether a transcript can be continued.
pub fn check_continue(messages: &Vec<Message>, tail: UnpairedTail) -> (r: Result<(), LoopError>)
    ensures
        match continue_error(text::views(messages@), tail) {
            Some(e) => r matches Err(LoopError::CannotContinue(m)) && m@ == e,
            None => r is Ok,
        },
{
    let n: usize = messages.len();
    if n == 0 {
        return Err(
            LoopError::CannotContinue("Cannot continue: no messages in context".to_owned()),
        );
    }
    assert(text::views(messages@).last() == messages@[n - 1]@);
    let open = unpaired_tool_call_tail(messages).is_some();
    if messages[n - 1].as_assistant().is_some() && !open {
        return Err(
            LoopError::CannotContinue("Cannot continue from message role: assistant".to_owned()),
        );
    }
    if open && tail == UnpairedTail::Refuse {
        return Err(LoopError::CannotContinue(UNPAIRED_TAIL_REFUSED.to_owned()));
    }
    Ok(())
}

// ------------------------------------------------------------------ turns that broke off

/// The block stays in a turn that broke off: it is no call, or a complete one.
pub open spec fn stays(b: AssistantBlockView, completed: Seq<Seq<char>>) -> bool {
    match b {
        AssistantBlockView::ToolCall(c) => completed.contains(c.id),
        _ => true,
    }
}

/// The blocks that stay.
pub open spec fn kept_blocks(
    blocks: Seq<AssistantBlockView>,
    completed: Seq<Seq<char>>,
) -> Seq<AssistantBlockView>
    decreases blocks.len(),
{
    if blocks.len() == 0 {
        Seq::empty()
    } else if stays(blocks.last(), completed) {
        kept_blocks(blocks.drop_last(), completed).push(blocks.last())
    } else {
        kept_blocks(blocks.drop_last(), completed)
    }
}

/// A member of the stop details.
pub open spec fn detail(m: AssistantMessageView, key: Seq<char>) -> Option<JsonView> {
    match m.stop_details {
        Some(d) => json::member(d, key),
        None => None,
    }
}

/// The turn broke off.
pub open spec fn broke_off(reason: StopReason) -> bool {
    reason == StopReason::Error || reason == StopReason::Aborted
}

/// What explains the break.
pub open spec fn explanation(m: AssistantMessageView) -> JsonView {
    match detail(m, "explanation"@) {
        Some(e) => if e is Null {
            told_error(m)
        } else {
            e
        },
        None => told_error(m),
    }
}

/// The error message as JSON.
pub open spec fn told_error(m: AssistantMessageView) -> JsonView {
    match m.error_message {
        Some(e) => JsonView::String(e),
        None => JsonView::Null,
    }
}

/// The details of a turn that broke off in the middle of its calls.
pub open spec fn interrupted(m: AssistantMessageView) -> JsonView {
    JsonView::Object(
        seq![
            ("type"@, JsonView::String(STREAM_INTERRUPTED_AFTER_CONTENT_STOP_DETAIL@)),
            (
                "category"@,
                match detail(m, "type"@) {
                    Some(t) => t,
                    None => JsonView::Null,
                },
            ),
            ("explanation"@, explanation(m)),
        ],
    )
}

/// A message as it is kept: of a turn that broke off only complete calls stay, and the details say
/// that calls are missing.
pub open spec fn retained(m: AssistantMessageView, completed: Seq<Seq<char>>) -> AssistantMessageView {
    let kept = kept_blocks(m.content, completed);
    if !broke_off(m.stop_reason) || kept.len() == m.content.len() {
        m
    } else if json::text_of(detail(m, "type"@)) == Some(
        STREAM_INTERRUPTED_AFTER_CONTENT_STOP_DETAIL@,
    ) {
        AssistantMessageView { content: kept, ..m }
    } else {
        AssistantMessageView { content: kept, stop_details: Some(interrupted(m)), ..m }
    }
}

proof fn lemma_kept_blocks(blocks: Seq<AssistantBlockView>, completed: Seq<Seq<char>>)
    ensures
        kept_blocks(blocks, completed).len() <= blocks.len(),
        kept_blocks(blocks, completed).len() == blocks.len() ==> kept_blocks(blocks, completed)
            == blocks,
        forall|i: int|
            0 <= i < kept_blocks(blocks, completed).len() ==> stays(
                #[trigger] kept_blocks(blocks, completed)[i],
                completed,
            ),
    decreases blocks.len(),
{
    if blocks.len() > 0 {
        lemma_kept_blocks(blocks.drop_last(), completed);
        assert(blocks =~= blocks.drop_last().push(blocks.last()));
    }
}

/// Of a turn that broke off, only calls that were complete stay.
pub proof fn law_only_complete_calls_stay(m: AssistantMessageView, completed: Seq<Seq<char>>)
    requires
        broke_off(m.stop_reason),
    ensures
        forall|i: int|
            0 <= i < retained(m, completed).content.len() ==> stays(
                #[trigger] retained(m, completed).content[i],
                completed,
            ),
{
    lemma_kept_blocks(m.content, completed);
}

fn keep_blocks(blocks: &Vec<AssistantBlock>, completed: &Vec<String>) -> (r: Vec<AssistantBlock>)
    ensures
        text::views(r@) == kept_blocks(text::views(blocks@), text::views(completed@)),
{
    let mut out: Vec<AssistantBlock> = Vec::new();
    let mut i: usize = 0;
    let ghost all = text::views(blocks@);
    let ghost ids = text::views(completed@);
    assert(text::views(out@) =~= kept_blocks(all.take(0), ids));
    while i < blocks.len()
        invariant
            i <= blocks@.len(),
            all == text::views(blocks@),
            ids == text::views(completed@),
            text::views(out@) == kept_blocks(all.take(i as int), ids),
        decreases blocks@.len() - i,
    {
        let ok = match &blocks[i] {
            AssistantBlock::ToolCall(c) => contains_text(completed, c.id.as_str()),
            _ => true,
        };
        assert(ok == stays(all[i as int], ids));
        assert(all.take(i as int + 1).drop_last() =~= all.take(i as int));
        if ok {
            let b = blocks[i].clone();
            proof {
                text::lemma_views_push(out@, b);
            }
            out.push(b);
        }
        i += 1;
    }
    assert(all.take(i as int) =~= all);
    out
}

fn get_detail<'a>(m: &'a AssistantMessage, key: &str) -> (r: Option<&'a Json>)
    ensures
        text::opt_view(r) == detail(m@, key@),
{
    match &m.stop_details {
        Some(d) => d.get(key),
        None => None,
    }
}

fn tell_error(m: &AssistantMessage) -> (r: Json)
    ensures
        r@ == told_error(m@),
{
    match &m.error_message {
        Some(e) => Json::String(e.clone()),
        None => Json::Null,
    }
}

fn explain(m: &AssistantMessage) -> (r: Json)
    ensures
        r@ == explanation(m@),
{
    match get_detail(m, "explanation") {
        Some(e) => if e.is_null() {
            tell_error(m)
        } else {
            e.clone()
        },
        None => tell_error(m),
    }
}

/// The turn broke off.
fn is_broken(reason: StopReason) -> (r: bool)
    ensures
        r == broke_off(reason),
{
    match reason {
        StopReason::Error => true,
        StopReason::Aborted => true,
        _ => false,
    }
}

/// A message as it is kept: of a turn that broke off only complete calls stay.
pub fn retain_completed_tool_calls(message: AssistantMessage, completed: &Vec<String>) -> (r:
    AssistantMessage)
    ensures
        r@ == retained(message@, text::views(completed@)),
{
    if !is_broken(message.stop_reason) {
        return message;
    }
    let kept = keep_blocks(&message.content, completed);
    if kept.len() == message.content.len() {
        return message;
    }
    let already = match as_text(get_detail(&message, "type")) {
        Some(t) => same_text(t, STREAM_INTERRUPTED_AFTER_CONTENT_STOP_DETAIL),
        None => false,
    };
    let ghost before = message@;
    let mut message = message;
    if !already {
        let category = match get_detail(&message, "type") {
            Some(t) => t.clone(),
            None => Json::Null,
        };
        let why = explain(&message);
        let kind = Json::String(STREAM_INTERRUPTED_AFTER_CONTENT_STOP_DETAIL.to_owned());
        let details = object_3("type", kind, "category", category, "explanation", why);
        assert(details@->Object_0 =~= interrupted(before)->Object_0);
        assert(details@ == interrupted(before));
        message.stop_details = Some(details);
    }
    message.content = kept;
    message
}

// ------------------------------------------------------------------ steps of a run

/// A run after a step, the events of the step, and what the host does next.
pub struct Stepped {
    pub run: AgentRunView,
    pub events: Seq<AgentEventView>,
    pub step: RunStep,
}

/// The events of a message that comes in whole.
pub open spec fn whole(m: MessageView) -> Seq<AgentEventView> {
    seq![AgentEventView::MessageStart { message: m }, AgentEventView::MessageEnd { message: m }]
}

/// The events of inputs.
pub open spec fn input_events(messages: Seq<MessageView>) -> Seq<AgentEventView>
    decreases messages.len(),
{
    if messages.len() == 0 {
        Seq::empty()
    } else {
        input_events(messages.drop_last()) + whole(messages.last())
    }
}

/// Events before those of a step.
pub open spec fn after(events: Seq<AgentEventView>, s: Stepped) -> Stepped {
    Stepped { events: events + s.events, ..s }
}

/// The run ends.
pub open spec fn ended(run: AgentRunView, events: Seq<AgentEventView>, end: RunEnd) -> Stepped {
    Stepped {
        run: AgentRunView { phase: Phase::Ended, ..run },
        events: events.push(AgentEventView::AgentEnd { messages: run.new_messages }),
        step: RunStep::Finished(end),
    }
}

/// The queued messages enter the transcript.
pub open spec fn taken_in(run: AgentRunView) -> AgentRunView {
    AgentRunView {
        context: run.context + run.pending,
        new_messages: run.new_messages + run.pending,
        to_emit: run.to_emit + run.pending,
        pending: Seq::empty(),
        ..run
    }
}

/// No further model call is allowed.
pub open spec fn budget_spent(run: AgentRunView) -> bool {
    match run.max_model_calls {
        Some(max) => run.model_calls >= max,
        None => false,
    }
}

/// One more model call.
pub open spec fn counted(n: u64) -> u64 {
    if n < u64::MAX {
        (n + 1) as u64
    } else {
        n
    }
}

/// Between two turns: another turn, the end, or a last look at the queues.
#[verifier::opaque]
pub open spec fn next_turn(run: AgentRunView, clock: Clock) -> Stepped {
    if run.has_more || run.pending.len() > 0 {
        let r = taken_in(run);
        if clock.deadline_passed {
            ended(r, input_events(r.to_emit), RunEnd::Deadline)
        } else if budget_spent(run) {
            ended(r, input_events(r.to_emit), RunEnd::ModelCallBudget)
        } else {
            Stepped {
                run: AgentRunView {
                    to_emit: Seq::empty(),
                    model_calls: counted(run.model_calls),
                    partial: None,
                    added: false,
                    completed: Seq::empty(),
                    phase: Phase::Model,
                    ..r
                },
                events: seq![AgentEventView::TurnStart] + input_events(r.to_emit),
                step: RunStep::CallModel,
            }
        }
    } else if clock.deadline_passed || clock.deadline_fired {
        ended(run, Seq::empty(), RunEnd::Deadline)
    } else if clock.cancelled {
        ended(run, Seq::empty(), RunEnd::Aborted)
    } else {
        Stepped {
            run: AgentRunView { phase: Phase::Late, ..run },
            events: Seq::empty(),
            step: RunStep::AskLate,
        }
    }
}

/// The first queued messages are there: open calls of the transcript run first.
#[verifier::opaque]
pub open spec fn first_steered(run: AgentRunView, messages: Seq<MessageView>, clock: Clock) -> Stepped {
    let r = AgentRunView { pending: messages, has_more: true, ..run };
    match unpaired(run.context) {
        Some(a) => Stepped {
            run: AgentRunView {
                to_emit: Seq::empty(),
                turn: Some(a),
                phase: Phase::TailTools,
                ..r
            },
            events: seq![AgentEventView::TurnStart] + input_events(run.to_emit),
            step: RunStep::RunTools,
        },
        None => next_turn(r, clock),
    }
}

/// The run begins.
#[verifier::opaque]
pub open spec fn begun(run: AgentRunView, clock: Clock) -> Stepped {
    let start = seq![AgentEventView::AgentStart];
    if clock.deadline_passed {
        ended(run, start + input_events(run.to_emit), RunEnd::Deadline)
    } else if clock.cancelled {
        after(start, first_steered(run, Seq::empty(), clock))
    } else {
        Stepped {
            run: AgentRunView { phase: Phase::FirstSteering, ..run },
            events: start,
            step: RunStep::AskSteering,
        }
    }
}

/// Results as messages.
pub open spec fn result_messages(results: Seq<ToolResultMessageView>) -> Seq<MessageView> {
    results.map_values(|r: ToolResultMessageView| MessageView::ToolResult(r))
}

/// The results enter the transcript.
pub open spec fn answered(run: AgentRunView, results: Seq<ToolResultMessageView>) -> AgentRunView {
    AgentRunView {
        context: run.context + result_messages(results),
        new_messages: run.new_messages + result_messages(results),
        ..run
    }
}

/// The event of a turn's end.
pub open spec fn turn_end(m: AssistantMessageView, results: Seq<ToolResultMessageView>) -> AgentEventView {
    AgentEventView::TurnEnd { message: MessageView::Assistant(m), tool_results: results }
}

/// The calls of the turn ran.
#[verifier::opaque]
pub open spec fn tools_ran(
    run: AgentRunView,
    results: Seq<ToolResultMessageView>,
    clock: Clock,
) -> Stepped {
    match run.turn {
        None => Stepped { run, events: Seq::empty(), step: RunStep::Check },
        Some(m) => {
            let r = AgentRunView { turn: None, ..answered(run, results) };
            let events = seq![turn_end(m, results)];
            if run.phase == Phase::TailTools {
                after(events, next_turn(r, clock))
            } else {
                Stepped {
                    run: AgentRunView { phase: Phase::AfterTurn, ..r },
                    events,
                    step: RunStep::Check,
                }
            }
        },
    }
}

/// After a turn: the end, or a look at the queue.
#[verifier::opaque]
pub open spec fn checked(run: AgentRunView, clock: Clock) -> Stepped {
    if clock.deadline_passed {
        ended(run, Seq::empty(), RunEnd::Deadline)
    } else if clock.cancelled {
        next_turn(AgentRunView { pending: Seq::empty(), ..run }, clock)
    } else {
        Stepped {
            run: AgentRunView { phase: Phase::Steering, ..run },
            events: Seq::empty(),
            step: RunStep::AskSteering,
        }
    }
}

/// Queued messages are there.
#[verifier::opaque]
pub open spec fn steered(run: AgentRunView, messages: Seq<MessageView>, clock: Clock) -> Stepped {
    next_turn(AgentRunView { pending: messages, ..run }, clock)
}

/// The last look at the queues.
#[verifier::opaque]
pub open spec fn asked_late(run: AgentRunView, messages: Seq<MessageView>, clock: Clock) -> Stepped {
    if messages.len() == 0 {
        ended(run, Seq::empty(), RunEnd::Completed)
    } else {
        next_turn(AgentRunView { pending: messages, has_more: true, ..run }, clock)
    }
}

/// The answers to calls that do not run.
pub open spec fn synthetic_results(
    calls: Seq<ToolCallView>,
    reason: Seq<char>,
    error: Option<Seq<char>>,
    now: i64,
) -> Seq<ToolResultMessageView> {
    calls.map_values(|c: ToolCallView| agent_tool::synthetic(c, reason, error, now))
}

/// The events of the answer to a call that does not run.
pub open spec fn synthetic_events(call: ToolCallView, answer: ToolResultMessageView) -> Seq<AgentEventView> {
    seq![
        AgentEventView::ToolExecutionStart {
            tool_call_id: call.id,
            tool_name: call.name,
            args: call.arguments,
        },
        AgentEventView::ToolExecutionEnd {
            tool_call_id: call.id,
            tool_name: call.name,
            result: ToolOutputView {
                content: answer.content,
                details: answer.details,
                is_error: true,
            },
            is_error: true,
        },
        AgentEventView::MessageStart { message: MessageView::ToolResult(answer) },
        AgentEventView::MessageEnd { message: MessageView::ToolResult(answer) },
    ]
}

/// The events of the answers to calls that do not run.
pub open spec fn all_synthetic_events(
    calls: Seq<ToolCallView>,
    reason: Seq<char>,
    error: Option<Seq<char>>,
    now: i64,
) -> Seq<AgentEventView>
    decreases calls.len(),
{
    if calls.len() == 0 {
        Seq::empty()
    } else {
        all_synthetic_events(calls.drop_last(), reason, error, now) + synthetic_events(
            calls.last(),
            agent_tool::synthetic(calls.last(), reason, error, now),
        )
    }
}

/// A turn whose calls do not run: each is answered, and the turn ends.
pub open spec fn closed_turn(
    run: AgentRunView,
    m: AssistantMessageView,
    reason: Seq<char>,
    error: Option<Seq<char>>,
    now: i64,
) -> (AgentRunView, Seq<AgentEventView>) {
    let calls = types::tool_calls(m.content);
    let results = synthetic_results(calls, reason, error, now);
    (
        answered(run, results),
        all_synthetic_events(calls, reason, error, now).push(turn_end(m, results)),
    )
}

/// Why the calls of a turn that did not break off do not run.
pub open spec fn skip_reason(reason: StopReason, deadline: bool) -> (Seq<char>, Option<Seq<char>>) {
    if deadline {
        ("aborted"@, Some(DEADLINE_TEXT@))
    } else if reason == StopReason::Length {
        ("length"@, None)
    } else {
        ("skipped"@, None)
    }
}

/// The assistant message of the turn is complete and stands in the transcript.
#[verifier::opaque]
pub open spec fn turn_done(run: AgentRunView, m: AssistantMessageView, clock: Clock) -> Stepped {
    let r = AgentRunView { new_messages: run.new_messages.push(MessageView::Assistant(m)), ..run };
    let calls = types::tool_calls(m.content);
    if broke_off(m.stop_reason) {
        let reason = if m.stop_reason == StopReason::Aborted {
            "aborted"@
        } else {
            "error"@
        };
        let closed = closed_turn(r, m, reason, m.error_message, clock.now);
        ended(
            closed.0,
            closed.1,
            if m.stop_reason != StopReason::Aborted {
                RunEnd::Error
            } else if clock.deadline_fired {
                RunEnd::Deadline
            } else {
                RunEnd::Aborted
            },
        )
    } else if runnable(m.stop_reason) && calls.len() > 0 && !clock.deadline_passed {
        Stepped {
            run: AgentRunView { has_more: true, turn: Some(m), phase: Phase::Tools, ..r },
            events: Seq::empty(),
            step: RunStep::RunTools,
        }
    } else {
        let why = skip_reason(m.stop_reason, clock.deadline_passed);
        let closed = closed_turn(r, m, why.0, why.1, clock.now);
        Stepped {
            run: AgentRunView {
                has_more: m.stop_reason == StopReason::Length && calls.len() > 0
                    && !clock.deadline_passed,
                phase: Phase::AfterTurn,
                ..closed.0
            },
            events: closed.1,
            step: RunStep::Check,
        }
    }
}

/// The transcript with its last message replaced.
pub open spec fn with_last(context: Seq<MessageView>, m: AssistantMessageView) -> Seq<MessageView> {
    if context.len() == 0 {
        context
    } else {
        context.update(context.len() - 1, MessageView::Assistant(m))
    }
}

/// The streamed message is complete.
#[verifier::opaque]
pub open spec fn committed(run: AgentRunView, m: AssistantMessageView, clock: Clock) -> Stepped {
    let message = MessageView::Assistant(m);
    if run.added {
        after(
            seq![AgentEventView::MessageEnd { message }],
            turn_done(
                AgentRunView { context: with_last(run.context, m), added: false, partial: None, ..run },
                m,
                clock,
            ),
        )
    } else {
        after(
            whole(message),
            turn_done(
                AgentRunView { context: run.context.push(message), partial: None, ..run },
                m,
                clock,
            ),
        )
    }
}

/// The message that a broken stream leaves.
pub open spec fn broken(
    run: AgentRunView,
    reason: StopReason,
    error: Seq<char>,
    now: i64,
) -> AssistantMessageView {
    let base = match run.partial {
        Some(p) => p,
        None => types::empty_assistant(run.api, run.provider, run.model, now),
    };
    retained(
        AssistantMessageView { stop_reason: reason, error_message: Some(error), ..base },
        run.completed,
    )
}

/// The stream is read on.
pub open spec fn reading(run: AgentRunView, events: Seq<AgentEventView>) -> Stepped {
    Stepped { run, events, step: RunStep::CallModel }
}

/// The calls that are complete after an event.
pub open spec fn completed_after(completed: Seq<Seq<char>>, e: AssistantMessageEventView) -> Seq<
    Seq<char>,
> {
    match e {
        AssistantMessageEventView::ToolcallEnd { tool_call, .. } => completed.push(tool_call.id),
        _ => completed,
    }
}

/// An event of the model stream.
#[verifier::opaque]
pub open spec fn streamed_event(
    run: AgentRunView,
    e: AssistantMessageEventView,
    clock: Clock,
) -> Stepped {
    match e {
        AssistantMessageEventView::Done { message, .. } => committed(
            run,
            retained(message, run.completed),
            clock,
        ),
        AssistantMessageEventView::Error { error, .. } => committed(
            run,
            retained(error, run.completed),
            clock,
        ),
        AssistantMessageEventView::Start { partial } => if run.added {
            reading(
                AgentRunView {
                    context: with_last(run.context, partial),
                    completed: Seq::empty(),
                    partial: Some(partial),
                    ..run
                },
                seq![
                    AgentEventView::MessageUpdate {
                        message: MessageView::Assistant(partial),
                        event: e,
                    },
                ],
            )
        } else {
            reading(
                AgentRunView {
                    context: run.context.push(MessageView::Assistant(partial)),
                    added: true,
                    partial: Some(partial),
                    ..run
                },
                seq![AgentEventView::MessageStart { message: MessageView::Assistant(partial) }],
            )
        },
        _ => if run.added {
            let p = event::snapshot_of(e);
            reading(
                AgentRunView {
                    context: with_last(run.context, p),
                    completed: completed_after(run.completed, e),
                    partial: Some(p),
                    ..run
                },
                seq![
                    AgentEventView::MessageUpdate { message: MessageView::Assistant(p), event: e },
                ],
            )
        } else {
            reading(run, Seq::empty())
        },
    }
}

/// What came of the model stream.
pub open spec fn streamed(run: AgentRunView, next: StreamNextView, clock: Clock) -> Stepped {
    match next {
        StreamNextView::Event(e) => streamed_event(run, e, clock),
        StreamNextView::Closed => committed(
            run,
            broken(run, StopReason::Error, MISSING_TERMINAL_EVENT@, clock.now),
            clock,
        ),
        StreamNextView::Aborted(why) => committed(
            run,
            broken(run, StopReason::Aborted, why, clock.now),
            clock,
        ),
    }
}

// ------------------------------------------------------------------ running

fn emit(events: &mut Vec<AgentEvent>, e: AgentEvent)
    ensures
        text::views(final(events)@) == text::views(old(events)@).push(e@),
{
    proof {
        text::lemma_views_push(events@, e);
    }
    events.push(e);
}

fn emit_whole(events: &mut Vec<AgentEvent>, m: &Message)
    ensures
        text::views(final(events)@) == text::views(old(events)@) + whole(m@),
{
    let ghost before = text::views(events@);
    emit(events, AgentEvent::MessageStart { message: m.clone() });
    emit(events, AgentEvent::MessageEnd { message: m.clone() });
    assert(text::views(events@) =~= before + whole(m@));
}

fn emit_inputs(events: &mut Vec<AgentEvent>, messages: &Vec<Message>)
    ensures
        text::views(final(events)@) == text::views(old(events)@) + input_events(
            text::views(messages@),
        ),
{
    let ghost before = text::views(events@);
    let ghost all = text::views(messages@);
    let mut i: usize = 0;
    assert(text::views(events@) =~= before + input_events(all.take(0)));
    while i < messages.len()
        invariant
            i <= messages@.len(),
            all == text::views(messages@),
            text::views(events@) == before + input_events(all.take(i as int)),
        decreases messages@.len() - i,
    {
        assert(all.take(i as int + 1).drop_last() =~= all.take(i as int));
        emit_whole(events, &messages[i]);
        assert(text::views(events@) =~= before + input_events(all.take(i as int + 1)));
        i += 1;
    }
    assert(all.take(i as int) =~= all);
}

fn extend(list: &mut Vec<Message>, more: &Vec<Message>)
    ensures
        text::views(final(list)@) == text::views(old(list)@) + text::views(more@),
{
    let ghost before = text::views(list@);
    let mut copy = clone_all(more);
    let ghost added = copy@;
    list.append(&mut copy);
    assert(text::views(list@) =~= before + text::views(added));
}

fn extend_results(list: &mut Vec<Message>, results: &Vec<ToolResultMessage>)
    ensures
        text::views(final(list)@) == text::views(old(list)@) + result_messages(
            text::views(results@),
        ),
{
    let ghost before = text::views(list@);
    let ghost all = result_messages(text::views(results@));
    let mut i: usize = 0;
    assert(text::views(list@) =~= before + all.take(0));
    while i < results.len()
        invariant
            i <= results@.len(),
            all == result_messages(text::views(results@)),
            text::views(list@) == before + all.take(i as int),
        decreases results@.len() - i,
    {
        let m = Message::ToolResult(results[i].clone());
        proof {
            text::lemma_views_push(list@, m);
            assert(all.take(i as int + 1) =~= all.take(i as int).push(all[i as int]));
            assert((before + all.take(i as int)).push(m@) =~= before + all.take(i as int + 1));
        }
        list.push(m);
        i += 1;
    }
    assert(all.take(i as int) =~= all);
}

fn set_last(list: &mut Vec<Message>, m: &AssistantMessage)
    ensures
        text::views(final(list)@) == with_last(text::views(old(list)@), m@),
{
    let ghost before = text::views(list@);
    let n: usize = list.len();
    if n > 0 {
        list.set(n - 1, Message::Assistant(m.clone()));
        assert(text::views(list@) =~= with_last(before, m@));
    }
}

impl AgentRun {
    /// A run on a transcript, with new messages.
    pub fn new(
        prompts: Vec<Message>,
        context: Vec<Message>,
        api: String,
        provider: String,
        model: String,
        max_model_calls: Option<u64>,
    ) -> (r: AgentRun)
        ensures
            r@ == start_of(
                text::views(prompts@),
                text::views(context@),
                api@,
                provider@,
                model@,
                max_model_calls,
            ),
    {
        let mut context = context;
        extend(&mut context, &prompts);
        let r = AgentRun {
            api,
            provider,
            model,
            context,
            new_messages: clone_all(&prompts),
            to_emit: prompts,
            pending: Vec::new(),
            model_calls: 0,
            max_model_calls,
            has_more: true,
            turn: None,
            partial: None,
            added: false,
            completed: Vec::new(),
            phase: Phase::Begin,
        };
        assert(r@.pending =~= Seq::empty());
        assert(r@.completed =~= Seq::empty());
        r
    }

    /// What the model is told.
    pub fn request(&self, system_prompt: &Vec<String>, tools: &Vec<Tool>) -> (r: Context)
        ensures
            r@ == request_of(self@, text::views(system_prompt@), text::views(tools@)),
    {
        Context {
            system_prompt: clone_strings(system_prompt),
            messages: clone_all(&self.context),
            tools: Some(clone_all(tools)),
        }
    }

    /// The messages that the run added, and why it ended.
    pub fn report(&self, end: RunEnd) -> (r: RunReport)
        ensures
            text::views(r.messages@) == self@.new_messages,
            r.end == end,
    {
        RunReport { messages: clone_all(&self.new_messages), end }
    }

    fn end(&mut self, events: &mut Vec<AgentEvent>, end: RunEnd) -> (step: RunStep)
        ensures
            ({
                let s = ended(old(self)@, text::views(old(events)@), end);
                final(self)@ == s.run && text::views(final(events)@) == s.events && step == s.step
            }),
    {
        emit(events, AgentEvent::AgentEnd { messages: clone_all(&self.new_messages) });
        self.phase = Phase::Ended;
        RunStep::Finished(end)
    }

    fn take_in(&mut self)
        ensures
            final(self)@ == taken_in(old(self)@),
    {
        extend(&mut self.context, &self.pending);
        extend(&mut self.new_messages, &self.pending);
        extend(&mut self.to_emit, &self.pending);
        self.pending = Vec::new();
        assert(self@.pending =~= Seq::empty());
    }

    fn is_spent(&self) -> (r: bool)
        ensures
            r == budget_spent(self@),
    {
        match self.max_model_calls {
            Some(max) => self.model_calls >= max,
            None => false,
        }
    }

    fn go_on(&mut self, events: &mut Vec<AgentEvent>, clock: Clock) -> (step: RunStep)
        ensures
            ({
                let s = after(text::views(old(events)@), next_turn(old(self)@, clock));
                final(self)@ == s.run && text::views(final(events)@) == s.events && step == s.step
            }),
    {
        let ghost before = text::views(events@);
        let ghost run = self@;
        proof {
            reveal(next_turn);
        }
        if self.has_more || self.pending.len() > 0 {
            assert(run.has_more || run.pending.len() > 0);
            let spent = self.is_spent();
            self.take_in();
            let ghost r = self@;
            if clock.deadline_passed || spent {
                emit_inputs(events, &self.to_emit);
                let end = if clock.deadline_passed {
                    RunEnd::Deadline
                } else {
                    RunEnd::ModelCallBudget
                };
                let step = self.end(events, end);
                assert(text::views(events@) =~= before + next_turn(run, clock).events);
                step
            } else {
                emit(events, AgentEvent::TurnStart);
                emit_inputs(events, &self.to_emit);
                self.to_emit = Vec::new();
                if self.model_calls < u64::MAX {
                    self.model_calls = self.model_calls + 1;
                }
                self.partial = None;
                self.added = false;
                self.completed = Vec::new();
                self.phase = Phase::Model;
                assert(self@.to_emit =~= Seq::empty());
                assert(self@.completed =~= Seq::empty());
                assert(text::views(events@) =~= before + next_turn(run, clock).events);
                RunStep::CallModel
            }
        } else {
            assert(run.pending.len() == 0);
            if clock.deadline_passed || clock.deadline_fired {
                let step = self.end(events, RunEnd::Deadline);
                assert(text::views(events@) =~= before + next_turn(run, clock).events);
                step
            } else if clock.cancelled {
                let step = self.end(events, RunEnd::Aborted);
                assert(text::views(events@) =~= before + next_turn(run, clock).events);
                step
            } else {
                self.phase = Phase::Late;
                assert(text::views(events@) =~= before + next_turn(run, clock).events);
                RunStep::AskLate
            }
        }
    }

    fn first(&mut self, events: &mut Vec<AgentEvent>, messages: Vec<Message>, clock: Clock) -> (step:
        RunStep)
        ensures
            ({
                let s = after(
                    text::views(old(events)@),
                    first_steered(old(self)@, text::views(messages@), clock),
                );
                final(self)@ == s.run && text::views(final(events)@) == s.events && step == s.step
            }),
    {
        let ghost before = text::views(events@);
        let ghost run = self@;
        proof {
            reveal(first_steered);
        }
        self.pending = messages;
        self.has_more = true;
        let tail = match unpaired_tool_call_tail(&self.context) {
            Some(a) => Some(a.clone()),
            None => None,
        };
        match tail {
            Some(a) => {
                emit(events, AgentEvent::TurnStart);
                emit_inputs(events, &self.to_emit);
                self.to_emit = Vec::new();
                self.turn = Some(a);
                self.phase = Phase::TailTools;
                assert(self@.to_emit =~= Seq::empty());
                assert(text::views(events@) =~= before + first_steered(
                    run,
                    text::views(messages@),
                    clock,
                ).events);
                RunStep::RunTools
            },
            None => self.go_on(events, clock),
        }
    }

    /// The run begins.
    pub fn begin(&mut self, clock: Clock) -> (turn: RunTurn)
        ensures
            ({
                let s = begun(old(self)@, clock);
                final(self)@ == s.run && text::views(turn.events@) == s.events && turn.step
                    == s.step
            }),
    {
        let ghost run = self@;
        proof {
            reveal(begun);
        }
        let mut events: Vec<AgentEvent> = Vec::new();
        emit(&mut events, AgentEvent::AgentStart);
        assert(text::views(events@) =~= seq![AgentEventView::AgentStart]);
        let step = if clock.deadline_passed {
            emit_inputs(&mut events, &self.to_emit);
            self.end(&mut events, RunEnd::Deadline)
        } else if clock.cancelled {
            let none: Vec<Message> = Vec::new();
            assert(text::views(none@) =~= Seq::empty());
            self.first(&mut events, none, clock)
        } else {
            self.phase = Phase::FirstSteering;
            RunStep::AskSteering
        };
        RunTurn { events, step }
    }

    /// The first queued messages are there.
    pub fn first_steering(&mut self, messages: Vec<Message>, clock: Clock) -> (turn: RunTurn)
        ensures
            ({
                let s = first_steered(old(self)@, text::views(messages@), clock);
                final(self)@ == s.run && text::views(turn.events@) == s.events && turn.step
                    == s.step
            }),
    {
        let mut events: Vec<AgentEvent> = Vec::new();
        let step = self.first(&mut events, messages, clock);
        assert(text::views(events@) =~= first_steered(
            old(self)@,
            text::views(messages@),
            clock,
        ).events);
        RunTurn { events, step }
    }

    /// Queued messages are there.
    pub fn steering(&mut self, messages: Vec<Message>, clock: Clock) -> (turn: RunTurn)
        ensures
            ({
                let s = steered(old(self)@, text::views(messages@), clock);
                final(self)@ == s.run && text::views(turn.events@) == s.events && turn.step
                    == s.step
            }),
    {
        proof {
            reveal(steered);
        }
        let mut events: Vec<AgentEvent> = Vec::new();
        self.pending = messages;
        let step = self.go_on(&mut events, clock);
        assert(text::views(events@) =~= steered(old(self)@, text::views(messages@), clock).events);
        RunTurn { events, step }
    }

    /// The last look at the queues.
    pub fn late(&mut self, messages: Vec<Message>, clock: Clock) -> (turn: RunTurn)
        ensures
            ({
                let s = asked_late(old(self)@, text::views(messages@), clock);
                final(self)@ == s.run && text::views(turn.events@) == s.events && turn.step
                    == s.step
            }),
    {
        proof {
            reveal(asked_late);
        }
        let mut events: Vec<AgentEvent> = Vec::new();
        let step = if messages.len() == 0 {
            self.end(&mut events, RunEnd::Completed)
        } else {
            self.pending = messages;
            self.has_more = true;
            self.go_on(&mut events, clock)
        };
        assert(text::views(events@) =~= asked_late(
            old(self)@,
            text::views(messages@),
            clock,
        ).events);
        RunTurn { events, step }
    }

    /// After a turn, with the clock as it is then.
    pub fn check(&mut self, clock: Clock) -> (turn: RunTurn)
        ensures
            ({
                let s = checked(old(self)@, clock);
                final(self)@ == s.run && text::views(turn.events@) == s.events && turn.step
                    == s.step
            }),
    {
        proof {
            reveal(checked);
        }
        let mut events: Vec<AgentEvent> = Vec::new();
        let step = if clock.deadline_passed {
            self.end(&mut events, RunEnd::Deadline)
        } else if clock.cancelled {
            self.pending = Vec::new();
            assert(self@.pending =~= Seq::empty());
            self.go_on(&mut events, clock)
        } else {
            self.phase = Phase::Steering;
            RunStep::AskSteering
        };
        assert(text::views(events@) =~= checked(old(self)@, clock).events);
        RunTurn { events, step }
    }

    fn answer(&mut self, results: &Vec<ToolResultMessage>)
        ensures
            final(self)@ == answered(old(self)@, text::views(results@)),
    {
        extend_results(&mut self.context, results);
        extend_results(&mut self.new_messages, results);
    }

    /// The calls of the turn ran; their results, in the order in which they came.
    pub fn tools_done(&mut self, results: Vec<ToolResultMessage>, clock: Clock) -> (turn: RunTurn)
        ensures
            ({
                let s = tools_ran(old(self)@, text::views(results@), clock);
                final(self)@ == s.run && text::views(turn.events@) == s.events && turn.step
                    == s.step
            }),
    {
        proof {
            reveal(tools_ran);
        }
        let ghost run = self@;
        let ghost seen = text::views(results@);
        let mut events: Vec<AgentEvent> = Vec::new();
        let message = clone_opt(&self.turn);
        match message {
            None => {
                assert(text::views(events@) =~= tools_ran(run, seen, clock).events);
                RunTurn { events, step: RunStep::Check }
            },
            Some(m) => {
                let tail = self.phase == Phase::TailTools;
                self.answer(&results);
                self.turn = None;
                emit(
                    &mut events,
                    AgentEvent::TurnEnd { message: Message::Assistant(m), tool_results: results },
                );
                assert(text::views(events@) =~= seq![turn_end(m@, seen)]);
                let step = if tail {
                    self.go_on(&mut events, clock)
                } else {
                    self.phase = Phase::AfterTurn;
                    RunStep::Check
                };
                RunTurn { events, step }
            },
        }
    }

    fn close_turn(
        &mut self,
        events: &mut Vec<AgentEvent>,
        m: &AssistantMessage,
        reason: &str,
        error: Option<&str>,
        now: i64,
    )
        ensures
            ({
                let c = closed_turn(old(self)@, m@, reason@, text::opt_view(error), now);
                final(self)@ == c.0 && text::views(final(events)@) == text::views(old(events)@)
                    + c.1
            }),
    {
        let ghost before = text::views(events@);
        let ghost run = self@;
        let calls = m.tool_calls();
        let ghost all = types::tool_calls(m@.content);
        let ghost e = text::opt_view(error);
        let mut results: Vec<ToolResultMessage> = Vec::new();
        let mut i: usize = 0;
        assert(text::views(events@) =~= before + all_synthetic_events(all.take(0), reason@, e, now));
        while i < calls.len()
            invariant
                i <= calls@.len(),
                all.len() == calls@.len(),
                forall|j: int| 0 <= j < all.len() ==> #[trigger] calls@[j]@ == all[j],
                e == text::opt_view(error),
                results@.len() == i,
                forall|j: int|
                    0 <= j < i ==> (#[trigger] results@[j])@ == agent_tool::synthetic(
                        all[j],
                        reason@,
                        e,
                        now,
                    ),
                text::views(events@) == before + all_synthetic_events(
                    all.take(i as int),
                    reason@,
                    e,
                    now,
                ),
            decreases calls@.len() - i,
        {
            assert(calls@[i as int]@ == all[i as int]);
            emit_synthetic(events, calls[i], reason, error, now);
            results.push(synthetic_tool_result_at(calls[i], reason, error, now));
            proof {
                assert(all.take(i as int + 1).drop_last() =~= all.take(i as int));
                assert(text::views(events@) =~= before + all_synthetic_events(
                    all.take(i as int + 1),
                    reason@,
                    e,
                    now,
                ));
            }
            i += 1;
        }
        assert(all.take(i as int) =~= all);
        assert(text::views(results@) =~= synthetic_results(all, reason@, e, now));
        self.answer(&results);
        emit(
            events,
            AgentEvent::TurnEnd { message: Message::Assistant(m.clone()), tool_results: results },
        );
        assert(text::views(events@) =~= before + closed_turn(run, m@, reason@, e, now).1);
    }

    fn finish_turn(&mut self, events: &mut Vec<AgentEvent>, m: AssistantMessage, clock: Clock) -> (step:
        RunStep)
        ensures
            ({
                let s = after(text::views(old(events)@), turn_done(old(self)@, m@, clock));
                final(self)@ == s.run && text::views(final(events)@) == s.events && step == s.step
            }),
    {
        proof {
            reveal(turn_done);
        }
        let ghost before = text::views(events@);
        let ghost run = self@;
        let added = Message::Assistant(m.clone());
        proof {
            text::lemma_views_push(self.new_messages@, added);
        }
        self.new_messages.push(added);
        let any = m.tool_calls().len() > 0;
        if is_broken(m.stop_reason) {
            let aborted = matches!(m.stop_reason, StopReason::Aborted);
            let error = match &m.error_message {
                Some(e) => Some(e.as_str()),
                None => None,
            };
            let reason = if aborted {
                "aborted"
            } else {
                "error"
            };
            self.close_turn(events, &m, reason, error, clock.now);
            let end = if !aborted {
                RunEnd::Error
            } else if clock.deadline_fired {
                RunEnd::Deadline
            } else {
                RunEnd::Aborted
            };
            let step = self.end(events, end);
            assert(text::views(events@) =~= before + turn_done(run, m@, clock).events);
            step
        } else if may_run(m.stop_reason) && any && !clock.deadline_passed {
            self.has_more = true;
            self.turn = Some(m);
            self.phase = Phase::Tools;
            assert(text::views(events@) =~= before + turn_done(run, m@, clock).events);
            RunStep::RunTools
        } else {
            let length = matches!(m.stop_reason, StopReason::Length);
            if clock.deadline_passed {
                self.close_turn(events, &m, "aborted", Some(DEADLINE_TEXT), clock.now);
            } else if length {
                self.close_turn(events, &m, "length", None, clock.now);
            } else {
                self.close_turn(events, &m, "skipped", None, clock.now);
            }
            self.has_more = length && any && !clock.deadline_passed;
            self.phase = Phase::AfterTurn;
            assert(text::views(events@) =~= before + turn_done(run, m@, clock).events);
            RunStep::Check
        }
    }

    fn commit(&mut self, m: AssistantMessage, clock: Clock) -> (turn: RunTurn)
        ensures
            ({
                let s = committed(old(self)@, m@, clock);
                final(self)@ == s.run && text::views(turn.events@) == s.events && turn.step
                    == s.step
            }),
    {
        proof {
            reveal(committed);
        }
        let mut events: Vec<AgentEvent> = Vec::new();
        if self.added {
            set_last(&mut self.context, &m);
            self.added = false;
            emit(&mut events, AgentEvent::MessageEnd { message: Message::Assistant(m.clone()) });
            assert(text::views(events@) =~= seq![
                AgentEventView::MessageEnd { message: MessageView::Assistant(m@) },
            ]);
        } else {
            let whole_message = Message::Assistant(m.clone());
            emit_whole(&mut events, &whole_message);
            assert(text::views(events@) =~= whole(MessageView::Assistant(m@)));
            proof {
                text::lemma_views_push(self.context@, whole_message);
            }
            self.context.push(whole_message);
        }
        self.partial = None;
        let step = self.finish_turn(&mut events, m, clock);
        RunTurn { events, step }
    }

    fn break_off(&self, reason: StopReason, error: &str, now: i64) -> (r: AssistantMessage)
        ensures
            r@ == broken(self@, reason, error@, now),
    {
        let mut base = match &self.partial {
            Some(p) => p.clone(),
            None => AssistantMessage::empty_at(
                self.api.as_str(),
                self.provider.as_str(),
                self.model.as_str(),
                now,
            ),
        };
        base.stop_reason = reason;
        base.error_message = Some(error.to_owned());
        retain_completed_tool_calls(base, &self.completed)
    }

    fn started(&mut self, partial: AssistantMessage, clock: Clock) -> (turn: RunTurn)
        ensures
            ({
                let s = streamed_event(
                    old(self)@,
                    AssistantMessageEventView::Start { partial: partial@ },
                    clock,
                );
                final(self)@ == s.run && text::views(turn.events@) == s.events && turn.step
                    == s.step
            }),
    {
        proof {
            reveal(streamed_event);
        }
        let mut events: Vec<AgentEvent> = Vec::new();
        if self.added {
            set_last(&mut self.context, &partial);
            self.completed = Vec::new();
            assert(self@.completed =~= Seq::empty());
            emit(
                &mut events,
                AgentEvent::MessageUpdate {
                    message: Message::Assistant(partial.clone()),
                    event: AssistantMessageEvent::Start { partial: partial.clone() },
                },
            );
        } else {
            let m = Message::Assistant(partial.clone());
            proof {
                text::lemma_views_push(self.context@, m);
            }
            self.context.push(m);
            self.added = true;
            emit(
                &mut events,
                AgentEvent::MessageStart { message: Message::Assistant(partial.clone()) },
            );
        }
        self.partial = Some(partial);
        assert(text::views(events@) =~= streamed_event(
            old(self)@,
            AssistantMessageEventView::Start { partial: partial@ },
            clock,
        ).events);
        RunTurn { events, step: RunStep::CallModel }
    }

    fn advanced(&mut self, e: AssistantMessageEvent, clock: Clock) -> (turn: RunTurn)
        requires
            !(e@ is Done),
            !(e@ is Error),
            !(e@ is Start),
        ensures
            ({
                let s = streamed_event(old(self)@, e@, clock);
                final(self)@ == s.run && text::views(turn.events@) == s.events && turn.step
                    == s.step
            }),
    {
        proof {
            reveal(streamed_event);
        }
        let mut events: Vec<AgentEvent> = Vec::new();
        if self.added {
            let p = e.partial().clone();
            if let AssistantMessageEvent::ToolcallEnd { tool_call, .. } = &e {
                let id = tool_call.id.clone();
                proof {
                    text::lemma_views_push(self.completed@, id);
                }
                self.completed.push(id);
            }
            set_last(&mut self.context, &p);
            emit(
                &mut events,
                AgentEvent::MessageUpdate { message: Message::Assistant(p.clone()), event: e },
            );
            self.partial = Some(p);
        }
        assert(text::views(events@) =~= streamed_event(old(self)@, e@, clock).events);
        RunTurn { events, step: RunStep::CallModel }
    }

    /// What came of the model stream.
    pub fn stream(&mut self, next: StreamNext, clock: Clock) -> (turn: RunTurn)
        ensures
            ({
                let s = streamed(old(self)@, next@, clock);
                final(self)@ == s.run && text::views(turn.events@) == s.events && turn.step
                    == s.step
            }),
    {
        match next {
            StreamNext::Closed => {
                let m = self.break_off(StopReason::Error, MISSING_TERMINAL_EVENT, clock.now);
                self.commit(m, clock)
            },
            StreamNext::Aborted(why) => {
                let m = self.break_off(StopReason::Aborted, why.as_str(), clock.now);
                self.commit(m, clock)
            },
            StreamNext::Event(e) => {
                proof {
                    reveal(streamed_event);
                }
                match e {
                    AssistantMessageEvent::Done { message, .. } => {
                        let m = retain_completed_tool_calls(message, &self.completed);
                        self.commit(m, clock)
                    },
                    AssistantMessageEvent::Error { error, .. } => {
                        let m = retain_completed_tool_calls(error, &self.completed);
                        self.commit(m, clock)
                    },
                    AssistantMessageEvent::Start { partial } => self.started(partial, clock),
                    other => self.advanced(other, clock),
                }
            },
        }
    }
}

fn emit_synthetic(
    events: &mut Vec<AgentEvent>,
    call: &ToolCall,
    reason: &str,
    error: Option<&str>,
    now: i64,
)
    ensures
        text::views(final(events)@) == text::views(old(events)@) + synthetic_events(
            call@,
            agent_tool::synthetic(call@, reason@, text::opt_view(error), now),
        ),
{
    let ghost before = text::views(events@);
    let m = synthetic_tool_result_at(call, reason, error, now);
    emit(
        events,
        AgentEvent::ToolExecutionStart {
            tool_call_id: call.id.clone(),
            tool_name: call.name.clone(),
            args: call.arguments.clone(),
        },
    );
    emit(
        events,
        AgentEvent::ToolExecutionEnd {
            tool_call_id: call.id.clone(),
            tool_name: call.name.clone(),
            result: ToolOutput {
                content: clone_all(&m.content),
                details: clone_opt(&m.details),
                is_error: true,
            },
            is_error: true,
        },
    );
    emit(events, AgentEvent::MessageStart { message: Message::ToolResult(m.clone()) });
    emit(events, AgentEvent::MessageEnd { message: Message::ToolResult(m.clone()) });
    assert(text::views(events@) =~= before + synthetic_events(call@, m@));
}

/// A run on a transcript, with new messages.
pub open spec fn start_of(
    prompts: Seq<MessageView>,
    context: Seq<MessageView>,
    api: Seq<char>,
    provider: Seq<char>,
    model: Seq<char>,
    max_model_calls: Option<u64>,
) -> AgentRunView {
    AgentRunView {
        api,
        provider,
        model,
        context: context + prompts,
        new_messages: prompts,
        to_emit: prompts,
        pending: Seq::empty(),
        model_calls: 0,
        max_model_calls,
        has_more: true,
        turn: None,
        partial: None,
        added: false,
        completed: Seq::empty(),
        phase: Phase::Begin,
    }
}

// ------------------------------------------------------------------ what holds of every run

/// What the host brings.
pub enum Input {
    Begin,
    FirstSteering(Seq<MessageView>),
    Steering(Seq<MessageView>),
    Late(Seq<MessageView>),
    Check,
    Tools(Seq<ToolResultMessageView>),
    Stream(StreamNextView),
}

/// What the model is told: the prompt, the whole transcript, and the tools.
pub open spec fn request_of(
    run: AgentRunView,
    system_prompt: Seq<Seq<char>>,
    tools: Seq<types::ToolView>,
) -> ContextView {
    ContextView { system_prompt, messages: run.context, tools: Some(tools) }
}

/// The run waits for such an input.
pub open spec fn expects(run: AgentRunView, input: Input) -> bool {
    match input {
        Input::Begin => run.phase == Phase::Begin,
        Input::FirstSteering(_) => run.phase == Phase::FirstSteering,
        Input::Steering(_) => run.phase == Phase::Steering,
        Input::Late(_) => run.phase == Phase::Late,
        Input::Check => run.phase == Phase::AfterTurn,
        Input::Tools(_) => run.turn is Some && (run.phase == Phase::Tools || run.phase
            == Phase::TailTools),
        Input::Stream(_) => run.phase == Phase::Model,
    }
}

/// A run after an input.
pub open spec fn stepped(run: AgentRunView, input: Input, clock: Clock) -> Stepped {
    match input {
        Input::Begin => begun(run, clock),
        Input::FirstSteering(m) => first_steered(run, m, clock),
        Input::Steering(m) => steered(run, m, clock),
        Input::Late(m) => asked_late(run, m, clock),
        Input::Check => checked(run, clock),
        Input::Tools(r) => tools_ran(run, r, clock),
        Input::Stream(n) => streamed(run, n, clock),
    }
}

/// The transcript is what it was at first, then all that the run reports, then the message that is
/// being streamed.
pub open spec fn faithful(run: AgentRunView, base: Seq<MessageView>) -> bool {
    &&& run.added ==> run.phase == Phase::Model && run.partial is Some
    &&& run.context == base + run.new_messages + (if run.added {
        seq![MessageView::Assistant(run.partial.unwrap())]
    } else {
        Seq::empty()
    })
}

/// The calls of the model stay within their budget.
pub open spec fn within_budget(run: AgentRunView) -> bool {
    match run.max_model_calls {
        Some(max) => run.model_calls <= max,
        None => true,
    }
}

proof fn lemma_next_turn(run: AgentRunView, base: Seq<MessageView>, clock: Clock)
    requires
        !run.added,
        run.context == base + run.new_messages,
        within_budget(run),
    ensures
        faithful(next_turn(run, clock).run, base),
        within_budget(next_turn(run, clock).run),
{
    reveal(next_turn);
    let r = taken_in(run);
    assert(r.context =~= base + r.new_messages);
    assert(base + r.new_messages + Seq::<MessageView>::empty() =~= base + r.new_messages);
    assert(base + run.new_messages + Seq::<MessageView>::empty() =~= base + run.new_messages);
}

proof fn lemma_answered(run: AgentRunView, base: Seq<MessageView>, results: Seq<ToolResultMessageView>)
    requires
        run.context == base + run.new_messages,
    ensures
        answered(run, results).context == base + answered(run, results).new_messages,
{
    assert(answered(run, results).context =~= base + answered(run, results).new_messages);
}

proof fn lemma_turn_done(run: AgentRunView, base: Seq<MessageView>, m: AssistantMessageView, clock: Clock)
    requires
        !run.added,
        run.context == (base + run.new_messages).push(MessageView::Assistant(m)),
        within_budget(run),
    ensures
        faithful(turn_done(run, m, clock).run, base),
        within_budget(turn_done(run, m, clock).run),
{
    reveal(turn_done);
    let r = AgentRunView { new_messages: run.new_messages.push(MessageView::Assistant(m)), ..run };
    assert(r.context =~= base + r.new_messages);
    assert forall|results: Seq<ToolResultMessageView>| #[trigger]
        answered(r, results).context == base + answered(r, results).new_messages
            + Seq::<MessageView>::empty() by {
        lemma_answered(r, base, results);
        assert(base + answered(r, results).new_messages + Seq::<MessageView>::empty() =~= base
            + answered(r, results).new_messages);
    }
    assert(base + r.new_messages + Seq::<MessageView>::empty() =~= base + r.new_messages);
}

proof fn lemma_committed(run: AgentRunView, base: Seq<MessageView>, m: AssistantMessageView, clock: Clock)
    requires
        faithful(run, base),
        within_budget(run),
    ensures
        faithful(committed(run, m, clock).run, base),
        within_budget(committed(run, m, clock).run),
{
    reveal(committed);
    let message = MessageView::Assistant(m);
    if run.added {
        let r = AgentRunView { context: with_last(run.context, m), added: false, partial: None, ..run };
        assert(r.context =~= (base + run.new_messages).push(message));
        lemma_turn_done(r, base, m, clock);
    } else {
        let r = AgentRunView { context: run.context.push(message), partial: None, ..run };
        assert(base + run.new_messages + Seq::<MessageView>::empty() =~= base + run.new_messages);
        lemma_turn_done(r, base, m, clock);
    }
}

proof fn lemma_streamed(run: AgentRunView, base: Seq<MessageView>, next: StreamNextView, clock: Clock)
    requires
        faithful(run, base),
        run.phase == Phase::Model,
        within_budget(run),
    ensures
        faithful(streamed(run, next, clock).run, base),
        within_budget(streamed(run, next, clock).run),
{
    match next {
        StreamNextView::Closed => lemma_committed(
            run,
            base,
            broken(run, StopReason::Error, MISSING_TERMINAL_EVENT@, clock.now),
            clock,
        ),
        StreamNextView::Aborted(why) => lemma_committed(
            run,
            base,
            broken(run, StopReason::Aborted, why, clock.now),
            clock,
        ),
        StreamNextView::Event(e) => {
            reveal(streamed_event);
            match e {
                AssistantMessageEventView::Done { message, .. } => lemma_committed(
                    run,
                    base,
                    retained(message, run.completed),
                    clock,
                ),
                AssistantMessageEventView::Error { error, .. } => lemma_committed(
                    run,
                    base,
                    retained(error, run.completed),
                    clock,
                ),
                _ => {
                    let p = event::snapshot_of(e);
                    let m = seq![MessageView::Assistant(p)];
                    if run.added {
                        assert(with_last(run.context, p) =~= base + run.new_messages + m);
                    } else {
                        assert(run.context.push(MessageView::Assistant(p)) =~= base
                            + run.new_messages + m);
                    }
                },
            }
        },
    }
}

/// A run starts on its transcript and its prompts.
pub proof fn law_a_run_starts_faithful(
    prompts: Seq<MessageView>,
    context: Seq<MessageView>,
    api: Seq<char>,
    provider: Seq<char>,
    model: Seq<char>,
    max_model_calls: Option<u64>,
)
    ensures
        faithful(start_of(prompts, context, api, provider, model, max_model_calls), context),
        within_budget(start_of(prompts, context, api, provider, model, max_model_calls)),
{
    assert(context + prompts + Seq::<MessageView>::empty() =~= context + prompts);
}

/// Every step keeps the transcript in line with what the run will report, loses no queued message,
/// and stays within the budget of model calls.
pub proof fn law_transcript_and_report_agree(
    run: AgentRunView,
    base: Seq<MessageView>,
    input: Input,
    clock: Clock,
)
    requires
        faithful(run, base),
        within_budget(run),
        expects(run, input),
    ensures
        faithful(stepped(run, input, clock).run, base),
        within_budget(stepped(run, input, clock).run),
{
    assert(base + run.new_messages + Seq::<MessageView>::empty() =~= base + run.new_messages);
    match input {
        Input::Begin => {
            reveal(begun);
            reveal(first_steered);
            lemma_next_turn(
                AgentRunView { pending: Seq::empty(), has_more: true, ..run },
                base,
                clock,
            );
        },
        Input::FirstSteering(m) => {
            reveal(first_steered);
            lemma_next_turn(AgentRunView { pending: m, has_more: true, ..run }, base, clock);
        },
        Input::Steering(m) => {
            reveal(steered);
            lemma_next_turn(AgentRunView { pending: m, ..run }, base, clock);
        },
        Input::Late(m) => {
            reveal(asked_late);
            lemma_next_turn(AgentRunView { pending: m, has_more: true, ..run }, base, clock);
        },
        Input::Check => {
            reveal(checked);
            lemma_next_turn(AgentRunView { pending: Seq::empty(), ..run }, base, clock);
        },
        Input::Tools(results) => {
            reveal(tools_ran);
            lemma_answered(run, base, results);
            let r = AgentRunView { turn: None, ..answered(run, results) };
            assert(base + r.new_messages + Seq::<MessageView>::empty() =~= base + r.new_messages);
            lemma_next_turn(r, base, clock);
        },
        Input::Stream(n) => lemma_streamed(run, base, n, clock),
    }
}

/// What a run has to say at its end: its last event is the report of all its messages.
pub open spec fn reported(s: Stepped) -> bool {
    &&& s.step is Finished <==> s.run.phase == Phase::Ended
    &&& s.step is Finished ==> s.events.len() > 0 && s.events.last() == (AgentEventView::AgentEnd {
        messages: s.run.new_messages,
    })
}

proof fn lemma_after_reported(events: Seq<AgentEventView>, s: Stepped)
    requires
        reported(s),
    ensures
        reported(after(events, s)),
{
    if s.step is Finished {
        assert((events + s.events).last() == s.events.last());
    }
}

proof fn lemma_committed_reported(run: AgentRunView, m: AssistantMessageView, clock: Clock)
    requires
        run.phase == Phase::Model,
    ensures
        reported(committed(run, m, clock)),
{
    reveal(committed);
    reveal(turn_done);
    let message = MessageView::Assistant(m);
    if run.added {
        let r = AgentRunView { context: with_last(run.context, m), added: false, partial: None, ..run };
        lemma_after_reported(
            seq![AgentEventView::MessageEnd { message }],
            turn_done(r, m, clock),
        );
    } else {
        let r = AgentRunView { context: run.context.push(message), partial: None, ..run };
        lemma_after_reported(whole(message), turn_done(r, m, clock));
    }
}

/// A run is over exactly when its host is told so, and the last event then is the report of all the
/// messages that the run added.
pub proof fn law_the_last_event_reports_the_run(run: AgentRunView, input: Input, clock: Clock)
    requires
        expects(run, input),
    ensures
        reported(stepped(run, input, clock)),
{
    reveal(next_turn);
    match input {
        Input::Begin => {
            reveal(begun);
            reveal(first_steered);
            lemma_after_reported(
                seq![AgentEventView::AgentStart],
                first_steered(run, Seq::empty(), clock),
            );
        },
        Input::FirstSteering(m) => {
            reveal(first_steered);
        },
        Input::Steering(m) => {
            reveal(steered);
        },
        Input::Late(m) => {
            reveal(asked_late);
        },
        Input::Check => {
            reveal(checked);
        },
        Input::Tools(results) => {
            reveal(tools_ran);
            let r = AgentRunView { turn: None, ..answered(run, results) };
            lemma_after_reported(
                seq![turn_end(run.turn.unwrap(), results)],
                next_turn(r, clock),
            );
        },
        Input::Stream(n) => {
            match n {
                StreamNextView::Closed => lemma_committed_reported(
                    run,
                    broken(run, StopReason::Error, MISSING_TERMINAL_EVENT@, clock.now),
                    clock,
                ),
                StreamNextView::Aborted(why) => lemma_committed_reported(
                    run,
                    broken(run, StopReason::Aborted, why, clock.now),
                    clock,
                ),
                StreamNextView::Event(e) => {
                    reveal(streamed_event);
                    match e {
                        AssistantMessageEventView::Done { message, .. } => lemma_committed_reported(
                            run,
                            retained(message, run.completed),
                            clock,
                        ),
                        AssistantMessageEventView::Error { error, .. } => lemma_committed_reported(
                            run,
                            retained(error, run.completed),
                            clock,
                        ),
                        _ => {},
                    }
                },
            }
        },
    }
}

/// Once the deadline has passed, no step opens another model call.
pub proof fn law_no_call_after_the_deadline(run: AgentRunView, input: Input, clock: Clock)
    requires
        expects(run, input),
        clock.deadline_passed,
    ensures
        stepped(run, input, clock).run.model_calls == run.model_calls,
        !(input is Stream) ==> stepped(run, input, clock).step != RunStep::CallModel,
{
    reveal(next_turn);
    reveal(begun);
    reveal(first_steered);
    reveal(steered);
    reveal(asked_late);
    reveal(checked);
    reveal(tools_ran);
    reveal(streamed_event);
    reveal(committed);
    reveal(turn_done);
}

/// A turn whose calls do not run answers each of them, in order, with a failure under its own id.
pub proof fn law_unrun_calls_are_answered(
    run: AgentRunView,
    m: AssistantMessageView,
    reason: Seq<char>,
    error: Option<Seq<char>>,
    now: i64,
)
    ensures
        ({
            let calls = types::tool_calls(m.content);
            let r = closed_turn(run, m, reason, error, now).0;
            &&& r.context.len() == run.context.len() + calls.len()
            &&& forall|i: int|
                0 <= i < calls.len() ==> {
                    &&& #[trigger] r.context[run.context.len() + i] is ToolResult
                    &&& r.context[run.context.len() + i]->ToolResult_0.tool_call_id == calls[i].id
                    &&& r.context[run.context.len() + i]->ToolResult_0.is_error
                }
        }),
{
}

/// A turn that broke off ends the run, and a turn of cut-off calls is followed by another one.
pub proof fn law_what_follows_a_turn(run: AgentRunView, m: AssistantMessageView, clock: Clock)
    ensures
        broke_off(m.stop_reason) ==> turn_done(run, m, clock).step is Finished,
        m.stop_reason == StopReason::Length && types::tool_calls(m.content).len() > 0
            && !clock.deadline_passed ==> {
            &&& turn_done(run, m, clock).run.has_more
            &&& turn_done(run, m, clock).step == RunStep::Check
        },
        turn_done(run, m, clock).step == RunStep::RunTools ==> runnable(m.stop_reason)
            && !clock.deadline_passed,
{
    reveal(turn_done);
}

} // verus!
