//! What a run of the agent does with what its host brings: which messages enter the transcript,
//! which events tell of them, and what comes next.
use crate::agent_event::AgentEventView;
use crate::agent_loop;
use crate::agent_loop::{AgentRunView, Clock, Phase, RunEnd, RunStep, Stepped, StreamNextView};
use crate::event::AssistantMessageEventView;
use crate::types;
use crate::types::{
    AssistantBlockView, AssistantMessageView, MessageView, StopReason, ToolResultMessageView,
};
use vstd::prelude::*;

verus! {

/// The events tell of each message, in order: that it starts, and that it ends.
pub open spec fn told(events: Seq<AgentEventView>, messages: Seq<MessageView>) -> bool {
    &&& events.len() == 2 * messages.len()
    &&& forall|k: int|
        0 <= k < messages.len() ==> events[2 * k] == (AgentEventView::MessageStart {
            message: #[trigger] messages[k],
        }) && events[2 * k + 1] == (AgentEventView::MessageEnd { message: messages[k] })
}

/// The budget allows another model call.
pub open spec fn may_call(run: AgentRunView) -> bool {
    match run.max_model_calls {
        Some(max) => run.model_calls < max,
        None => true,
    }
}

/// A model call follows: the messages stand at the end of the transcript and of what the run
/// reports, and the events tell of a turn and of all messages that no event told of yet.
pub open spec fn asks_the_model(run: AgentRunView, m: Seq<MessageView>, s: Stepped) -> bool {
    &&& s.step == RunStep::CallModel
    &&& s.run.phase == Phase::Model
    &&& s.run.context == run.context + m
    &&& s.run.new_messages == run.new_messages + m
    &&& s.run.pending.len() == 0
    &&& s.run.to_emit.len() == 0
    &&& s.run.completed.len() == 0
    &&& s.run.partial is None
    &&& !s.run.added
    &&& run.model_calls < u64::MAX ==> s.run.model_calls == run.model_calls + 1
    &&& s.run.max_model_calls == run.max_model_calls
    &&& s.run.api == run.api && s.run.provider == run.provider && s.run.model == run.model
    &&& s.events.len() > 0
    &&& s.events[0] == AgentEventView::TurnStart
    &&& told(s.events.skip(1), run.to_emit + m)
}

/// The run ends for a reason: the messages are in the transcript and in the report all the same,
/// and the events tell of them before they tell of the end.
pub open spec fn ends_with(
    run: AgentRunView,
    m: Seq<MessageView>,
    untold: Seq<MessageView>,
    end: RunEnd,
    s: Stepped,
) -> bool {
    &&& s.step == RunStep::Finished(end)
    &&& s.run.phase == Phase::Ended
    &&& s.run.context == run.context + m
    &&& s.run.new_messages == run.new_messages + m
    &&& s.run.model_calls == run.model_calls
    &&& s.events.len() > 0
    &&& s.events.last() == (AgentEventView::AgentEnd { messages: run.new_messages + m })
    &&& told(s.events.drop_last(), untold)
}

/// Nothing but the phase changes, and nothing is told.
pub open spec fn waits(run: AgentRunView, phase: Phase, step: RunStep, s: Stepped) -> bool {
    &&& s.step == step
    &&& s.run == (AgentRunView { phase, ..run })
    &&& s.events.len() == 0
}

proof fn lemma_inputs_are_told(messages: Seq<MessageView>)
    ensures
        told(agent_loop::input_events(messages), messages),
    decreases messages.len(),
{
    let events = agent_loop::input_events(messages);
    if messages.len() > 0 {
        let init = messages.drop_last();
        lemma_inputs_are_told(init);
        assert forall|k: int| 0 <= k < messages.len() implies events[2 * k] == (
        AgentEventView::MessageStart { message: #[trigger] messages[k] }) && events[2 * k + 1] == (
        AgentEventView::MessageEnd { message: messages[k] }) by {
            if k < init.len() {
                assert(init[k] == messages[k]);
            }
        }
    }
}

/// Where a turn follows, whatever was queued goes to the model, and is not lost where the run
/// ends instead.
proof fn lemma_queued(run: AgentRunView, m: Seq<MessageView>, has_more: bool, clock: Clock)
    requires
        has_more || m.len() > 0,
    ensures
        ({
            let r = AgentRunView { pending: m, has_more, ..run };
            let s = agent_loop::next_turn(r, clock);
            &&& !clock.deadline_passed && may_call(run) ==> asks_the_model(run, m, s)
            &&& clock.deadline_passed ==> ends_with(run, m, run.to_emit + m, RunEnd::Deadline, s)
            &&& !clock.deadline_passed && !may_call(run) ==> ends_with(
                run,
                m,
                run.to_emit + m,
                RunEnd::ModelCallBudget,
                s,
            )
        }),
{
    reveal(agent_loop::next_turn);
    let r = AgentRunView { pending: m, has_more, ..run };
    let s = agent_loop::next_turn(r, clock);
    let events = agent_loop::input_events(run.to_emit + m);
    lemma_inputs_are_told(run.to_emit + m);
    if clock.deadline_passed || !may_call(run) {
        assert(s.events.drop_last() =~= events);
    } else {
        assert(s.events.skip(1) =~= events);
    }
}

/// Messages that are handed over at the end of a turn are never lost: they are the last of the
/// transcript and of the report, whatever follows. Within deadline and budget a model call
/// follows, which sees them.
pub proof fn law_steering_messages_reach_the_model(
    run: AgentRunView,
    m: Seq<MessageView>,
    clock: Clock,
)
    requires
        run.phase == Phase::Steering,
    ensures
        ({
            let s = agent_loop::steered(run, m, clock);
            &&& s.run.context == run.context + m
            &&& s.run.new_messages == run.new_messages + m
            &&& s.run.pending.len() == 0
            &&& (m.len() > 0 || run.has_more) && !clock.deadline_passed && may_call(run)
                ==> asks_the_model(run, m, s)
            &&& (m.len() > 0 || run.has_more) && clock.deadline_passed ==> ends_with(
                run,
                m,
                run.to_emit + m,
                RunEnd::Deadline,
                s,
            )
            &&& (m.len() > 0 || run.has_more) && !clock.deadline_passed && !may_call(run)
                ==> ends_with(run, m, run.to_emit + m, RunEnd::ModelCallBudget, s)
            &&& m.len() == 0 && !run.has_more ==> {
                &&& clock.deadline_passed || clock.deadline_fired ==> ends_with(
                    run,
                    m,
                    Seq::empty(),
                    RunEnd::Deadline,
                    s,
                )
                &&& !clock.deadline_passed && !clock.deadline_fired && clock.cancelled ==> ends_with(
                    run,
                    m,
                    Seq::empty(),
                    RunEnd::Aborted,
                    s,
                )
                &&& !clock.deadline_passed && !clock.deadline_fired && !clock.cancelled ==> waits(
                    AgentRunView { pending: Seq::empty(), ..run },
                    Phase::Late,
                    RunStep::AskLate,
                    s,
                )
            }
        }),
{
    reveal(agent_loop::steered);
    let r = AgentRunView { pending: m, ..run };
    assert(AgentRunView { pending: m, has_more: run.has_more, ..run } == r);
    if m.len() > 0 || run.has_more {
        lemma_queued(run, m, run.has_more, clock);
        reveal(agent_loop::next_turn);
    } else {
        reveal(agent_loop::next_turn);
        assert(m =~= Seq::empty());
        assert(run.context + m =~= run.context);
        assert(run.new_messages + m =~= run.new_messages);
        assert(agent_loop::steered(run, m, clock).events.len() <= 1);
    }
}

/// A run that has nothing left to do looks at its queues once more: with nothing in them it is
/// complete, and what it finds is a further turn.
pub proof fn law_late_messages_reach_the_model(
    run: AgentRunView,
    m: Seq<MessageView>,
    clock: Clock,
)
    requires
        run.phase == Phase::Late,
    ensures
        ({
            let s = agent_loop::asked_late(run, m, clock);
            &&& s.run.context == run.context + m
            &&& s.run.new_messages == run.new_messages + m
            &&& m.len() == 0 ==> ends_with(run, m, Seq::empty(), RunEnd::Completed, s)
            &&& m.len() > 0 && !clock.deadline_passed && may_call(run) ==> asks_the_model(run, m, s)
            &&& m.len() > 0 && clock.deadline_passed ==> ends_with(
                run,
                m,
                run.to_emit + m,
                RunEnd::Deadline,
                s,
            )
            &&& m.len() > 0 && !clock.deadline_passed && !may_call(run) ==> ends_with(
                run,
                m,
                run.to_emit + m,
                RunEnd::ModelCallBudget,
                s,
            )
        }),
{
    reveal(agent_loop::asked_late);
    if m.len() > 0 {
        lemma_queued(run, m, true, clock);
    } else {
        assert(m =~= Seq::empty());
        assert(run.context + m =~= run.context);
        assert(run.new_messages + m =~= run.new_messages);
    }
}

/// The transcript ends with a turn that makes calls which may run.
pub open spec fn has_open_calls(context: Seq<MessageView>) -> bool {
    context.len() > 0 && (context.last() matches MessageView::Assistant(a) && (a.stop_reason
        == StopReason::ToolUse || a.stop_reason == StopReason::Stop) && makes_calls(a))
}

/// One of the blocks is a tool call.
pub open spec fn makes_calls(a: AssistantMessageView) -> bool {
    exists|i: int| 0 <= i < a.content.len() && (#[trigger] a.content[i]) is ToolCall
}

proof fn lemma_makes_calls(blocks: Seq<AssistantBlockView>)
    ensures
        types::tool_calls(blocks).len() > 0 <==> exists|i: int|
            0 <= i < blocks.len() && (#[trigger] blocks[i]) is ToolCall,
    decreases blocks.len(),
{
    if blocks.len() > 0 {
        lemma_makes_calls(blocks.drop_last());
        if exists|i: int| 0 <= i < blocks.len() && (#[trigger] blocks[i]) is ToolCall {
            let i = choose|i: int| 0 <= i < blocks.len() && (#[trigger] blocks[i]) is ToolCall;
            if i < blocks.len() - 1 {
                assert(blocks.drop_last()[i] is ToolCall);
            }
        }
        if types::tool_calls(blocks.drop_last()).len() > 0 {
            let i = choose|i: int|
                0 <= i < blocks.drop_last().len() && (#[trigger] blocks.drop_last()[i]) is ToolCall;
            assert(blocks[i] is ToolCall);
        }
        if blocks.last() is ToolCall {
            assert(blocks[blocks.len() - 1] is ToolCall);
        }
    }
}

/// The first queued messages follow the prompts, and a model call follows; but calls that are
/// still open run first, and the messages wait for their results.
pub proof fn law_first_messages_reach_the_model(
    run: AgentRunView,
    m: Seq<MessageView>,
    clock: Clock,
)
    ensures
        ({
            let s = agent_loop::first_steered(run, m, clock);
            &&& s.run.context + s.run.pending == run.context + m
            &&& s.run.new_messages + s.run.pending == run.new_messages + m
            &&& has_open_calls(run.context) ==> {
                &&& s.step == RunStep::RunTools
                &&& s.run.phase == Phase::TailTools
                &&& s.run.context == run.context
                &&& s.run.turn == Some(run.context.last()->Assistant_0)
                &&& s.run.has_more
                &&& s.run.to_emit.len() == 0
                &&& s.events.len() > 0 && s.events[0] == AgentEventView::TurnStart
                &&& told(s.events.skip(1), run.to_emit)
            }
            &&& !has_open_calls(run.context) && !clock.deadline_passed && may_call(run)
                ==> asks_the_model(run, m, s)
            &&& !has_open_calls(run.context) && clock.deadline_passed ==> ends_with(
                run,
                m,
                run.to_emit + m,
                RunEnd::Deadline,
                s,
            )
            &&& !has_open_calls(run.context) && !clock.deadline_passed && !may_call(run)
                ==> ends_with(run, m, run.to_emit + m, RunEnd::ModelCallBudget, s)
        }),
{
    reveal(agent_loop::first_steered);
    if run.context.len() > 0 && run.context.last() is Assistant {
        lemma_makes_calls(run.context.last()->Assistant_0.content);
    }
    let s = agent_loop::first_steered(run, m, clock);
    if has_open_calls(run.context) {
        lemma_inputs_are_told(run.to_emit);
        assert(s.events.skip(1) =~= agent_loop::input_events(run.to_emit));
    } else {
        lemma_queued(run, m, true, clock);
        reveal(agent_loop::next_turn);
        assert(s.run.pending =~= Seq::empty());
        assert(s.run.context + s.run.pending =~= run.context + m);
        assert(s.run.new_messages + s.run.pending =~= run.new_messages + m);
    }
}

/// A run begins with its start, and asks for queued messages unless it is over or cancelled
/// already.
pub proof fn law_a_run_begins(run: AgentRunView, clock: Clock)
    ensures
        ({
            let s = agent_loop::begun(run, clock);
            let none = Seq::<MessageView>::empty();
            &&& s.events.len() > 0 && s.events[0] == AgentEventView::AgentStart
            &&& clock.deadline_passed ==> ends_with(
                run,
                none,
                run.to_emit,
                RunEnd::Deadline,
                Stepped { events: s.events.skip(1), ..s },
            )
            &&& !clock.deadline_passed && !clock.cancelled ==> waits(
                run,
                Phase::FirstSteering,
                RunStep::AskSteering,
                Stepped { events: s.events.skip(1), ..s },
            )
            &&& !clock.deadline_passed && clock.cancelled && !has_open_calls(run.context)
                && may_call(run) ==> asks_the_model(
                run,
                none,
                Stepped { events: s.events.skip(1), ..s },
            )
        }),
{
    reveal(agent_loop::begun);
    let s = agent_loop::begun(run, clock);
    let none = Seq::<MessageView>::empty();
    assert(run.context + none =~= run.context);
    assert(run.new_messages + none =~= run.new_messages);
    lemma_inputs_are_told(run.to_emit);
    if clock.deadline_passed {
        assert(s.events.skip(1).drop_last() =~= agent_loop::input_events(run.to_emit));
    } else if clock.cancelled {
        law_first_messages_reach_the_model(run, none, clock);
        assert(s.events.skip(1) =~= agent_loop::first_steered(run, none, clock).events);
    }
}

/// Results as messages of the transcript.
pub open spec fn as_messages(results: Seq<ToolResultMessageView>) -> Seq<MessageView> {
    Seq::new(results.len(), |i: int| MessageView::ToolResult(results[i]))
}

/// The results of a turn's calls follow the turn in the transcript and in the report; the turn
/// ends with them, and the run looks at its queue before it asks the model again. Behind the
/// results of calls that were open from the start come the messages that waited for them.
pub proof fn law_tool_results_enter_the_transcript(
    run: AgentRunView,
    results: Seq<ToolResultMessageView>,
    clock: Clock,
)
    requires
        run.turn is Some,
        run.phase == Phase::Tools || run.phase == Phase::TailTools,
    ensures
        ({
            let s = agent_loop::tools_ran(run, results, clock);
            let told_first = AgentEventView::TurnEnd {
                message: MessageView::Assistant(run.turn.unwrap()),
                tool_results: results,
            };
            &&& s.events.len() > 0 && s.events[0] == told_first
            &&& run.phase == Phase::Tools ==> {
                &&& s.events.len() == 1
                &&& s.step == RunStep::Check
                &&& s.run.phase == Phase::AfterTurn
                &&& s.run.turn is None
                &&& s.run.context == run.context + as_messages(results)
                &&& s.run.new_messages == run.new_messages + as_messages(results)
                &&& s.run.has_more == run.has_more
                &&& s.run.pending == run.pending
            }
            &&& run.phase == Phase::TailTools && run.has_more ==> {
                &&& s.run.context == run.context + as_messages(results) + run.pending
                &&& s.run.new_messages == run.new_messages + as_messages(results) + run.pending
                &&& !clock.deadline_passed && may_call(run) ==> s.step == RunStep::CallModel
                    && s.events.len() > 1 && s.events[1] == AgentEventView::TurnStart && told(
                    s.events.skip(2),
                    run.to_emit + run.pending,
                )
                &&& clock.deadline_passed ==> s.step == RunStep::Finished(RunEnd::Deadline)
            }
        }),
{
    reveal(agent_loop::tools_ran);
    let s = agent_loop::tools_ran(run, results, clock);
    assert(agent_loop::result_messages(results) =~= as_messages(results));
    if run.phase == Phase::TailTools && run.has_more {
        let r = AgentRunView { turn: None, ..agent_loop::answered(run, results) };
        assert(AgentRunView { pending: run.pending, has_more: true, ..r } == r);
        lemma_queued(r, run.pending, true, clock);
        let rest = agent_loop::next_turn(r, clock).events;
        assert(s.events.skip(1) =~= rest);
        assert(s.events.skip(2) =~= rest.skip(1));
    }
}

/// After a turn nothing is lost and nothing is told: the run ends at its deadline, goes on with
/// what is left of it where it is cancelled, and asks for queued messages else.
pub proof fn law_a_turn_is_followed_by_a_look_at_the_queue(run: AgentRunView, clock: Clock)
    ensures
        ({
            let s = agent_loop::checked(run, clock);
            let none = Seq::<MessageView>::empty();
            &&& s.run.context == run.context
            &&& s.run.new_messages == run.new_messages
            &&& clock.deadline_passed ==> ends_with(run, none, none, RunEnd::Deadline, s)
            &&& !clock.deadline_passed && !clock.cancelled ==> waits(
                run,
                Phase::Steering,
                RunStep::AskSteering,
                s,
            )
            &&& !clock.deadline_passed && clock.cancelled && !run.has_more ==> s.step
                == RunStep::Finished(
                if clock.deadline_fired {
                    RunEnd::Deadline
                } else {
                    RunEnd::Aborted
                },
            )
            &&& !clock.deadline_passed && clock.cancelled && run.has_more && may_call(run)
                ==> asks_the_model(run, none, s)
        }),
{
    reveal(agent_loop::checked);
    let none = Seq::<MessageView>::empty();
    assert(run.context + none =~= run.context);
    assert(run.new_messages + none =~= run.new_messages);
    if clock.deadline_passed {
        assert(agent_loop::checked(run, clock).events.drop_last() =~= Seq::empty());
    } else if clock.cancelled {
        if run.has_more {
            lemma_queued(run, none, true, clock);
            assert(AgentRunView { pending: none, has_more: true, ..run } == (AgentRunView {
                pending: Seq::empty(),
                ..run
            }));
        } else {
            reveal(agent_loop::next_turn);
        }
    }
}

/// The tool calls among the blocks are those blocks that are calls, in their order.
pub proof fn law_calls_are_the_call_blocks(blocks: Seq<AssistantBlockView>)
    ensures
        types::tool_calls(blocks) == blocks.filter(|b: AssistantBlockView| b is ToolCall).map_values(
            |b: AssistantBlockView| b->ToolCall_0,
        ),
    decreases blocks.len(),
{
    reveal(Seq::filter);
    let is_call = |b: AssistantBlockView| b is ToolCall;
    let call = |b: AssistantBlockView| b->ToolCall_0;
    if blocks.len() > 0 {
        law_calls_are_the_call_blocks(blocks.drop_last());
        let kept = blocks.drop_last().filter(is_call);
        if blocks.last() is ToolCall {
            assert(kept.push(blocks.last()).map_values(call) =~= kept.map_values(call).push(
                call(blocks.last()),
            ));
        }
    } else {
        assert(blocks.filter(is_call).map_values(call) =~= Seq::empty());
    }
}

/// A turn that did not break off is kept as it came; of one that did, the blocks that are no
/// calls and the calls that were complete are kept, in their order, and everything else about
/// the message but its stop details stays.
pub proof fn law_complete_blocks_are_kept(m: AssistantMessageView, completed: Seq<Seq<char>>)
    ensures
        ({
            let r = agent_loop::retained(m, completed);
            &&& m.stop_reason != StopReason::Error && m.stop_reason != StopReason::Aborted ==> r
                == m
            &&& m.stop_reason == StopReason::Error || m.stop_reason == StopReason::Aborted
                ==> r.content == m.content.filter(
                |b: AssistantBlockView| b is ToolCall ==> completed.contains(b->ToolCall_0.id),
            )
            &&& r.content.len() == m.content.len() ==> r == m
            &&& r == (AssistantMessageView {
                content: r.content,
                stop_details: r.stop_details,
                ..m
            })
        }),
{
    lemma_kept_is_filter(m.content, completed);
}

proof fn lemma_kept_is_filter(blocks: Seq<AssistantBlockView>, completed: Seq<Seq<char>>)
    ensures
        agent_loop::kept_blocks(blocks, completed) == blocks.filter(
            |b: AssistantBlockView| b is ToolCall ==> completed.contains(b->ToolCall_0.id),
        ),
        agent_loop::kept_blocks(blocks, completed).len() <= blocks.len(),
        agent_loop::kept_blocks(blocks, completed).len() == blocks.len()
            ==> agent_loop::kept_blocks(blocks, completed) == blocks,
    decreases blocks.len(),
{
    reveal(Seq::filter);
    if blocks.len() > 0 {
        lemma_kept_is_filter(blocks.drop_last(), completed);
        assert(blocks =~= blocks.drop_last().push(blocks.last()));
    }
}

/// The message that is being streamed, as an event shows it.
pub open spec fn shown(e: AssistantMessageEventView) -> AssistantMessageView {
    match e {
        AssistantMessageEventView::Start { partial } => partial,
        AssistantMessageEventView::TextStart { partial, .. } => partial,
        AssistantMessageEventView::TextDelta { partial, .. } => partial,
        AssistantMessageEventView::TextEnd { partial, .. } => partial,
        AssistantMessageEventView::ThinkingStart { partial, .. } => partial,
        AssistantMessageEventView::ThinkingDelta { partial, .. } => partial,
        AssistantMessageEventView::ThinkingEnd { partial, .. } => partial,
        AssistantMessageEventView::ToolcallStart { partial, .. } => partial,
        AssistantMessageEventView::ToolcallDelta { partial, .. } => partial,
        AssistantMessageEventView::ToolcallEnd { partial, .. } => partial,
        AssistantMessageEventView::Done { message, .. } => message,
        AssistantMessageEventView::Error { error, .. } => error,
    }
}

/// While a message is streamed, the transcript ends with its latest snapshot, and nothing else of
/// it changes; the report waits for the whole message. The first event that tells of it is its
/// start, each later one an update; what comes before the start says nothing. A call counts as
/// complete from its end on, until the message starts anew.
pub proof fn law_the_transcript_shows_the_streamed_message(
    run: AgentRunView,
    e: AssistantMessageEventView,
    clock: Clock,
)
    requires
        !(e is Done),
        !(e is Error),
        run.added ==> run.context.len() > 0,
    ensures
        ({
            let s = agent_loop::streamed(run, StreamNextView::Event(e), clock);
            let m = MessageView::Assistant(shown(e));
            &&& s.step == RunStep::CallModel
            &&& s.run.phase == run.phase
            &&& s.run.new_messages == run.new_messages
            &&& s.run.model_calls == run.model_calls
            &&& e is Start || run.added ==> s.run.added && s.run.partial == Some(shown(e))
                && s.run.context == (if run.added {
                run.context.drop_last()
            } else {
                run.context
            }).push(m)
            &&& e is Start && !run.added ==> s.events == seq![
                AgentEventView::MessageStart { message: m },
            ]
            &&& run.added ==> s.events == seq![AgentEventView::MessageUpdate { message: m, event: e }]
            &&& !(e is Start) && !run.added ==> s.run == run && s.events.len() == 0
            &&& e is Start && run.added ==> s.run.completed.len() == 0
            &&& run.added && !(e is Start) ==> s.run.completed == (if e is ToolcallEnd {
                run.completed.push(e->ToolcallEnd_tool_call.id)
            } else {
                run.completed
            })
        }),
{
    reveal(agent_loop::streamed_event);
    if run.added {
        assert(agent_loop::with_last(run.context, shown(e)) =~= run.context.drop_last().push(
            MessageView::Assistant(shown(e)),
        ));
    }
}

/// The transcript with the streamed message in its final form at its end.
pub open spec fn with_final(run: AgentRunView, m: AssistantMessageView) -> Seq<MessageView> {
    (if run.added {
        run.context.drop_last()
    } else {
        run.context
    }).push(MessageView::Assistant(m))
}

/// The events that tell of the end of the streamed message.
pub open spec fn final_events(run: AgentRunView, m: AssistantMessageView) -> Seq<AgentEventView> {
    let message = MessageView::Assistant(m);
    if run.added {
        seq![AgentEventView::MessageEnd { message }]
    } else {
        seq![AgentEventView::MessageStart { message }, AgentEventView::MessageEnd { message }]
    }
}

/// Each of the calls is answered, in order, by a failure under its id and its name.
pub open spec fn refused(answers: Seq<MessageView>, m: AssistantMessageView) -> bool {
    let calls = m.content.filter(|b: AssistantBlockView| b is ToolCall);
    &&& answers.len() == calls.len()
    &&& forall|i: int|
        0 <= i < answers.len() ==> {
            &&& #[trigger] answers[i] is ToolResult
            &&& answers[i]->ToolResult_0.tool_call_id == calls[i]->ToolCall_0.id
            &&& answers[i]->ToolResult_0.tool_name == calls[i]->ToolCall_0.name
            &&& answers[i]->ToolResult_0.is_error
        }
}

proof fn lemma_refused(
    m: AssistantMessageView,
    reason: Seq<char>,
    error: Option<Seq<char>>,
    now: i64,
)
    ensures
        refused(
            agent_loop::result_messages(
                agent_loop::synthetic_results(
                    types::tool_calls(m.content),
                    reason,
                    error,
                    now,
                ),
            ),
            m,
        ),
{
    law_calls_are_the_call_blocks(m.content);
}

/// A turn that came to its end is the last of the transcript and of the report, as it came. Its
/// calls run next, where there are some and the turn stopped for them before the deadline; other
/// calls are answered with a failure each, and the turn ends. A turn without calls asks for no
/// other turn.
pub proof fn law_a_complete_turn_is_kept(
    run: AgentRunView,
    reason: StopReason,
    m: AssistantMessageView,
    clock: Clock,
)
    requires
        run.added ==> run.context.len() > 0,
        m.stop_reason != StopReason::Error,
        m.stop_reason != StopReason::Aborted,
    ensures
        ({
            let e = AssistantMessageEventView::Done { reason, message: m };
            let s = agent_loop::streamed(run, StreamNextView::Event(e), clock);
            let runs = makes_calls(m) && !clock.deadline_passed && (m.stop_reason
                == StopReason::ToolUse || m.stop_reason == StopReason::Stop);
            let n = with_final(run, m).len() as int;
            let k = final_events(run, m).len() as int;
            &&& s.run.context.len() >= n && s.run.context.take(n) == with_final(run, m)
            &&& s.run.new_messages == run.new_messages.push(MessageView::Assistant(m))
                + s.run.context.skip(n)
            &&& s.events.len() >= k && s.events.take(k) == final_events(run, m)
            &&& !s.run.added && s.run.partial is None
            &&& s.run.model_calls == run.model_calls
            &&& runs ==> {
                &&& s.step == RunStep::RunTools
                &&& s.run.phase == Phase::Tools
                &&& s.run.turn == Some(m)
                &&& s.run.has_more
                &&& s.run.context.len() == n
                &&& s.events.len() == k
            }
            &&& !runs ==> {
                &&& s.step == RunStep::Check
                &&& s.run.phase == Phase::AfterTurn
                &&& refused(s.run.context.skip(n), m)
                &&& s.run.has_more <==> m.stop_reason == StopReason::Length && makes_calls(m)
                    && !clock.deadline_passed
                &&& s.events.len() > k && (s.events.last() matches AgentEventView::TurnEnd {
                    message,
                    tool_results,
                } && message == MessageView::Assistant(m) && as_messages(tool_results)
                    == s.run.context.skip(n))
            }
        }),
{
    reveal(agent_loop::streamed_event);
    reveal(agent_loop::committed);
    reveal(agent_loop::turn_done);
    let e = AssistantMessageEventView::Done { reason, message: m };
    let s = agent_loop::streamed(run, StreamNextView::Event(e), clock);
    law_complete_blocks_are_kept(m, run.completed);
    lemma_makes_calls(m.content);
    lemma_committed(run, m, clock);
    let n = with_final(run, m).len() as int;
    assert(s == agent_loop::committed(run, m, clock));
    let why = agent_loop::skip_reason(m.stop_reason, clock.deadline_passed);
    lemma_refused(m, why.0, why.1, clock.now);
    let results = agent_loop::synthetic_results(
        types::tool_calls(m.content),
        why.0,
        why.1,
        clock.now,
    );
    assert(agent_loop::result_messages(results) =~= as_messages(results));
    let runs = makes_calls(m) && !clock.deadline_passed && (m.stop_reason == StopReason::ToolUse
        || m.stop_reason == StopReason::Stop);
    if runs {
        assert(s.run.context.skip(n) =~= Seq::empty());
        assert(s.run.new_messages =~= run.new_messages.push(MessageView::Assistant(m))
            + s.run.context.skip(n));
    } else {
        assert(s.run.context.skip(n) =~= as_messages(results));
    }
}

/// What a step does with a message that is complete, by what follows it.
proof fn lemma_committed(run: AgentRunView, m: AssistantMessageView, clock: Clock)
    requires
        run.added ==> run.context.len() > 0,
    ensures
        ({
            let r = AgentRunView {
                context: with_final(run, m),
                added: false,
                partial: None,
                ..run
            };
            let s = agent_loop::committed(run, m, clock);
            let t = agent_loop::turn_done(r, m, clock);
            &&& s.run == t.run
            &&& s.step == t.step
            &&& s.events == final_events(run, m) + t.events
        }),
{
    reveal(agent_loop::committed);
    if run.added {
        assert(agent_loop::with_last(run.context, m) =~= with_final(run, m));
    } else {
        assert(run.context.push(MessageView::Assistant(m)) =~= with_final(run, m));
        assert(run == (AgentRunView { added: false, ..run }));
    }
}

/// A turn that broke off, in whatever way, is kept with its complete calls, each of them is
/// answered by a failure, and the run ends: with the failure, with the deadline, or aborted.
pub proof fn law_a_broken_turn_ends_the_run(run: AgentRunView, next: StreamNextView, clock: Clock)
    requires
        run.added ==> run.context.len() > 0,
        match next {
            StreamNextView::Event(AssistantMessageEventView::Done { message, .. }) => {
                message.stop_reason == StopReason::Error || message.stop_reason
                    == StopReason::Aborted
            },
            StreamNextView::Event(AssistantMessageEventView::Error { error, .. }) => {
                error.stop_reason == StopReason::Error || error.stop_reason == StopReason::Aborted
            },
            StreamNextView::Event(_) => false,
            _ => true,
        },
    ensures
        ({
            let s = agent_loop::streamed(run, next, clock);
            let n: int = if run.added {
                run.context.len() as int
            } else {
                run.context.len() as int + 1
            };
            let m = s.run.context[n - 1]->Assistant_0;
            let k = final_events(run, m).len() as int;
            &&& s.run.context.len() >= n && s.run.context[n - 1] is Assistant
            &&& s.run.context.take(n) == with_final(run, m)
            &&& s.run.new_messages == run.new_messages.push(MessageView::Assistant(m))
                + s.run.context.skip(n)
            &&& refused(s.run.context.skip(n), m)
            &&& s.events.take(k) == final_events(run, m)
            &&& s.run.phase == Phase::Ended
            &&& s.events.last() == (AgentEventView::AgentEnd { messages: s.run.new_messages })
            &&& forall|i: int|
                0 <= i < m.content.len() && (#[trigger] m.content[i]) is ToolCall
                    ==> run.completed.contains(m.content[i]->ToolCall_0.id)
            &&& m.stop_reason == StopReason::Error <==> s.step == RunStep::Finished(RunEnd::Error)
            &&& m.stop_reason == StopReason::Aborted ==> s.step == RunStep::Finished(
                if clock.deadline_fired {
                    RunEnd::Deadline
                } else {
                    RunEnd::Aborted
                },
            )
            &&& match next {
                StreamNextView::Event(AssistantMessageEventView::Done { message, .. }) => {
                    came_of(m, message, run.completed)
                },
                StreamNextView::Event(AssistantMessageEventView::Error { error, .. }) => {
                    came_of(m, error, run.completed)
                },
                StreamNextView::Event(_) => true,
                StreamNextView::Closed => {
                    &&& m.stop_reason == StopReason::Error
                    &&& m.error_message == Some(
                        "Provider stream ended without a terminal event"@,
                    )
                    &&& run.partial is Some ==> came_of(m, run.partial.unwrap(), run.completed)
                    &&& run.partial is None ==> m.content.len() == 0 && m.api == run.api
                        && m.provider == run.provider && m.model == run.model
                },
                StreamNextView::Aborted(why) => {
                    &&& m.stop_reason == StopReason::Aborted
                    &&& m.error_message == Some(why)
                    &&& run.partial is Some ==> came_of(m, run.partial.unwrap(), run.completed)
                    &&& run.partial is None ==> m.content.len() == 0 && m.api == run.api
                        && m.provider == run.provider && m.model == run.model
                },
            }
        }),
{
    reveal(agent_loop::streamed_event);
    reveal(agent_loop::turn_done);
    let s = agent_loop::streamed(run, next, clock);
    let raw = match next {
        StreamNextView::Event(AssistantMessageEventView::Done { message, .. }) => message,
        StreamNextView::Event(AssistantMessageEventView::Error { error, .. }) => error,
        StreamNextView::Event(e) => shown(e),
        StreamNextView::Closed => AssistantMessageView {
            stop_reason: StopReason::Error,
            error_message: Some(agent_loop::MISSING_TERMINAL_EVENT@),
            ..match run.partial {
                Some(p) => p,
                None => types::empty_assistant(run.api, run.provider, run.model, clock.now),
            }
        },
        StreamNextView::Aborted(why) => AssistantMessageView {
            stop_reason: StopReason::Aborted,
            error_message: Some(why),
            ..match run.partial {
                Some(p) => p,
                None => types::empty_assistant(run.api, run.provider, run.model, clock.now),
            }
        },
    };
    let m = agent_loop::retained(raw, run.completed);
    let n = with_final(run, m).len() as int;
    law_complete_blocks_are_kept(raw, run.completed);
    lemma_committed(run, m, clock);
    assert(s == agent_loop::committed(run, m, clock));
    let reason = if m.stop_reason == StopReason::Aborted {
        "aborted"@
    } else {
        "error"@
    };
    lemma_refused(m, reason, m.error_message, clock.now);
    let answers = agent_loop::result_messages(
        agent_loop::synthetic_results(
            types::tool_calls(m.content),
            reason,
            m.error_message,
            clock.now,
        ),
    );
    assert(s.run.context =~= with_final(run, m) + answers);
    assert(s.run.context.take(n) =~= with_final(run, m));
    assert(s.run.context.skip(n) =~= answers);
    assert(s.run.context[n - 1] == with_final(run, m)[n - 1]);
    assert(s.events.take(final_events(run, m).len() as int) =~= final_events(run, m));
    lemma_filtered(raw.content, run.completed);
}

/// What is left of a message that broke off.
pub open spec fn came_of(
    m: AssistantMessageView,
    raw: AssistantMessageView,
    completed: Seq<Seq<char>>,
) -> bool {
    m.content == raw.content.filter(
        |b: AssistantBlockView| b is ToolCall ==> completed.contains(b->ToolCall_0.id),
    ) && m.usage == raw.usage && m.timestamp == raw.timestamp
}

proof fn lemma_filtered(blocks: Seq<AssistantBlockView>, completed: Seq<Seq<char>>)
    ensures
        ({
            let kept = blocks.filter(
                |b: AssistantBlockView| b is ToolCall ==> completed.contains(b->ToolCall_0.id),
            );
            forall|i: int|
                0 <= i < kept.len() && (#[trigger] kept[i]) is ToolCall ==> completed.contains(
                    kept[i]->ToolCall_0.id,
                )
        }),
    decreases blocks.len(),
{
    reveal(Seq::filter);
    if blocks.len() > 0 {
        lemma_filtered(blocks.drop_last(), completed);
    }
}

/// Which calls are open, which transcripts can be continued, and why the others cannot.
pub proof fn law_what_can_be_continued(messages: Seq<MessageView>, tail: agent_loop::UnpairedTail)
    ensures
        agent_loop::unpaired(messages) is Some <==> has_open_calls(messages),
        has_open_calls(messages) ==> agent_loop::unpaired(messages) == Some(
            messages.last()->Assistant_0,
        ),
        agent_loop::continue_error(messages, tail) is None <==> messages.len() > 0 && (!(
        messages.last() is Assistant) || (has_open_calls(messages) && tail
            == agent_loop::UnpairedTail::Execute)),
{
    if messages.len() > 0 && messages.last() is Assistant {
        lemma_makes_calls(messages.last()->Assistant_0.content);
    }
}

/// A run starts with its prompts behind the transcript, reports them, and has yet to tell of them.
pub proof fn law_prompts_come_last(
    prompts: Seq<MessageView>,
    context: Seq<MessageView>,
    api: Seq<char>,
    provider: Seq<char>,
    model: Seq<char>,
    max: Option<u64>,
)
    ensures
        ({
            let r = agent_loop::start_of(prompts, context, api, provider, model, max);
            &&& r.context == context + prompts
            &&& r.new_messages == prompts
            &&& r.to_emit == prompts
            &&& r.pending.len() == 0
            &&& r.model_calls == 0
            &&& r.max_model_calls == max
            &&& r.has_more && !r.added && r.turn is None && r.partial is None
            &&& r.phase == Phase::Begin
            &&& r.api == api && r.provider == provider && r.model == model
        }),
{
}

} // verus!
