//! What the model is told in a run, what becomes of the calls that do not run, and how the run
//! keeps to its budget.
use crate::agent_event::AgentEventView;
use crate::agent_loop;
use crate::agent_loop::{AgentRunView, Clock, Phase, RunEnd, RunStep};
use crate::agent_tool;
use crate::json;
use crate::json::JsonView;
use crate::types;
use crate::types::{
    AssistantBlockView, AssistantMessageView, MessageView, StopReason, ToolCallView, ToolView,
};
use vstd::prelude::*;

verus! {

/// The model is told the whole transcript, under the system prompt and with the tools of the run.
pub proof fn law_the_model_is_told_the_transcript(
    run: AgentRunView,
    system_prompt: Seq<Seq<char>>,
    tools: Seq<ToolView>,
)
    ensures
        ({
            let c = agent_loop::request_of(run, system_prompt, tools);
            &&& c.messages == run.context
            &&& c.system_prompt == system_prompt
            &&& c.tools == Some(tools)
        }),
{
}

/// The calls of a turn that do not run are answered with why: the run was aborted or its deadline
/// passed, the stream failed, the answer was cut off, or the turn had ended.
pub proof fn law_why_calls_do_not_run(run: AgentRunView, m: AssistantMessageView, clock: Clock)
    requires
        !(m.stop_reason == StopReason::ToolUse || m.stop_reason == StopReason::Stop)
            || clock.deadline_passed,
    ensures
        ({
            let s = agent_loop::turn_done(run, m, clock);
            let calls = types::tool_calls(m.content);
            let n = run.context.len() as int;
            let broken = m.stop_reason == StopReason::Error || m.stop_reason == StopReason::Aborted;
            let reason = if m.stop_reason == StopReason::Aborted {
                "aborted"@
            } else if m.stop_reason == StopReason::Error {
                "error"@
            } else if clock.deadline_passed {
                "aborted"@
            } else {
                "length"@
            };
            let error = if broken {
                m.error_message
            } else if clock.deadline_passed {
                Some(agent_loop::DEADLINE_TEXT@)
            } else {
                None
            };
            &&& s.run.context.len() == n + calls.len()
            &&& forall|i: int|
                0 <= i < calls.len() ==> #[trigger] s.run.context[n + i] == MessageView::ToolResult(
                    agent_tool::synthetic(calls[i], reason, error, clock.now),
                )
        }),
{
    reveal(agent_loop::turn_done);
}

/// A turn that makes no call just ends: it has no results, and asks for no other turn.
pub proof fn law_turns_without_calls_just_end(
    run: AgentRunView,
    m: AssistantMessageView,
    clock: Clock,
)
    requires
        types::tool_calls(m.content).len() == 0,
        m.stop_reason == StopReason::Stop || m.stop_reason == StopReason::ToolUse || m.stop_reason
            == StopReason::Length,
    ensures
        ({
            let s = agent_loop::turn_done(run, m, clock);
            &&& s.step == RunStep::Check
            &&& s.run.context == run.context
            &&& s.run.new_messages == run.new_messages.push(MessageView::Assistant(m))
            &&& !s.run.has_more
            &&& s.events.len() == 1 && (s.events[0] matches AgentEventView::TurnEnd {
                message,
                tool_results,
            } && message == MessageView::Assistant(m) && tool_results.len() == 0)
        }),
{
    reveal(agent_loop::turn_done);
    let s = agent_loop::turn_done(run, m, clock);
    assert(s.run.context =~= run.context);
    assert(s.run.new_messages =~= run.new_messages.push(MessageView::Assistant(m)));
}

/// A turn that broke off in the middle of its calls says so in its details, with what it was
/// before, and why; a turn that lost nothing is kept as it is.
pub proof fn law_lost_calls_are_told(m: AssistantMessageView, completed: Seq<Seq<char>>)
    ensures
        ({
            let r = agent_loop::retained(m, completed);
            let broken = m.stop_reason == StopReason::Error || m.stop_reason == StopReason::Aborted;
            let lost = r.content.len() < m.content.len();
            &&& !broken || !lost ==> r == m
            &&& r == (AssistantMessageView {
                content: r.content,
                stop_details: r.stop_details,
                ..m
            })
            &&& lost ==> (r.stop_details matches Some(d) && json::member(d, "type"@) == Some(
                JsonView::String(agent_loop::STREAM_INTERRUPTED_AFTER_CONTENT_STOP_DETAIL@),
            ))
        }),
{
    lemma_kept_shorter(m.content, completed);
    reveal_strlit("type");
    reveal_strlit("category");
    reveal_strlit("explanation");
    assert("type"@.len() == 4 && "category"@.len() == 8 && "explanation"@.len() == 11);
    reveal_with_fuel(json::find_key, 4);
}

proof fn lemma_kept_shorter(blocks: Seq<AssistantBlockView>, completed: Seq<Seq<char>>)
    ensures
        agent_loop::kept_blocks(blocks, completed).len() <= blocks.len(),
    decreases blocks.len(),
{
    if blocks.len() > 0 {
        lemma_kept_shorter(blocks.drop_last(), completed);
    }
}

/// A model call is made only within the budget and before the deadline, and each one counts.
pub proof fn law_model_calls_are_counted(run: AgentRunView, clock: Clock)
    ensures
        ({
            let s = agent_loop::next_turn(run, clock);
            let more = run.has_more || run.pending.len() > 0;
            let spent = run.max_model_calls matches Some(max) && run.model_calls >= max;
            &&& s.step is CallModel <==> more && !clock.deadline_passed && !spent
            &&& s.step is CallModel && run.model_calls < u64::MAX ==> s.run.model_calls
                == run.model_calls + 1
            &&& !(s.step is CallModel) ==> s.run.model_calls == run.model_calls
            &&& more && clock.deadline_passed ==> s.step == RunStep::Finished(RunEnd::Deadline)
            &&& more && !clock.deadline_passed && spent ==> s.step == RunStep::Finished(
                RunEnd::ModelCallBudget,
            )
            &&& !more && (clock.deadline_passed || clock.deadline_fired) ==> s.step
                == RunStep::Finished(RunEnd::Deadline)
            &&& !more && !clock.deadline_passed && !clock.deadline_fired && clock.cancelled
                ==> s.step == RunStep::Finished(RunEnd::Aborted)
            &&& !more && !clock.deadline_passed && !clock.deadline_fired && !clock.cancelled
                ==> s.step is AskLate && s.run.phase == Phase::Late
        }),
{
    reveal(agent_loop::next_turn);
}

/// A run starts with the transcript and the new messages, in this order, and reports the new ones;
/// it has made no call.
pub proof fn law_how_a_run_starts(
    prompts: Seq<MessageView>,
    context: Seq<MessageView>,
    api: Seq<char>,
    provider: Seq<char>,
    model: Seq<char>,
    max: Option<u64>,
)
    ensures
        ({
            let r = agent_loop::start_of(prompts, context, api, provider, model, max);
            &&& r.context == context + prompts
            &&& r.new_messages == prompts && r.to_emit == prompts
            &&& r.pending.len() == 0 && r.model_calls == 0 && r.max_model_calls == max
            &&& r.api == api && r.provider == provider && r.model == model
            &&& r.has_more && r.turn is None && r.partial is None && !r.added && r.completed.len()
                == 0
            &&& r.phase == Phase::Begin
        }),
{
}

/// A call that does not run is told of as one that starts and ends with a failure, and its answer
/// as a message.
pub proof fn law_what_is_told_of_a_call_that_does_not_run(
    calls: Seq<ToolCallView>,
    call: ToolCallView,
    reason: Seq<char>,
    error: Option<Seq<char>>,
    now: i64,
)
    ensures
        ({
            let have = agent_loop::all_synthetic_events(calls, reason, error, now);
            let all = agent_loop::all_synthetic_events(calls.push(call), reason, error, now);
            let n = have.len() as int;
            let answer = agent_tool::synthetic(call, reason, error, now);
            let message = MessageView::ToolResult(answer);
            &&& all.len() == n + 4 && all.take(n) == have
            &&& (all[n] matches AgentEventView::ToolExecutionStart {
                tool_call_id,
                tool_name,
                args,
            } && tool_call_id == call.id && tool_name == call.name && args == call.arguments)
            &&& (all[n + 1] matches AgentEventView::ToolExecutionEnd {
                tool_call_id,
                tool_name,
                result,
                is_error,
            } && tool_call_id == call.id && tool_name == call.name && is_error && result.is_error
                && result.content == answer.content)
            &&& all[n + 2] == (AgentEventView::MessageStart { message })
            &&& all[n + 3] == (AgentEventView::MessageEnd { message })
        }),
{
    assert(calls.push(call).drop_last() =~= calls);
    let have = agent_loop::all_synthetic_events(calls, reason, error, now);
    let all = agent_loop::all_synthetic_events(calls.push(call), reason, error, now);
    assert(all.take(have.len() as int) =~= have);
}

/// A turn that broke off is explained by what its details say, or else by its error.
pub proof fn law_what_explains_a_break(m: crate::types::AssistantMessageView, e: Seq<char>)
    ensures
        (agent_loop::detail(m, "explanation"@) matches Some(v) && !(v is Null))
            ==> Some(agent_loop::explanation(m)) == agent_loop::detail(m, "explanation"@),
        agent_loop::detail(m, "explanation"@) is None || agent_loop::detail(m, "explanation"@)
            == Some(crate::json::JsonView::Null) ==> {
            &&& m.error_message == Some(e) ==> agent_loop::explanation(m)
                == crate::json::JsonView::String(e)
            &&& m.error_message is None ==> agent_loop::explanation(m)
                == crate::json::JsonView::Null
        },
{
}

} // verus!
