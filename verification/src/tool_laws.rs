//! What becomes of the calls of a turn: which of them run, with what, and how each is answered.
use crate::agent_event::{AgentEventView, ToolOutputView};
use crate::agent_tool;
use crate::agent_tool::{Concurrency, PreparedView, ToolOutcome};
use crate::json;
use crate::json::JsonView;
use crate::text;
use crate::text::Space;
use crate::types::{MessageView, ToolCallView, ToolView, UserBlockView};
use crate::validation;
use vstd::prelude::*;

verus! {

/// The content is one text.
pub open spec fn says(content: Seq<UserBlockView>, said: Seq<char>) -> bool {
    content.len() == 1 && (content[0] matches UserBlockView::Text(t) && t.text == said)
}

/// Some block of the output is a picture, or a text that is not blank.
pub open spec fn shows_something(out: ToolOutputView) -> bool {
    exists|i: int|
        0 <= i < out.content.len() && (match #[trigger] out.content[i] {
            UserBlockView::Image(_) => true,
            UserBlockView::Text(t) => !text::all_space(Space::Unicode, t.text),
        })
}

proof fn lemma_tool_at(tools: Seq<ToolView>, name: Seq<char>, from: int)
    requires
        0 <= from <= tools.len() <= usize::MAX,
    ensures
        match agent_tool::tool_at(tools, name, from) {
            Some(i) => from <= i < tools.len() && tools[i as int].name == name && forall|k: int|
                from <= k < i ==> (#[trigger] tools[k]).name != name,
            None => forall|k: int| from <= k < tools.len() ==> (#[trigger] tools[k]).name != name,
        },
    decreases tools.len() - from,
{
    if from < tools.len() && tools[from].name != name {
        lemma_tool_at(tools, name, from + 1);
    }
}

/// A call is prepared for the first tool of its name. It is refused, with what is wrong, where
/// there is none or where its arguments do not fit the tool; else it runs, with the arguments as
/// they were checked, unless the run was aborted.
pub proof fn law_which_calls_run(
    call: ToolCallView,
    tools: Seq<ToolView>,
    aborted: Option<Seq<char>>,
    cancelled: bool,
)
    requires
        tools.len() <= usize::MAX,
    ensures
        ({
            let p = agent_tool::prepared(call, tools);
            let refusal = agent_tool::refused(p, aborted);
            &&& p.call == call
            &&& p.blocked is None
            &&& match p.tool {
                None => {
                    &&& forall|k: int|
                        0 <= k < tools.len() ==> (#[trigger] tools[k]).name != call.name
                    &&& !agent_tool::needs_decision(p, cancelled)
                    &&& refusal matches Some(out) && out.is_error && says(
                        out.content,
                        "Tool "@ + call.name + " not found"@,
                    )
                },
                Some(i) => {
                    &&& i < tools.len() && tools[i as int].name == call.name
                    &&& forall|k: int| 0 <= k < i ==> (#[trigger] tools[k]).name != call.name
                    &&& match validation::validated(
                        tools[i as int].parameters,
                        call.name,
                        call.arguments,
                    ) {
                        Ok(args) => {
                            &&& p.args == args
                            &&& refusal is None <==> aborted is None
                            &&& agent_tool::needs_decision(p, cancelled) <==> !cancelled
                            &&& aborted matches Some(why) ==> refusal.unwrap().is_error && says(
                                refusal.unwrap().content,
                                "Tool was not executed because the run was aborted: "@ + why + "."@,
                            )
                        },
                        Err(e) => {
                            &&& !agent_tool::needs_decision(p, cancelled)
                            &&& refusal matches Some(out) && out.is_error && says(out.content, e)
                        },
                    }
                },
            }
        }),
{
    lemma_tool_at(tools, call.name, 0);
}

/// What is kept of a refused call never holds the text of arguments that could not be parsed.
pub proof fn law_broken_arguments_are_not_kept(call: ToolCallView, tools: Seq<ToolView>)
    requires
        json::lookup(call.arguments, "__parseError"@) is Some,
        agent_tool::prepared(call, tools).tool is Some,
        agent_tool::prepared(call, tools).validation_error is Some,
    ensures
        agent_tool::prepared(call, tools).args == seq![
            ("__parseError"@, json::lookup(call.arguments, "__parseError"@).unwrap()),
        ],
{
}

/// A call that the host allows is not blocked. One that it blocks is answered with the reason, as a
/// failure. Nothing else of the call changes but how it may overlap.
pub proof fn law_the_host_decides(
    p: PreparedView,
    concurrency: Concurrency,
    reason: Option<Seq<char>>,
)
    ensures
        ({
            let yes = agent_tool::decided(p, concurrency, None);
            let no = agent_tool::decided(p, concurrency, Some(reason));
            &&& agent_tool::blocked_output(yes) is None
            &&& agent_tool::blocked_output(no) matches Some(out) && out.is_error && says(
                out.content,
                match reason {
                    Some(r) => r,
                    None => "Tool execution was blocked"@,
                },
            )
            &&& yes.call == p.call && yes.tool == p.tool && yes.args == p.args
            &&& no.call == p.call && no.tool == p.tool && no.args == p.args
            &&& yes.concurrency == concurrency && no.concurrency == concurrency
            &&& yes.validation_error == p.validation_error
            &&& no.validation_error == p.validation_error
        }),
{
}

/// The output of a tool is passed on as it is, unless it is a failure that shows nothing; then it
/// says so. A tool that gave up or panicked gives a failure that says why.
pub proof fn law_what_a_tool_gives_is_passed_on(name: Seq<char>, ended: ToolOutcome)
    ensures
        ({
            let out = agent_tool::outcome_output(name, ended);
            match ended {
                ToolOutcome::Returned(given) => {
                    &&& !given@.is_error || shows_something(given@) ==> out == given@
                    &&& given@.is_error && !shows_something(given@) ==> out.is_error && says(
                        out.content,
                        "Tool failed with no output."@,
                    ) && out.details == given@.details
                },
                ToolOutcome::Failed(e) => out.is_error && says(
                    out.content,
                    if text::all_space(Space::Unicode, e.0@) {
                        "Tool failed with no output."@
                    } else {
                        e.0@
                    },
                ),
                ToolOutcome::Panicked(what) => out.is_error && says(
                    out.content,
                    "Tool "@ + name + " panicked: "@ + what@,
                ),
            }
        }),
{
    match ended {
        ToolOutcome::Returned(given) => {
            let g = given@;
            if shows_something(g) {
                let i = choose|i: int|
                    0 <= i < g.content.len() && (match #[trigger] g.content[i] {
                        UserBlockView::Image(_) => true,
                        UserBlockView::Text(t) => !text::all_space(Space::Unicode, t.text),
                    });
                assert(agent_tool::substantive(g.content[i]));
            } else {
                assert forall|i: int| 0 <= i < g.content.len() implies !agent_tool::substantive(
                    #[trigger] g.content[i],
                ) by {}
            }
        },
        ToolOutcome::Failed(e) => {
            let g = crate::agent_event::text_output(
                e.0@,
                Some(JsonView::Object(Seq::empty())),
                true,
            );
            assert(agent_tool::substantive(g.content[0]) == !text::all_space(
                Space::Unicode,
                e.0@,
            ));
        },
        ToolOutcome::Panicked(_) => {},
    }
}

/// A call is answered under its own id and name, with the output of its tool: once as the end of
/// its execution, once as a message that starts and ends.
pub proof fn law_a_call_is_answered(call: ToolCallView, out: ToolOutputView, now: i64)
    ensures
        ({
            let events = agent_tool::answer_events(call, out, now);
            &&& events.len() == 3
            &&& (events[0] matches AgentEventView::ToolExecutionEnd {
                tool_call_id,
                tool_name,
                result,
                is_error,
            } && tool_call_id == call.id && tool_name == call.name && result == out && is_error
                == out.is_error)
            &&& (events[1] matches AgentEventView::MessageStart { message } && (
            message matches MessageView::ToolResult(m) && m.tool_call_id == call.id && m.tool_name
                == call.name && m.content == out.content && m.details == out.details && m.is_error
                == out.is_error && m.timestamp == now))
            &&& (events[2] matches AgentEventView::MessageEnd { message } && (
            message matches MessageView::ToolResult(m) && m.tool_call_id == call.id && m.tool_name
                == call.name && m.content == out.content && m.details == out.details && m.is_error
                == out.is_error && m.timestamp == now))
        }),
{
}

/// A call that starts is announced under its own id and name, with the arguments that it runs with.
pub proof fn law_a_call_is_announced(p: PreparedView)
    ensures
        agent_tool::start_event(p) matches AgentEventView::ToolExecutionStart {
            tool_call_id,
            tool_name,
            args,
        } && tool_call_id == p.call.id && tool_name == p.call.name && args == p.args,
{
}

/// A call that did not run is answered all the same: as a failure, under its own id and name, with
/// a note that it was not executed, and with the error that kept it from running, where there is
/// one. What is said depends on the reason.
pub proof fn law_a_call_that_did_not_run_is_answered(
    call: ToolCallView,
    reason: Seq<char>,
    error: Option<Seq<char>>,
    now: i64,
)
    ensures
        ({
            let m = agent_tool::synthetic(call, reason, error, now);
            let why = if reason == "aborted"@ {
                "Tool execution was aborted"@
            } else if reason == "length"@ {
                agent_tool::TRUNCATED_CALL@
            } else if reason == "skipped"@ {
                "Tool call was not executed because the assistant ended its turn"@
            } else {
                "Tool call was not executed because the provider stream ended with an error before the tool could run"@
            };
            &&& m.tool_call_id == call.id && m.tool_name == call.name
            &&& m.is_error
            &&& m.timestamp == now
            &&& says(
                m.content,
                match error {
                    Some(e) => why + ": "@ + e,
                    None => why + "."@,
                },
            )
            &&& m.details matches Some(d) && json::member(d, "executed"@) == Some(
                JsonView::Bool(false),
            ) && json::member(d, "__synthetic"@) == Some(JsonView::Bool(true)) && json::member(
                d,
                "source"@,
            ) == Some(
                JsonView::String(
                    if reason == "aborted"@ {
                        "assistant_stop_aborted"@
                    } else if reason == "error"@ {
                        "assistant_stop_error"@
                    } else if reason == "length"@ {
                        "assistant_stop_length"@
                    } else {
                        "assistant_stop_skipped"@
                    },
                ),
            )
        }),
{
    reveal_strlit("executed");
    reveal_strlit("__synthetic");
    reveal_strlit("source");
    assert("executed"@.len() == 8 && "__synthetic"@.len() == 11 && "source"@.len() == 6);
    reveal_with_fuel(json::find_key, 5);
}

/// Of arguments that could not be read, only what is wrong with them is kept; others that are refused
/// are kept as they are.
pub proof fn law_what_is_kept_of_refused_arguments(
    call: ToolCallView,
    tools: Seq<ToolView>,
    e: JsonView,
)
    requires
        agent_tool::prepared(call, tools).tool is Some,
        agent_tool::prepared(call, tools).validation_error is Some,
    ensures
        json::lookup(call.arguments, "__parseError"@) == Some(e) ==> agent_tool::prepared(
            call,
            tools,
        ).args == seq![("__parseError"@, e)],
        json::lookup(call.arguments, "__parseError"@) is None ==> agent_tool::prepared(
            call,
            tools,
        ).args == call.arguments,
{
}

} // verus!
