//! Tool calls of an assistant turn: what may run, when, and what is answered.
use crate::agent_event;
use crate::agent_event::{AgentEvent, AgentEventView, ToolOutput, ToolOutputView};
use crate::json;
use crate::json::{object_1, object_2, Entries, Json, JsonObject, JsonView};
use crate::text;
use crate::text::{clone_opt_string, concat, is_blank, same_text, Space};
use crate::types::{
    now_ms, Message, MessageView, Tool, ToolCall, ToolCallView, ToolResultMessage,
    ToolResultMessageView, ToolView, UserBlock, UserBlockView,
};
use crate::validation;
use crate::validation::validate_tool_arguments;
use vstd::prelude::*;

verus! {

/// How a call may overlap with the other calls of its turn.
#[derive(Clone, Copy, Debug, PartialEq, Eq, Structural)]
pub enum Concurrency {
    /// May run alongside other shared calls.
    Shared,
    /// Waits for everything before it; later calls wait for it.
    Exclusive,
}

/// A failure that a tool gave up with.
#[derive(Debug, PartialEq)]
pub struct ToolError(pub String);

/// What the host decides before a validated call runs.
#[derive(Debug, PartialEq)]
pub enum ToolDecision {
    Allow,
    /// The call is not to run; the reason, if there is one.
    Block(Option<String>),
}

/// How the run of a tool ended.
#[derive(Debug, PartialEq)]
pub enum ToolOutcome {
    Returned(ToolOutput),
    Failed(ToolError),
    Panicked(String),
}

// ------------------------------------------------------------------ outputs

/// The text of a failure that says nothing.
pub const EMPTY_ERROR_TOOL_RESULT_TEXT: &'static str = "Tool failed with no output.";

/// The block shows something.
pub open spec fn substantive(b: UserBlockView) -> bool {
    match b {
        UserBlockView::Image(_) => true,
        UserBlockView::Text(t) => !text::all_space(Space::Unicode, t.text),
    }
}

/// An output as it is passed on: a failure always says something.
pub open spec fn coerced(out: ToolOutputView) -> ToolOutputView {
    if out.is_error && !(exists|i: int|
        0 <= i < out.content.len() && substantive(#[trigger] out.content[i])) {
        agent_event::text_output(EMPTY_ERROR_TOOL_RESULT_TEXT@, out.details, true)
    } else {
        out
    }
}

/// An output as it is passed on.
pub fn coerce(out: ToolOutput) -> (r: ToolOutput)
    ensures
        r@ == coerced(out@),
{
    let mut found = false;
    let mut i: usize = 0;
    while i < out.content.len()
        invariant
            i <= out.content@.len(),
            found == (exists|j: int| 0 <= j < i && substantive(#[trigger] out@.content[j])),
        decreases out.content@.len() - i,
    {
        let shows = match &out.content[i] {
            UserBlock::Image(_) => true,
            UserBlock::Text(t) => !is_blank(Space::Unicode, t.text.as_str()),
        };
        assert(shows == substantive(out@.content[i as int]));
        if shows {
            found = true;
        }
        i += 1;
    }
    if out.is_error && !found {
        let said = ToolOutput::error(EMPTY_ERROR_TOOL_RESULT_TEXT);
        ToolOutput { content: said.content, details: out.details, is_error: true }
    } else {
        out
    }
}

/// A failure that is passed on always shows something.
pub proof fn law_failures_say_something(out: ToolOutputView)
    ensures
        out.is_error ==> exists|i: int|
            0 <= i < coerced(out).content.len() && substantive(#[trigger] coerced(out).content[i]),
{
    if out.is_error && !(exists|i: int|
        0 <= i < out.content.len() && substantive(#[trigger] out.content[i])) {
        let c = coerced(out).content;
        reveal_strlit("Tool failed with no output.");
        assert(EMPTY_ERROR_TOOL_RESULT_TEXT@[0] == 'T');
        assert(!text::is_space(Space::Unicode, EMPTY_ERROR_TOOL_RESULT_TEXT@[0]));
        assert(substantive(c[0]));
    }
}

// ------------------------------------------------------------------ calls that did not run

/// What is told of a call that did not run.
pub open spec fn not_run_message(reason: Seq<char>) -> Seq<char> {
    if reason == "aborted"@ {
        "Tool execution was aborted"@
    } else if reason == "length"@ {
        TRUNCATED_CALL@
    } else if reason == "skipped"@ {
        "Tool call was not executed because the assistant ended its turn"@
    } else {
        "Tool call was not executed because the provider stream ended with an error before the tool could run"@
    }
}

/// What is told of a call whose arguments were cut off.
pub const TRUNCATED_CALL: &'static str = "Tool call was not executed because the assistant hit its output token limit (stop_reason: length) before the arguments could complete; the recorded arguments are truncated and unsafe to run. Do NOT retry by re-emitting the same large payload — split the work into several smaller tool calls (e.g. for `write`/`edit`, write the first chunk then append the rest with subsequent `edit` insert ops, or break the file into multiple `write` targets)";

/// Where the answer of a call that did not run comes from.
pub open spec fn not_run_source(reason: Seq<char>) -> Seq<char> {
    if reason == "aborted"@ {
        "assistant_stop_aborted"@
    } else if reason == "error"@ {
        "assistant_stop_error"@
    } else if reason == "length"@ {
        "assistant_stop_length"@
    } else {
        "assistant_stop_skipped"@
    }
}

/// The details of the answer to a call that did not run.
pub open spec fn not_run_details(reason: Seq<char>, error: Option<Seq<char>>) -> Entries {
    let head = seq![
        ("__synthetic"@, JsonView::Bool(true)),
        ("source"@, JsonView::String(not_run_source(reason))),
        ("executed"@, JsonView::Bool(false)),
    ];
    match error {
        Some(e) => if reason == "error"@ {
            head.push(("upstreamError"@, JsonView::String(e)))
        } else {
            head
        },
        None => head,
    }
}

/// The answer to a call that did not run.
pub open spec fn synthetic(
    call: ToolCallView,
    reason: Seq<char>,
    error: Option<Seq<char>>,
    now: i64,
) -> ToolResultMessageView {
    let said = not_run_message(reason);
    ToolResultMessageView {
        tool_call_id: call.id,
        tool_name: call.name,
        content: agent_event::text_output(
            match error {
                Some(e) => said + ": "@ + e,
                None => said + "."@,
            },
            None,
            true,
        ).content,
        details: Some(JsonView::Object(not_run_details(reason, error))),
        is_error: true,
        timestamp: now,
    }
}

fn not_run_text(reason: &str) -> (r: &'static str)
    ensures
        r@ == not_run_message(reason@),
{
    if same_text(reason, "aborted") {
        "Tool execution was aborted"
    } else if same_text(reason, "length") {
        TRUNCATED_CALL
    } else if same_text(reason, "skipped") {
        "Tool call was not executed because the assistant ended its turn"
    } else {
        "Tool call was not executed because the provider stream ended with an error before the tool could run"
    }
}

fn not_run_origin(reason: &str) -> (r: &'static str)
    ensures
        r@ == not_run_source(reason@),
{
    if same_text(reason, "aborted") {
        "assistant_stop_aborted"
    } else if same_text(reason, "error") {
        "assistant_stop_error"
    } else if same_text(reason, "length") {
        "assistant_stop_length"
    } else {
        "assistant_stop_skipped"
    }
}

fn not_run_object(reason: &str, error: Option<&str>) -> (o: JsonObject)
    ensures
        o@ == not_run_details(reason@, text::opt_view(error)),
{
    let source = Json::String(not_run_origin(reason).to_owned());
    let mut entries: Vec<(String, Json)> = Vec::new();
    entries.push(("__synthetic".to_owned(), Json::Bool(true)));
    entries.push(("source".to_owned(), source));
    entries.push(("executed".to_owned(), Json::Bool(false)));
    let ghost head = seq![
        ("__synthetic"@, JsonView::Bool(true)),
        ("source"@, JsonView::String(not_run_source(reason@))),
        ("executed"@, JsonView::Bool(false)),
    ];
    let mut o = JsonObject { entries };
    assert(o@ =~= head);
    if let Some(e) = error {
        if same_text(reason, "error") {
            let told = Json::String(e.to_owned());
            o.entries.push(("upstreamError".to_owned(), told));
            assert(o@ =~= head.push(("upstreamError"@, told@)));
        }
    }
    o
}

/// The answer to a call that did not run, at a given time.
pub fn synthetic_tool_result_at(
    call: &ToolCall,
    reason: &str,
    error_message: Option<&str>,
    now: i64,
) -> (r: ToolResultMessage)
    ensures
        r@ == synthetic(call@, reason@, text::opt_view(error_message), now),
{
    let said = not_run_text(reason);
    let told = match error_message {
        Some(e) => concat(concat(said, ": ").as_str(), e),
        None => concat(said, "."),
    };
    ToolResultMessage {
        tool_call_id: call.id.clone(),
        tool_name: call.name.clone(),
        content: ToolOutput::error(told.as_str()).content,
        details: Some(Json::Object(not_run_object(reason, error_message))),
        is_error: true,
        timestamp: now,
    }
}

/// The answer to a call that did not run.
pub fn synthetic_tool_result(
    call: &ToolCall,
    reason: &str,
    error_message: Option<&str>,
) -> (r: ToolResultMessage)
    ensures
        r@ == synthetic(call@, reason@, text::opt_view(error_message), r@.timestamp),
{
    synthetic_tool_result_at(call, reason, error_message, now_ms())
}

/// A call that was looked at before it runs.
#[derive(Debug, PartialEq)]
pub struct Prepared {
    pub call: ToolCall,
    /// Where the tool stands among the tools.
    pub tool: Option<usize>,
    pub args: JsonObject,
    pub concurrency: Concurrency,
    pub validation_error: Option<String>,
    pub blocked: Option<String>,
}

/// What a [`Prepared`] stands for.
#[verifier::ext_equal]
pub struct PreparedView {
    pub call: ToolCallView,
    pub tool: Option<usize>,
    pub args: Entries,
    pub concurrency: Concurrency,
    pub validation_error: Option<Seq<char>>,
    pub blocked: Option<Seq<char>>,
}

impl View for Prepared {
    type V = PreparedView;

    open spec fn view(&self) -> PreparedView {
        PreparedView {
            call: self.call@,
            tool: self.tool,
            args: self.args@,
            concurrency: self.concurrency,
            validation_error: text::opt_view(self.validation_error),
            blocked: text::opt_view(self.blocked),
        }
    }
}

impl Clone for Prepared {
    fn clone(&self) -> (r: Prepared)
        ensures
            r@ == self@,
    {
        Prepared {
            call: self.call.clone(),
            tool: self.tool,
            args: self.args.clone(),
            concurrency: self.concurrency,
            validation_error: clone_opt_string(&self.validation_error),
            blocked: clone_opt_string(&self.blocked),
        }
    }
}

// ------------------------------------------------------------------ before a call runs

/// Where the tool of a name stands, from a place on.
pub open spec fn tool_at(tools: Seq<ToolView>, name: Seq<char>, from: int) -> Option<usize>
    decreases tools.len() - from,
{
    if from < 0 || from >= tools.len() {
        None
    } else if tools[from].name == name {
        Some(from as usize)
    } else {
        tool_at(tools, name, from + 1)
    }
}

/// The arguments that are kept of a refused call: of arguments that could not be parsed only the
/// error, never the text.
pub open spec fn kept_arguments(args: Entries) -> Entries {
    match json::lookup(args, "__parseError"@) {
        Some(e) => seq![("__parseError"@, e)],
        None => args,
    }
}

/// A call after its tool was looked up and its arguments were checked.
pub open spec fn prepared(call: ToolCallView, tools: Seq<ToolView>) -> PreparedView {
    let bare = PreparedView {
        call,
        tool: tool_at(tools, call.name, 0),
        args: call.arguments,
        concurrency: Concurrency::Shared,
        validation_error: None,
        blocked: None,
    };
    match tool_at(tools, call.name, 0) {
        None => PreparedView {
            validation_error: Some("Tool "@ + call.name + " not found"@),
            ..bare
        },
        Some(i) => match validation::validated(
            tools[i as int].parameters,
            call.name,
            call.arguments,
        ) {
            Ok(args) => PreparedView { args, ..bare },
            Err(e) => PreparedView {
                args: kept_arguments(call.arguments),
                validation_error: Some(e),
                ..bare
            },
        },
    }
}

fn find_tool(tools: &Vec<Tool>, name: &str) -> (r: Option<usize>)
    ensures
        r == tool_at(text::views(tools@), name@, 0),
        match r {
            Some(i) => i < tools@.len(),
            None => true,
        },
{
    let mut i: usize = 0;
    while i < tools.len()
        invariant
            i <= tools@.len(),
            tool_at(text::views(tools@), name@, 0) == tool_at(text::views(tools@), name@, i as int),
        decreases tools@.len() - i,
    {
        if same_text(tools[i].name.as_str(), name) {
            return Some(i);
        }
        i += 1;
    }
    None
}

fn kept_object(args: &JsonObject) -> (r: JsonObject)
    ensures
        r@ == kept_arguments(args@),
{
    match args.get("__parseError") {
        Some(e) => {
            let e = e.clone();
            let mut entries: Vec<(String, Json)> = Vec::new();
            entries.push(("__parseError".to_owned(), e));
            let o = JsonObject { entries };
            assert(o@ =~= seq![("__parseError"@, e@)]);
            o
        },
        None => args.clone(),
    }
}

/// Looks the tool of a call up and checks the arguments.
pub fn prepare_call(call: &ToolCall, tools: &Vec<Tool>) -> (r: Prepared)
    ensures
        r@ == prepared(call@, text::views(tools@)),
{
    let mut p = Prepared {
        call: call.clone(),
        tool: None,
        args: call.arguments.clone(),
        concurrency: Concurrency::Shared,
        validation_error: None,
        blocked: None,
    };
    match find_tool(tools, call.name.as_str()) {
        None => {
            let said = concat("Tool ", call.name.as_str());
            p.validation_error = Some(concat(said.as_str(), " not found"));
        },
        Some(i) => {
            p.tool = Some(i);
            match validate_tool_arguments(&tools[i], call.name.as_str(), &call.arguments) {
                Ok(args) => {
                    p.args = args;
                },
                Err(e) => {
                    p.args = kept_object(&call.arguments);
                    p.validation_error = Some(e);
                },
            }
        },
    }
    p
}

/// The host has to be asked about the call.
pub open spec fn needs_decision(p: PreparedView, cancelled: bool) -> bool {
    p.validation_error is None && !cancelled
}

/// The call after its tool said how it may overlap and the host decided on it.
pub open spec fn decided(
    p: PreparedView,
    concurrency: Concurrency,
    blocked: Option<Option<Seq<char>>>,
) -> PreparedView {
    PreparedView {
        concurrency,
        blocked: match blocked {
            Some(Some(reason)) => Some(reason),
            Some(None) => Some("Tool execution was blocked"@),
            None => None,
        },
        ..p
    }
}

/// The reason that a decision gives for blocking.
pub open spec fn block_of(d: ToolDecision) -> Option<Option<Seq<char>>> {
    match d {
        ToolDecision::Allow => None,
        ToolDecision::Block(reason) => Some(text::opt_view(reason)),
    }
}

impl Prepared {
    /// The host has to be asked about the call.
    pub fn needs_decision(&self, cancelled: bool) -> (r: bool)
        ensures
            r == needs_decision(self@, cancelled),
    {
        self.validation_error.is_none() && !cancelled
    }

    /// Notes how the call may overlap and what the host decided.
    pub fn decide(self, concurrency: Concurrency, decision: ToolDecision) -> (r: Prepared)
        ensures
            r@ == decided(self@, concurrency, block_of(decision)),
    {
        let blocked = match decision {
            ToolDecision::Allow => None,
            ToolDecision::Block(Some(reason)) => Some(reason),
            ToolDecision::Block(None) => Some("Tool execution was blocked".to_owned()),
        };
        Prepared { concurrency, blocked, ..self }
    }
}

// ------------------------------------------------------------------ the answer to a call

/// The output of a call that is refused before it starts: it is not valid, or the run was aborted.
pub open spec fn refused(p: PreparedView, aborted: Option<Seq<char>>) -> Option<ToolOutputView> {
    match p.validation_error {
        Some(e) => Some(
            agent_event::text_output(
                e,
                Some(
                    JsonView::Object(
                        seq![("isError"@, JsonView::Bool(true)), ("error"@, JsonView::String(e))],
                    ),
                ),
                true,
            ),
        ),
        None => match aborted {
            Some(why) => Some(
                agent_event::text_output(
                    "Tool was not executed because the run was aborted: "@ + why + "."@,
                    Some(JsonView::Object(Seq::empty())),
                    true,
                ),
            ),
            None => None,
        },
    }
}

fn empty_object() -> (r: Json)
    ensures
        r@ == JsonView::Object(Seq::empty()),
{
    let o = JsonObject::new();
    assert(o@ =~= Entries::empty());
    Json::Object(o)
}

/// The output of a call that is refused before it starts.
pub fn refusal(p: &Prepared, aborted: Option<&str>) -> (r: Option<ToolOutput>)
    ensures
        text::opt_view(r) == refused(p@, text::opt_view(aborted)),
{
    match &p.validation_error {
        Some(e) => {
            let told = Json::String(e.clone());
            let details = object_2("isError", Json::Bool(true), "error", told);
            Some(ToolOutput::error(e.as_str()).with_details(details))
        },
        None => match aborted {
            Some(why) => {
                let said = concat("Tool was not executed because the run was aborted: ", why);
                let said = concat(said.as_str(), ".");
                Some(ToolOutput::error(said.as_str()).with_details(empty_object()))
            },
            None => None,
        },
    }
}

/// The output of a call that the host blocked.
pub open spec fn blocked_output(p: PreparedView) -> Option<ToolOutputView> {
    match p.blocked {
        Some(reason) => Some(
            agent_event::text_output(reason, Some(JsonView::Object(Seq::empty())), true),
        ),
        None => None,
    }
}

/// The output of a call that the host blocked.
pub fn blocked(p: &Prepared) -> (r: Option<ToolOutput>)
    ensures
        text::opt_view(r) == blocked_output(p@),
{
    match &p.blocked {
        Some(reason) => Some(ToolOutput::error(reason.as_str()).with_details(empty_object())),
        None => None,
    }
}

/// The output of a call whose tool ran.
pub open spec fn outcome_output(name: Seq<char>, outcome: ToolOutcome) -> ToolOutputView {
    match outcome {
        ToolOutcome::Returned(out) => coerced(out@),
        ToolOutcome::Failed(e) => coerced(
            agent_event::text_output(e.0@, Some(JsonView::Object(Seq::empty())), true),
        ),
        ToolOutcome::Panicked(what) => agent_event::text_output(
            "Tool "@ + name + " panicked: "@ + what@,
            Some(JsonView::Object(seq![("panicked"@, JsonView::Bool(true))])),
            true,
        ),
    }
}

/// The output of a call whose tool ran.
pub fn outcome(name: &str, ended: ToolOutcome) -> (r: ToolOutput)
    ensures
        r@ == outcome_output(name@, ended),
{
    match ended {
        ToolOutcome::Returned(out) => coerce(out),
        ToolOutcome::Failed(e) => coerce(
            ToolOutput::error(e.0.as_str()).with_details(empty_object()),
        ),
        ToolOutcome::Panicked(what) => {
            let said = concat(concat("Tool ", name).as_str(), " panicked: ");
            let said = concat(said.as_str(), what.as_str());
            ToolOutput::error(said.as_str()).with_details(object_1("panicked", Json::Bool(true)))
        },
    }
}

/// The event that says that a call starts.
pub open spec fn start_event(p: PreparedView) -> AgentEventView {
    AgentEventView::ToolExecutionStart {
        tool_call_id: p.call.id,
        tool_name: p.call.name,
        args: p.args,
    }
}

/// The event that says that a call starts.
pub fn started(p: &Prepared) -> (r: AgentEvent)
    ensures
        r@ == start_event(p@),
{
    AgentEvent::ToolExecutionStart {
        tool_call_id: p.call.id.clone(),
        tool_name: p.call.name.clone(),
        args: p.args.clone(),
    }
}

/// The event of an output that a running tool reports early.
pub fn progress(p: &Prepared, partial: ToolOutput) -> (r: AgentEvent)
    ensures
        r@ == (AgentEventView::ToolExecutionUpdate {
            tool_call_id: p@.call.id,
            tool_name: p@.call.name,
            partial: coerced(partial@),
        }),
{
    AgentEvent::ToolExecutionUpdate {
        tool_call_id: p.call.id.clone(),
        tool_name: p.call.name.clone(),
        partial: coerce(partial),
    }
}

/// The message that answers a call.
pub open spec fn answer(call: ToolCallView, out: ToolOutputView, now: i64) -> ToolResultMessageView {
    ToolResultMessageView {
        tool_call_id: call.id,
        tool_name: call.name,
        content: out.content,
        details: out.details,
        is_error: out.is_error,
        timestamp: now,
    }
}

/// The events of an answer.
pub open spec fn answer_events(call: ToolCallView, out: ToolOutputView, now: i64) -> Seq<AgentEventView> {
    let message = MessageView::ToolResult(answer(call, out, now));
    seq![
        AgentEventView::ToolExecutionEnd {
            tool_call_id: call.id,
            tool_name: call.name,
            result: out,
            is_error: out.is_error,
        },
        AgentEventView::MessageStart { message },
        AgentEventView::MessageEnd { message },
    ]
}

/// The message that answers a call, at a given time.
pub fn answer_at(call: &ToolCall, out: &ToolOutput, now: i64) -> (r: ToolResultMessage)
    ensures
        r@ == answer(call@, out@, now),
{
    ToolResultMessage {
        tool_call_id: call.id.clone(),
        tool_name: call.name.clone(),
        content: text::clone_all(&out.content),
        details: text::clone_opt(&out.details),
        is_error: out.is_error,
        timestamp: now,
    }
}

/// The events of an answer, at a given time.
pub fn events_of_answer(call: &ToolCall, out: &ToolOutput, now: i64) -> (r: Vec<AgentEvent>)
    ensures
        text::views(r@) == answer_events(call@, out@, now),
{
    let mut r: Vec<AgentEvent> = Vec::new();
    r.push(
        AgentEvent::ToolExecutionEnd {
            tool_call_id: call.id.clone(),
            tool_name: call.name.clone(),
            result: out.clone(),
            is_error: out.is_error,
        },
    );
    r.push(AgentEvent::MessageStart { message: Message::ToolResult(answer_at(call, out, now)) });
    r.push(AgentEvent::MessageEnd { message: Message::ToolResult(answer_at(call, out, now)) });
    assert(text::views(r@) =~= answer_events(call@, out@, now));
    r
}

// ------------------------------------------------------------------ batches

/// Where the batch that starts at a call ends: an exclusive call is alone, shared calls go together
/// up to the next exclusive one.
pub open spec fn shared_until(calls: Seq<Concurrency>, from: int) -> int
    decreases calls.len() - from,
{
    if from < 0 || from >= calls.len() || calls[from] == Concurrency::Exclusive {
        from
    } else {
        shared_until(calls, from + 1)
    }
}

/// Where the batch that starts at a call ends.
pub open spec fn batch_end(calls: Seq<Concurrency>, from: int) -> int {
    if 0 <= from < calls.len() && calls[from] == Concurrency::Exclusive {
        from + 1
    } else {
        shared_until(calls, from)
    }
}

proof fn lemma_shared_until(calls: Seq<Concurrency>, from: int)
    requires
        0 <= from <= calls.len(),
    ensures
        from <= shared_until(calls, from) <= calls.len(),
        forall|i: int| from <= i < shared_until(calls, from) ==> calls[i] == Concurrency::Shared,
        shared_until(calls, from) < calls.len() ==> calls[shared_until(calls, from)]
            == Concurrency::Exclusive,
    decreases calls.len() - from,
{
    if from < calls.len() && calls[from] != Concurrency::Exclusive {
        lemma_shared_until(calls, from + 1);
    }
}

/// The batches take the calls in order, none is empty, an exclusive call is alone in its batch, and
/// a shared batch ends only before an exclusive call or at the end.
pub proof fn law_batches(calls: Seq<Concurrency>, from: int)
    requires
        0 <= from < calls.len(),
    ensures
        from < batch_end(calls, from) <= calls.len(),
        calls[from] == Concurrency::Exclusive ==> batch_end(calls, from) == from + 1,
        calls[from] == Concurrency::Shared ==> {
            &&& forall|i: int|
                from <= i < batch_end(calls, from) ==> calls[i] == Concurrency::Shared
            &&& batch_end(calls, from) < calls.len() ==> calls[batch_end(calls, from)]
                == Concurrency::Exclusive
        },
{
    lemma_shared_until(calls, from);
    if calls[from] != Concurrency::Exclusive {
        lemma_shared_until(calls, from + 1);
    }
}

/// The overlaps that the calls allow.
pub open spec fn overlaps(calls: Seq<PreparedView>) -> Seq<Concurrency> {
    calls.map_values(|p: PreparedView| p.concurrency)
}

/// Where the batch that starts at a call ends.
pub fn next_batch(calls: &Vec<Prepared>, from: usize) -> (r: usize)
    requires
        from < calls@.len(),
    ensures
        r == batch_end(overlaps(text::views(calls@)), from as int),
        from < r <= calls@.len(),
{
    let ghost all = overlaps(text::views(calls@));
    proof {
        law_batches(all, from as int);
    }
    let n: usize = calls.len();
    match calls[from].concurrency {
        Concurrency::Exclusive => from + 1,
        Concurrency::Shared => {
            let mut i: usize = from;
            while i < n && calls[i].concurrency != Concurrency::Exclusive
                invariant
                    from <= i <= n,
                    n == calls@.len(),
                    all == overlaps(text::views(calls@)),
                    shared_until(all, from as int) == shared_until(all, i as int),
                decreases calls@.len() - i,
            {
                i += 1;
            }
            i
        },
    }
}

/// A call whose arguments came in as no JSON object is refused: it is not run, and the host is not
/// asked about it.
pub proof fn law_broken_arguments_are_refused(
    call: ToolCallView,
    tools: Seq<ToolView>,
    raw: Seq<char>,
    aborted: Option<Seq<char>>,
    cancelled: bool,
)
    requires
        call.arguments == json::final_arguments(raw),
        !text::all_space(text::Space::Unicode, raw),
        !(json::parsed(text::trim(text::Space::Unicode, raw)) matches Ok(JsonView::Object(_))),
    ensures
        refused(prepared(call, tools), aborted) is Some,
        !needs_decision(prepared(call, tools), cancelled),
{
    text::law_trimming_once_is_enough(text::Space::Unicode, raw);
    let args = call.arguments;
    assert(args[0].0 == "__parseError"@);
    assert(json::find_key(args, "__parseError"@, 0) == Some(0int));
}

} // verus!
