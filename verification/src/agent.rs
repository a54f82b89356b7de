//! The loop of an agent: it asks the model, runs the tools that the reply asks
//! for, and goes on until there is an answer, leave is needed, or it has run for
//! long enough.
use vstd::prelude::*;
use crate::config::ToolsConfig;
use crate::json::{
    json_str, json_text, json_to_text, json_uint, lemma_object_view, lemma_says, member_views,
    object1, object2, object3, says, Json, JsonView,
};
use crate::messages::{
    chat_views, is_result, lemma_chat_push, ChatMessage, ChatView, ContextEditingConfig,
};
use crate::policy::{among, configured_policy, gate_for, preapproved, Gate, ToolPolicy};
use crate::reply::{
    error_reply, error_view, tool_error_reply, tool_error_view, Reply, ReplyView,
};
use crate::store::Agent;
use crate::text::{copy_texts, joined, opt_text, push_text, same, strs};
use crate::toolcalls::{
    call_views, calls_in, parse_tool_calls, system_prompt_lines, tool_system_prompt, ToolCall,
    ToolCallView,
};
use crate::tools::{execute_tool, start_gate, ToolExecError, ToolExecErrorView};

verus! {

broadcast use vstd::string::group_string_axioms;

/// What an agent may do.
#[derive(Debug)]
pub struct AgentLimits {
    pub max_steps: u32,
    pub tools: Option<Vec<String>>,
    pub approved: bool,
    pub approved_tools: Option<Vec<String>>,
    pub deny_on_missing: bool,
}

/// Where an agent stands.
#[derive(Debug)]
pub struct AgentRun {
    pub run_id: String,
    pub messages: Vec<ChatMessage>,
    pub steps: u32,
    pub queue: Vec<ToolCall>,
    pub output: Option<String>,
}

/// What an `AgentRun` holds.
#[verifier::ext_equal]
pub struct AgentView {
    pub run_id: Seq<char>,
    pub messages: Seq<ChatView>,
    pub steps: u32,
    pub queue: Seq<ToolCallView>,
    pub output: Option<Seq<char>>,
}

impl View for AgentRun {
    type V = AgentView;

    open spec fn view(&self) -> AgentView {
        AgentView {
            run_id: self.run_id@,
            messages: chat_views(self.messages@),
            steps: self.steps,
            queue: call_views(self.queue@),
            output: opt_text(self.output),
        }
    }
}

/// What an agent reports when it is through.
#[derive(Debug, PartialEq, Eq)]
pub struct RunAgentResponse {
    pub status: &'static str,
    pub output: Option<String>,
    pub steps: u32,
    pub pending_tool_call: Option<ToolCall>,
    pub run_id: Option<String>,
}

/// What a `RunAgentResponse` holds.
pub struct ResponseView {
    pub status: Seq<char>,
    pub output: Option<Seq<char>>,
    pub steps: u32,
    pub pending: Option<ToolCallView>,
    pub run_id: Option<Seq<char>>,
}

impl View for RunAgentResponse {
    type V = ResponseView;

    open spec fn view(&self) -> ResponseView {
        ResponseView {
            status: self.status@,
            output: opt_text(self.output),
            steps: self.steps,
            pending: match self.pending_tool_call {
                Some(c) => Some(c@),
                None => None,
            },
            run_id: opt_text(self.run_id),
        }
    }
}

/// What is to be done next for an agent: ask the model, run a tool, look whether
/// the run was canceled and go on, or stop with a report or an error.
#[derive(Debug, PartialEq, Eq)]
pub enum AgentAction {
    AskModel,
    RunTool(ToolCall),
    Proceed,
    Done(RunAgentResponse),
    Failed(Reply),
}

/// What an `AgentAction` holds.
pub enum ActionView {
    AskModel,
    RunTool(ToolCallView),
    Proceed,
    Done(ResponseView),
    Failed(ReplyView),
}

impl View for AgentAction {
    type V = ActionView;

    open spec fn view(&self) -> ActionView {
        match self {
            AgentAction::AskModel => ActionView::AskModel,
            AgentAction::RunTool(c) => ActionView::RunTool(c@),
            AgentAction::Proceed => ActionView::Proceed,
            AgentAction::Done(r) => ActionView::Done(r@),
            AgentAction::Failed(r) => ActionView::Failed(r@),
        }
    }
}

/// A request to run an agent.
#[derive(Debug)]
pub struct RunAgentRequest {
    pub prompt: String,
    pub provider: Option<String>,
    pub model: Option<String>,
    pub max_steps: Option<u32>,
    pub tools: Option<Vec<String>>,
    pub approved_tools: Option<Vec<String>>,
    pub approved: Option<bool>,
    pub approval_reason: Option<String>,
    pub context_editing: Option<ContextEditingConfig>,
}

/// What an optional row of names holds.
pub open spec fn opt_strs(v: Option<Vec<String>>) -> Option<Seq<Seq<char>>> {
    match v {
        Some(n) => Some(strs(n@)),
        None => None,
    }
}

/// A copy of an optional row of names.
pub fn copy_names(v: &Option<Vec<String>>) -> (r: Option<Vec<String>>)
    ensures
        opt_strs(r) == opt_strs(*v),
{
    match v {
        Some(names) => Some(copy_texts(names)),
        None => None,
    }
}

impl RunAgentRequest {
    /// What the agent may do.
    pub fn limits(&self, deny_on_missing: bool) -> (r: AgentLimits)
        ensures
            r.max_steps == (match self.max_steps {
                Some(n) => n,
                None => 8u32,
            }),
            opt_strs(r.tools) == opt_strs(self.tools),
            r.approved == (self.approved == Some(true)),
            opt_strs(r.approved_tools) == opt_strs(self.approved_tools),
            r.deny_on_missing == deny_on_missing,
    {
        let approved = match self.approved {
            Some(b) => b,
            None => false,
        };
        AgentLimits {
            max_steps: step_limit(self.max_steps),
            tools: copy_names(&self.tools),
            approved,
            approved_tools: copy_names(&self.approved_tools),
            deny_on_missing,
        }
    }
}

/// The limits where nothing is said of them: eight steps.
pub fn step_limit(max_steps: Option<u32>) -> (r: u32)
    ensures
        r == match max_steps {
            Some(n) => n,
            None => 8,
        },
{
    match max_steps {
        Some(n) => n,
        None => 8,
    }
}

// ---------------------------------------------------------------------------
// The steps of the loop
// ---------------------------------------------------------------------------

/// An agent that was given a task, in a run of this id.
pub open spec fn started(run_id: Seq<char>, prompt: Seq<char>) -> AgentView {
    AgentView {
        run_id,
        messages: seq![
            ChatView { role: "system"@, content: joined(system_prompt_lines(), "\n"@) },
            ChatView { role: "user"@, content: prompt },
        ],
        steps: 0,
        queue: Seq::empty(),
        output: None,
    }
}

/// A report without a call that waits.
pub open spec fn report(status: Seq<char>, st: AgentView) -> ResponseView {
    ResponseView {
        status,
        output: st.output,
        steps: st.steps,
        pending: None,
        run_id: Some(st.run_id),
    }
}

/// What comes next when no tool is left to run: the end where the steps are used
/// up or the run was canceled, else another question to the model.
pub open spec fn next_step(st: AgentView, max_steps: u32, canceled: bool) -> (AgentView, ActionView) {
    if st.steps >= max_steps {
        (st, ActionView::Done(report("completed"@, st)))
    } else if canceled {
        (st, ActionView::Done(report("canceled"@, st)))
    } else {
        (AgentView { steps: (st.steps + 1) as u32, ..st }, ActionView::AskModel)
    }
}

/// Whether the agent may use a tool at all.
pub open spec fn usable(tools: Option<Vec<String>>, tool: Seq<char>) -> bool {
    match tools {
        Some(v) => strs(v@).contains(tool),
        None => true,
    }
}

/// What comes next when tools are left to run: the first of them, if it may be
/// used and has leave.
pub open spec fn next_tool(st: AgentView, limits: AgentLimits, tools: ToolsConfig) -> ActionView {
    if st.queue.len() == 0 {
        ActionView::Proceed
    } else {
        let call = st.queue[0];
        if !usable(limits.tools, call.tool) {
            ActionView::Failed(tool_error_view(403, "tool not allowed"@, call.tool))
        } else {
            match start_gate(
                tools,
                call.tool,
                limits.approved,
                preapproved(limits.approved_tools, call.tool),
                limits.deny_on_missing,
            ) {
                Ok(_) => ActionView::RunTool(call),
                Err(ToolExecErrorView::ApprovalRequired) => ActionView::Done(
                    ResponseView {
                        status: "approval_required"@,
                        output: st.output,
                        steps: st.steps,
                        pending: Some(call),
                        run_id: Some(st.run_id),
                    },
                ),
                Err(ToolExecErrorView::Failed(reply)) => ActionView::Failed(reply),
            }
        }
    }
}

/// What a reply of the model leads to, given the calls in it: the end where
/// there are none, else the first of them.
pub open spec fn after_reply(
    st: AgentView,
    reply: Seq<char>,
    calls: Seq<ToolCallView>,
    limits: AgentLimits,
    tools: ToolsConfig,
) -> (AgentView, ActionView) {
    let said = st.messages.push(ChatView { role: "assistant"@, content: reply });
    if calls.len() == 0 {
        let end = AgentView { messages: said, output: Some(reply), queue: Seq::empty(), ..st };
        (end, ActionView::Done(report("completed"@, end)))
    } else {
        let next = AgentView { messages: said, queue: calls, ..st };
        (next, next_tool(next, limits, tools))
    }
}

/// How the model is told what a tool returned.
pub open spec fn result_message(tool: Seq<char>, result: JsonView) -> ChatView {
    ChatView { role: "user"@, content: "Tool result for "@ + tool + ":\n"@ + json_text(result) }
}

/// What the result of the first tool leads to: the model is told, and the next
/// tool follows; an error ends the run.
pub open spec fn after_tool(
    st: AgentView,
    result: Result<JsonView, ReplyView>,
    limits: AgentLimits,
    tools: ToolsConfig,
) -> (AgentView, ActionView) {
    match result {
        Ok(v) => {
            let next = AgentView {
                messages: st.messages.push(result_message(st.queue[0].tool, v)),
                queue: st.queue.skip(1),
                ..st
            };
            (next, next_tool(next, limits, tools))
        },
        Err(reply) => (st, ActionView::Failed(reply)),
    }
}

/// A tool's result by its view.
pub open spec fn tool_outcome(r: Result<Json, Reply>) -> Result<JsonView, ReplyView> {
    match r {
        Ok(v) => Ok(v@),
        Err(e) => Err(e@),
    }
}

impl AgentRun {
    /// An agent that was given a task, in a run of this id.
    pub fn start(run_id: &str, prompt: &str) -> (r: AgentRun)
        ensures
            r@ == started(run_id@, prompt@),
    {
        let system = tool_system_prompt();
        let mut messages: Vec<ChatMessage> = Vec::new();
        messages.push(ChatMessage::new("system", system.as_str()));
        messages.push(ChatMessage::new("user", prompt));
        let queue: Vec<ToolCall> = Vec::new();
        assert(chat_views(messages@) =~= started(run_id@, prompt@).messages);
        assert(call_views(queue@) =~= Seq::empty());
        AgentRun { run_id: run_id.to_string(), messages, steps: 0, queue, output: None }
    }

    fn report_done(&self, status: &'static str) -> (r: AgentAction)
        ensures
            r@ == ActionView::Done(report(status@, self@)),
    {
        let output = match &self.output {
            Some(s) => Some(s.clone()),
            None => None,
        };
        AgentAction::Done(
            RunAgentResponse {
                status,
                output,
                steps: self.steps,
                pending_tool_call: None,
                run_id: Some(self.run_id.clone()),
            },
        )
    }

    /// What comes next when no tool is left to run.
    pub fn proceed(&mut self, max_steps: u32, canceled: bool) -> (r: AgentAction)
        ensures
            (final(self)@, r@) == next_step(old(self)@, max_steps, canceled),
    {
        if self.steps >= max_steps {
            return self.report_done("completed");
        }
        if canceled {
            return self.report_done("canceled");
        }
        self.steps = self.steps + 1;
        AgentAction::AskModel
    }

    fn take_next_tool(&self, limits: &AgentLimits, tools: &ToolsConfig) -> (r: AgentAction)
        ensures
            r@ == next_tool(self@, *limits, *tools),
    {
        assert(self@.queue.len() == self.queue@.len());
        if self.queue.len() == 0 {
            return AgentAction::Proceed;
        }
        let call = &self.queue[0];
        let name = call.tool.as_str();
        if let Some(allowed) = &limits.tools {
            if !among(allowed, name) {
                return AgentAction::Failed(tool_error_reply(403, "tool not allowed", name));
            }
        }
        match execute_tool(
            tools,
            name,
            limits.approved,
            &limits.approved_tools,
            limits.deny_on_missing,
        ) {
            Ok(()) => AgentAction::RunTool(call.duplicate()),
            Err(ToolExecError::ApprovalRequired) => {
                let output = match &self.output {
                    Some(s) => Some(s.clone()),
                    None => None,
                };
                AgentAction::Done(
                    RunAgentResponse {
                        status: "approval_required",
                        output,
                        steps: self.steps,
                        pending_tool_call: Some(call.duplicate()),
                        run_id: Some(self.run_id.clone()),
                    },
                )
            },
            Err(ToolExecError::Failed(reply)) => AgentAction::Failed(reply),
        }
    }

    /// What a reply of the model leads to, given the calls in it.
    pub fn on_calls(
        &mut self,
        reply: &str,
        calls: Vec<ToolCall>,
        limits: &AgentLimits,
        tools: &ToolsConfig,
    ) -> (r: AgentAction)
        ensures
            (final(self)@, r@) == after_reply(
                old(self)@,
                reply@,
                call_views(calls@),
                *limits,
                *tools,
            ),
    {
        let message = ChatMessage::new("assistant", reply);
        proof {
            lemma_chat_push(self.messages@, message);
        }
        self.messages.push(message);
        assert(call_views(calls@).len() == calls@.len());
        let none = calls.len() == 0;
        self.queue = calls;
        if none {
            self.output = Some(reply.to_string());
            assert(self@.queue =~= Seq::empty());
            self.report_done("completed")
        } else {
            self.take_next_tool(limits, tools)
        }
    }

    /// What a reply of the model leads to.
    pub fn on_reply(&mut self, reply: &str, limits: &AgentLimits, tools: &ToolsConfig) -> (r:
        AgentAction)
        ensures
            (final(self)@, r@) == after_reply(
                old(self)@,
                reply@,
                calls_in(reply@),
                *limits,
                *tools,
            ),
    {
        let calls = parse_tool_calls(reply);
        self.on_calls(reply, calls, limits, tools)
    }

    /// What the result of the first tool in the queue leads to.
    pub fn on_tool(
        &mut self,
        result: Result<Json, Reply>,
        limits: &AgentLimits,
        tools: &ToolsConfig,
    ) -> (r: AgentAction)
        requires
            old(self).queue@.len() > 0,
        ensures
            (final(self)@, r@) == after_tool(old(self)@, tool_outcome(result), *limits, *tools),
    {
        match result {
            Err(reply) => AgentAction::Failed(reply),
            Ok(value) => {
                let ghost before = self@;
                let call = self.queue.remove(0);
                assert(call_views(self.queue@) =~= before.queue.skip(1));
                let mut content = "Tool result for ".to_string();
                push_text(&mut content, call.tool.as_str());
                push_text(&mut content, ":\n");
                push_text(&mut content, json_to_text(&value).as_str());
                let message = ChatMessage::new("user", content.as_str());
                proof {
                    lemma_chat_push(self.messages@, message);
                }
                self.messages.push(message);
                self.take_next_tool(limits, tools)
            },
        }
    }
}

/// A run of an agent from the registry, and the model that it asks: the one that
/// the request names, or else the agent's own. An agent that is not there is not
/// run.
pub fn run_agent_internal(agent: Option<Agent>, run_id: &str, req: &RunAgentRequest) -> (r: Result<
    (AgentRun, Option<String>),
    Reply,
>)
    ensures
        match agent {
            Some(a) => {
                &&& r matches Ok((run, model))
                &&& run@ == started(run_id@, req.prompt@)
                &&& opt_text(model) == (if req.model is Some {
                    opt_text(req.model)
                } else {
                    opt_text(a.model)
                })
            },
            None => r matches Err(e) && e@ == error_view(404, "agent not found"@),
        },
{
    match agent {
        Some(a) => {
            let model = match &req.model {
                Some(m) => Some(m.clone()),
                None => a.model,
            };
            Ok((AgentRun::start(run_id, req.prompt.as_str()), model))
        },
        None => Err(error_reply(404, "agent not found")),
    }
}

/// The status that is kept with the agent when its run stops: idle again, or in
/// error; a canceled run leaves it as it is.
pub fn agent_status_after(action: &AgentAction) -> (r: Option<&'static str>)
    ensures
        match action@ {
            ActionView::Done(resp) => if resp.status == "canceled"@ {
                r is None
            } else {
                r is Some && r->Some_0@ == "idle"@
            },
            ActionView::Failed(_) => r is Some && r->Some_0@ == "error"@,
            _ => r is None,
        },
{
    match action {
        AgentAction::Done(resp) => if same(resp.status, "canceled") {
            None
        } else {
            Some("idle")
        },
        AgentAction::Failed(_) => Some("error"),
        _ => None,
    }
}

// ---------------------------------------------------------------------------
// What listeners are told
// ---------------------------------------------------------------------------

/// Something that listeners to a run are told.
#[derive(Debug, PartialEq, Eq)]
pub struct RunNote {
    pub kind: &'static str,
    pub payload: Json,
}

/// What a `RunNote` holds.
pub struct NoteView {
    pub kind: Seq<char>,
    pub payload: JsonView,
}

impl View for RunNote {
    type V = NoteView;

    open spec fn view(&self) -> NoteView {
        NoteView { kind: self.kind@, payload: self.payload@ }
    }
}

/// What a row of notes holds.
pub open spec fn note_views(v: Seq<RunNote>) -> Seq<NoteView> {
    Seq::new(v.len(), |i: int| v[i]@)
}

/// A tool starts.
pub open spec fn tool_start_note(tool: Seq<char>) -> NoteView {
    NoteView {
        kind: "tool.start"@,
        payload: JsonView::Object(seq![("tool"@, JsonView::Str(tool))]),
    }
}

/// A tool ends, well or not.
pub open spec fn tool_end_note(tool: Seq<char>, ok: bool) -> NoteView {
    NoteView {
        kind: "tool.end"@,
        payload: JsonView::Object(seq![("tool"@, JsonView::Str(tool)), ("ok"@, JsonView::Bool(ok))]),
    }
}

/// A tool did not start for want of leave.
pub open spec fn tool_waits_note(tool: Seq<char>) -> NoteView {
    NoteView {
        kind: "tool.end"@,
        payload: JsonView::Object(
            seq![
                ("tool"@, JsonView::Str(tool)),
                ("ok"@, JsonView::Bool(false)),
                ("error"@, JsonView::Str("approval_required"@)),
            ],
        ),
    }
}

/// What listeners are told when the next tool is up: that it starts, and where
/// it does not get to run, that it ended. Of a tool that may not be used they are
/// told nothing.
pub open spec fn tool_notes(st: AgentView, limits: AgentLimits, tools: ToolsConfig) -> Seq<NoteView> {
    if st.queue.len() == 0 || !usable(limits.tools, st.queue[0].tool) {
        Seq::empty()
    } else {
        let tool = st.queue[0].tool;
        match next_tool(st, limits, tools) {
            ActionView::Done(_) => seq![tool_start_note(tool), tool_waits_note(tool)],
            ActionView::Failed(_) => seq![tool_start_note(tool), tool_end_note(tool, false)],
            _ => seq![tool_start_note(tool)],
        }
    }
}

impl AgentRun {
    /// What listeners are told when the next tool is up, given what is to be
    /// done about it.
    pub fn notes_for_tool(&self, limits: &AgentLimits, tools: &ToolsConfig) -> (r: Vec<RunNote>)
        ensures
            note_views(r@) == tool_notes(self@, *limits, *tools),
    {
        let mut out: Vec<RunNote> = Vec::new();
        assert(self@.queue.len() == self.queue@.len());
        assert(note_views(out@) =~= Seq::empty());
        if self.queue.len() == 0 {
            return out;
        }
        let name = self.queue[0].tool.as_str();
        if let Some(allowed) = &limits.tools {
            if !among(allowed, name) {
                return out;
            }
        }
        out.push(RunNote { kind: "tool.start", payload: object1("tool", json_str(name)) });
        match self.take_next_tool(limits, tools) {
            AgentAction::Done(_) => {
                out.push(
                    RunNote {
                        kind: "tool.end",
                        payload: object3(
                            "tool",
                            json_str(name),
                            "ok",
                            Json::Bool(false),
                            "error",
                            json_str("approval_required"),
                        ),
                    },
                );
            },
            AgentAction::Failed(_) => {
                out.push(note_tool_end(name, false));
            },
            _ => {},
        }
        assert(note_views(out@) =~= tool_notes(self@, *limits, *tools));
        out
    }
}

/// What listeners are told when a tool ends.
pub fn note_tool_end(tool: &str, ok: bool) -> (r: RunNote)
    ensures
        r@ == tool_end_note(tool@, ok),
{
    RunNote { kind: "tool.end", payload: object2("tool", json_str(tool), "ok", Json::Bool(ok)) }
}

/// What listeners are told when a run starts.
pub fn note_run_start(max_steps: u32) -> (r: RunNote)
    ensures
        r@ == (NoteView {
            kind: "run.start"@,
            payload: JsonView::Object(seq![("steps"@, JsonView::Unsigned(max_steps as u64))]),
        }),
{
    RunNote { kind: "run.start", payload: object1("steps", json_uint(max_steps as u64)) }
}

/// What listeners are told before and after the model is asked.
pub fn note_message(start: bool, step: u32) -> (r: RunNote)
    ensures
        r@ == (NoteView {
            kind: if start {
                "message.start"@
            } else {
                "message.end"@
            },
            payload: JsonView::Object(seq![("step"@, JsonView::Unsigned(step as u64))]),
        }),
{
    let kind = if start { "message.start" } else { "message.end" };
    RunNote { kind, payload: object1("step", json_uint(step as u64)) }
}

/// What listeners are told when a run ends with a report.
pub fn note_run_end(resp: &RunAgentResponse) -> (r: RunNote)
    ensures
        r@ == (NoteView {
            kind: "run.end"@,
            payload: JsonView::Object(
                seq![
                    ("status"@, JsonView::Str(resp.status@)),
                    ("steps"@, JsonView::Unsigned(resp.steps as u64)),
                ],
            ),
        }),
{
    RunNote {
        kind: "run.end",
        payload: object2(
            "status",
            json_str(resp.status),
            "steps",
            json_uint(resp.steps as u64),
        ),
    }
}

/// What listeners are told when a run ends with an error.
pub fn note_run_error() -> (r: RunNote)
    ensures
        r@ == (NoteView {
            kind: "run.error"@,
            payload: JsonView::Object(seq![("error"@, JsonView::Str("run failed"@))]),
        }),
{
    RunNote { kind: "run.error", payload: object1("error", json_str("run failed")) }
}

/// A note as it is sent to listeners.
pub open spec fn event_of_run(
    note: NoteView,
    run_id: Seq<char>,
    session_id: Seq<char>,
    agent_id: Seq<char>,
    ts_ms: u64,
) -> JsonView {
    JsonView::Object(
        seq![
            ("type"@, JsonView::Str(note.kind)),
            ("run_id"@, JsonView::Str(run_id)),
            ("session_id"@, JsonView::Str(session_id)),
            ("agent_id"@, JsonView::Str(agent_id)),
            ("ts_ms"@, JsonView::Unsigned(ts_ms)),
            ("payload"@, note.payload),
        ],
    )
}

/// A note as it is sent to listeners: the document of an event.
pub fn run_event(
    note: RunNote,
    run_id: &str,
    session_id: &str,
    agent_id: &str,
    ts_ms: u64,
) -> (r: String)
    ensures
        r@ == json_text(event_of_run(note@, run_id@, session_id@, agent_id@, ts_ms)),
{
    let ghost view = note@;
    let mut members: Vec<(String, Json)> = Vec::new();
    members.push(("type".to_string(), json_str(note.kind)));
    members.push(("run_id".to_string(), json_str(run_id)));
    members.push(("session_id".to_string(), json_str(session_id)));
    members.push(("agent_id".to_string(), json_str(agent_id)));
    members.push(("ts_ms".to_string(), json_uint(ts_ms)));
    members.push(("payload".to_string(), note.payload));
    proof {
        lemma_object_view(members);
        assert(member_views(members@) =~= event_of_run(
            view,
            run_id@,
            session_id@,
            agent_id@,
            ts_ms,
        )->Object_0);
    }
    json_to_text(&Json::Object(members))
}

// ---------------------------------------------------------------------------
// What holds of every run
// ---------------------------------------------------------------------------

/// An agent asks the model only while it has steps left, and each question uses
/// one up; it asks no more once the run was canceled.
pub proof fn steps_are_bounded(st: AgentView, max_steps: u32, canceled: bool)
    requires
        st.steps <= max_steps,
    ensures
        ({
            let (next, action) = next_step(st, max_steps, canceled);
            &&& next.steps <= max_steps
            &&& action == ActionView::AskModel <==> st.steps < max_steps && !canceled
            &&& action == ActionView::AskModel ==> next.steps == st.steps + 1
            &&& action != ActionView::AskModel ==> action is Done && next == st
        }),
{
}

/// A tool is run only if the agent may use it and it has leave: its policy
/// allows it, or it asks and was approved. A denied tool is never run.
pub proof fn tools_need_leave(st: AgentView, limits: AgentLimits, tools: ToolsConfig)
    ensures
        match next_tool(st, limits, tools) {
            ActionView::RunTool(call) => {
                &&& st.queue.len() > 0
                &&& call == st.queue[0]
                &&& usable(limits.tools, call.tool)
                &&& gate_for(
                    configured_policy(tools, call.tool),
                    limits.approved,
                    preapproved(limits.approved_tools, call.tool),
                    limits.deny_on_missing,
                ) == Gate::Run
            },
            _ => true,
        },
{
}

/// A run that waits for leave names the call that it waits for, and only such a
/// run does.
pub proof fn pending_call_is_named(st: AgentView, limits: AgentLimits, tools: ToolsConfig)
    ensures
        match next_tool(st, limits, tools) {
            ActionView::Done(resp) => {
                &&& resp.pending == Some(st.queue[0])
                &&& resp.status == "approval_required"@
                &&& !limits.approved
                &&& !limits.deny_on_missing
            },
            _ => true,
        },
{
}

/// A report that may be made of a run: it bears the id of the run, its status is
/// one of three, and it names a call exactly if it waits for leave.
pub open spec fn sound_report(action: ActionView, st: AgentView) -> bool {
    action matches ActionView::Done(resp) ==> {
        &&& resp.run_id == Some(st.run_id)
        &&& resp.steps == st.steps
        &&& resp.status == "completed"@ || resp.status == "canceled"@ || resp.status
            == "approval_required"@
        &&& resp.status == "approval_required"@ <==> resp.pending is Some
    }
}

/// Every report of a run is sound: it bears the id of the run, which no step
/// changes. Steps are used up by questions to the model only.
pub proof fn reports_bear_their_run(
    st: AgentView,
    max_steps: u32,
    canceled: bool,
    reply: Seq<char>,
    calls: Seq<ToolCallView>,
    result: Result<JsonView, ReplyView>,
    limits: AgentLimits,
    tools: ToolsConfig,
)
    ensures
        ({
            let (a, asked) = next_step(st, max_steps, canceled);
            let (b, replied) = after_reply(st, reply, calls, limits, tools);
            let (c, ran) = after_tool(st, result, limits, tools);
            &&& a.run_id == st.run_id && sound_report(asked, st)
            &&& b.run_id == st.run_id && b.steps == st.steps && sound_report(replied, st)
            &&& c.run_id == st.run_id && c.steps == st.steps && sound_report(ran, st)
        }),
{
    reveal_strlit("completed");
    reveal_strlit("canceled");
    reveal_strlit("approval_required");
    assert("completed"@.len() == 9 && "canceled"@.len() == 8);
    assert("approval_required"@.len() == 17);
}

/// Nothing that was said is forgotten: each step adds to the conversation at its
/// end.
pub proof fn conversation_grows(
    st: AgentView,
    reply: Seq<char>,
    calls: Seq<ToolCallView>,
    result: Result<JsonView, ReplyView>,
    limits: AgentLimits,
    tools: ToolsConfig,
)
    ensures
        st.messages.is_prefix_of(after_reply(st, reply, calls, limits, tools).0.messages),
        st.messages.is_prefix_of(after_tool(st, result, limits, tools).0.messages),
{
}

/// Where an agent stands after each of the results was taken for the tool that was
/// first in its queue, and what comes next then.
pub open spec fn after_results(
    st: AgentView,
    action: ActionView,
    results: Seq<JsonView>,
    limits: AgentLimits,
    tools: ToolsConfig,
) -> (AgentView, ActionView)
    decreases results.len(),
{
    if results.len() == 0 {
        (st, action)
    } else {
        let (before, _) = after_results(st, action, results.drop_last(), limits, tools);
        after_tool(before, Ok(results.last()), limits, tools)
    }
}

/// A call that may run: its tool is one that the agent may use, and has leave.
pub open spec fn may_run(call: ToolCallView, limits: AgentLimits, tools: ToolsConfig) -> bool {
    &&& match limits.tools {
        Some(v) => exists|i: int| 0 <= i < v@.len() && (#[trigger] v@[i])@ == call.tool,
        None => true,
    }
    &&& gate_for(
        configured_policy(tools, call.tool),
        limits.approved,
        preapproved(limits.approved_tools, call.tool),
        limits.deny_on_missing,
    ) == Gate::Run
}

proof fn lemma_calls_run(
    st: AgentView,
    reply: Seq<char>,
    calls: Seq<ToolCallView>,
    results: Seq<JsonView>,
    limits: AgentLimits,
    tools: ToolsConfig,
)
    requires
        calls.len() > 0,
        results.len() <= calls.len(),
        forall|i: int| 0 <= i < calls.len() ==> may_run(#[trigger] calls[i], limits, tools),
    ensures
        ({
            let (first, action) = after_reply(st, reply, calls, limits, tools);
            let (now, next) = after_results(first, action, results, limits, tools);
            &&& now.queue == calls.skip(results.len() as int)
            &&& now.messages.len() == st.messages.len() + 1 + results.len()
            &&& st.messages.is_prefix_of(now.messages)
            &&& now.messages[st.messages.len() as int] == (ChatView {
                role: "assistant"@,
                content: reply,
            })
            &&& forall|i: int|
                0 <= i < results.len() ==> #[trigger] now.messages[st.messages.len() + 1 + i]
                    == (ChatView {
                    role: "user"@,
                    content: "Tool result for "@ + calls[i].tool + ":\n"@ + json_text(results[i]),
                })
            &&& next == if results.len() < calls.len() {
                ActionView::RunTool(calls[results.len() as int])
            } else {
                ActionView::Proceed
            }
        }),
    decreases results.len(),
{
    let (first, action) = after_reply(st, reply, calls, limits, tools);
    let n = st.messages.len() as int;
    assert forall|i: int| 0 <= i < calls.len() implies usable(
        limits.tools,
        (#[trigger] calls[i]).tool,
    ) by {
        assert(may_run(calls[i], limits, tools));
        match limits.tools {
            Some(v) => {
                let k = choose|k: int| 0 <= k < v@.len() && (#[trigger] v@[k])@ == calls[i].tool;
                assert(strs(v@)[k] == calls[i].tool);
            },
            None => {},
        }
    }
    if results.len() == 0 {
        assert(calls.skip(0) =~= calls);
        assert(first.messages[n] == first.messages.last());
        assert(may_run(calls[0], limits, tools));
    } else {
        let fewer = results.drop_last();
        let m = fewer.len() as int;
        lemma_calls_run(st, reply, calls, fewer, limits, tools);
        let (before, _) = after_results(first, action, fewer, limits, tools);
        let (now, next) = after_results(first, action, results, limits, tools);
        assert(before.queue[0] == calls[m]);
        assert(now.queue =~= calls.skip(m + 1));
        assert(now.messages.len() == before.messages.len() + 1);
        assert(now.messages.last() == now.messages[n + 1 + m]);
        assert forall|i: int| 0 <= i < results.len() implies #[trigger] now.messages[n + 1 + i]
            == (ChatView {
            role: "user"@,
            content: "Tool result for "@ + calls[i].tool + ":\n"@ + json_text(results[i]),
        }) by {
            if i < m {
                assert(now.messages[n + 1 + i] == before.messages[n + 1 + i]);
                assert(fewer[i] == results[i]);
            }
        }
        assert(now.messages[n] == before.messages[n]);
        assert(st.messages.is_prefix_of(now.messages)) by {
            assert(now.messages.subrange(0, n) =~= before.messages.subrange(0, n));
        }
        if m + 1 < calls.len() {
            assert(now.queue[0] == calls[m + 1]);
            assert(may_run(calls[m + 1], limits, tools));
        }
    }
}

/// Every call of a reply is run, in the order of the reply, and none twice: as long
/// as all of them may run and go well, the tool that comes after `k` results is that
/// of the `k`-th call, and after the last result the loop goes on. The model is told
/// its own reply and each result under the name of its tool, in the same order.
pub proof fn every_call_is_run_in_order(
    st: AgentView,
    reply: Seq<char>,
    calls: Seq<ToolCallView>,
    results: Seq<JsonView>,
    limits: AgentLimits,
    tools: ToolsConfig,
)
    requires
        calls.len() > 0,
        results.len() <= calls.len(),
        forall|i: int| 0 <= i < calls.len() ==> may_run(#[trigger] calls[i], limits, tools),
    ensures
        ({
            let (first, action) = after_reply(st, reply, calls, limits, tools);
            let (now, next) = after_results(first, action, results, limits, tools);
            &&& next == if results.len() < calls.len() {
                ActionView::RunTool(calls[results.len() as int])
            } else {
                ActionView::Proceed
            }
            &&& now.messages.len() == st.messages.len() + 1 + results.len()
            &&& now.messages[st.messages.len() as int] == (ChatView {
                role: "assistant"@,
                content: reply,
            })
            &&& forall|i: int|
                0 <= i < results.len() ==> #[trigger] now.messages[st.messages.len() + 1 + i]
                    == (ChatView {
                    role: "user"@,
                    content: "Tool result for "@ + calls[i].tool + ":\n"@ + json_text(results[i]),
                })
        }),
{
    lemma_calls_run(st, reply, calls, results, limits, tools);
}

/// A reply without calls is the answer: the run ends with it, word for word.
pub proof fn a_reply_without_calls_is_the_answer(
    st: AgentView,
    reply: Seq<char>,
    limits: AgentLimits,
    tools: ToolsConfig,
)
    ensures
        match after_reply(st, reply, Seq::empty(), limits, tools).1 {
            ActionView::Done(resp) => {
                &&& resp.status == "completed"@
                &&& resp.output == Some(reply)
                &&& resp.steps == st.steps
                &&& resp.pending is None
                &&& resp.run_id == Some(st.run_id)
            },
            _ => false,
        },
        after_reply(st, reply, Seq::empty(), limits, tools).0.messages.last().content == reply,
{
}

/// A tool that may not be used, or that is denied, ends the run with a refusal that
/// names it; an error of a tool ends the run with that error.
pub proof fn refused_tools_end_the_run(
    st: AgentView,
    result: ReplyView,
    limits: AgentLimits,
    tools: ToolsConfig,
)
    requires
        st.queue.len() > 0,
    ensures
        after_tool(st, Err(result), limits, tools).1 == ActionView::Failed(result),
        limits.tools is Some && (forall|i: int|
            0 <= i < limits.tools->Some_0@.len() ==> (#[trigger] limits.tools->Some_0@[i])@
                != st.queue[0].tool) ==> next_tool(st, limits, tools) == ActionView::Failed(
            tool_error_view(403, "tool not allowed"@, st.queue[0].tool),
        ),
        configured_policy(tools, st.queue[0].tool) == ToolPolicy::Deny ==> next_tool(
            st,
            limits,
            tools,
        ) is Failed,
{
    if limits.tools is Some {
        let names = strs(limits.tools->Some_0@);
        if names.contains(st.queue[0].tool) {
            let i = choose|i: int| 0 <= i < names.len() && names[i] == st.queue[0].tool;
            assert(limits.tools->Some_0@[i]@ == st.queue[0].tool);
        }
    }
}

/// A run starts with what the agent is told of its tools and with the task, and
/// nothing is asked or queued before that.
pub proof fn runs_start_with_the_task(run_id: Seq<char>, prompt: Seq<char>)
    ensures
        started(run_id, prompt).messages.len() == 2,
        started(run_id, prompt).messages[0].role == "system"@,
        started(run_id, prompt).messages[1] == (ChatView { role: "user"@, content: prompt }),
        started(run_id, prompt).steps == 0,
        started(run_id, prompt).queue.len() == 0,
        started(run_id, prompt).output is None,
        started(run_id, prompt).run_id == run_id,
{
}

/// A run without steps left ends at once, a canceled one as soon as it would go on.
pub proof fn runs_end_when_they_must(st: AgentView, max_steps: u32, canceled: bool)
    ensures
        match next_step(st, max_steps, canceled).1 {
            ActionView::Done(resp) => {
                &&& st.steps >= max_steps || canceled
                &&& resp.output == st.output
                &&& resp.steps == st.steps
                &&& resp.status == "canceled"@ ==> canceled && st.steps < max_steps
                &&& st.steps >= max_steps ==> resp.status == "completed"@
                &&& st.steps < max_steps ==> resp.status == "canceled"@
            },
            ActionView::AskModel => st.steps < max_steps && !canceled && next_step(
                st,
                max_steps,
                canceled,
            ).0 == (AgentView { steps: (st.steps + 1) as u32, ..st }),
            _ => false,
        },
{
    reveal_strlit("completed");
    reveal_strlit("canceled");
    assert("completed"@.len() == 9 && "canceled"@.len() == 8);
}

/// What the model is told of a tool is a result in the sense in which old results are
/// cleared away, and it holds the document of what the tool returned.
pub proof fn reports_of_tools_are_results(tool: Seq<char>, result: JsonView)
    ensures
        is_result(result_message(tool, result)),
        exists|head: Seq<char>|
            result_message(tool, result).content == #[trigger] (head + json_text(result)),
        exists|rest: Seq<char>|
            result_message(tool, result).content == #[trigger] ("Tool result for "@ + tool + rest),
{
    let m = result_message(tool, result);
    let head = "Tool result for "@;
    assert(m.content.take(head.len() as int) =~= head);
    assert(m.content == (head + tool + ":\n"@) + json_text(result));
    assert(m.content =~= head + tool + (":\n"@ + json_text(result)));
}

/// Listeners are told that a tool starts before it runs; of one that waits for leave or is
/// denied they are told that it ended and did not go well. Of one that may not be used
/// they are told nothing.
pub proof fn listeners_are_told_of_tools(st: AgentView, limits: AgentLimits, tools: ToolsConfig)
    requires
        st.queue.len() > 0,
    ensures
        ({
            let notes = tool_notes(st, limits, tools);
            let tool = st.queue[0].tool;
            let may_use = match limits.tools {
                Some(v) => strs(v@).contains(tool),
                None => true,
            };
            &&& !may_use ==> notes.len() == 0
            &&& may_use ==> {
                &&& notes.len() > 0
                &&& notes[0].kind == "tool.start"@
                &&& says(notes[0].payload, "tool"@, JsonView::Str(tool))
                &&& match next_tool(st, limits, tools) {
                    ActionView::RunTool(_) => notes.len() == 1,
                    ActionView::Done(_) => {
                        &&& notes.len() == 2
                        &&& notes[1].kind == "tool.end"@
                        &&& says(notes[1].payload, "tool"@, JsonView::Str(tool))
                        &&& says(notes[1].payload, "ok"@, JsonView::Bool(false))
                        &&& says(notes[1].payload, "error"@, JsonView::Str("approval_required"@))
                    },
                    ActionView::Failed(_) => {
                        &&& notes.len() == 2
                        &&& notes[1].kind == "tool.end"@
                        &&& says(notes[1].payload, "tool"@, JsonView::Str(tool))
                        &&& says(notes[1].payload, "ok"@, JsonView::Bool(false))
                    },
                    _ => true,
                }
            }
        }),
{
    let tool = st.queue[0].tool;
    let a = tool_start_note(tool).payload->Object_0;
    lemma_says(a);
    assert(a[0].0 == "tool"@);
    let b = tool_waits_note(tool).payload->Object_0;
    lemma_says(b);
    assert(b[0].0 == "tool"@ && b[1].0 == "ok"@ && b[2].0 == "error"@);
    let c = tool_end_note(tool, false).payload->Object_0;
    lemma_says(c);
    assert(c[0].0 == "tool"@ && c[1].0 == "ok"@);
}

/// A note says whether a tool went well, and is sent with its kind, its run, session and
/// agent, its time and what it says.
pub proof fn notes_bear_their_run(
    note: NoteView,
    run_id: Seq<char>,
    session_id: Seq<char>,
    agent_id: Seq<char>,
    ts_ms: u64,
    tool: Seq<char>,
    ok: bool,
)
    ensures
        tool_end_note(tool, ok).kind == "tool.end"@,
        says(tool_end_note(tool, ok).payload, "tool"@, JsonView::Str(tool)),
        says(tool_end_note(tool, ok).payload, "ok"@, JsonView::Bool(ok)),
        ({
            let e = event_of_run(note, run_id, session_id, agent_id, ts_ms);
            &&& says(e, "type"@, JsonView::Str(note.kind))
            &&& says(e, "run_id"@, JsonView::Str(run_id))
            &&& says(e, "session_id"@, JsonView::Str(session_id))
            &&& says(e, "agent_id"@, JsonView::Str(agent_id))
            &&& says(e, "ts_ms"@, JsonView::Unsigned(ts_ms))
            &&& says(e, "payload"@, note.payload)
        }),
{
    let c = tool_end_note(tool, ok).payload->Object_0;
    lemma_says(c);
    assert(c[0].0 == "tool"@ && c[1].0 == "ok"@);
    let o = event_of_run(note, run_id, session_id, agent_id, ts_ms)->Object_0;
    lemma_says(o);
    assert(o[0].0 == "type"@ && o[1].0 == "run_id"@ && o[2].0 == "session_id"@);
    assert(o[3].0 == "agent_id"@ && o[4].0 == "ts_ms"@ && o[5].0 == "payload"@);
}

} // verus!
