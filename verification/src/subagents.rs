//! Tasks that an agent hands out: how each of them is run, and how their results
//! are put together.
use vstd::prelude::*;
use crate::agent::{copy_names, opt_strs, ResponseView, RunAgentRequest, RunAgentResponse};
use crate::flow::{asked, concurrency};
use crate::keymap::{found, sorted};
use crate::messages::{chat_views, ChatMessage, ClearToolUses, ContextEditingConfig};
use crate::registry::{put, put_is_found, CreateAgentRequest};
use crate::reply::{error_reply, error_view, Reply, ReplyView};
use crate::store::{copy_opt, Agent, AgentRecord, Store};
use crate::text::{opt_str, opt_text, push_text, same, text_or};

verus! {

broadcast use vstd::string::group_string_axioms;

/// A task that is handed out.
#[derive(Debug)]
pub struct SubagentTask {
    pub prompt: String,
    pub model: Option<String>,
    pub provider: Option<String>,
    pub tools: Option<Vec<String>>,
    pub repo_path: Option<String>,
    pub worktree_mode: Option<String>,
}

/// What came of a task.
#[derive(Debug, PartialEq, Eq)]
pub struct SubagentResult {
    pub agent_id: String,
    pub status: String,
    pub output: Option<String>,
    pub error: Option<String>,
    pub run_id: Option<String>,
}

/// What a `SubagentResult` holds.
pub struct ResultView {
    pub agent_id: Seq<char>,
    pub status: Seq<char>,
    pub output: Option<Seq<char>>,
    pub error: Option<Seq<char>>,
    pub run_id: Option<Seq<char>>,
}

impl View for SubagentResult {
    type V = ResultView;

    open spec fn view(&self) -> ResultView {
        ResultView {
            agent_id: self.agent_id@,
            status: self.status@,
            output: opt_text(self.output),
            error: opt_text(self.error),
            run_id: opt_text(self.run_id),
        }
    }
}

/// How the tasks of a request are run.
#[derive(Debug)]
pub struct SubagentPlan {
    pub session_id: String,
    pub lead_model: Option<String>,
    pub sequential: bool,
    pub max_concurrency: u32,
}

/// Whether an agent may hand out tasks: it has to exist, must not have been
/// handed out itself, and needs tasks to hand out.
pub open spec fn handing_out(agents: Seq<(Seq<char>, Agent)>, agent_id: Seq<char>, tasks: nat) -> Result<
    (),
    ReplyView,
> {
    match found(agents, agent_id) {
        None => Err(error_view(404, "agent not found"@)),
        Some(agent) => if agent@.parent_agent_id is Some {
            Err(error_view(403, "subagents cannot spawn subagents"@))
        } else if tasks == 0 {
            Err(error_view(400, "tasks are required"@))
        } else {
            Ok(())
        },
    }
}

/// How the tasks of a request are run, or why they are not.
pub fn subagents(
    store: &Store,
    agent_id: &str,
    mode: Option<&str>,
    max_concurrency: Option<u32>,
    tasks: usize,
) -> (r: Result<SubagentPlan, Reply>)
    ensures
        match r {
            Ok(plan) => {
                let agent = found(store.agents@, agent_id@)->Some_0;
                &&& handing_out(store.agents@, agent_id@, tasks as nat) is Ok
                &&& plan.session_id@ == agent@.session_id
                &&& opt_text(plan.lead_model) == agent@.model
                &&& plan.sequential == (text_or(opt_str(mode), "parallel"@) == "sequential"@)
                &&& plan.max_concurrency == (match max_concurrency {
                    Some(n) => if n == 0 {
                        1
                    } else {
                        n
                    },
                    None => 4u32,
                })
            },
            Err(e) => handing_out(store.agents@, agent_id@, tasks as nat) == Err::<(), ReplyView>(
                e@,
            ),
        },
{
    let agent = match store.agents.get(agent_id) {
        Some(agent) => agent,
        None => {
            return Err(error_reply(404, "agent not found"));
        },
    };
    if agent.parent_agent_id.is_some() {
        return Err(error_reply(403, "subagents cannot spawn subagents"));
    }
    if tasks == 0 {
        return Err(error_reply(400, "tasks are required"));
    }
    let word = match mode {
        Some(m) => m,
        None => "parallel",
    };
    Ok(
        SubagentPlan {
            session_id: agent.session_id.clone(),
            lead_model: copy_opt(&agent.model),
            sequential: same(word, "sequential"),
            max_concurrency: concurrency(max_concurrency),
        },
    )
}

/// The agent that a task is run by. It works where its parent does, unless the
/// task says otherwise.
pub fn task_agent(parent_id: &str, task: &SubagentTask) -> (r: CreateAgentRequest)
    ensures
        opt_text(r.parent_agent_id) == Some(parent_id@),
        opt_text(r.model) == opt_text(task.model),
        opt_text(r.worktree_mode) == Some(text_or(opt_text(task.worktree_mode), "inherit"@)),
        opt_text(r.repo_path) == opt_text(task.repo_path),
{
    let mode = match &task.worktree_mode {
        Some(m) => m.clone(),
        None => "inherit".to_string(),
    };
    CreateAgentRequest {
        parent_agent_id: Some(parent_id.to_string()),
        model: copy_opt(&task.model),
        worktree_mode: Some(mode),
        repo_path: copy_opt(&task.repo_path),
    }
}

/// The run of a task: six steps, tools only if they were approved by name, and
/// three tool results kept.
pub fn task_run(task: &SubagentTask, approved_tools: &Option<Vec<String>>) -> (r: RunAgentRequest)
    ensures
        r.prompt@ == task.prompt@,
        opt_text(r.provider) == opt_text(task.provider),
        opt_text(r.model) == opt_text(task.model),
        r.max_steps == Some(6u32),
        opt_strs(r.tools) == opt_strs(task.tools),
        opt_strs(r.approved_tools) == opt_strs(*approved_tools),
        r.approved == Some(false),
        opt_text(r.approval_reason) == Some("subagent preapproved"@),
        r.context_editing == Some(
            (ContextEditingConfig {
                clear_tool_uses: Some((ClearToolUses { keep_last: Some(3) })),
                compact: None,
            }),
        ),
{
    RunAgentRequest {
        prompt: task.prompt.clone(),
        provider: copy_opt(&task.provider),
        model: copy_opt(&task.model),
        max_steps: Some(6),
        tools: copy_names(&task.tools),
        approved_tools: copy_names(approved_tools),
        approved: Some(false),
        approval_reason: Some("subagent preapproved".to_string()),
        context_editing: Some(
            ContextEditingConfig {
                clear_tool_uses: Some(ClearToolUses { keep_last: Some(3) }),
                compact: None,
            },
        ),
    }
}

/// A task that failed.
pub open spec fn failed_result(
    agent_id: Seq<char>,
    error: Seq<char>,
    run_id: Option<Seq<char>>,
) -> ResultView {
    ResultView { agent_id, status: "error"@, output: None, error: Some(error), run_id }
}

/// A task for which no agent could be made.
pub fn task_without_agent() -> (r: SubagentResult)
    ensures
        r@ == failed_result("unknown"@, "failed to create agent"@, None),
{
    SubagentResult {
        agent_id: "unknown".to_string(),
        status: "error".to_string(),
        output: None,
        error: Some("failed to create agent".to_string()),
        run_id: None,
    }
}

/// A task whose run was lost.
pub fn task_lost(reason: &str) -> (r: SubagentResult)
    ensures
        r@ == failed_result("unknown"@, "join error: "@ + reason@, None),
{
    let mut text = "join error: ".to_string();
    push_text(&mut text, reason);
    SubagentResult {
        agent_id: "unknown".to_string(),
        status: "error".to_string(),
        output: None,
        error: Some(text),
        run_id: None,
    }
}

/// What came of a task whose agent was run. The run is the one that the report
/// names, or else the one that was taken up for the task.
pub open spec fn task_result(
    agent_id: Seq<char>,
    run_id: Seq<char>,
    response: Option<ResponseView>,
) -> ResultView {
    match response {
        Some(resp) => ResultView {
            agent_id,
            status: resp.status,
            output: resp.output,
            error: None,
            run_id: match resp.run_id {
                Some(id) => Some(id),
                None => Some(run_id),
            },
        },
        None => failed_result(agent_id, "subagent run failed"@, Some(run_id)),
    }
}

/// What came of a task whose agent was run; the status goes to the run as well.
pub fn run_subagent_task(
    agent_id: &str,
    run_id: &str,
    response: Result<RunAgentResponse, Reply>,
) -> (r: SubagentResult)
    ensures
        r@ == task_result(
            agent_id@,
            run_id@,
            match response {
                Ok(resp) => Some(resp@),
                Err(_) => None,
            },
        ),
{
    match response {
        Ok(resp) => SubagentResult {
            agent_id: agent_id.to_string(),
            status: resp.status.to_string(),
            output: resp.output,
            error: None,
            run_id: match resp.run_id {
                Some(id) => Some(id),
                None => Some(run_id.to_string()),
            },
        },
        Err(_) => SubagentResult {
            agent_id: agent_id.to_string(),
            status: "error".to_string(),
            output: None,
            error: Some("subagent run failed".to_string()),
            run_id: Some(run_id.to_string()),
        },
    }
}

/// What a row of results holds.
pub open spec fn result_views(v: Seq<SubagentResult>) -> Seq<ResultView> {
    Seq::new(v.len(), |i: int| v[i]@)
}

/// The results one after the other.
pub open spec fn findings(results: Seq<ResultView>) -> Seq<char>
    decreases results.len(),
{
    if results.len() == 0 {
        Seq::empty()
    } else {
        let last = results.last();
        findings(results.drop_last()) + "Agent "@ + last.agent_id + " status="@ + last.status
            + ":\n"@ + text_or(last.output, "<no output>"@) + "\n\n"@
    }
}

/// What a synthesis is asked for where a request does not say.
pub open spec fn synthesis_ask() -> Seq<char> {
    "Aggregate the following subagent outputs into a concise synthesis with key findings and action items."@
}

/// The question that puts the results of tasks together.
pub fn aggregate_subagent_results(prompt: Option<&str>, results: &Vec<SubagentResult>) -> (r: Vec<
    ChatMessage,
>)
    ensures
        chat_views(r@) == asked(
            "You are a synthesis agent."@,
            text_or(opt_str(prompt), synthesis_ask()) + "\n\n"@ + findings(
                result_views(results@),
            ),
        ),
{
    let ghost all = result_views(results@);
    let mut content = String::new();
    let mut i: usize = 0;
    assert(content@ =~= findings(all.take(0)));
    while i < results.len()
        invariant
            all == result_views(results@),
            i <= results@.len(),
            content@ == findings(all.take(i as int)),
        decreases results@.len() - i,
    {
        proof {
            assert(all.take(i + 1).drop_last() =~= all.take(i as int));
            assert(all.take(i + 1).last() == results@[i as int]@);
        }
        push_text(&mut content, "Agent ");
        push_text(&mut content, results[i].agent_id.as_str());
        push_text(&mut content, " status=");
        push_text(&mut content, results[i].status.as_str());
        push_text(&mut content, ":\n");
        match &results[i].output {
            Some(o) => push_text(&mut content, o.as_str()),
            None => push_text(&mut content, "<no output>"),
        }
        push_text(&mut content, "\n\n");
        i = i + 1;
    }
    assert(all.take(i as int) =~= all);
    let mut text = match prompt {
        Some(p) => p.to_string(),
        None =>
            "Aggregate the following subagent outputs into a concise synthesis with key findings and action items.".to_string(),
    };
    push_text(&mut text, "\n\n");
    push_text(&mut text, content.as_str());
    let mut out: Vec<ChatMessage> = Vec::new();
    out.push(ChatMessage::new("system", "You are a synthesis agent."));
    out.push(ChatMessage::new("user", text.as_str()));
    assert(chat_views(out@) =~= asked("You are a synthesis agent."@, text@));
    out
}

/// The agent of a task hands out no tasks itself: once it is in the registry with
/// the parent that it was made for, it is turned away.
pub proof fn task_agents_hand_out_nothing(
    before: Seq<(Seq<char>, Agent)>,
    after: Seq<(Seq<char>, Agent)>,
    record: AgentRecord,
    tasks: nat,
)
    requires
        sorted(before),
        put(before, after, record.id, record),
        record.parent_agent_id is Some,
    ensures
        handing_out(after, record.id, tasks) == Err::<(), ReplyView>(
            error_view(403, "subagents cannot spawn subagents"@),
        ),
{
    put_is_found(before, after, record.id, record, record.id);
}

/// Only an agent that is known and was not handed out itself hands out tasks, and only if
/// there are any; who may not learns why.
pub proof fn only_leads_hand_out_tasks(
    agents: Seq<(Seq<char>, Agent)>,
    agent_id: Seq<char>,
    tasks: nat,
)
    ensures
        match handing_out(agents, agent_id, tasks) {
            Ok(_) => {
                &&& found(agents, agent_id) is Some
                &&& found(agents, agent_id)->Some_0.parent_agent_id is None
                &&& tasks > 0
            },
            Err(reply) => {
                ||| found(agents, agent_id) is None && reply.status == 404
                ||| found(agents, agent_id) is Some && found(
                    agents,
                    agent_id,
                )->Some_0.parent_agent_id is Some && reply.status == 403
                ||| found(agents, agent_id) is Some && found(
                    agents,
                    agent_id,
                )->Some_0.parent_agent_id is None && tasks == 0 && reply.status == 400
            },
        },
{
}

/// What came of a task is what its run reports, under its agent and its run; a run that
/// gave no report is an error.
pub proof fn tasks_come_to_what_is_reported(
    agent_id: Seq<char>,
    run_id: Seq<char>,
    report: ResponseView,
)
    ensures
        ({
            let r = task_result(agent_id, run_id, Some(report));
            &&& r.agent_id == agent_id
            &&& r.status == report.status
            &&& r.output == report.output
            &&& r.error is None
            &&& report.run_id is Some ==> r.run_id == report.run_id
            &&& report.run_id is None ==> r.run_id == Some(run_id)
        }),
        ({
            let r = task_result(agent_id, run_id, None);
            &&& r.agent_id == agent_id
            &&& r.status == "error"@
            &&& r.output is None
            &&& r.error == Some("subagent run failed"@)
            &&& r.run_id == Some(run_id)
        }),
{
}

/// A result as it is read.
pub open spec fn finding(r: ResultView) -> Seq<char> {
    "Agent "@ + r.agent_id + " status="@ + r.status + ":\n"@ + (match r.output {
        Some(text) => text,
        None => "<no output>"@,
    }) + "\n\n"@
}

proof fn lemma_seven(
    f: Seq<char>,
    a: Seq<char>,
    b: Seq<char>,
    c: Seq<char>,
    d: Seq<char>,
    e: Seq<char>,
    g: Seq<char>,
    h: Seq<char>,
)
    ensures
        f + a + b + c + d + e + g + h == f + (a + b + c + d + e + g + h),
{
    assert(f + a + b + c + d + e + g + h =~= f + (a + b + c + d + e + g + h));
}

proof fn lemma_last_finding(results: Seq<ResultView>)
    requires
        results.len() > 0,
    ensures
        findings(results) == findings(results.drop_last()) + finding(results.last()),
{
    let r = results.last();
    let text = match r.output {
        Some(text) => text,
        None => "<no output>"@,
    };
    lemma_seven(
        findings(results.drop_last()),
        "Agent "@,
        r.agent_id,
        " status="@,
        r.status,
        ":\n"@,
        text,
        "\n\n"@,
    );
}

proof fn lemma_three(a: Seq<char>, b: Seq<char>, c: Seq<char>)
    ensures
        a + b + c == a + (b + c),
{
    assert(a + b + c =~= a + (b + c));
}

/// Who puts the results together reads all of them in order: whose each is, how it ended,
/// and what it says.
pub proof fn every_finding_is_read(a: Seq<ResultView>, r: ResultView, b: Seq<ResultView>)
    ensures
        findings(a + seq![r] + b) == findings(a) + finding(r) + findings(b),
        findings(Seq::empty()).len() == 0,
        r.output is Some ==> finding(r) == "Agent "@ + r.agent_id + " status="@ + r.status + ":\n"@
            + r.output->Some_0 + "\n\n"@,
        r.output is None ==> finding(r) == "Agent "@ + r.agent_id + " status="@ + r.status + ":\n"@
            + "<no output>"@ + "\n\n"@,
    decreases b.len(),
{
    let all = a + seq![r] + b;
    lemma_last_finding(all);
    if b.len() == 0 {
        assert(all.drop_last() =~= a);
        assert(all.last() == r);
        assert(findings(b) =~= Seq::<char>::empty());
        assert(findings(a) + finding(r) + findings(b) =~= findings(a) + finding(r));
    } else {
        let rest = b.drop_last();
        every_finding_is_read(a, r, rest);
        assert(all.drop_last() =~= a + seq![r] + rest);
        assert(all.last() == b.last());
        lemma_last_finding(b);
        lemma_three(findings(a) + finding(r), findings(rest), finding(b.last()));
    }
}

} // verus!
