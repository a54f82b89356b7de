use aish::agent::{
    agent_status_after, note_message, note_run_end, note_run_error, note_run_start, note_tool_end,
    run_agent_internal, run_event, AgentAction, AgentLimits, AgentRun, RunAgentRequest,
    RunAgentResponse,
};
use aish::config::{
    apply_bind_override, apply_env_overrides, bind_error_text, default_config_path, join_path,
    listen_address, load, resolve_path, BindError, Config, EnvOverrides, ModelAlias,
    OpenAICompatConfig, ServerConfig, ToolsConfig,
};
use aish::diagnostics::{trial_session, DiagnosticReport};
use aish::flow::{
    concurrency, flow_end, flow_reply, node_answer, note_node_end, note_node_start, run_flow_node,
    start_node_tool, FlowEdge, FlowNode, FlowRun, NodeStep,
};
use aish::json::{json_int, json_str, json_uint, object1, object2, render_template, Json, JsonNumber};
use aish::keymap::KeyMap;
use aish::messages::{
    apply_context_editing, clear_tool_uses, compact_messages, compaction_split, ChatMessage,
    ClearToolUses, CompactConfig, ContextEditingConfig,
};
use aish::policy::{check_tool, parse_policy, policy_for, Gate, ToolPolicy};
use aish::provider::{
    call_llm_with_messages, completion_outcome, completion_response, completion_url, completions,
    completions_reply, is_local, llm_text, resolve_api_key, resolve_provider, CompletionRequest,
    HttpOutcome,
};
use aish::registry::{
    create_worktree, resolve_worktree_mode, tmux_name, CreateAgentRequest, WorktreeMode,
};
use aish::reply::{error_reply, tool_error_reply, Reply};
use aish::store::{apply_event, load_store, store_lines, Agent, Run, Session, Store, StoreEvent};
use aish::subagents::{
    aggregate_subagent_results, run_subagent_task, subagents, task_agent, task_lost, task_run,
    task_without_agent, SubagentResult, SubagentTask,
};
use aish::text::{
    int_to_string, is_blank, lines, nat_to_string, parse_i64, parse_nat, replace, rsplit_once, trim,
};
use aish::toolcalls::{extract_completion_text, parse_tool_calls, tool_system_prompt, ToolCall};
use aish::tools::{
    call_tool, execute_tool, finish_call, finish_tool, find_tool, fs_list_result, fs_read_result,
    fs_write_result, list_tools, log_tool_event, select_shell, shell_result, tool_defs,
    tool_start_data, truncate_bytes, unknown_tool, ListEntry, ToolExecError, ToolKind,
};

fn texts(v: &[&str]) -> Vec<String> {
    v.iter().map(|s| s.to_string()).collect()
}

fn tools_with(default_policy: &str, policies: &[(&str, &str)]) -> ToolsConfig {
    ToolsConfig {
        default_policy: default_policy.to_string(),
        policies: policies.iter().map(|(k, v)| (k.to_string(), v.to_string())).collect(),
    }
}

// Shells, ids and worktrees

#[test]
fn select_shell_uses_zsh_flags() {
    let (shell, args) = select_shell(Some("/bin/zsh"));
    assert_eq!(shell, "/bin/zsh");
    assert_eq!(args, vec!["-f".to_string(), "-c".to_string()]);
}

#[test]
fn select_shell_uses_bash_flags() {
    let (shell, args) = select_shell(Some("/usr/bin/bash"));
    assert_eq!(shell, "/usr/bin/bash");
    assert_eq!(
        args,
        vec!["--noprofile".to_string(), "--norc".to_string(), "-c".to_string()]
    );
}

#[test]
fn select_shell_falls_back() {
    let (shell, args) = select_shell(Some("/bin/sh"));
    assert_eq!(shell, "/bin/sh");
    assert_eq!(args, vec!["-c".to_string()]);
    assert_eq!(select_shell(None).0, "sh");
}

#[test]
fn next_id_is_human_readable() {
    let mut store = Store::default();
    let id = store.next_id("sess");
    let parts: Vec<&str> = id.split('_').collect();
    assert_eq!(parts.len(), 4);
    assert_eq!(parts[0], "sess");
    assert_eq!(parts[1].len(), 8);
    assert!(parts[1].chars().all(|c| c.is_ascii_digit()));
    assert_eq!(parts[2].len(), 6);
    assert!(parts[2].chars().all(|c| c.is_ascii_digit()));
    assert_eq!(parts[3].len(), 3);
    assert!(parts[3].chars().all(|c| c.is_ascii_digit()));
}

#[test]
fn update_seq_from_id_tracks_suffix() {
    let mut store = Store::default();
    store.update_seq_from_id("sess_20260204_010203_042");
    assert_eq!(store.seq, 42);
    store.update_seq_from_id("agent_20260204_010203_007");
    assert_eq!(store.seq, 42);
    store.update_seq_from_id("sess_20260204_010203_100");
    assert_eq!(store.seq, 100);
}

#[test]
fn resolve_worktree_mode_auto_inherit() {
    let mode = resolve_worktree_mode(Some("auto"), None, Some("/tmp/wt")).unwrap();
    match mode {
        WorktreeMode::Inherit => {}
        _ => panic!("expected inherit"),
    }
}

#[test]
fn resolve_worktree_mode_new_requires_repo() {
    let err = resolve_worktree_mode(Some("new"), None, None).unwrap_err();
    assert!(err.contains("repo_path"));
}

#[test]
fn resolve_worktree_mode_auto_new() {
    let mode = resolve_worktree_mode(Some("auto"), Some("/tmp/repo"), None).unwrap();
    match mode {
        WorktreeMode::New(path) => assert_eq!(path, "/tmp/repo"),
        _ => panic!("expected new"),
    }
}

#[test]
fn worktree_modes_and_their_errors() {
    assert_eq!(resolve_worktree_mode(None, None, None), Ok(WorktreeMode::Absent));
    assert_eq!(resolve_worktree_mode(Some("NONE"), Some("/r"), Some("/p")), Ok(WorktreeMode::Absent));
    assert_eq!(
        resolve_worktree_mode(Some("inherit"), Some("/r"), None).unwrap_err(),
        "parent worktree not found"
    );
    assert_eq!(
        resolve_worktree_mode(Some("new"), None, Some("/p")).unwrap_err(),
        "repo_path is required for new worktree"
    );
    assert_eq!(
        resolve_worktree_mode(Some("old"), None, None).unwrap_err(),
        "invalid worktree_mode (use auto|new|inherit|none)"
    );
    let plan = create_worktree("/logs", "s", "agent_1");
    assert_eq!(plan.base, "/logs/worktrees/s");
    assert_eq!(plan.path, "/logs/worktrees/s/agent_1");
    assert_eq!(plan.branch, "aish/agent_1");
    assert_eq!(tmux_name("aish", "s", "a"), "aish-s-a");
}

// Tool calls and policies

#[test]
fn parse_tool_calls_single() {
    let text = r#"{"tool":"shell","args":{"cmd":"ls"}}"#;
    let calls = parse_tool_calls(text);
    assert_eq!(calls.len(), 1);
    assert_eq!(calls[0].tool, "shell");
    assert_eq!(calls[0].args.get_string("cmd").as_deref(), Some("ls"));
}

#[test]
fn parse_tool_calls_array() {
    let text = r#"{"tool_calls":[{"tool":"fs.read","args":{"path":"README.md"}}]}"#;
    let calls = parse_tool_calls(text);
    assert_eq!(calls.len(), 1);
    assert_eq!(calls[0].tool, "fs.read");
    assert_eq!(calls[0].args.get_string("path").as_deref(), Some("README.md"));
}

#[test]
fn parse_tool_calls_non_json() {
    let calls = parse_tool_calls("hello there");
    assert!(calls.is_empty());
}

#[test]
fn tool_calls_in_other_shapes() {
    let fenced = parse_tool_calls("```json\n[{\"name\":\"fs.list\"},{\"x\":1}]\n```");
    assert_eq!(fenced.len(), 1);
    assert_eq!(fenced[0], ToolCall { tool: "fs.list".to_string(), args: Json::Null });
    assert!(parse_tool_calls("{\"tool\":").is_empty());
    assert!(parse_tool_calls("{\"answer\":42}").is_empty());
    assert!(tool_system_prompt().starts_with("You are a tool-using assistant.\n"));
}

#[test]
fn policies_by_name_and_family() {
    let tools = tools_with("deny", &[("fs", "allow"), ("fs.write", "ask"), ("shell", "Ask")]);
    assert_eq!(policy_for(&tools, "fs.read"), ToolPolicy::Allow);
    assert_eq!(policy_for(&tools, "fs.write"), ToolPolicy::Ask);
    assert_eq!(policy_for(&tools, "other"), ToolPolicy::Deny);
    assert_eq!(parse_policy("allow"), ToolPolicy::Allow);
    assert_eq!(parse_policy("deny"), ToolPolicy::Deny);
    assert_eq!(parse_policy("whatever"), ToolPolicy::Ask);
    assert_eq!(ToolPolicy::Deny.as_str(), "deny");
    assert_eq!(check_tool(&tools, "fs.read", false, &None, true), Gate::Run);
    assert_eq!(check_tool(&tools, "other", true, &None, true), Gate::Denied);
    assert_eq!(check_tool(&tools, "fs.write", false, &None, true), Gate::ApprovalMissing);
    assert_eq!(check_tool(&tools, "fs.write", false, &None, false), Gate::ApprovalRequired);
    let named = Some(texts(&["fs.write"]));
    assert_eq!(check_tool(&tools, "fs.write", false, &named, false), Gate::Run);
}

#[test]
fn calls_keep_to_the_policies() {
    let tools = tools_with("ask", &[("fs.read", "allow"), ("shell", "deny")]);
    assert_eq!(call_tool(&tools, "fs.read", None), Ok(ToolKind::FsRead));
    assert_eq!(call_tool(&tools, "fs.list", Some(true)), Ok(ToolKind::FsList));
    let asks = call_tool(&tools, "fs.list", Some(false)).unwrap_err();
    assert_eq!(asks.status, 403);
    assert_eq!(asks.body.get_string("policy").as_deref(), Some("ask"));
    assert_eq!(
        call_tool(&tools, "shell", Some(true)).unwrap_err(),
        tool_error_reply(403, "tool denied", "shell")
    );
    assert_eq!(call_tool(&tools, "rm", Some(true)).unwrap_err(), unknown_tool());
    assert_eq!(execute_tool(&tools, "fs.read", false, &None, true), Ok(()));
    assert_eq!(
        execute_tool(&tools, "fs.write", false, &None, false),
        Err(ToolExecError::ApprovalRequired)
    );
    assert_eq!(
        execute_tool(&tools, "fs.write", false, &None, true),
        Err(ToolExecError::Failed(tool_error_reply(403, "approval_required", "fs.write")))
    );
    assert_eq!(find_tool("nope"), None);
    assert_eq!(tool_defs().len(), 4);
    match list_tools(&tools) {
        Json::Array(infos) => {
            assert_eq!(infos.len(), 4);
            assert_eq!(infos[0].get_string("policy").as_deref(), Some("deny"));
        }
        _ => panic!("expected an array"),
    }
}

#[test]
fn tool_results_are_told() {
    let ok = shell_result(None, false, "o", "e");
    assert_eq!(ok.get("status"), Some(&Json::Null));
    assert_eq!(fs_read_result("p", true, "c").get_bool("truncated"), Some(true));
    assert_eq!(fs_write_result("p").get_bool("ok"), Some(true));
    let entry = ListEntry { name: "n".to_string(), path: "/n".to_string(), is_dir: true };
    match fs_list_result(&vec![entry]).get("entries") {
        Some(Json::Array(v)) => assert_eq!(v[0].get_bool("is_dir"), Some(true)),
        _ => panic!("expected entries"),
    }
    assert_eq!(truncate_bytes(vec![1, 2, 3], Some(2)), (vec![1, 2], true));
    assert_eq!(truncate_bytes(vec![1, 2, 3], Some(3)), (vec![1, 2, 3], false));
    assert_eq!(truncate_bytes(vec![1], None), (vec![1], false));
    let started = tool_start_data("shell", &json_uint(1), None);
    assert_eq!(started.get("approval_reason"), Some(&Json::Null));
    let (logged, reply) = finish_call("shell", Err(error_reply(500, "boom")), 12);
    assert_eq!(logged.get("duration_ms"), Some(&json_uint(12)));
    assert_eq!(logged.get_bool("ok"), Some(false));
    assert_eq!(reply, error_reply(500, "boom"));
    let (_, done) = finish_call("shell", Ok(json_uint(5)), 12);
    assert_eq!(done.status, 200);
    assert_eq!(done.body.get("result"), Some(&json_uint(5)));
    let (told, out) = finish_tool("shell", Ok(json_uint(5)));
    assert_eq!(told, object2("tool", json_str("shell"), "ok", Json::Bool(true)));
    assert_eq!(out, Ok(json_uint(5)));
    assert_eq!(log_tool_event(None, Some("a"), "tool.start", Json::Null, 1), None);
    let event = log_tool_event(Some("s"), None, "tool.start", Json::Null, 1).unwrap();
    assert_eq!(event.get("agent_id"), Some(&Json::Null));
    assert_eq!(event.get("ts_ms"), Some(&json_uint(1)));
}

// Conversations

#[test]
fn clear_tool_uses_keeps_last() {
    let messages = vec![
        ChatMessage {
            role: "user".to_string(),
            content: "Tool result for shell:\n1".to_string(),
        },
        ChatMessage { role: "assistant".to_string(), content: "ok".to_string() },
        ChatMessage {
            role: "user".to_string(),
            content: "Tool result for fs.read:\n2".to_string(),
        },
        ChatMessage {
            role: "user".to_string(),
            content: "Tool result for fs.list:\n3".to_string(),
        },
    ];
    let cleared = clear_tool_uses(&messages, 2);
    let tool_msgs: Vec<_> = cleared
        .iter()
        .filter(|m| m.role == "user" && m.content.starts_with("Tool result for "))
        .collect();
    assert_eq!(tool_msgs.len(), 2);
    assert!(tool_msgs[0].content.contains("fs.read"));
    assert!(tool_msgs[1].content.contains("fs.list"));
}

#[test]
fn render_template_replaces_keys() {
    let outputs = vec![("node1".to_string(), Json::Str("hello".to_string()))];
    let value = Json::Str("Value: {{node1}}".to_string());
    let rendered = render_template(value, &outputs);
    assert_eq!(rendered, Json::Str("Value: hello".to_string()));
}

#[test]
fn templates_are_filled_everywhere() {
    let outputs = vec![
        ("a".to_string(), object1("n", json_int(-3))),
        ("b".to_string(), Json::Number(JsonNumber::Other("1.5".to_string()))),
    ];
    let value = Json::Array(vec![
        json_str("{{a}}"),
        object1("{{b}}", json_str("x {{b}} {{c}}")),
        json_uint(1),
    ]);
    assert_eq!(
        render_template(value, &outputs),
        Json::Array(vec![
            json_str("{\"n\":-3}"),
            object1("{{b}}", json_str("x 1.5 {{c}}")),
            json_uint(1),
        ])
    );
}

#[test]
fn long_conversations_are_summed_up() {
    let messages: Vec<ChatMessage> =
        (0..10).map(|i| ChatMessage::new("user", &format!("m{i}"))).collect();
    let config = Some(ContextEditingConfig {
        clear_tool_uses: Some(ClearToolUses { keep_last: None }),
        compact: Some(CompactConfig { max_messages: Some(9) }),
    });
    assert_eq!(compaction_split(&config, 10), Some(6));
    assert_eq!(compaction_split(&config, 9), None);
    assert_eq!(compaction_split(&None, 100), None);
    let asked = compact_messages(&messages, &config).unwrap();
    assert!(asked.last().unwrap().content.contains("m5"));
    assert!(!asked.last().unwrap().content.contains("m6"));
    let view = apply_context_editing(&messages, &config, Some("so far"));
    assert_eq!(view.len(), 5);
    assert_eq!(view[0].role, "system");
    assert!(view[0].content.ends_with("so far"));
    assert_eq!(view[1].content, "m6");
    assert_eq!(apply_context_editing(&messages, &None, None).len(), 10);
}

fn limits(max_steps: u32) -> AgentLimits {
    AgentLimits {
        max_steps,
        tools: Some(texts(&["shell", "fs.read"])),
        approved: false,
        approved_tools: None,
        deny_on_missing: false,
    }
}

#[test]
fn agents_run_tools_until_they_answer() {
    let tools = tools_with("ask", &[("fs.read", "allow")]);
    let lim = limits(3);
    let mut run = AgentRun::start("run_1", "task");
    assert_eq!(run.messages.len(), 2);
    assert_eq!(run.proceed(3, false), AgentAction::AskModel);
    let action = run.on_reply(r#"{"tool":"fs.read","args":{"path":"a"}}"#, &lim, &tools);
    let call = ToolCall { tool: "fs.read".to_string(), args: object1("path", json_str("a")) };
    assert_eq!(action, AgentAction::RunTool(call));
    let notes = run.notes_for_tool(&lim, &tools);
    assert_eq!(notes.len(), 1);
    assert_eq!(notes[0].kind, "tool.start");
    assert_eq!(run.on_tool(Ok(json_str("text")), &lim, &tools), AgentAction::Proceed);
    assert_eq!(run.messages[3].content, "Tool result for fs.read:\n\"text\"");
    assert_eq!(run.proceed(3, false), AgentAction::AskModel);
    match run.on_reply("the answer", &lim, &tools) {
        AgentAction::Done(resp) => {
            assert_eq!(resp.status, "completed");
            assert_eq!(resp.output.as_deref(), Some("the answer"));
            assert_eq!(resp.steps, 2);
            assert_eq!(resp.run_id.as_deref(), Some("run_1"));
        }
        other => panic!("unexpected {other:?}"),
    }
}

#[test]
fn agents_stop_for_leave_limits_and_errors() {
    let tools = tools_with("ask", &[]);
    let lim = limits(1);
    let mut run = AgentRun::start("run_1", "task");
    run.proceed(1, false);
    match run.on_reply(r#"{"tool":"shell","args":null}"#, &lim, &tools) {
        AgentAction::Done(resp) => {
            assert_eq!(resp.status, "approval_required");
            assert_eq!(resp.pending_tool_call.unwrap().tool, "shell");
            assert_eq!(resp.run_id.as_deref(), Some("run_1"));
        }
        other => panic!("unexpected {other:?}"),
    }
    let mut other = AgentRun::start("run_1", "task");
    other.proceed(1, false);
    let refused = other.on_reply(r#"{"tool":"fs.list"}"#, &lim, &tools);
    assert_eq!(
        refused,
        AgentAction::Failed(tool_error_reply(403, "tool not allowed", "fs.list"))
    );
    assert_eq!(agent_status_after(&refused), Some("error"));
    let mut late = AgentRun::start("run_1", "task");
    match late.proceed(0, false) {
        AgentAction::Done(resp) => assert_eq!(resp.status, "completed"),
        other => panic!("unexpected {other:?}"),
    }
    match late.proceed(5, true) {
        AgentAction::Done(resp) => {
            assert_eq!(resp.status, "canceled");
            assert_eq!(resp.run_id.as_deref(), Some("run_1"));
            assert_eq!(agent_status_after(&AgentAction::Done(resp)), None);
        }
        other => panic!("unexpected {other:?}"),
    }
}

fn asks(model: Option<&str>) -> RunAgentRequest {
    let mut req = task_run(&task(), &None);
    req.prompt = "task".to_string();
    req.model = model.map(|m| m.to_string());
    req
}

#[test]
fn only_agents_that_exist_are_run() {
    let (run, model) =
        run_agent_internal(Some(agent("a", "s", None)), "run_9", &asks(None)).unwrap();
    assert_eq!(run.run_id, "run_9");
    assert_eq!(run.messages[1].content, "task");
    assert_eq!(model.as_deref(), Some("m"));
    let named = run_agent_internal(Some(agent("a", "s", None)), "run_9", &asks(Some("other")));
    assert_eq!(named.unwrap().1.as_deref(), Some("other"));
    let refused = run_agent_internal(None, "run_9", &asks(None)).unwrap_err();
    assert_eq!(refused, error_reply(404, "agent not found"));
}

#[test]
fn listeners_are_told_of_a_run() {
    assert_eq!(note_run_start(8).payload, object1("steps", json_uint(8)));
    assert_eq!(note_message(true, 2).kind, "message.start");
    assert_eq!(note_message(false, 2).kind, "message.end");
    assert_eq!(note_tool_end("shell", false).payload.get_bool("ok"), Some(false));
    assert_eq!(note_run_error().payload, object1("error", json_str("run failed")));
    let resp = RunAgentResponse {
        status: "completed",
        output: None,
        steps: 2,
        pending_tool_call: None,
        run_id: Some("r".to_string()),
    };
    let sent = run_event(note_run_end(&resp), "r", "s", "a", 5);
    assert_eq!(
        sent,
        "{\"agent_id\":\"a\",\"payload\":{\"status\":\"completed\",\"steps\":2},\
         \"run_id\":\"r\",\"session_id\":\"s\",\"ts_ms\":5,\"type\":\"run.end\"}"
    );
    let request = RunAgentRequest {
        prompt: "p".to_string(),
        provider: None,
        model: None,
        max_steps: None,
        tools: None,
        approved_tools: Some(texts(&["shell"])),
        approved: Some(true),
        approval_reason: None,
        context_editing: None,
    };
    let lim = request.limits(true);
    assert_eq!(lim.max_steps, 8);
    assert!(lim.approved && lim.deny_on_missing);
    assert_eq!(lim.approved_tools, Some(texts(&["shell"])));
}

// Registry

fn agent(id: &str, session_id: &str, parent: Option<&str>) -> Agent {
    Agent {
        id: id.to_string(),
        session_id: session_id.to_string(),
        parent_agent_id: parent.map(|p| p.to_string()),
        model: Some("m".to_string()),
        status: "idle".to_string(),
        tmux_session_name: None,
        worktree: Some("/wt".to_string()),
    }
}

#[test]
fn fresh_ids_are_in_no_use() {
    let mut store = Store::default();
    apply_event(&mut store, StoreEvent::AgentUpsert(agent("agent_20260101_000000_007", "s", None)));
    store.next_id("run");
    apply_event(&mut store, StoreEvent::AgentUpsert(agent("agent_20260101_000000_003", "s", None)));
    let id = store.next_id_at("agent", "20260101_000000");
    assert_eq!(id, "agent_20260101_000000_009");
    assert!(store.get_agent(&id).is_err());
    assert!(store.get_agent("agent_20260101_000000_007").is_ok());
}

#[test]
fn sessions_are_made_changed_and_found() {
    let mut store = Store::default();
    let made = store.create_session(None, Some("open".to_string()), 7);
    assert_eq!(made.title, "untitled");
    assert_eq!(made.share_state, "open");
    assert_eq!(made.status, "idle");
    let changed =
        store.patch_session(&made.id, Some("t".to_string()), None, Some("busy".to_string()), 9);
    let changed = changed.unwrap();
    assert_eq!((changed.title.as_str(), changed.status.as_str()), ("t", "busy"));
    assert_eq!((changed.created_at, changed.updated_at), (7, 9));
    assert_eq!(store.get_session(&made.id).unwrap(), &changed);
    assert_eq!(store.list_sessions(), vec![changed]);
    assert_eq!(store.get_session("x").unwrap_err(), error_reply(404, "session not found"));
    assert_eq!(
        store.patch_session("x", None, None, None, 1).unwrap_err(),
        error_reply(404, "session not found")
    );
}

#[test]
fn agents_and_runs_are_made_and_followed() {
    let mut store = Store::default();
    let session = store.create_session(None, None, 1);
    let request = CreateAgentRequest {
        parent_agent_id: None,
        model: Some("m".to_string()),
        worktree_mode: None,
        repo_path: Some("/r".to_string()),
    };
    assert_eq!(
        store.begin_agent("x", &request).unwrap_err(),
        error_reply(404, "session not found")
    );
    let draft = store.begin_agent(&session.id, &request).unwrap();
    assert_eq!(draft.mode, WorktreeMode::New("/r".to_string()));
    let id = draft.id.clone();
    let made = store.finish_agent(draft.id, &session.id, request, "t".to_string(), None);
    assert_eq!(made.status, "idle");
    assert_eq!(store.get_agent(&id).unwrap(), &made);
    let child = CreateAgentRequest {
        parent_agent_id: Some(id.clone()),
        model: None,
        worktree_mode: Some("inherit".to_string()),
        repo_path: None,
    };
    assert_eq!(
        store.begin_agent(&session.id, &child).unwrap_err(),
        error_reply(400, "parent worktree not found")
    );
    assert_eq!(store.set_agent_status(&id, "running").unwrap().status, "running");
    assert_eq!(store.set_agent_status("x", "running"), None);
    assert_eq!(store.list_agents(&session.id).len(), 1);
    assert!(store.list_agents("other").is_empty());
    assert_eq!(store.get_agent("x").unwrap_err(), error_reply(404, "agent not found"));
    let run = store.create_run(&session.id, &id, "agent", 5);
    assert_eq!(run.ended_at, None);
    assert_eq!(store.update_run_status(&run.id, "running", 6).unwrap().ended_at, None);
    assert_eq!(store.update_run_status(&run.id, "completed", 8).unwrap().ended_at, Some(8));
    assert_eq!(store.get_run(&run.id).unwrap().status, "completed");
    assert_eq!(store.list_runs().len(), 1);
    assert_eq!(store.get_run("x").unwrap_err(), error_reply(404, "run not found"));
    assert_eq!(store.update_run_status("x", "error", 8), None);
}

#[test]
fn the_registry_is_restored() {
    let session = |title: &str| Session {
        id: "sess_20260204_010203_041".to_string(),
        title: title.to_string(),
        created_at: 1,
        updated_at: 2,
        status: "idle".to_string(),
        share_state: "manual".to_string(),
        tmux_session_name: None,
    };
    let run = Run {
        id: "run_20260204_010203_043".to_string(),
        session_id: "s".to_string(),
        agent_id: "a".to_string(),
        mode: "agent".to_string(),
        status: "running".to_string(),
        started_at: 1,
        ended_at: None,
    };
    let mut store = load_store(vec![
        StoreEvent::SessionUpsert(session("first")),
        StoreEvent::AgentUpsert(agent("agent_20260204_010203_042", "s", None)),
        StoreEvent::RunUpsert(run),
        StoreEvent::SessionUpsert(session("last")),
    ]);
    assert_eq!(store.list_sessions(), vec![session("last")]);
    assert_eq!(store.next_id_at("sess", "20260204_010204"), "sess_20260204_010204_044");
    assert_eq!(store_lines(" a \n\n  \nb"), vec!["a", "b"]);
}

#[test]
fn keys_are_kept_in_order() {
    let mut map: KeyMap<u32> = KeyMap::new();
    map.insert("b".to_string(), 1);
    map.insert("a".to_string(), 2);
    map.insert("b".to_string(), 3);
    assert_eq!(map.len(), 2);
    assert_eq!(map.entries, vec![("a".to_string(), 2), ("b".to_string(), 3)]);
    assert_eq!(map.get("c"), None);
    assert!(map.contains_key("a"));
}

// Flows

fn node(id: &str, kind: &str, inputs: &[&str]) -> FlowNode {
    FlowNode {
        id: id.to_string(),
        kind: kind.to_string(),
        prompt: None,
        tool: None,
        args: None,
        inputs: Some(texts(inputs)),
    }
}

fn edge(from: &str, to: &str) -> FlowEdge {
    FlowEdge { from: from.to_string(), to: to.to_string() }
}

#[test]
fn flows_run_in_the_order_of_their_edges() {
    let nodes = vec![node("c", "llm", &["b"]), node("b", "llm", &[]), node("a", "llm", &[])];
    let mut flow = FlowRun::start(nodes, &vec![edge("a", "b")]).unwrap();
    assert_eq!(flow.ready(), vec!["a"]);
    assert_eq!(flow.node("a").unwrap().id, "a");
    assert!(flow.node("z").is_none());
    flow.complete("a".to_string(), json_str("1"));
    assert_eq!(flow.ready(), vec!["b"]);
    flow.complete("b".to_string(), json_str("2"));
    assert_eq!(flow.ready(), vec!["c"]);
    flow.complete("c".to_string(), json_str("3"));
    assert!(flow.ready().is_empty());
    let outputs = flow.finish().unwrap();
    assert_eq!(outputs[0], ("a".to_string(), json_str("1")));
    let reply = flow_reply(outputs, "r");
    assert_eq!(reply.body.get_string("run_id").as_deref(), Some("r"));
}

#[test]
fn circles_and_empty_flows_are_refused() {
    assert_eq!(
        FlowRun::start(vec![], &vec![]).unwrap_err(),
        error_reply(400, "flow nodes required")
    );
    let nodes = vec![node("a", "llm", &["b"]), node("b", "llm", &["a"]), node("c", "llm", &[])];
    let mut flow = FlowRun::start(nodes, &vec![]).unwrap();
    assert_eq!(flow.ready(), vec!["c"]);
    flow.complete("c".to_string(), Json::Null);
    assert!(flow.ready().is_empty());
    assert_eq!(
        flow.finish().unwrap_err(),
        error_reply(400, "flow has unresolved dependencies")
    );
}

#[test]
fn an_edge_to_no_node_comes_up_without_one() {
    let flow = FlowRun::start(vec![node("a", "llm", &["z"])], &vec![edge("a", "y")]).unwrap();
    assert!(flow.ready().is_empty());
    let mut other = FlowRun::start(vec![node("a", "llm", &[])], &vec![edge("a", "y")]).unwrap();
    other.complete("a".to_string(), Json::Null);
    assert_eq!(other.ready(), vec!["y"]);
    assert!(other.node("y").is_none());
}

#[test]
fn nodes_ask_or_run_tools() {
    let mut outputs: KeyMap<Json> = KeyMap::new();
    outputs.insert("x".to_string(), json_str("seen"));
    let mut ask = node("n", "LLM", &["x", "missing"]);
    ask.prompt = Some("Go".to_string());
    match run_flow_node(&ask, &outputs, &None, false).unwrap() {
        NodeStep::Ask(messages) => {
            assert_eq!(messages[0].content, "You are a flow node.");
            assert_eq!(messages[1].content, "Go\n\n[x]\n\"seen\"");
        }
        other => panic!("unexpected {other:?}"),
    }
    match run_flow_node(&node("n", "aggregate", &[]), &outputs, &None, false).unwrap() {
        NodeStep::Ask(messages) => {
            assert_eq!(messages[0].content, "You are an aggregator.");
            assert_eq!(messages[1].content, "Aggregate the following outputs.");
        }
        other => panic!("unexpected {other:?}"),
    }
    let mut tool = node("t", "tool", &[]);
    assert_eq!(
        run_flow_node(&tool, &outputs, &None, false).unwrap_err(),
        error_reply(400, "tool node requires tool")
    );
    tool.tool = Some("shell".to_string());
    tool.args = Some(object1("cmd", json_str("echo {{x}}")));
    assert_eq!(
        run_flow_node(&tool, &outputs, &None, false).unwrap(),
        NodeStep::RunTool("shell".to_string(), object1("cmd", json_str("echo seen")))
    );
    assert_eq!(
        run_flow_node(&tool, &outputs, &Some(texts(&["fs.read"])), false).unwrap_err(),
        tool_error_reply(403, "tool not allowed", "shell")
    );
    assert_eq!(
        run_flow_node(&tool, &outputs, &None, true).unwrap_err(),
        error_reply(403, "run canceled")
    );
    assert_eq!(
        run_flow_node(&node("n", "Odd", &[]), &outputs, &None, false).unwrap_err(),
        error_reply(400, "unknown node kind Odd")
    );
}

#[test]
fn tools_of_flows_need_leave() {
    let tools = tools_with("ask", &[("fs", "deny")]);
    assert_eq!(
        start_node_tool(&tools, "shell", None, &None).unwrap_err(),
        tool_error_reply(403, "approval_required", "shell")
    );
    assert_eq!(start_node_tool(&tools, "shell", Some(true), &None), Ok(()));
    assert_eq!(start_node_tool(&tools, "shell", None, &Some(texts(&["shell"]))), Ok(()));
    assert_eq!(
        start_node_tool(&tools, "fs.read", Some(true), &None).unwrap_err(),
        tool_error_reply(403, "tool denied", "fs.read")
    );
    assert_eq!(node_answer(Ok("t".to_string())), Ok(json_str("t")));
    assert_eq!(node_answer(Err("e".to_string())), Err(error_reply(502, "e")));
    assert_eq!(concurrency(None), 4);
    assert_eq!(concurrency(Some(0)), 1);
    assert_eq!(concurrency(Some(9)), 9);
    assert_eq!(note_node_start(&node("n", "llm", &[])).kind, "flow.node.start");
    assert_eq!(note_node_end(&node("n", "llm", &[])).payload.get_bool("ok"), Some(true));
    assert_eq!(flow_end(true, true).0, "completed");
    assert_eq!(flow_end(false, true).1.kind, "run.canceled");
    assert_eq!(flow_end(false, false).1.payload, object1("error", json_str("flow failed")));
}

// Tasks that are handed out

fn task() -> SubagentTask {
    SubagentTask {
        prompt: "p".to_string(),
        model: Some("m".to_string()),
        provider: None,
        tools: Some(texts(&["fs.read"])),
        repo_path: None,
        worktree_mode: None,
    }
}

#[test]
fn tasks_are_handed_out_by_main_agents_only() {
    let store = load_store(vec![
        StoreEvent::AgentUpsert(agent("lead", "s", None)),
        StoreEvent::AgentUpsert(agent("child", "s", Some("lead"))),
    ]);
    assert_eq!(
        subagents(&store, "x", None, None, 1).unwrap_err(),
        error_reply(404, "agent not found")
    );
    assert_eq!(
        subagents(&store, "child", None, None, 0).unwrap_err(),
        error_reply(403, "subagents cannot spawn subagents")
    );
    assert_eq!(
        subagents(&store, "lead", None, None, 0).unwrap_err(),
        error_reply(400, "tasks are required")
    );
    let plan = subagents(&store, "lead", None, Some(0), 2).unwrap();
    assert!(!plan.sequential);
    assert_eq!(plan.max_concurrency, 1);
    assert_eq!(plan.session_id, "s");
    assert_eq!(plan.lead_model.as_deref(), Some("m"));
    assert!(subagents(&store, "lead", Some("sequential"), None, 2).unwrap().sequential);
}

#[test]
fn tasks_are_run_and_put_together() {
    let made = task_agent("lead", &task());
    assert_eq!(made.parent_agent_id.as_deref(), Some("lead"));
    assert_eq!(made.worktree_mode.as_deref(), Some("inherit"));
    let run = task_run(&task(), &Some(texts(&["shell"])));
    assert_eq!(run.max_steps, Some(6));
    assert_eq!(run.approved, Some(false));
    assert_eq!(run.approval_reason.as_deref(), Some("subagent preapproved"));
    assert_eq!(run.approved_tools, Some(texts(&["shell"])));
    let resp = RunAgentResponse {
        status: "completed",
        output: Some("found".to_string()),
        steps: 1,
        pending_tool_call: None,
        run_id: None,
    };
    let own = RunAgentResponse {
        status: "completed",
        output: None,
        steps: 1,
        pending_tool_call: None,
        run_id: Some("other".to_string()),
    };
    assert_eq!(run_subagent_task("a", "r", Ok(own)).run_id.as_deref(), Some("other"));
    let good = run_subagent_task("a", "r", Ok(resp));
    assert_eq!(good.output.as_deref(), Some("found"));
    assert_eq!(good.run_id.as_deref(), Some("r"));
    let bad = run_subagent_task("b", "q", Err(error_reply(500, "x")));
    assert_eq!(bad.error.as_deref(), Some("subagent run failed"));
    assert_eq!(bad.status, "error");
    assert_eq!(task_without_agent().error.as_deref(), Some("failed to create agent"));
    assert_eq!(task_lost("gone").error.as_deref(), Some("join error: gone"));
    let results: Vec<SubagentResult> = vec![good, bad];
    let messages = aggregate_subagent_results(Some("Sum up"), &results);
    assert_eq!(messages[0].content, "You are a synthesis agent.");
    assert_eq!(
        messages[1].content,
        "Sum up\n\nAgent a status=completed:\nfound\n\nAgent b status=error:\n<no output>\n\n"
    );
    assert!(aggregate_subagent_results(None, &vec![])[1]
        .content
        .starts_with("Aggregate the following subagent outputs"));
}

// Providers

fn provider(base_url: &str, path: &str) -> OpenAICompatConfig {
    OpenAICompatConfig {
        base_url: base_url.to_string(),
        api_key: String::new(),
        api_key_env: None,
        model: "glm".to_string(),
        completions_path: path.to_string(),
    }
}

fn config() -> Config {
    let mut cfg = Config::default();
    let mut main = provider("https://api.example/v4/", "chat/completions");
    main.api_key = "k".to_string();
    cfg.providers.openai_compat = Some(main);
    cfg.providers.openai_compat_profiles = vec![
        ("together".to_string(), provider("https://t.example", "/completions")),
        ("local-3000".to_string(), provider("http://localhost:3000", "/v1/chat/completions")),
    ];
    cfg.providers.model_aliases = vec![(
        "kimi".to_string(),
        ModelAlias { provider: "together".to_string(), model: "Kimi-K2.5".to_string() },
    )];
    cfg
}

fn ask(prompt: &str) -> CompletionRequest {
    CompletionRequest {
        prompt: Some(prompt.to_string()),
        messages: None,
        model: None,
        provider: None,
        max_tokens: None,
        temperature: None,
        top_p: None,
        stop: None,
    }
}

#[test]
fn requests_go_to_their_provider() {
    let cfg = config();
    let call = completions(&cfg, &ask("hi"), &vec![]).unwrap();
    assert_eq!(call.url, "https://api.example/v4/chat/completions");
    assert_eq!(call.authorization.as_deref(), Some("Bearer k"));
    assert_eq!(
        call.body,
        "{\"messages\":[{\"content\":\"hi\",\"role\":\"user\"}],\"model\":\"glm\"}"
    );
    let mut full = ask("hi");
    full.model = Some("kimi".to_string());
    full.max_tokens = Some(5);
    full.temperature = Some(Json::Number(JsonNumber::Other("0.25".to_string())));
    full.stop = Some(texts(&["."]));
    let env = vec![("TOGETHER_API_KEY".to_string(), "tk".to_string())];
    let call = completions(&cfg, &full, &env).unwrap();
    assert_eq!(call.url, "https://t.example/completions");
    assert_eq!(call.authorization.as_deref(), Some("Bearer tk"));
    assert_eq!(
        call.body,
        "{\"max_tokens\":5,\"model\":\"Kimi-K2.5\",\"prompt\":\"hi\",\"stop\":[\".\"],\"temperature\":0.25}"
    );
}

#[test]
fn local_providers_are_called_without_a_key() {
    let cfg = config();
    let mut req = ask("hi");
    req.provider = Some("local-3000".to_string());
    let call = completions(&cfg, &req, &vec![]).unwrap();
    assert_eq!(call.authorization, None);
    assert_eq!(call.url, "http://localhost:3000/v1/chat/completions");
    let env = vec![("LOCAL-3000_API_KEY".to_string(), "lk".to_string())];
    assert_eq!(completions(&cfg, &req, &env).unwrap().authorization.as_deref(), Some("Bearer lk"));
    assert!(is_local("http://127.0.0.1/v1"));
    assert!(is_local("http://[::1]:8080"));
    assert!(is_local("localhost"));
    assert!(!is_local("https://localhost.example"));
    assert!(!is_local("https://api.example"));
}

#[test]
fn requests_that_cannot_be_sent_are_refused() {
    let cfg = config();
    let refused = |req: CompletionRequest| completions(&cfg, &req, &vec![]).unwrap_err();
    let mut req = ask("hi");
    req.provider = Some("nobody".to_string());
    assert_eq!(refused(req), error_reply(400, "provider 'nobody' not found"));
    let mut req = ask("hi");
    req.provider = Some("together".to_string());
    assert_eq!(refused(req), error_reply(400, "api key not configured"));
    assert_eq!(refused(ask(" ")), error_reply(400, "prompt or messages required"));
    let empty = Config::default();
    assert_eq!(
        completions(&empty, &ask("hi"), &vec![]).unwrap_err(),
        error_reply(400, "openai_compat provider not configured")
    );
    assert_eq!(
        resolve_provider(&empty, Some("default")).unwrap_err(),
        error_reply(400, "default provider not configured")
    );
    let mut bare = config();
    bare.providers.openai_compat = Some(provider("", "/c"));
    assert_eq!(
        completions(&bare, &ask("hi"), &vec![]).unwrap_err(),
        error_reply(400, "provider base_url is required")
    );
    let mut nameless = provider("http://localhost", "/c");
    nameless.model = " ".to_string();
    bare.providers.openai_compat = Some(nameless);
    assert_eq!(
        completions(&bare, &ask("hi"), &vec![]).unwrap_err(),
        error_reply(400, "model is required")
    );
    bare.providers.openai_compat = Some(provider("http://localhost", "/c"));
    assert_eq!(
        completions(&bare, &ask(""), &vec![]).unwrap_err(),
        error_reply(400, "prompt is required")
    );
}

#[test]
fn keys_come_from_three_places() {
    let mut p = provider("https://x", "/c");
    p.api_key_env = Some("MY_KEY".to_string());
    let env = vec![
        ("MY_KEY".to_string(), "one".to_string()),
        ("TÄST_API_KEY".to_string(), "two".to_string()),
    ];
    assert_eq!(resolve_api_key(&p, Some("täst"), &env).unwrap().as_deref(), Some("one"));
    p.api_key_env = Some("OTHER".to_string());
    assert_eq!(resolve_api_key(&p, Some("täst"), &env).unwrap().as_deref(), Some("two"));
    p.api_key = "own".to_string();
    assert_eq!(resolve_api_key(&p, Some("täst"), &env).unwrap().as_deref(), Some("own"));
    p.api_key = " ".to_string();
    assert_eq!(
        resolve_api_key(&p, None, &env).unwrap_err(),
        error_reply(400, "api key not configured")
    );
    assert_eq!(completion_url(&provider("https://x//", "c")), "https://x/c");
    assert_eq!(completion_url(&provider("https://x", "https://y/c")), "https://y/c");
}

#[test]
fn conversations_are_sent_and_answers_read() {
    let cfg = config();
    let messages = vec![ChatMessage::new("user", "q")];
    let call = call_llm_with_messages(&cfg, None, Some("m2"), &messages, &vec![]).unwrap();
    assert!(call.body.contains("\"model\":\"m2\""));
    assert_eq!(
        call_llm_with_messages(&cfg, Some("x"), None, &messages, &vec![]).unwrap_err(),
        "provider not configured"
    );
    assert_eq!(
        call_llm_with_messages(&cfg, Some("together"), None, &messages, &vec![]).unwrap_err(),
        "api key not configured"
    );
    assert_eq!(
        call_llm_with_messages(&cfg, None, Some(" "), &messages, &vec![]).unwrap_err(),
        "model is required"
    );
    let env = vec![("TOGETHER_API_KEY".to_string(), "k".to_string())];
    assert_eq!(
        call_llm_with_messages(&cfg, Some("together"), None, &messages, &env).unwrap_err(),
        "{\"error\":\"prompt is required\"}"
    );
    let text = "{\"choices\":[{\"message\":{\"content\":\"hello\"}}]}".to_string();
    assert_eq!(llm_text(completion_response(HttpOutcome::Answered(text))).unwrap(), "hello");
    assert_eq!(
        llm_text(completion_response(HttpOutcome::Answered("?".to_string()))).unwrap_err(),
        "no completion text returned"
    );
    assert_eq!(
        llm_text(completion_response(HttpOutcome::Refused(429, "slow".to_string()))).unwrap_err(),
        "{\"raw\":\"slow\"}"
    );
    assert_eq!(
        completion_outcome(HttpOutcome::Failed("dns".to_string()), None).unwrap_err(),
        error_reply(502, "dns")
    );
    let odd = completions_reply(Err(Reply { status: 42, body: Json::Null }));
    assert_eq!(odd.status, 502);
    assert_eq!(completions_reply(Err(error_reply(404, "x"))).status, 404);
    assert_eq!(completions_reply(Ok(Json::Null)).status, 200);
    assert_eq!(extract_completion_text(&Json::Null), None);
}

// Configuration

fn no_env() -> EnvOverrides {
    EnvOverrides {
        base_url: None,
        api_key: None,
        zai_api_key: None,
        model: None,
        completions_path: None,
    }
}

#[test]
fn zai_api_key_populates_provider() {
    let mut cfg = Config::default();
    let mut env = no_env();
    env.zai_api_key = Some("test-zai-key".to_string());
    apply_env_overrides(&mut cfg, env);
    let provider = cfg.providers.openai_compat.expect("provider missing");
    assert_eq!(provider.api_key, "test-zai-key");
}

#[test]
fn aish_api_key_overrides_zai_api_key() {
    let mut cfg = Config::default();
    let mut env = no_env();
    env.zai_api_key = Some("zai-key".to_string());
    env.api_key = Some("aish-key".to_string());
    apply_env_overrides(&mut cfg, env);
    let provider = cfg.providers.openai_compat.expect("provider missing");
    assert_eq!(provider.api_key, "aish-key");
}

#[test]
fn an_empty_key_falls_back() {
    let mut cfg = Config::default();
    let mut env = no_env();
    env.zai_api_key = Some("zai-key".to_string());
    env.api_key = Some(String::new());
    env.model = Some("m".to_string());
    apply_env_overrides(&mut cfg, env);
    let provider = cfg.providers.openai_compat.expect("provider missing");
    assert_eq!(provider.api_key, "zai-key");
    assert_eq!(provider.model, "m");
    let mut plain = Config::default();
    apply_env_overrides(&mut plain, no_env());
    assert!(plain.providers.openai_compat.is_none());
}

#[test]
fn addresses_and_paths() {
    let mut cfg = Config::default();
    assert_eq!(listen_address(&cfg.server), "127.0.0.1:4096");
    assert_eq!(apply_bind_override(&mut cfg, "0.0.0.0:5033"), Ok(()));
    assert_eq!(listen_address(&cfg.server), "0.0.0.0:5033");
    assert_eq!(apply_bind_override(&mut cfg, "99"), Ok(()));
    assert_eq!(cfg.server.port, 99);
    assert_eq!(apply_bind_override(&mut cfg, ":99"), Err(BindError::NoHost));
    assert_eq!(apply_bind_override(&mut cfg, "h:70000"), Err(BindError::BadPort));
    assert_eq!(bind_error_text(":99"), "invalid bind override: :99");
    assert_eq!(ServerConfig::default().hostname, "127.0.0.1");
    assert_eq!(resolve_path("~/a", Some("/h")), "/h/a");
    assert_eq!(resolve_path("~", Some("/h")), "/h");
    assert_eq!(resolve_path("~/a", None), "~/a");
    assert_eq!(join_path("/a/", "b"), "/a/b");
    assert_eq!(default_config_path(Some("/h")).as_deref(), Some("/h/.config/aish/aish.json"));
    assert_eq!(load("~/c.json", Some("/h"), true, true).as_deref(), Some("/h/c.json"));
    assert_eq!(
        load("/c.json", Some("/h"), false, true).as_deref(),
        Some("/h/.config/aish/aish.json")
    );
    assert_eq!(load("/c.json", Some("/h"), false, false), None);
}

// The trial of the terminal multiplexer

#[test]
fn trials_are_reported_step_by_step() {
    let name = trial_session(7);
    assert_eq!(name, "aish-diag-7");
    let mut report = DiagnosticReport::on_version(Ok("tmux 3.4\n".to_string()));
    report.on_create(&name, Ok(()));
    report.on_list(&name, Ok("x: 1\naish-diag-7: 1 windows\n".to_string()));
    report.on_cleanup(Err("gone".to_string()));
    assert!(report.ok);
    assert_eq!(report.steps.len(), 4);
    assert_eq!(report.steps[0].detail, "tmux 3.4");
    assert_eq!(report.steps[3].detail, "gone");
    let mut failed = DiagnosticReport::on_version(Err("no tmux".to_string()));
    failed.on_create(&name, Ok(()));
    failed.on_list(&name, Ok(String::new()));
    failed.on_cleanup(Ok(()));
    assert!(!failed.ok);
    assert_eq!(failed.steps.len(), 2);
    let mut unlisted = DiagnosticReport::on_version(Ok(String::new()));
    unlisted.on_create(&name, Ok(()));
    unlisted.on_list(&name, Ok("other".to_string()));
    assert!(!unlisted.ok);
    assert_eq!(unlisted.to_json().get_bool("ok"), Some(false));
}

// Texts

#[test]
fn texts_are_taken_apart() {
    assert_eq!(trim("\u{2003} a\u{a0}b \u{3000}"), "a\u{a0}b");
    assert!(is_blank("\u{85}\t"));
    assert_eq!(lines("a\r\nb\n\nc"), vec!["a", "b", "", "c"]);
    assert_eq!(rsplit_once("a:b:c", ':'), Some(("a:b".to_string(), "c".to_string())));
    assert_eq!(rsplit_once("abc", ':'), None);
    assert_eq!(replace("aXbX", "X", "--"), "a--b--");
    assert_eq!(nat_to_string(u128::MAX), u128::MAX.to_string());
    assert_eq!(int_to_string(i64::MIN), i64::MIN.to_string());
    assert_eq!(parse_nat("0042", 99), Some(42));
    assert_eq!(parse_nat("100", 99), None);
    assert_eq!(parse_nat("", 99), None);
    assert_eq!(parse_i64("-7"), Some(-7));
    assert_eq!(parse_i64("9223372036854775808"), None);
}
