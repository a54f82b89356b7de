use aish::args::normalize_cli_args;
use aish::eventlog::{
    llm_request_data, llm_response_data, log_dir, resolve_session_and_dir, write_log_event,
    write_log_event_value, LogEventArgs, LogTarget,
};
use aish::hooks::{command_candidates, default_hook_script, writes_hooks};
use aish::inline::{
    call_completion_json, call_daemon_tool, choose_prompt, current_session, daemon_tool_result,
    env_flag_enabled, execute_inline_tool, inline_agent_system_prompt, inline_max_steps,
    needs_line_break, parse_inline_tool_calls, settle_completion, settle_daemon_tool,
    single_completion_output, with_stream, CompletionOverrides, InlineAction, InlineRun,
    InlineTool,
};
use aish::json::{json_int, json_str, json_uint, object1, object2, Json, JsonNumber};
use aish::provider::HttpOutcome;
use aish::shell::{
    capture_arguments, cd_candidate, cd_result, generate_session_id, inline_list_result,
    inline_shell_result, inline_write_result, launch_arguments, main_session, parse_simple_cd,
    read_limit, resolve_tool_path, run_inline_shell, shell_cwd_error, shell_quote,
};
use aish::sse::{finish_stream, handle_sse_event, ProgressLine, SseEvent, SseReader};
use aish::status::{find_last_line, read_last_event, show_status, StatusRow};
use aish::toolcalls::ToolCall;
use aish::workspace::{
    captured_text, collect_workspace_context, indented_block, list_dir_entries,
    maybe_attach_workspace_context, read_readme_excerpt, readme_names,
    should_attach_workspace_context, sort_names, truncate_chars, RepoFacts,
};

fn texts(v: &[&str]) -> Vec<String> {
    v.iter().map(|s| s.to_string()).collect()
}

#[test]
fn normalize_cli_args_inserts_llm_for_prompt() {
    let args = vec!["ai".to_string(), "Count to 5".to_string()];
    let out = normalize_cli_args(args);
    assert_eq!(out, vec!["ai", "llm", "Count to 5"]);
}

#[test]
fn normalize_cli_args_keeps_known_subcommand() {
    let args = vec!["ai".to_string(), "launch".to_string()];
    let out = normalize_cli_args(args);
    assert_eq!(out, vec!["ai", "launch"]);
}

#[test]
fn normalize_cli_args_handles_config_prefix() {
    let args = vec![
        "ai".to_string(),
        "--config".to_string(),
        "/tmp/aish.json".to_string(),
        "--provider".to_string(),
        "local-3000".to_string(),
        "Count".to_string(),
    ];
    let out = normalize_cli_args(args);
    assert_eq!(
        out,
        vec!["ai", "--config", "/tmp/aish.json", "llm", "--provider", "local-3000", "Count"]
    );
}

#[test]
fn normalized_command_lines_stay_as_they_are() {
    for line in [
        &["ai"][..],
        &["ai", "--config"],
        &["ai", "--config=x"],
        &["ai", "--config=x", "why?"],
        &["ai", "--version"],
        &["ai", "ensure-daemon", "--quiet"],
        &["ai", "launch pad"],
    ] {
        let once = normalize_cli_args(texts(line));
        let twice = normalize_cli_args(once.clone());
        assert_eq!(once, twice);
    }
    assert_eq!(normalize_cli_args(texts(&["ai", "--config=x", "why?"]))[2], "llm");
    assert_eq!(normalize_cli_args(texts(&["ai", "--config"])).len(), 2);
}

#[test]
fn handle_sse_event_delta_appends_text() {
    let mut full = String::new();
    let mut progress = ProgressLine::new(false);
    let done =
        handle_sse_event(Some("delta"), r#"{"delta":"abc"}"#, &mut full, &mut progress).unwrap();
    assert!(!done);
    assert_eq!(full, "abc");
}

#[test]
fn handle_sse_event_done_stops_stream() {
    let mut full = String::new();
    let mut progress = ProgressLine::new(false);
    let done =
        handle_sse_event(Some("done"), r#"{"text":"final"}"#, &mut full, &mut progress).unwrap();
    assert!(done);
    assert_eq!(full, "final");
}

#[test]
fn handle_sse_event_status_updates_progress_label() {
    let mut full = String::new();
    let mut progress = ProgressLine::new(false);
    let done = handle_sse_event(
        Some("status"),
        r#"{"status":"Selecting relevant context..."}"#,
        &mut full,
        &mut progress,
    )
    .unwrap();
    assert!(!done);
    assert_eq!(progress.current_status, "Selecting relevant context...");
}

#[test]
fn events_without_a_type_or_with_odd_data() {
    let mut full = "ab".to_string();
    let mut progress = ProgressLine::new(true);
    assert!(!handle_sse_event(None, r#"{"delta":"c"}"#, &mut full, &mut progress).unwrap());
    assert_eq!(full, "abc");
    assert!(progress.enabled);
    assert!(!handle_sse_event(Some("delta"), "no json", &mut full, &mut progress).unwrap());
    assert!(!handle_sse_event(Some("ping"), "{}", &mut full, &mut progress).unwrap());
    assert!(handle_sse_event(Some("done"), r#"{"text":"other"}"#, &mut full, &mut progress).unwrap());
    assert_eq!(full, "abc");
    assert!(!progress.enabled);
    let told = handle_sse_event(Some("error"), r#"{"error":"no key"}"#, &mut full, &mut progress);
    assert_eq!(told.unwrap_err(), "no key");
    let untold = handle_sse_event(Some("error"), "??", &mut full, &mut progress);
    assert_eq!(untold.unwrap_err(), "streaming request failed");
}

#[test]
fn the_first_token_ends_the_progress_line() {
    let mut full = String::new();
    let mut progress = ProgressLine::new(true);
    handle_sse_event(Some("delta"), r#"{"delta":""}"#, &mut full, &mut progress).unwrap();
    assert!(progress.enabled);
    handle_sse_event(Some("delta"), r#"{"delta":"x"}"#, &mut full, &mut progress).unwrap();
    assert!(!progress.enabled);
}

#[test]
fn progress_is_shown_in_turns() {
    let mut line = ProgressLine::new(true);
    assert_eq!(line.current_status, "Packing context...");
    assert_eq!(line.render(true, 0).as_deref(), Some("[ai] | Packing context... (0s)"));
    assert_eq!(line.render(false, 119), None);
    assert_eq!(line.render(false, 120).as_deref(), Some("[ai] / Packing context... (0s)"));
    assert!(line.set_status("Working"));
    assert!(!line.set_status("Working"));
    assert_eq!(line.render(true, 2_500).as_deref(), Some("[ai] - Working (2s)"));
    assert_eq!(line.render(true, 3_000).as_deref(), Some("[ai] \\ Working (3s)"));
    assert!(line.stop());
    assert!(!line.stop());
    assert_eq!(line.render(true, 9_000), None);
}

#[test]
fn events_are_cut_out_of_lines() {
    let mut reader = SseReader::new();
    assert_eq!(reader.feed("event: delta\r\n"), None);
    assert_eq!(reader.feed("data: {\"delta\":\n"), None);
    assert_eq!(reader.feed("data:\"a\"}\n"), None);
    assert_eq!(reader.feed(": comment\n"), None);
    assert_eq!(
        reader.feed("\n"),
        Some(SseEvent {
            event_type: Some("delta".to_string()),
            data: "{\"delta\":\n\"a\"}".to_string()
        })
    );
    assert_eq!(reader.feed("event: ping\n"), None);
    assert_eq!(reader.feed("\n"), None);
    assert_eq!(reader.feed("data: rest"), None);
    assert_eq!(
        reader.finish(),
        Some(SseEvent { event_type: None, data: "rest".to_string() })
    );
    assert_eq!(SseReader::new().finish(), None);
}

#[test]
fn streams_come_to_an_end() {
    assert_eq!(finish_stream("x".to_string(), false, Some("broken".to_string())).unwrap(), "x");
    assert_eq!(finish_stream(String::new(), true, None).unwrap(), "");
    assert_eq!(
        finish_stream(String::new(), false, Some("broken".to_string())).unwrap_err(),
        "broken"
    );
    assert_eq!(
        finish_stream(String::new(), false, None).unwrap_err(),
        "no completion text returned"
    );
}

#[test]
fn should_attach_workspace_context_detects_repo_phrasing() {
    assert!(should_attach_workspace_context("Summarize this repository in 5 bullets."));
    assert!(should_attach_workspace_context("Summarize this folder / repository in 5 bullets."));
}

#[test]
fn workspace_phrases_are_found_in_any_case() {
    assert!(should_attach_workspace_context("Erklär mir THIS PROJECT"));
    assert!(should_attach_workspace_context("Explain The Current Folder"));
}

#[test]
fn should_attach_workspace_context_ignores_general_prompts() {
    assert!(!should_attach_workspace_context("Count to 5 slowly."));
}

#[test]
fn workspace_context_goes_before_the_request() {
    let with = maybe_attach_workspace_context("Explain THIS REPO", Some("- cwd: /w"));
    assert!(with.starts_with("You are answering a question about the user's local workspace.\n"));
    assert!(with.ends_with("Workspace context:\n- cwd: /w\n\nUser request:\nExplain THIS REPO"));
    assert_eq!(maybe_attach_workspace_context("Explain this repo", None), "Explain this repo");
    assert_eq!(maybe_attach_workspace_context("Count", Some("x")), "Count");
}

#[test]
fn workspaces_are_described() {
    let repo = Some(RepoFacts {
        root: "/w".to_string(),
        branch: Some("main".to_string()),
        status: Some(" M a".to_string()),
        files: Some("a\nb".to_string()),
    });
    let text = collect_workspace_context(
        "/w/sub",
        &repo,
        &Some(texts(&["a", "b/"])),
        &Some("# Title\ntext".to_string()),
    );
    assert_eq!(
        text,
        "- cwd: /w/sub\n- repo_root: /w\n- git_branch: main\n- git_status_short:\n   M a\n\
         - tracked_files_sample:\n  a\n  b\n- top_level_entries:\n  a\n  b/\n\
         - readme_excerpt:\n  # Title\n  text"
    );
    assert_eq!(collect_workspace_context("/x", &None, &None, &None), "- cwd: /x");
}

#[test]
fn texts_are_cut_and_indented() {
    assert_eq!(truncate_chars("héllo", 3), "hél...");
    assert_eq!(truncate_chars("abc", 3), "abc");
    assert_eq!(truncate_chars("abc", 0), "");
    assert_eq!(indented_block("a\r\n\nb\n"), "  a\n  \n  b");
    assert_eq!(captured_text(true, " main\n").as_deref(), Some("main"));
    assert_eq!(captured_text(true, " \n"), None);
    assert_eq!(captured_text(false, "main"), None);
}

#[test]
fn names_are_listed_in_order() {
    let names = texts(&["b", "a/", "a", "Z", "b"]);
    assert_eq!(sort_names(&names), vec!["Z", "a", "a/", "b", "b"]);
    assert_eq!(list_dir_entries(&names, 2), Some(texts(&["Z", "a"])));
    assert_eq!(list_dir_entries(&names, 0), None);
    assert_eq!(list_dir_entries(&vec![], 9), None);
}

#[test]
fn the_first_readme_with_text_is_quoted() {
    assert_eq!(readme_names(), vec!["README.md", "Readme.md", "readme.md"]);
    let found = vec![Some("  \n".to_string()), None, Some(" hello ".to_string())];
    assert_eq!(read_readme_excerpt(&found, 3).as_deref(), Some("hel..."));
    assert_eq!(read_readme_excerpt(&vec![None], 3), None);
}

#[test]
fn inline_agent_system_prompt_includes_command_hints() {
    let prompt =
        inline_agent_system_prompt("/tmp/work", &vec!["rg".to_string(), "git".to_string()]);
    assert!(prompt.contains("fs.write"));
    assert!(prompt.contains("rg, git"));
    assert!(prompt.contains("/tmp/work"));
    assert!(inline_agent_system_prompt("/", &vec![]).contains("\n  <none detected>\n"));
}

#[test]
fn parse_inline_tool_calls_handles_single_and_array() {
    let single = parse_inline_tool_calls(r#"{"tool":"shell","args":{"cmd":"ls"}}"#);
    assert_eq!(single.len(), 1);
    assert_eq!(single[0].tool, "shell");

    let array = parse_inline_tool_calls(
        r#"{"tool_calls":[{"tool":"fs.read","args":{"path":"README.md"}}]}"#,
    );
    assert_eq!(array.len(), 1);
    assert_eq!(array[0].tool, "fs.read");
}

#[test]
fn parse_simple_cd_supports_home_and_relative() {
    let home = Some("/home/me");
    assert_eq!(parse_simple_cd("cd", "/tmp/t", home, false).as_deref(), Some("/home/me"));
    assert_eq!(parse_simple_cd("cd repo", "/tmp/t", home, true).as_deref(), Some("/tmp/t/repo"));
    assert_eq!(parse_simple_cd("cd repo", "/tmp/t", home, false), None);
    assert!(parse_simple_cd("cd a && ls", "/tmp/t", home, true).is_none());
}

#[test]
fn changes_of_directory_are_understood() {
    let home = Some("/home/me");
    assert_eq!(cd_candidate(" cd ~ ", "/w", home).as_deref(), Some("/home/me"));
    assert_eq!(cd_candidate("cd ~/src", "/w", home).as_deref(), Some("/home/me/src"));
    assert_eq!(cd_candidate("cd ~/src", "/w", None), None);
    assert_eq!(cd_candidate("cd '/a b'", "/w", home).as_deref(), Some("/a b"));
    assert_eq!(cd_candidate("cd \"x\"", "/w/", home).as_deref(), Some("/w/x"));
    for cmd in ["cd a; ls", "cd a | b", "cd a || b", "cd a\nb", "cd a\tb", "cd ''", "cdx", "ls"] {
        assert_eq!(cd_candidate(cmd, "/w", home), None);
    }
    assert_eq!(resolve_tool_path("/w", "/etc/hosts"), "/etc/hosts");
    assert_eq!(resolve_tool_path("/w", "a/b"), "/w/a/b");
}

#[test]
fn quoted_words_are_read_back_by_a_shell() {
    assert_eq!(shell_quote("plain"), "'plain'");
    assert_eq!(shell_quote("it's"), "'it'\"'\"'s'");
    assert_eq!(shell_quote(""), "''");
}

#[test]
fn sessions_are_launched_and_captured() {
    assert_eq!(main_session("aish"), "aish-main");
    assert_eq!(generate_session_id(1700, 42), "1700-42");
    let args = launch_arguments("aish-main", "/w", "7-1", "/l/7-1", "/z", Some("/bin/aish"));
    assert_eq!(
        args,
        vec![
            "new-session",
            "-d",
            "-A",
            "-s",
            "aish-main",
            "-c",
            "/w",
            "-e",
            "AISH_SESSION_ID=7-1",
            "-e",
            "AISH_LOG_DIR=/l/7-1",
            "-e",
            "AISH_ACTOR=human",
            "-e",
            "ZDOTDIR=/z",
            "-e",
            "AISH_BIN=/bin/aish",
            "zsh",
            "-l"
        ]
    );
    assert_eq!(launch_arguments("n", "c", "s", "l", "z", None).len(), 17);
    assert_eq!(
        capture_arguments("aish-main", "/l/o'k.log"),
        vec!["pipe-pane", "-o", "-t", "aish-main:0.0", "cat >> '/l/o'\"'\"'k.log'"]
    );
}

#[test]
fn results_of_inline_tools_are_told() {
    assert_eq!(
        shell_cwd_error("/x", false, false).as_deref(),
        Some("shell cwd does not exist: /x")
    );
    assert_eq!(
        shell_cwd_error("/x", true, false).as_deref(),
        Some("shell cwd is not a directory: /x")
    );
    assert_eq!(shell_cwd_error("/x", true, true), None);
    let done = inline_shell_result(Some(-1), false, "o", "e", "/w");
    assert_eq!(done.get("status"), Some(&json_int(-1)));
    assert_eq!(done.get_string("cwd").as_deref(), Some("/w"));
    let moved = cd_result("/w");
    assert_eq!(moved.get("status"), Some(&json_uint(0)));
    assert_eq!(moved.get_string("note").as_deref(), Some("cwd updated via cd"));
    assert_eq!(read_limit(None), 256_000);
    assert_eq!(read_limit(Some(0)), 1);
    assert_eq!(read_limit(Some(9_000_000)), 2_000_000);
    assert_eq!(read_limit(Some(77)), 77);
    let wrote = inline_write_result("/w/a", 3, true);
    assert_eq!(wrote.get("bytes_written"), Some(&json_uint(3)));
    assert_eq!(wrote.get_bool("appended"), Some(true));
    let listed = inline_list_result("/w", &texts(&["a"]));
    assert_eq!(listed.get("entries"), Some(&Json::Array(vec![json_str("a")])));
    assert_eq!(execute_inline_tool("fs.list"), Ok(InlineTool::FsList));
    assert_eq!(execute_inline_tool("mcp.web_search"), Ok(InlineTool::Daemon));
    assert_eq!(execute_inline_tool("rm").unwrap_err(), "unknown tool `rm`");
}

#[test]
fn settings_are_read() {
    assert_eq!(inline_max_steps(None), 10);
    assert_eq!(inline_max_steps(Some("x")), 10);
    assert_eq!(inline_max_steps(Some("0")), 1);
    assert_eq!(inline_max_steps(Some("99")), 40);
    assert_eq!(inline_max_steps(Some("7")), 7);
    assert_eq!(inline_max_steps(Some("4294967296")), 10);
    assert!(env_flag_enabled(Some(" YES ")));
    assert!(env_flag_enabled(Some("1")));
    assert!(!env_flag_enabled(Some("off")));
    assert!(!env_flag_enabled(None));
    assert_eq!(current_session(Some(" s ")).as_deref(), Some("s"));
    assert_eq!(current_session(Some("  ")), None);
    assert_eq!(choose_prompt(&texts(&["a", "b"]), "unused").unwrap(), "a b");
    assert_eq!(choose_prompt(&vec![], "from stdin\n").unwrap(), "from stdin\n");
    assert_eq!(choose_prompt(&vec![], " \n").unwrap_err(), "prompt is empty");
    assert!(needs_line_break("x"));
    assert!(!needs_line_break("x\n"));
    assert!(!needs_line_break(""));
}

fn overrides() -> CompletionOverrides {
    CompletionOverrides {
        provider: Some("local".to_string()),
        model: None,
        max_tokens: Some(64),
        temperature: Some(Json::Number(JsonNumber::Other("0.5".to_string()))),
        top_p: None,
        stop: texts(&["END"]),
    }
}

#[test]
fn the_inline_loop_asks_runs_and_finishes() {
    let mut run = InlineRun::start("system", "list files");
    assert_eq!(run.proceed(2), InlineAction::AskModel);
    assert_eq!(run.planning_status(2), "Planning next step (1/2)...");
    let first = run.question(&overrides(), Some("s"));
    assert_eq!(first.get_string("session_id").as_deref(), Some("s"));
    assert_eq!(first.get_string("context_mode").as_deref(), Some("diagnostic"));
    assert_eq!(first.get("max_tokens"), Some(&json_uint(64)));
    assert_eq!(first.get("stop"), Some(&Json::Array(vec![json_str("END")])));
    assert_eq!(first.get("top_p"), None);
    let reply = object1("raw", json_str("{\"tool\":\"shell\",\"args\":{\"cmd\":\"ls\"}}"));
    let call = ToolCall { tool: "shell".to_string(), args: object1("cmd", json_str("ls")) };
    assert_eq!(run.on_response(&reply), InlineAction::RunTools(vec![call]));
    run.on_tool("shell", Err("no shell".to_string()));
    assert_eq!(
        run.messages[3].content,
        "Tool result for shell:\n{\"error\":\"no shell\",\"success\":false}"
    );
    assert_eq!(run.proceed(2), InlineAction::AskModel);
    assert_eq!(run.question(&overrides(), Some("s")).get("session_id"), None);
    assert_eq!(
        run.on_response(&object1("raw", json_str("done"))),
        InlineAction::Finished("done".to_string())
    );
    assert_eq!(
        run.proceed(2),
        InlineAction::Failed("max agentic steps reached without final answer")
    );
    assert_eq!(
        run.on_calls(String::new(), vec![]),
        InlineAction::Failed("max agentic steps reached without final answer")
    );
    assert_eq!(
        run.on_response(&object1("a", json_uint(1))),
        InlineAction::Finished("{\"a\":1}".to_string())
    );
}

#[test]
fn answers_of_the_daemon_are_settled() {
    let good = call_completion_json(HttpOutcome::Answered("{\"a\":[1]}".to_string())).unwrap();
    assert_eq!(good.get("a"), Some(&Json::Array(vec![json_uint(1)])));
    let raw = call_completion_json(HttpOutcome::Answered("oops".to_string())).unwrap();
    assert_eq!(raw.get_string("raw").as_deref(), Some("oops"));
    assert_eq!(
        call_completion_json(HttpOutcome::Refused(400, "{\"error\":\"x\"}".to_string()))
            .unwrap_err(),
        "completion request failed with status 400: {\"error\":\"x\"}"
    );
    assert_eq!(
        settle_completion(HttpOutcome::Failed("down".to_string()), None).unwrap_err(),
        "failed to call aishd /v1/completions: down"
    );
    assert_eq!(
        daemon_tool_result(HttpOutcome::Answered("{\"result\":7}".to_string())).unwrap(),
        json_uint(7)
    );
    assert_eq!(
        settle_daemon_tool(HttpOutcome::Answered(String::new()), Some(json_uint(3))).unwrap(),
        json_uint(3)
    );
    assert_eq!(
        daemon_tool_result(HttpOutcome::Refused(403, "no".to_string())).unwrap_err(),
        "daemon tool call failed (403): {\"raw\":\"no\"}"
    );
    assert_eq!(
        daemon_tool_result(HttpOutcome::Failed("x".to_string())).unwrap_err(),
        "daemon tool call error: x"
    );
    let body = call_daemon_tool(&json_uint(1), Some("s"));
    assert_eq!(body.get_bool("approved"), Some(true));
    assert_eq!(body.get_string("approval_reason").as_deref(), Some("inline ai tool loop"));
    assert_eq!(call_daemon_tool(&json_uint(1), None).get("session_id"), None);
    assert_eq!(
        with_stream(object1("prompt", json_str("p"))).get_bool("stream"),
        Some(true)
    );
}

#[test]
fn single_completions_are_shown() {
    let text = "{\"choices\":[{\"text\":\"hi\"}]}".to_string();
    assert_eq!(single_completion_output(text), "hi");
    assert_eq!(
        single_completion_output("{\"b\":1,\"a\":[]}".to_string()),
        "{\n  \"a\": [],\n  \"b\": 1\n}"
    );
    assert_eq!(single_completion_output("nope".to_string()), "{\n  \"raw\": \"nope\"\n}");
}

#[test]
fn hooks_written_by_hand_are_kept() {
    assert!(default_hook_script().starts_with("# aish hooks (auto-generated)\n"));
    assert!(default_hook_script().ends_with("add-zsh-hook precmd _aish_precmd\n"));
    assert!(writes_hooks(None));
    assert!(writes_hooks(Some(default_hook_script())));
    assert!(!writes_hooks(Some("# my own hooks")));
    assert_eq!(command_candidates().len(), 20);
    assert_eq!(command_candidates()[19], "awk");
}

fn target() -> LogTarget {
    LogTarget {
        session: None,
        log_dir: None,
        actor: None,
        env_session: None,
        env_log_dir: None,
        env_actor: None,
    }
}

#[test]
fn events_are_written_down() {
    let data = write_log_event(&LogEventArgs {
        cmd: Some("ls".to_string()),
        cwd: None,
        exit: Some(-2),
        duration_ms: Some(5),
        cols: None,
        rows: Some(40),
    });
    assert_eq!(
        data,
        Json::Object(vec![
            ("cmd".to_string(), json_str("ls")),
            ("exit".to_string(), json_int(-2)),
            ("duration_ms".to_string(), json_uint(5)),
            ("rows".to_string(), json_uint(40)),
        ])
    );
    let event = write_log_event_value(9, "s", "human", "command.end", data, 77);
    assert_eq!(event.get("pid"), Some(&json_uint(77)));
    assert_eq!(event.get_string("kind").as_deref(), Some("command.end"));
    let missing = resolve_session_and_dir(&target(), "~/logs", Some("/h"));
    assert_eq!(
        missing.unwrap_err(),
        "missing session id (set AISH_SESSION_ID or --session)"
    );
    let mut by_env = target();
    by_env.env_session = Some("s".to_string());
    assert_eq!(
        resolve_session_and_dir(&by_env, "~/logs", Some("/h")).unwrap(),
        ("s".to_string(), "/h/logs/s".to_string(), "unknown".to_string())
    );
    by_env.session = Some("t".to_string());
    by_env.env_log_dir = Some("~/elsewhere".to_string());
    by_env.actor = Some("me".to_string());
    assert_eq!(
        resolve_session_and_dir(&by_env, "~/logs", Some("/h")).unwrap(),
        ("t".to_string(), "/h/elsewhere".to_string(), "me".to_string())
    );
    assert_eq!(log_dir("/l", "s", None), "/l/s");
    assert_eq!(llm_request_data("p", None, Some("x")).get("model"), Some(&Json::Null));
    assert_eq!(llm_response_data("t", false), object1("text", json_str("t")));
    assert_eq!(
        llm_response_data("t", true),
        object2("text", json_str("t"), "fallback", json_str("single_completion"))
    );
}

fn row(id: &str, modified_ns: Option<i64>, last_event: Option<Json>) -> StatusRow {
    StatusRow { session_id: id.to_string(), dir: format!("/l/{id}"), modified_ns, last_event }
}

#[test]
fn status_lists_the_newest_first() {
    let event = read_last_event("{\"kind\":\"a\"}\n{\"kind\":\"command.end\"}\n \n");
    let rows = vec![
        row("old", Some(1_500_000_000), None),
        row("unknown", None, None),
        row("new", Some(7_900_000_000), event),
        row("old2", Some(1_500_000_000), Some(json_uint(1))),
    ];
    assert_eq!(
        show_status(&rows),
        vec![
            "new  last=7  kind=command.end  dir=/l/new",
            "old2  last=1  kind=unknown  dir=/l/old2",
            "old  last=1  kind=unknown  dir=/l/old",
            "unknown  last=0  kind=unknown  dir=/l/unknown",
        ]
    );
    assert_eq!(find_last_line("a\n\n"), Some("a".to_string()));
    assert_eq!(read_last_event(""), None);
    assert_eq!(read_last_event("not json\n"), None);
}

#[test]
fn blank_commands_are_refused() {
    assert_eq!(run_inline_shell(" ls -l\n"), Ok("ls -l".to_string()));
    assert_eq!(run_inline_shell(" \t"), Err("shell cmd is empty".to_string()));
}

#[test]
fn events_do_not_turn_the_spinner() {
    let mut full = String::new();
    let mut line = ProgressLine::new(true);
    line.render(true, 500);
    let done = handle_sse_event(Some("status"), r#"{"status":"Busy"}"#, &mut full, &mut line);
    assert_eq!(done, Ok(false));
    assert_eq!(line.spinner_idx, 1);
    assert_eq!(line.last_rendered_ms, Some(500));
}
