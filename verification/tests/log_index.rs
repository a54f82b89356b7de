use aish::bundle::{build_relevant_context_bundle_with_options, ContextBundle, ContextRows};
use aish::corpus::{
    build_llm_selection_corpus, BuildLlmSelectionCorpusOptions, CorpusRows, EditRow, EventRow,
    InputRow, LlmSelectionCorpus, StreamRow,
};
use aish::evidence::{ArtifactRecord, EvidenceScore, FileEditRecord, OutputRecord, Score};
use aish::failures::{
    correlate_command_failures, correlate_tool_failures, event_record, EventRecord,
};
use aish::index::{
    init, is_valid_session_id, to_i64_u128, upsert_agent, upsert_run, upsert_session, IngestStats,
    SqlValue, Statement,
};
use aish::ingest::{
    append_event, count_event, count_line, ingest_all, ingest_event_line, ingest_session,
    ingest_text_file, refresh_context_artifacts, upsert_context_artifact, DirEntry, EventPlan,
    Target,
};
use aish::intent::{detect_query_intent, query_tokens, QueryIntent};
use aish::json::{json_int, json_str, object3, Json};
use aish::profile::BuildContextOptions;
use aish::query::{
    all_edits, all_events, all_inputs, all_output, load_artifacts, load_command_lines, load_events,
    load_file_edits, load_output_lines, CONTEXT_ARTIFACTS, CONTEXT_COMMANDS, CONTEXT_EDITS,
    CONTEXT_EVENTS, CONTEXT_OUTPUT, NOTED_COMMANDS, NOTED_EDITS, NOTED_EVENTS,
};
use rusqlite::{params_from_iter, Connection, Row};

const NOW: i64 = 1_700_000_000_000;

fn bind(value: &SqlValue) -> rusqlite::types::Value {
    match value {
        SqlValue::Null => rusqlite::types::Value::Null,
        SqlValue::Int(n) => rusqlite::types::Value::Integer(*n),
        SqlValue::Text(t) => rusqlite::types::Value::Text(t.clone()),
    }
}

fn run(conn: &Connection, statement: &Statement) -> usize {
    conn.execute(statement.sql, params_from_iter(statement.params.iter().map(bind))).unwrap()
}

fn rows<T>(conn: &Connection, statement: &Statement, read: fn(&Row) -> rusqlite::Result<T>) -> Vec<T> {
    let mut prepared = conn.prepare(statement.sql).unwrap();
    let found = prepared
        .query_map(params_from_iter(statement.params.iter().map(bind)), |row| read(row))
        .unwrap();
    found.map(|row| row.unwrap()).collect()
}

fn count(conn: &Connection, sql: &str, session_id: &str) -> i64 {
    conn.query_row(sql, [session_id], |row| row.get(0)).unwrap()
}

fn fresh() -> Connection {
    let conn = Connection::open_in_memory().unwrap();
    for statement in init() {
        conn.execute_batch(&statement).unwrap();
    }
    conn
}

fn events(conn: &Connection, id: &str, limit: i64) -> Vec<EventRecord> {
    rows(conn, &load_events(id, limit), |row| {
        Ok(event_record(row.get(0)?, row.get(1)?, &row.get::<_, String>(2)?))
    })
}

fn commands(conn: &Connection, id: &str, limit: i64) -> Vec<String> {
    rows(conn, &load_command_lines(id, limit), |row| row.get(0))
}

fn edits(conn: &Connection, id: &str, limit: i64) -> Vec<FileEditRecord> {
    rows(conn, &load_file_edits(id, limit), |row| {
        Ok(FileEditRecord {
            id: row.get(0)?,
            ts_ms: row.get(1)?,
            path: row.get(2)?,
            write_mode: row.get(3)?,
        })
    })
}

fn refresh(conn: &Connection, id: &str) {
    let drafts = refresh_context_artifacts(
        &events(conn, id, NOTED_EVENTS),
        &commands(conn, id, NOTED_COMMANDS),
        &edits(conn, id, NOTED_EDITS),
    );
    for draft in &drafts {
        if let Some(statement) = upsert_context_artifact(id, draft, NOW) {
            run(conn, &statement);
        }
    }
}

fn apply(conn: &Connection, plan: &EventPlan) -> IngestStats {
    let inserted = run(conn, &plan.insert) > 0;
    let mut edited = false;
    if inserted {
        if let Some(touch) = &plan.touch {
            run(conn, touch);
        }
        if let Some(id) = &plan.session_id {
            refresh(conn, id);
        }
        if let Some(edit) = &plan.edit {
            edited = run(conn, edit) > 0;
        }
    }
    count_event(inserted, edited)
}

fn ingest(conn: &Connection, id: &str, files: &[(&str, &str)]) -> IngestStats {
    let mut stats = IngestStats::default();
    for file in ingest_session(id).unwrap() {
        let content = match files.iter().find(|(name, _)| *name == file.name) {
            Some((_, content)) => *content,
            None => continue,
        };
        let source = format!("/logs/{id}/{}", file.name);
        if file.target == Target::Events {
            for (i, line) in content.lines().enumerate() {
                if let Some(plan) = ingest_event_line(line, id, &source, i as i64 + 1, NOW) {
                    stats.add(apply(conn, &plan));
                }
            }
        } else {
            let lines: Vec<String> = content.lines().map(|l| l.to_string()).collect();
            for statement in &ingest_text_file(file.target, id, &lines, &source, NOW) {
                let inserted = run(conn, statement) > 0;
                stats.add(count_line(file.target, inserted));
            }
        }
    }
    refresh(conn, id);
    stats
}

fn recency(place: usize, out_of: usize) -> f32 {
    if out_of <= 1 {
        1.0
    } else {
        ((out_of as f32 - place as f32) / out_of as f32).max(0.0)
    }
}

fn own_value(s: Score) -> f32 {
    (s.base as f32 / 100.0
        + s.overlap as f32 * (s.per_overlap as f32 / 100.0)
        + s.stream as f32 / 100.0
        + s.signal as f32 / 100.0
        + recency(s.place, s.out_of) * (s.recency as f32 / 100.0))
        * (s.weight as f32 / 100.0)
}

fn value(score: EvidenceScore) -> f32 {
    match score {
        EvidenceScore::Own(s) => own_value(s),
        EvidenceScore::Incident { score, weight, place, out_of } => {
            own_value(score) * (weight as f32 / 100.0) + recency(place, out_of)
        }
    }
}

fn key(score: EvidenceScore) -> i64 {
    let bits = value(score).to_bits() as i32;
    (bits ^ (((bits >> 31) as u32) >> 1) as i32) as i64
}

fn label(score: EvidenceScore) -> String {
    format!("{:.1}", (value(score) * 100.0).round() / 100.0)
}

fn bundle(conn: &Connection, id: &str, query: &str, options: BuildContextOptions) -> ContextBundle {
    refresh(conn, id);
    let outputs = rows(conn, &load_output_lines(id, CONTEXT_OUTPUT), |row| {
        Ok(OutputRecord {
            id: row.get(0)?,
            ts_ms: row.get(1)?,
            stream: row.get(2)?,
            line_text: row.get(3)?,
        })
    });
    let artifacts = rows(conn, &load_artifacts(id, CONTEXT_ARTIFACTS), |row| {
        Ok(ArtifactRecord {
            id: row.get(0)?,
            artifact_type: row.get(1)?,
            text: row.get(2)?,
            ts_ms: row.get(3)?,
        })
    });
    let found = ContextRows {
        commands: commands(conn, id, CONTEXT_COMMANDS),
        outputs,
        events: events(conn, id, CONTEXT_EVENTS),
        edits: edits(conn, id, CONTEXT_EDITS),
        artifacts,
    };
    build_relevant_context_bundle_with_options(id, query, options, found, key, label).unwrap()
}

fn corpus(conn: &Connection, id: &str, options: BuildLlmSelectionCorpusOptions) -> LlmSelectionCorpus {
    let found = CorpusRows {
        inputs: rows(conn, &all_inputs(id), |row| {
            Ok(InputRow { id: row.get(0)?, line: row.get(1)? })
        }),
        outputs: rows(conn, &all_output(id), |row| {
            Ok(StreamRow { id: row.get(0)?, stream: row.get(1)?, line: row.get(2)? })
        }),
        edits: rows(conn, &all_edits(id), |row| {
            Ok(EditRow {
                id: row.get(0)?,
                path: row.get(1)?,
                mode: row.get(2)?,
                bytes: row.get(3)?,
            })
        }),
        events: rows(conn, &all_events(id), |row| {
            Ok(EventRow {
                id: row.get(0)?,
                ts_ms: row.get(1)?,
                kind: row.get(2)?,
                data_json: row.get(3)?,
            })
        }),
    };
    build_llm_selection_corpus(id, options, found).unwrap()
}

#[test]
fn ingest_indexes_stdin_and_merged_output() {
    let conn = fresh();
    let session_id = "sess_test_merged";
    let files = [
        (
            "events.jsonl",
            "{\"ts_ms\":1,\"session_id\":\"sess_test_merged\",\"kind\":\"command.start\",\"data\":{\"cmd\":\"echo hi\"}}\n\
             {\"ts_ms\":2,\"session_id\":\"sess_test_merged\",\"kind\":\"command.end\",\"data\":{\"exit\":0}}\n",
        ),
        ("stdin.log", "echo hi\nls -la\n"),
        ("output.log", "hello stdout\nhello stderr\n"),
    ];
    let stats = ingest(&conn, session_id, &files);
    assert_eq!(stats.stdin_lines_inserted, 2);
    assert_eq!(stats.output_lines_inserted, 2);
    assert_eq!(stats.events_inserted, 2);

    let stdin_count =
        count(&conn, "SELECT COUNT(*) FROM command_inputs WHERE session_id = ?1", session_id);
    assert_eq!(stdin_count, 2);
    let merged_count = count(
        &conn,
        "SELECT COUNT(*) FROM pane_output WHERE session_id = ?1 AND stream = 'merged'",
        session_id,
    );
    assert_eq!(merged_count, 2);
    let events_count = count(&conn, "SELECT COUNT(*) FROM events WHERE session_id = ?1", session_id);
    assert_eq!(events_count, 2);
}

#[test]
fn ingest_indexes_stdout_and_stderr_streams() {
    let conn = fresh();
    let session_id = "sess_test_split";
    let files = [("stdout.log", "out line 1\nout line 2\n"), ("stderr.log", "err line 1\n")];
    let stats = ingest(&conn, session_id, &files);
    assert_eq!(stats.output_lines_inserted, 3);
    let stdout_count = count(
        &conn,
        "SELECT COUNT(*) FROM pane_output WHERE session_id = ?1 AND stream = 'stdout'",
        session_id,
    );
    assert_eq!(stdout_count, 2);
    let stderr_count = count(
        &conn,
        "SELECT COUNT(*) FROM pane_output WHERE session_id = ?1 AND stream = 'stderr'",
        session_id,
    );
    assert_eq!(stderr_count, 1);
}

#[test]
fn build_relevant_context_surfaces_failures_and_related_lines() {
    let conn = fresh();
    let session_id = "sess_test_context";
    let files = [
        (
            "events.jsonl",
            "{\"ts_ms\":9,\"session_id\":\"sess_test_context\",\"kind\":\"command.start\",\"data\":{\"cmd\":\"cargo build\"}}\n\
             {\"ts_ms\":10,\"session_id\":\"sess_test_context\",\"kind\":\"command.end\",\"data\":{\"exit\":101}}\n\
             {\"ts_ms\":11,\"session_id\":\"sess_test_context\",\"kind\":\"tool.end\",\"data\":{\"tool\":\"shell\",\"ok\":false,\"error\":\"build failed\"}}\n\
             {\"ts_ms\":12,\"session_id\":\"sess_test_context\",\"kind\":\"tool.start\",\"data\":{\"tool\":\"fs.write\",\"args\":{\"path\":\"src/main.rs\",\"content\":\"fn main(){}\"}}}\n",
        ),
        ("stdin.log", "cargo build\ncargo test\n"),
        ("stderr.log", "error[E0425]: cannot find value `x` in this scope\n"),
    ];
    ingest(&conn, session_id, &files);
    let context = bundle(
        &conn,
        session_id,
        "what did i do wrong with cargo build?",
        BuildContextOptions { max_lines: 120, ..BuildContextOptions::default() },
    )
    .context_text;

    assert!(context.contains("Recent command failures"));
    assert!(context.contains("cargo build -> exit 101"));
    assert!(context.contains("exit 101"));
    assert!(context.contains("Related commands"));
    assert!(context.contains("cargo build"));
    assert!(context.contains("Related output lines"));
    assert!(context.contains("error[E0425]"));
    assert!(context.contains("Recent edited files"));
    assert!(context.contains("src/main.rs"));
}

#[test]
fn build_relevant_context_bundle_includes_sections() {
    let conn = fresh();
    let session_id = "sess_test_bundle";
    let files = [
        (
            "events.jsonl",
            "{\"ts_ms\":4,\"session_id\":\"sess_test_bundle\",\"kind\":\"command.start\",\"data\":{\"cmd\":\"git status\"}}\n\
             {\"ts_ms\":5,\"session_id\":\"sess_test_bundle\",\"kind\":\"command.end\",\"data\":{\"exit\":2}}\n\
             {\"ts_ms\":6,\"session_id\":\"sess_test_bundle\",\"kind\":\"tool.start\",\"data\":{\"tool\":\"fs.write\",\"args\":{\"path\":\"README.md\",\"content\":\"x\"}}}\n",
        ),
        ("stdin.log", "git status\n"),
        ("stderr.log", "fatal: not a git repository\n"),
    ];
    ingest(&conn, session_id, &files);
    let bundle = bundle(
        &conn,
        session_id,
        "git failed",
        BuildContextOptions { max_lines: 120, ..BuildContextOptions::default() },
    );
    assert_eq!(bundle.session_id, session_id);
    assert!(!bundle.query_tokens.is_empty());
    assert!(!bundle.failing_commands.is_empty());
    assert!(!bundle.recent_edits.is_empty());
    assert!(!bundle.related_output.is_empty());
    assert!(!bundle.selected_evidence.is_empty());
    assert!(bundle.failing_commands[0].contains("git status"));
    assert!(bundle.context_text.contains("Recent command failures"));
}

#[test]
fn context_bundle_respects_max_chars_budget() {
    let conn = fresh();
    let session_id = "sess_test_budget";
    let files = [
        (
            "events.jsonl",
            "{\"ts_ms\":4,\"session_id\":\"sess_test_budget\",\"kind\":\"command.start\",\"data\":{\"cmd\":\"cargo test --workspace --all-features\"}}\n\
             {\"ts_ms\":5,\"session_id\":\"sess_test_budget\",\"kind\":\"command.end\",\"data\":{\"exit\":101}}\n",
        ),
        ("stderr.log", "error: this is a long synthetic error line for budget testing\n"),
    ];
    ingest(&conn, session_id, &files);
    let options = BuildContextOptions {
        max_lines: 120,
        max_chars: 180,
        output_window: 1,
        max_evidence: 36,
        ..BuildContextOptions::default()
    };
    let bundle = bundle(&conn, session_id, "what failed?", options);
    assert!(bundle.context_text.chars().count() <= 180);
}

#[test]
fn output_window_adds_neighbor_lines() {
    let conn = fresh();
    let session_id = "sess_test_window";
    let files = [("output.log", "build started\nTOKEN_MATCH_FAILURE\nhint: check imports\n")];
    ingest(&conn, session_id, &files);
    let options = BuildContextOptions {
        max_lines: 120,
        max_chars: 4500,
        output_window: 1,
        max_evidence: 36,
        ..BuildContextOptions::default()
    };
    let bundle = bundle(&conn, session_id, "token_match_failure", options);
    let output = bundle.related_output.join("\n");
    assert!(output.contains("[merged] TOKEN_MATCH_FAILURE"));
    assert!(output.contains("[merged] build started"));
    assert!(output.contains("[merged] hint: check imports"));
}

#[test]
fn context_bundle_detects_what_changed_intent() {
    let conn = fresh();
    let session_id = "sess_test_intent_changed";
    let files = [
        (
            "events.jsonl",
            "{\"ts_ms\":11,\"session_id\":\"sess_test_intent_changed\",\"kind\":\"tool.start\",\"data\":{\"tool\":\"fs.write\",\"args\":{\"path\":\"src/lib.rs\",\"append\":false,\"content\":\"pub fn add(){}\"}}}\n\
             {\"ts_ms\":12,\"session_id\":\"sess_test_intent_changed\",\"kind\":\"tool.start\",\"data\":{\"tool\":\"fs.write\",\"args\":{\"path\":\"README.md\",\"append\":true,\"content\":\"notes\"}}}\n",
        ),
        ("stdin.log", "git diff\n"),
    ];
    let stats = ingest(&conn, session_id, &files);
    assert_eq!(stats.file_edits_inserted, 2);
    let bundle =
        bundle(&conn, session_id, "which files changed?", BuildContextOptions::default());
    assert_eq!(bundle.intent, "what-changed");
    assert!(!bundle.incidents.is_empty());
    assert!(!bundle.artifacts.is_empty());
    assert!(bundle.context_text.contains("Context artifacts"));
}

#[test]
fn context_bundle_includes_explain_metadata() {
    let conn = fresh();
    let session_id = "sess_test_explain";
    let files = [
        (
            "events.jsonl",
            "{\"ts_ms\":21,\"session_id\":\"sess_test_explain\",\"kind\":\"command.start\",\"data\":{\"cmd\":\"cargo test\"}}\n\
             {\"ts_ms\":22,\"session_id\":\"sess_test_explain\",\"kind\":\"command.end\",\"data\":{\"exit\":101}}\n",
        ),
        ("stderr.log", "error[E0308]: mismatched types\n"),
    ];
    ingest(&conn, session_id, &files);
    let bundle = bundle(
        &conn,
        session_id,
        "why did cargo test fail?",
        BuildContextOptions { explain: true, ..BuildContextOptions::default() },
    );
    let explain = bundle.explain.expect("expected explain metadata");
    assert_eq!(explain.intent, "debug");
    assert!(explain.selected_count > 0);
    assert!(explain.candidate_count >= explain.selected_count);
    assert!(explain.profile.category_caps.iter().any(|(name, _)| name == "incident"));
}

#[test]
fn context_bundle_honors_intent_override() {
    let conn = fresh();
    let session_id = "sess_test_intent_override";
    let files = [("stdin.log", "echo status\n"), ("stdout.log", "all systems nominal\n")];
    ingest(&conn, session_id, &files);
    let bundle = bundle(
        &conn,
        session_id,
        "what changed?",
        BuildContextOptions {
            intent_override: Some(QueryIntent::Status),
            ..BuildContextOptions::default()
        },
    );
    assert_eq!(bundle.intent, "status");
}

#[test]
fn llm_selection_corpus_includes_recent_streams_and_chunks() {
    let conn = fresh();
    let session_id = "sess_test_llm_corpus";
    let files = [
        (
            "events.jsonl",
            "{\"ts_ms\":1,\"session_id\":\"sess_test_llm_corpus\",\"kind\":\"command.start\",\"data\":{\"cmd\":\"cargo test\"}}\n\
             {\"ts_ms\":2,\"session_id\":\"sess_test_llm_corpus\",\"kind\":\"command.end\",\"data\":{\"exit\":101}}\n",
        ),
        ("stdin.log", "echo one\necho two\necho three\n"),
        ("stdout.log", "stdout one\nstdout two\nstdout three\n"),
        ("stderr.log", "stderr one\nstderr two\n"),
    ];
    ingest(&conn, session_id, &files);
    let corpus = corpus(
        &conn,
        session_id,
        BuildLlmSelectionCorpusOptions { chunk_chars: 140, max_chunks: 4, include_events: true },
    );
    assert!(!corpus.old_context_chunks.is_empty());
    assert!(corpus.total_old_lines >= 5);
    assert!(corpus.last_stdout.join("\n").contains("stdout three"));
    assert!(corpus.last_stderr.join("\n").contains("stderr two"));
    assert!(corpus.last_stdin.join("\n").contains("echo three"));
    assert_eq!(corpus.last_stdin, vec!["echo one", "echo two", "echo three"]);
}

#[test]
fn llm_selection_corpus_marks_truncation() {
    let conn = fresh();
    let session_id = "sess_test_llm_corpus_trunc";
    let files = [("stdin.log", "a\nb\nc\nd\ne\nf\ng\nh\ni\n")];
    ingest(&conn, session_id, &files);
    let corpus = corpus(
        &conn,
        session_id,
        BuildLlmSelectionCorpusOptions { chunk_chars: 32, max_chunks: 1, include_events: false },
    );
    assert!(corpus.truncated);
    assert_eq!(corpus.old_context_chunks.len(), 1);
    assert!(
        corpus.old_context_chunks[0].contains("truncated")
            || corpus.old_context_chunks[0].chars().count() <= 64
    );
}

#[test]
fn last_lines_are_few_and_in_order() {
    let conn = fresh();
    let numbered = |word: &str| (1..=10).map(|n| format!("{word} {n}\n")).collect::<String>();
    ingest(
        &conn,
        "s",
        &[
            ("stdin.log", numbered("in").as_str()),
            ("output.log", numbered("both").as_str()),
            ("stdout.log", numbered("out").as_str()),
            ("stderr.log", "err 1\n"),
        ],
    );
    let corpus = corpus(&conn, "s", BuildLlmSelectionCorpusOptions::default());
    assert_eq!(corpus.last_stdin, vec!["in 7", "in 8", "in 9", "in 10"]);
    assert_eq!(corpus.last_stdout.len(), 8);
    assert_eq!(corpus.last_stdout[0], "out 3");
    assert_eq!(corpus.last_stdout[7], "out 10");
    assert_eq!(corpus.last_stderr, vec!["err 1"]);
    assert_eq!(corpus.total_old_lines, 31);
    assert!(!corpus.truncated);
}

#[test]
fn chunks_never_exceed_their_number() {
    let conn = fresh();
    // The heading of the second section no longer fits into the only chunk.
    ingest(&conn, "s", &[("stdin.log", "0123456789012345678901234567890\n"), ("stdout.log", "x\n")]);
    let corpus = corpus(
        &conn,
        "s",
        BuildLlmSelectionCorpusOptions { chunk_chars: 64, max_chunks: 1, include_events: true },
    );
    assert!(corpus.truncated);
    assert_eq!(
        corpus.old_context_chunks,
        vec!["### COMMAND_INPUTS\n[stdin#1] 0123456789012345678901234567890"]
    );
    assert_eq!(corpus.total_old_lines, 1);
}

#[test]
fn tiny_budgets_are_kept() {
    let conn = fresh();
    ingest(&conn, "s", &[("stderr.log", "error: no such file\n")]);
    for max_chars in [0, 1, 10, 43, 44, 60, 119, 120, 180] {
        let options = BuildContextOptions { max_chars, ..BuildContextOptions::default() };
        let found = bundle(&conn, "s", "what failed?", options);
        assert!(found.context_text.chars().count() <= max_chars);
    }
    let options = BuildContextOptions { max_chars: 2, ..BuildContextOptions::default() };
    assert_eq!(bundle(&conn, "s", "why", options).context_text, "No");
    let options = BuildContextOptions { max_chars: 12, ..BuildContextOptions::default() };
    assert_eq!(bundle(&conn, "s", "why", options).context_text, "Session: s");
}

#[test]
fn making_the_index_again_keeps_its_rows() {
    let conn = fresh();
    ingest(&conn, "s", &[("stdin.log", "ls\n"), ("stdout.log", "a\nb\n")]);
    let statements = init();
    assert_eq!(statements.len(), 14);
    assert!(statements[0].starts_with("CREATE TABLE IF NOT EXISTS sessions (id TEXT PRIMARY KEY, "));
    assert_eq!(
        statements[4],
        "CREATE INDEX IF NOT EXISTS idx_events_session_ts ON events(session_id, ts_ms)"
    );
    for statement in statements {
        conn.execute_batch(&statement).unwrap();
    }
    assert_eq!(count(&conn, "SELECT COUNT(*) FROM command_inputs WHERE session_id = ?1", "s"), 1);
    assert_eq!(count(&conn, "SELECT COUNT(*) FROM pane_output WHERE session_id = ?1", "s"), 2);
}

#[test]
fn small_corpus_is_complete() {
    let conn = fresh();
    ingest(&conn, "s", &[("stdin.log", "make\n"), ("stdout.log", "done\n")]);
    let corpus = corpus(
        &conn,
        "s",
        BuildLlmSelectionCorpusOptions { chunk_chars: 4000, max_chunks: 8, include_events: false },
    );
    assert!(!corpus.truncated);
    assert_eq!(corpus.total_old_lines, 2);
    assert_eq!(corpus.old_context_chunks.len(), 1);
    assert!(corpus.old_context_chunks[0].contains("[stdin#1] make"));
    assert!(corpus.old_context_chunks[0].contains("done"));
}

#[test]
fn reading_a_log_twice_counts_it_once() {
    let conn = fresh();
    let files = [
        (
            "events.jsonl",
            "{\"ts_ms\":6,\"kind\":\"tool.start\",\"data\":{\"tool\":\"fs.write\",\"args\":{\"path\":\"a\",\"content\":\"x\"}}}\nnot json\n\n",
        ),
        ("stdin.log", "ls\n"),
    ];
    let first = ingest(&conn, "s", &files);
    assert_eq!(
        first,
        IngestStats {
            events_inserted: 1,
            stdin_lines_inserted: 1,
            output_lines_inserted: 0,
            file_edits_inserted: 1,
        }
    );
    let second = ingest(&conn, "s", &files);
    assert_eq!(second, IngestStats::default());
    assert_eq!(count(&conn, "SELECT COUNT(*) FROM events WHERE session_id = ?1", "s"), 1);
}

#[test]
fn counts_add_up() {
    let mut total = IngestStats::default();
    total.add(count_line(Target::MergedOutput, true));
    total.add(count_line(Target::CommandInputs, true));
    total.add(count_line(Target::CommandInputs, false));
    total.add(count_event(true, true));
    total.add(count_event(false, true));
    assert_eq!(
        total,
        IngestStats {
            events_inserted: 1,
            stdin_lines_inserted: 1,
            output_lines_inserted: 1,
            file_edits_inserted: 1,
        }
    );
}

#[test]
fn ids_that_leave_the_log_directory_are_refused() {
    for id in ["../x", "a/b", "a\\b", ".."] {
        assert!(!is_valid_session_id(id));
        assert_eq!(ingest_session(id).unwrap_err(), "invalid session_id");
    }
    assert!(is_valid_session_id("sess_20260204_010203_042"));
    let none = ContextRows {
        commands: vec![],
        outputs: vec![],
        events: vec![],
        edits: vec![],
        artifacts: vec![],
    };
    let refused = build_relevant_context_bundle_with_options(
        "../x",
        "why",
        BuildContextOptions::default(),
        none,
        key,
        label,
    );
    assert_eq!(refused.unwrap_err(), "invalid session_id");
}

#[test]
fn directories_of_sessions_are_ingested() {
    let entries = vec![
        DirEntry { name: "sess_1".to_string(), is_dir: true },
        DirEntry { name: "worktrees".to_string(), is_dir: true },
        DirEntry { name: "logs.sqlite".to_string(), is_dir: false },
        DirEntry { name: "sess_2".to_string(), is_dir: true },
    ];
    assert_eq!(ingest_all(&entries), vec!["sess_1", "sess_2"]);
}

#[test]
fn single_events_are_appended() {
    let conn = fresh();
    let event = object3(
        "ts_ms",
        json_int(77),
        "session_id",
        json_str("s"),
        "kind",
        json_str("command.start"),
    );
    assert_eq!(apply(&conn, &append_event(&event, NOW)).events_inserted, 1);
    assert_eq!(apply(&conn, &append_event(&event, NOW)).events_inserted, 1);
    let found = events(&conn, "s", 10);
    assert_eq!(found.len(), 2);
    assert_eq!(found[0].ts_ms, Some(77));
    assert_eq!(found[0].kind, "command.start");
    assert_eq!(found[0].data, Json::Null);
    let seen: i64 = count(&conn, "SELECT last_seen_ms FROM sessions WHERE id = ?1", "s");
    assert_eq!(seen, 77);
}

#[test]
fn records_of_the_registry_are_indexed() {
    let conn = fresh();
    run(&conn, &upsert_session("s", "first", "idle", "manual", None, 5, u128::MAX));
    let updated: i64 = count(&conn, "SELECT updated_at FROM sessions WHERE id = ?1", "s");
    assert_eq!(updated, i64::MAX);
    assert_eq!(to_i64_u128(5), 5);
    run(&conn, &upsert_agent("a", "s", None, Some("m"), "running", None, None, 7));
    assert_eq!(count(&conn, "SELECT updated_at FROM agents WHERE session_id = ?1", "s"), 7);
    run(&conn, &upsert_run("r", "s", "a", "agent", "running", 1, None));
    run(&conn, &upsert_run("r", "s", "a", "agent", "completed", 1, Some(9)));
    let ended: i64 = count(&conn, "SELECT ended_at FROM runs WHERE session_id = ?1", "s");
    assert_eq!(ended, 9);
}

#[test]
fn questions_show_their_intent() {
    assert_eq!(detect_query_intent("what changed in this session?"), QueryIntent::WhatChanged);
    for intent in [
        QueryIntent::Debug,
        QueryIntent::WhatChanged,
        QueryIntent::Resume,
        QueryIntent::Status,
        QueryIntent::General,
    ] {
        assert_eq!(QueryIntent::from_str(intent.as_str()), Some(intent));
    }
    assert_eq!(QueryIntent::from_str("no such intent"), None);
    assert!(query_tokens("why did cargo fail").contains(&"cargo".to_string()));
}

#[test]
fn failures_are_paired_with_what_started_them() {
    let events = vec![
        event_record(Some(4), "tool.end".to_string(), "{\"tool\":\"shell\",\"ok\":false,\"error\":\"boom\"}"),
        event_record(Some(3), "tool.end".to_string(), "{\"tool\":\"shell\",\"ok\":true}"),
        event_record(Some(2), "command.end".to_string(), "{\"exit\":2}"),
        event_record(Some(1), "command.start".to_string(), "{\"cmd\":\"make\"}"),
        event_record(None, "noise".to_string(), "not json"),
    ];
    let commands = correlate_command_failures(&events, 10);
    assert_eq!(commands.len(), 1);
    assert_eq!(commands[0].command.as_deref(), Some("make"));
    assert_eq!(commands[0].exit, 2);
    assert!(commands[0].text.contains("make -> exit 2"));
    let tools = correlate_tool_failures(&events, 10);
    assert_eq!(tools.len(), 1);
    assert_eq!(tools[0].tool, "shell");
    assert_eq!(tools[0].error, "boom");
    assert!(correlate_tool_failures(&events, 0).is_empty());
}

#[test]
fn lines_that_are_not_ascii_are_matched_in_any_case() {
    let conn = fresh();
    ingest(&conn, "s", &[("stdin.log", "echo ÄÖÜ PIE\n")]);
    let found = bundle(&conn, "s", "where is the pie", BuildContextOptions::default());
    assert_eq!(found.query_tokens, vec!["where", "pie"]);
    let command = found.selected_evidence.iter().find(|e| e.category == "command").unwrap();
    match command.score {
        EvidenceScore::Own(s) => assert_eq!(s.overlap, 1),
        _ => panic!("expected a score of its own"),
    }
}

#[test]
fn fractions_are_kept_to_the_last_digit() {
    let conn = fresh();
    let fractions =
        ["0.100000000000000047", "1e300", "-2.5", "0.1", "123456789012345678901", "5e-324", "1.0"];
    for (i, text) in fractions.iter().enumerate() {
        let line = format!("{{\"kind\":\"k\",\"data\":{text}}}\n");
        let id = format!("s{i}");
        ingest(&conn, &id, &[("events.jsonl", line.as_str())]);
        let read: serde_json::Value = serde_json::from_str(text).unwrap();
        let kept: String = conn
            .query_row("SELECT data_json FROM events WHERE session_id = ?1", [&id], |row| row.get(0))
            .unwrap();
        assert_eq!(kept, read.to_string());
    }
}
