//! How logs get into the index: which files are read, which rows their lines
//! make, and which facts are kept with a session.
use vstd::prelude::*;
use vstd::utf8::encode_utf8;
use crate::budget::{clipped, truncate_line};
use crate::evidence::{edit_text, edited, smaller, FileEditRecord};
use crate::failures::{
    command_failure_views, command_scan, correlate_command_failures, correlate_tool_failures,
    first_of, tool_failure_views, tool_scan, CommandFailure, CommandFailureView, EventRecord,
    ToolFailure, ToolFailureView,
};
use crate::index::{
    int_or_null, is_valid_session_id, no_stats, opt_int_value, opt_statement, opt_text_value,
    param_views, text, text_or_null, valid_session_id, IngestStats, SqlValue, SqlView, Statement,
    StatementView,
};
use crate::json::{
    bool_of, field, int_of, json_of_text, json_text, json_to_text, parse_json, string_field,
    value_to_i64, Json, JsonView,
};
use crate::text::{
    blank, contains_any, has_any, has_text, int_to_string, is_blank, lemma_strs_push, lowered,
    opt_str, opt_text, push_text, same, signed_decimal, starts, strs, text_or, to_lowercase, trim,
    trimmed,
};

verus! {

broadcast use vstd::string::group_string_axioms;

// ---------------------------------------------------------------------------
// Which files are read
// ---------------------------------------------------------------------------

/// An entry of the log directory.
#[derive(Debug)]
pub struct DirEntry {
    pub name: String,
    pub is_dir: bool,
}

/// A directory with the logs of a session: any but the one for worktrees.
pub open spec fn holds_session(entry: DirEntry) -> bool {
    entry.is_dir && entry.name@ != "worktrees"@
}

/// The names of the session directories among the entries.
pub open spec fn session_names(entries: Seq<DirEntry>) -> Seq<Seq<char>>
    decreases entries.len(),
{
    if entries.len() == 0 {
        Seq::empty()
    } else {
        let before = session_names(entries.drop_last());
        if holds_session(entries.last()) {
            before.push(entries.last().name@)
        } else {
            before
        }
    }
}

/// The sessions whose logs are read, given the entries of the log directory.
pub fn ingest_all(entries: &Vec<DirEntry>) -> (r: Vec<String>)
    ensures
        strs(r@) == session_names(entries@),
{
    let mut out: Vec<String> = Vec::new();
    let mut i: usize = 0;
    assert(strs(out@) =~= session_names(entries@.take(0)));
    while i < entries.len()
        invariant
            i <= entries@.len(),
            strs(out@) == session_names(entries@.take(i as int)),
        decreases entries@.len() - i,
    {
        assert(entries@.take(i + 1).drop_last() =~= entries@.take(i as int));
        if entries[i].is_dir && !same(entries[i].name.as_str(), "worktrees") {
            proof {
                lemma_strs_push(out@, entries@[i as int].name);
            }
            out.push(entries[i].name.clone());
        }
        i = i + 1;
    }
    assert(entries@.take(i as int) =~= entries@);
    out
}

/// Where the lines of a log file go.
#[derive(Clone, Copy, Debug, PartialEq, Eq, Structural)]
pub enum Target {
    Events,
    CommandInputs,
    MergedOutput,
    Stdout,
    Stderr,
}

/// A log file and where its lines go.
#[derive(Clone, Copy, Debug)]
pub struct IngestFile {
    pub name: &'static str,
    pub target: Target,
}

/// The name of the log file of each kind.
pub open spec fn file_name(target: Target) -> Seq<char> {
    match target {
        Target::Events => "events.jsonl"@,
        Target::CommandInputs => "stdin.log"@,
        Target::MergedOutput => "output.log"@,
        Target::Stdout => "stdout.log"@,
        Target::Stderr => "stderr.log"@,
    }
}

/// The name of the stream that a file of output holds.
pub open spec fn stream_name(target: Target) -> Seq<char> {
    match target {
        Target::Stdout => "stdout"@,
        Target::Stderr => "stderr"@,
        _ => "merged"@,
    }
}

/// The order in which the files of a session are read.
pub open spec fn file_order() -> Seq<Target> {
    seq![
        Target::Events,
        Target::CommandInputs,
        Target::MergedOutput,
        Target::Stdout,
        Target::Stderr,
    ]
}

/// The files of a session in the order in which they are read.
pub fn ingest_files() -> (r: Vec<IngestFile>)
    ensures
        r@.len() == file_order().len(),
        forall|i: int|
            0 <= i < r@.len() ==> (#[trigger] r@[i]).target == file_order()[i] && r@[i].name@
                == file_name(file_order()[i]),
{
    let mut out: Vec<IngestFile> = Vec::new();
    out.push(IngestFile { name: "events.jsonl", target: Target::Events });
    out.push(IngestFile { name: "stdin.log", target: Target::CommandInputs });
    out.push(IngestFile { name: "output.log", target: Target::MergedOutput });
    out.push(IngestFile { name: "stdout.log", target: Target::Stdout });
    out.push(IngestFile { name: "stderr.log", target: Target::Stderr });
    out
}

/// The files to read for a session. An id that could leave the log directory is
/// refused.
pub fn ingest_session(session_id: &str) -> (r: Result<Vec<IngestFile>, String>)
    ensures
        match r {
            Ok(files) => {
                &&& valid_session_id(session_id@)
                &&& files@.len() == file_order().len()
                &&& forall|i: int|
                    0 <= i < files@.len() ==> (#[trigger] files@[i]).target == file_order()[i]
                        && files@[i].name@ == file_name(file_order()[i])
            },
            Err(e) => !valid_session_id(session_id@) && e@ == "invalid session_id"@,
        },
{
    if !is_valid_session_id(session_id) {
        return Err("invalid session_id".to_string());
    }
    Ok(ingest_files())
}

// ---------------------------------------------------------------------------
// Lines of text
// ---------------------------------------------------------------------------

/// Adds a typed line, unless the line is there already.
pub const INSERT_INPUT: &'static str = "INSERT OR IGNORE INTO command_inputs (session_id, ts_ms, line_text, source, source_line, created_at_ms) VALUES (?1, NULL, ?2, ?3, ?4, ?5)";

/// Adds a printed line, unless the line is there already.
pub const INSERT_OUTPUT: &'static str = "INSERT OR IGNORE INTO pane_output (session_id, ts_ms, stream, line_text, source, source_line, created_at_ms) VALUES (?1, NULL, ?2, ?3, ?4, ?5, ?6)";

/// The row that a line of a log file makes; lines of events make other rows.
pub open spec fn line_row(
    target: Target,
    session_id: Seq<char>,
    line: Seq<char>,
    source: Seq<char>,
    line_no: i64,
    now: i64,
) -> Option<StatementView> {
    match target {
        Target::Events => None,
        Target::CommandInputs => Some(
            StatementView {
                sql: INSERT_INPUT@,
                params: seq![
                    SqlView::Text(session_id),
                    SqlView::Text(line),
                    SqlView::Text(source),
                    SqlView::Int(line_no),
                    SqlView::Int(now),
                ],
            },
        ),
        _ => Some(
            StatementView {
                sql: INSERT_OUTPUT@,
                params: seq![
                    SqlView::Text(session_id),
                    SqlView::Text(stream_name(target)),
                    SqlView::Text(line),
                    SqlView::Text(source),
                    SqlView::Int(line_no),
                    SqlView::Int(now),
                ],
            },
        ),
    }
}

/// The statement for a line of a log file of text.
pub fn ingest_text_line(
    target: Target,
    session_id: &str,
    line: &str,
    source: &str,
    line_no: i64,
    now: i64,
) -> (r: Option<Statement>)
    ensures
        opt_statement(r) == line_row(target, session_id@, line@, source@, line_no, now),
{
    match target {
        Target::Events => None,
        Target::CommandInputs => {
            let mut params: Vec<SqlValue> = Vec::new();
            params.push(text(session_id));
            params.push(text(line));
            params.push(text(source));
            params.push(SqlValue::Int(line_no));
            params.push(SqlValue::Int(now));
            assert(param_views(params@) =~= line_row(
                target,
                session_id@,
                line@,
                source@,
                line_no,
                now,
            )->Some_0.params);
            Some(Statement { sql: INSERT_INPUT, params })
        },
        _ => {
            let stream = match target {
                Target::Stdout => "stdout",
                Target::Stderr => "stderr",
                _ => "merged",
            };
            let mut params: Vec<SqlValue> = Vec::new();
            params.push(text(session_id));
            params.push(text(stream));
            params.push(text(line));
            params.push(text(source));
            params.push(SqlValue::Int(line_no));
            params.push(SqlValue::Int(now));
            assert(param_views(params@) =~= line_row(
                target,
                session_id@,
                line@,
                source@,
                line_no,
                now,
            )->Some_0.params);
            Some(Statement { sql: INSERT_OUTPUT, params })
        },
    }
}

/// The statements for all lines of a log file of text; lines count from 1.
pub fn ingest_text_file(
    target: Target,
    session_id: &str,
    lines: &Vec<String>,
    source: &str,
    now: i64,
) -> (r: Vec<Statement>)
    requires
        lines@.len() <= i64::MAX,
    ensures
        target is Events ==> r@.len() == 0,
        !(target is Events) ==> r@.len() == lines@.len() && forall|i: int|
            0 <= i < lines@.len() ==> Some((#[trigger] r@[i])@) == line_row(
                target,
                session_id@,
                lines@[i]@,
                source@,
                (i + 1) as i64,
                now,
            ),
{
    let mut out: Vec<Statement> = Vec::new();
    if let Target::Events = target {
        return out;
    }
    let mut i: usize = 0;
    while i < lines.len()
        invariant
            !(target is Events),
            lines@.len() <= i64::MAX,
            i <= lines@.len(),
            out@.len() == i,
            forall|k: int|
                0 <= k < i ==> Some((#[trigger] out@[k])@) == line_row(
                    target,
                    session_id@,
                    lines@[k]@,
                    source@,
                    (k + 1) as i64,
                    now,
                ),
        decreases lines@.len() - i,
    {
        let row = ingest_text_line(
            target,
            session_id,
            lines[i].as_str(),
            source,
            (i + 1) as i64,
            now,
        );
        if let Some(statement) = row {
            out.push(statement);
        }
        i = i + 1;
    }
    out
}

/// What a row of text that was added counts as.
pub open spec fn line_stats(target: Target, inserted: bool) -> IngestStats {
    if !inserted {
        no_stats()
    } else {
        match target {
            Target::Events => no_stats(),
            Target::CommandInputs => IngestStats { stdin_lines_inserted: 1, ..no_stats() },
            _ => IngestStats { output_lines_inserted: 1, ..no_stats() },
        }
    }
}

/// What a row of text counts as.
pub fn count_line(target: Target, inserted: bool) -> (r: IngestStats)
    ensures
        r == line_stats(target, inserted),
{
    let mut stats = IngestStats {
        events_inserted: 0,
        stdin_lines_inserted: 0,
        output_lines_inserted: 0,
        file_edits_inserted: 0,
    };
    if inserted {
        match target {
            Target::Events => {},
            Target::CommandInputs => {
                stats.stdin_lines_inserted = 1;
            },
            _ => {
                stats.output_lines_inserted = 1;
            },
        }
    }
    stats
}

// ---------------------------------------------------------------------------
// Events
// ---------------------------------------------------------------------------

/// Adds an event, unless the line that it stands on is there already.
pub const INSERT_EVENT: &'static str = "INSERT OR IGNORE INTO events (ts_ms, session_id, agent_id, actor, kind, data_json, source, source_line, created_at_ms) VALUES (?1, ?2, ?3, ?4, ?5, ?6, ?7, ?8, ?9)";

/// Adds an edit, unless the line that it stands on is there already.
pub const INSERT_EDIT: &'static str = "INSERT OR IGNORE INTO file_edits (ts_ms, session_id, agent_id, tool, path, write_mode, bytes, source, source_line, data_json) VALUES (?1, ?2, ?3, 'fs.write', ?4, ?5, ?6, ?7, ?8, ?9)";

/// Makes a session known, or moves the time at which it was last seen on.
pub const TOUCH_SESSION: &'static str = "INSERT INTO sessions (id, title, status, share_state, tmux_session_name, created_at, updated_at, last_seen_ms) VALUES (?1, 'unknown', 'unknown', 'manual', NULL, 0, 0, ?2) ON CONFLICT(id) DO UPDATE SET last_seen_ms = CASE WHEN excluded.last_seen_ms > sessions.last_seen_ms THEN excluded.last_seen_ms ELSE sessions.last_seen_ms END";

/// The time of an event; the present where it has none.
pub open spec fn event_time(event: JsonView, now: i64) -> i64 {
    match field(event, "ts_ms"@) {
        Some(v) => match int_of(v) {
            Some(n) => n as i64,
            None => now,
        },
        None => now,
    }
}

/// The session of an event: its own, or the one that it is filed under.
pub open spec fn event_session(event: JsonView, fallback: Option<Seq<char>>) -> Option<Seq<char>> {
    match string_field(event, "session_id"@) {
        Some(id) => Some(id),
        None => fallback,
    }
}

/// The data of an event; null where it has none.
pub open spec fn event_data(event: JsonView) -> JsonView {
    match field(event, "data"@) {
        Some(v) => v,
        None => JsonView::Null,
    }
}

/// The start of a tool call that writes a file.
pub open spec fn writes_file(kind: Seq<char>, data: JsonView) -> bool {
    kind == "tool.start"@ && string_field(data, "tool"@) == Some("fs.write"@)
}

/// An argument of a tool call.
pub open spec fn tool_arg(data: JsonView, name: Seq<char>) -> Option<JsonView> {
    match field(data, "args"@) {
        Some(args) => field(args, name),
        None => None,
    }
}

/// The text of a string value.
pub open spec fn as_text(v: Option<JsonView>) -> Option<Seq<char>> {
    match v {
        Some(JsonView::Str(s)) => Some(s),
        _ => None,
    }
}

/// How a tool call writes a file.
pub open spec fn write_mode(data: JsonView) -> Seq<char> {
    if bool_of(tool_arg(data, "append"@)) == Some(true) {
        "append"@
    } else {
        "overwrite"@
    }
}

/// The number of bytes of a text.
pub open spec fn byte_count(s: Seq<char>) -> i64 {
    (encode_utf8(s).len() as usize) as i64
}

/// The row of an event.
pub open spec fn event_row(
    event: JsonView,
    fallback: Option<Seq<char>>,
    source: Option<Seq<char>>,
    source_line: Option<i64>,
    now: i64,
) -> StatementView {
    StatementView {
        sql: INSERT_EVENT@,
        params: seq![
            SqlView::Int(event_time(event, now)),
            text_or_null(event_session(event, fallback)),
            text_or_null(string_field(event, "agent_id"@)),
            text_or_null(string_field(event, "actor"@)),
            SqlView::Text(text_or(string_field(event, "kind"@), "unknown"@)),
            SqlView::Text(json_text(event_data(event))),
            text_or_null(source),
            int_or_null(source_line),
            SqlView::Int(now),
        ],
    }
}

/// The row of the edit that an event starts.
pub open spec fn edit_row(
    event: JsonView,
    fallback: Option<Seq<char>>,
    source: Option<Seq<char>>,
    source_line: Option<i64>,
    now: i64,
) -> Option<StatementView> {
    let data = event_data(event);
    if writes_file(text_or(string_field(event, "kind"@), "unknown"@), data) {
        Some(
            StatementView {
                sql: INSERT_EDIT@,
                params: seq![
                    SqlView::Int(event_time(event, now)),
                    text_or_null(event_session(event, fallback)),
                    text_or_null(string_field(event, "agent_id"@)),
                    text_or_null(as_text(tool_arg(data, "path"@))),
                    SqlView::Text(write_mode(data)),
                    match as_text(tool_arg(data, "content"@)) {
                        Some(s) => SqlView::Int(byte_count(s)),
                        None => SqlView::Null,
                    },
                    text_or_null(source),
                    int_or_null(source_line),
                    SqlView::Text(json_text(data)),
                ],
            },
        )
    } else {
        None
    }
}

/// The statement that moves the time on at which a session was last seen.
pub open spec fn touch_row(id: Seq<char>, ts_ms: i64) -> StatementView {
    StatementView {
        sql: TOUCH_SESSION@,
        params: seq![SqlView::Text(id), SqlView::Int(ts_ms)],
    }
}

/// What is to be done for an event. First its row is added. Only where that
/// adds a row, the session is touched and its facts are brought up to date, and
/// the edit that it starts is added.
#[derive(Debug, PartialEq, Eq)]
pub struct EventPlan {
    pub insert: Statement,
    pub session_id: Option<String>,
    pub touch: Option<Statement>,
    pub edit: Option<Statement>,
}

/// Whether an event is the start of a tool call that writes a file.
pub fn is_file_write_event(kind: &str, data: &Json) -> (r: bool)
    ensures
        r == writes_file(kind@, data@),
{
    if !same(kind, "tool.start") {
        return false;
    }
    match data.get_string("tool") {
        Some(tool) => same(tool.as_str(), "fs.write"),
        None => false,
    }
}

/// The statement that moves the time on at which a session was last seen.
pub fn touch_session(id: &str, ts_ms: i64) -> (r: Statement)
    ensures
        r@ == touch_row(id@, ts_ms),
{
    let mut params: Vec<SqlValue> = Vec::new();
    params.push(text(id));
    params.push(SqlValue::Int(ts_ms));
    assert(param_views(params@) =~= touch_row(id@, ts_ms).params);
    Statement { sql: TOUCH_SESSION, params }
}

fn arg_text(data: &Json, name: &str) -> (r: Option<String>)
    ensures
        opt_text(r) == as_text(tool_arg(data@, name@)),
{
    match data.get("args") {
        Some(args) => match args.get(name) {
            Some(v) => match v.as_str() {
                Some(s) => Some(s.clone()),
                None => None,
            },
            None => None,
        },
        None => None,
    }
}

fn arg_bool(data: &Json, name: &str) -> (r: Option<bool>)
    ensures
        r == bool_of(tool_arg(data@, name@)),
{
    match data.get("args") {
        Some(args) => args.get_bool(name),
        None => None,
    }
}

fn text_param(s: &Option<String>) -> (r: SqlValue)
    ensures
        r@ == text_or_null(opt_text(*s)),
{
    match s {
        Some(t) => SqlValue::Text(t.clone()),
        None => SqlValue::Null,
    }
}

fn edit_statement(
    data: &Json,
    ts_ms: i64,
    session_id: &Option<String>,
    agent_id: &Option<String>,
    source: Option<&str>,
    source_line: Option<i64>,
) -> (r: Statement)
    ensures
        r@.sql == INSERT_EDIT@,
        r@.params == seq![
            SqlView::Int(ts_ms),
            text_or_null(opt_text(*session_id)),
            text_or_null(opt_text(*agent_id)),
            text_or_null(as_text(tool_arg(data@, "path"@))),
            SqlView::Text(write_mode(data@)),
            match as_text(tool_arg(data@, "content"@)) {
                Some(s) => SqlView::Int(byte_count(s)),
                None => SqlView::Null,
            },
            text_or_null(opt_str(source)),
            int_or_null(source_line),
            SqlView::Text(json_text(data@)),
        ],
{
    let path = arg_text(data, "path");
    let mode = match arg_bool(data, "append") {
        Some(true) => "append",
        _ => "overwrite",
    };
    let bytes = match arg_text(data, "content") {
        Some(s) => SqlValue::Int(s.as_str().len() as i64),
        None => SqlValue::Null,
    };
    let mut params: Vec<SqlValue> = Vec::new();
    params.push(SqlValue::Int(ts_ms));
    params.push(text_param(session_id));
    params.push(text_param(agent_id));
    params.push(text_param(&path));
    params.push(text(mode));
    params.push(bytes);
    params.push(opt_text_value(source));
    params.push(opt_int_value(source_line));
    params.push(SqlValue::Text(json_to_text(data)));
    Statement { sql: INSERT_EDIT, params }
}

/// What is to be done for an event that is filed under a session, a source and
/// a line of it, as far as these are known.
pub fn insert_event(
    event: &Json,
    fallback_session_id: Option<&str>,
    source: Option<&str>,
    source_line: Option<i64>,
    now: i64,
) -> (r: EventPlan)
    ensures
        r.insert@ == event_row(
            event@,
            opt_str(fallback_session_id),
            opt_str(source),
            source_line,
            now,
        ),
        opt_text(r.session_id) == event_session(event@, opt_str(fallback_session_id)),
        opt_statement(r.touch) == match event_session(event@, opt_str(fallback_session_id)) {
            Some(id) => Some(touch_row(id, event_time(event@, now))),
            None => None,
        },
        opt_statement(r.edit) == edit_row(
            event@,
            opt_str(fallback_session_id),
            opt_str(source),
            source_line,
            now,
        ),
{
    let ts_ms: i64 = match event.get("ts_ms") {
        Some(v) => match value_to_i64(v) {
            Some(n) => n,
            None => now,
        },
        None => now,
    };
    let session_id = match event.get_string("session_id") {
        Some(id) => Some(id),
        None => match fallback_session_id {
            Some(id) => Some(id.to_string()),
            None => None,
        },
    };
    let agent_id = event.get_string("agent_id");
    let actor = event.get_string("actor");
    let kind = match event.get_string("kind") {
        Some(k) => k,
        None => "unknown".to_string(),
    };
    let null = Json::Null;
    let data = match event.get("data") {
        Some(v) => v,
        None => &null,
    };
    let mut params: Vec<SqlValue> = Vec::new();
    params.push(SqlValue::Int(ts_ms));
    params.push(text_param(&session_id));
    params.push(text_param(&agent_id));
    params.push(text_param(&actor));
    params.push(SqlValue::Text(kind.clone()));
    params.push(SqlValue::Text(json_to_text(data)));
    params.push(opt_text_value(source));
    params.push(opt_int_value(source_line));
    params.push(SqlValue::Int(now));
    let insert = Statement { sql: INSERT_EVENT, params };
    assert(insert@ =~= event_row(
        event@,
        opt_str(fallback_session_id),
        opt_str(source),
        source_line,
        now,
    ));
    let touch = match &session_id {
        Some(id) => Some(touch_session(id.as_str(), ts_ms)),
        None => None,
    };
    let edit = if is_file_write_event(kind.as_str(), data) {
        let statement = edit_statement(data, ts_ms, &session_id, &agent_id, source, source_line);
        assert(statement@ =~= edit_row(
            event@,
            opt_str(fallback_session_id),
            opt_str(source),
            source_line,
            now,
        )->Some_0);
        Some(statement)
    } else {
        None
    };
    EventPlan { insert, session_id, touch, edit }
}

/// What is to be done for an event that comes from no file.
pub fn append_event(event: &Json, now: i64) -> (r: EventPlan)
    ensures
        r.insert@ == event_row(event@, None, None, None, now),
        opt_text(r.session_id) == event_session(event@, None),
        opt_statement(r.touch) == match event_session(event@, None) {
            Some(id) => Some(touch_row(id, event_time(event@, now))),
            None => None,
        },
        opt_statement(r.edit) == edit_row(event@, None, None, None, now),
{
    insert_event(event, None, None, None, now)
}

/// What is to be done for a line of an event file: nothing for a blank line or
/// one that is no JSON document.
pub fn ingest_event_line(
    line: &str,
    session_id: &str,
    source: &str,
    line_no: i64,
    now: i64,
) -> (r: Option<EventPlan>)
    ensures
        match r {
            Some(plan) => {
                &&& !blank(line@)
                &&& json_of_text(trimmed(line@)) is Some
                &&& plan.insert@ == event_row(
                    json_of_text(trimmed(line@))->Some_0,
                    Some(session_id@),
                    Some(source@),
                    Some(line_no),
                    now,
                )
                &&& opt_text(plan.session_id) == event_session(
                    json_of_text(trimmed(line@))->Some_0,
                    Some(session_id@),
                )
                &&& opt_statement(plan.touch) == match event_session(
                    json_of_text(trimmed(line@))->Some_0,
                    Some(session_id@),
                ) {
                    Some(id) => Some(
                        touch_row(
                            id,
                            event_time(json_of_text(trimmed(line@))->Some_0, now),
                        ),
                    ),
                    None => None,
                }
                &&& opt_statement(plan.edit) == edit_row(
                    json_of_text(trimmed(line@))->Some_0,
                    Some(session_id@),
                    Some(source@),
                    Some(line_no),
                    now,
                )
            },
            None => blank(line@) || json_of_text(trimmed(line@)) is None,
        },
{
    let trimmed_line = trim(line);
    if trimmed_line.as_str().is_empty() {
        return None;
    }
    match parse_json(trimmed_line.as_str()) {
        Some(event) => Some(
            insert_event(&event, Some(session_id), Some(source), Some(line_no), now),
        ),
        None => None,
    }
}

/// What an event counts as, given whether its row was added and whether the row
/// of its edit was.
pub open spec fn event_stats(inserted: bool, edit_inserted: bool) -> IngestStats {
    IngestStats {
        events_inserted: if inserted {
            1
        } else {
            0
        },
        file_edits_inserted: if inserted && edit_inserted {
            1
        } else {
            0
        },
        ..no_stats()
    }
}

/// What an event counts as.
pub fn count_event(inserted: bool, edit_inserted: bool) -> (r: IngestStats)
    ensures
        r == event_stats(inserted, edit_inserted),
{
    IngestStats {
        events_inserted: if inserted { 1 } else { 0 },
        stdin_lines_inserted: 0,
        output_lines_inserted: 0,
        file_edits_inserted: if inserted && edit_inserted { 1 } else { 0 },
    }
}

/// Rows that were there already count as nothing, so a log that is read twice
/// adds to the counts once.
pub proof fn repeated_rows_count_nothing(target: Target, edit_inserted: bool)
    ensures
        line_stats(target, false) == no_stats(),
        event_stats(false, edit_inserted) == no_stats(),
{
}

// ---------------------------------------------------------------------------
// Facts that are kept with a session
// ---------------------------------------------------------------------------

/// A fact to be kept with a session.
#[derive(Debug)]
pub struct ArtifactDraft {
    pub artifact_type: &'static str,
    pub text: String,
    pub ts_ms: Option<i64>,
}

/// What an `ArtifactDraft` holds.
#[verifier::ext_equal]
pub struct DraftView {
    pub artifact_type: Seq<char>,
    pub text: Seq<char>,
    pub ts_ms: Option<i64>,
}

impl View for ArtifactDraft {
    type V = DraftView;

    open spec fn view(&self) -> DraftView {
        DraftView { artifact_type: self.artifact_type@, text: self.text@, ts_ms: self.ts_ms }
    }
}

/// What a row of drafts holds.
pub open spec fn draft_views(v: Seq<ArtifactDraft>) -> Seq<DraftView> {
    Seq::new(v.len(), |i: int| v[i]@)
}

/// A failed command stands in the way.
pub open spec fn command_blocker(f: CommandFailureView) -> DraftView {
    DraftView {
        artifact_type: "blocker"@,
        text: match f.command {
            Some(cmd) => "Command failed: "@ + cmd + " (exit "@ + signed_decimal(f.exit as int)
                + ")"@,
            None => "Command failed: "@ + f.text,
        },
        ts_ms: f.ts_ms,
    }
}

/// A failed tool call stands in the way.
pub open spec fn tool_blocker(f: ToolFailureView) -> DraftView {
    DraftView {
        artifact_type: "blocker"@,
        text: "Tool failure: "@ + f.tool + " ("@ + clipped(f.error, 160) + ")"@,
        ts_ms: f.ts_ms,
    }
}

/// The facts of the first `k` edits; an edit without a path makes none.
pub open spec fn edit_drafts(edits: Seq<FileEditRecord>, k: nat) -> Seq<DraftView>
    decreases k,
{
    if k == 0 {
        Seq::empty()
    } else {
        let before = edit_drafts(edits, (k - 1) as nat);
        match edits[k - 1].path {
            Some(p) => before.push(
                DraftView {
                    artifact_type: "edit"@,
                    text: "Edited "@ + edit_text(p@, opt_text(edits[k - 1].write_mode)),
                    ts_ms: edits[k - 1].ts_ms,
                },
            ),
            None => before,
        }
    }
}

/// The words by which a command tells of work to come.
pub open spec fn todo_words() -> Seq<&'static str> {
    seq!["todo", "next", "fixme", "later"]
}

/// The words by which a command tells of a decision.
pub open spec fn decision_words() -> Seq<&'static str> {
    seq!["decide", "chosen", "use", "switch to"]
}

/// The facts that a command tells of.
pub open spec fn command_drafts_of(cmd: Seq<char>) -> Seq<DraftView> {
    let low = lowered(cmd);
    let todo: Seq<DraftView> = if has_any(low, todo_words()) {
        seq![
            DraftView {
                artifact_type: "todo"@,
                text: "TODO signal in command: "@ + clipped(cmd, 180),
                ts_ms: None,
            },
        ]
    } else {
        Seq::empty()
    };
    if has_any(low, decision_words()) {
        todo.push(
            DraftView {
                artifact_type: "decision"@,
                text: "Decision signal in command: "@ + clipped(cmd, 180),
                ts_ms: None,
            },
        )
    } else {
        todo
    }
}

/// The facts that the first `k` commands tell of.
pub open spec fn command_drafts(commands: Seq<Seq<char>>, k: nat) -> Seq<DraftView>
    decreases k,
{
    if k == 0 {
        Seq::empty()
    } else {
        command_drafts(commands, (k - 1) as nat) + command_drafts_of(commands[k - 1])
    }
}

/// All facts to be kept: what stands in the way, what was edited, what was put
/// off and what was decided.
pub open spec fn session_drafts(
    events: Seq<EventRecord>,
    commands: Seq<Seq<char>>,
    edits: Seq<FileEditRecord>,
) -> Seq<DraftView> {
    let failures = first_of(command_scan(events).failures, 80);
    let tools = first_of(tool_scan(events).failures, 80);
    Seq::new(failures.len(), |i: int| command_blocker(failures[i])) + Seq::new(
        tools.len(),
        |i: int| tool_blocker(tools[i]),
    ) + edit_drafts(edits, smaller(edits.len(), 30)) + command_drafts(
        commands,
        smaller(commands.len(), 40),
    )
}

proof fn lemma_draft_push(v: Seq<ArtifactDraft>, d: ArtifactDraft)
    ensures
        draft_views(v.push(d)) == draft_views(v).push(d@),
{
    assert(draft_views(v.push(d)) =~= draft_views(v).push(d@));
}

fn blocker_of_command(failure: &CommandFailure) -> (r: ArtifactDraft)
    ensures
        r@ == command_blocker(failure@),
{
    let mut s = "Command failed: ".to_string();
    match &failure.command {
        Some(cmd) => {
            push_text(&mut s, cmd.as_str());
            push_text(&mut s, " (exit ");
            push_text(&mut s, int_to_string(failure.exit).as_str());
            push_text(&mut s, ")");
        },
        None => push_text(&mut s, failure.text.as_str()),
    }
    ArtifactDraft { artifact_type: "blocker", text: s, ts_ms: failure.ts_ms }
}

fn blocker_of_tool(failure: &ToolFailure) -> (r: ArtifactDraft)
    ensures
        r@ == tool_blocker(failure@),
{
    let mut s = "Tool failure: ".to_string();
    push_text(&mut s, failure.tool.as_str());
    push_text(&mut s, " (");
    push_text(&mut s, truncate_line(failure.error.as_str(), 160).as_str());
    push_text(&mut s, ")");
    ArtifactDraft { artifact_type: "blocker", text: s, ts_ms: failure.ts_ms }
}

fn add_edit_drafts(out: &mut Vec<ArtifactDraft>, edits: &Vec<FileEditRecord>)
    ensures
        draft_views(final(out)@) == draft_views(old(out)@) + edit_drafts(
            edits@,
            smaller(edits@.len(), 30),
        ),
{
    let ghost start = draft_views(out@);
    let mut i: usize = 0;
    assert(draft_views(out@) =~= start + edit_drafts(edits@, 0));
    while i < edits.len() && i < 30
        invariant
            i <= edits@.len(),
            i <= 30,
            draft_views(out@) == start + edit_drafts(edits@, i as nat),
        decreases edits@.len() - i,
    {
        if let Some(path) = &edits[i].path {
            let mut s = "Edited ".to_string();
            push_text(&mut s, edited(path.as_str(), &edits[i].write_mode).as_str());
            let draft = ArtifactDraft { artifact_type: "edit", text: s, ts_ms: edits[i].ts_ms };
            proof {
                lemma_draft_push(out@, draft);
            }
            out.push(draft);
        }
        i = i + 1;
        assert(draft_views(out@) =~= start + edit_drafts(edits@, i as nat));
    }
}

fn add_command_drafts(out: &mut Vec<ArtifactDraft>, commands: &Vec<String>)
    ensures
        draft_views(final(out)@) == draft_views(old(out)@) + command_drafts(
            strs(commands@),
            smaller(commands@.len(), 40),
        ),
{
    let todo: [&'static str; 4] = ["todo", "next", "fixme", "later"];
    let decision: [&'static str; 4] = ["decide", "chosen", "use", "switch to"];
    assert(todo@ =~= todo_words());
    assert(decision@ =~= decision_words());
    let ghost start = draft_views(out@);
    let mut i: usize = 0;
    assert(draft_views(out@) =~= start + command_drafts(strs(commands@), 0));
    while i < commands.len() && i < 40
        invariant
            todo@ == todo_words(),
            decision@ == decision_words(),
            i <= commands@.len(),
            i <= 40,
            draft_views(out@) == start + command_drafts(strs(commands@), i as nat),
        decreases commands@.len() - i,
    {
        let ghost before = draft_views(out@);
        let cmd = commands[i].as_str();
        let low = to_lowercase(cmd);
        if contains_any(low.as_str(), &todo) {
            let mut s = "TODO signal in command: ".to_string();
            push_text(&mut s, truncate_line(cmd, 180).as_str());
            let draft = ArtifactDraft { artifact_type: "todo", text: s, ts_ms: None };
            proof {
                lemma_draft_push(out@, draft);
            }
            out.push(draft);
        }
        if contains_any(low.as_str(), &decision) {
            let mut s = "Decision signal in command: ".to_string();
            push_text(&mut s, truncate_line(cmd, 180).as_str());
            let draft = ArtifactDraft { artifact_type: "decision", text: s, ts_ms: None };
            proof {
                lemma_draft_push(out@, draft);
            }
            out.push(draft);
        }
        assert(draft_views(out@) =~= before + command_drafts_of(commands@[i as int]@));
        assert(strs(commands@)[i as int] == commands@[i as int]@);
        i = i + 1;
        assert(draft_views(out@) =~= start + command_drafts(strs(commands@), i as nat));
    }
}

/// The facts to be kept with a session, given what is on record of it, newest
/// first.
pub fn refresh_context_artifacts(
    events: &Vec<EventRecord>,
    commands: &Vec<String>,
    edits: &Vec<FileEditRecord>,
) -> (r: Vec<ArtifactDraft>)
    ensures
        draft_views(r@) == session_drafts(events@, strs(commands@), edits@),
{
    let failures = correlate_command_failures(events, 80);
    let tools = correlate_tool_failures(events, 80);
    let ghost fs = first_of(command_scan(events@).failures, 80);
    let ghost ts = first_of(tool_scan(events@).failures, 80);
    assert(command_failure_views(failures@).len() == failures@.len());
    assert(tool_failure_views(tools@).len() == tools@.len());
    let mut out: Vec<ArtifactDraft> = Vec::new();
    let mut i: usize = 0;
    while i < failures.len()
        invariant
            fs == command_failure_views(failures@),
            i <= failures@.len(),
            out@.len() == i,
            forall|k: int| 0 <= k < i ==> (#[trigger] out@[k])@ == command_blocker(fs[k]),
        decreases failures@.len() - i,
    {
        let draft = blocker_of_command(&failures[i]);
        out.push(draft);
        i = i + 1;
    }
    let ghost first = Seq::new(fs.len(), |i: int| command_blocker(fs[i]));
    let ghost of_tool = |i: int| tool_blocker(ts[i]);
    assert(draft_views(out@) =~= first + Seq::new(0, of_tool));
    let mut j: usize = 0;
    while j < tools.len()
        invariant
            ts == tool_failure_views(tools@),
            of_tool == (|i: int| tool_blocker(ts[i])),
            j <= tools@.len(),
            draft_views(out@) == first + Seq::new(j as nat, of_tool),
        decreases tools@.len() - j,
    {
        let draft = blocker_of_tool(&tools[j]);
        proof {
            lemma_draft_push(out@, draft);
            assert(of_tool(j as int) == draft@);
            assert(first + Seq::new((j + 1) as nat, of_tool) =~= (first + Seq::new(
                j as nat,
                of_tool,
            )).push(draft@));
        }
        out.push(draft);
        j = j + 1;
    }
    assert(Seq::new(ts.len(), |i: int| tool_blocker(ts[i])) =~= Seq::new(ts.len(), of_tool));
    add_edit_drafts(&mut out, edits);
    add_command_drafts(&mut out, commands);
    assert(strs(commands@).len() == commands@.len());
    out
}

/// Keeps a fact, or notes that it holds still.
pub const UPSERT_ARTIFACT: &'static str = "INSERT INTO context_artifacts (session_id, artifact_type, text, ts_ms, created_at_ms, updated_at_ms) VALUES (?1, ?2, ?3, ?4, ?5, ?5) ON CONFLICT(session_id, artifact_type, text) DO UPDATE SET ts_ms = COALESCE(excluded.ts_ms, context_artifacts.ts_ms), updated_at_ms = excluded.updated_at_ms";

/// The statement that keeps a fact; none for a blank one.
pub open spec fn artifact_row(session_id: Seq<char>, draft: DraftView, now: i64) -> Option<
    StatementView,
> {
    if blank(draft.text) {
        None
    } else {
        Some(
            StatementView {
                sql: UPSERT_ARTIFACT@,
                params: seq![
                    SqlView::Text(session_id),
                    SqlView::Text(draft.artifact_type),
                    SqlView::Text(draft.text),
                    int_or_null(draft.ts_ms),
                    SqlView::Int(now),
                ],
            },
        )
    }
}

/// The statement that keeps a fact.
pub fn upsert_context_artifact(session_id: &str, draft: &ArtifactDraft, now: i64) -> (r: Option<
    Statement,
>)
    ensures
        opt_statement(r) == artifact_row(session_id@, draft@, now),
{
    if is_blank(draft.text.as_str()) {
        return None;
    }
    let mut params: Vec<SqlValue> = Vec::new();
    params.push(text(session_id));
    params.push(text(draft.artifact_type));
    params.push(SqlValue::Text(draft.text.clone()));
    params.push(opt_int_value(draft.ts_ms));
    params.push(SqlValue::Int(now));
    let statement = Statement { sql: UPSERT_ARTIFACT, params };
    assert(statement@ =~= artifact_row(session_id@, draft@, now)->Some_0);
    Some(statement)
}

// ---------------------------------------------------------------------------
// What the rows hold
// ---------------------------------------------------------------------------

/// An event that starts the writing of a file.
pub open spec fn starts_write(event: JsonView) -> bool {
    &&& field(event, "kind"@) == Some(JsonView::Str("tool.start"@))
    &&& field(event, "data"@) is Some
    &&& field(field(event, "data"@)->Some_0, "tool"@) == Some(JsonView::Str("fs.write"@))
}

/// An argument of the tool call that an event starts.
pub open spec fn argument(event: JsonView, name: Seq<char>) -> Option<JsonView> {
    match field(event, "data"@) {
        Some(data) => match field(data, "args"@) {
            Some(args) => field(args, name),
            None => None,
        },
        None => None,
    }
}

/// What an event says of itself: the time at which it happened, as far as it is a number,
/// else the present; its own session, else the one that it is filed under; its agent.
pub open spec fn placed(
    event: JsonView,
    fallback: Option<Seq<char>>,
    now: i64,
    time: SqlView,
    session: SqlView,
    agent: SqlView,
) -> bool {
    &&& match field(event, "ts_ms"@) {
        Some(JsonView::Unsigned(n)) => n <= i64::MAX ==> time == SqlView::Int(n as i64),
        Some(JsonView::Negative(n)) => time == SqlView::Int(n),
        Some(v) => int_of(v) is None ==> time == SqlView::Int(now),
        None => time == SqlView::Int(now),
    }
    &&& match (field(event, "session_id"@), fallback) {
        (Some(JsonView::Str(id)), _) => session == SqlView::Text(id),
        (_, Some(id)) => session == SqlView::Text(id),
        _ => session == SqlView::Null,
    }
    &&& match field(event, "agent_id"@) {
        Some(JsonView::Str(id)) => agent == SqlView::Text(id),
        _ => agent == SqlView::Null,
    }
}

/// Where a row was read: the source and the line of it, null as far as it is not known.
pub open spec fn sourced(
    source: Option<Seq<char>>,
    line_no: Option<i64>,
    at: SqlView,
    line: SqlView,
) -> bool {
    &&& match source {
        Some(s) => at == SqlView::Text(s),
        None => at == SqlView::Null,
    }
    &&& match line_no {
        Some(n) => line == SqlView::Int(n),
        None => line == SqlView::Null,
    }
}

/// The start of a write makes an edit, and nothing else does. The edit bears the time,
/// the session and the agent of the event, the path, the mode by the argument `append`
/// (only `true` appends), the size of the content in bytes, and where it was read.
pub proof fn writes_are_edits(
    event: JsonView,
    fallback: Option<Seq<char>>,
    source: Option<Seq<char>>,
    line_no: Option<i64>,
    now: i64,
)
    ensures
        edit_row(event, fallback, source, line_no, now) is Some <==> starts_write(event),
        starts_write(event) ==> ({
            let row = edit_row(event, fallback, source, line_no, now)->Some_0;
            &&& row.sql == INSERT_EDIT@
            &&& row.params.len() == 9
            &&& placed(event, fallback, now, row.params[0], row.params[1], row.params[2])
            &&& match argument(event, "path"@) {
                Some(JsonView::Str(path)) => row.params[3] == SqlView::Text(path),
                _ => row.params[3] == SqlView::Null,
            }
            &&& argument(event, "append"@) == Some(JsonView::Bool(true)) ==> row.params[4]
                == SqlView::Text("append"@)
            &&& argument(event, "append"@) != Some(JsonView::Bool(true)) ==> row.params[4]
                == SqlView::Text("overwrite"@)
            &&& match argument(event, "content"@) {
                Some(JsonView::Str(s)) => encode_utf8(s).len() <= isize::MAX ==> row.params[5]
                    == SqlView::Int(encode_utf8(s).len() as i64),
                _ => row.params[5] == SqlView::Null,
            }
            &&& sourced(source, line_no, row.params[6], row.params[7])
            &&& row.params[8] == SqlView::Text(json_text(field(event, "data"@)->Some_0))
        }),
{
    reveal_strlit("tool.start");
    reveal_strlit("unknown");
    assert("tool.start"@.len() != "unknown"@.len());
}

/// An event is filed as it is: under its own time, session, agent, actor and kind,
/// with its data as a document; where it has no time under the present, where it has
/// no session under the one whose log it stands in, where it has no kind as unknown.
pub proof fn events_are_filed_as_they_are(
    event: JsonView,
    fallback: Option<Seq<char>>,
    source: Option<Seq<char>>,
    line_no: Option<i64>,
    now: i64,
)
    ensures
        ({
            let row = event_row(event, fallback, source, line_no, now);
            &&& row.sql == INSERT_EVENT@
            &&& row.params.len() == 9
            &&& placed(event, fallback, now, row.params[0], row.params[1], row.params[2])
            &&& match field(event, "actor"@) {
                Some(JsonView::Str(actor)) => row.params[3] == SqlView::Text(actor),
                _ => row.params[3] == SqlView::Null,
            }
            &&& match field(event, "kind"@) {
                Some(JsonView::Str(kind)) => row.params[4] == SqlView::Text(kind),
                _ => row.params[4] == SqlView::Text("unknown"@),
            }
            &&& match field(event, "data"@) {
                Some(data) => row.params[5] == SqlView::Text(json_text(data)),
                None => row.params[5] == SqlView::Text(json_text(JsonView::Null)),
            }
            &&& sourced(source, line_no, row.params[6], row.params[7])
            &&& row.params[8] == SqlView::Int(now)
        }),
{
}

/// The session that an event is filed under is the one that is touched, with the time that
/// the event is filed with.
pub proof fn sessions_are_touched(
    event: JsonView,
    fallback: Option<Seq<char>>,
    source: Option<Seq<char>>,
    line_no: Option<i64>,
    now: i64,
)
    ensures
        ({
            let row = event_row(event, fallback, source, line_no, now);
            match event_session(event, fallback) {
                Some(id) => {
                    let touch = touch_row(id, event_time(event, now));
                    &&& row.params[1] == SqlView::Text(id)
                    &&& touch.sql == TOUCH_SESSION@
                    &&& touch.params == seq![row.params[1], row.params[0]]
                },
                None => row.params[1] == SqlView::Null,
            }
        }),
{
    if let Some(id) = event_session(event, fallback) {
        let row = event_row(event, fallback, source, line_no, now);
        let touch = touch_row(id, event_time(event, now));
        assert(touch.params =~= seq![row.params[1], row.params[0]]);
    }
}

/// Each log is read from its own file, all of them are read, and the events come first.
pub proof fn every_log_has_its_file(target: Target)
    ensures
        exists|i: int| 0 <= i < file_order().len() && #[trigger] file_order()[i] == target,
        file_order().len() == 5,
        file_order()[0] is Events,
        match target {
            Target::Events => file_name(target) == "events.jsonl"@,
            Target::CommandInputs => file_name(target) == "stdin.log"@,
            Target::MergedOutput => file_name(target) == "output.log"@,
            Target::Stdout => file_name(target) == "stdout.log"@,
            Target::Stderr => file_name(target) == "stderr.log"@,
        },
{
    let all = file_order();
    assert(all[0] is Events && all[1] is CommandInputs && all[2] is MergedOutput);
    assert(all[3] is Stdout && all[4] is Stderr);
}

/// A line of a log of text is filed word for word, under its session, its stream and
/// the place where it stands.
pub proof fn lines_are_filed_word_for_word(
    target: Target,
    session_id: Seq<char>,
    line: Seq<char>,
    source: Seq<char>,
    line_no: i64,
    now: i64,
)
    ensures
        match line_row(target, session_id, line, source, line_no, now) {
            None => target is Events,
            Some(row) => match target {
                Target::Events => false,
                Target::CommandInputs => {
                    &&& row.sql == INSERT_INPUT@
                    &&& row.params[0] == SqlView::Text(session_id)
                    &&& row.params[1] == SqlView::Text(line)
                    &&& row.params[2] == SqlView::Text(source)
                    &&& row.params[3] == SqlView::Int(line_no)
                },
                Target::MergedOutput => row.sql == INSERT_OUTPUT@ && row.params[1]
                    == SqlView::Text("merged"@) && row.params[2] == SqlView::Text(line),
                Target::Stdout => row.sql == INSERT_OUTPUT@ && row.params[1] == SqlView::Text(
                    "stdout"@,
                ) && row.params[2] == SqlView::Text(line),
                Target::Stderr => row.sql == INSERT_OUTPUT@ && row.params[1] == SqlView::Text(
                    "stderr"@,
                ) && row.params[2] == SqlView::Text(line),
            },
        },
        target is MergedOutput || target is Stdout || target is Stderr ==> ({
            let row = line_row(target, session_id, line, source, line_no, now)->Some_0;
            &&& row.params[0] == SqlView::Text(session_id)
            &&& row.params[3] == SqlView::Text(source)
            &&& row.params[4] == SqlView::Int(line_no)
        }),
{
}

/// What was added is counted once, under its own heading.
pub proof fn rows_count_under_their_heading(target: Target)
    ensures
        line_stats(Target::CommandInputs, true).stdin_lines_inserted == 1,
        line_stats(Target::CommandInputs, true).output_lines_inserted == 0,
        target is MergedOutput || target is Stdout || target is Stderr ==> line_stats(
            target,
            true,
        ).output_lines_inserted == 1 && line_stats(target, true).stdin_lines_inserted == 0,
        line_stats(target, true).events_inserted == 0,
        line_stats(target, true).file_edits_inserted == 0,
        event_stats(true, true).events_inserted == 1,
        event_stats(true, true).file_edits_inserted == 1,
        event_stats(true, false).events_inserted == 1,
        event_stats(true, false).file_edits_inserted == 0,
        event_stats(true, true).stdin_lines_inserted == 0,
        event_stats(true, true).output_lines_inserted == 0,
{
}

/// The directories of sessions are read, in order, and only they: the one for
/// worktrees is none, nor is a file.
pub proof fn every_session_directory_is_read(entries: Seq<DirEntry>, name: Seq<char>)
    ensures
        session_names(entries).contains(name) <==> name != "worktrees"@ && exists|i: int|
            0 <= i < entries.len() && (#[trigger] entries[i]).is_dir && entries[i].name@ == name,
    decreases entries.len(),
{
    if entries.len() > 0 {
        let rest = entries.drop_last();
        every_session_directory_is_read(rest, name);
        let before = session_names(rest);
        let all = session_names(entries);
        let last = entries.last();
        assert(last == entries[entries.len() - 1]);
        if before.contains(name) {
            let k = choose|k: int| 0 <= k < before.len() && before[k] == name;
            assert(all[k] == name);
        }
        if holds_session(last) {
            assert(all[before.len() as int] == last.name@);
        }
        if all.contains(name) {
            let k = choose|k: int| 0 <= k < all.len() && all[k] == name;
            if k < before.len() {
                assert(before[k] == name);
            }
        }
        if exists|i: int| 0 <= i < rest.len() && (#[trigger] rest[i]).is_dir && rest[i].name@
            == name {
            let i = choose|i: int|
                0 <= i < rest.len() && (#[trigger] rest[i]).is_dir && rest[i].name@ == name;
            assert(entries[i] == rest[i]);
        }
        if exists|i: int|
            0 <= i < entries.len() && (#[trigger] entries[i]).is_dir && entries[i].name@ == name {
            let i = choose|i: int|
                0 <= i < entries.len() && (#[trigger] entries[i]).is_dir && entries[i].name@ == name;
            if i < rest.len() {
                assert(rest[i] == entries[i]);
            }
        }
    }
}

// ---------------------------------------------------------------------------
// What is kept with a session
// ---------------------------------------------------------------------------

/// What stands in the way is kept: every failed command and every failed tool among
/// the latest is a blocker that says what failed, at its time.
pub proof fn failures_are_blockers(
    events: Seq<EventRecord>,
    commands: Seq<Seq<char>>,
    edits: Seq<FileEditRecord>,
    i: int,
)
    ensures
        0 <= i < command_scan(events).failures.len() && i < 80 ==> ({
            let f = command_scan(events).failures[i];
            let d = session_drafts(events, commands, edits)[i];
            &&& i < session_drafts(events, commands, edits).len()
            &&& d.artifact_type == "blocker"@
            &&& d.ts_ms == f.ts_ms
            &&& starts(d.text, "Command failed: "@)
            &&& f.command is Some ==> d.text == "Command failed: "@ + f.command->Some_0
                + " (exit "@ + signed_decimal(f.exit as int) + ")"@
        }),
        0 <= i < tool_scan(events).failures.len() && i < 80 ==> exists|j: int|
            {
                let f = tool_scan(events).failures[i];
                let d = session_drafts(events, commands, edits)[j];
                &&& 0 <= j < session_drafts(events, commands, edits).len()
                &&& (#[trigger] session_drafts(events, commands, edits)[j]).artifact_type
                    == "blocker"@
                &&& d.ts_ms == f.ts_ms
                &&& d.text == "Tool failure: "@ + f.tool + " ("@ + clipped(f.error, 160) + ")"@
            },
{
    let failures = first_of(command_scan(events).failures, 80);
    let tools = first_of(tool_scan(events).failures, 80);
    let all = session_drafts(events, commands, edits);
    if 0 <= i < command_scan(events).failures.len() && i < 80 {
        let f = command_scan(events).failures[i];
        assert(failures[i] == f);
        assert(all[i] == command_blocker(f));
        let head = "Command failed: "@;
        assert(all[i].text.take(head.len() as int) =~= head);
    }
    if 0 <= i < tool_scan(events).failures.len() && i < 80 {
        let j = failures.len() + i;
        assert(all[j] == tool_blocker(tools[i]));
    }
}

/// A command tells of work to come if it has one of four words in it, and of a
/// decision if it has one of four others, in capitals or not.
pub open spec fn tells(cmd: Seq<char>, kind: Seq<char>) -> bool {
    let low = lowered(cmd);
    ||| kind == "todo"@ && (has_text(low, "todo"@) || has_text(low, "next"@) || has_text(
        low,
        "fixme"@,
    ) || has_text(low, "later"@))
    ||| kind == "decision"@ && (has_text(low, "decide"@) || has_text(low, "chosen"@) || has_text(
        low,
        "use"@,
    ) || has_text(low, "switch to"@))
}

/// What a command tells is kept, and nothing else: a note of a kind is drawn from it
/// exactly if it has a word of that kind, and the note quotes the command.
pub proof fn commands_tell_what_they_say(cmd: Seq<char>, kind: Seq<char>)
    requires
        kind == "todo"@ || kind == "decision"@,
    ensures
        tells(cmd, kind) <==> exists|j: int|
            0 <= j < command_drafts_of(cmd).len() && (#[trigger] command_drafts_of(
                cmd,
            )[j]).artifact_type == kind,
        forall|j: int|
            0 <= j < command_drafts_of(cmd).len() ==> {
                let d = command_drafts_of(cmd)[j];
                &&& (#[trigger] command_drafts_of(cmd)[j]).artifact_type == d.artifact_type
                &&& d.artifact_type == "todo"@ || d.artifact_type == "decision"@
                &&& exists|head: Seq<char>| d.text == #[trigger] (head + clipped(cmd, 180))
            },
{
    reveal_strlit("todo");
    reveal_strlit("decision");
    assert("todo"@.len() != "decision"@.len());
    let low = lowered(cmd);
    let all = command_drafts_of(cmd);
    lemma_has_any(low, todo_words());
    lemma_has_any(low, decision_words());
    assert(todo_words()[0] == "todo" && todo_words()[1] == "next");
    assert(todo_words()[2] == "fixme" && todo_words()[3] == "later");
    assert(decision_words()[0] == "decide" && decision_words()[1] == "chosen");
    assert(decision_words()[2] == "use" && decision_words()[3] == "switch to");
    if tells(cmd, "todo"@) {
        assert(all[0].artifact_type == "todo"@);
    }
    if tells(cmd, "decision"@) {
        assert(all.last().artifact_type == "decision"@);
        assert(all.last() == all[all.len() - 1]);
    }
}

proof fn lemma_has_any(s: Seq<char>, words: Seq<&str>)
    requires
        words.len() == 4,
    ensures
        has_any(s, words) <==> has_text(s, words[0]@) || has_text(s, words[1]@) || has_text(
            s,
            words[2]@,
        ) || has_text(s, words[3]@),
{
}

proof fn lemma_command_drafts(commands: Seq<Seq<char>>, k: nat, i: int, j: int)
    requires
        k <= commands.len(),
        0 <= i < k,
        0 <= j < command_drafts_of(commands[i]).len(),
    ensures
        exists|m: int|
            0 <= m < command_drafts(commands, k).len() && #[trigger] command_drafts(commands, k)[m]
                == command_drafts_of(commands[i])[j],
    decreases k,
{
    let before = command_drafts(commands, (k - 1) as nat);
    let all = command_drafts(commands, k);
    if i == k - 1 {
        assert(all[before.len() + j] == command_drafts_of(commands[i])[j]);
    } else {
        lemma_command_drafts(commands, (k - 1) as nat, i, j);
        let m = choose|m: int|
            0 <= m < before.len() && #[trigger] before[m] == command_drafts_of(commands[i])[j];
        assert(all[m] == before[m]);
    }
}

/// Of the latest commands every one that tells of work to come or of a decision has a
/// note among those that are kept.
pub proof fn told_work_is_kept(
    events: Seq<EventRecord>,
    commands: Seq<Seq<char>>,
    edits: Seq<FileEditRecord>,
    i: int,
    kind: Seq<char>,
)
    requires
        0 <= i < commands.len(),
        i < 40,
        kind == "todo"@ || kind == "decision"@,
        tells(commands[i], kind),
    ensures
        exists|m: int|
            {
                let d = session_drafts(events, commands, edits)[m];
                &&& 0 <= m < session_drafts(events, commands, edits).len()
                &&& (#[trigger] session_drafts(events, commands, edits)[m]).artifact_type == kind
                &&& exists|head: Seq<char>| d.text == #[trigger] (head + clipped(commands[i], 180))
            },
{
    commands_tell_what_they_say(commands[i], kind);
    let mine = command_drafts_of(commands[i]);
    let j = choose|j: int| 0 <= j < mine.len() && (#[trigger] mine[j]).artifact_type == kind;
    let k = smaller(commands.len(), 40);
    lemma_command_drafts(commands, k, i, j);
    let told = command_drafts(commands, k);
    let m = choose|m: int| 0 <= m < told.len() && #[trigger] told[m] == mine[j];
    let all = session_drafts(events, commands, edits);
    let before = all.len() - told.len();
    assert(all[before + m] == told[m]);
}

/// Of the latest edits every one with a path is kept with its path and mode.
pub proof fn edits_are_kept(edits: Seq<FileEditRecord>, k: nat, i: int)
    requires
        0 <= i < k <= edits.len(),
        edits[i].path is Some,
    ensures
        exists|m: int|
            {
                &&& 0 <= m < edit_drafts(edits, k).len()
                &&& (#[trigger] edit_drafts(edits, k)[m]).artifact_type == "edit"@
                &&& edit_drafts(edits, k)[m].ts_ms == edits[i].ts_ms
                &&& edit_drafts(edits, k)[m].text == "Edited "@ + (edits[i].path->Some_0@ + " ("@
                    + text_or(opt_text(edits[i].write_mode), "unknown"@) + ")"@)
            },
    decreases k,
{
    let all = edit_drafts(edits, k);
    let before = edit_drafts(edits, (k - 1) as nat);
    if i == k - 1 {
        assert(all[before.len() as int] == all.last());
    } else {
        edits_are_kept(edits, (k - 1) as nat, i);
        let m = choose|m: int|
            {
                &&& 0 <= m < before.len()
                &&& (#[trigger] before[m]).artifact_type == "edit"@
                &&& before[m].ts_ms == edits[i].ts_ms
                &&& before[m].text == "Edited "@ + (edits[i].path->Some_0@ + " ("@ + text_or(
                    opt_text(edits[i].write_mode),
                    "unknown"@,
                ) + ")"@)
            };
        assert(all[m] == before[m]);
    }
}

/// A note is kept under its session with its kind, its words and its time; a blank one
/// is not kept.
pub proof fn notes_are_kept_as_they_are(session_id: Seq<char>, draft: DraftView, now: i64)
    ensures
        match artifact_row(session_id, draft, now) {
            None => blank(draft.text),
            Some(row) => {
                &&& !blank(draft.text)
                &&& row.sql == UPSERT_ARTIFACT@
                &&& row.params[0] == SqlView::Text(session_id)
                &&& row.params[1] == SqlView::Text(draft.artifact_type)
                &&& row.params[2] == SqlView::Text(draft.text)
                &&& row.params[3] == match draft.ts_ms {
                    Some(t) => SqlView::Int(t),
                    None => SqlView::Null,
                }
                &&& row.params[4] == SqlView::Int(now)
            },
        },
{
}

/// Notes are drawn from the latest alone: eighty failures of commands and of tools each, thirty
/// edits and forty commands.
pub proof fn notes_are_drawn_from_the_latest(
    events: Seq<EventRecord>,
    commands: Seq<Seq<char>>,
    edits: Seq<FileEditRecord>,
)
    ensures
        session_drafts(events, Seq::empty(), Seq::empty()).len() == smaller(
            command_scan(events).failures.len(),
            80,
        ) + smaller(tool_scan(events).failures.len(), 80),
        session_drafts(Seq::empty(), Seq::empty(), edits) == edit_drafts(
            edits,
            smaller(edits.len(), 30),
        ),
        session_drafts(Seq::empty(), commands, Seq::empty()) == command_drafts(
            commands,
            smaller(commands.len(), 40),
        ),
{
    let none = Seq::<EventRecord>::empty();
    let no_commands = Seq::<Seq<char>>::empty();
    let no_edits = Seq::<FileEditRecord>::empty();
    assert(command_scan(none).failures.len() == 0);
    assert(tool_scan(none).failures.len() == 0);
    assert(session_drafts(none, no_commands, edits) =~= edit_drafts(
        edits,
        smaller(edits.len(), 30),
    ));
    assert(session_drafts(none, commands, no_edits) =~= command_drafts(
        commands,
        smaller(commands.len(), 40),
    ));
}

} // verus!
