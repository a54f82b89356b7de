//! The index of session logs: what goes into it, as statements for a database,
//! and how it is kept up to date.
use vstd::prelude::*;
use crate::text::{
    contains, contains_char, has_char, has_text, occurs_at, opt_str, push_text, strs,
};

verus! {

broadcast use vstd::string::group_string_axioms;

/// An id that names a directory below the log root and nothing else.
pub open spec fn valid_session_id(id: Seq<char>) -> bool {
    !has_char(id, '/') && !has_char(id, '\\') && !has_text(id, ".."@)
}

/// Whether the id names a directory below the log root and nothing else.
pub fn is_valid_session_id(id: &str) -> (r: bool)
    ensures
        r == valid_session_id(id@),
{
    !contains_char(id, '/') && !contains_char(id, '\\') && !contains(id, "..")
}

// ---------------------------------------------------------------------------
// Counts
// ---------------------------------------------------------------------------

/// How much was added to the index.
#[derive(Clone, Copy, Debug, PartialEq, Eq, Structural)]
pub struct IngestStats {
    pub events_inserted: u64,
    pub stdin_lines_inserted: u64,
    pub output_lines_inserted: u64,
    pub file_edits_inserted: u64,
}

impl Default for IngestStats {
    fn default() -> (r: Self)
        ensures
            r == no_stats(),
    {
        IngestStats {
            events_inserted: 0,
            stdin_lines_inserted: 0,
            output_lines_inserted: 0,
            file_edits_inserted: 0,
        }
    }
}

/// Nothing was added.
pub open spec fn no_stats() -> IngestStats {
    IngestStats {
        events_inserted: 0,
        stdin_lines_inserted: 0,
        output_lines_inserted: 0,
        file_edits_inserted: 0,
    }
}

/// The counts of both can be told in 64 bits.
pub open spec fn can_sum(a: IngestStats, b: IngestStats) -> bool {
    &&& a.events_inserted + b.events_inserted <= u64::MAX
    &&& a.stdin_lines_inserted + b.stdin_lines_inserted <= u64::MAX
    &&& a.output_lines_inserted + b.output_lines_inserted <= u64::MAX
    &&& a.file_edits_inserted + b.file_edits_inserted <= u64::MAX
}

/// The counts of both together.
pub open spec fn stats_sum(a: IngestStats, b: IngestStats) -> IngestStats {
    IngestStats {
        events_inserted: (a.events_inserted + b.events_inserted) as u64,
        stdin_lines_inserted: (a.stdin_lines_inserted + b.stdin_lines_inserted) as u64,
        output_lines_inserted: (a.output_lines_inserted + b.output_lines_inserted) as u64,
        file_edits_inserted: (a.file_edits_inserted + b.file_edits_inserted) as u64,
    }
}

impl IngestStats {
    /// Counts the other's additions in.
    pub fn add(&mut self, other: IngestStats)
        requires
            can_sum(*old(self), other),
        ensures
            *final(self) == stats_sum(*old(self), other),
    {
        self.events_inserted = self.events_inserted + other.events_inserted;
        self.stdin_lines_inserted = self.stdin_lines_inserted + other.stdin_lines_inserted;
        self.output_lines_inserted = self.output_lines_inserted + other.output_lines_inserted;
        self.file_edits_inserted = self.file_edits_inserted + other.file_edits_inserted;
    }
}

// ---------------------------------------------------------------------------
// Statements
// ---------------------------------------------------------------------------

/// A value that is bound to a statement.
#[derive(Debug, PartialEq, Eq)]
pub enum SqlValue {
    Null,
    Int(i64),
    Text(String),
}

/// What a bound value holds.
pub enum SqlView {
    Null,
    Int(i64),
    Text(Seq<char>),
}

impl View for SqlValue {
    type V = SqlView;

    open spec fn view(&self) -> SqlView {
        match self {
            SqlValue::Null => SqlView::Null,
            SqlValue::Int(n) => SqlView::Int(*n),
            SqlValue::Text(s) => SqlView::Text(s@),
        }
    }
}

/// A statement with its bound values, the first of them for `?1`.
#[derive(Debug, PartialEq, Eq)]
pub struct Statement {
    pub sql: &'static str,
    pub params: Vec<SqlValue>,
}

/// What a `Statement` holds.
#[verifier::ext_equal]
pub struct StatementView {
    pub sql: Seq<char>,
    pub params: Seq<SqlView>,
}

/// What bound values hold.
pub open spec fn param_views(v: Seq<SqlValue>) -> Seq<SqlView> {
    Seq::new(v.len(), |i: int| v[i]@)
}

impl View for Statement {
    type V = StatementView;

    open spec fn view(&self) -> StatementView {
        StatementView { sql: self.sql@, params: param_views(self.params@) }
    }
}

/// What a statement holds, where there is one.
pub open spec fn opt_statement(s: Option<Statement>) -> Option<StatementView> {
    match s {
        Some(st) => Some(st@),
        None => None,
    }
}

/// A text, or null where there is none.
pub open spec fn text_or_null(s: Option<Seq<char>>) -> SqlView {
    match s {
        Some(t) => SqlView::Text(t),
        None => SqlView::Null,
    }
}

/// An integer, or null where there is none.
pub open spec fn int_or_null(n: Option<i64>) -> SqlView {
    match n {
        Some(v) => SqlView::Int(v),
        None => SqlView::Null,
    }
}

/// A text as a bound value.
pub fn text(s: &str) -> (r: SqlValue)
    ensures
        r@ == SqlView::Text(s@),
{
    SqlValue::Text(s.to_string())
}

/// A text, or null where there is none.
pub fn opt_text_value(s: Option<&str>) -> (r: SqlValue)
    ensures
        r@ == text_or_null(opt_str(s)),
{
    match s {
        Some(t) => SqlValue::Text(t.to_string()),
        None => SqlValue::Null,
    }
}

/// A number, or null where there is none.
pub fn opt_int_value(n: Option<i64>) -> (r: SqlValue)
    ensures
        r@ == int_or_null(n),
{
    match n {
        Some(v) => SqlValue::Int(v),
        None => SqlValue::Null,
    }
}

/// A time as the index keeps it: the largest 64-bit integer where it is larger.
pub open spec fn time_value(value: u128) -> i64 {
    if value <= i64::MAX {
        value as i64
    } else {
        i64::MAX
    }
}

/// A time as the index keeps it.
pub fn to_i64_u128(value: u128) -> (r: i64)
    ensures
        r == time_value(value),
{
    if value <= 9223372036854775807u128 {
        value as i64
    } else {
        i64::MAX
    }
}

// ---------------------------------------------------------------------------
// The tables
// ---------------------------------------------------------------------------

/// Sessions.
pub const SESSIONS_COLUMNS: &'static str = "id TEXT PRIMARY KEY, title TEXT NOT NULL, status TEXT NOT NULL, share_state TEXT NOT NULL, tmux_session_name TEXT, created_at INTEGER NOT NULL, updated_at INTEGER NOT NULL, last_seen_ms INTEGER NOT NULL DEFAULT 0";

/// Agents of the sessions.
pub const AGENTS_COLUMNS: &'static str = "id TEXT PRIMARY KEY, session_id TEXT NOT NULL, parent_agent_id TEXT, model TEXT, status TEXT NOT NULL, tmux_session_name TEXT, worktree TEXT, updated_at INTEGER NOT NULL";

/// Runs of the agents.
pub const RUNS_COLUMNS: &'static str = "id TEXT PRIMARY KEY, session_id TEXT NOT NULL, agent_id TEXT NOT NULL, mode TEXT NOT NULL, status TEXT NOT NULL, started_at INTEGER NOT NULL, ended_at INTEGER";

/// Events; the file and line that one was read from tell it apart.
pub const EVENTS_COLUMNS: &'static str = "id INTEGER PRIMARY KEY AUTOINCREMENT, ts_ms INTEGER, session_id TEXT, agent_id TEXT, actor TEXT, kind TEXT NOT NULL, data_json TEXT NOT NULL, source TEXT, source_line INTEGER, created_at_ms INTEGER NOT NULL, UNIQUE(source, source_line)";

/// Finds the events of a session.
pub const EVENTS_BY_SESSION: &'static str = "idx_events_session_ts ON events(session_id, ts_ms)";

/// Finds the events of a kind.
pub const EVENTS_BY_KIND: &'static str = "idx_events_kind_ts ON events(kind, ts_ms)";

/// Lines that were typed.
pub const COMMAND_INPUTS_COLUMNS: &'static str = "id INTEGER PRIMARY KEY AUTOINCREMENT, session_id TEXT NOT NULL, ts_ms INTEGER, line_text TEXT NOT NULL, source TEXT NOT NULL, source_line INTEGER NOT NULL, created_at_ms INTEGER NOT NULL, UNIQUE(source, source_line)";

/// Finds what was typed in a session.
pub const COMMAND_INPUTS_BY_SESSION: &'static str = "idx_command_inputs_session ON command_inputs(session_id, id)";

/// Lines that were printed.
pub const PANE_OUTPUT_COLUMNS: &'static str = "id INTEGER PRIMARY KEY AUTOINCREMENT, session_id TEXT NOT NULL, ts_ms INTEGER, stream TEXT NOT NULL, line_text TEXT NOT NULL, source TEXT NOT NULL, source_line INTEGER NOT NULL, created_at_ms INTEGER NOT NULL, UNIQUE(source, source_line)";

/// Finds what was printed in a session.
pub const PANE_OUTPUT_BY_SESSION: &'static str = "idx_pane_output_session ON pane_output(session_id, id)";

/// Files that were written.
pub const FILE_EDITS_COLUMNS: &'static str = "id INTEGER PRIMARY KEY AUTOINCREMENT, ts_ms INTEGER, session_id TEXT, agent_id TEXT, tool TEXT NOT NULL, path TEXT, write_mode TEXT, bytes INTEGER, source TEXT, source_line INTEGER, data_json TEXT NOT NULL, UNIQUE(source, source_line)";

/// Finds what was written in a session.
pub const FILE_EDITS_BY_SESSION: &'static str = "idx_file_edits_session_ts ON file_edits(session_id, ts_ms)";

/// Notes that were drawn from the logs; no session has the same note twice.
pub const ARTIFACTS_COLUMNS: &'static str = "id INTEGER PRIMARY KEY AUTOINCREMENT, session_id TEXT NOT NULL, artifact_type TEXT NOT NULL, text TEXT NOT NULL, ts_ms INTEGER, created_at_ms INTEGER NOT NULL, updated_at_ms INTEGER NOT NULL, UNIQUE(session_id, artifact_type, text)";

/// Finds the notes of a session, the latest first.
pub const ARTIFACTS_BY_SESSION: &'static str = "idx_context_artifacts_session_updated ON context_artifacts(session_id, updated_at_ms DESC)";

/// The tables of the index.
#[derive(Clone, Copy, Debug, PartialEq, Eq, Structural)]
pub enum Table {
    Sessions,
    Agents,
    Runs,
    Events,
    CommandInputs,
    PaneOutput,
    FileEdits,
    Artifacts,
}

/// The name of a table.
pub open spec fn table_name(table: Table) -> Seq<char> {
    match table {
        Table::Sessions => "sessions"@,
        Table::Agents => "agents"@,
        Table::Runs => "runs"@,
        Table::Events => "events"@,
        Table::CommandInputs => "command_inputs"@,
        Table::PaneOutput => "pane_output"@,
        Table::FileEdits => "file_edits"@,
        Table::Artifacts => "context_artifacts"@,
    }
}

/// The columns of a table.
pub open spec fn columns(table: Table) -> Seq<char> {
    match table {
        Table::Sessions => SESSIONS_COLUMNS@,
        Table::Agents => AGENTS_COLUMNS@,
        Table::Runs => RUNS_COLUMNS@,
        Table::Events => EVENTS_COLUMNS@,
        Table::CommandInputs => COMMAND_INPUTS_COLUMNS@,
        Table::PaneOutput => PANE_OUTPUT_COLUMNS@,
        Table::FileEdits => FILE_EDITS_COLUMNS@,
        Table::Artifacts => ARTIFACTS_COLUMNS@,
    }
}

/// A part of the index that is made where it is not there: a table, or an index of
/// one by its name and columns.
pub enum Part {
    Table(Table),
    Index(Seq<char>),
}

/// The parts of the index in the order in which they are made.
pub open spec fn parts() -> Seq<Part> {
    seq![
        Part::Table(Table::Sessions),
        Part::Table(Table::Agents),
        Part::Table(Table::Runs),
        Part::Table(Table::Events),
        Part::Index(EVENTS_BY_SESSION@),
        Part::Index(EVENTS_BY_KIND@),
        Part::Table(Table::CommandInputs),
        Part::Index(COMMAND_INPUTS_BY_SESSION@),
        Part::Table(Table::PaneOutput),
        Part::Index(PANE_OUTPUT_BY_SESSION@),
        Part::Table(Table::FileEdits),
        Part::Index(FILE_EDITS_BY_SESSION@),
        Part::Table(Table::Artifacts),
        Part::Index(ARTIFACTS_BY_SESSION@),
    ]
}

/// The statement that makes a part, where it is not there.
pub open spec fn part_sql(part: Part) -> Seq<char> {
    match part {
        Part::Table(table) => "CREATE TABLE IF NOT EXISTS "@ + table_name(table) + " ("@
            + columns(table) + ")"@,
        Part::Index(what) => "CREATE INDEX IF NOT EXISTS "@ + what,
    }
}

/// The statements that make the index.
pub open spec fn schema() -> Seq<Seq<char>> {
    parts().map_values(|part: Part| part_sql(part))
}

fn table_sql(name: &str, columns: &str) -> (r: String)
    ensures
        r@ == "CREATE TABLE IF NOT EXISTS "@ + name@ + " ("@ + columns@ + ")"@,
{
    let mut s = "CREATE TABLE IF NOT EXISTS ".to_string();
    push_text(&mut s, name);
    push_text(&mut s, " (");
    push_text(&mut s, columns);
    push_text(&mut s, ")");
    s
}

fn index_sql(what: &str) -> (r: String)
    ensures
        r@ == "CREATE INDEX IF NOT EXISTS "@ + what@,
{
    let mut s = "CREATE INDEX IF NOT EXISTS ".to_string();
    push_text(&mut s, what);
    s
}

/// The statements that make the index, each of which does nothing where its table
/// or index is there already.
pub fn init() -> (r: Vec<String>)
    ensures
        strs(r@) == schema(),
{
    let mut out: Vec<String> = Vec::new();
    out.push(table_sql("sessions", SESSIONS_COLUMNS));
    out.push(table_sql("agents", AGENTS_COLUMNS));
    out.push(table_sql("runs", RUNS_COLUMNS));
    out.push(table_sql("events", EVENTS_COLUMNS));
    out.push(index_sql(EVENTS_BY_SESSION));
    out.push(index_sql(EVENTS_BY_KIND));
    out.push(table_sql("command_inputs", COMMAND_INPUTS_COLUMNS));
    out.push(index_sql(COMMAND_INPUTS_BY_SESSION));
    out.push(table_sql("pane_output", PANE_OUTPUT_COLUMNS));
    out.push(index_sql(PANE_OUTPUT_BY_SESSION));
    out.push(table_sql("file_edits", FILE_EDITS_COLUMNS));
    out.push(index_sql(FILE_EDITS_BY_SESSION));
    out.push(table_sql("context_artifacts", ARTIFACTS_COLUMNS));
    out.push(index_sql(ARTIFACTS_BY_SESSION));
    assert(strs(out@) =~= schema());
    out
}

/// What the index holds: the rows of the tables that are there, and the indexes
/// that are there.
#[verifier::ext_equal]
pub struct Contents {
    pub rows: Map<Table, Seq<Seq<SqlView>>>,
    pub indexes: Set<Seq<char>>,
}

/// What the statement of a part does: by `IF NOT EXISTS` nothing where the part is
/// there, else the part is made, a table without rows.
pub open spec fn with_part(c: Contents, part: Part) -> Contents {
    match part {
        Part::Table(table) => if c.rows.dom().contains(table) {
            c
        } else {
            Contents { rows: c.rows.insert(table, Seq::empty()), ..c }
        },
        Part::Index(what) => Contents { indexes: c.indexes.insert(what), ..c },
    }
}

/// What the first `k` statements of the schema do.
pub open spec fn with_parts(c: Contents, k: nat) -> Contents
    decreases k,
{
    if k == 0 {
        c
    } else {
        with_part(with_parts(c, (k - 1) as nat), parts()[k - 1])
    }
}

/// What the statements of the schema do.
pub open spec fn initialised(c: Contents) -> Contents {
    with_parts(c, parts().len())
}

proof fn lemma_parts_keep_rows(c: Contents, k: nat)
    requires
        k <= parts().len(),
    ensures
        ({
            let after = with_parts(c, k);
            &&& forall|t: Table| #[trigger]
                c.rows.dom().contains(t) ==> after.rows.dom().contains(t) && after.rows[t]
                    == c.rows[t]
            &&& forall|t: Table| #[trigger]
                after.rows.dom().contains(t) && !c.rows.dom().contains(t) ==> after.rows[t].len()
                    == 0
            &&& forall|what: Seq<char>| #[trigger]
                c.indexes.contains(what) ==> after.indexes.contains(what)
            &&& forall|i: int|
                0 <= i < k ==> match #[trigger] parts()[i] {
                    Part::Table(t) => after.rows.dom().contains(t),
                    Part::Index(what) => after.indexes.contains(what),
                }
        }),
    decreases k,
{
    if k > 0 {
        lemma_parts_keep_rows(c, (k - 1) as nat);
        let before = with_parts(c, (k - 1) as nat);
        let after = with_parts(c, k);
        assert(after == with_part(before, parts()[k - 1]));
        assert forall|t: Table| #[trigger] before.rows.dom().contains(t) implies
            after.rows.dom().contains(t) && after.rows[t] == before.rows[t] by {}
        assert forall|t: Table| #[trigger]
            after.rows.dom().contains(t) && !c.rows.dom().contains(t) implies after.rows[t].len()
            == 0 by {
            if before.rows.dom().contains(t) {
                assert(before.rows[t].len() == 0);
            }
        }
        assert forall|what: Seq<char>| #[trigger]
            before.indexes.contains(what) implies after.indexes.contains(what) by {}
        assert forall|i: int| 0 <= i < k implies match #[trigger] parts()[i] {
            Part::Table(t) => after.rows.dom().contains(t),
            Part::Index(what) => after.indexes.contains(what),
        } by {
            if i < k - 1 {
                match parts()[i] {
                    Part::Table(t) => {
                        assert(before.rows.dom().contains(t));
                    },
                    Part::Index(what) => {
                        assert(before.indexes.contains(what));
                    },
                }
            }
        }
    }
}

proof fn lemma_parts_change_nothing(c: Contents, k: nat)
    requires
        k <= parts().len(),
        all_there(c),
    ensures
        with_parts(c, k) == c,
    decreases k,
{
    if k > 0 {
        lemma_parts_change_nothing(c, (k - 1) as nat);
        let part = parts()[k - 1];
        assert(with_part(c, part) =~= c);
    }
}

/// Every table and every index is there.
pub open spec fn all_there(c: Contents) -> bool {
    forall|i: int|
        0 <= i < parts().len() ==> match #[trigger] parts()[i] {
            Part::Table(t) => c.rows.dom().contains(t),
            Part::Index(what) => c.indexes.contains(what),
        }
}

/// Making the index makes every table, and every row that was there stays. An index
/// that was made before, whatever rows it has got since, is left exactly as it is.
pub proof fn init_keeps_rows(c: Contents)
    ensures
        all_there(initialised(c)),
        forall|t: Table| #[trigger] initialised(c).rows.dom().contains(t),
        forall|t: Table| #[trigger]
            initialised(c).rows[t] == if c.rows.dom().contains(t) {
                c.rows[t]
            } else {
                Seq::empty()
            },
        all_there(c) ==> initialised(c) == c,
{
    lemma_parts_keep_rows(c, parts().len());
    if all_there(c) {
        lemma_parts_change_nothing(c, parts().len());
    }
    assert forall|t: Table| #[trigger] initialised(c).rows.dom().contains(t) by {
        assert(parts()[0] == Part::Table(Table::Sessions));
        assert(parts()[1] == Part::Table(Table::Agents));
        assert(parts()[2] == Part::Table(Table::Runs));
        assert(parts()[3] == Part::Table(Table::Events));
        assert(parts()[6] == Part::Table(Table::CommandInputs));
        assert(parts()[8] == Part::Table(Table::PaneOutput));
        assert(parts()[10] == Part::Table(Table::FileEdits));
        assert(parts()[12] == Part::Table(Table::Artifacts));
    }
    assert forall|t: Table| #[trigger] initialised(c).rows[t] == if c.rows.dom().contains(t) {
        c.rows[t]
    } else {
        Seq::empty()
    } by {
        assert(initialised(c).rows.dom().contains(t));
        if !c.rows.dom().contains(t) {
            assert(initialised(c).rows[t] =~= Seq::empty());
        }
    }
}

// ---------------------------------------------------------------------------
// Sessions, agents and runs
// ---------------------------------------------------------------------------

/// The statement that records a session.
pub const UPSERT_SESSION: &'static str = "INSERT INTO sessions (id, title, status, share_state, tmux_session_name, created_at, updated_at, last_seen_ms) VALUES (?1, ?2, ?3, ?4, ?5, ?6, ?7, ?8) ON CONFLICT(id) DO UPDATE SET title = excluded.title, status = excluded.status, share_state = excluded.share_state, tmux_session_name = excluded.tmux_session_name, created_at = excluded.created_at, updated_at = excluded.updated_at, last_seen_ms = excluded.last_seen_ms";

/// The statement that records a session.
pub fn upsert_session(
    id: &str,
    title: &str,
    status: &str,
    share_state: &str,
    tmux_session_name: Option<&str>,
    created_at: u128,
    updated_at: u128,
) -> (r: Statement)
    ensures
        r@ == (StatementView {
            sql: UPSERT_SESSION@,
            params: seq![
                SqlView::Text(id@),
                SqlView::Text(title@),
                SqlView::Text(status@),
                SqlView::Text(share_state@),
                text_or_null(opt_str(tmux_session_name)),
                SqlView::Int(time_value(created_at)),
                SqlView::Int(time_value(updated_at)),
                SqlView::Int(time_value(updated_at)),
            ],
        }),
{
    let mut params: Vec<SqlValue> = Vec::new();
    params.push(text(id));
    params.push(text(title));
    params.push(text(status));
    params.push(text(share_state));
    params.push(opt_text_value(tmux_session_name));
    params.push(SqlValue::Int(to_i64_u128(created_at)));
    params.push(SqlValue::Int(to_i64_u128(updated_at)));
    params.push(SqlValue::Int(to_i64_u128(updated_at)));
    assert(param_views(params@) =~= seq![
        SqlView::Text(id@),
        SqlView::Text(title@),
        SqlView::Text(status@),
        SqlView::Text(share_state@),
        text_or_null(opt_str(tmux_session_name)),
        SqlView::Int(time_value(created_at)),
        SqlView::Int(time_value(updated_at)),
        SqlView::Int(time_value(updated_at)),
    ]);
    Statement {
        sql: UPSERT_SESSION,
        params,
    }
}

/// The statement that records an agent.
pub const UPSERT_AGENT: &'static str = "INSERT INTO agents (id, session_id, parent_agent_id, model, status, tmux_session_name, worktree, updated_at) VALUES (?1, ?2, ?3, ?4, ?5, ?6, ?7, ?8) ON CONFLICT(id) DO UPDATE SET session_id = excluded.session_id, parent_agent_id = excluded.parent_agent_id, model = excluded.model, status = excluded.status, tmux_session_name = excluded.tmux_session_name, worktree = excluded.worktree, updated_at = excluded.updated_at";

/// The statement that records an agent.
pub fn upsert_agent(
    id: &str,
    session_id: &str,
    parent_agent_id: Option<&str>,
    model: Option<&str>,
    status: &str,
    tmux_session_name: Option<&str>,
    worktree: Option<&str>,
    updated_at: u128,
) -> (r: Statement)
    ensures
        r@ == (StatementView {
            sql: UPSERT_AGENT@,
            params: seq![
                SqlView::Text(id@),
                SqlView::Text(session_id@),
                text_or_null(opt_str(parent_agent_id)),
                text_or_null(opt_str(model)),
                SqlView::Text(status@),
                text_or_null(opt_str(tmux_session_name)),
                text_or_null(opt_str(worktree)),
                SqlView::Int(time_value(updated_at)),
            ],
        }),
{
    let mut params: Vec<SqlValue> = Vec::new();
    params.push(text(id));
    params.push(text(session_id));
    params.push(opt_text_value(parent_agent_id));
    params.push(opt_text_value(model));
    params.push(text(status));
    params.push(opt_text_value(tmux_session_name));
    params.push(opt_text_value(worktree));
    params.push(SqlValue::Int(to_i64_u128(updated_at)));
    assert(param_views(params@) =~= seq![
        SqlView::Text(id@),
        SqlView::Text(session_id@),
        text_or_null(opt_str(parent_agent_id)),
        text_or_null(opt_str(model)),
        SqlView::Text(status@),
        text_or_null(opt_str(tmux_session_name)),
        text_or_null(opt_str(worktree)),
        SqlView::Int(time_value(updated_at)),
    ]);
    Statement {
        sql: UPSERT_AGENT,
        params,
    }
}

/// The statement that records a run.
pub const UPSERT_RUN: &'static str = "INSERT INTO runs (id, session_id, agent_id, mode, status, started_at, ended_at) VALUES (?1, ?2, ?3, ?4, ?5, ?6, ?7) ON CONFLICT(id) DO UPDATE SET session_id = excluded.session_id, agent_id = excluded.agent_id, mode = excluded.mode, status = excluded.status, started_at = excluded.started_at, ended_at = excluded.ended_at";

/// The statement that records a run.
pub fn upsert_run(
    id: &str,
    session_id: &str,
    agent_id: &str,
    mode: &str,
    status: &str,
    started_at: u128,
    ended_at: Option<u128>,
) -> (r: Statement)
    ensures
        r@ == (StatementView {
            sql: UPSERT_RUN@,
            params: seq![
                SqlView::Text(id@),
                SqlView::Text(session_id@),
                SqlView::Text(agent_id@),
                SqlView::Text(mode@),
                SqlView::Text(status@),
                SqlView::Int(time_value(started_at)),
                match ended_at {
                    Some(t) => SqlView::Int(time_value(t)),
                    None => SqlView::Null,
                },
            ],
        }),
{
    let mut params: Vec<SqlValue> = Vec::new();
    params.push(text(id));
    params.push(text(session_id));
    params.push(text(agent_id));
    params.push(text(mode));
    params.push(text(status));
    params.push(SqlValue::Int(to_i64_u128(started_at)));
    params.push(
        match ended_at {
            Some(t) => SqlValue::Int(to_i64_u128(t)),
            None => SqlValue::Null,
        },
    );
    assert(param_views(params@) =~= seq![
        SqlView::Text(id@),
        SqlView::Text(session_id@),
        SqlView::Text(agent_id@),
        SqlView::Text(mode@),
        SqlView::Text(status@),
        SqlView::Int(time_value(started_at)),
        match ended_at {
            Some(t) => SqlView::Int(time_value(t)),
            None => SqlView::Null,
        },
    ]);
    Statement {
        sql: UPSERT_RUN,
        params,
    }
}

/// An id that could lead out of its directory is refused, wherever the part stands by which
/// it could; an id of letters, digits, dashes and underscores is not.
pub proof fn ids_do_not_lead_out(a: Seq<char>, b: Seq<char>)
    ensures
        !valid_session_id(a + seq!['/'] + b),
        !valid_session_id(a + seq!['\\'] + b),
        !valid_session_id(a + seq!['.', '.'] + b),
        (forall|i: int|
            0 <= i < a.len() ==> {
                ||| 'a' <= #[trigger] a[i] <= 'z'
                ||| 'A' <= a[i] <= 'Z'
                ||| '0' <= a[i] <= '9'
                ||| a[i] == '-'
                ||| a[i] == '_'
            }) ==> valid_session_id(a),
{
    reveal_strlit("..");
    assert(".."@ =~= seq!['.', '.']);
    let n = a.len() as int;
    assert((a + seq!['/'] + b)[n] == '/');
    assert((a + seq!['\\'] + b)[n] == '\\');
    let d = a + seq!['.', '.'] + b;
    assert(d.subrange(n, n + 2) =~= ".."@);
    assert(occurs_at(d, ".."@, n));
    if has_text(a, ".."@) {
        let i = choose|i: int| occurs_at(a, ".."@, i);
        assert(a.subrange(i, i + 2)[0] == a[i]);
        assert(a[i] == '.');
    }
}

/// A value that is there is bound as it is, one that is not as null; a time that is too
/// large for the index as the largest that it holds.
pub proof fn values_are_bound_as_they_are(s: Seq<char>, n: i64, t: u128)
    ensures
        text_or_null(Some(s)) == SqlView::Text(s),
        text_or_null(None) == SqlView::Null,
        int_or_null(Some(n)) == SqlView::Int(n),
        int_or_null(None) == SqlView::Null,
        t <= i64::MAX ==> time_value(t) == t,
        t > i64::MAX ==> time_value(t) == i64::MAX,
{
}

/// Counts are summed each by itself, and nothing counts nothing.
pub proof fn counts_are_summed(a: IngestStats, b: IngestStats)
    requires
        can_sum(a, b),
    ensures
        stats_sum(a, b).events_inserted == a.events_inserted + b.events_inserted,
        stats_sum(a, b).stdin_lines_inserted == a.stdin_lines_inserted + b.stdin_lines_inserted,
        stats_sum(a, b).output_lines_inserted == a.output_lines_inserted + b.output_lines_inserted,
        stats_sum(a, b).file_edits_inserted == a.file_edits_inserted + b.file_edits_inserted,
        stats_sum(a, no_stats()) == a,
        stats_sum(no_stats(), b) == b,
{
}

} // verus!
