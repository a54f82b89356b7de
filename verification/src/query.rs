//! The questions that are put to the index.
use vstd::prelude::*;
use crate::index::{text, SqlValue, SqlView, Statement, StatementView};

verus! {

broadcast use vstd::string::group_string_axioms;

/// The latest input lines of a session, the last one first.
pub const LATEST_INPUTS: &'static str = "SELECT line_text FROM command_inputs WHERE session_id = ?1 ORDER BY id DESC LIMIT ?2";

/// The latest output lines of a session, the last one first.
pub const LATEST_OUTPUT: &'static str = "SELECT id, ts_ms, stream, line_text FROM pane_output WHERE session_id = ?1 ORDER BY id DESC LIMIT ?2";

/// The latest events of a session, the last one first.
pub const LATEST_EVENTS: &'static str = "SELECT ts_ms, kind, data_json FROM events WHERE session_id = ?1 ORDER BY id DESC LIMIT ?2";

/// The latest edits of a session, the last one first.
pub const LATEST_EDITS: &'static str = "SELECT id, ts_ms, path, write_mode FROM file_edits WHERE session_id = ?1 ORDER BY id DESC LIMIT ?2";

/// The notes of a session, the one that was touched last first.
pub const LATEST_ARTIFACTS: &'static str = "SELECT id, artifact_type, text, ts_ms FROM context_artifacts WHERE session_id = ?1 ORDER BY updated_at_ms DESC, id DESC LIMIT ?2";

/// All input lines of a session, in order.
pub const ALL_INPUTS: &'static str = "SELECT id, line_text FROM command_inputs WHERE session_id = ?1 ORDER BY id ASC";

/// All output lines of a session, in order.
pub const ALL_OUTPUT: &'static str = "SELECT id, stream, line_text FROM pane_output WHERE session_id = ?1 ORDER BY id ASC";

/// All edits of a session, in order.
pub const ALL_EDITS: &'static str = "SELECT id, path, write_mode, bytes FROM file_edits WHERE session_id = ?1 ORDER BY id ASC";

/// All events of a session, in order.
pub const ALL_EVENTS: &'static str = "SELECT id, ts_ms, kind, data_json FROM events WHERE session_id = ?1 ORDER BY id ASC";

/// How many typed lines, printed lines, events, edits and notes a question is
/// answered from.
pub const CONTEXT_COMMANDS: i64 = 250;

/// See `CONTEXT_COMMANDS`.
pub const CONTEXT_OUTPUT: i64 = 500;

/// See `CONTEXT_COMMANDS`.
pub const CONTEXT_EVENTS: i64 = 500;

/// See `CONTEXT_COMMANDS`.
pub const CONTEXT_EDITS: i64 = 60;

/// See `CONTEXT_COMMANDS`.
pub const CONTEXT_ARTIFACTS: i64 = 80;

/// How many events, typed lines and edits notes are drawn from.
pub const NOTED_EVENTS: i64 = 600;

/// See `NOTED_EVENTS`.
pub const NOTED_COMMANDS: i64 = 120;

/// See `NOTED_EVENTS`.
pub const NOTED_EDITS: i64 = 120;

/// A question about a session with a bound on the rows.
pub open spec fn limited(sql: Seq<char>, session_id: Seq<char>, limit: i64) -> StatementView {
    StatementView { sql, params: seq![SqlView::Text(session_id), SqlView::Int(limit)] }
}

/// A question about a session.
pub open spec fn unlimited(sql: Seq<char>, session_id: Seq<char>) -> StatementView {
    StatementView { sql, params: seq![SqlView::Text(session_id)] }
}

fn ask_limited(sql: &'static str, session_id: &str, limit: i64) -> (r: Statement)
    ensures
        r@ == limited(sql@, session_id@, limit),
{
    let mut params: Vec<SqlValue> = Vec::new();
    params.push(text(session_id));
    params.push(SqlValue::Int(limit));
    let statement = Statement { sql, params };
    assert(statement@ =~= limited(sql@, session_id@, limit));
    statement
}

fn ask_all(sql: &'static str, session_id: &str) -> (r: Statement)
    ensures
        r@ == unlimited(sql@, session_id@),
{
    let mut params: Vec<SqlValue> = Vec::new();
    params.push(text(session_id));
    let statement = Statement { sql, params };
    assert(statement@ =~= unlimited(sql@, session_id@));
    statement
}

/// The latest typed lines, newest first.
pub fn load_command_lines(session_id: &str, limit: i64) -> (r: Statement)
    ensures
        r@ == limited(LATEST_INPUTS@, session_id@, limit),
{
    ask_limited(LATEST_INPUTS, session_id, limit)
}

/// The latest printed lines, newest first.
pub fn load_output_lines(session_id: &str, limit: i64) -> (r: Statement)
    ensures
        r@ == limited(LATEST_OUTPUT@, session_id@, limit),
{
    ask_limited(LATEST_OUTPUT, session_id, limit)
}

/// The latest events, newest first.
pub fn load_events(session_id: &str, limit: i64) -> (r: Statement)
    ensures
        r@ == limited(LATEST_EVENTS@, session_id@, limit),
{
    ask_limited(LATEST_EVENTS, session_id, limit)
}

/// The latest edits, newest first.
pub fn load_file_edits(session_id: &str, limit: i64) -> (r: Statement)
    ensures
        r@ == limited(LATEST_EDITS@, session_id@, limit),
{
    ask_limited(LATEST_EDITS, session_id, limit)
}

/// The facts that were noted last, newest first.
pub fn load_artifacts(session_id: &str, limit: i64) -> (r: Statement)
    ensures
        r@ == limited(LATEST_ARTIFACTS@, session_id@, limit),
{
    ask_limited(LATEST_ARTIFACTS, session_id, limit)
}

/// All typed lines, oldest first.
pub fn all_inputs(session_id: &str) -> (r: Statement)
    ensures
        r@ == unlimited(ALL_INPUTS@, session_id@),
{
    ask_all(ALL_INPUTS, session_id)
}

/// All printed lines, oldest first.
pub fn all_output(session_id: &str) -> (r: Statement)
    ensures
        r@ == unlimited(ALL_OUTPUT@, session_id@),
{
    ask_all(ALL_OUTPUT, session_id)
}

/// All edits, oldest first.
pub fn all_edits(session_id: &str) -> (r: Statement)
    ensures
        r@ == unlimited(ALL_EDITS@, session_id@),
{
    ask_all(ALL_EDITS, session_id)
}

/// All events, oldest first.
pub fn all_events(session_id: &str) -> (r: Statement)
    ensures
        r@ == unlimited(ALL_EVENTS@, session_id@),
{
    ask_all(ALL_EVENTS, session_id)
}

/// A question is about the session that is asked for, and bound where a bound is given.
pub proof fn questions_are_about_their_session(sql: Seq<char>, session_id: Seq<char>, limit: i64)
    ensures
        limited(sql, session_id, limit).sql == sql,
        limited(sql, session_id, limit).params.len() == 2,
        limited(sql, session_id, limit).params[0] == SqlView::Text(session_id),
        limited(sql, session_id, limit).params[1] == SqlView::Int(limit),
        unlimited(sql, session_id).sql == sql,
        unlimited(sql, session_id).params.len() == 1,
        unlimited(sql, session_id).params[0] == SqlView::Text(session_id),
{
}

} // verus!
