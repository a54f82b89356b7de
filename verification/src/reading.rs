//! What reading the logs of a session does to the index, and that reading them
//! again changes nothing.
use vstd::prelude::*;
use crate::index::{no_stats, stats_sum, IngestStats, SqlView, StatementView};
use crate::ingest::{edit_row, event_row, event_stats, line_row, line_stats, Target};
use crate::json::json_of_text;
use crate::text::{blank, trimmed};

verus! {

broadcast use vstd::string::group_string_axioms;

// ---------------------------------------------------------------------------
// Rows
// ---------------------------------------------------------------------------

/// The rows that came from logs, each as the statement that added it.
#[verifier::ext_equal]
pub struct LogRows {
    pub inputs: Seq<StatementView>,
    pub outputs: Seq<StatementView>,
    pub events: Seq<StatementView>,
    pub edits: Seq<StatementView>,
}

/// Where the source of a typed line stands among the bound values; the number of
/// the line comes after it.
pub open spec fn input_source() -> int {
    2
}

/// Where the source of a printed line stands.
pub open spec fn output_source() -> int {
    3
}

/// Where the source of an event or of an edit stands.
pub open spec fn event_source() -> int {
    6
}

/// Whether a table has a row from this line of this source already. No table of
/// log rows has two of them, so `INSERT OR IGNORE` adds a row exactly if not.
pub open spec fn has_row(rows: Seq<StatementView>, at: int, source: Seq<char>, line_no: i64) -> bool {
    exists|i: int|
        0 <= i < rows.len() && (#[trigger] rows[i]).params[at] == SqlView::Text(source)
            && rows[i].params[at + 1] == SqlView::Int(line_no)
}

/// The rows after a row was offered, and whether it was added.
pub open spec fn offered(
    rows: Seq<StatementView>,
    at: int,
    source: Seq<char>,
    line_no: i64,
    row: StatementView,
) -> (Seq<StatementView>, bool) {
    if has_row(rows, at, source, line_no) {
        (rows, false)
    } else {
        (rows.push(row), true)
    }
}

// ---------------------------------------------------------------------------
// Reading
// ---------------------------------------------------------------------------

/// A log file: where its lines go, its path, and its lines.
pub struct LogFile {
    pub target: Target,
    pub source: Seq<char>,
    pub lines: Seq<Seq<char>>,
}

/// The rows after a line was read, and what it counts as. The edit that an event
/// starts is offered only where the event was added.
pub open spec fn line_read(
    st: LogRows,
    session_id: Seq<char>,
    target: Target,
    source: Seq<char>,
    line: Seq<char>,
    line_no: i64,
    now: i64,
) -> (LogRows, IngestStats) {
    match target {
        Target::Events => match json_of_text(trimmed(line)) {
            Some(event) if !blank(line) => {
                let row = event_row(event, Some(session_id), Some(source), Some(line_no), now);
                let (events, inserted) = offered(
                    st.events,
                    event_source(),
                    source,
                    line_no,
                    row,
                );
                let edit = edit_row(event, Some(session_id), Some(source), Some(line_no), now);
                if inserted && edit is Some {
                    let (edits, edited) = offered(
                        st.edits,
                        event_source(),
                        source,
                        line_no,
                        edit->Some_0,
                    );
                    (LogRows { events, edits, ..st }, event_stats(true, edited))
                } else {
                    (LogRows { events, ..st }, event_stats(inserted, false))
                }
            },
            _ => (st, no_stats()),
        },
        Target::CommandInputs => {
            let row = line_row(target, session_id, line, source, line_no, now)->Some_0;
            let (inputs, inserted) = offered(st.inputs, input_source(), source, line_no, row);
            (LogRows { inputs, ..st }, line_stats(target, inserted))
        },
        _ => {
            let row = line_row(target, session_id, line, source, line_no, now)->Some_0;
            let (outputs, inserted) = offered(st.outputs, output_source(), source, line_no, row);
            (LogRows { outputs, ..st }, line_stats(target, inserted))
        },
    }
}

/// The rows after the first `k` lines of a file were read, and what they count as.
/// The `i`-th line, counted from 1, is read at the time `clock(i)`.
pub open spec fn lines_read(
    st: LogRows,
    session_id: Seq<char>,
    file: LogFile,
    clock: spec_fn(int) -> i64,
    k: nat,
) -> (LogRows, IngestStats)
    decreases k,
{
    if k == 0 {
        (st, no_stats())
    } else {
        let (before, total) = lines_read(st, session_id, file, clock, (k - 1) as nat);
        let (after, more) = line_read(
            before,
            session_id,
            file.target,
            file.source,
            file.lines[k - 1],
            k as i64,
            clock(k as int),
        );
        (after, stats_sum(total, more))
    }
}

/// The rows after the first `k` files were read, and what they count as. The lines
/// of the `j`-th file are read by the clock `clocks(j)`.
pub open spec fn files_read(
    st: LogRows,
    session_id: Seq<char>,
    files: Seq<LogFile>,
    clocks: spec_fn(int) -> spec_fn(int) -> i64,
    k: nat,
) -> (LogRows, IngestStats)
    decreases k,
{
    if k == 0 {
        (st, no_stats())
    } else {
        let (before, total) = files_read(st, session_id, files, clocks, (k - 1) as nat);
        let file = files[k - 1];
        let (after, more) = lines_read(
            before,
            session_id,
            file,
            clocks(k - 1),
            file.lines.len(),
        );
        (after, stats_sum(total, more))
    }
}

// ---------------------------------------------------------------------------
// Reading again
// ---------------------------------------------------------------------------

/// Whether the row of a line is there, if the line makes one.
pub open spec fn line_known(
    st: LogRows,
    target: Target,
    source: Seq<char>,
    line: Seq<char>,
    line_no: i64,
) -> bool {
    match target {
        Target::Events => {
            ||| blank(line)
            ||| json_of_text(trimmed(line)) is None
            ||| has_row(st.events, event_source(), source, line_no)
        },
        Target::CommandInputs => has_row(st.inputs, input_source(), source, line_no),
        _ => has_row(st.outputs, output_source(), source, line_no),
    }
}

/// Whether the rows of the first `k` lines of a file are there.
pub open spec fn lines_known(st: LogRows, file: LogFile, k: nat) -> bool {
    forall|i: int|
        0 <= i < k ==> line_known(
            st,
            file.target,
            file.source,
            #[trigger] file.lines[i],
            (i + 1) as i64,
        )
}

/// Whether the rows of all lines of the files are there.
pub open spec fn files_known(st: LogRows, files: Seq<LogFile>) -> bool {
    forall|j: int|
        0 <= j < files.len() ==> lines_known(st, #[trigger] files[j], files[j].lines.len())
}

/// Every row of the one is a row of the other.
pub open spec fn grown(before: LogRows, after: LogRows) -> bool {
    &&& before.inputs.is_prefix_of(after.inputs)
    &&& before.outputs.is_prefix_of(after.outputs)
    &&& before.events.is_prefix_of(after.events)
    &&& before.edits.is_prefix_of(after.edits)
}

proof fn lemma_offered(
    rows: Seq<StatementView>,
    at: int,
    source: Seq<char>,
    line_no: i64,
    row: StatementView,
)
    requires
        row.params[at] == SqlView::Text(source),
        row.params[at + 1] == SqlView::Int(line_no),
    ensures
        rows.is_prefix_of(offered(rows, at, source, line_no, row).0),
        has_row(offered(rows, at, source, line_no, row).0, at, source, line_no),
{
    let after = offered(rows, at, source, line_no, row).0;
    if !has_row(rows, at, source, line_no) {
        assert(after[rows.len() as int] == row);
    }
}

proof fn lemma_has_row_grows(
    before: Seq<StatementView>,
    after: Seq<StatementView>,
    at: int,
    source: Seq<char>,
    line_no: i64,
)
    requires
        before.is_prefix_of(after),
        has_row(before, at, source, line_no),
    ensures
        has_row(after, at, source, line_no),
{
    let i = choose|i: int|
        0 <= i < before.len() && (#[trigger] before[i]).params[at] == SqlView::Text(source)
            && before[i].params[at + 1] == SqlView::Int(line_no);
    assert(after[i] == before[i]);
}

proof fn lemma_known_grows(before: LogRows, after: LogRows, file: LogFile, k: nat)
    requires
        grown(before, after),
        lines_known(before, file, k),
    ensures
        lines_known(after, file, k),
{
    assert forall|i: int| 0 <= i < k implies line_known(
        after,
        file.target,
        file.source,
        #[trigger] file.lines[i],
        (i + 1) as i64,
    ) by {
        let no = (i + 1) as i64;
        assert(line_known(before, file.target, file.source, file.lines[i], no));
        if has_row(before.events, event_source(), file.source, no) {
            lemma_has_row_grows(before.events, after.events, event_source(), file.source, no);
        }
        if has_row(before.inputs, input_source(), file.source, no) {
            lemma_has_row_grows(before.inputs, after.inputs, input_source(), file.source, no);
        }
        if has_row(before.outputs, output_source(), file.source, no) {
            lemma_has_row_grows(before.outputs, after.outputs, output_source(), file.source, no);
        }
    }
}

proof fn lemma_line_read(
    st: LogRows,
    session_id: Seq<char>,
    target: Target,
    source: Seq<char>,
    line: Seq<char>,
    line_no: i64,
    now: i64,
)
    ensures
        ({
            let after = line_read(st, session_id, target, source, line, line_no, now).0;
            grown(st, after) && line_known(after, target, source, line, line_no)
        }),
{
    match target {
        Target::Events => {
            if !blank(line) && json_of_text(trimmed(line)) is Some {
                let event = json_of_text(trimmed(line))->Some_0;
                let row = event_row(event, Some(session_id), Some(source), Some(line_no), now);
                lemma_offered(st.events, event_source(), source, line_no, row);
                let edit = edit_row(event, Some(session_id), Some(source), Some(line_no), now);
                if edit is Some {
                    lemma_offered(st.edits, event_source(), source, line_no, edit->Some_0);
                }
            }
        },
        Target::CommandInputs => {
            let row = line_row(target, session_id, line, source, line_no, now)->Some_0;
            lemma_offered(st.inputs, input_source(), source, line_no, row);
        },
        _ => {
            let row = line_row(target, session_id, line, source, line_no, now)->Some_0;
            lemma_offered(st.outputs, output_source(), source, line_no, row);
        },
    }
}

proof fn lemma_grown_on(a: LogRows, b: LogRows, c: LogRows)
    requires
        grown(a, b),
        grown(b, c),
    ensures
        grown(a, c),
{
    assert forall|x: Seq<StatementView>, y: Seq<StatementView>, z: Seq<StatementView>|
        #[trigger] x.is_prefix_of(y) && #[trigger] y.is_prefix_of(z) implies x.is_prefix_of(z) by {
        assert(z.subrange(0, x.len() as int) =~= y.subrange(0, x.len() as int));
    }
}

proof fn lemma_lines_read(
    st: LogRows,
    session_id: Seq<char>,
    file: LogFile,
    clock: spec_fn(int) -> i64,
    k: nat,
)
    ensures
        ({
            let after = lines_read(st, session_id, file, clock, k).0;
            grown(st, after) && lines_known(after, file, k)
        }),
    decreases k,
{
    if k > 0 {
        let m = (k - 1) as nat;
        lemma_lines_read(st, session_id, file, clock, m);
        let before = lines_read(st, session_id, file, clock, m).0;
        let after = lines_read(st, session_id, file, clock, k).0;
        lemma_line_read(
            before,
            session_id,
            file.target,
            file.source,
            file.lines[k - 1],
            k as i64,
            clock(k as int),
        );
        lemma_grown_on(st, before, after);
        lemma_known_grows(before, after, file, m);
    }
}

proof fn lemma_files_read(
    st: LogRows,
    session_id: Seq<char>,
    files: Seq<LogFile>,
    clocks: spec_fn(int) -> spec_fn(int) -> i64,
    k: nat,
)
    requires
        k <= files.len(),
    ensures
        ({
            let after = files_read(st, session_id, files, clocks, k).0;
            grown(st, after) && files_known(after, files.take(k as int))
        }),
    decreases k,
{
    if k > 0 {
        let m = (k - 1) as nat;
        lemma_files_read(st, session_id, files, clocks, m);
        let before = files_read(st, session_id, files, clocks, m).0;
        let after = files_read(st, session_id, files, clocks, k).0;
        let file = files[k - 1];
        lemma_lines_read(before, session_id, file, clocks(k - 1), file.lines.len());
        lemma_grown_on(st, before, after);
        let some = files.take(k as int);
        assert forall|j: int| 0 <= j < some.len() implies lines_known(
            after,
            #[trigger] some[j],
            some[j].lines.len(),
        ) by {
            if j < m {
                assert(files.take(m as int)[j] == some[j]);
                lemma_known_grows(before, after, some[j], some[j].lines.len());
            }
        }
    }
}

proof fn lemma_known_lines_change_nothing(
    st: LogRows,
    session_id: Seq<char>,
    file: LogFile,
    clock: spec_fn(int) -> i64,
    k: nat,
)
    requires
        lines_known(st, file, k),
    ensures
        lines_read(st, session_id, file, clock, k) == (st, no_stats()),
    decreases k,
{
    if k > 0 {
        let m = (k - 1) as nat;
        assert(lines_known(st, file, m));
        lemma_known_lines_change_nothing(st, session_id, file, clock, m);
        assert(line_known(st, file.target, file.source, file.lines[k - 1], k as i64));
        assert(line_read(
            st,
            session_id,
            file.target,
            file.source,
            file.lines[k - 1],
            k as i64,
            clock(k as int),
        ) == (st, no_stats()));
    }
}

/// Where the rows of all lines are there, reading the logs adds no row and counts
/// nothing, whatever else the index holds and whatever time it is.
pub proof fn known_logs_change_nothing(
    st: LogRows,
    session_id: Seq<char>,
    files: Seq<LogFile>,
    clocks: spec_fn(int) -> spec_fn(int) -> i64,
    k: nat,
)
    requires
        k <= files.len(),
        files_known(st, files),
    ensures
        files_read(st, session_id, files, clocks, k) == (st, no_stats()),
    decreases k,
{
    if k > 0 {
        known_logs_change_nothing(st, session_id, files, clocks, (k - 1) as nat);
        let file = files[k - 1];
        lemma_known_lines_change_nothing(
            st,
            session_id,
            file,
            clocks(k - 1),
            file.lines.len(),
        );
    }
}

/// Logs that have not changed since they were read are read again without effect:
/// every row stays as it is, none is added, and all counts are 0. The index may
/// have grown in between, and the time does not matter.
pub proof fn unchanged_logs_add_nothing(
    st: LogRows,
    session_id: Seq<char>,
    files: Seq<LogFile>,
    clocks: spec_fn(int) -> spec_fn(int) -> i64,
    since: LogRows,
    later: spec_fn(int) -> spec_fn(int) -> i64,
)
    requires
        grown(files_read(st, session_id, files, clocks, files.len()).0, since),
    ensures
        files_read(since, session_id, files, later, files.len()) == (since, no_stats()),
{
    lemma_files_read(st, session_id, files, clocks, files.len());
    assert(files.take(files.len() as int) =~= files);
    let after = files_read(st, session_id, files, clocks, files.len()).0;
    assert forall|j: int| 0 <= j < files.len() implies lines_known(
        since,
        #[trigger] files[j],
        files[j].lines.len(),
    ) by {
        lemma_known_grows(after, since, files[j], files[j].lines.len());
    }
    known_logs_change_nothing(since, session_id, files, later, files.len());
}

} // verus!
