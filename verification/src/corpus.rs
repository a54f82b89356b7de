//! The material that a model selects context from: the last lines of each
//! stream, and everything older in chunks of limited size.
use vstd::prelude::*;
use crate::budget::{
    chunk_pushed, chunk_state, chunk_text, chunks_keep_lines, chunks_open, chunks_stay_open, chunks_stay_small,
    clipped, cuts_are_marked, push_chunk_line, truncate_line, ChunkState,
};
use crate::index::{is_valid_session_id, valid_session_id};
use crate::text::{
    all_white, blank, blank_texts_are_white, int_to_string, is_blank, joined, lemma_strs_push,
    opt_text, push_text, same, signed_decimal, strs, text_or, trim_back, trim_end, trimmed, white,
};

verus! {

broadcast use vstd::string::group_string_axioms;

/// What a model gets to choose from.
#[derive(Debug)]
pub struct LlmSelectionCorpus {
    pub session_id: String,
    pub last_stdin: Vec<String>,
    pub last_stdout: Vec<String>,
    pub last_stderr: Vec<String>,
    pub old_context_chunks: Vec<String>,
    pub total_old_lines: usize,
    pub truncated: bool,
}

/// Sizes of the chunks, and whether events are listed.
#[derive(Clone, Copy, Debug)]
pub struct BuildLlmSelectionCorpusOptions {
    pub chunk_chars: usize,
    pub max_chunks: usize,
    pub include_events: bool,
}

impl Default for BuildLlmSelectionCorpusOptions {
    fn default() -> (r: Self)
        ensures
            r.chunk_chars == 512_000,
            r.max_chunks == 16,
            r.include_events,
    {
        BuildLlmSelectionCorpusOptions {
            chunk_chars: 512_000,
            max_chunks: 16,
            include_events: true,
        }
    }
}

/// A line that was typed.
#[derive(Debug)]
pub struct InputRow {
    pub id: i64,
    pub line: String,
}

/// A line that was printed, and where.
#[derive(Debug)]
pub struct StreamRow {
    pub id: i64,
    pub stream: String,
    pub line: String,
}

/// A file that was written.
#[derive(Debug)]
pub struct EditRow {
    pub id: i64,
    pub path: Option<String>,
    pub mode: Option<String>,
    pub bytes: Option<i64>,
}

/// A recorded event with its data as a JSON document.
#[derive(Debug)]
pub struct EventRow {
    pub id: i64,
    pub ts_ms: Option<i64>,
    pub kind: String,
    pub data_json: String,
}

/// What is on record of a session: all its rows, oldest first.
#[derive(Debug)]
pub struct CorpusRows {
    pub inputs: Vec<InputRow>,
    pub outputs: Vec<StreamRow>,
    pub edits: Vec<EditRow>,
    pub events: Vec<EventRow>,
}

// ---------------------------------------------------------------------------
// Rows as lines
// ---------------------------------------------------------------------------

/// An input line, with its number in the index.
pub open spec fn input_line(row: InputRow) -> Seq<char> {
    "[stdin#"@ + signed_decimal(row.id as int) + "] "@ + trim_back(row.line@)
}

/// An output line, with its stream and number.
pub open spec fn stream_line(row: StreamRow) -> Seq<char> {
    "["@ + row.stream@ + "#"@ + signed_decimal(row.id as int) + "] "@ + trim_back(row.line@)
}

/// An edit: which file, in what way, and how many bytes.
pub open spec fn edit_line(row: EditRow) -> Seq<char> {
    "[edit#"@ + signed_decimal(row.id as int) + "] path="@ + text_or(
        opt_text(row.path),
        "<unknown>"@,
    ) + " mode="@ + text_or(opt_text(row.mode), "unknown"@) + " bytes="@ + signed_decimal(
        match row.bytes {
            Some(n) => n as int,
            None => 0,
        },
    )
}

/// An event: its time, its kind and the start of its data.
pub open spec fn event_line(row: EventRow) -> Seq<char> {
    "[event#"@ + signed_decimal(row.id as int) + " ts="@ + (match row.ts_ms {
        Some(n) => signed_decimal(n as int),
        None => "null"@,
    }) + "] "@ + row.kind@ + " "@ + clipped(row.data_json@, 360)
}

fn input_text(row: &InputRow) -> (r: String)
    ensures
        r@ == input_line(*row),
{
    let mut s = "[stdin#".to_string();
    push_text(&mut s, int_to_string(row.id).as_str());
    push_text(&mut s, "] ");
    push_text(&mut s, trim_end(row.line.as_str()).as_str());
    s
}

fn stream_text(row: &StreamRow) -> (r: String)
    ensures
        r@ == stream_line(*row),
{
    let mut s = "[".to_string();
    push_text(&mut s, row.stream.as_str());
    push_text(&mut s, "#");
    push_text(&mut s, int_to_string(row.id).as_str());
    push_text(&mut s, "] ");
    push_text(&mut s, trim_end(row.line.as_str()).as_str());
    s
}

fn edit_text(row: &EditRow) -> (r: String)
    ensures
        r@ == edit_line(*row),
{
    let mut s = "[edit#".to_string();
    push_text(&mut s, int_to_string(row.id).as_str());
    push_text(&mut s, "] path=");
    match &row.path {
        Some(path) => push_text(&mut s, path.as_str()),
        None => push_text(&mut s, "<unknown>"),
    }
    push_text(&mut s, " mode=");
    match &row.mode {
        Some(mode) => push_text(&mut s, mode.as_str()),
        None => push_text(&mut s, "unknown"),
    }
    push_text(&mut s, " bytes=");
    let bytes: i64 = match row.bytes {
        Some(n) => n,
        None => 0,
    };
    push_text(&mut s, int_to_string(bytes).as_str());
    s
}

fn event_text(row: &EventRow) -> (r: String)
    ensures
        r@ == event_line(*row),
{
    let mut s = "[event#".to_string();
    push_text(&mut s, int_to_string(row.id).as_str());
    push_text(&mut s, " ts=");
    match row.ts_ms {
        Some(n) => push_text(&mut s, int_to_string(n).as_str()),
        None => push_text(&mut s, "null"),
    }
    push_text(&mut s, "] ");
    push_text(&mut s, row.kind.as_str());
    push_text(&mut s, " ");
    push_text(&mut s, truncate_line(row.data_json.as_str(), 360).as_str());
    s
}

/// The lines of all typed rows.
pub open spec fn input_lines(rows: Seq<InputRow>) -> Seq<Seq<char>> {
    Seq::new(rows.len(), |i: int| input_line(rows[i]))
}

/// The lines of all printed rows.
pub open spec fn stream_lines(rows: Seq<StreamRow>) -> Seq<Seq<char>> {
    Seq::new(rows.len(), |i: int| stream_line(rows[i]))
}

/// The lines of all edits.
pub open spec fn edit_lines(rows: Seq<EditRow>) -> Seq<Seq<char>> {
    Seq::new(rows.len(), |i: int| edit_line(rows[i]))
}

/// The lines of all events.
pub open spec fn event_lines(rows: Seq<EventRow>) -> Seq<Seq<char>> {
    Seq::new(rows.len(), |i: int| event_line(rows[i]))
}

fn input_texts(rows: &Vec<InputRow>) -> (r: Vec<String>)
    ensures
        strs(r@) == input_lines(rows@),
{
    let mut out: Vec<String> = Vec::new();
    let mut i: usize = 0;
    while i < rows.len()
        invariant
            i <= rows@.len(),
            strs(out@) == input_lines(rows@).take(i as int),
        decreases rows@.len() - i,
    {
        let s = input_text(&rows[i]);
        proof {
            lemma_strs_push(out@, s);
            assert(input_lines(rows@).take(i + 1) =~= input_lines(rows@).take(i as int).push(s@));
        }
        out.push(s);
        i = i + 1;
    }
    assert(input_lines(rows@).take(i as int) =~= input_lines(rows@));
    out
}

fn stream_texts(rows: &Vec<StreamRow>) -> (r: Vec<String>)
    ensures
        strs(r@) == stream_lines(rows@),
{
    let mut out: Vec<String> = Vec::new();
    let mut i: usize = 0;
    while i < rows.len()
        invariant
            i <= rows@.len(),
            strs(out@) == stream_lines(rows@).take(i as int),
        decreases rows@.len() - i,
    {
        let s = stream_text(&rows[i]);
        proof {
            lemma_strs_push(out@, s);
            assert(stream_lines(rows@).take(i + 1) =~= stream_lines(rows@).take(i as int).push(s@));
        }
        out.push(s);
        i = i + 1;
    }
    assert(stream_lines(rows@).take(i as int) =~= stream_lines(rows@));
    out
}

fn edit_texts(rows: &Vec<EditRow>) -> (r: Vec<String>)
    ensures
        strs(r@) == edit_lines(rows@),
{
    let mut out: Vec<String> = Vec::new();
    let mut i: usize = 0;
    while i < rows.len()
        invariant
            i <= rows@.len(),
            strs(out@) == edit_lines(rows@).take(i as int),
        decreases rows@.len() - i,
    {
        let s = edit_text(&rows[i]);
        proof {
            lemma_strs_push(out@, s);
            assert(edit_lines(rows@).take(i + 1) =~= edit_lines(rows@).take(i as int).push(s@));
        }
        out.push(s);
        i = i + 1;
    }
    assert(edit_lines(rows@).take(i as int) =~= edit_lines(rows@));
    out
}

fn event_texts(rows: &Vec<EventRow>) -> (r: Vec<String>)
    ensures
        strs(r@) == event_lines(rows@),
{
    let mut out: Vec<String> = Vec::new();
    let mut i: usize = 0;
    while i < rows.len()
        invariant
            i <= rows@.len(),
            strs(out@) == event_lines(rows@).take(i as int),
        decreases rows@.len() - i,
    {
        let s = event_text(&rows[i]);
        proof {
            lemma_strs_push(out@, s);
            assert(event_lines(rows@).take(i + 1) =~= event_lines(rows@).take(i as int).push(s@));
        }
        out.push(s);
        i = i + 1;
    }
    assert(event_lines(rows@).take(i as int) =~= event_lines(rows@));
    out
}

// ---------------------------------------------------------------------------
// Sections
// ---------------------------------------------------------------------------

/// The state after lines were offered one after the other until there was no
/// room, and how many were offered.
pub open spec fn lines_pushed(
    st: ChunkState,
    lines: Seq<Seq<char>>,
    chunk_chars: nat,
    max_chunks: nat,
) -> (ChunkState, nat)
    decreases lines.len(),
{
    if lines.len() == 0 {
        (st, 0)
    } else {
        let (next, more) = chunk_pushed(st, lines[0], chunk_chars, max_chunks);
        if more {
            let (last, n) = lines_pushed(next, lines.skip(1), chunk_chars, max_chunks);
            (last, n + 1)
        } else {
            (next, 1)
        }
    }
}

/// The state after a section, its heading first, and how many of its lines were
/// offered: none where there is no room for the heading. Nothing happens once
/// lines were left out.
pub open spec fn section_pushed(
    st: ChunkState,
    heading: Seq<char>,
    lines: Seq<Seq<char>>,
    chunk_chars: nat,
    max_chunks: nat,
) -> (ChunkState, nat) {
    if st.truncated {
        (st, 0)
    } else {
        let (next, more) = chunk_pushed(st, heading, chunk_chars, max_chunks);
        if more {
            lines_pushed(next, lines, chunk_chars, max_chunks)
        } else {
            (next, 0)
        }
    }
}

fn push_section(
    chunks: &mut Vec<String>,
    current: &mut String,
    truncated: &mut bool,
    heading: &str,
    lines: &Vec<String>,
    chunk_chars: usize,
    max_chunks: usize,
) -> (r: usize)
    ensures
        (chunk_state(final(chunks)@, final(current)@, *final(truncated)), r as nat)
            == section_pushed(
            chunk_state(old(chunks)@, old(current)@, *old(truncated)),
            heading@,
            strs(lines@),
            chunk_chars as nat,
            max_chunks as nat,
        ),
        r <= lines@.len(),
{
    if *truncated {
        return 0;
    }
    if !push_chunk_line(chunks, current, heading, chunk_chars, max_chunks, truncated) {
        return 0;
    }
    let ghost first = chunk_state(chunks@, current@, *truncated);
    let ghost all = strs(lines@);
    let ghost whole = lines_pushed(first, all, chunk_chars as nat, max_chunks as nat);
    let mut i: usize = 0;
    let mut more = true;
    assert(all.skip(0) =~= all);
    while i < lines.len() && more
        invariant
            all == strs(lines@),
            i <= lines@.len(),
            more ==> ({
                let rest = lines_pushed(
                    chunk_state(chunks@, current@, *truncated),
                    all.skip(i as int),
                    chunk_chars as nat,
                    max_chunks as nat,
                );
                whole == (rest.0, i as nat + rest.1)
            }),
            !more ==> whole == (chunk_state(chunks@, current@, *truncated), i as nat),
        decreases lines@.len() - i,
    {
        assert(all.skip(i as int)[0] == lines@[i as int]@);
        assert(all.skip(i as int).skip(1) =~= all.skip(i + 1));
        more = push_chunk_line(
            chunks,
            current,
            lines[i].as_str(),
            chunk_chars,
            max_chunks,
            truncated,
        );
        i = i + 1;
    }
    i
}

/// The size of chunks that the options give.
pub open spec fn chunk_size(options: BuildLlmSelectionCorpusOptions) -> nat {
    if options.chunk_chars < 64 {
        64
    } else {
        options.chunk_chars as nat
    }
}

/// The number of chunks that the options give.
pub open spec fn chunk_limit(options: BuildLlmSelectionCorpusOptions) -> nat {
    if options.max_chunks < 1 {
        1
    } else {
        options.max_chunks as nat
    }
}

/// The state when all sections are through, and how many rows were offered.
pub open spec fn corpus_state(rows: CorpusRows, options: BuildLlmSelectionCorpusOptions) -> (
    ChunkState,
    nat,
) {
    let size = chunk_size(options);
    let most = chunk_limit(options);
    let st = ChunkState { chunks: Seq::empty(), current: Seq::empty(), truncated: false };
    let (st1, n1) = section_pushed(
        st,
        "### COMMAND_INPUTS"@,
        input_lines(rows.inputs@),
        size,
        most,
    );
    let (st2, n2) = section_pushed(
        st1,
        "### PANE_OUTPUT"@,
        stream_lines(rows.outputs@),
        size,
        most,
    );
    let (st3, n3) = section_pushed(st2, "### FILE_EDITS"@, edit_lines(rows.edits@), size, most);
    if options.include_events {
        let (st4, n4) = section_pushed(st3, "### EVENTS"@, event_lines(rows.events@), size, most);
        (st4, n1 + n2 + n3 + n4)
    } else {
        (st3, n1 + n2 + n3)
    }
}

/// All chunks, the open one too where it holds anything.
pub open spec fn closed_chunks(st: ChunkState) -> Seq<Seq<char>> {
    if blank(st.current) {
        st.chunks
    } else {
        st.chunks.push(st.current)
    }
}

// ---------------------------------------------------------------------------
// The last lines
// ---------------------------------------------------------------------------

/// How many of the last typed lines are carried along.
pub const LAST_TYPED: usize = 4;

/// How many of the last lines of an output stream are carried along.
pub const LAST_PRINTED: usize = 8;

/// The last `n` of a sequence, or all of it where it has no more.
pub open spec fn last_of(s: Seq<Seq<char>>, n: nat) -> Seq<Seq<char>> {
    if s.len() <= n {
        s
    } else {
        s.skip(s.len() - n)
    }
}

/// The typed lines as they are.
pub open spec fn typed(rows: Seq<InputRow>) -> Seq<Seq<char>> {
    Seq::new(rows.len(), |i: int| rows[i].line@)
}

/// The lines of one stream as they are, in order.
pub open spec fn printed(rows: Seq<StreamRow>, stream: Seq<char>) -> Seq<Seq<char>>
    decreases rows.len(),
{
    if rows.len() == 0 {
        Seq::empty()
    } else {
        let before = printed(rows.drop_last(), stream);
        if rows.last().stream@ == stream {
            before.push(rows.last().line@)
        } else {
            before
        }
    }
}

/// The last typed lines, oldest first.
pub fn load_recent_input_lines(rows: &Vec<InputRow>, limit: usize) -> (r: Vec<String>)
    ensures
        strs(r@) == last_of(typed(rows@), limit as nat),
{
    let start: usize = if rows.len() <= limit { 0 } else { rows.len() - limit };
    let ghost goal = last_of(typed(rows@), limit as nat);
    let mut out: Vec<String> = Vec::new();
    let mut i: usize = start;
    while i < rows.len()
        invariant
            start <= i <= rows@.len(),
            goal == last_of(typed(rows@), limit as nat),
            start == if rows@.len() <= limit { 0 } else { rows@.len() - limit },
            strs(out@) == goal.take(i - start),
        decreases rows@.len() - i,
    {
        let line = rows[i].line.clone();
        proof {
            lemma_strs_push(out@, line);
            assert(goal.take(i + 1 - start) =~= goal.take(i - start).push(line@));
        }
        out.push(line);
        i = i + 1;
    }
    assert(goal.take(i - start) =~= goal);
    out
}

/// The last lines of a stream, oldest first.
pub fn load_recent_output_lines_for_stream(
    rows: &Vec<StreamRow>,
    stream: &str,
    limit: usize,
) -> (r: Vec<String>)
    ensures
        strs(r@) == last_of(printed(rows@, stream@), limit as nat),
{
    let mut all: Vec<String> = Vec::new();
    let mut i: usize = 0;
    assert(strs(all@) =~= printed(rows@.take(0), stream@));
    while i < rows.len()
        invariant
            i <= rows@.len(),
            strs(all@) == printed(rows@.take(i as int), stream@),
        decreases rows@.len() - i,
    {
        assert(rows@.take(i + 1).drop_last() =~= rows@.take(i as int));
        assert(rows@.take(i + 1).last() == rows@[i as int]);
        if same(rows[i].stream.as_str(), stream) {
            let line = rows[i].line.clone();
            proof {
                lemma_strs_push(all@, line);
            }
            all.push(line);
        }
        i = i + 1;
    }
    assert(rows@.take(i as int) =~= rows@);
    assert(strs(all@).len() == all@.len());
    if all.len() <= limit {
        return all;
    }
    let start: usize = all.len() - limit;
    let out = all.split_off(start);
    assert(strs(out@) =~= last_of(printed(rows@, stream@), limit as nat));
    out
}

// ---------------------------------------------------------------------------
// The whole
// ---------------------------------------------------------------------------

/// Builds the material for a session out of what is on record.
///
/// An id that could leave the log directory is refused.
pub fn build_llm_selection_corpus(
    session_id: &str,
    options: BuildLlmSelectionCorpusOptions,
    rows: CorpusRows,
) -> (r: Result<LlmSelectionCorpus, String>)
    requires
        rows.inputs@.len() + rows.outputs@.len() + rows.edits@.len() + rows.events@.len()
            <= usize::MAX,
    ensures
        match r {
            Ok(c) => {
                &&& valid_session_id(session_id@)
                &&& c.session_id@ == session_id@
                &&& strs(c.last_stdin@) == last_of(typed(rows.inputs@), LAST_TYPED as nat)
                &&& strs(c.last_stdout@) == last_of(
                    printed(rows.outputs@, "stdout"@),
                    LAST_PRINTED as nat,
                )
                &&& strs(c.last_stderr@) == last_of(
                    printed(rows.outputs@, "stderr"@),
                    LAST_PRINTED as nat,
                )
                &&& strs(c.old_context_chunks@) == closed_chunks(corpus_state(rows, options).0)
                &&& c.total_old_lines == corpus_state(rows, options).1
                &&& c.truncated == corpus_state(rows, options).0.truncated
                &&& c.old_context_chunks@.len() <= chunk_limit(options)
            },
            Err(e) => !valid_session_id(session_id@) && e@ == "invalid session_id"@,
        },
{
    if !is_valid_session_id(session_id) {
        return Err("invalid session_id".to_string());
    }
    let last_stdin = load_recent_input_lines(&rows.inputs, LAST_TYPED);
    let last_stdout = load_recent_output_lines_for_stream(&rows.outputs, "stdout", LAST_PRINTED);
    let last_stderr = load_recent_output_lines_for_stream(&rows.outputs, "stderr", LAST_PRINTED);
    let size: usize = if options.chunk_chars < 64 { 64 } else { options.chunk_chars };
    let most: usize = if options.max_chunks < 1 { 1 } else { options.max_chunks };
    let mut chunks: Vec<String> = Vec::new();
    let mut current = String::new();
    let mut truncated = false;
    assert(strs(chunks@) =~= Seq::empty());
    assert(current@ =~= Seq::empty());
    let lines = input_texts(&rows.inputs);
    let mut count: usize = push_section(
        &mut chunks,
        &mut current,
        &mut truncated,
        "### COMMAND_INPUTS",
        &lines,
        size,
        most,
    );
    assert(strs(lines@).len() == rows.inputs@.len());
    let lines = stream_texts(&rows.outputs);
    assert(strs(lines@).len() == rows.outputs@.len());
    let n: usize = push_section(
        &mut chunks,
        &mut current,
        &mut truncated,
        "### PANE_OUTPUT",
        &lines,
        size,
        most,
    );
    count = count + n;
    let lines = edit_texts(&rows.edits);
    assert(strs(lines@).len() == rows.edits@.len());
    let n: usize = push_section(
        &mut chunks,
        &mut current,
        &mut truncated,
        "### FILE_EDITS",
        &lines,
        size,
        most,
    );
    count = count + n;
    if options.include_events {
        let lines = event_texts(&rows.events);
        assert(strs(lines@).len() == rows.events@.len());
        let n: usize = push_section(
            &mut chunks,
            &mut current,
            &mut truncated,
            "### EVENTS",
            &lines,
            size,
            most,
        );
        count = count + n;
    }
    if !is_blank(current.as_str()) {
        proof {
            lemma_strs_push(chunks@, current);
        }
        chunks.push(current);
    }
    proof {
        corpus_chunk_count(rows, options);
        assert(strs(chunks@).len() == chunks@.len());
    }
    Ok(
        LlmSelectionCorpus {
            session_id: session_id.to_string(),
            last_stdin,
            last_stdout,
            last_stderr,
            old_context_chunks: chunks,
            total_old_lines: count,
            truncated,
        },
    )
}

// ---------------------------------------------------------------------------
// What holds of every corpus
// ---------------------------------------------------------------------------

proof fn lemma_lines_open(st: ChunkState, lines: Seq<Seq<char>>, size: nat, most: nat)
    requires
        chunks_open(st),
        st.chunks.len() < most,
        size >= 64,
    ensures
        ({
            let (out, n) = lines_pushed(st, lines, size, most);
            &&& n <= lines.len()
            &&& !out.truncated ==> chunks_open(out) && out.chunks.len() < most && n == lines.len()
            &&& out.truncated ==> out.chunks.len() <= most && out.current.len() == 0
        }),
    decreases lines.len(),
{
    if lines.len() > 0 {
        chunks_stay_open(st, lines[0], size, most);
        let (next, more) = chunk_pushed(st, lines[0], size, most);
        if more {
            lemma_lines_open(next, lines.skip(1), size, most);
        }
    }
}

/// What holds after a section if it held before.
spec fn sound(st: ChunkState, most: nat) -> bool {
    &&& !st.truncated ==> chunks_open(st) && st.chunks.len() < most
    &&& st.truncated ==> st.chunks.len() <= most && st.current.len() == 0
}

proof fn lemma_section_sound(
    st: ChunkState,
    heading: Seq<char>,
    lines: Seq<Seq<char>>,
    size: nat,
    most: nat,
)
    requires
        sound(st, most),
        size >= 64,
    ensures
        ({
            let (out, n) = section_pushed(st, heading, lines, size, most);
            &&& sound(out, most)
            &&& n <= lines.len()
            &&& !out.truncated ==> !st.truncated && n == lines.len()
        }),
{
    if !st.truncated {
        chunks_stay_open(st, heading, size, most);
        let (next, more) = chunk_pushed(st, heading, size, most);
        if more {
            lemma_lines_open(next, lines, size, most);
        }
    }
}

/// A corpus has no more chunks than asked for (at least one). No row is counted
/// twice, and where nothing was left out every row was counted.
pub proof fn corpus_chunk_count(rows: CorpusRows, options: BuildLlmSelectionCorpusOptions)
    ensures
        ({
            let (st, n) = corpus_state(rows, options);
            let all = rows.inputs@.len() + rows.outputs@.len() + rows.edits@.len()
                + if options.include_events {
                rows.events@.len()
            } else {
                0
            };
            &&& closed_chunks(st).len() <= chunk_limit(options)
            &&& n <= all
            &&& !st.truncated ==> n == all
        }),
{
    let size = chunk_size(options);
    let most = chunk_limit(options);
    let st = ChunkState { chunks: Seq::empty(), current: Seq::empty(), truncated: false };
    lemma_section_sound(st, "### COMMAND_INPUTS"@, input_lines(rows.inputs@), size, most);
    let st1 = section_pushed(st, "### COMMAND_INPUTS"@, input_lines(rows.inputs@), size, most).0;
    lemma_section_sound(st1, "### PANE_OUTPUT"@, stream_lines(rows.outputs@), size, most);
    let st2 = section_pushed(st1, "### PANE_OUTPUT"@, stream_lines(rows.outputs@), size, most).0;
    lemma_section_sound(st2, "### FILE_EDITS"@, edit_lines(rows.edits@), size, most);
    let st3 = section_pushed(st2, "### FILE_EDITS"@, edit_lines(rows.edits@), size, most).0;
    lemma_section_sound(st3, "### EVENTS"@, event_lines(rows.events@), size, most);
    let st = corpus_state(rows, options).0;
    if !blank(st.current) {
        assert(st.current.len() > 0);
    }
}

/// Every line of a section fits into a chunk.
pub open spec fn short(lines: Seq<Seq<char>>, size: nat) -> bool {
    forall|i: int| 0 <= i < lines.len() ==> trim_back(#[trigger] lines[i]).len() <= size
}

/// No chunk is larger than the size, and what stands in the open chunk is no
/// white space alone.
pub open spec fn chunks_small(st: ChunkState, size: nat) -> bool {
    &&& st.current.len() <= size
    &&& st.current.len() > 0 ==> !blank(st.current)
    &&& forall|i: int| 0 <= i < st.chunks.len() ==> (#[trigger] st.chunks[i]).len() <= size
}

proof fn lemma_lines_small(st: ChunkState, lines: Seq<Seq<char>>, size: nat, most: nat)
    requires
        chunks_small(st, size),
        short(lines, size),
    ensures
        chunks_small(lines_pushed(st, lines, size, most).0, size),
    decreases lines.len(),
{
    if lines.len() > 0 {
        assert(trim_back(lines[0]).len() <= size);
        chunks_stay_small(st, lines[0], size, most);
        let (next, more) = chunk_pushed(st, lines[0], size, most);
        if more {
            assert(short(lines.skip(1), size)) by {
                assert forall|i: int| 0 <= i < lines.skip(1).len() implies trim_back(
                    #[trigger] lines.skip(1)[i],
                ).len() <= size by {
                    assert(lines.skip(1)[i] == lines[i + 1]);
                }
            }
            lemma_lines_small(next, lines.skip(1), size, most);
        }
    }
}

proof fn lemma_section_small(
    st: ChunkState,
    heading: Seq<char>,
    lines: Seq<Seq<char>>,
    size: nat,
    most: nat,
)
    requires
        chunks_small(st, size),
        short(lines, size),
        trim_back(heading).len() <= size,
    ensures
        chunks_small(section_pushed(st, heading, lines, size, most).0, size),
{
    if !st.truncated {
        chunks_stay_small(st, heading, size, most);
        let (next, more) = chunk_pushed(st, heading, size, most);
        if more {
            lemma_lines_small(next, lines, size, most);
        }
    }
}

/// Where every row that is listed fits into a chunk, no chunk is larger than its
/// size.
pub proof fn corpus_chunk_size(rows: CorpusRows, options: BuildLlmSelectionCorpusOptions)
    requires
        short(input_lines(rows.inputs@), chunk_size(options)),
        short(stream_lines(rows.outputs@), chunk_size(options)),
        short(edit_lines(rows.edits@), chunk_size(options)),
        options.include_events ==> short(event_lines(rows.events@), chunk_size(options)),
    ensures
        ({
            let all = closed_chunks(corpus_state(rows, options).0);
            forall|i: int|
                0 <= i < all.len() ==> (#[trigger] all[i]).len() <= chunk_size(options)
        }),
{
    let size = chunk_size(options);
    let most = chunk_limit(options);
    reveal_strlit("### COMMAND_INPUTS");
    reveal_strlit("### PANE_OUTPUT");
    reveal_strlit("### FILE_EDITS");
    reveal_strlit("### EVENTS");
    lemma_trim_shorter("### COMMAND_INPUTS"@);
    lemma_trim_shorter("### PANE_OUTPUT"@);
    lemma_trim_shorter("### FILE_EDITS"@);
    lemma_trim_shorter("### EVENTS"@);
    let st = ChunkState { chunks: Seq::empty(), current: Seq::empty(), truncated: false };
    lemma_section_small(st, "### COMMAND_INPUTS"@, input_lines(rows.inputs@), size, most);
    let st1 = section_pushed(st, "### COMMAND_INPUTS"@, input_lines(rows.inputs@), size, most).0;
    lemma_section_small(st1, "### PANE_OUTPUT"@, stream_lines(rows.outputs@), size, most);
    let st2 = section_pushed(st1, "### PANE_OUTPUT"@, stream_lines(rows.outputs@), size, most).0;
    lemma_section_small(st2, "### FILE_EDITS"@, edit_lines(rows.edits@), size, most);
    let st3 = section_pushed(st2, "### FILE_EDITS"@, edit_lines(rows.edits@), size, most).0;
    if options.include_events {
        lemma_section_small(st3, "### EVENTS"@, event_lines(rows.events@), size, most);
    }
}

proof fn lemma_trim_shorter(s: Seq<char>)
    ensures
        trim_back(s).len() <= s.len(),
    decreases s.len(),
{
    if s.len() > 0 && white(s.last()) {
        lemma_trim_shorter(s.drop_last());
    }
}

/// Lines set under one another, those of white space alone left out.
pub open spec fn listed(text: Seq<char>, lines: Seq<Seq<char>>) -> Seq<char>
    decreases lines.len(),
{
    if lines.len() == 0 {
        text
    } else {
        let line = trim_back(lines[0]);
        let next = if line.len() == 0 {
            text
        } else if text.len() == 0 {
            line
        } else {
            text + "\n"@ + line
        };
        listed(next, lines.skip(1))
    }
}

proof fn lemma_text_open(st: ChunkState)
    requires
        chunks_open(st),
    ensures
        st.current.len() == 0 <==> chunk_text(st).len() == 0,
        chunk_text(st) == joined(closed_chunks(st), "\n"@),
{
    if st.current.len() > 0 {
        let all = st.chunks.push(st.current);
        assert(all.last() == st.current);
        if all.len() > 1 {
            assert(chunk_text(st).len() >= st.current.len());
        }
    } else {
        assert(trimmed(st.current).len() == 0);
    }
}

proof fn lemma_lines_listed(st: ChunkState, lines: Seq<Seq<char>>, size: nat, most: nat)
    requires
        chunks_open(st),
        short(lines, size),
        size >= 64,
        !lines_pushed(st, lines, size, most).0.truncated,
    ensures
        chunks_open(lines_pushed(st, lines, size, most).0),
        chunk_text(lines_pushed(st, lines, size, most).0) == listed(chunk_text(st), lines),
    decreases lines.len(),
{
    if lines.len() > 0 {
        assert(trim_back(lines[0]).len() <= size);
        let (next, more) = chunk_pushed(st, lines[0], size, most);
        chunks_stay_open(st, lines[0], size, most);
        chunks_keep_lines(st, lines[0], size, most);
        lemma_text_open(st);
        assert(short(lines.skip(1), size)) by {
            assert forall|i: int| 0 <= i < lines.skip(1).len() implies trim_back(
                #[trigger] lines.skip(1)[i],
            ).len() <= size by {
                assert(lines.skip(1)[i] == lines[i + 1]);
            }
        }
        lemma_lines_listed(next, lines.skip(1), size, most);
    }
}

proof fn lemma_truncated_lines(st: ChunkState, lines: Seq<Seq<char>>, size: nat, most: nat)
    ensures
        st.truncated ==> lines_pushed(st, lines, size, most).0.truncated,
    decreases lines.len(),
{
    if lines.len() > 0 {
        let (next, more) = chunk_pushed(st, lines[0], size, most);
        if more {
            lemma_truncated_lines(next, lines.skip(1), size, most);
        }
    }
}

proof fn lemma_section_listed(
    st: ChunkState,
    heading: Seq<char>,
    lines: Seq<Seq<char>>,
    size: nat,
    most: nat,
)
    requires
        !st.truncated ==> chunks_open(st),
        short(lines, size),
        trim_back(heading).len() <= size,
        size >= 64,
        !section_pushed(st, heading, lines, size, most).0.truncated,
    ensures
        !st.truncated,
        chunks_open(section_pushed(st, heading, lines, size, most).0),
        chunk_text(section_pushed(st, heading, lines, size, most).0) == listed(
            listed(chunk_text(st), seq![heading]),
            lines,
        ),
{
    let next = chunk_pushed(st, heading, size, most).0;
    lemma_truncated_lines(next, lines, size, most);
    chunks_stay_open(st, heading, size, most);
    chunks_keep_lines(st, heading, size, most);
    lemma_text_open(st);
    reveal_with_fuel(listed, 2);
    assert(seq![heading].skip(1) =~= Seq::empty());
    lemma_lines_listed(next, lines, size, most);
}

/// Where nothing was left out and every row that is listed fits into a chunk, the
/// chunks joined by newlines are the sections in full: each heading, then the lines
/// of its rows in order.
pub proof fn corpus_is_complete(rows: CorpusRows, options: BuildLlmSelectionCorpusOptions)
    requires
        short(input_lines(rows.inputs@), chunk_size(options)),
        short(stream_lines(rows.outputs@), chunk_size(options)),
        short(edit_lines(rows.edits@), chunk_size(options)),
        options.include_events ==> short(event_lines(rows.events@), chunk_size(options)),
        !corpus_state(rows, options).0.truncated,
    ensures
        ({
            let t1 = listed(
                listed(Seq::empty(), seq!["### COMMAND_INPUTS"@]),
                input_lines(rows.inputs@),
            );
            let t2 = listed(listed(t1, seq!["### PANE_OUTPUT"@]), stream_lines(rows.outputs@));
            let t3 = listed(listed(t2, seq!["### FILE_EDITS"@]), edit_lines(rows.edits@));
            let t4 = listed(listed(t3, seq!["### EVENTS"@]), event_lines(rows.events@));
            joined(closed_chunks(corpus_state(rows, options).0), "\n"@)
                == if options.include_events {
                t4
            } else {
                t3
            }
        }),
{
    let size = chunk_size(options);
    let most = chunk_limit(options);
    reveal_strlit("### COMMAND_INPUTS");
    reveal_strlit("### PANE_OUTPUT");
    reveal_strlit("### FILE_EDITS");
    reveal_strlit("### EVENTS");
    lemma_trim_shorter("### COMMAND_INPUTS"@);
    lemma_trim_shorter("### PANE_OUTPUT"@);
    lemma_trim_shorter("### FILE_EDITS"@);
    lemma_trim_shorter("### EVENTS"@);
    let st = ChunkState { chunks: Seq::empty(), current: Seq::empty(), truncated: false };
    let st1 = section_pushed(st, "### COMMAND_INPUTS"@, input_lines(rows.inputs@), size, most).0;
    let st2 = section_pushed(st1, "### PANE_OUTPUT"@, stream_lines(rows.outputs@), size, most).0;
    let st3 = section_pushed(st2, "### FILE_EDITS"@, edit_lines(rows.edits@), size, most).0;
    let st4 = section_pushed(st3, "### EVENTS"@, event_lines(rows.events@), size, most).0;
    lemma_section_sound(st, "### COMMAND_INPUTS"@, input_lines(rows.inputs@), size, most);
    lemma_section_sound(st1, "### PANE_OUTPUT"@, stream_lines(rows.outputs@), size, most);
    lemma_section_sound(st2, "### FILE_EDITS"@, edit_lines(rows.edits@), size, most);
    lemma_section_sound(st3, "### EVENTS"@, event_lines(rows.events@), size, most);
    assert(chunk_text(st) =~= Seq::empty());
    lemma_section_listed(st, "### COMMAND_INPUTS"@, input_lines(rows.inputs@), size, most);
    lemma_section_listed(st1, "### PANE_OUTPUT"@, stream_lines(rows.outputs@), size, most);
    lemma_section_listed(st2, "### FILE_EDITS"@, edit_lines(rows.edits@), size, most);
    if options.include_events {
        lemma_section_listed(st3, "### EVENTS"@, event_lines(rows.events@), size, most);
        lemma_text_open(st4);
    } else {
        lemma_text_open(st3);
    }
}

// ---------------------------------------------------------------------------
// What the lines say
// ---------------------------------------------------------------------------

/// Every row reads as its kind and number in brackets and what is on record of it behind
/// them: a typed line its text, a printed line its text under its stream, an edit its
/// file, mode and size, an event its time, kind and data. What is not known is so
/// called.
pub proof fn rows_read_as_what_they_are(
    input: InputRow,
    output: StreamRow,
    edit: EditRow,
    event: EventRow,
)
    ensures
        input_line(input) == "[stdin#"@ + signed_decimal(input.id as int) + seq![']', ' ']
            + trim_back(input.line@),
        stream_line(output) == seq!['['] + output.stream@ + seq!['#'] + signed_decimal(
            output.id as int,
        ) + seq![']', ' '] + trim_back(output.line@),
        edit.path is Some && edit.mode is Some && edit.bytes is Some ==> edit_line(edit)
            == "[edit#"@ + signed_decimal(edit.id as int) + "] path="@ + edit.path->Some_0@
            + " mode="@ + edit.mode->Some_0@ + " bytes="@ + signed_decimal(
            edit.bytes->Some_0 as int,
        ),
        edit.path is None && edit.mode is None && edit.bytes is None ==> edit_line(edit)
            == "[edit#"@ + signed_decimal(edit.id as int) + "] path="@ + "<unknown>"@ + " mode="@
            + "unknown"@ + " bytes="@ + seq!['0'],
        event.ts_ms is Some && event.data_json@.len() <= 360 ==> event_line(event) == "[event#"@
            + signed_decimal(event.id as int) + " ts="@ + signed_decimal(
            event.ts_ms->Some_0 as int,
        ) + seq![']', ' '] + event.kind@ + seq![' '] + event.data_json@,
        event.ts_ms is None && event.data_json@.len() <= 360 ==> event_line(event) == "[event#"@
            + signed_decimal(event.id as int) + " ts="@ + "null"@ + seq![']', ' '] + event.kind@
            + seq![' '] + event.data_json@,
{
    reveal_strlit("] ");
    reveal_strlit("[");
    reveal_strlit("#");
    reveal_strlit(" ");
    assert("] "@ =~= seq![']', ' ']);
    assert("["@ =~= seq!['[']);
    assert("#"@ =~= seq!['#']);
    assert(" "@ =~= seq![' ']);
    assert(signed_decimal(0) =~= seq!['0']);
}

/// The last of a sequence are its end, in order, as many as are asked for or all of it.
pub proof fn the_end_is_carried_along(s: Seq<Seq<char>>, n: nat, i: int)
    ensures
        s.len() <= n ==> last_of(s, n) == s,
        s.len() > n ==> last_of(s, n).len() == n,
        0 <= i < last_of(s, n).len() ==> last_of(s, n)[last_of(s, n).len() - 1 - i] == s[s.len() - 1
            - i],
{
}

/// Every typed line is carried as it is; of the printed lines those of one stream are, in
/// order.
pub proof fn streams_are_kept_apart(
    inputs: Seq<InputRow>,
    i: int,
    a: Seq<StreamRow>,
    row: StreamRow,
    b: Seq<StreamRow>,
    stream: Seq<char>,
)
    ensures
        typed(inputs).len() == inputs.len(),
        0 <= i < inputs.len() ==> typed(inputs)[i] == inputs[i].line@,
        printed(a + seq![row] + b, stream) == printed(a, stream) + (if row.stream@ == stream {
            seq![row.line@]
        } else {
            Seq::empty()
        }) + printed(b, stream),
    decreases b.len(),
{
    let all = a + seq![row] + b;
    let mine: Seq<Seq<char>> = if row.stream@ == stream {
        seq![row.line@]
    } else {
        Seq::empty()
    };
    if b.len() == 0 {
        assert(all.drop_last() =~= a);
        assert(all.last() == row);
    } else {
        streams_are_kept_apart(inputs, i, a, row, b.drop_last(), stream);
        assert(all.drop_last() =~= a + seq![row] + b.drop_last());
        assert(all.last() == b.last());
    }
    assert(printed(all, stream) =~= printed(a, stream) + mine + printed(b, stream));
}

/// Chunks hold as much as the options say, but 64 characters at least, and there are as
/// many as they say, but one at least. The open chunk counts if it holds anything.
pub proof fn chunks_are_as_the_options_say(
    options: BuildLlmSelectionCorpusOptions,
    st: ChunkState,
)
    ensures
        options.chunk_chars >= 64 ==> chunk_size(options) == options.chunk_chars,
        options.chunk_chars < 64 ==> chunk_size(options) == 64,
        options.max_chunks >= 1 ==> chunk_limit(options) == options.max_chunks,
        options.max_chunks < 1 ==> chunk_limit(options) == 1,
        all_white(st.current) ==> closed_chunks(st) == st.chunks,
        !all_white(st.current) ==> closed_chunks(st).drop_last() == st.chunks && closed_chunks(
            st,
        ).last() == st.current,
{
    blank_texts_are_white(st.current);
    if !all_white(st.current) {
        assert(closed_chunks(st).drop_last() =~= st.chunks);
    }
}

/// Lines are offered one after the other, and once there is no room for one no other is
/// offered; a section offers nothing once something was left out.
pub proof fn lines_are_offered_in_order(
    st: ChunkState,
    line: Seq<char>,
    rest: Seq<Seq<char>>,
    heading: Seq<char>,
    size: nat,
    most: nat,
)
    ensures
        ({
            let (next, more) = chunk_pushed(st, line, size, most);
            let (last, n) = lines_pushed(st, seq![line] + rest, size, most);
            &&& more ==> last == lines_pushed(next, rest, size, most).0 && n == lines_pushed(
                next,
                rest,
                size,
                most,
            ).1 + 1
            &&& !more ==> last == next && n == 1
        }),
        lines_pushed(st, seq![], size, most) == (st, 0nat),
        st.truncated ==> section_pushed(st, heading, rest, size, most) == (st, 0nat),
        !st.truncated && chunk_pushed(st, heading, size, most).1 ==> section_pushed(
            st,
            heading,
            rest,
            size,
            most,
        ) == lines_pushed(chunk_pushed(st, heading, size, most).0, rest, size, most),
{
    let all = seq![line] + rest;
    assert(all[0] == line);
    assert(all.skip(1) =~= rest);
}

/// Every row makes one line, in the order of the rows; four typed lines and eight lines of
/// a stream are carried along.
pub proof fn every_row_makes_a_line(rows: CorpusRows, i: int)
    ensures
        input_lines(rows.inputs@).len() == rows.inputs@.len(),
        stream_lines(rows.outputs@).len() == rows.outputs@.len(),
        edit_lines(rows.edits@).len() == rows.edits@.len(),
        event_lines(rows.events@).len() == rows.events@.len(),
        0 <= i < rows.inputs@.len() ==> input_lines(rows.inputs@)[i] == input_line(rows.inputs@[i]),
        0 <= i < rows.outputs@.len() ==> stream_lines(rows.outputs@)[i] == stream_line(
            rows.outputs@[i],
        ),
        0 <= i < rows.edits@.len() ==> edit_lines(rows.edits@)[i] == edit_line(rows.edits@[i]),
        0 <= i < rows.events@.len() ==> event_lines(rows.events@)[i] == event_line(rows.events@[i]),
        rows.inputs@.len() > 4 ==> last_of(typed(rows.inputs@), LAST_TYPED as nat).len() == 4,
        printed(rows.outputs@, "stdout"@).len() > 8 ==> last_of(
            printed(rows.outputs@, "stdout"@),
            LAST_PRINTED as nat,
        ).len() == 8,
{
}

/// Of the data of an event the first 360 characters are shown, and dots tell that there was
/// more.
pub proof fn long_events_are_cut(event: EventRow)
    requires
        event.data_json@.len() > 360,
    ensures
        exists|head: Seq<char>|
            event_line(event) == (#[trigger] (head + event.data_json@.take(360))) + seq![
                '.',
                '.',
                '.',
            ],
{
    cuts_are_marked(event.data_json@, 360);
    let head = "[event#"@ + signed_decimal(event.id as int) + " ts="@ + (match event.ts_ms {
        Some(n) => signed_decimal(n as int),
        None => "null"@,
    }) + "] "@ + event.kind@ + " "@;
    assert(event_line(event) =~= head + event.data_json@.take(360) + seq!['.', '.', '.']);
}

} // verus!
