//! Incidents: failures together with the commands, tool calls, output and edits
//! that go with them.
use vstd::prelude::*;
use crate::budget::{clipped, truncate_line};
use crate::evidence::{
    at_least_one, candidate_views, edit_text, edited, overlap_reason, plain_score, points, smaller,
    CandidateView, EvidenceScore, FileEditRecord, OutputRecord, Score, ScoredCandidate,
};
use crate::failures::{
    command_failure_views, tool_failure_views, CommandFailure, CommandFailureView, ToolFailure,
    ToolFailureView,
};
use crate::intent::{
    contains_error_signal, error_words, first_words, overlap, query_tokens_for_incident,
    token_overlap_count,
};
use crate::profile::Category;
use crate::text::{
    copy_texts, has_any, join, joined, lemma_strs_push, lowered, opt_text, push_text, strs,
    to_lowercase, trim, trimmed,
};

verus! {

broadcast use vstd::string::group_string_axioms;

/// A failure and what goes with it.
#[derive(Debug)]
pub struct IncidentCandidate {
    pub title: String,
    pub summary: Vec<String>,
    pub score: Score,
    pub reasons: Vec<String>,
}

/// What an `IncidentCandidate` holds.
#[verifier::ext_equal]
pub struct IncidentView {
    pub title: Seq<char>,
    pub summary: Seq<Seq<char>>,
    pub score: Score,
    pub reasons: Seq<Seq<char>>,
}

impl View for IncidentCandidate {
    type V = IncidentView;

    open spec fn view(&self) -> IncidentView {
        IncidentView {
            title: self.title@,
            summary: strs(self.summary@),
            score: self.score,
            reasons: strs(self.reasons@),
        }
    }
}

/// What a row of incidents holds.
pub open spec fn incident_views(v: Seq<IncidentCandidate>) -> Seq<IncidentView> {
    Seq::new(v.len(), |i: int| v[i]@)
}

/// The views after one more incident.
pub proof fn lemma_incident_push(v: Seq<IncidentCandidate>, c: IncidentCandidate)
    ensures
        incident_views(v.push(c)) == incident_views(v).push(c@),
{
    assert(incident_views(v.push(c)) =~= incident_views(v).push(c@));
}

// ---------------------------------------------------------------------------
// What goes with a failure
// ---------------------------------------------------------------------------

/// The tool failures, lines of output and edits that an incident has used; each
/// goes with one incident only.
pub struct Used {
    pub tools: Seq<usize>,
    pub outputs: Seq<i64>,
    pub edits: Seq<usize>,
}

/// The first text, from the `k`-th on, with one of the words in it.
pub open spec fn first_overlapping(texts: Seq<Seq<char>>, words: Seq<Seq<char>>, k: int) -> Option<
    int,
>
    decreases texts.len() - k,
{
    if k < 0 || k >= texts.len() {
        None
    } else if overlap(texts[k], words) > 0 {
        Some(k)
    } else {
        first_overlapping(texts, words, k + 1)
    }
}

/// The first tool failure, from the `k`-th on, that is not in use and has one of
/// the words in it.
pub open spec fn first_free_tool(
    tools: Seq<ToolFailureView>,
    used: Seq<usize>,
    words: Seq<Seq<char>>,
    k: int,
) -> Option<int>
    decreases tools.len() - k,
{
    if k < 0 || k >= tools.len() {
        None
    } else if !used.contains(k as usize) && overlap(tools[k].text, words) > 0 {
        Some(k)
    } else {
        first_free_tool(tools, used, words, k + 1)
    }
}

/// A printed line as part of a summary.
pub open spec fn output_note(rec: OutputRecord, max: nat) -> Seq<char> {
    "output: ["@ + rec.stream@ + "] "@ + clipped(trimmed(rec.line_text@), max)
}

/// A printed line goes with words if it has one of them in it or tells of an
/// error.
pub open spec fn output_related(rec: OutputRecord, words: Seq<Seq<char>>) -> bool {
    let low = lowered(rec.line_text@);
    overlap(low, words) > 0 || has_any(low, error_words())
}

/// The summary and the lines in use after the lines from the `k`-th on: related
/// lines that are not in use are added until the summary has five entries. Of
/// the lines only the first 120 are looked at.
pub open spec fn with_outputs(
    summary: Seq<Seq<char>>,
    used: Seq<i64>,
    outputs: Seq<OutputRecord>,
    words: Seq<Seq<char>>,
    k: int,
) -> (Seq<Seq<char>>, Seq<i64>)
    decreases outputs.len() - k,
{
    if k < 0 || k >= outputs.len() || k >= 120 || summary.len() >= 5 {
        (summary, used)
    } else if used.contains(outputs[k].id) || !output_related(outputs[k], words) {
        with_outputs(summary, used, outputs, words, k + 1)
    } else {
        with_outputs(
            summary.push(output_note(outputs[k], 160)),
            used.push(outputs[k].id),
            outputs,
            words,
            k + 1,
        )
    }
}

/// An edit goes with words if its path has one of them in it.
pub open spec fn edit_related(rec: FileEditRecord, words: Seq<Seq<char>>) -> bool {
    match rec.path {
        Some(p) => overlap(p@, words) > 0,
        None => false,
    }
}

/// An edit as part of a summary.
pub open spec fn edit_note(rec: FileEditRecord) -> Seq<char> {
    match rec.path {
        Some(p) => "edit: "@ + edit_text(p@, opt_text(rec.write_mode)),
        None => Seq::empty(),
    }
}

/// The summary and the edits in use after the edits from the `k`-th on: related
/// edits that are not in use are added until the summary has six entries.
pub open spec fn with_edits(
    summary: Seq<Seq<char>>,
    used: Seq<usize>,
    edits: Seq<FileEditRecord>,
    words: Seq<Seq<char>>,
    k: int,
) -> (Seq<Seq<char>>, Seq<usize>)
    decreases edits.len() - k,
{
    if k < 0 || k >= edits.len() || summary.len() >= 6 {
        (summary, used)
    } else if used.contains(k as usize) || !edit_related(edits[k], words) {
        with_edits(summary, used, edits, words, k + 1)
    } else {
        with_edits(
            summary.push(edit_note(edits[k])),
            used.push(k as usize),
            edits,
            words,
            k + 1,
        )
    }
}

/// A summary with the first command that has one of the words in it.
pub open spec fn with_command(
    summary: Seq<Seq<char>>,
    commands: Seq<Seq<char>>,
    words: Seq<Seq<char>>,
) -> Seq<Seq<char>> {
    match first_overlapping(commands, words, 0) {
        Some(k) => summary.push("command: "@ + clipped(commands[k], 160)),
        None => summary,
    }
}

fn find_overlapping(texts: &Vec<String>, words: &Vec<String>) -> (r: Option<usize>)
    ensures
        match r {
            Some(k) => first_overlapping(strs(texts@), strs(words@), 0) == Some(k as int) && k
                < texts@.len(),
            None => first_overlapping(strs(texts@), strs(words@), 0) is None,
        },
{
    let mut k: usize = 0;
    while k < texts.len()
        invariant
            k <= texts@.len(),
            first_overlapping(strs(texts@), strs(words@), 0) == first_overlapping(
                strs(texts@),
                strs(words@),
                k as int,
            ),
        decreases texts@.len() - k,
    {
        if token_overlap_count(texts[k].as_str(), words) > 0 {
            return Some(k);
        }
        k = k + 1;
    }
    None
}

fn holds_usize(v: &Vec<usize>, n: usize) -> (r: bool)
    ensures
        r == v@.contains(n),
{
    let mut i: usize = 0;
    while i < v.len()
        invariant
            i <= v@.len(),
            forall|k: int| 0 <= k < i ==> v@[k] != n,
        decreases v@.len() - i,
    {
        if v[i] == n {
            return true;
        }
        i = i + 1;
    }
    false
}

fn holds_i64(v: &Vec<i64>, n: i64) -> (r: bool)
    ensures
        r == v@.contains(n),
{
    let mut i: usize = 0;
    while i < v.len()
        invariant
            i <= v@.len(),
            forall|k: int| 0 <= k < i ==> v@[k] != n,
        decreases v@.len() - i,
    {
        if v[i] == n {
            return true;
        }
        i = i + 1;
    }
    false
}

fn find_free_tool(tools: &Vec<ToolFailure>, used: &Vec<usize>, words: &Vec<String>) -> (r: Option<
    usize,
>)
    ensures
        match r {
            Some(k) => first_free_tool(tool_failure_views(tools@), used@, strs(words@), 0) == Some(
                k as int,
            ) && k < tools@.len(),
            None => first_free_tool(tool_failure_views(tools@), used@, strs(words@), 0) is None,
        },
{
    let mut k: usize = 0;
    while k < tools.len()
        invariant
            k <= tools@.len(),
            first_free_tool(tool_failure_views(tools@), used@, strs(words@), 0) == first_free_tool(
                tool_failure_views(tools@),
                used@,
                strs(words@),
                k as int,
            ),
        decreases tools@.len() - k,
    {
        if !holds_usize(used, k) && token_overlap_count(tools[k].text.as_str(), words) > 0 {
            return Some(k);
        }
        k = k + 1;
    }
    None
}

fn note(label: &str, text: &str) -> (r: String)
    ensures
        r@ == label@ + text@,
{
    let mut s = label.to_string();
    push_text(&mut s, text);
    s
}

fn note_output(rec: &OutputRecord, max: usize) -> (r: String)
    ensures
        r@ == output_note(*rec, max as nat),
{
    let mut s = "output: [".to_string();
    push_text(&mut s, rec.stream.as_str());
    push_text(&mut s, "] ");
    let text = trim(rec.line_text.as_str());
    push_text(&mut s, truncate_line(text.as_str(), max).as_str());
    s
}

fn add_outputs(
    summary: &mut Vec<String>,
    used: &mut Vec<i64>,
    outputs: &Vec<OutputRecord>,
    words: &Vec<String>,
)
    ensures
        (strs(final(summary)@), final(used)@) == with_outputs(
            strs(old(summary)@),
            old(used)@,
            outputs@,
            strs(words@),
            0,
        ),
{
    let ghost goal = with_outputs(strs(summary@), used@, outputs@, strs(words@), 0);
    let mut k: usize = 0;
    while k < outputs.len() && k < 120 && summary.len() < 5
        invariant
            k <= outputs@.len(),
            goal == with_outputs(strs(summary@), used@, outputs@, strs(words@), k as int),
        decreases outputs@.len() - k,
    {
        let rec = &outputs[k];
        assert(strs(summary@).len() == summary@.len());
        let low = to_lowercase(rec.line_text.as_str());
        if !holds_i64(used, rec.id) && (token_overlap_count(low.as_str(), words) > 0
            || contains_error_signal(low.as_str())) {
            let text = note_output(rec, 160);
            proof {
                lemma_strs_push(summary@, text);
            }
            summary.push(text);
            used.push(rec.id);
        }
        k = k + 1;
    }
    assert(strs(summary@).len() == summary@.len());
}

fn add_edits(
    summary: &mut Vec<String>,
    used: &mut Vec<usize>,
    edits: &Vec<FileEditRecord>,
    words: &Vec<String>,
)
    ensures
        (strs(final(summary)@), final(used)@) == with_edits(
            strs(old(summary)@),
            old(used)@,
            edits@,
            strs(words@),
            0,
        ),
{
    let ghost goal = with_edits(strs(summary@), used@, edits@, strs(words@), 0);
    let mut k: usize = 0;
    while k < edits.len() && summary.len() < 6
        invariant
            k <= edits@.len(),
            goal == with_edits(strs(summary@), used@, edits@, strs(words@), k as int),
        decreases edits@.len() - k,
    {
        assert(strs(summary@).len() == summary@.len());
        let rec = &edits[k];
        if !holds_usize(used, k) {
            if let Some(path) = &rec.path {
                if token_overlap_count(path.as_str(), words) > 0 {
                    let entry = edited(path.as_str(), &rec.write_mode);
                    let text = note("edit: ", entry.as_str());
                    proof {
                        lemma_strs_push(summary@, text);
                    }
                    summary.push(text);
                    used.push(k);
                }
            }
        }
        k = k + 1;
    }
    assert(strs(summary@).len() == summary@.len());
}

// ---------------------------------------------------------------------------
// Incidents of commands
// ---------------------------------------------------------------------------

/// What is on record when incidents are built.
pub struct Record {
    pub commands: Seq<Seq<char>>,
    pub tools: Seq<ToolFailureView>,
    pub outputs: Seq<OutputRecord>,
    pub edits: Seq<FileEditRecord>,
}

/// The incident of a failed command, and what is in use after it.
pub open spec fn command_incident(
    f: CommandFailureView,
    place: nat,
    out_of: nat,
    query: Seq<Seq<char>>,
    record: Record,
    used: Used,
) -> (IncidentView, Used) {
    let words = first_words(
        match f.command {
            Some(c) => c,
            None => f.text,
        },
    );
    let s1 = with_command(seq!["failure: "@ + f.text], record.commands, words);
    let tool = first_free_tool(record.tools, used.tools, words, 0);
    let s2 = match tool {
        Some(k) => s1.push("tool: "@ + clipped(record.tools[k].text, 180)),
        None => s1,
    };
    let tools = match tool {
        Some(k) => used.tools.push(k as usize),
        None => used.tools,
    };
    let (s3, outputs) = with_outputs(s2, used.outputs, record.outputs, words, 0);
    let (s4, edits) = with_edits(s3, used.edits, record.edits, words, 0);
    let n = overlap(f.text, query);
    (
        IncidentView {
            title: f.text,
            summary: s4,
            score: plain_score(950, n, 200, place, out_of),
            reasons: seq!["command failure anchor"@, overlap_reason(n, "recent failure"@)],
        },
        Used { tools, outputs, edits },
    )
}

/// The incidents of the first `k` failed commands, and what is in use after
/// them.
pub open spec fn command_incidents(
    failures: Seq<CommandFailureView>,
    k: nat,
    query: Seq<Seq<char>>,
    record: Record,
) -> (Seq<IncidentView>, Used)
    decreases k,
{
    if k == 0 {
        (
            Seq::empty(),
            Used { tools: Seq::empty(), outputs: Seq::empty(), edits: Seq::empty() },
        )
    } else {
        let (before, used) = command_incidents(failures, (k - 1) as nat, query, record);
        let (incident, after) = command_incident(
            failures[k - 1],
            (k - 1) as nat,
            at_least_one(failures.len()),
            query,
            record,
            used,
        );
        (before.push(incident), after)
    }
}

fn incident_reasons(anchor: &str, n: usize) -> (r: Vec<String>)
    ensures
        strs(r@) == seq![anchor@, overlap_reason(n as nat, "recent failure"@)],
{
    let mut out: Vec<String> = Vec::new();
    out.push(anchor.to_string());
    if n > 0 {
        out.push("query token overlap".to_string());
    } else {
        out.push("recent failure".to_string());
    }
    assert(strs(out@) =~= seq![anchor@, overlap_reason(n as nat, "recent failure"@)]);
    out
}

fn add_command(summary: &mut Vec<String>, commands: &Vec<String>, words: &Vec<String>)
    ensures
        strs(final(summary)@) == with_command(strs(old(summary)@), strs(commands@), strs(words@)),
{
    if let Some(k) = find_overlapping(commands, words) {
        let cut = truncate_line(commands[k].as_str(), 160);
        let text = note("command: ", cut.as_str());
        proof {
            lemma_strs_push(summary@, text);
        }
        summary.push(text);
    }
}

fn incident_of_command(
    failure: &CommandFailure,
    place: usize,
    out_of: usize,
    query: &Vec<String>,
    commands: &Vec<String>,
    tools: &Vec<ToolFailure>,
    outputs: &Vec<OutputRecord>,
    edits: &Vec<FileEditRecord>,
    used_tools: &mut Vec<usize>,
    used_outputs: &mut Vec<i64>,
    used_edits: &mut Vec<usize>,
) -> (r: IncidentCandidate)
    ensures
        (
            r@,
            Used {
                tools: final(used_tools)@,
                outputs: final(used_outputs)@,
                edits: final(used_edits)@,
            },
        ) == command_incident(
            failure@,
            place as nat,
            out_of as nat,
            strs(query@),
            (Record {
                commands: strs(commands@),
                tools: tool_failure_views(tools@),
                outputs: outputs@,
                edits: edits@,
            }),
            (Used {
                tools: old(used_tools)@,
                outputs: old(used_outputs)@,
                edits: old(used_edits)@,
            }),
        ),
{
    let words = match &failure.command {
        Some(c) => query_tokens_for_incident(c.as_str()),
        None => query_tokens_for_incident(failure.text.as_str()),
    };
    let mut summary: Vec<String> = Vec::new();
    summary.push(note("failure: ", failure.text.as_str()));
    assert(strs(summary@) =~= seq!["failure: "@ + failure.text@]);
    add_command(&mut summary, commands, &words);
    if let Some(k) = find_free_tool(tools, used_tools, &words) {
        used_tools.push(k);
        let cut = truncate_line(tools[k].text.as_str(), 180);
        let text = note("tool: ", cut.as_str());
        proof {
            lemma_strs_push(summary@, text);
        }
        summary.push(text);
    }
    add_outputs(&mut summary, used_outputs, outputs, &words);
    add_edits(&mut summary, used_edits, edits, &words);
    let n: usize = token_overlap_count(failure.text.as_str(), query);
    IncidentCandidate {
        title: failure.text.clone(),
        summary,
        score: Score {
            base: 950,
            overlap: n,
            per_overlap: 200,
            stream: 0,
            signal: 0,
            recency: 100,
            place,
            out_of,
            weight: 100,
        },
        reasons: incident_reasons("command failure anchor", n),
    }
}

// ---------------------------------------------------------------------------
// Incidents of tools, and where nothing failed
// ---------------------------------------------------------------------------

/// The incident of a failed tool call.
pub open spec fn tool_incident(
    f: ToolFailureView,
    place: nat,
    out_of: nat,
    query: Seq<Seq<char>>,
    commands: Seq<Seq<char>>,
) -> IncidentView {
    let n = overlap(f.text, query);
    IncidentView {
        title: f.text,
        summary: with_command(
            seq!["tool failure: "@ + f.text],
            commands,
            first_words(f.text),
        ),
        score: plain_score(850, n, 180, place, out_of),
        reasons: seq!["tool failure anchor"@, overlap_reason(n, "recent failure"@)],
    }
}

fn incident_of_tool(
    failure: &ToolFailure,
    place: usize,
    out_of: usize,
    query: &Vec<String>,
    commands: &Vec<String>,
) -> (r: IncidentCandidate)
    ensures
        r@ == tool_incident(
            failure@,
            place as nat,
            out_of as nat,
            strs(query@),
            strs(commands@),
        ),
{
    let words = query_tokens_for_incident(failure.text.as_str());
    let mut summary: Vec<String> = Vec::new();
    summary.push(note("tool failure: ", failure.text.as_str()));
    assert(strs(summary@) =~= seq!["tool failure: "@ + failure.text@]);
    add_command(&mut summary, commands, &words);
    let n: usize = token_overlap_count(failure.text.as_str(), query);
    IncidentCandidate {
        title: failure.text.clone(),
        summary,
        score: Score {
            base: 850,
            overlap: n,
            per_overlap: 180,
            stream: 0,
            signal: 0,
            recency: 100,
            place,
            out_of,
            weight: 100,
        },
        reasons: incident_reasons("tool failure anchor", n),
    }
}

/// What is said where nothing failed: the latest command and two lines of
/// output.
pub open spec fn snapshot_summary(
    commands: Seq<Seq<char>>,
    outputs: Seq<OutputRecord>,
) -> Seq<Seq<char>> {
    let s0: Seq<Seq<char>> = if commands.len() > 0 {
        seq!["latest command: "@ + clipped(commands[0], 180)]
    } else {
        Seq::empty()
    };
    let s1 = if outputs.len() > 0 {
        s0.push(output_note(outputs[0], 180))
    } else {
        s0
    };
    if outputs.len() > 1 {
        s1.push(output_note(outputs[1], 180))
    } else {
        s1
    }
}

/// The incident where nothing failed.
pub open spec fn snapshot_incident(
    commands: Seq<Seq<char>>,
    outputs: Seq<OutputRecord>,
) -> IncidentView {
    IncidentView {
        title: "recent activity snapshot"@,
        summary: snapshot_summary(commands, outputs),
        score: Score { recency: 0, ..plain_score(200, 0, 0, 0, 1) },
        reasons: seq!["fallback activity incident"@],
    }
}

/// The incidents before they are ranked: one for each failed command, then one
/// for each failed tool call, up to `max` in all; where there are none but may be
/// one, a snapshot of what went on last.
pub open spec fn incidents_found(
    failures: Seq<CommandFailureView>,
    query: Seq<Seq<char>>,
    record: Record,
    max: nat,
) -> Seq<IncidentView> {
    let n = smaller(failures.len(), max);
    let m = smaller(record.tools.len(), (max - n) as nat);
    let of_commands = command_incidents(failures, n, query, record).0;
    let of_tools = Seq::new(
        m,
        |i: int|
            tool_incident(
                record.tools[i],
                i as nat,
                at_least_one(record.tools.len()),
                query,
                record.commands,
            ),
    );
    if n + m == 0 && max > 0 && snapshot_summary(record.commands, record.outputs).len() > 0 {
        seq![snapshot_incident(record.commands, record.outputs)]
    } else {
        of_commands + of_tools
    }
}

fn snapshot(commands: &Vec<String>, outputs: &Vec<OutputRecord>) -> (r: Vec<String>)
    ensures
        strs(r@) == snapshot_summary(strs(commands@), outputs@),
{
    let mut summary: Vec<String> = Vec::new();
    if commands.len() > 0 {
        let cut = truncate_line(commands[0].as_str(), 180);
        summary.push(note("latest command: ", cut.as_str()));
    }
    if outputs.len() > 0 {
        summary.push(note_output(&outputs[0], 180));
    }
    if outputs.len() > 1 {
        summary.push(note_output(&outputs[1], 180));
    }
    assert(strs(summary@) =~= snapshot_summary(strs(commands@), outputs@));
    summary
}

proof fn lemma_command_incidents_len(
    failures: Seq<CommandFailureView>,
    k: nat,
    query: Seq<Seq<char>>,
    record: Record,
)
    ensures
        command_incidents(failures, k, query, record).0.len() == k,
    decreases k,
{
    if k > 0 {
        lemma_command_incidents_len(failures, (k - 1) as nat, query, record);
    }
}

/// The incidents of a session before they are ranked.
pub fn build_incidents(
    command_failures: &Vec<CommandFailure>,
    tool_failures: &Vec<ToolFailure>,
    commands: &Vec<String>,
    outputs: &Vec<OutputRecord>,
    edits: &Vec<FileEditRecord>,
    query_tokens: &Vec<String>,
    max_incidents: usize,
) -> (r: Vec<IncidentCandidate>)
    ensures
        incident_views(r@) == incidents_found(
            command_failure_views(command_failures@),
            strs(query_tokens@),
            (Record {
                commands: strs(commands@),
                tools: tool_failure_views(tool_failures@),
                outputs: outputs@,
                edits: edits@,
            }),
            max_incidents as nat,
        ),
{
    let ghost failures = command_failure_views(command_failures@);
    let ghost query = strs(query_tokens@);
    let ghost record = Record {
        commands: strs(commands@),
        tools: tool_failure_views(tool_failures@),
        outputs: outputs@,
        edits: edits@,
    };
    let mut incidents: Vec<IncidentCandidate> = Vec::new();
    let mut used_tools: Vec<usize> = Vec::new();
    let mut used_outputs: Vec<i64> = Vec::new();
    let mut used_edits: Vec<usize> = Vec::new();
    let total: usize = if command_failures.len() == 0 { 1 } else { command_failures.len() };
    let mut i: usize = 0;
    assert(incident_views(incidents@) =~= Seq::empty());
    assert(used_tools@ =~= Seq::empty());
    assert(used_outputs@ =~= Seq::empty());
    assert(used_edits@ =~= Seq::empty());
    while i < command_failures.len() && i < max_incidents
        invariant
            failures == command_failure_views(command_failures@),
            query == strs(query_tokens@),
            record == (Record {
                commands: strs(commands@),
                tools: tool_failure_views(tool_failures@),
                outputs: outputs@,
                edits: edits@,
            }),
            total == at_least_one(failures.len()),
            i <= failures.len(),
            i <= max_incidents,
            (
                incident_views(incidents@),
                Used { tools: used_tools@, outputs: used_outputs@, edits: used_edits@ },
            ) == command_incidents(failures, i as nat, query, record),
        decreases command_failures@.len() - i,
    {
        let incident = incident_of_command(
            &command_failures[i],
            i,
            total,
            query_tokens,
            commands,
            tool_failures,
            outputs,
            edits,
            &mut used_tools,
            &mut used_outputs,
            &mut used_edits,
        );
        proof {
            lemma_incident_push(incidents@, incident);
            assert(failures[i as int] == command_failures@[i as int]@);
        }
        incidents.push(incident);
        i = i + 1;
    }
    let room: usize = max_incidents - i;
    let ghost of_commands = incident_views(incidents@);
    let tool_total: usize = if tool_failures.len() == 0 { 1 } else { tool_failures.len() };
    let ghost of_tool = |j: int|
        tool_incident(
            record.tools[j],
            j as nat,
            at_least_one(record.tools.len()),
            query,
            record.commands,
        );
    let mut j: usize = 0;
    assert(incident_views(incidents@) =~= of_commands + Seq::new(0, of_tool));
    while j < tool_failures.len() && j < room
        invariant
            query == strs(query_tokens@),
            record.commands == strs(commands@),
            record.tools == tool_failure_views(tool_failures@),
            tool_total == at_least_one(record.tools.len()),
            of_tool == (|j: int|
                tool_incident(
                    record.tools[j],
                    j as nat,
                    at_least_one(record.tools.len()),
                    query,
                    record.commands,
                )),
            j <= record.tools.len(),
            j <= room,
            incident_views(incidents@) == of_commands + Seq::new(j as nat, of_tool),
        decreases tool_failures@.len() - j,
    {
        let incident = incident_of_tool(
            &tool_failures[j],
            j,
            tool_total,
            query_tokens,
            commands,
        );
        proof {
            lemma_incident_push(incidents@, incident);
            assert(incident@ == of_tool(j as int));
            assert(of_commands + Seq::new((j + 1) as nat, of_tool) =~= (of_commands + Seq::new(
                j as nat,
                of_tool,
            )).push(incident@));
        }
        incidents.push(incident);
        j = j + 1;
    }
    proof {
        lemma_command_incidents_len(failures, i as nat, query, record);
        assert(Seq::new(
            j as nat,
            |i: int|
                tool_incident(
                    record.tools[i],
                    i as nat,
                    at_least_one(record.tools.len()),
                    query,
                    record.commands,
                ),
        ) =~= Seq::new(j as nat, of_tool));
        assert(incident_views(incidents@).len() == incidents@.len());
        assert(i == smaller(failures.len(), max_incidents as nat));
        assert(j == smaller(record.tools.len(), room as nat));
    }
    if incidents.len() == 0 && max_incidents > 0 {
        let summary = snapshot(commands, outputs);
        assert(strs(summary@).len() == summary@.len());
        if summary.len() > 0 {
            let mut reasons: Vec<String> = Vec::new();
            reasons.push("fallback activity incident".to_string());
            assert(strs(reasons@) =~= seq!["fallback activity incident"@]);
            let incident = IncidentCandidate {
                title: "recent activity snapshot".to_string(),
                summary,
                score: Score {
                    base: 200,
                    overlap: 0,
                    per_overlap: 0,
                    stream: 0,
                    signal: 0,
                    recency: 0,
                    place: 0,
                    out_of: 1,
                    weight: 100,
                },
                reasons,
            };
            incidents.push(incident);
            assert(incident_views(incidents@) =~= seq![
                snapshot_incident(record.commands, record.outputs),
            ]);
        }
    }
    incidents
}

// ---------------------------------------------------------------------------
// Incidents as evidence
// ---------------------------------------------------------------------------

/// An incident in one line.
pub open spec fn incident_text(incident: IncidentView) -> Seq<char> {
    if incident.summary.len() == 0 {
        incident.title
    } else {
        incident.title + " | "@ + joined(incident.summary, " | "@)
    }
}

/// The evidence of an incident.
pub open spec fn incident_evidence(
    incident: IncidentView,
    place: nat,
    out_of: nat,
    weight: u32,
) -> CandidateView {
    CandidateView {
        category: Category::Incident,
        text: incident_text(incident),
        score: EvidenceScore::Incident {
            score: incident.score,
            weight,
            place: place as usize,
            out_of: out_of as usize,
        },
        reasons: incident.reasons,
        source_id: None,
        ts_ms: None,
    }
}

/// The evidence of all incidents.
pub open spec fn incident_candidates(incidents: Seq<IncidentView>, weight: u32) -> Seq<
    CandidateView,
> {
    Seq::new(
        incidents.len(),
        |i: int|
            incident_evidence(incidents[i], i as nat, at_least_one(incidents.len()), weight),
    )
}

/// The evidence of all incidents.
pub fn score_incidents(incidents: &Vec<IncidentCandidate>, weight: u32) -> (r: Vec<
    ScoredCandidate,
>)
    ensures
        candidate_views(r@) == incident_candidates(incident_views(incidents@), weight),
{
    let total: usize = if incidents.len() == 0 { 1 } else { incidents.len() };
    let mut out: Vec<ScoredCandidate> = Vec::new();
    let mut i: usize = 0;
    while i < incidents.len()
        invariant
            total == at_least_one(incidents@.len()),
            i <= incidents@.len(),
            out@.len() == i,
            forall|k: int|
                0 <= k < i ==> (#[trigger] out@[k])@ == incident_evidence(
                    incidents@[k]@,
                    k as nat,
                    at_least_one(incidents@.len()),
                    weight,
                ),
        decreases incidents@.len() - i,
    {
        let incident = &incidents[i];
        let mut text = incident.title.clone();
        assert(strs(incident.summary@).len() == incident.summary@.len());
        if incident.summary.len() > 0 {
            push_text(&mut text, " | ");
            push_text(&mut text, join(&incident.summary, " | ").as_str());
        }
        let c = ScoredCandidate {
            category: Category::Incident,
            text,
            score: EvidenceScore::Incident {
                score: incident.score,
                weight,
                place: i,
                out_of: total,
            },
            reasons: copy_texts(&incident.reasons),
            source_id: None,
            ts_ms: None,
        };
        out.push(c);
        i = i + 1;
    }
    assert(candidate_views(out@) =~= incident_candidates(incident_views(incidents@), weight));
    out
}

/// There are at most `max` incidents: one for each failure as far as that goes.
pub proof fn incidents_are_few(
    failures: Seq<CommandFailureView>,
    query: Seq<Seq<char>>,
    record: Record,
    max: nat,
)
    ensures
        incidents_found(failures, query, record, max).len() <= max,
        failures.len() + record.tools.len() > 0 ==> incidents_found(
            failures,
            query,
            record,
            max,
        ).len() == smaller(failures.len() + record.tools.len(), max),
{
    lemma_command_incidents_len(failures, smaller(failures.len(), max), query, record);
}

proof fn lemma_with_outputs(
    summary: Seq<Seq<char>>,
    used: Seq<i64>,
    outputs: Seq<OutputRecord>,
    words: Seq<Seq<char>>,
    k: int,
)
    ensures
        with_outputs(summary, used, outputs, words, k).0.len() <= if summary.len() < 5 {
            5
        } else {
            summary.len()
        },
        used.no_duplicates() ==> with_outputs(
            summary,
            used,
            outputs,
            words,
            k,
        ).1.no_duplicates(),
    decreases outputs.len() - k,
{
    if !(k < 0 || k >= outputs.len() || k >= 120 || summary.len() >= 5) {
        if used.contains(outputs[k].id) || !output_related(outputs[k], words) {
            lemma_with_outputs(summary, used, outputs, words, k + 1);
        } else {
            lemma_with_outputs(
                summary.push(output_note(outputs[k], 160)),
                used.push(outputs[k].id),
                outputs,
                words,
                k + 1,
            );
        }
    }
}

proof fn lemma_with_edits(
    summary: Seq<Seq<char>>,
    used: Seq<usize>,
    edits: Seq<FileEditRecord>,
    words: Seq<Seq<char>>,
    k: int,
)
    ensures
        with_edits(summary, used, edits, words, k).0.len() <= if summary.len() < 6 {
            6
        } else {
            summary.len()
        },
        used.no_duplicates() ==> with_edits(summary, used, edits, words, k).1.no_duplicates(),
    decreases edits.len() - k,
{
    if !(k < 0 || k >= edits.len() || summary.len() >= 6) {
        if used.contains(k as usize) || !edit_related(edits[k], words) {
            lemma_with_edits(summary, used, edits, words, k + 1);
        } else {
            lemma_with_edits(
                summary.push(edit_note(edits[k])),
                used.push(k as usize),
                edits,
                words,
                k + 1,
            );
        }
    }
}

proof fn lemma_free_tool(
    tools: Seq<ToolFailureView>,
    used: Seq<usize>,
    words: Seq<Seq<char>>,
    k: int,
)
    ensures
        match first_free_tool(tools, used, words, k) {
            Some(i) => !used.contains(i as usize) && k <= i < tools.len(),
            None => true,
        },
    decreases tools.len() - k,
{
    if !(k < 0 || k >= tools.len()) {
        lemma_free_tool(tools, used, words, k + 1);
    }
}

/// Every tool failure, line of output and edit goes with at most one failed
/// command, and the summary of a failed command has at most six entries.
pub proof fn incident_material_is_used_once(
    failures: Seq<CommandFailureView>,
    k: nat,
    query: Seq<Seq<char>>,
    record: Record,
)
    ensures
        command_incidents(failures, k, query, record).1.tools.no_duplicates(),
        command_incidents(failures, k, query, record).1.outputs.no_duplicates(),
        command_incidents(failures, k, query, record).1.edits.no_duplicates(),
        forall|i: int|
            0 <= i < command_incidents(failures, k, query, record).0.len()
                ==> (#[trigger] command_incidents(failures, k, query, record).0[i]).summary.len()
                <= 6,
    decreases k,
{
    if k > 0 {
        incident_material_is_used_once(failures, (k - 1) as nat, query, record);
        let (before, used) = command_incidents(failures, (k - 1) as nat, query, record);
        let f = failures[k - 1];
        let words = first_words(
            match f.command {
                Some(c) => c,
                None => f.text,
            },
        );
        let s1 = with_command(seq!["failure: "@ + f.text], record.commands, words);
        lemma_free_tool(record.tools, used.tools, words, 0);
        let s2 = match first_free_tool(record.tools, used.tools, words, 0) {
            Some(k) => s1.push("tool: "@ + clipped(record.tools[k].text, 180)),
            None => s1,
        };
        lemma_with_outputs(s2, used.outputs, record.outputs, words, 0);
        let s3 = with_outputs(s2, used.outputs, record.outputs, words, 0).0;
        lemma_with_edits(s3, used.edits, record.edits, words, 0);
    }
}

// ---------------------------------------------------------------------------
// What goes with what
// ---------------------------------------------------------------------------

/// The first text with one of the words in it is taken, and the first tool failure of those
/// that are not in use.
pub proof fn the_first_that_fits_is_taken(
    texts: Seq<Seq<char>>,
    tools: Seq<ToolFailureView>,
    used: Seq<usize>,
    words: Seq<Seq<char>>,
    k: int,
)
    requires
        0 <= k,
    ensures
        match first_overlapping(texts, words, k) {
            Some(i) => {
                &&& k <= i < texts.len()
                &&& overlap(texts[i], words) > 0
                &&& forall|j: int| k <= j < i ==> overlap(#[trigger] texts[j], words) == 0
            },
            None => forall|j: int|
                k <= j < texts.len() ==> overlap(#[trigger] texts[j], words) == 0,
        },
        match first_free_tool(tools, used, words, k) {
            Some(i) => {
                &&& k <= i < tools.len()
                &&& !used.contains(i as usize)
                &&& overlap(tools[i].text, words) > 0
                &&& forall|j: int|
                    k <= j < i ==> used.contains(j as usize) || overlap(
                        (#[trigger] tools[j]).text,
                        words,
                    ) == 0
            },
            None => forall|j: int|
                k <= j < tools.len() ==> used.contains(j as usize) || overlap(
                    (#[trigger] tools[j]).text,
                    words,
                ) == 0,
        },
    decreases texts.len() + tools.len() - k,
{
    if k < texts.len() || k < tools.len() {
        the_first_that_fits_is_taken(texts, tools, used, words, k + 1);
    }
}

/// A printed line goes with words if it has one of them in it or tells of an error, an edit
/// if its path has one of them in it.
pub proof fn material_goes_with_words(
    rec: OutputRecord,
    edit: FileEditRecord,
    words: Seq<Seq<char>>,
    max: nat,
)
    ensures
        output_related(rec, words) <==> overlap(lowered(rec.line_text@), words) > 0 || has_any(
            lowered(rec.line_text@),
            error_words(),
        ),
        edit.path is Some ==> (edit_related(edit, words) <==> overlap(edit.path->Some_0@, words)
            > 0),
        edit.path is None ==> !edit_related(edit, words),
        trimmed(rec.line_text@).len() <= max ==> output_note(rec, max) == "output: ["@ + rec.stream@
            + seq![']', ' '] + trimmed(rec.line_text@),
        edit.path is Some && edit.write_mode is Some ==> edit_note(edit) == "edit: "@
            + edit.path->Some_0@ + seq![' ', '('] + edit.write_mode->Some_0@ + seq![')'],
{
    reveal_strlit("] ");
    reveal_strlit(" (");
    reveal_strlit(")");
    assert("] "@ =~= seq![']', ' ']);
    assert(" ("@ =~= seq![' ', '(']);
    assert(")"@ =~= seq![')']);
    if edit.path is Some && edit.write_mode is Some {
        assert(edit_note(edit) =~= "edit: "@ + edit.path->Some_0@ + seq![' ', '(']
            + edit.write_mode->Some_0@ + seq![')']);
    }
}

proof fn lemma_summary_stays(
    summary: Seq<Seq<char>>,
    used: Seq<i64>,
    outputs: Seq<OutputRecord>,
    words: Seq<Seq<char>>,
    k: int,
)
    ensures
        summary.is_prefix_of(with_outputs(summary, used, outputs, words, k).0),
        used.is_prefix_of(with_outputs(summary, used, outputs, words, k).1),
    decreases outputs.len() - k,
{
    let (s, u) = with_outputs(summary, used, outputs, words, k);
    if !(k < 0 || k >= outputs.len() || k >= 120 || summary.len() >= 5) {
        if used.contains(outputs[k].id) || !output_related(outputs[k], words) {
            lemma_summary_stays(summary, used, outputs, words, k + 1);
        } else {
            lemma_summary_stays(
                summary.push(output_note(outputs[k], 160)),
                used.push(outputs[k].id),
                outputs,
                words,
                k + 1,
            );
        }
    }
    assert(summary =~= s.take(summary.len() as int));
    assert(used =~= u.take(used.len() as int));
}

/// Every related line of output that is free is quoted until the summary has five entries,
/// the first of them first, and is in use from then on. What stood in the summary stays.
pub proof fn related_output_is_quoted(
    summary: Seq<Seq<char>>,
    used: Seq<i64>,
    outputs: Seq<OutputRecord>,
    words: Seq<Seq<char>>,
    k: int,
    i: int,
)
    requires
        0 <= k <= i < outputs.len(),
        i < 120,
        !used.contains(outputs[i].id),
        output_related(outputs[i], words),
        forall|j: int| k <= j < i ==> (#[trigger] outputs[j]).id != outputs[i].id,
    ensures
        ({
            let (s, u) = with_outputs(summary, used, outputs, words, k);
            &&& s.take(summary.len() as int) == summary
            &&& s.len() >= 5 || s.contains(output_note(outputs[i], 160)) && u.contains(
                outputs[i].id,
            )
            &&& summary.len() < 5 && k == i ==> s[summary.len() as int] == output_note(
                outputs[i],
                160,
            )
        }),
    decreases i - k,
{
    lemma_summary_stays(summary, used, outputs, words, k);
    let (s, u) = with_outputs(summary, used, outputs, words, k);
    if summary.len() < 5 {
        if k == i {
            let s1 = summary.push(output_note(outputs[i], 160));
            let u1 = used.push(outputs[i].id);
            lemma_summary_stays(s1, u1, outputs, words, k + 1);
            assert(s[summary.len() as int] == s1[summary.len() as int]);
            assert(u[used.len() as int] == u1[used.len() as int]);
        } else if used.contains(outputs[k].id) || !output_related(outputs[k], words) {
            related_output_is_quoted(summary, used, outputs, words, k + 1, i);
        } else {
            let u1 = used.push(outputs[k].id);
            assert(!u1.contains(outputs[i].id)) by {
                if u1.contains(outputs[i].id) {
                    let n = choose|n: int| 0 <= n < u1.len() && u1[n] == outputs[i].id;
                    if n < used.len() {
                        assert(used[n] == outputs[i].id);
                    }
                }
            }
            related_output_is_quoted(
                summary.push(output_note(outputs[k], 160)),
                u1,
                outputs,
                words,
                k + 1,
                i,
            );
        }
    }
}

proof fn lemma_edits_stay(
    summary: Seq<Seq<char>>,
    used: Seq<usize>,
    edits: Seq<FileEditRecord>,
    words: Seq<Seq<char>>,
    k: int,
)
    ensures
        summary.is_prefix_of(with_edits(summary, used, edits, words, k).0),
        used.is_prefix_of(with_edits(summary, used, edits, words, k).1),
    decreases edits.len() - k,
{
    let (s, u) = with_edits(summary, used, edits, words, k);
    if !(k < 0 || k >= edits.len() || summary.len() >= 6) {
        if used.contains(k as usize) || !edit_related(edits[k], words) {
            lemma_edits_stay(summary, used, edits, words, k + 1);
        } else {
            lemma_edits_stay(
                summary.push(edit_note(edits[k])),
                used.push(k as usize),
                edits,
                words,
                k + 1,
            );
        }
    }
    assert(summary =~= s.take(summary.len() as int));
    assert(used =~= u.take(used.len() as int));
}

/// Every related edit that is free is named until the summary has six entries, and is in
/// use from then on. What stood in the summary stays.
pub proof fn related_edits_are_named(
    summary: Seq<Seq<char>>,
    used: Seq<usize>,
    edits: Seq<FileEditRecord>,
    words: Seq<Seq<char>>,
    k: int,
    i: int,
)
    requires
        0 <= k <= i < edits.len() <= usize::MAX,
        !used.contains(i as usize),
        edit_related(edits[i], words),
    ensures
        ({
            let (s, u) = with_edits(summary, used, edits, words, k);
            &&& s.take(summary.len() as int) == summary
            &&& s.len() >= 6 || s.contains(edit_note(edits[i])) && u.contains(i as usize)
            &&& summary.len() < 6 && k == i ==> s[summary.len() as int] == edit_note(edits[i])
        }),
    decreases i - k,
{
    lemma_edits_stay(summary, used, edits, words, k);
    let (s, u) = with_edits(summary, used, edits, words, k);
    if summary.len() < 6 {
        if k == i {
            let s1 = summary.push(edit_note(edits[i]));
            let u1 = used.push(i as usize);
            lemma_edits_stay(s1, u1, edits, words, k + 1);
            assert(s[summary.len() as int] == s1[summary.len() as int]);
            assert(u[used.len() as int] == u1[used.len() as int]);
        } else if used.contains(k as usize) || !edit_related(edits[k], words) {
            related_edits_are_named(summary, used, edits, words, k + 1, i);
        } else {
            let u1 = used.push(k as usize);
            assert(!u1.contains(i as usize)) by {
                if u1.contains(i as usize) {
                    let n = choose|n: int| 0 <= n < u1.len() && u1[n] == i as usize;
                    if n < used.len() {
                        assert(used[n] == i as usize);
                    }
                }
            }
            related_edits_are_named(summary.push(edit_note(edits[k])), u1, edits, words, k + 1, i);
        }
    }
}

/// An incident of a command is called by what failed and begins with it. It counts 9.5, two
/// more for each word of the question in it, and up to one more the more recent it is.
pub proof fn failed_commands_are_incidents(
    f: CommandFailureView,
    place: nat,
    out_of: nat,
    query: Seq<Seq<char>>,
    record: Record,
    used: Used,
)
    requires
        place < out_of <= usize::MAX,
        query.len() <= usize::MAX,
    ensures
        ({
            let (incident, after) = command_incident(f, place, out_of, query, record, used);
            let words = first_words(
                match f.command {
                    Some(c) => c,
                    None => f.text,
                },
            );
            let n = overlap(f.text, query);
            &&& incident.title == f.text
            &&& incident.summary.len() > 0
            &&& incident.summary[0] == "failure: "@ + f.text
            &&& points(incident.score) == ((950 + 200 * n) * out_of + 100 * (out_of - place)) * 100
            &&& incident.reasons[0] == "command failure anchor"@
            &&& match first_overlapping(record.commands, words, 0) {
                Some(k) => incident.summary.contains("command: "@ + clipped(
                    record.commands[k],
                    160,
                )),
                None => true,
            }
            &&& match first_free_tool(record.tools, used.tools, words, 0) {
                Some(k) => incident.summary.contains("tool: "@ + clipped(
                    record.tools[k].text,
                    180,
                )) && after.tools == used.tools.push(k as usize),
                None => after.tools == used.tools,
            }
        }),
{
    let words = first_words(
        match f.command {
            Some(c) => c,
            None => f.text,
        },
    );
    let s1 = with_command(seq!["failure: "@ + f.text], record.commands, words);
    let s2 = match first_free_tool(record.tools, used.tools, words, 0) {
        Some(k) => s1.push("tool: "@ + clipped(record.tools[k].text, 180)),
        None => s1,
    };
    let s3 = with_outputs(s2, used.outputs, record.outputs, words, 0).0;
    lemma_summary_stays(s2, used.outputs, record.outputs, words, 0);
    let s4 = with_edits(s3, used.edits, record.edits, words, 0).0;
    lemma_edits_stay(s3, used.edits, record.edits, words, 0);
    assert(s1[0] == "failure: "@ + f.text);
    assert(s2[0] == s1[0]);
    assert(s3[0] == s2[0]);
    assert(s4[0] == s3[0]);
    if first_overlapping(record.commands, words, 0) is Some {
        assert(s2[1] == s1[1]);
        assert(s3[1] == s2[1]);
        assert(s4[1] == s3[1]);
    }
    if first_free_tool(record.tools, used.tools, words, 0) is Some {
        let k = s1.len() as int;
        assert(s3[k] == s2[k]);
        assert(s4[k] == s3[k]);
    }
    let n = overlap(f.text, query);
    lemma_overlap_fits(f.text, query);
    assert(n * 200 == 200 * n) by (nonlinear_arith);
}

proof fn lemma_overlap_fits(text: Seq<char>, words: Seq<Seq<char>>)
    ensures
        overlap(text, words) <= words.len(),
    decreases words.len(),
{
    if words.len() > 0 {
        lemma_overlap_fits(text, words.drop_last());
    }
}

/// An incident of a tool is called by what failed and begins with it, and names the first
/// command that goes with it. It counts 8.5, 1.8 more for each word of the question in
/// it, and up to one more the more recent it is.
pub proof fn failed_tools_are_incidents(
    f: ToolFailureView,
    place: nat,
    out_of: nat,
    query: Seq<Seq<char>>,
    commands: Seq<Seq<char>>,
)
    requires
        place < out_of <= usize::MAX,
        query.len() <= usize::MAX,
    ensures
        ({
            let incident = tool_incident(f, place, out_of, query, commands);
            let n = overlap(f.text, query);
            &&& incident.title == f.text
            &&& incident.summary[0] == "tool failure: "@ + f.text
            &&& points(incident.score) == ((850 + 180 * n) * out_of + 100 * (out_of - place)) * 100
            &&& incident.reasons[0] == "tool failure anchor"@
            &&& match first_overlapping(commands, first_words(f.text), 0) {
                Some(k) => incident.summary == seq![
                    "tool failure: "@ + f.text,
                    "command: "@ + clipped(commands[k], 160),
                ],
                None => incident.summary.len() == 1,
            }
        }),
{
    let n = overlap(f.text, query);
    lemma_overlap_fits(f.text, query);
    assert(n * 180 == 180 * n) by (nonlinear_arith);
    if let Some(k) = first_overlapping(commands, first_words(f.text), 0) {
        assert(tool_incident(f, place, out_of, query, commands).summary =~= seq![
            "tool failure: "@ + f.text,
            "command: "@ + clipped(commands[k], 160),
        ]);
    }
}

/// Each failure makes an incident, commands before tools and each in order, as far as there
/// may be more.
pub proof fn failures_make_incidents(
    failures: Seq<CommandFailureView>,
    query: Seq<Seq<char>>,
    record: Record,
    max: nat,
    i: int,
)
    ensures
        ({
            let all = incidents_found(failures, query, record, max);
            &&& 0 <= i < failures.len() && i < max ==> i < all.len() && all[i].title
                == failures[i].text
            &&& 0 <= i < record.tools.len() && failures.len() + i < max ==> failures.len() + i
                < all.len() && all[failures.len() + i].title == record.tools[i].text
            &&& failures.len() + record.tools.len() > 0 && failures.len() + record.tools.len()
                <= max ==> all.len() == failures.len() + record.tools.len()
        }),
{
    let n = smaller(failures.len(), max);
    lemma_incident_titles(failures, n, query, record, i);
}

proof fn lemma_incident_titles(
    failures: Seq<CommandFailureView>,
    k: nat,
    query: Seq<Seq<char>>,
    record: Record,
    i: int,
)
    requires
        k <= failures.len(),
    ensures
        command_incidents(failures, k, query, record).0.len() == k,
        0 <= i < k ==> command_incidents(failures, k, query, record).0[i].title
            == failures[i].text,
    decreases k,
{
    if k > 0 {
        lemma_incident_titles(failures, (k - 1) as nat, query, record, i);
    }
}

/// Where nothing failed, the latest command and the two latest lines of output are told of,
/// as far as there are any.
pub proof fn recent_activity_is_told_of(
    query: Seq<Seq<char>>,
    commands: Seq<Seq<char>>,
    outputs: Seq<OutputRecord>,
    edits: Seq<FileEditRecord>,
    max: nat,
)
    requires
        max > 0,
    ensures
        ({
            let record = Record { commands, tools: Seq::empty(), outputs, edits };
            let all = incidents_found(Seq::empty(), query, record, max);
            let told = snapshot_summary(commands, outputs);
            &&& commands.len() == 0 && outputs.len() == 0 ==> all.len() == 0
            &&& commands.len() > 0 || outputs.len() > 0 ==> all.len() == 1 && all[0].title
                == "recent activity snapshot"@ && all[0].summary == told
            &&& commands.len() > 0 ==> told.contains("latest command: "@ + clipped(commands[0], 180))
            &&& outputs.len() > 0 ==> told.contains(output_note(outputs[0], 180))
            &&& outputs.len() > 1 ==> told.contains(output_note(outputs[1], 180))
            &&& told.len() <= 3
        }),
{
    let told = snapshot_summary(commands, outputs);
    let c: int = if commands.len() > 0 {
        1
    } else {
        0
    };
    if commands.len() > 0 {
        assert(told[0] == "latest command: "@ + clipped(commands[0], 180));
    }
    if outputs.len() > 0 {
        assert(told[c] == output_note(outputs[0], 180));
    }
    if outputs.len() > 1 {
        assert(told[c + 1] == output_note(outputs[1], 180));
    }
}

/// As evidence an incident reads as its title and, behind bars, the entries of its summary
/// in order; it has its reasons and its score, by the weight.
pub proof fn incidents_read_in_one_line(
    incidents: Seq<IncidentView>,
    weight: u32,
    i: int,
)
    requires
        0 <= i < incidents.len() <= usize::MAX,
    ensures
        incident_candidates(incidents, weight).len() == incidents.len(),
        ({
            let c = incident_candidates(incidents, weight)[i];
            let incident = incidents[i];
            &&& c.category is Incident
            &&& incident.summary.len() == 0 ==> c.text == incident.title
            &&& incident.summary.len() == 1 ==> c.text == incident.title + " | "@
                + incident.summary[0]
            &&& incident.summary.len() == 2 ==> c.text == incident.title + " | "@
                + incident.summary[0] + " | "@ + incident.summary[1]
            &&& c.reasons == incident.reasons
            &&& c.score == (EvidenceScore::Incident {
                score: incident.score,
                weight,
                place: i as usize,
                out_of: incidents.len() as usize,
            })
        }),
{
    let incident = incidents[i];
    let s = incident.summary;
    if s.len() == 2 {
        assert(s.drop_last().len() == 1);
        assert(joined(s.drop_last(), " | "@) == s[0]);
        assert(incident_text(incident) =~= incident.title + " | "@ + s[0] + " | "@ + s[1]);
    }
}

/// A snapshot of what went on counts two, however recent it is and whatever was asked.
pub proof fn snapshots_count_little(commands: Seq<Seq<char>>, outputs: Seq<OutputRecord>)
    ensures
        points(snapshot_incident(commands, outputs).score) == 200 * 100,
        snapshot_incident(commands, outputs).score.place == 0,
        snapshot_incident(commands, outputs).score.out_of == 1,
{
    let s = snapshot_incident(commands, outputs).score;
    assert(s.overlap * s.per_overlap == 0) by (nonlinear_arith)
        requires
            s.overlap == 0,
    ;
    assert(s.recency * (s.out_of - s.place) == 0) by (nonlinear_arith)
        requires
            s.recency == 0,
    ;
}

} // verus!
