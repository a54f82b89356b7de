//! Pieces of evidence for a question: what they say, why they count, and what
//! their score is made of.
use vstd::prelude::*;
use crate::failures::{
    command_failure_views, tool_failure_views, CommandFailure, CommandFailureView, ToolFailure,
    ToolFailureView,
};
use crate::intent::{
    contains_error_signal, error_words, overlap, token_overlap_count,
};
use crate::profile::Category;
use crate::text::{
    all_white, blank_texts_are_white, has_any, int_to_string, lowered, opt_text, push_text, same,
    signed_decimal, strs, text_or, to_lowercase, trim, trimmed,
};

verus! {

broadcast use vstd::string::group_string_axioms;

// ---------------------------------------------------------------------------
// Scores
// ---------------------------------------------------------------------------

/// The parts of a score. All of them but the counts are in hundredths. The score
/// is the sum of `base`, `overlap` times `per_overlap`, `stream`, `signal` and
/// `recency` times how recent the item is, all of that times `weight`. The first
/// of `out_of` items is as recent as can be, each later one less so by an equal
/// step; a sole item counts in full.
#[derive(Clone, Copy, Debug, PartialEq, Eq, Structural)]
pub struct Score {
    pub base: u32,
    pub overlap: usize,
    pub per_overlap: u32,
    pub stream: u32,
    pub signal: u32,
    pub recency: u32,
    pub place: usize,
    pub out_of: usize,
    pub weight: u32,
}

/// The score of a piece of evidence: its own, or that of an incident times
/// `weight`, plus how recent the incident is.
#[derive(Clone, Copy, Debug, PartialEq, Eq, Structural)]
pub enum EvidenceScore {
    Own(Score),
    Incident { score: Score, weight: u32, place: usize, out_of: usize },
}

/// A score of a base, an overlap and recency in full.
pub open spec fn plain_score(
    base: u32,
    overlap: nat,
    per_overlap: u32,
    place: nat,
    out_of: nat,
) -> Score {
    Score {
        base,
        overlap: overlap as usize,
        per_overlap,
        stream: 0,
        signal: 0,
        recency: 100,
        place: place as usize,
        out_of: out_of as usize,
        weight: 100,
    }
}

/// At least one.
pub open spec fn at_least_one(n: nat) -> nat {
    if n == 0 {
        1
    } else {
        n
    }
}

// ---------------------------------------------------------------------------
// Records and candidates
// ---------------------------------------------------------------------------

/// A printed line.
#[derive(Debug)]
pub struct OutputRecord {
    pub id: i64,
    pub ts_ms: Option<i64>,
    pub stream: String,
    pub line_text: String,
}

/// A file that was written.
#[derive(Debug)]
pub struct FileEditRecord {
    pub id: i64,
    pub ts_ms: Option<i64>,
    pub path: Option<String>,
    pub write_mode: Option<String>,
}

/// A fact that is kept with a session.
#[derive(Debug)]
pub struct ArtifactRecord {
    pub id: i64,
    pub artifact_type: String,
    pub text: String,
    pub ts_ms: Option<i64>,
}

/// A piece of evidence that may be selected.
#[derive(Debug)]
pub struct ScoredCandidate {
    pub category: Category,
    pub text: String,
    pub score: EvidenceScore,
    pub reasons: Vec<String>,
    pub source_id: Option<i64>,
    pub ts_ms: Option<i64>,
}

/// What a `ScoredCandidate` holds.
#[verifier::ext_equal]
pub struct CandidateView {
    pub category: Category,
    pub text: Seq<char>,
    pub score: EvidenceScore,
    pub reasons: Seq<Seq<char>>,
    pub source_id: Option<i64>,
    pub ts_ms: Option<i64>,
}

impl View for ScoredCandidate {
    type V = CandidateView;

    open spec fn view(&self) -> CandidateView {
        CandidateView {
            category: self.category,
            text: self.text@,
            score: self.score,
            reasons: strs(self.reasons@),
            source_id: self.source_id,
            ts_ms: self.ts_ms,
        }
    }
}

/// What a row of candidates holds.
pub open spec fn candidate_views(v: Seq<ScoredCandidate>) -> Seq<CandidateView> {
    Seq::new(v.len(), |i: int| v[i]@)
}

/// The views after one more candidate.
pub proof fn lemma_candidate_push(v: Seq<ScoredCandidate>, c: ScoredCandidate)
    ensures
        candidate_views(v.push(c)) == candidate_views(v).push(c@),
{
    assert(candidate_views(v.push(c)) =~= candidate_views(v).push(c@));
}

/// What `f` makes of 0, 1 and so on up to below `n`, where it makes anything.
pub open spec fn collected(n: nat, f: spec_fn(int) -> Option<CandidateView>) -> Seq<CandidateView>
    decreases n,
{
    if n == 0 {
        Seq::empty()
    } else {
        let before = collected((n - 1) as nat, f);
        match f(n - 1) {
            Some(c) => before.push(c),
            None => before,
        }
    }
}

/// The smaller of two numbers.
pub open spec fn smaller(a: nat, b: nat) -> nat {
    if a <= b {
        a
    } else {
        b
    }
}

fn one_reason(a: &str) -> (r: Vec<String>)
    ensures
        strs(r@) == seq![a@],
{
    let mut out: Vec<String> = Vec::new();
    out.push(a.to_string());
    assert(strs(out@) =~= seq![a@]);
    out
}

fn two_reasons(a: &str, b: &str) -> (r: Vec<String>)
    ensures
        strs(r@) == seq![a@, b@],
{
    let mut out: Vec<String> = Vec::new();
    out.push(a.to_string());
    out.push(b.to_string());
    assert(strs(out@) =~= seq![a@, b@]);
    out
}

fn three_reasons(a: &str, b: &str, c: &str) -> (r: Vec<String>)
    ensures
        strs(r@) == seq![a@, b@, c@],
{
    let mut out: Vec<String> = Vec::new();
    out.push(a.to_string());
    out.push(b.to_string());
    out.push(c.to_string());
    assert(strs(out@) =~= seq![a@, b@, c@]);
    out
}

/// The reason that a question's words stand in the text, or another one.
pub open spec fn overlap_reason(n: nat, other: Seq<char>) -> Seq<char> {
    if n > 0 {
        "query token overlap"@
    } else {
        other
    }
}

/// The time of an event as a reason.
pub open spec fn time_reason(ts_ms: Option<i64>) -> Seq<char> {
    match ts_ms {
        Some(ts) => "ts="@ + signed_decimal(ts as int),
        None => "ts=unknown"@,
    }
}

/// The time of an event as a reason.
pub fn ts_reason(ts_ms: Option<i64>) -> (r: String)
    ensures
        r@ == time_reason(ts_ms),
{
    match ts_ms {
        Some(ts) => {
            let mut s = "ts=".to_string();
            push_text(&mut s, int_to_string(ts).as_str());
            s
        },
        None => "ts=unknown".to_string(),
    }
}

// ---------------------------------------------------------------------------
// Failures
// ---------------------------------------------------------------------------

/// The evidence of a failed command.
pub open spec fn command_failure_evidence(
    f: CommandFailureView,
    place: nat,
    out_of: nat,
    words: Seq<Seq<char>>,
) -> CandidateView {
    let n = overlap(f.text, words);
    CandidateView {
        category: Category::FailureCommand,
        text: f.text,
        score: EvidenceScore::Own(plain_score(800, n, 250, place, out_of)),
        reasons: seq![
            "non-zero exit"@,
            overlap_reason(n, "recent failure"@),
            time_reason(f.ts_ms),
        ],
        source_id: None,
        ts_ms: f.ts_ms,
    }
}

/// The evidence of all failed commands.
pub open spec fn command_failure_candidates(
    failures: Seq<CommandFailureView>,
    words: Seq<Seq<char>>,
) -> Seq<CandidateView> {
    Seq::new(
        failures.len(),
        |i: int|
            command_failure_evidence(
                failures[i],
                i as nat,
                at_least_one(failures.len()),
                words,
            ),
    )
}

/// The evidence of all failed commands.
pub fn score_command_failures(failures: &Vec<CommandFailure>, tokens: &Vec<String>) -> (r: Vec<
    ScoredCandidate,
>)
    ensures
        candidate_views(r@) == command_failure_candidates(
            command_failure_views(failures@),
            strs(tokens@),
        ),
{
    let total: usize = if failures.len() == 0 { 1 } else { failures.len() };
    let mut out: Vec<ScoredCandidate> = Vec::new();
    let mut i: usize = 0;
    while i < failures.len()
        invariant
            total == at_least_one(failures@.len()),
            i <= failures@.len(),
            out@.len() == i,
            forall|k: int|
                0 <= k < i ==> (#[trigger] out@[k])@ == command_failure_evidence(
                    failures@[k]@,
                    k as nat,
                    at_least_one(failures@.len()),
                    strs(tokens@),
                ),
        decreases failures@.len() - i,
    {
        let failure = &failures[i];
        let n: usize = token_overlap_count(failure.text.as_str(), tokens);
        let why = if n > 0 { "query token overlap" } else { "recent failure" };
        let when = ts_reason(failure.ts_ms);
        let reasons = three_reasons("non-zero exit", why, when.as_str());
        let c = ScoredCandidate {
            category: Category::FailureCommand,
            text: failure.text.clone(),
            score: EvidenceScore::Own(
                Score {
                    base: 800,
                    overlap: n,
                    per_overlap: 250,
                    stream: 0,
                    signal: 0,
                    recency: 100,
                    place: i,
                    out_of: total,
                    weight: 100,
                },
            ),
            reasons,
            source_id: None,
            ts_ms: failure.ts_ms,
        };
        out.push(c);
        i = i + 1;
    }
    assert(candidate_views(out@) =~= command_failure_candidates(
        command_failure_views(failures@),
        strs(tokens@),
    ));
    out
}

/// The evidence of a failed tool call.
pub open spec fn tool_failure_evidence(
    f: ToolFailureView,
    place: nat,
    out_of: nat,
    words: Seq<Seq<char>>,
) -> CandidateView {
    let n = overlap(f.text, words);
    CandidateView {
        category: Category::FailureTool,
        text: f.text,
        score: EvidenceScore::Own(plain_score(700, n, 200, place, out_of)),
        reasons: seq![
            "tool failure"@,
            overlap_reason(n, "recent failure"@),
            time_reason(f.ts_ms),
        ],
        source_id: None,
        ts_ms: f.ts_ms,
    }
}

/// The evidence of all failed tool calls.
pub open spec fn tool_failure_candidates(
    failures: Seq<ToolFailureView>,
    words: Seq<Seq<char>>,
) -> Seq<CandidateView> {
    Seq::new(
        failures.len(),
        |i: int|
            tool_failure_evidence(failures[i], i as nat, at_least_one(failures.len()), words),
    )
}

/// The evidence of all failed tool calls.
pub fn score_tool_failures(failures: &Vec<ToolFailure>, tokens: &Vec<String>) -> (r: Vec<
    ScoredCandidate,
>)
    ensures
        candidate_views(r@) == tool_failure_candidates(
            tool_failure_views(failures@),
            strs(tokens@),
        ),
{
    let total: usize = if failures.len() == 0 { 1 } else { failures.len() };
    let mut out: Vec<ScoredCandidate> = Vec::new();
    let mut i: usize = 0;
    while i < failures.len()
        invariant
            total == at_least_one(failures@.len()),
            i <= failures@.len(),
            out@.len() == i,
            forall|k: int|
                0 <= k < i ==> (#[trigger] out@[k])@ == tool_failure_evidence(
                    failures@[k]@,
                    k as nat,
                    at_least_one(failures@.len()),
                    strs(tokens@),
                ),
        decreases failures@.len() - i,
    {
        let failure = &failures[i];
        let n: usize = token_overlap_count(failure.text.as_str(), tokens);
        let why = if n > 0 { "query token overlap" } else { "recent failure" };
        let when = ts_reason(failure.ts_ms);
        let reasons = three_reasons("tool failure", why, when.as_str());
        let c = ScoredCandidate {
            category: Category::FailureTool,
            text: failure.text.clone(),
            score: EvidenceScore::Own(
                Score {
                    base: 700,
                    overlap: n,
                    per_overlap: 200,
                    stream: 0,
                    signal: 0,
                    recency: 100,
                    place: i,
                    out_of: total,
                    weight: 100,
                },
            ),
            reasons,
            source_id: None,
            ts_ms: failure.ts_ms,
        };
        out.push(c);
        i = i + 1;
    }
    assert(candidate_views(out@) =~= tool_failure_candidates(
        tool_failure_views(failures@),
        strs(tokens@),
    ));
    out
}

// ---------------------------------------------------------------------------
// Lines and edits
// ---------------------------------------------------------------------------

/// The evidence of a typed line: none for a blank one, nor for one without a
/// word of the question, if the question has any.
pub open spec fn command_evidence(
    line: Seq<char>,
    place: nat,
    out_of: nat,
    words: Seq<Seq<char>>,
) -> Option<CandidateView> {
    let text = trimmed(line);
    let n = overlap(text, words);
    if text.len() == 0 || (n == 0 && words.len() > 0) {
        None
    } else {
        Some(
            CandidateView {
                category: Category::Command,
                text,
                score: EvidenceScore::Own(
                    Score { recency: 80, ..plain_score(0, n, 220, place, out_of) },
                ),
                reasons: seq![overlap_reason(n, "recent command"@)],
                source_id: None,
                ts_ms: None,
            },
        )
    }
}

/// The evidence of the first `max_scan` typed lines.
pub open spec fn command_candidates(
    lines: Seq<Seq<char>>,
    words: Seq<Seq<char>>,
    max_scan: nat,
) -> Seq<CandidateView> {
    let n = smaller(max_scan, lines.len());
    collected(n, |i: int| command_evidence(lines[i], i as nat, at_least_one(n), words))
}

/// The evidence of the first `max_scan` typed lines.
pub fn score_commands(lines: &Vec<String>, tokens: &Vec<String>, max_scan: usize) -> (r: Vec<
    ScoredCandidate,
>)
    ensures
        candidate_views(r@) == command_candidates(strs(lines@), strs(tokens@), max_scan as nat),
{
    let scan: usize = if max_scan < lines.len() { max_scan } else { lines.len() };
    let total: usize = if scan == 0 { 1 } else { scan };
    let mut out: Vec<ScoredCandidate> = Vec::new();
    let mut i: usize = 0;
    let ghost words = strs(tokens@);
    let ghost f = |i: int|
        command_evidence(strs(lines@)[i], i as nat, at_least_one(scan as nat), words);
    assert(candidate_views(out@) =~= collected(0, f));
    while i < scan
        invariant
            scan <= lines@.len(),
            total == at_least_one(scan as nat),
            words == strs(tokens@),
            f == (|i: int|
                command_evidence(strs(lines@)[i], i as nat, at_least_one(scan as nat), words)),
            i <= scan,
            candidate_views(out@) == collected(i as nat, f),
        decreases scan - i,
    {
        let text = trim(lines[i].as_str());
        let n: usize = token_overlap_count(text.as_str(), tokens);
        assert(words.len() == tokens@.len());
        if text.as_str().is_empty() || (n == 0 && tokens.len() > 0) {
            assert(f(i as int) is None);
        } else {
            let why = if n > 0 { "query token overlap" } else { "recent command" };
            let c = ScoredCandidate {
                category: Category::Command,
                text,
                score: EvidenceScore::Own(
                    Score {
                        base: 0,
                        overlap: n,
                        per_overlap: 220,
                        stream: 0,
                        signal: 0,
                        recency: 80,
                        place: i,
                        out_of: total,
                        weight: 100,
                    },
                ),
                reasons: one_reason(why),
                source_id: None,
                ts_ms: None,
            };
            assert(f(i as int) == Some(c@));
            proof {
                lemma_candidate_push(out@, c);
            }
            out.push(c);
        }
        i = i + 1;
    }
    out
}

/// The reasons for a printed line.
pub open spec fn output_reasons(stderr: bool, error: bool, n: nat) -> Seq<Seq<char>> {
    let a: Seq<Seq<char>> = if stderr {
        seq!["stderr stream"@]
    } else {
        Seq::empty()
    };
    let b = if error {
        a.push("error signal"@)
    } else {
        a
    };
    let c = if n > 0 {
        b.push("query token overlap"@)
    } else {
        b
    };
    if c.len() == 0 {
        c.push("recent output"@)
    } else {
        c
    }
}

/// The evidence of a printed line. It takes a score of 2.5 to count: an error
/// stream, an error signal or two words of the question, or one word in the more
/// recent half.
pub open spec fn output_evidence(
    rec: OutputRecord,
    place: nat,
    out_of: nat,
    words: Seq<Seq<char>>,
) -> Option<CandidateView> {
    let text = trimmed(rec.line_text@);
    let low = lowered(text);
    let n = overlap(low, words);
    let stderr = rec.stream@ == "stderr"@;
    let error = has_any(low, error_words());
    if text.len() == 0 || !(stderr || error || n >= 2 || (n == 1 && 2 * (out_of - place)
        >= out_of)) {
        None
    } else {
        Some(
            CandidateView {
                category: Category::Output,
                text: "["@ + rec.stream@ + "] "@ + text,
                score: EvidenceScore::Own(
                    Score {
                        stream: if stderr {
                            250
                        } else {
                            0
                        },
                        signal: if error {
                            300
                        } else {
                            0
                        },
                        ..plain_score(0, n, 200, place, out_of)
                    },
                ),
                reasons: output_reasons(stderr, error, n),
                source_id: Some(rec.id),
                ts_ms: rec.ts_ms,
            },
        )
    }
}

/// The evidence of the first `max_scan` printed lines.
pub open spec fn output_candidates(
    lines: Seq<OutputRecord>,
    words: Seq<Seq<char>>,
    max_scan: nat,
) -> Seq<CandidateView> {
    let n = smaller(max_scan, lines.len());
    collected(n, |i: int| output_evidence(lines[i], i as nat, at_least_one(n), words))
}

fn reasons_for_output(stderr: bool, error: bool, n: usize) -> (r: Vec<String>)
    ensures
        strs(r@) == output_reasons(stderr, error, n as nat),
{
    let mut reasons: Vec<String> = Vec::new();
    if stderr {
        reasons.push("stderr stream".to_string());
    }
    if error {
        reasons.push("error signal".to_string());
    }
    if n > 0 {
        reasons.push("query token overlap".to_string());
    }
    if reasons.len() == 0 {
        reasons.push("recent output".to_string());
    }
    assert(strs(reasons@) =~= output_reasons(stderr, error, n as nat));
    reasons
}

/// A printed line with its stream in brackets before it.
pub fn decorated(stream: &str, text: &str) -> (r: String)
    ensures
        r@ == "["@ + stream@ + "] "@ + text@,
{
    let mut s = "[".to_string();
    push_text(&mut s, stream);
    push_text(&mut s, "] ");
    push_text(&mut s, text);
    s
}

/// The evidence of the first `max_scan` printed lines.
pub fn score_output(lines: &Vec<OutputRecord>, tokens: &Vec<String>, max_scan: usize) -> (r: Vec<
    ScoredCandidate,
>)
    ensures
        candidate_views(r@) == output_candidates(lines@, strs(tokens@), max_scan as nat),
{
    let scan: usize = if max_scan < lines.len() { max_scan } else { lines.len() };
    let total: usize = if scan == 0 { 1 } else { scan };
    let mut out: Vec<ScoredCandidate> = Vec::new();
    let mut i: usize = 0;
    let ghost words = strs(tokens@);
    let ghost f = |i: int| output_evidence(lines@[i], i as nat, at_least_one(scan as nat), words);
    assert(candidate_views(out@) =~= collected(0, f));
    while i < scan
        invariant
            scan <= lines@.len(),
            total == at_least_one(scan as nat),
            words == strs(tokens@),
            f == (|i: int|
                output_evidence(lines@[i], i as nat, at_least_one(scan as nat), words)),
            i <= scan,
            candidate_views(out@) == collected(i as nat, f),
        decreases scan - i,
    {
        let rec = &lines[i];
        let text = trim(rec.line_text.as_str());
        let low = to_lowercase(text.as_str());
        let n: usize = token_overlap_count(low.as_str(), tokens);
        let stderr = same(rec.stream.as_str(), "stderr");
        let error = contains_error_signal(low.as_str());
        if text.as_str().is_empty() || !(stderr || error || n >= 2 || (n == 1 && total - i
            >= i)) {
            assert(f(i as int) is None);
        } else {
            let c = ScoredCandidate {
                category: Category::Output,
                text: decorated(rec.stream.as_str(), text.as_str()),
                score: EvidenceScore::Own(
                    Score {
                        base: 0,
                        overlap: n,
                        per_overlap: 200,
                        stream: if stderr { 250 } else { 0 },
                        signal: if error { 300 } else { 0 },
                        recency: 100,
                        place: i,
                        out_of: total,
                        weight: 100,
                    },
                ),
                reasons: reasons_for_output(stderr, error, n),
                source_id: Some(rec.id),
                ts_ms: rec.ts_ms,
            };
            assert(f(i as int) == Some(c@));
            proof {
                lemma_candidate_push(out@, c);
            }
            out.push(c);
        }
        i = i + 1;
    }
    out
}

/// The path of an edit with how it was written in brackets after it.
pub open spec fn edit_text(path: Seq<char>, mode: Option<Seq<char>>) -> Seq<char> {
    path + " ("@ + text_or(mode, "unknown"@) + ")"@
}

/// The path of an edit with how it was written in brackets after it.
pub fn edited(path: &str, mode: &Option<String>) -> (r: String)
    ensures
        r@ == edit_text(path@, opt_text(*mode)),
{
    let mut s = path.to_string();
    push_text(&mut s, " (");
    match mode {
        Some(m) => push_text(&mut s, m.as_str()),
        None => push_text(&mut s, "unknown"),
    }
    push_text(&mut s, ")");
    s
}

/// The evidence of an edit: none where its path is blank or missing.
pub open spec fn edit_evidence(
    rec: FileEditRecord,
    place: nat,
    out_of: nat,
    words: Seq<Seq<char>>,
) -> Option<CandidateView> {
    match rec.path {
        None => None,
        Some(p) => {
            let path = trimmed(p@);
            let n = overlap(path, words);
            if path.len() == 0 {
                None
            } else {
                Some(
                    CandidateView {
                        category: Category::Edit,
                        text: edit_text(path, opt_text(rec.write_mode)),
                        score: EvidenceScore::Own(
                            Score { recency: 50, ..plain_score(160, n, 180, place, out_of) },
                        ),
                        reasons: seq![overlap_reason(n, "recent edit"@)],
                        source_id: Some(rec.id),
                        ts_ms: rec.ts_ms,
                    },
                )
            }
        },
    }
}

/// The evidence of the first `max_scan` edits.
pub open spec fn edit_candidates(
    edits: Seq<FileEditRecord>,
    words: Seq<Seq<char>>,
    max_scan: nat,
) -> Seq<CandidateView> {
    let n = smaller(max_scan, edits.len());
    collected(n, |i: int| edit_evidence(edits[i], i as nat, at_least_one(n), words))
}

/// The evidence of the first `max_scan` edits.
pub fn score_edits(edits: &Vec<FileEditRecord>, tokens: &Vec<String>, max_scan: usize) -> (r: Vec<
    ScoredCandidate,
>)
    ensures
        candidate_views(r@) == edit_candidates(edits@, strs(tokens@), max_scan as nat),
{
    let scan: usize = if max_scan < edits.len() { max_scan } else { edits.len() };
    let total: usize = if scan == 0 { 1 } else { scan };
    let mut out: Vec<ScoredCandidate> = Vec::new();
    let mut i: usize = 0;
    let ghost words = strs(tokens@);
    let ghost f = |i: int| edit_evidence(edits@[i], i as nat, at_least_one(scan as nat), words);
    assert(candidate_views(out@) =~= collected(0, f));
    while i < scan
        invariant
            scan <= edits@.len(),
            total == at_least_one(scan as nat),
            words == strs(tokens@),
            f == (|i: int| edit_evidence(edits@[i], i as nat, at_least_one(scan as nat), words)),
            i <= scan,
            candidate_views(out@) == collected(i as nat, f),
        decreases scan - i,
    {
        let rec = &edits[i];
        let path = match &rec.path {
            Some(p) => trim(p.as_str()),
            None => String::new(),
        };
        if path.as_str().is_empty() {
            assert(f(i as int) is None);
        } else {
            let n: usize = token_overlap_count(path.as_str(), tokens);
            let why = if n > 0 { "query token overlap" } else { "recent edit" };
            let c = ScoredCandidate {
                category: Category::Edit,
                text: edited(path.as_str(), &rec.write_mode),
                score: EvidenceScore::Own(
                    Score {
                        base: 160,
                        overlap: n,
                        per_overlap: 180,
                        stream: 0,
                        signal: 0,
                        recency: 50,
                        place: i,
                        out_of: total,
                        weight: 100,
                    },
                ),
                reasons: one_reason(why),
                source_id: Some(rec.id),
                ts_ms: rec.ts_ms,
            };
            assert(f(i as int) == Some(c@));
            proof {
                lemma_candidate_push(out@, c);
            }
            out.push(c);
        }
        i = i + 1;
    }
    out
}

// ---------------------------------------------------------------------------
// Artifacts
// ---------------------------------------------------------------------------

/// What an artifact counts by its kind.
pub open spec fn artifact_base(kind: Seq<char>) -> u32 {
    if kind == "blocker"@ {
        600
    } else if kind == "todo"@ {
        400
    } else if kind == "decision"@ {
        450
    } else if kind == "edit"@ {
        350
    } else {
        250
    }
}

/// The evidence of an artifact.
pub open spec fn artifact_evidence(
    rec: ArtifactRecord,
    place: nat,
    out_of: nat,
    words: Seq<Seq<char>>,
    weight: u32,
) -> CandidateView {
    let n = overlap(rec.text@, words);
    CandidateView {
        category: Category::Artifact,
        text: "["@ + rec.artifact_type@ + "] "@ + rec.text@,
        score: EvidenceScore::Own(
            Score {
                weight,
                ..plain_score(artifact_base(rec.artifact_type@), n, 200, place, out_of)
            },
        ),
        reasons: seq!["persistent context artifact"@, overlap_reason(n, "recent artifact"@)],
        source_id: Some(rec.id),
        ts_ms: rec.ts_ms,
    }
}

/// The evidence of all artifacts.
pub open spec fn artifact_candidates(
    artifacts: Seq<ArtifactRecord>,
    words: Seq<Seq<char>>,
    weight: u32,
) -> Seq<CandidateView> {
    Seq::new(
        artifacts.len(),
        |i: int|
            artifact_evidence(
                artifacts[i],
                i as nat,
                at_least_one(artifacts.len()),
                words,
                weight,
            ),
    )
}

/// The evidence of all artifacts.
pub fn score_artifacts(artifacts: &Vec<ArtifactRecord>, tokens: &Vec<String>, weight: u32) -> (r:
    Vec<ScoredCandidate>)
    ensures
        candidate_views(r@) == artifact_candidates(artifacts@, strs(tokens@), weight),
{
    let total: usize = if artifacts.len() == 0 { 1 } else { artifacts.len() };
    let mut out: Vec<ScoredCandidate> = Vec::new();
    let mut i: usize = 0;
    while i < artifacts.len()
        invariant
            total == at_least_one(artifacts@.len()),
            i <= artifacts@.len(),
            out@.len() == i,
            forall|k: int|
                0 <= k < i ==> (#[trigger] out@[k])@ == artifact_evidence(
                    artifacts@[k],
                    k as nat,
                    at_least_one(artifacts@.len()),
                    strs(tokens@),
                    weight,
                ),
        decreases artifacts@.len() - i,
    {
        let rec = &artifacts[i];
        let n: usize = token_overlap_count(rec.text.as_str(), tokens);
        let kind = rec.artifact_type.as_str();
        let base: u32 = if same(kind, "blocker") {
            600
        } else if same(kind, "todo") {
            400
        } else if same(kind, "decision") {
            450
        } else if same(kind, "edit") {
            350
        } else {
            250
        };
        let why = if n > 0 { "query token overlap" } else { "recent artifact" };
        let c = ScoredCandidate {
            category: Category::Artifact,
            text: decorated(kind, rec.text.as_str()),
            score: EvidenceScore::Own(
                Score {
                    base,
                    overlap: n,
                    per_overlap: 200,
                    stream: 0,
                    signal: 0,
                    recency: 100,
                    place: i,
                    out_of: total,
                    weight,
                },
            ),
            reasons: two_reasons("persistent context artifact", why),
            source_id: Some(rec.id),
            ts_ms: rec.ts_ms,
        };
        out.push(c);
        i = i + 1;
    }
    assert(candidate_views(out@) =~= artifact_candidates(artifacts@, strs(tokens@), weight));
    out
}

// ---------------------------------------------------------------------------
// What counts, and for how much
// ---------------------------------------------------------------------------

/// What a score comes to, in hundredths, times the number of items that it was ranked
/// among and times a hundred for its weight.
pub open spec fn points(s: Score) -> int {
    ((s.base + s.overlap * s.per_overlap + s.stream + s.signal) * s.out_of + s.recency * (s.out_of
        - s.place)) * s.weight
}

proof fn lemma_fits(words: Seq<Seq<char>>, text: Seq<char>)
    ensures
        overlap(text, words) <= words.len(),
    decreases words.len(),
{
    if words.len() > 0 {
        lemma_fits(words.drop_last(), text);
    }
}

/// A failed command is evidence that says what failed and when. It counts eight, two and a
/// half more for each word of the question in it, and up to one more the more recent it
/// is.
pub proof fn failed_commands_are_evidence(
    failures: Seq<CommandFailureView>,
    words: Seq<Seq<char>>,
    i: int,
)
    requires
        0 <= i < failures.len() <= usize::MAX,
        words.len() <= usize::MAX,
    ensures
        command_failure_candidates(failures, words).len() == failures.len(),
        ({
            let c = command_failure_candidates(failures, words)[i];
            let n = overlap(failures[i].text, words);
            let total = failures.len() as int;
            &&& c.category is FailureCommand
            &&& c.text == failures[i].text
            &&& c.ts_ms == failures[i].ts_ms
            &&& c.score is Own
            &&& points(c.score->Own_0) == ((800 + 250 * n) * total + 100 * (total - i)) * 100
            &&& c.reasons.contains("query token overlap"@) <==> n > 0
            &&& c.reasons.contains(time_reason(failures[i].ts_ms))
        }),
{
    let n = overlap(failures[i].text, words);
    lemma_fits(words, failures[i].text);
    let c = command_failure_candidates(failures, words)[i];
    assert(n * 250 == 250 * n) by (nonlinear_arith);
    let r = c.reasons;
    assert(r[0] == "non-zero exit"@ && r[2] == time_reason(failures[i].ts_ms));
    assert(r[1] == overlap_reason(n, "recent failure"@));
    lemma_reasons(r, n, failures[i].ts_ms);
}

proof fn lemma_reasons(r: Seq<Seq<char>>, n: nat, ts_ms: Option<i64>)
    requires
        r.len() == 3,
        r[0] == "non-zero exit"@ || r[0] == "tool failure"@,
        r[1] == overlap_reason(n, "recent failure"@),
        r[2] == time_reason(ts_ms),
    ensures
        r.contains("query token overlap"@) <==> n > 0,
{
    reveal_strlit("query token overlap");
    reveal_strlit("recent failure");
    reveal_strlit("non-zero exit");
    reveal_strlit("tool failure");
    reveal_strlit("ts=");
    reveal_strlit("ts=unknown");
    assert("query token overlap"@.len() == 19 && "query token overlap"@[0] == 'q');
    assert("recent failure"@.len() == 14 && "non-zero exit"@.len() == 13);
    assert("tool failure"@.len() == 12);
    assert(time_reason(ts_ms)[0] == 't');
    if n > 0 {
        assert(r[1] == "query token overlap"@);
    }
}

/// A failed tool call is evidence that says what failed and when. It counts seven, two more
/// for each word of the question in it, and up to one more the more recent it is.
pub proof fn failed_tools_are_evidence(
    failures: Seq<ToolFailureView>,
    words: Seq<Seq<char>>,
    i: int,
)
    requires
        0 <= i < failures.len() <= usize::MAX,
        words.len() <= usize::MAX,
    ensures
        tool_failure_candidates(failures, words).len() == failures.len(),
        ({
            let c = tool_failure_candidates(failures, words)[i];
            let n = overlap(failures[i].text, words);
            let total = failures.len() as int;
            &&& c.category is FailureTool
            &&& c.text == failures[i].text
            &&& c.ts_ms == failures[i].ts_ms
            &&& c.score is Own
            &&& points(c.score->Own_0) == ((700 + 200 * n) * total + 100 * (total - i)) * 100
            &&& c.reasons.contains("query token overlap"@) <==> n > 0
            &&& c.reasons.contains(time_reason(failures[i].ts_ms))
        }),
{
    let n = overlap(failures[i].text, words);
    lemma_fits(words, failures[i].text);
    let c = tool_failure_candidates(failures, words)[i];
    assert(n * 200 == 200 * n) by (nonlinear_arith);
    let r = c.reasons;
    assert(r[0] == "tool failure"@ && r[2] == time_reason(failures[i].ts_ms));
    assert(r[1] == overlap_reason(n, "recent failure"@));
    lemma_reasons(r, n, failures[i].ts_ms);
}

/// A time is told by its number, and one that is not known is so called.
pub proof fn times_are_told(ts: i64)
    ensures
        time_reason(Some(ts)) == seq!['t', 's', '='] + signed_decimal(ts as int),
        time_reason(None) == "ts=unknown"@,
{
    reveal_strlit("ts=");
    assert("ts="@ =~= seq!['t', 's', '=']);
}

/// A typed line is evidence if it has a word of the question in it; where the question has
/// none every line is that is not blank. It counts 2.2 for each word and up to 0.8 the
/// more recent it is, and reads without the white space around it.
pub proof fn typed_lines_are_evidence(
    line: Seq<char>,
    place: nat,
    out_of: nat,
    words: Seq<Seq<char>>,
)
    requires
        place < out_of <= usize::MAX,
        words.len() <= usize::MAX,
    ensures
        match command_evidence(line, place, out_of, words) {
            Some(c) => {
                let n = overlap(trimmed(line), words);
                &&& !all_white(line)
                &&& words.len() == 0 || n > 0
                &&& c.category is Command
                &&& c.text == trimmed(line)
                &&& c.score is Own
                &&& points(c.score->Own_0) == (220 * n * out_of + 80 * (out_of - place)) * 100
            },
            None => all_white(line) || words.len() > 0 && overlap(trimmed(line), words) == 0,
        },
{
    blank_texts_are_white(line);
    let n = overlap(trimmed(line), words);
    lemma_fits(words, trimmed(line));
    assert(n * 220 == 220 * n) by (nonlinear_arith);
}

/// A printed line is evidence if it came on the error stream, tells of an error, has two
/// words of the question in it, or one and stands in the more recent half; it bears its
/// number and reads under its stream. It counts 2.5 for the error stream, three for the
/// signal, two for each word and up to one the more recent it is.
pub proof fn printed_lines_are_evidence(
    rec: OutputRecord,
    place: nat,
    out_of: nat,
    words: Seq<Seq<char>>,
)
    requires
        place < out_of <= usize::MAX,
        words.len() <= usize::MAX,
    ensures
        ({
            let text = trimmed(rec.line_text@);
            let n = overlap(lowered(text), words);
            let loud = rec.stream@ == "stderr"@;
            let bad = has_any(lowered(text), error_words());
            match output_evidence(rec, place, out_of, words) {
                Some(c) => {
                    &&& !all_white(rec.line_text@)
                    &&& loud || bad || n >= 2 || n == 1 && 2 * place <= out_of
                    &&& c.category is Output
                    &&& c.text == seq!['['] + rec.stream@ + seq![']', ' '] + text
                    &&& c.source_id == Some(rec.id)
                    &&& c.ts_ms == rec.ts_ms
                    &&& c.score is Own
                    &&& points(c.score->Own_0) == ((200 * n + (if loud {
                        250int
                    } else {
                        0
                    }) + (if bad {
                        300int
                    } else {
                        0
                    })) * out_of + 100 * (out_of - place)) * 100
                },
                None => all_white(rec.line_text@) || !loud && !bad && (n == 0 || n == 1 && 2 * place
                    > out_of),
            }
        }),
{
    reveal_strlit("[");
    reveal_strlit("] ");
    assert("["@ =~= seq!['[']);
    assert("] "@ =~= seq![']', ' ']);
    blank_texts_are_white(rec.line_text@);
    let text = trimmed(rec.line_text@);
    let n = overlap(lowered(text), words);
    lemma_fits(words, lowered(text));
    assert(n * 200 == 200 * n) by (nonlinear_arith);
}

/// The reasons for a printed line are those that hold of it: the error stream, the signal,
/// words of the question; a line for which none holds is recent.
pub proof fn printed_lines_have_their_reasons(stderr: bool, error: bool, n: nat)
    ensures
        output_reasons(stderr, error, n).contains("stderr stream"@) <==> stderr,
        output_reasons(stderr, error, n).contains("error signal"@) <==> error,
        output_reasons(stderr, error, n).contains("query token overlap"@) <==> n > 0,
        output_reasons(stderr, error, n).contains("recent output"@) <==> !stderr && !error && n
            == 0,
{
    reveal_strlit("stderr stream");
    reveal_strlit("error signal");
    reveal_strlit("query token overlap");
    reveal_strlit("recent output");
    assert("stderr stream"@.len() == 13 && "stderr stream"@[0] == 's');
    assert("error signal"@.len() == 12);
    assert("query token overlap"@.len() == 19);
    assert("recent output"@.len() == 13 && "recent output"@[0] == 'r');
    let r = output_reasons(stderr, error, n);
    let a: int = if stderr {
        1
    } else {
        0
    };
    let b: int = if error {
        a + 1
    } else {
        a
    };
    if stderr {
        assert(r[0] == "stderr stream"@);
    }
    if error {
        assert(r[a] == "error signal"@);
    }
    if n > 0 {
        assert(r[b] == "query token overlap"@);
    }
    if !stderr && !error && n == 0 {
        assert(r[0] == "recent output"@);
    }
}

/// An edit is evidence if its path is known and not blank; it reads as its path and its
/// mode and bears its number. It counts 1.6, 1.8 more for each word of the question in
/// its path, and up to 0.5 more the more recent it is.
pub proof fn edits_are_evidence(
    rec: FileEditRecord,
    place: nat,
    out_of: nat,
    words: Seq<Seq<char>>,
)
    requires
        place < out_of <= usize::MAX,
        words.len() <= usize::MAX,
    ensures
        match edit_evidence(rec, place, out_of, words) {
            Some(c) => {
                let path = trimmed(rec.path->Some_0@);
                let n = overlap(path, words);
                &&& rec.path is Some
                &&& !all_white(rec.path->Some_0@)
                &&& c.category is Edit
                &&& rec.write_mode is Some ==> c.text == path + seq![' ', '(']
                    + rec.write_mode->Some_0@ + seq![')']
                &&& rec.write_mode is None ==> c.text == path + seq![' ', '('] + "unknown"@ + seq![
                    ')',
                ]
                &&& c.source_id == Some(rec.id)
                &&& c.ts_ms == rec.ts_ms
                &&& c.score is Own
                &&& points(c.score->Own_0) == ((160 + 180 * n) * out_of + 50 * (out_of - place))
                    * 100
            },
            None => rec.path is None || all_white(rec.path->Some_0@),
        },
{
    reveal_strlit(" (");
    reveal_strlit(")");
    assert(" ("@ =~= seq![' ', '(']);
    assert(")"@ =~= seq![')']);
    if let Some(p) = rec.path {
        blank_texts_are_white(p@);
        let n = overlap(trimmed(p@), words);
        lemma_fits(words, trimmed(p@));
        assert(n * 180 == 180 * n) by (nonlinear_arith);
    }
}

/// A note is evidence that reads under its kind and bears its number. What stands in the
/// way counts six, a decision 4.5, work to come four, an edit 3.5 and any other note
/// 2.5; each word of the question in it counts two more, and it counts up to one more
/// the more recent it is, all by the weight.
pub proof fn notes_are_evidence(
    artifacts: Seq<ArtifactRecord>,
    words: Seq<Seq<char>>,
    weight: u32,
    i: int,
)
    requires
        0 <= i < artifacts.len() <= usize::MAX,
        words.len() <= usize::MAX,
    ensures
        artifact_candidates(artifacts, words, weight).len() == artifacts.len(),
        ({
            let rec = artifacts[i];
            let c = artifact_candidates(artifacts, words, weight)[i];
            let n = overlap(rec.text@, words);
            let total = artifacts.len() as int;
            let base: int = if rec.artifact_type@ == "blocker"@ {
                600
            } else if rec.artifact_type@ == "decision"@ {
                450
            } else if rec.artifact_type@ == "todo"@ {
                400
            } else if rec.artifact_type@ == "edit"@ {
                350
            } else {
                250
            };
            &&& c.category is Artifact
            &&& c.text == seq!['['] + rec.artifact_type@ + seq![']', ' '] + rec.text@
            &&& c.source_id == Some(rec.id)
            &&& c.ts_ms == rec.ts_ms
            &&& c.score is Own
            &&& points(c.score->Own_0) == ((base + 200 * n) * total + 100 * (total - i)) * weight
        }),
{
    reveal_strlit("[");
    reveal_strlit("] ");
    assert("["@ =~= seq!['[']);
    assert("] "@ =~= seq![']', ' ']);
    reveal_strlit("decision");
    reveal_strlit("todo");
    assert("decision"@.len() == 8 && "todo"@.len() == 4);
    let n = overlap(artifacts[i].text@, words);
    lemma_fits(words, artifacts[i].text@);
    assert(n * 200 == 200 * n) by (nonlinear_arith);
}

/// What is collected is what is made of each place in order, where anything is.
pub proof fn everything_made_is_collected(
    n: nat,
    f: spec_fn(int) -> Option<CandidateView>,
    c: CandidateView,
)
    ensures
        collected(n, f).contains(c) <==> exists|i: int| 0 <= i < n && #[trigger] f(i) == Some(c),
        collected(0, f).len() == 0,
        f(n as int) is Some ==> collected(n + 1, f) == collected(n, f).push(f(n as int)->Some_0),
        f(n as int) is None ==> collected(n + 1, f) == collected(n, f),
    decreases n,
{
    if n > 0 {
        everything_made_is_collected((n - 1) as nat, f, c);
        let before = collected((n - 1) as nat, f);
        let all = collected(n, f);
        if before.contains(c) {
            let k = choose|k: int| 0 <= k < before.len() && before[k] == c;
            assert(all[k] == c);
        }
        if f(n - 1) == Some(c) {
            assert(all[before.len() as int] == c);
        }
        if all.contains(c) {
            let k = choose|k: int| 0 <= k < all.len() && all[k] == c;
            if k < before.len() {
                assert(before[k] == c);
            }
        }
    }
}

/// Only the latest lines and edits are looked at, as many as the bound says: every one of
/// them that makes evidence is collected, and nothing else.
pub proof fn the_latest_are_looked_at(
    lines: Seq<Seq<char>>,
    outputs: Seq<OutputRecord>,
    edits: Seq<FileEditRecord>,
    words: Seq<Seq<char>>,
    max: nat,
    c: CandidateView,
)
    requires
        max > 0,
    ensures
        command_candidates(lines, words, max).contains(c) <==> exists|i: int|
            0 <= i < lines.len() && i < max && #[trigger] command_evidence(
                lines[i],
                i as nat,
                smaller(max, lines.len()),
                words,
            ) == Some(c),
        output_candidates(outputs, words, max).contains(c) <==> exists|i: int|
            0 <= i < outputs.len() && i < max && #[trigger] output_evidence(
                outputs[i],
                i as nat,
                smaller(max, outputs.len()),
                words,
            ) == Some(c),
        edit_candidates(edits, words, max).contains(c) <==> exists|i: int|
            0 <= i < edits.len() && i < max && #[trigger] edit_evidence(
                edits[i],
                i as nat,
                smaller(max, edits.len()),
                words,
            ) == Some(c),
{
    let n = smaller(max, lines.len());
    let f = |i: int| command_evidence(lines[i], i as nat, at_least_one(n), words);
    everything_made_is_collected(n, f, c);
    if command_candidates(lines, words, max).contains(c) {
        let i = choose|i: int| 0 <= i < n && #[trigger] f(i) == Some(c);
        assert(command_evidence(lines[i], i as nat, n, words) == Some(c));
    }
    if exists|i: int|
        0 <= i < lines.len() && i < max && #[trigger] command_evidence(
            lines[i],
            i as nat,
            n,
            words,
        ) == Some(c) {
        let i = choose|i: int|
            0 <= i < lines.len() && i < max && #[trigger] command_evidence(
                lines[i],
                i as nat,
                n,
                words,
            ) == Some(c);
        assert(f(i) == Some(c));
    }
    let m = smaller(max, outputs.len());
    let g = |i: int| output_evidence(outputs[i], i as nat, at_least_one(m), words);
    everything_made_is_collected(m, g, c);
    if output_candidates(outputs, words, max).contains(c) {
        let i = choose|i: int| 0 <= i < m && #[trigger] g(i) == Some(c);
        assert(output_evidence(outputs[i], i as nat, m, words) == Some(c));
    }
    if exists|i: int|
        0 <= i < outputs.len() && i < max && #[trigger] output_evidence(
            outputs[i],
            i as nat,
            m,
            words,
        ) == Some(c) {
        let i = choose|i: int|
            0 <= i < outputs.len() && i < max && #[trigger] output_evidence(
                outputs[i],
                i as nat,
                m,
                words,
            ) == Some(c);
        assert(g(i) == Some(c));
    }
    let l = smaller(max, edits.len());
    let h = |i: int| edit_evidence(edits[i], i as nat, at_least_one(l), words);
    everything_made_is_collected(l, h, c);
    if edit_candidates(edits, words, max).contains(c) {
        let i = choose|i: int| 0 <= i < l && #[trigger] h(i) == Some(c);
        assert(edit_evidence(edits[i], i as nat, l, words) == Some(c));
    }
    if exists|i: int|
        0 <= i < edits.len() && i < max && #[trigger] edit_evidence(
            edits[i],
            i as nat,
            l,
            words,
        ) == Some(c) {
        let i = choose|i: int|
            0 <= i < edits.len() && i < max && #[trigger] edit_evidence(
                edits[i],
                i as nat,
                l,
                words,
            ) == Some(c);
        assert(h(i) == Some(c));
    }
}

/// A bound of none stands for one; any other bound for itself. Of two numbers the smaller is
/// neither larger than either nor another one.
pub proof fn bounds_are_one_at_least(n: nat, a: nat, b: nat)
    ensures
        at_least_one(0) == 1,
        n > 0 ==> at_least_one(n) == n,
        smaller(a, b) <= a && smaller(a, b) <= b,
        smaller(a, b) == a || smaller(a, b) == b,
{
}

} // verus!
