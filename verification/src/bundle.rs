//! The context for a question about a session: what is found, and how it reads.
use vstd::prelude::*;
use crate::budget::{
    as_many_lines_as_fit_are_kept, clipped, cuts_are_marked, pack_lines_with_budget, packed,
    packed_within_budget, truncate_line,
};
use crate::evidence::{
    artifact_candidates, candidate_views, command_candidates, command_failure_candidates,
    edit_candidates, output_candidates, plain_score, score_artifacts, score_command_failures,
    score_commands, score_edits, score_output, score_tool_failures, smaller,
    tool_failure_candidates, ArtifactRecord, CandidateView, EvidenceScore, FileEditRecord,
    OutputRecord, Score, ScoredCandidate,
};
use crate::failures::{
    command_scan, correlate_command_failures, correlate_tool_failures, first_of, tool_scan,
    CommandFailureView, EventRecord,
};
use crate::incidents::{
    build_incidents, command_incidents, failures_make_incidents, incident_candidates,
    incident_views, incidents_are_few, incidents_found, score_incidents, IncidentCandidate,
    IncidentView, Record,
};
use crate::index::{is_valid_session_id, valid_session_id};
use crate::intent::{
    detect_query_intent, intent_name, intent_of_query, overlap, query_tokens, words_of, QueryIntent,
};
use crate::profile::{
    caps_of, caps_view, category_name, category_table, profile_for, BuildContextOptions, Category,
    RetrievalProfile,
};
use crate::selection::{
    expand_output_windows, ints, lines_of_category, output_ids, rank_incidents, ranked_incidents,
    select_candidates, selected_lines_by_category, selected_output_ids, selection,
    selection_respects_bounds, with_windows,
};
use crate::text::{
    chars_of, copy_texts, join, joined, lemma_strs_push, push_text, string_of, strs,
};

verus! {

broadcast use vstd::string::group_string_axioms;

// ---------------------------------------------------------------------------
// The parts of a bundle
// ---------------------------------------------------------------------------

/// A chosen piece of evidence. The label is its score as it is shown.
#[derive(Debug)]
pub struct EvidenceItem {
    pub category: String,
    pub text: String,
    pub score: EvidenceScore,
    pub score_label: String,
    pub reasons: Vec<String>,
    pub source_table: Option<String>,
    pub source_id: Option<i64>,
    pub ts_ms: Option<i64>,
}

/// An incident as it is reported.
#[derive(Debug)]
pub struct IncidentItem {
    pub title: String,
    pub summary: Vec<String>,
    pub score: Score,
    pub reasons: Vec<String>,
}

/// A fact that is kept with the session.
#[derive(Debug)]
pub struct ArtifactItem {
    pub artifact_type: String,
    pub text: String,
    pub ts_ms: Option<i64>,
}

/// How the evidence came to be chosen.
#[derive(Debug)]
pub struct ContextExplain {
    pub intent: String,
    pub selected_count: usize,
    pub candidate_count: usize,
    pub profile: ContextProfileExplain,
}

/// The bounds under which evidence was chosen.
#[derive(Debug)]
pub struct ContextProfileExplain {
    pub max_evidence: usize,
    pub max_incidents: usize,
    pub category_caps: Vec<(String, usize)>,
}

/// The context for a question.
#[derive(Debug)]
pub struct ContextBundle {
    pub session_id: String,
    pub query: String,
    pub intent: String,
    pub query_tokens: Vec<String>,
    pub incidents: Vec<IncidentItem>,
    pub artifacts: Vec<ArtifactItem>,
    pub failing_commands: Vec<String>,
    pub failing_tools: Vec<String>,
    pub related_commands: Vec<String>,
    pub related_output: Vec<String>,
    pub recent_edits: Vec<String>,
    pub selected_evidence: Vec<EvidenceItem>,
    pub context_text: String,
    pub explain: Option<ContextExplain>,
}

/// What is on record of a session, newest first.
#[derive(Debug)]
pub struct ContextRows {
    pub commands: Vec<String>,
    pub outputs: Vec<OutputRecord>,
    pub events: Vec<EventRecord>,
    pub edits: Vec<FileEditRecord>,
    pub artifacts: Vec<ArtifactRecord>,
}

/// What an `EvidenceItem` holds.
#[verifier::ext_equal]
pub struct EvidenceView {
    pub category: Seq<char>,
    pub text: Seq<char>,
    pub score: EvidenceScore,
    pub label: Seq<char>,
    pub reasons: Seq<Seq<char>>,
    pub source_table: Seq<char>,
    pub source_id: Option<i64>,
    pub ts_ms: Option<i64>,
}

/// What an `ArtifactItem` holds.
#[verifier::ext_equal]
pub struct ArtifactView {
    pub artifact_type: Seq<char>,
    pub text: Seq<char>,
    pub ts_ms: Option<i64>,
}

/// What a `ContextExplain` holds.
#[verifier::ext_equal]
pub struct ExplainView {
    pub intent: Seq<char>,
    pub selected_count: nat,
    pub candidate_count: nat,
    pub max_evidence: nat,
    pub max_incidents: nat,
    pub category_caps: Seq<(Seq<char>, usize)>,
}

/// What a `ContextBundle` holds, but for its text.
#[verifier::ext_equal]
pub struct BundleView {
    pub session_id: Seq<char>,
    pub query: Seq<char>,
    pub intent: Seq<char>,
    pub query_tokens: Seq<Seq<char>>,
    pub incidents: Seq<IncidentView>,
    pub artifacts: Seq<ArtifactView>,
    pub failing_commands: Seq<Seq<char>>,
    pub failing_tools: Seq<Seq<char>>,
    pub related_commands: Seq<Seq<char>>,
    pub related_output: Seq<Seq<char>>,
    pub recent_edits: Seq<Seq<char>>,
    pub selected_evidence: Seq<EvidenceView>,
    pub explain: Option<ExplainView>,
}

impl View for IncidentItem {
    type V = IncidentView;

    open spec fn view(&self) -> IncidentView {
        IncidentView {
            title: self.title@,
            summary: strs(self.summary@),
            score: self.score,
            reasons: strs(self.reasons@),
        }
    }
}

impl View for ArtifactItem {
    type V = ArtifactView;

    open spec fn view(&self) -> ArtifactView {
        ArtifactView { artifact_type: self.artifact_type@, text: self.text@, ts_ms: self.ts_ms }
    }
}

impl View for EvidenceItem {
    type V = EvidenceView;

    open spec fn view(&self) -> EvidenceView {
        EvidenceView {
            category: self.category@,
            text: self.text@,
            score: self.score,
            label: self.score_label@,
            reasons: strs(self.reasons@),
            source_table: match self.source_table {
                Some(t) => t@,
                None => Seq::empty(),
            },
            source_id: self.source_id,
            ts_ms: self.ts_ms,
        }
    }
}

impl View for ContextExplain {
    type V = ExplainView;

    open spec fn view(&self) -> ExplainView {
        ExplainView {
            intent: self.intent@,
            selected_count: self.selected_count as nat,
            candidate_count: self.candidate_count as nat,
            max_evidence: self.profile.max_evidence as nat,
            max_incidents: self.profile.max_incidents as nat,
            category_caps: caps_view(self.profile.category_caps@),
        }
    }
}

/// What a row of reported incidents holds.
pub open spec fn incident_items(v: Seq<IncidentItem>) -> Seq<IncidentView> {
    Seq::new(v.len(), |i: int| v[i]@)
}

/// What a row of reported artifacts holds.
pub open spec fn artifact_items(v: Seq<ArtifactItem>) -> Seq<ArtifactView> {
    Seq::new(v.len(), |i: int| v[i]@)
}

/// What a row of reported evidence holds.
pub open spec fn evidence_items(v: Seq<EvidenceItem>) -> Seq<EvidenceView> {
    Seq::new(v.len(), |i: int| v[i]@)
}

impl View for ContextBundle {
    type V = BundleView;

    open spec fn view(&self) -> BundleView {
        BundleView {
            session_id: self.session_id@,
            query: self.query@,
            intent: self.intent@,
            query_tokens: strs(self.query_tokens@),
            incidents: incident_items(self.incidents@),
            artifacts: artifact_items(self.artifacts@),
            failing_commands: strs(self.failing_commands@),
            failing_tools: strs(self.failing_tools@),
            related_commands: strs(self.related_commands@),
            related_output: strs(self.related_output@),
            recent_edits: strs(self.recent_edits@),
            selected_evidence: evidence_items(self.selected_evidence@),
            explain: match self.explain {
                Some(e) => Some(e@),
                None => None,
            },
        }
    }
}

// ---------------------------------------------------------------------------
// How a bundle reads
// ---------------------------------------------------------------------------

/// A heading with its items below it; nothing where there are no items.
pub open spec fn listing(heading: Seq<char>, items: Seq<Seq<char>>) -> Seq<Seq<char>> {
    if items.len() == 0 {
        Seq::empty()
    } else {
        seq![heading] + Seq::new(items.len(), |i: int| "- "@ + clipped(items[i], 220))
    }
}

/// An incident: its title and reasons, then up to three details.
pub open spec fn incident_lines(incident: IncidentView) -> Seq<Seq<char>> {
    let details = first_of(incident.summary, 3);
    seq![
        "- "@ + clipped(incident.title, 180) + " ["@ + clipped(
            joined(incident.reasons, ", "@),
            120,
        ) + "]"@,
    ] + Seq::new(details.len(), |i: int| "  "@ + clipped(details[i], 210))
}

/// The lines of the first `k` incidents.
pub open spec fn all_incident_lines(incidents: Seq<IncidentView>, k: nat) -> Seq<Seq<char>>
    decreases k,
{
    if k == 0 {
        Seq::empty()
    } else {
        all_incident_lines(incidents, (k - 1) as nat) + incident_lines(incidents[k - 1])
    }
}

/// The larger of two numbers.
pub open spec fn larger(a: nat, b: nat) -> nat {
    if a >= b {
        a
    } else {
        b
    }
}

/// The incidents under their heading.
pub open spec fn incident_section(incidents: Seq<IncidentView>, max: nat) -> Seq<Seq<char>> {
    if incidents.len() == 0 {
        Seq::empty()
    } else {
        seq!["Incident summaries:"@] + all_incident_lines(
            incidents,
            first_of(incidents, max).len(),
        )
    }
}

/// The first ten artifacts under their heading.
pub open spec fn artifact_section(artifacts: Seq<ArtifactView>) -> Seq<Seq<char>> {
    if artifacts.len() == 0 {
        Seq::empty()
    } else {
        let shown = first_of(artifacts, 10);
        seq!["Context artifacts:"@] + Seq::new(
            shown.len(),
            |i: int| "- ["@ + shown[i].artifact_type + "] "@ + clipped(shown[i].text, 220),
        )
    }
}

/// The first eight pieces of evidence under their heading.
pub open spec fn evidence_section(evidence: Seq<EvidenceView>) -> Seq<Seq<char>> {
    if evidence.len() == 0 {
        Seq::empty()
    } else {
        let shown = first_of(evidence, 8);
        seq!["Top evidence:"@] + Seq::new(
            shown.len(),
            |i: int|
                "- ["@ + shown[i].category + " "@ + shown[i].label + "] "@ + clipped(
                    shown[i].text,
                    200,
                ),
        )
    }
}

/// All lines of a bundle, before they are packed.
pub open spec fn context_lines(b: BundleView, max_incidents: nat) -> Seq<Seq<char>> {
    seq![
        "Session: "@ + b.session_id,
        "Intent: "@ + b.intent,
        "Query: "@ + clipped(b.query, 220),
    ] + incident_section(b.incidents, larger(max_incidents, 1)) + artifact_section(b.artifacts)
        + listing("Recent command failures:"@, b.failing_commands) + listing(
        "Recent tool failures:"@,
        b.failing_tools,
    ) + listing("Related commands:"@, b.related_commands) + listing(
        "Related output lines:"@,
        b.related_output,
    ) + listing("Recent edited files:"@, b.recent_edits) + evidence_section(b.selected_evidence)
}

/// The text of a bundle under the options: the lines that fit into the budget.
/// Where not even the line fits that stands for none of them, it is cut off.
pub open spec fn context_text(b: BundleView, options: BuildContextOptions) -> Seq<char> {
    let text = joined(
        packed(
            context_lines(b, options.max_incidents as nat),
            larger(options.max_lines as nat, 10),
            options.max_chars as nat,
        ),
        "\n"@,
    );
    if text.len() <= options.max_chars {
        text
    } else {
        text.take(options.max_chars as int)
    }
}

/// The text of a bundle stays within the characters allowed. It is cut off in the
/// middle of a line only where fewer than 44 are allowed.
pub proof fn context_text_within_budget(b: BundleView, options: BuildContextOptions)
    ensures
        context_text(b, options).len() <= options.max_chars,
        options.max_chars >= 44 ==> context_text(b, options) == joined(
            packed(
                context_lines(b, options.max_incidents as nat),
                larger(options.max_lines as nat, 10),
                options.max_chars as nat,
            ),
            "\n"@,
        ),
{
    packed_within_budget(
        context_lines(b, options.max_incidents as nat),
        larger(options.max_lines as nat, 10),
        options.max_chars as nat,
    );
}

fn line2(a: &str, b: &str) -> (r: String)
    ensures
        r@ == a@ + b@,
{
    let mut s = a.to_string();
    push_text(&mut s, b);
    s
}

fn add_line(lines: &mut Vec<String>, line: String)
    ensures
        strs(final(lines)@) == strs(old(lines)@).push(line@),
{
    proof {
        lemma_strs_push(lines@, line);
    }
    lines.push(line);
}

fn add_listing(lines: &mut Vec<String>, heading: &str, items: &Vec<String>)
    ensures
        strs(final(lines)@) == strs(old(lines)@) + listing(heading@, strs(items@)),
{
    if items.len() == 0 {
        assert(strs(items@).len() == 0);
        assert(strs(lines@) =~= strs(lines@) + listing(heading@, strs(items@)));
        return;
    }
    let ghost start = strs(lines@);
    let ghost goal = listing(heading@, strs(items@));
    add_line(lines, heading.to_string());
    let mut i: usize = 0;
    assert(strs(lines@) =~= start + goal.take(1));
    while i < items.len()
        invariant
            goal == listing(heading@, strs(items@)),
            items@.len() > 0,
            i <= items@.len(),
            strs(lines@) == start + goal.take(i + 1),
        decreases items@.len() - i,
    {
        let cut = truncate_line(items[i].as_str(), 220);
        let line = line2("- ", cut.as_str());
        assert(goal.take(i + 2) =~= goal.take(i + 1).push(line@));
        add_line(lines, line);
        assert(strs(lines@) =~= start + goal.take(i + 2));
        i = i + 1;
    }
    assert(goal.take(i + 1) =~= goal);
}

fn add_incident(lines: &mut Vec<String>, incident: &IncidentItem)
    ensures
        strs(final(lines)@) == strs(old(lines)@) + incident_lines(incident@),
{
    let ghost start = strs(lines@);
    let ghost goal = incident_lines(incident@);
    let mut head = "- ".to_string();
    push_text(&mut head, truncate_line(incident.title.as_str(), 180).as_str());
    push_text(&mut head, " [");
    let reasons = join(&incident.reasons, ", ");
    push_text(&mut head, truncate_line(reasons.as_str(), 120).as_str());
    push_text(&mut head, "]");
    add_line(lines, head);
    assert(strs(lines@) =~= start + goal.take(1));
    assert(strs(incident.summary@).len() == incident.summary@.len());
    let mut i: usize = 0;
    while i < incident.summary.len() && i < 3
        invariant
            goal == incident_lines(incident@),
            goal.len() == 1 + first_of(incident@.summary, 3).len(),
            incident@.summary.len() == incident.summary@.len(),
            i <= incident.summary@.len(),
            i <= 3,
            strs(lines@) == start + goal.take(i + 1),
        decreases incident.summary@.len() - i,
    {
        let cut = truncate_line(incident.summary[i].as_str(), 210);
        let line = line2("  ", cut.as_str());
        assert(goal.take(i + 2) =~= goal.take(i + 1).push(line@));
        add_line(lines, line);
        assert(strs(lines@) =~= start + goal.take(i + 2));
        i = i + 1;
    }
    assert(goal.take(i + 1) =~= goal);
}

fn add_incidents(lines: &mut Vec<String>, incidents: &Vec<IncidentItem>, max: usize)
    ensures
        strs(final(lines)@) == strs(old(lines)@) + incident_section(
            incident_items(incidents@),
            max as nat,
        ),
{
    let ghost start = strs(lines@);
    let ghost all = incident_items(incidents@);
    if incidents.len() == 0 {
        assert(strs(lines@) =~= start + incident_section(all, max as nat));
        return;
    }
    add_line(lines, "Incident summaries:".to_string());
    let mut i: usize = 0;
    assert(strs(lines@) =~= start + (seq!["Incident summaries:"@] + all_incident_lines(all, 0)));
    while i < incidents.len() && i < max
        invariant
            all == incident_items(incidents@),
            i <= incidents@.len(),
            i <= max,
            strs(lines@) == start + (seq!["Incident summaries:"@] + all_incident_lines(
                all,
                i as nat,
            )),
        decreases incidents@.len() - i,
    {
        let ghost before = strs(lines@);
        add_incident(lines, &incidents[i]);
        assert(strs(lines@) =~= start + (seq!["Incident summaries:"@] + all_incident_lines(
            all,
            (i + 1) as nat,
        )));
        i = i + 1;
    }
    assert(i == first_of(all, max as nat).len());
}

fn add_artifacts(lines: &mut Vec<String>, artifacts: &Vec<ArtifactItem>)
    ensures
        strs(final(lines)@) == strs(old(lines)@) + artifact_section(artifact_items(artifacts@)),
{
    let ghost start = strs(lines@);
    let ghost all = artifact_items(artifacts@);
    let ghost goal = artifact_section(all);
    if artifacts.len() == 0 {
        assert(strs(lines@) =~= start + goal);
        return;
    }
    add_line(lines, "Context artifacts:".to_string());
    let mut i: usize = 0;
    assert(strs(lines@) =~= start + goal.take(1));
    while i < artifacts.len() && i < 10
        invariant
            all == artifact_items(artifacts@),
            goal == artifact_section(all),
            goal.len() == 1 + first_of(all, 10).len(),
            i <= artifacts@.len(),
            i <= 10,
            strs(lines@) == start + goal.take(i + 1),
        decreases artifacts@.len() - i,
    {
        let mut line = "- [".to_string();
        push_text(&mut line, artifacts[i].artifact_type.as_str());
        push_text(&mut line, "] ");
        push_text(&mut line, truncate_line(artifacts[i].text.as_str(), 220).as_str());
        assert(goal.take(i + 2) =~= goal.take(i + 1).push(line@));
        add_line(lines, line);
        assert(strs(lines@) =~= start + goal.take(i + 2));
        i = i + 1;
    }
    assert(goal.take(i + 1) =~= goal);
}

fn add_evidence(lines: &mut Vec<String>, evidence: &Vec<EvidenceItem>)
    ensures
        strs(final(lines)@) == strs(old(lines)@) + evidence_section(evidence_items(evidence@)),
{
    let ghost start = strs(lines@);
    let ghost all = evidence_items(evidence@);
    let ghost goal = evidence_section(all);
    if evidence.len() == 0 {
        assert(strs(lines@) =~= start + goal);
        return;
    }
    add_line(lines, "Top evidence:".to_string());
    let mut i: usize = 0;
    assert(strs(lines@) =~= start + goal.take(1));
    while i < evidence.len() && i < 8
        invariant
            all == evidence_items(evidence@),
            goal == evidence_section(all),
            goal.len() == 1 + first_of(all, 8).len(),
            i <= evidence@.len(),
            i <= 8,
            strs(lines@) == start + goal.take(i + 1),
        decreases evidence@.len() - i,
    {
        let mut line = "- [".to_string();
        push_text(&mut line, evidence[i].category.as_str());
        push_text(&mut line, " ");
        push_text(&mut line, evidence[i].score_label.as_str());
        push_text(&mut line, "] ");
        push_text(&mut line, truncate_line(evidence[i].text.as_str(), 200).as_str());
        assert(goal.take(i + 2) =~= goal.take(i + 1).push(line@));
        add_line(lines, line);
        assert(strs(lines@) =~= start + goal.take(i + 2));
        i = i + 1;
    }
    assert(goal.take(i + 1) =~= goal);
}

/// The text of a bundle: its lines, as far as the budget goes.
pub fn render_context_text(bundle: &ContextBundle, options: BuildContextOptions) -> (r: String)
    ensures
        r@ == context_text(bundle@, options),
{
    let mut lines: Vec<String> = Vec::new();
    lines.push(line2("Session: ", bundle.session_id.as_str()));
    lines.push(line2("Intent: ", bundle.intent.as_str()));
    let query = truncate_line(bundle.query.as_str(), 220);
    lines.push(line2("Query: ", query.as_str()));
    assert(strs(lines@) =~= seq![
        "Session: "@ + bundle@.session_id,
        "Intent: "@ + bundle@.intent,
        "Query: "@ + clipped(bundle@.query, 220),
    ]);
    let max: usize = if options.max_incidents < 1 { 1 } else { options.max_incidents };
    add_incidents(&mut lines, &bundle.incidents, max);
    add_artifacts(&mut lines, &bundle.artifacts);
    add_listing(&mut lines, "Recent command failures:", &bundle.failing_commands);
    add_listing(&mut lines, "Recent tool failures:", &bundle.failing_tools);
    add_listing(&mut lines, "Related commands:", &bundle.related_commands);
    add_listing(&mut lines, "Related output lines:", &bundle.related_output);
    add_listing(&mut lines, "Recent edited files:", &bundle.recent_edits);
    add_evidence(&mut lines, &bundle.selected_evidence);
    let max_lines: usize = if options.max_lines < 10 { 10 } else { options.max_lines };
    let packed = pack_lines_with_budget(lines, max_lines, options.max_chars);
    let text = join(&packed, "\n");
    if text.as_str().unicode_len() <= options.max_chars {
        return text;
    }
    let cs = chars_of(text.as_str());
    let cut = string_of(&cs, 0, options.max_chars);
    assert(cut@ =~= text@.take(options.max_chars as int));
    cut
}

// ---------------------------------------------------------------------------
// What a bundle holds
// ---------------------------------------------------------------------------

/// The intent of a question, unless the options set one.
pub open spec fn context_intent(query: Seq<char>, options: BuildContextOptions) -> QueryIntent {
    match options.intent_override {
        Some(intent) => intent,
        None => intent_of_query(query),
    }
}

/// The profile for a question.
pub open spec fn context_profile(
    query: Seq<char>,
    options: BuildContextOptions,
) -> RetrievalProfile {
    profile_for(context_intent(query, options), options)
}

/// The artifacts that count under the options.
pub open spec fn context_artifacts(
    rows: ContextRows,
    options: BuildContextOptions,
) -> Seq<ArtifactRecord> {
    if options.include_artifacts {
        rows.artifacts@
    } else {
        Seq::empty()
    }
}

/// The incidents of a session, before they are ranked.
pub open spec fn context_incidents(
    query: Seq<char>,
    options: BuildContextOptions,
    rows: ContextRows,
) -> Seq<IncidentView> {
    incidents_found(
        first_of(command_scan(rows.events@).failures, 24),
        words_of(query),
        Record {
            commands: strs(rows.commands@),
            tools: first_of(tool_scan(rows.events@).failures, 24),
            outputs: rows.outputs@,
            edits: rows.edits@,
        },
        context_profile(query, options).max_incidents as nat,
    )
}

/// The ranked incidents of a session.
pub open spec fn top_incidents(
    query: Seq<char>,
    options: BuildContextOptions,
    rows: ContextRows,
    incident_keys: Seq<i64>,
) -> Seq<IncidentView> {
    ranked_incidents(
        context_incidents(query, options, rows),
        incident_keys,
        context_profile(query, options).max_incidents as nat,
    )
}

/// All pieces of evidence, in the order in which they are gathered.
pub open spec fn context_candidates(
    query: Seq<char>,
    options: BuildContextOptions,
    rows: ContextRows,
    incident_keys: Seq<i64>,
) -> Seq<CandidateView> {
    let words = words_of(query);
    let p = context_profile(query, options);
    command_failure_candidates(first_of(command_scan(rows.events@).failures, 24), words)
        + tool_failure_candidates(first_of(tool_scan(rows.events@).failures, 24), words)
        + command_candidates(strs(rows.commands@), words, 40) + output_candidates(
        rows.outputs@,
        words,
        80,
    ) + edit_candidates(rows.edits@, words, 30) + incident_candidates(
        top_incidents(query, options, rows, incident_keys),
        p.incident_weight,
    ) + artifact_candidates(context_artifacts(rows, options), words, p.artifact_weight)
}

/// A candidate as it is reported.
pub open spec fn evidence_of(c: CandidateView, label: Seq<char>) -> EvidenceView {
    EvidenceView {
        category: category_name(c.category),
        text: c.text,
        score: c.score,
        label,
        reasons: c.reasons,
        source_table: category_table(c.category),
        source_id: c.source_id,
        ts_ms: c.ts_ms,
    }
}

/// An artifact as it is reported.
pub open spec fn artifact_of(rec: ArtifactRecord) -> ArtifactView {
    ArtifactView { artifact_type: rec.artifact_type@, text: rec.text@, ts_ms: rec.ts_ms }
}

/// The lines of output to show: those around the chosen ones.
pub open spec fn output_lines(
    cs: Seq<CandidateView>,
    picked: Seq<int>,
    outputs: Seq<OutputRecord>,
    window: nat,
) -> Seq<Seq<char>> {
    let ids = output_ids(cs, picked, 24);
    if ids.len() == 0 {
        lines_of_category(cs, picked, Category::Output, 30)
    } else {
        with_windows(
            Seq::empty(),
            outputs,
            ids,
            if window < 5 {
                window
            } else {
                5
            },
            30,
        )
    }
}

/// The bundle for a question. The keys rank the incidents and the candidates,
/// one for each; the labels say how the score of each candidate is shown.
pub open spec fn context_bundle(
    session_id: Seq<char>,
    query: Seq<char>,
    options: BuildContextOptions,
    rows: ContextRows,
    incident_keys: Seq<i64>,
    keys: Seq<i64>,
    labels: Seq<Seq<char>>,
) -> BundleView {
    let p = context_profile(query, options);
    let cs = context_candidates(query, options, rows, incident_keys);
    let most = larger(options.max_evidence as nat, 8);
    let picked = selection(cs, keys, most, p);
    let artifacts = first_of(context_artifacts(rows, options), p.max_artifacts as nat);
    BundleView {
        session_id,
        query,
        intent: intent_name(context_intent(query, options)),
        query_tokens: words_of(query),
        incidents: top_incidents(query, options, rows, incident_keys),
        artifacts: Seq::new(artifacts.len(), |i: int| artifact_of(artifacts[i])),
        failing_commands: lines_of_category(cs, picked, Category::FailureCommand, 12),
        failing_tools: lines_of_category(cs, picked, Category::FailureTool, 12),
        related_commands: lines_of_category(cs, picked, Category::Command, 15),
        related_output: output_lines(cs, picked, rows.outputs@, options.output_window as nat),
        recent_edits: lines_of_category(cs, picked, Category::Edit, 12),
        selected_evidence: Seq::new(
            picked.len(),
            |i: int| evidence_of(cs[picked[i]], labels[picked[i]]),
        ),
        explain: if options.explain {
            Some(
                ExplainView {
                    intent: intent_name(context_intent(query, options)),
                    selected_count: picked.len(),
                    candidate_count: cs.len(),
                    max_evidence: most,
                    max_incidents: p.max_incidents as nat,
                    category_caps: caps_of(p),
                },
            )
        } else {
            None
        },
    }
}

/// `keys[i]` is what `rank` gives for the score of the `i`-th incident.
pub open spec fn incidents_keyed<K: Fn(EvidenceScore) -> i64>(
    rank: K,
    incidents: Seq<IncidentView>,
    keys: Seq<i64>,
) -> bool {
    &&& keys.len() == incidents.len()
    &&& forall|i: int|
        0 <= i < keys.len() ==> call_ensures(
            rank,
            (EvidenceScore::Own(incidents[i].score),),
            #[trigger] keys[i],
        )
}

/// `keys[i]` is what `rank` gives for the score of the `i`-th candidate.
pub open spec fn candidates_keyed<K: Fn(EvidenceScore) -> i64>(
    rank: K,
    cs: Seq<CandidateView>,
    keys: Seq<i64>,
) -> bool {
    &&& keys.len() == cs.len()
    &&& forall|i: int|
        0 <= i < keys.len() ==> call_ensures(rank, (cs[i].score,), #[trigger] keys[i])
}

/// `labels[i]` is what `show` gives for the score of the `i`-th candidate.
pub open spec fn candidates_labelled<L: Fn(EvidenceScore) -> String>(
    show: L,
    cs: Seq<CandidateView>,
    labels: Seq<String>,
) -> bool {
    &&& labels.len() == cs.len()
    &&& forall|i: int|
        0 <= i < labels.len() ==> call_ensures(show, (cs[i].score,), #[trigger] labels[i])
}

fn key_incidents<K: Fn(EvidenceScore) -> i64>(rank: &K, incidents: &Vec<IncidentCandidate>) -> (r:
    Vec<i64>)
    requires
        forall|s: EvidenceScore| call_requires(*rank, (s,)),
    ensures
        incidents_keyed(*rank, incident_views(incidents@), r@),
{
    let mut keys: Vec<i64> = Vec::new();
    let mut i: usize = 0;
    while i < incidents.len()
        invariant
            forall|s: EvidenceScore| call_requires(*rank, (s,)),
            i <= incidents@.len(),
            keys@.len() == i,
            forall|k: int|
                0 <= k < i ==> call_ensures(
                    *rank,
                    (EvidenceScore::Own(incident_views(incidents@)[k].score),),
                    #[trigger] keys@[k],
                ),
        decreases incidents@.len() - i,
    {
        let key: i64 = rank(EvidenceScore::Own(incidents[i].score));
        keys.push(key);
        i = i + 1;
    }
    keys
}

fn key_candidates<K: Fn(EvidenceScore) -> i64>(rank: &K, candidates: &Vec<ScoredCandidate>) -> (r:
    Vec<i64>)
    requires
        forall|s: EvidenceScore| call_requires(*rank, (s,)),
    ensures
        candidates_keyed(*rank, candidate_views(candidates@), r@),
{
    let mut keys: Vec<i64> = Vec::new();
    let mut i: usize = 0;
    while i < candidates.len()
        invariant
            forall|s: EvidenceScore| call_requires(*rank, (s,)),
            i <= candidates@.len(),
            keys@.len() == i,
            forall|k: int|
                0 <= k < i ==> call_ensures(
                    *rank,
                    (candidate_views(candidates@)[k].score,),
                    #[trigger] keys@[k],
                ),
        decreases candidates@.len() - i,
    {
        let key: i64 = rank(candidates[i].score);
        keys.push(key);
        i = i + 1;
    }
    keys
}

fn label_candidates<L: Fn(EvidenceScore) -> String>(
    show: &L,
    candidates: &Vec<ScoredCandidate>,
) -> (r: Vec<String>)
    requires
        forall|s: EvidenceScore| call_requires(*show, (s,)),
    ensures
        candidates_labelled(*show, candidate_views(candidates@), r@),
{
    let mut labels: Vec<String> = Vec::new();
    let mut i: usize = 0;
    while i < candidates.len()
        invariant
            forall|s: EvidenceScore| call_requires(*show, (s,)),
            i <= candidates@.len(),
            labels@.len() == i,
            forall|k: int|
                0 <= k < i ==> call_ensures(
                    *show,
                    (candidate_views(candidates@)[k].score,),
                    #[trigger] labels@[k],
                ),
        decreases candidates@.len() - i,
    {
        let label = show(candidates[i].score);
        labels.push(label);
        i = i + 1;
    }
    labels
}

fn append_candidates(all: &mut Vec<ScoredCandidate>, more: Vec<ScoredCandidate>)
    ensures
        candidate_views(final(all)@) == candidate_views(old(all)@) + candidate_views(more@),
{
    let ghost a = all@;
    let ghost b = more@;
    let mut more = more;
    all.append(&mut more);
    assert(candidate_views(all@) =~= candidate_views(a) + candidate_views(b));
}

fn report_incidents(incidents: &Vec<IncidentCandidate>) -> (r: Vec<IncidentItem>)
    ensures
        incident_items(r@) == incident_views(incidents@),
{
    let mut out: Vec<IncidentItem> = Vec::new();
    let mut i: usize = 0;
    while i < incidents.len()
        invariant
            i <= incidents@.len(),
            out@.len() == i,
            forall|k: int| 0 <= k < i ==> (#[trigger] out@[k])@ == incidents@[k]@,
        decreases incidents@.len() - i,
    {
        let item = IncidentItem {
            title: incidents[i].title.clone(),
            summary: copy_texts(&incidents[i].summary),
            score: incidents[i].score,
            reasons: copy_texts(&incidents[i].reasons),
        };
        out.push(item);
        i = i + 1;
    }
    assert(incident_items(out@) =~= incident_views(incidents@));
    out
}

fn report_artifacts(artifacts: &Vec<ArtifactRecord>, max: usize) -> (r: Vec<ArtifactItem>)
    ensures
        artifact_items(r@) == ({
            let shown = first_of(artifacts@, max as nat);
            Seq::new(shown.len(), |i: int| artifact_of(shown[i]))
        }),
{
    let mut out: Vec<ArtifactItem> = Vec::new();
    let mut i: usize = 0;
    while i < artifacts.len() && i < max
        invariant
            i <= artifacts@.len(),
            i <= max,
            out@.len() == i,
            forall|k: int| 0 <= k < i ==> (#[trigger] out@[k])@ == artifact_of(artifacts@[k]),
        decreases artifacts@.len() - i,
    {
        let item = ArtifactItem {
            artifact_type: artifacts[i].artifact_type.clone(),
            text: artifacts[i].text.clone(),
            ts_ms: artifacts[i].ts_ms,
        };
        out.push(item);
        i = i + 1;
    }
    let ghost shown = first_of(artifacts@, max as nat);
    assert(artifact_items(out@) =~= Seq::new(shown.len(), |i: int| artifact_of(shown[i])));
    out
}

fn report_evidence(
    candidates: &Vec<ScoredCandidate>,
    selected: &Vec<usize>,
    labels: &Vec<String>,
) -> (r: Vec<EvidenceItem>)
    requires
        labels@.len() == candidates@.len(),
        forall|i: int| 0 <= i < selected@.len() ==> (#[trigger] selected@[i]) < candidates@.len(),
    ensures
        evidence_items(r@) == Seq::new(
            selected@.len(),
            |i: int|
                evidence_of(
                    candidate_views(candidates@)[ints(selected@)[i]],
                    strs(labels@)[ints(selected@)[i]],
                ),
        ),
{
    let mut out: Vec<EvidenceItem> = Vec::new();
    let mut i: usize = 0;
    while i < selected.len()
        invariant
            labels@.len() == candidates@.len(),
            forall|i: int|
                0 <= i < selected@.len() ==> (#[trigger] selected@[i]) < candidates@.len(),
            i <= selected@.len(),
            out@.len() == i,
            forall|k: int|
                0 <= k < i ==> (#[trigger] out@[k])@ == evidence_of(
                    candidates@[selected@[k] as int]@,
                    labels@[selected@[k] as int]@,
                ),
        decreases selected@.len() - i,
    {
        let c = &candidates[selected[i]];
        let item = EvidenceItem {
            category: c.category.name().to_string(),
            text: c.text.clone(),
            score: c.score,
            score_label: labels[selected[i]].clone(),
            reasons: copy_texts(&c.reasons),
            source_table: Some(c.category.source_table().to_string()),
            source_id: c.source_id,
            ts_ms: c.ts_ms,
        };
        out.push(item);
        i = i + 1;
    }
    assert(evidence_items(out@) =~= Seq::new(
        selected@.len(),
        |i: int|
            evidence_of(
                candidate_views(candidates@)[ints(selected@)[i]],
                strs(labels@)[ints(selected@)[i]],
            ),
    ));
    out
}

/// Builds the context for a question out of what is on record.
///
/// `rank` turns a score into a key by which incidents and evidence are ordered,
/// the largest first; `show` says how a score is shown. An id that could leave
/// the log directory is refused.
#[verifier::rlimit(40)]
pub fn build_relevant_context_bundle_with_options<
    K: Fn(EvidenceScore) -> i64,
    L: Fn(EvidenceScore) -> String,
>(
    session_id: &str,
    query: &str,
    options: BuildContextOptions,
    rows: ContextRows,
    rank: K,
    show: L,
) -> (r: Result<ContextBundle, String>)
    requires
        forall|s: EvidenceScore| call_requires(rank, (s,)),
        forall|s: EvidenceScore| call_requires(show, (s,)),
    ensures
        match r {
            Ok(b) => valid_session_id(session_id@) && b.context_text@ == context_text(b@, options)
                && b.context_text@.len() <= options.max_chars
                && exists|ik: Seq<i64>, ck: Seq<i64>, labels: Seq<String>|
                {
                    &&& #[trigger] incidents_keyed(
                        rank,
                        context_incidents(query@, options, rows),
                        ik,
                    )
                    &&& #[trigger] candidates_keyed(
                        rank,
                        context_candidates(query@, options, rows, ik),
                        ck,
                    )
                    &&& #[trigger] candidates_labelled(
                        show,
                        context_candidates(query@, options, rows, ik),
                        labels,
                    )
                    &&& b@ == context_bundle(
                        session_id@,
                        query@,
                        options,
                        rows,
                        ik,
                        ck,
                        strs(labels),
                    )
                },
            Err(e) => !valid_session_id(session_id@) && e@ == "invalid session_id"@,
        },
{
    if !is_valid_session_id(session_id) {
        return Err("invalid session_id".to_string());
    }
    let tokens = query_tokens(query);
    let intent = match options.intent_override {
        Some(intent) => intent,
        None => detect_query_intent(query),
    };
    let profile = RetrievalProfile::for_intent(intent, options);
    let no_artifacts: Vec<ArtifactRecord> = Vec::new();
    let artifacts: &Vec<ArtifactRecord> = if options.include_artifacts {
        &rows.artifacts
    } else {
        &no_artifacts
    };
    assert(artifacts@ =~= context_artifacts(rows, options));
    let command_failures = correlate_command_failures(&rows.events, 24);
    let tool_failures = correlate_tool_failures(&rows.events, 24);
    let found = build_incidents(
        &command_failures,
        &tool_failures,
        &rows.commands,
        &rows.outputs,
        &rows.edits,
        &tokens,
        profile.max_incidents,
    );
    assert(incident_views(found@) == context_incidents(query@, options, rows));
    let incident_keys = key_incidents(&rank, &found);
    let incidents = rank_incidents(&found, &incident_keys, profile.max_incidents);
    assert(incident_views(incidents@) == top_incidents(
        query@,
        options,
        rows,
        incident_keys@,
    ));
    let mut candidates = score_command_failures(&command_failures, &tokens);
    append_candidates(&mut candidates, score_tool_failures(&tool_failures, &tokens));
    append_candidates(&mut candidates, score_commands(&rows.commands, &tokens, 40));
    append_candidates(&mut candidates, score_output(&rows.outputs, &tokens, 80));
    append_candidates(&mut candidates, score_edits(&rows.edits, &tokens, 30));
    append_candidates(&mut candidates, score_incidents(&incidents, profile.incident_weight));
    append_candidates(
        &mut candidates,
        score_artifacts(artifacts, &tokens, profile.artifact_weight),
    );
    let ghost cs = context_candidates(query@, options, rows, incident_keys@);
    assert(candidate_views(candidates@) == cs);
    assert(cs.len() == candidates@.len());
    let candidate_count: usize = candidates.len();
    let keys = key_candidates(&rank, &candidates);
    let labels = label_candidates(&show, &candidates);
    let most: usize = if options.max_evidence < 8 { 8 } else { options.max_evidence };
    let selected = select_candidates(&candidates, &keys, most, profile);
    let ghost picked = selection(cs, keys@, most as nat, profile);
    assert(ints(selected@) == picked);
    assert(picked.len() == selected@.len());
    let failing_commands = selected_lines_by_category(
        &candidates,
        &selected,
        Category::FailureCommand,
        12,
    );
    let failing_tools = selected_lines_by_category(
        &candidates,
        &selected,
        Category::FailureTool,
        12,
    );
    let related_commands = selected_lines_by_category(
        &candidates,
        &selected,
        Category::Command,
        15,
    );
    let ids = selected_output_ids(&candidates, &selected, 24);
    let related_output = if ids.len() == 0 {
        selected_lines_by_category(&candidates, &selected, Category::Output, 30)
    } else {
        let window: usize = if options.output_window < 5 { options.output_window } else { 5 };
        expand_output_windows(&rows.outputs, &ids, window, 30)
    };
    let recent_edits = selected_lines_by_category(&candidates, &selected, Category::Edit, 12);
    let selected_evidence = report_evidence(&candidates, &selected, &labels);
    let intent_text = intent.as_str();
    let explain = if options.explain {
        Some(
            ContextExplain {
                intent: intent_text.to_string(),
                selected_count: selected_evidence.len(),
                candidate_count,
                profile: ContextProfileExplain {
                    max_evidence: most,
                    max_incidents: profile.max_incidents,
                    category_caps: profile.category_caps_map(),
                },
            },
        )
    } else {
        None
    };
    assert(evidence_items(selected_evidence@).len() == selected_evidence@.len());
    let mut bundle = ContextBundle {
        session_id: session_id.to_string(),
        query: query.to_string(),
        intent: intent_text.to_string(),
        query_tokens: tokens,
        incidents: report_incidents(&incidents),
        artifacts: report_artifacts(artifacts, profile.max_artifacts),
        failing_commands,
        failing_tools,
        related_commands,
        related_output,
        recent_edits,
        selected_evidence,
        context_text: String::new(),
        explain,
    };
    let ghost view = bundle@;
    let text = render_context_text(&bundle, options);
    bundle.context_text = text;
    proof {
        context_text_within_budget(view, options);
        let goal = context_bundle(
            session_id@,
            query@,
            options,
            rows,
            incident_keys@,
            keys@,
            strs(labels@),
        );
        assert(view.selected_evidence =~= goal.selected_evidence);
        assert(view =~= goal);
        assert(bundle@ == view);
        assert(incidents_keyed(rank, context_incidents(query@, options, rows), incident_keys@));
        assert(candidates_keyed(rank, cs, keys@));
        assert(candidates_labelled(show, cs, labels@));
    }
    Ok(bundle)
}

// ---------------------------------------------------------------------------
// What holds of every bundle
// ---------------------------------------------------------------------------

/// A bundle's evidence is chosen among its candidates, so there is no more of
/// it than of them, nor more than asked for (eight at least); without artifacts
/// in the options there are none in the bundle; the incidents keep to their
/// bound; an intent in the options is the bundle's intent.
pub proof fn bundles_keep_to_options(
    session_id: Seq<char>,
    query: Seq<char>,
    options: BuildContextOptions,
    rows: ContextRows,
    incident_keys: Seq<i64>,
    keys: Seq<i64>,
    labels: Seq<Seq<char>>,
)
    requires
        keys.len() == context_candidates(query, options, rows, incident_keys).len(),
    ensures
        ({
            let b = context_bundle(
                session_id,
                query,
                options,
                rows,
                incident_keys,
                keys,
                labels,
            );
            let n = context_candidates(query, options, rows, incident_keys).len();
            &&& b.selected_evidence.len() <= n
            &&& b.selected_evidence.len() <= larger(options.max_evidence as nat, 8)
            &&& !options.include_artifacts ==> b.artifacts.len() == 0
            &&& b.incidents.len() <= larger(options.max_incidents as nat, 1)
            &&& forall|intent: QueryIntent|
                options.intent_override == Some(intent) ==> b.intent == #[trigger] intent_name(
                    intent,
                )
            &&& options.explain <==> b.explain is Some
            &&& forall|e: ExplainView|
                b.explain == Some(e) ==> #[trigger] e.selected_count == b.selected_evidence.len()
                    && e.candidate_count == n && e.selected_count <= e.candidate_count
        }),
{
    selection_respects_bounds(
        context_candidates(query, options, rows, incident_keys),
        keys,
        larger(options.max_evidence as nat, 8),
        context_profile(query, options),
    );
}

/// The same text is not chosen twice as evidence.
pub proof fn evidence_is_distinct(
    session_id: Seq<char>,
    query: Seq<char>,
    options: BuildContextOptions,
    rows: ContextRows,
    incident_keys: Seq<i64>,
    keys: Seq<i64>,
    labels: Seq<Seq<char>>,
)
    requires
        keys.len() == context_candidates(query, options, rows, incident_keys).len(),
    ensures
        ({
            let e = context_bundle(
                session_id,
                query,
                options,
                rows,
                incident_keys,
                keys,
                labels,
            ).selected_evidence;
            forall|a: int, b: int|
                0 <= a < b < e.len() ==> (#[trigger] e[a]).text != (#[trigger] e[b]).text
        }),
{
    let cs = context_candidates(query, options, rows, incident_keys);
    let p = context_profile(query, options);
    let most = larger(options.max_evidence as nat, 8);
    selection_respects_bounds(cs, keys, most, p);
    let picked = selection(cs, keys, most, p);
    let e = context_bundle(
        session_id,
        query,
        options,
        rows,
        incident_keys,
        keys,
        labels,
    ).selected_evidence;
    assert forall|a: int, b: int| 0 <= a < b < e.len() implies (#[trigger] e[a]).text
        != (#[trigger] e[b]).text by {
        assert(e[a].text == cs[picked[a]].text);
        assert(e[b].text == cs[picked[b]].text);
    }
}

// ---------------------------------------------------------------------------
// What the context tells
// ---------------------------------------------------------------------------

/// What is listed stands below its heading, item by item and in order; nothing stands there
/// where there is nothing to list.
pub proof fn items_stand_below_their_heading(
    heading: Seq<char>,
    items: Seq<Seq<char>>,
    i: int,
)
    ensures
        items.len() == 0 ==> listing(heading, items).len() == 0,
        items.len() > 0 ==> listing(heading, items).len() == items.len() + 1 && listing(
            heading,
            items,
        )[0] == heading,
        0 <= i < items.len() && items[i].len() <= 220 ==> listing(heading, items)[i + 1] == seq![
            '-',
            ' ',
        ] + items[i],
        0 <= i < items.len() && items[i].len() > 220 ==> listing(heading, items)[i + 1] == seq![
            '-',
            ' ',
        ] + items[i].take(220) + seq!['.', '.', '.'],
{
    reveal_strlit("- ");
    assert("- "@ =~= seq!['-', ' ']);
    if 0 <= i < items.len() {
        cuts_are_marked(items[i], 220);
        assert(listing(heading, items)[i + 1] == "- "@ + clipped(items[i], 220));
        assert(seq!['-', ' '] + (items[i].take(220) + seq!['.', '.', '.']) =~= seq!['-', ' ']
            + items[i].take(220) + seq!['.', '.', '.']);
    }
}

/// An incident is told of by its title with its reasons in brackets, and by its first three
/// details below.
pub proof fn incidents_are_told_of(incident: IncidentView, i: int)
    ensures
        incident_lines(incident).len() == 1 + if incident.summary.len() < 3 {
            incident.summary.len()
        } else {
            3
        },
        incident.title.len() <= 180 && joined(incident.reasons, ", "@).len() <= 120
            ==> incident_lines(incident)[0] == seq!['-', ' '] + incident.title + seq![' ', '[']
            + joined(incident.reasons, ", "@) + seq![']'],
        0 <= i < 3 && i < incident.summary.len() && incident.summary[i].len() <= 210
            ==> incident_lines(incident)[i + 1] == seq![' ', ' '] + incident.summary[i],
{
    reveal_strlit("- ");
    reveal_strlit(" [");
    reveal_strlit("]");
    reveal_strlit("  ");
    assert("- "@ =~= seq!['-', ' ']);
    assert(" ["@ =~= seq![' ', '[']);
    assert("]"@ =~= seq![']']);
    assert("  "@ =~= seq![' ', ' ']);
}

proof fn lemma_incident_lines(incidents: Seq<IncidentView>, k: nat, i: int)
    requires
        0 <= i < k <= incidents.len(),
    ensures
        exists|at: int|
            0 <= at < all_incident_lines(incidents, k).len() && #[trigger] all_incident_lines(
                incidents,
                k,
            )[at] == incident_lines(incidents[i])[0],
    decreases k,
{
    let before = all_incident_lines(incidents, (k - 1) as nat);
    let all = all_incident_lines(incidents, k);
    if i == k - 1 {
        assert(all[before.len() as int] == incident_lines(incidents[i])[0]);
    } else {
        lemma_incident_lines(incidents, (k - 1) as nat, i);
        let at = choose|at: int|
            0 <= at < before.len() && #[trigger] before[at] == incident_lines(incidents[i])[0];
        assert(all[at] == before[at]);
    }
}

/// All of a part stands in a whole that it is a part of.
#[verifier::opaque]
pub open spec fn all_in(part: Seq<Seq<char>>, whole: Seq<Seq<char>>) -> bool {
    forall|i: int| 0 <= i < part.len() ==> whole.contains(#[trigger] part[i])
}

proof fn lemma_all_in(part: Seq<Seq<char>>, whole: Seq<Seq<char>>, more: Seq<Seq<char>>)
    ensures
        all_in(part, whole) ==> all_in(part, whole + more),
        all_in(more, whole + more),
{
    reveal(all_in);
    let all = whole + more;
    if all_in(part, whole) {
        assert forall|i: int| 0 <= i < part.len() implies all.contains(#[trigger] part[i]) by {
            assert(whole.contains(part[i]));
            let k = choose|k: int| 0 <= k < whole.len() && whole[k] == part[i];
            assert(all[k] == part[i]);
        }
    }
    assert forall|i: int| 0 <= i < more.len() implies all.contains(#[trigger] more[i]) by {
        assert(all[whole.len() + i] == more[i]);
    }
}

proof fn lemma_sections(
    h: Seq<Seq<char>>,
    p1: Seq<Seq<char>>,
    p2: Seq<Seq<char>>,
    p3: Seq<Seq<char>>,
    p4: Seq<Seq<char>>,
    p5: Seq<Seq<char>>,
    p6: Seq<Seq<char>>,
    p7: Seq<Seq<char>>,
    p8: Seq<Seq<char>>,
)
    requires
        h.len() == 3,
    ensures
        ({
            let all = h + p1 + p2 + p3 + p4 + p5 + p6 + p7 + p8;
            &&& all[0] == h[0] && all[1] == h[1] && all[2] == h[2]
            &&& all_in(p1, all)
            &&& all_in(p2, all)
            &&& all_in(p3, all)
            &&& all_in(p4, all)
            &&& all_in(p5, all)
            &&& all_in(p6, all)
            &&& all_in(p7, all)
            &&& all_in(p8, all)
        }),
{
    lemma_all_in(h, h, p1);
    let w1 = h + p1;
    assert(w1[0] == h[0] && w1[1] == h[1] && w1[2] == h[2]);
    lemma_all_in(p1, w1, p2);
    let w2 = w1 + p2;
    assert(w2[0] == h[0] && w2[1] == h[1] && w2[2] == h[2]);
    lemma_all_in(p1, w2, p3);
    lemma_all_in(p2, w2, p3);
    let w3 = w2 + p3;
    assert(w3[0] == h[0] && w3[1] == h[1] && w3[2] == h[2]);
    lemma_all_in(p1, w3, p4);
    lemma_all_in(p2, w3, p4);
    lemma_all_in(p3, w3, p4);
    let w4 = w3 + p4;
    assert(w4[0] == h[0] && w4[1] == h[1] && w4[2] == h[2]);
    lemma_all_in(p1, w4, p5);
    lemma_all_in(p2, w4, p5);
    lemma_all_in(p3, w4, p5);
    lemma_all_in(p4, w4, p5);
    let w5 = w4 + p5;
    assert(w5[0] == h[0] && w5[1] == h[1] && w5[2] == h[2]);
    lemma_all_in(p1, w5, p6);
    lemma_all_in(p2, w5, p6);
    lemma_all_in(p3, w5, p6);
    lemma_all_in(p4, w5, p6);
    lemma_all_in(p5, w5, p6);
    let w6 = w5 + p6;
    assert(w6[0] == h[0] && w6[1] == h[1] && w6[2] == h[2]);
    lemma_all_in(p1, w6, p7);
    lemma_all_in(p2, w6, p7);
    lemma_all_in(p3, w6, p7);
    lemma_all_in(p4, w6, p7);
    lemma_all_in(p5, w6, p7);
    lemma_all_in(p6, w6, p7);
    let w7 = w6 + p7;
    assert(w7[0] == h[0] && w7[1] == h[1] && w7[2] == h[2]);
    lemma_all_in(p1, w7, p8);
    lemma_all_in(p2, w7, p8);
    lemma_all_in(p3, w7, p8);
    lemma_all_in(p4, w7, p8);
    lemma_all_in(p5, w7, p8);
    lemma_all_in(p6, w7, p8);
    lemma_all_in(p7, w7, p8);
    let w8 = w7 + p8;
    assert(w8[0] == h[0] && w8[1] == h[1] && w8[2] == h[2]);
}

/// The context begins with the session, the intent and the question, and tells of all that
/// the bundle holds: the incidents, the notes, the failures of commands and tools, the
/// commands, the output and the edits that go with the question, and the best evidence.
pub proof fn the_context_tells_of_everything(b: BundleView, max_incidents: nat)
    ensures
        ({
            let lines = context_lines(b, max_incidents);
            &&& lines[0] == "Session: "@ + b.session_id
            &&& lines[1] == "Intent: "@ + b.intent
            &&& b.query.len() <= 220 ==> lines[2] == "Query: "@ + b.query
            &&& all_in(listing("Recent command failures:"@, b.failing_commands), lines)
            &&& all_in(listing("Recent tool failures:"@, b.failing_tools), lines)
            &&& all_in(listing("Related commands:"@, b.related_commands), lines)
            &&& all_in(listing("Related output lines:"@, b.related_output), lines)
            &&& all_in(listing("Recent edited files:"@, b.recent_edits), lines)
            &&& all_in(artifact_section(b.artifacts), lines)
            &&& all_in(evidence_section(b.selected_evidence), lines)
            &&& all_in(incident_section(b.incidents, larger(max_incidents, 1)), lines)
        }),
{
    let lines = context_lines(b, max_incidents);
    let h = seq![
        "Session: "@ + b.session_id,
        "Intent: "@ + b.intent,
        "Query: "@ + clipped(b.query, 220),
    ];
    let p1 = incident_section(b.incidents, larger(max_incidents, 1));
    let p2 = artifact_section(b.artifacts);
    let p3 = listing("Recent command failures:"@, b.failing_commands);
    let p4 = listing("Recent tool failures:"@, b.failing_tools);
    let p5 = listing("Related commands:"@, b.related_commands);
    let p6 = listing("Related output lines:"@, b.related_output);
    let p7 = listing("Recent edited files:"@, b.recent_edits);
    let p8 = evidence_section(b.selected_evidence);
    lemma_sections(h, p1, p2, p3, p4, p5, p6, p7, p8);
    assert(lines[0] == h[0] && lines[1] == h[1] && lines[2] == h[2]);
}

/// Of the incidents as many are told of as there may be, of the notes the first ten under
/// their kinds, and of the evidence the first eight with their kinds and scores.
pub proof fn the_best_is_told_of(
    incidents: Seq<IncidentView>,
    max: nat,
    artifacts: Seq<ArtifactView>,
    evidence: Seq<EvidenceView>,
    i: int,
)
    ensures
        0 <= i < incidents.len() && i < max ==> incident_section(incidents, max).contains(
            incident_lines(incidents[i])[0],
        ),
        incidents.len() > 0 ==> incident_section(incidents, max)[0] == "Incident summaries:"@,
        0 <= i < artifacts.len() && i < 10 && artifacts[i].text.len() <= 220 ==> artifact_section(
            artifacts,
        ).contains("- ["@ + artifacts[i].artifact_type + seq![']', ' '] + artifacts[i].text),
        artifacts.len() > 10 ==> artifact_section(artifacts).len() == 11,
        0 <= i < evidence.len() && i < 8 && evidence[i].text.len() <= 200 ==> evidence_section(
            evidence,
        ).contains(
            "- ["@ + evidence[i].category + seq![' '] + evidence[i].label + seq![']', ' ']
                + evidence[i].text,
        ),
        evidence.len() > 8 ==> evidence_section(evidence).len() == 9,
{
    reveal_strlit("] ");
    reveal_strlit(" ");
    assert("] "@ =~= seq![']', ' ']);
    assert(" "@ =~= seq![' ']);
    if 0 <= i < incidents.len() && i < max {
        let k = first_of(incidents, max).len();
        lemma_incident_lines(incidents, k, i);
        let below = all_incident_lines(incidents, k);
        let at = choose|at: int|
            0 <= at < below.len() && #[trigger] below[at] == incident_lines(incidents[i])[0];
        assert(incident_section(incidents, max)[at + 1] == below[at]);
    }
    if 0 <= i < artifacts.len() && i < 10 {
        let s = artifact_section(artifacts);
        assert(s[i + 1] == "- ["@ + artifacts[i].artifact_type + "] "@ + clipped(
            artifacts[i].text,
            220,
        ));
    }
    if 0 <= i < evidence.len() && i < 8 {
        let s = evidence_section(evidence);
        assert(s[i + 1] == "- ["@ + evidence[i].category + " "@ + evidence[i].label + "] "@
            + clipped(evidence[i].text, 200));
    }
}

/// All that is on record is weighed: the 24 latest failures of commands and of tools, the 40
/// latest commands, the 80 latest lines of output, the 30 latest edits, the incidents that
/// are kept, and the notes, if the options ask for them.
pub proof fn everything_on_record_is_weighed(
    query: Seq<char>,
    options: BuildContextOptions,
    rows: ContextRows,
    incident_keys: Seq<i64>,
    c: CandidateView,
)
    ensures
        ({
            let words = words_of(query);
            let p = context_profile(query, options);
            context_candidates(query, options, rows, incident_keys).contains(c) <==> {
                ||| command_failure_candidates(
                    first_of(command_scan(rows.events@).failures, 24),
                    words,
                ).contains(c)
                ||| tool_failure_candidates(
                    first_of(tool_scan(rows.events@).failures, 24),
                    words,
                ).contains(c)
                ||| command_candidates(strs(rows.commands@), words, 40).contains(c)
                ||| output_candidates(rows.outputs@, words, 80).contains(c)
                ||| edit_candidates(rows.edits@, words, 30).contains(c)
                ||| incident_candidates(
                    top_incidents(query, options, rows, incident_keys),
                    p.incident_weight,
                ).contains(c)
                ||| options.include_artifacts && artifact_candidates(
                    rows.artifacts@,
                    words,
                    p.artifact_weight,
                ).contains(c)
            }
        }),
{
    let words = words_of(query);
    let p = context_profile(query, options);
    let p1 = command_failure_candidates(first_of(command_scan(rows.events@).failures, 24), words);
    let p2 = tool_failure_candidates(first_of(tool_scan(rows.events@).failures, 24), words);
    let p3 = command_candidates(strs(rows.commands@), words, 40);
    let p4 = output_candidates(rows.outputs@, words, 80);
    let p5 = edit_candidates(rows.edits@, words, 30);
    let p6 = incident_candidates(
        top_incidents(query, options, rows, incident_keys),
        p.incident_weight,
    );
    let p7 = artifact_candidates(context_artifacts(rows, options), words, p.artifact_weight);
    lemma_contains(p1, p2, c);
    lemma_contains(p1 + p2, p3, c);
    lemma_contains(p1 + p2 + p3, p4, c);
    lemma_contains(p1 + p2 + p3 + p4, p5, c);
    lemma_contains(p1 + p2 + p3 + p4 + p5, p6, c);
    lemma_contains(p1 + p2 + p3 + p4 + p5 + p6, p7, c);
}

proof fn lemma_contains(a: Seq<CandidateView>, b: Seq<CandidateView>, c: CandidateView)
    ensures
        (a + b).contains(c) <==> a.contains(c) || b.contains(c),
{
    let all = a + b;
    if a.contains(c) {
        let i = choose|i: int| 0 <= i < a.len() && a[i] == c;
        assert(all[i] == c);
    }
    if b.contains(c) {
        let i = choose|i: int| 0 <= i < b.len() && b[i] == c;
        assert(all[a.len() + i] == c);
    }
    if all.contains(c) {
        let i = choose|i: int| 0 <= i < all.len() && all[i] == c;
        if i < a.len() {
            assert(a[i] == c);
        } else {
            assert(b[i - a.len()] == c);
        }
    }
}

/// An intent that the options set is the intent of the question; else its words give it
/// away. The words of the question, the notes and the incidents are reported as they were
/// found, and how the evidence was chosen is explained if the options ask for it.
pub proof fn bundles_report_what_was_found(
    session_id: Seq<char>,
    query: Seq<char>,
    options: BuildContextOptions,
    rows: ContextRows,
    incident_keys: Seq<i64>,
    keys: Seq<i64>,
    labels: Seq<Seq<char>>,
    i: int,
)
    ensures
        ({
            let b = context_bundle(session_id, query, options, rows, incident_keys, keys, labels);
            let cs = context_candidates(query, options, rows, incident_keys);
            let p = context_profile(query, options);
            let most = if options.max_evidence < 8 {
                8
            } else {
                options.max_evidence as nat
            };
            let picked = selection(cs, keys, most, p);
            &&& b.session_id == session_id
            &&& b.query == query
            &&& options.intent_override is Some ==> b.intent == intent_name(
                options.intent_override->Some_0,
            )
            &&& options.intent_override is None ==> b.intent == intent_name(intent_of_query(query))
            &&& b.query_tokens == words_of(query)
            &&& b.incidents == top_incidents(query, options, rows, incident_keys)
            &&& 0 <= i < b.artifacts.len() ==> {
                &&& b.artifacts[i].artifact_type == rows.artifacts@[i].artifact_type@
                &&& b.artifacts[i].text == rows.artifacts@[i].text@
                &&& b.artifacts[i].ts_ms == rows.artifacts@[i].ts_ms
            }
            &&& options.include_artifacts && rows.artifacts@.len() <= p.max_artifacts
                ==> b.artifacts.len() == rows.artifacts@.len()
            &&& b.selected_evidence.len() == picked.len()
            &&& 0 <= i < picked.len() ==> {
                let c = cs[picked[i]];
                let e = b.selected_evidence[i];
                &&& e.category == category_name(c.category)
                &&& e.text == c.text
                &&& e.score == c.score
                &&& e.label == labels[picked[i]]
                &&& e.reasons == c.reasons
                &&& e.source_table == category_table(c.category)
                &&& e.source_id == c.source_id
                &&& e.ts_ms == c.ts_ms
            }
            &&& b.failing_commands == lines_of_category(cs, picked, Category::FailureCommand, 12)
            &&& b.failing_tools == lines_of_category(cs, picked, Category::FailureTool, 12)
            &&& b.related_commands == lines_of_category(cs, picked, Category::Command, 15)
            &&& b.recent_edits == lines_of_category(cs, picked, Category::Edit, 12)
            &&& b.explain is Some <==> options.explain
            &&& options.explain ==> {
                let x = b.explain->Some_0;
                &&& x.intent == b.intent
                &&& x.selected_count == picked.len()
                &&& x.candidate_count == cs.len()
                &&& x.max_evidence == most
                &&& x.max_incidents == p.max_incidents
                &&& x.category_caps == caps_of(p)
            }
        }),
{
}

/// The output that is shown is that around the chosen lines, with up to five lines on either
/// side and thirty in all; where no chosen line can be found again, the chosen lines
/// themselves are.
pub proof fn output_is_shown_with_its_neighbours(
    cs: Seq<CandidateView>,
    picked: Seq<int>,
    outputs: Seq<OutputRecord>,
    window: nat,
)
    ensures
        output_ids(cs, picked, 24).len() == 0 ==> output_lines(cs, picked, outputs, window)
            == lines_of_category(cs, picked, Category::Output, 30),
        output_ids(cs, picked, 24).len() > 0 && window <= 5 ==> output_lines(
            cs,
            picked,
            outputs,
            window,
        ) == with_windows(Seq::empty(), outputs, output_ids(cs, picked, 24), window, 30),
        output_ids(cs, picked, 24).len() > 0 && window > 5 ==> output_lines(
            cs,
            picked,
            outputs,
            window,
        ) == with_windows(Seq::empty(), outputs, output_ids(cs, picked, 24), 5, 30),
{
}

/// Where all lines of the context fit, the text is all of them, line by line.
pub proof fn contexts_that_fit_are_told_in_full(b: BundleView, options: BuildContextOptions)
    requires
        context_lines(b, options.max_incidents as nat).len() <= larger(
            options.max_lines as nat,
            10,
        ),
        joined(context_lines(b, options.max_incidents as nat), "\n"@).len() <= options.max_chars,
    ensures
        context_text(b, options) == joined(context_lines(b, options.max_incidents as nat), "\n"@),
{
    let lines = context_lines(b, options.max_incidents as nat);
    let k = lines.len() as int;
    assert(lines.take(k) =~= lines);
    assert(lines[0] == "Session: "@ + b.session_id);
    as_many_lines_as_fit_are_kept(
        lines,
        k,
        larger(options.max_lines as nat, 10),
        options.max_chars as nat,
    );
    let out = packed(lines, larger(options.max_lines as nat, 10), options.max_chars as nat);
    assert(out.take(k) =~= out);
}

/// The incidents stem from the latest failures, of which 24 of commands and 24 of tools are
/// looked at: each is called by what failed, commands before tools, and scored by its
/// place among them.
pub proof fn incidents_stem_from_the_latest_failures(
    query: Seq<char>,
    options: BuildContextOptions,
    rows: ContextRows,
    i: int,
)
    requires
        words_of(query).len() <= usize::MAX,
    ensures
        ({
            let all = context_incidents(query, options, rows);
            let most = context_profile(query, options).max_incidents as nat;
            let commands = command_scan(rows.events@).failures;
            let tools = tool_scan(rows.events@).failures;
            let c = smaller(commands.len(), 24);
            let t = smaller(tools.len(), 24);
            &&& all.len() <= most
            &&& 0 <= i < c && i < most ==> {
                &&& i < all.len()
                &&& all[i].title == commands[i].text
                &&& all[i].score.out_of == c
                &&& all[i].score.place == i
                &&& all[i].score.overlap == overlap(commands[i].text, words_of(query))
            }
            &&& 0 <= i < t && c + i < most ==> {
                &&& c + i < all.len()
                &&& all[c + i].title == tools[i].text
                &&& all[c + i].score.out_of == t
                &&& all[c + i].score.place == i
                &&& all[c + i].score.overlap == overlap(tools[i].text, words_of(query))
            }
        }),
{
    let most = context_profile(query, options).max_incidents as nat;
    let commands = first_of(command_scan(rows.events@).failures, 24);
    let tools = first_of(tool_scan(rows.events@).failures, 24);
    let record = Record {
        commands: strs(rows.commands@),
        tools,
        outputs: rows.outputs@,
        edits: rows.edits@,
    };
    incidents_are_few(commands, words_of(query), record, most);
    failures_make_incidents(commands, words_of(query), record, most, i);
    if 0 <= i < commands.len() && i < most {
        lemma_incident_score(commands, smaller(commands.len(), most), words_of(query), record, i);
        lemma_words_fit(commands[i].text, words_of(query));
    }
    if 0 <= i < tools.len() {
        lemma_words_fit(tools[i].text, words_of(query));
    }
}

proof fn lemma_words_fit(text: Seq<char>, words: Seq<Seq<char>>)
    ensures
        overlap(text, words) <= words.len(),
    decreases words.len(),
{
    if words.len() > 0 {
        lemma_words_fit(text, words.drop_last());
    }
}

proof fn lemma_incident_score(
    failures: Seq<CommandFailureView>,
    k: nat,
    query: Seq<Seq<char>>,
    record: Record,
    i: int,
)
    requires
        0 <= i < k <= failures.len(),
    ensures
        ({
            let all = command_incidents(failures, k, query, record).0;
            &&& all.len() == k
            &&& all[i].score == plain_score(
                950,
                overlap(failures[i].text, query),
                200,
                i as nat,
                failures.len(),
            )
        }),
    decreases k,
{
    let before = command_incidents(failures, (k - 1) as nat, query, record).0;
    if i < k - 1 {
        lemma_incident_score(failures, (k - 1) as nat, query, record, i);
    } else if k > 1 {
        lemma_incident_score(failures, (k - 1) as nat, query, record, k - 2);
    } else {
        assert(before.len() == 0);
    }
}

/// Every incident and every candidate has a key, and every candidate a label, that was made of
/// its own score.
pub proof fn every_score_has_its_key<
    K: Fn(EvidenceScore) -> i64,
    L: Fn(EvidenceScore) -> String,
>(
    rank: K,
    show: L,
    incidents: Seq<IncidentView>,
    cs: Seq<CandidateView>,
    incident_keys: Seq<i64>,
    keys: Seq<i64>,
    labels: Seq<String>,
    i: int,
)
    ensures
        incidents_keyed(rank, incidents, incident_keys) ==> incident_keys.len() == incidents.len(),
        incidents_keyed(rank, incidents, incident_keys) && 0 <= i < incidents.len()
            ==> call_ensures(rank, (EvidenceScore::Own(incidents[i].score),), incident_keys[i]),
        candidates_keyed(rank, cs, keys) ==> keys.len() == cs.len(),
        candidates_keyed(rank, cs, keys) && 0 <= i < cs.len() ==> call_ensures(
            rank,
            (cs[i].score,),
            keys[i],
        ),
        candidates_labelled(show, cs, labels) ==> labels.len() == cs.len(),
        candidates_labelled(show, cs, labels) && 0 <= i < cs.len() ==> call_ensures(
            show,
            (cs[i].score,),
            labels[i],
        ),
{
}

} // verus!
