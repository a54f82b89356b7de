//! Kinds of evidence, and how much of each an intent calls for.
use vstd::prelude::*;
use crate::intent::QueryIntent;

verus! {

broadcast use vstd::string::group_string_axioms;

/// Bounds on the context that is built for a question.
#[derive(Clone, Copy, Debug)]
pub struct BuildContextOptions {
    pub max_lines: usize,
    pub max_chars: usize,
    pub output_window: usize,
    pub max_evidence: usize,
    pub max_incidents: usize,
    pub intent_override: Option<QueryIntent>,
    pub include_artifacts: bool,
    pub explain: bool,
}

impl Default for BuildContextOptions {
    fn default() -> (r: Self)
        ensures
            r.max_lines == 120,
            r.max_chars == 4500,
            r.output_window == 1,
            r.max_evidence == 36,
            r.max_incidents == 6,
            r.intent_override is None,
            r.include_artifacts,
            !r.explain,
    {
        BuildContextOptions {
            max_lines: 120,
            max_chars: 4500,
            output_window: 1,
            max_evidence: 36,
            max_incidents: 6,
            intent_override: None,
            include_artifacts: true,
            explain: false,
        }
    }
}

/// The kinds of evidence.
#[derive(Clone, Copy, Debug, PartialEq, Eq, Structural)]
pub enum Category {
    Incident,
    Artifact,
    FailureCommand,
    FailureTool,
    Command,
    Output,
    Edit,
}

/// The name of a kind of evidence.
pub open spec fn category_name(category: Category) -> Seq<char> {
    match category {
        Category::Incident => "incident"@,
        Category::Artifact => "artifact"@,
        Category::FailureCommand => "failure.command"@,
        Category::FailureTool => "failure.tool"@,
        Category::Command => "command"@,
        Category::Output => "output"@,
        Category::Edit => "edit"@,
    }
}

/// The table that evidence of a kind is drawn from.
pub open spec fn category_table(category: Category) -> Seq<char> {
    match category {
        Category::Incident => "derived.incident"@,
        Category::Artifact => "context_artifacts"@,
        Category::FailureCommand => "events"@,
        Category::FailureTool => "events"@,
        Category::Command => "command_inputs"@,
        Category::Output => "pane_output"@,
        Category::Edit => "file_edits"@,
    }
}

impl Category {
    /// The name of the kind.
    pub fn name(self) -> (r: &'static str)
        ensures
            r@ == category_name(self),
    {
        match self {
            Category::Incident => "incident",
            Category::Artifact => "artifact",
            Category::FailureCommand => "failure.command",
            Category::FailureTool => "failure.tool",
            Category::Command => "command",
            Category::Output => "output",
            Category::Edit => "edit",
        }
    }

    /// The table that evidence of the kind is drawn from.
    pub fn source_table(self) -> (r: &'static str)
        ensures
            r@ == category_table(self),
    {
        match self {
            Category::Incident => "derived.incident",
            Category::Artifact => "context_artifacts",
            Category::FailureCommand => "events",
            Category::FailureTool => "events",
            Category::Command => "command_inputs",
            Category::Output => "pane_output",
            Category::Edit => "file_edits",
        }
    }
}

/// How much of each kind of evidence is wanted. Weights are in hundredths.
#[derive(Clone, Copy, Debug)]
pub struct RetrievalProfile {
    pub max_incidents: usize,
    pub max_artifacts: usize,
    pub max_failure_commands: usize,
    pub max_failure_tools: usize,
    pub max_commands: usize,
    pub max_output: usize,
    pub max_edits: usize,
    pub incident_weight: u32,
    pub artifact_weight: u32,
}

/// The profile of an intent, before the options narrow it.
pub open spec fn intent_profile(intent: QueryIntent) -> RetrievalProfile {
    match intent {
        QueryIntent::Debug => RetrievalProfile {
            max_incidents: 8,
            max_artifacts: 8,
            max_failure_commands: 10,
            max_failure_tools: 10,
            max_commands: 8,
            max_output: 20,
            max_edits: 6,
            incident_weight: 130,
            artifact_weight: 110,
        },
        QueryIntent::WhatChanged => RetrievalProfile {
            max_incidents: 5,
            max_artifacts: 10,
            max_failure_commands: 6,
            max_failure_tools: 4,
            max_commands: 12,
            max_output: 8,
            max_edits: 14,
            incident_weight: 90,
            artifact_weight: 120,
        },
        QueryIntent::Resume => RetrievalProfile {
            max_incidents: 7,
            max_artifacts: 12,
            max_failure_commands: 8,
            max_failure_tools: 8,
            max_commands: 10,
            max_output: 10,
            max_edits: 10,
            incident_weight: 110,
            artifact_weight: 125,
        },
        QueryIntent::Status | QueryIntent::General => RetrievalProfile {
            max_incidents: 6,
            max_artifacts: 8,
            max_failure_commands: 8,
            max_failure_tools: 8,
            max_commands: 10,
            max_output: 12,
            max_edits: 8,
            incident_weight: 100,
            artifact_weight: 100,
        },
    }
}

/// The number of incidents that the options allow: at least one.
pub open spec fn incident_limit(options: BuildContextOptions) -> usize {
    if options.max_incidents < 1 {
        1
    } else {
        options.max_incidents
    }
}

/// The profile of an intent under the options.
pub open spec fn profile_for(
    intent: QueryIntent,
    options: BuildContextOptions,
) -> RetrievalProfile {
    let p = intent_profile(intent);
    RetrievalProfile {
        max_incidents: if incident_limit(options) < p.max_incidents {
            incident_limit(options)
        } else {
            p.max_incidents
        },
        ..p
    }
}

/// The most evidence of a kind that is wanted.
pub open spec fn cap(p: RetrievalProfile, category: Category) -> usize {
    match category {
        Category::Incident => p.max_incidents,
        Category::Artifact => p.max_artifacts,
        Category::FailureCommand => p.max_failure_commands,
        Category::FailureTool => p.max_failure_tools,
        Category::Command => p.max_commands,
        Category::Output => p.max_output,
        Category::Edit => p.max_edits,
    }
}

impl RetrievalProfile {
    /// The profile of an intent under the options.
    pub fn for_intent(intent: QueryIntent, options: BuildContextOptions) -> (r: Self)
        ensures
            r == profile_for(intent, options),
    {
        let mut profile = match intent {
            QueryIntent::Debug => RetrievalProfile {
                max_incidents: 8,
                max_artifacts: 8,
                max_failure_commands: 10,
                max_failure_tools: 10,
                max_commands: 8,
                max_output: 20,
                max_edits: 6,
                incident_weight: 130,
                artifact_weight: 110,
            },
            QueryIntent::WhatChanged => RetrievalProfile {
                max_incidents: 5,
                max_artifacts: 10,
                max_failure_commands: 6,
                max_failure_tools: 4,
                max_commands: 12,
                max_output: 8,
                max_edits: 14,
                incident_weight: 90,
                artifact_weight: 120,
            },
            QueryIntent::Resume => RetrievalProfile {
                max_incidents: 7,
                max_artifacts: 12,
                max_failure_commands: 8,
                max_failure_tools: 8,
                max_commands: 10,
                max_output: 10,
                max_edits: 10,
                incident_weight: 110,
                artifact_weight: 125,
            },
            QueryIntent::Status | QueryIntent::General => RetrievalProfile {
                max_incidents: 6,
                max_artifacts: 8,
                max_failure_commands: 8,
                max_failure_tools: 8,
                max_commands: 10,
                max_output: 12,
                max_edits: 8,
                incident_weight: 100,
                artifact_weight: 100,
            },
        };
        let limit: usize = if options.max_incidents < 1 { 1 } else { options.max_incidents };
        if limit < profile.max_incidents {
            profile.max_incidents = limit;
        }
        profile
    }

    /// The most evidence of a kind that is wanted.
    pub fn category_cap(&self, category: Category) -> (r: usize)
        ensures
            r == cap(*self, category),
    {
        match category {
            Category::Incident => self.max_incidents,
            Category::Artifact => self.max_artifacts,
            Category::FailureCommand => self.max_failure_commands,
            Category::FailureTool => self.max_failure_tools,
            Category::Command => self.max_commands,
            Category::Output => self.max_output,
            Category::Edit => self.max_edits,
        }
    }

    /// Each kind by its name, with the most that is wanted of it.
    pub fn category_caps_map(&self) -> (r: Vec<(String, usize)>)
        ensures
            caps_view(r@) == caps_of(*self),
    {
        let mut out: Vec<(String, usize)> = Vec::new();
        out.push(("incident".to_string(), self.max_incidents));
        out.push(("artifact".to_string(), self.max_artifacts));
        out.push(("failure.command".to_string(), self.max_failure_commands));
        out.push(("failure.tool".to_string(), self.max_failure_tools));
        out.push(("command".to_string(), self.max_commands));
        out.push(("output".to_string(), self.max_output));
        out.push(("edit".to_string(), self.max_edits));
        assert(caps_view(out@) =~= caps_of(*self));
        out
    }
}

/// The texts and numbers of a row of pairs.
pub open spec fn caps_view(v: Seq<(String, usize)>) -> Seq<(Seq<char>, usize)> {
    Seq::new(v.len(), |i: int| (v[i].0@, v[i].1))
}

/// All kinds of evidence.
pub open spec fn categories() -> Seq<Category> {
    seq![
        Category::Incident,
        Category::Artifact,
        Category::FailureCommand,
        Category::FailureTool,
        Category::Command,
        Category::Output,
        Category::Edit,
    ]
}

/// Each kind by its name, with the most that is wanted of it.
pub open spec fn caps_of(p: RetrievalProfile) -> Seq<(Seq<char>, usize)> {
    categories().map_values(|c: Category| (category_name(c), cap(p, c)))
}

/// Whatever the intent, every kind of evidence is wanted, and the options bound
/// the incidents.
pub proof fn profiles_want_everything(
    intent: QueryIntent,
    options: BuildContextOptions,
    category: Category,
)
    ensures
        cap(profile_for(intent, options), category) >= 1,
        profile_for(intent, options).max_incidents <= incident_limit(options),
{
}

/// Who asks what went wrong gets the most of failures, of output and of incidents; who asks
/// what changed the most of edits and commands; who goes on the most of notes. The
/// weights lean the same way, and where nothing in particular is asked for they are even.
pub proof fn intents_get_what_they_are_after(intent: QueryIntent)
    ensures
        ({
            let p = intent_profile(intent);
            let debug = intent_profile(QueryIntent::Debug);
            let changed = intent_profile(QueryIntent::WhatChanged);
            let resume = intent_profile(QueryIntent::Resume);
            &&& debug.max_failure_commands >= p.max_failure_commands
            &&& debug.max_failure_tools >= p.max_failure_tools
            &&& debug.max_output >= p.max_output
            &&& debug.max_incidents >= p.max_incidents
            &&& debug.incident_weight >= p.incident_weight
            &&& changed.max_edits >= p.max_edits
            &&& changed.max_commands >= p.max_commands
            &&& changed.incident_weight <= p.incident_weight
            &&& changed.max_failure_tools <= p.max_failure_tools
            &&& changed.max_output <= p.max_output
            &&& resume.max_artifacts >= p.max_artifacts
            &&& resume.artifact_weight >= p.artifact_weight
        }),
        intent_profile(QueryIntent::Status) == intent_profile(QueryIntent::General),
        intent_profile(QueryIntent::General).incident_weight == 100,
        intent_profile(QueryIntent::General).artifact_weight == 100,
        wanted_in_all(intent_profile(QueryIntent::Debug)) == 70,
        wanted_in_all(intent_profile(QueryIntent::WhatChanged)) == 59,
        wanted_in_all(intent_profile(QueryIntent::Resume)) == 65,
        wanted_in_all(intent_profile(QueryIntent::General)) == 60,
{
}

/// How much evidence of all kinds is wanted.
pub open spec fn wanted_in_all(p: RetrievalProfile) -> int {
    p.max_incidents + p.max_artifacts + p.max_failure_commands + p.max_failure_tools
        + p.max_commands + p.max_output + p.max_edits
}

/// The options narrow the incidents, to one at the least, and nothing else.
pub proof fn options_narrow_incidents(intent: QueryIntent, options: BuildContextOptions)
    ensures
        ({
            let p = intent_profile(intent);
            let q = profile_for(intent, options);
            &&& options.max_incidents >= p.max_incidents ==> q == p
            &&& 1 <= options.max_incidents < p.max_incidents ==> q.max_incidents
                == options.max_incidents
            &&& options.max_incidents == 0 ==> q.max_incidents == 1
            &&& q == (RetrievalProfile { max_incidents: q.max_incidents, ..p })
        }),
{
}

/// Each kind of evidence has its own bound, name and table, and all kinds are named in
/// order.
pub proof fn kinds_have_their_own(p: RetrievalProfile, c: Category)
    ensures
        cap(p, Category::Incident) == p.max_incidents,
        cap(p, Category::Artifact) == p.max_artifacts,
        cap(p, Category::FailureCommand) == p.max_failure_commands,
        cap(p, Category::FailureTool) == p.max_failure_tools,
        cap(p, Category::Command) == p.max_commands,
        cap(p, Category::Output) == p.max_output,
        cap(p, Category::Edit) == p.max_edits,
        caps_of(p).len() == 7,
        exists|i: int| 0 <= i < 7 && #[trigger] caps_of(p)[i] == (category_name(c), cap(p, c)),
        forall|d: Category| #[trigger] category_name(d) == category_name(c) ==> d == c,
{
    let all = categories();
    let caps = caps_of(p);
    assert(all[0] == Category::Incident && all[1] == Category::Artifact);
    assert(all[2] == Category::FailureCommand && all[3] == Category::FailureTool);
    assert(all[4] == Category::Command && all[5] == Category::Output && all[6] == Category::Edit);
    assert(caps[0] == (category_name(all[0]), cap(p, all[0])));
    assert(caps[1] == (category_name(all[1]), cap(p, all[1])));
    assert(caps[2] == (category_name(all[2]), cap(p, all[2])));
    assert(caps[3] == (category_name(all[3]), cap(p, all[3])));
    assert(caps[4] == (category_name(all[4]), cap(p, all[4])));
    assert(caps[5] == (category_name(all[5]), cap(p, all[5])));
    assert(caps[6] == (category_name(all[6]), cap(p, all[6])));
    reveal_strlit("incident");
    reveal_strlit("artifact");
    reveal_strlit("failure.command");
    reveal_strlit("failure.tool");
    reveal_strlit("command");
    reveal_strlit("output");
    reveal_strlit("edit");
    assert("incident"@[0] == 'i' && "artifact"@[0] == 'a' && "incident"@.len() == 8);
    assert("artifact"@.len() == 8 && "failure.command"@.len() == 15);
    assert("failure.tool"@.len() == 12 && "command"@.len() == 7 && "output"@.len() == 6);
    assert("edit"@.len() == 4);
}

} // verus!
