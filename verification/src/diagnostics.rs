//! A trial of the terminal multiplexer, step by step.
use vstd::prelude::*;
use crate::json::{
    json_str, json_views, lemma_array_view, lemma_says, object2, object3, says, Json, JsonView,
};
use crate::text::{
    contains, decimal, has_char, has_text, lines, lines_end_at_line_feeds, lines_of, nat_to_string,
    push_text, strs, trim, trimmed,
};

verus! {

broadcast use vstd::string::group_string_axioms;

/// A step of the trial and how it went.
#[derive(Debug, PartialEq, Eq)]
pub struct DiagnosticStep {
    pub name: &'static str,
    pub ok: bool,
    pub detail: String,
}

/// What a `DiagnosticStep` holds.
pub struct StepView {
    pub name: Seq<char>,
    pub ok: bool,
    pub detail: Seq<char>,
}

impl View for DiagnosticStep {
    type V = StepView;

    open spec fn view(&self) -> StepView {
        StepView { name: self.name@, ok: self.ok, detail: self.detail@ }
    }
}

/// The trial so far.
#[derive(Debug, PartialEq, Eq)]
pub struct DiagnosticReport {
    pub ok: bool,
    pub steps: Vec<DiagnosticStep>,
}

/// What a row of steps holds.
pub open spec fn step_views(v: Seq<DiagnosticStep>) -> Seq<StepView> {
    Seq::new(v.len(), |i: int| v[i]@)
}

/// What a `DiagnosticReport` holds.
pub struct ReportView {
    pub ok: bool,
    pub steps: Seq<StepView>,
}

impl View for DiagnosticReport {
    type V = ReportView;

    open spec fn view(&self) -> ReportView {
        ReportView { ok: self.ok, steps: step_views(self.steps@) }
    }
}

/// The name of the session that is made for the trial.
pub fn trial_session(now_ms: u128) -> (r: String)
    ensures
        r@ == "aish-diag-"@ + decimal(now_ms as nat),
{
    let mut s = "aish-diag-".to_string();
    let n = nat_to_string(now_ms);
    push_text(&mut s, n.as_str());
    s
}

/// The report with one more step; once a step went wrong the whole did.
pub open spec fn noted(report: ReportView, name: Seq<char>, ok: bool, detail: Seq<char>) -> ReportView {
    ReportView {
        ok: report.ok && ok,
        steps: report.steps.push(StepView { name, ok, detail }),
    }
}

/// A line of a listing names the session.
pub open spec fn listed(output: Seq<char>, session: Seq<char>) -> bool {
    exists|i: int|
        0 <= i < lines_of(output).len() && has_text(#[trigger] lines_of(output)[i], session)
}

/// The report after the version was asked for.
pub open spec fn after_version(result: Result<String, String>) -> ReportView {
    let start = ReportView { ok: true, steps: Seq::empty() };
    match result {
        Ok(out) => noted(start, "version"@, true, trimmed(out@)),
        Err(e) => noted(start, "version"@, false, e@),
    }
}

/// The report after a session was made; it is made only if all went well before.
pub open spec fn after_create(
    report: ReportView,
    session: Seq<char>,
    result: Result<(), String>,
) -> ReportView {
    if report.ok {
        match result {
            Ok(()) => noted(report, "create_session"@, true, session),
            Err(e) => noted(report, "create_session"@, false, e@),
        }
    } else {
        report
    }
}

/// The report after sessions were listed; they are listed only if all went well
/// before.
pub open spec fn after_list(
    report: ReportView,
    session: Seq<char>,
    result: Result<String, String>,
) -> ReportView {
    if report.ok {
        match result {
            Ok(out) => noted(report, "list_sessions"@, listed(out@, session), trimmed(out@)),
            Err(e) => noted(report, "list_sessions"@, false, e@),
        }
    } else {
        report
    }
}

/// The report after the session was taken down, which is tried in any case and
/// does not count.
pub open spec fn after_cleanup(report: ReportView, result: Result<(), String>) -> ReportView {
    ReportView {
        ok: report.ok,
        steps: report.steps.push(
            StepView {
                name: "cleanup"@,
                ok: result is Ok,
                detail: match result {
                    Ok(()) => "ok"@,
                    Err(e) => e@,
                },
            },
        ),
    }
}

fn some_line_names(output: &str, session: &str) -> (r: bool)
    ensures
        r == listed(output@, session@),
{
    let ls = lines(output);
    assert(lines_of(output@).len() == ls@.len());
    let mut i: usize = 0;
    while i < ls.len()
        invariant
            strs(ls@) == lines_of(output@),
            i <= ls@.len(),
            forall|k: int| 0 <= k < i ==> !has_text(#[trigger] lines_of(output@)[k], session@),
        decreases ls@.len() - i,
    {
        assert(strs(ls@)[i as int] == ls@[i as int]@);
        if contains(ls[i].as_str(), session) {
            return true;
        }
        i = i + 1;
    }
    false
}

impl DiagnosticReport {
    fn note(&mut self, name: &'static str, ok: bool, detail: String)
        ensures
            final(self)@ == noted(old(self)@, name@, ok, detail@),
    {
        let ghost before = step_views(self.steps@);
        if !ok {
            self.ok = false;
        }
        self.steps.push(DiagnosticStep { name, ok, detail });
        assert(step_views(self.steps@) =~= before.push(StepView { name: name@, ok, detail: detail@ }));
    }

    /// Takes the version.
    pub fn on_version(result: Result<String, String>) -> (r: DiagnosticReport)
        ensures
            r@ == after_version(result),
    {
        let mut report = DiagnosticReport { ok: true, steps: Vec::new() };
        assert(report@.steps =~= Seq::empty());
        match result {
            Ok(out) => {
                let t = trim(out.as_str());
                report.note("version", true, t);
            },
            Err(e) => {
                report.note("version", false, e);
            },
        }
        report
    }

    /// Takes what came of making a session.
    pub fn on_create(&mut self, session: &str, result: Result<(), String>)
        ensures
            final(self)@ == after_create(old(self)@, session@, result),
    {
        if self.ok {
            match result {
                Ok(()) => self.note("create_session", true, session.to_string()),
                Err(e) => self.note("create_session", false, e),
            }
        }
    }

    /// Takes what came of listing sessions.
    pub fn on_list(&mut self, session: &str, result: Result<String, String>)
        ensures
            final(self)@ == after_list(old(self)@, session@, result),
    {
        if self.ok {
            match result {
                Ok(out) => {
                    let found = some_line_names(out.as_str(), session);
                    let t = trim(out.as_str());
                    self.note("list_sessions", found, t);
                },
                Err(e) => self.note("list_sessions", false, e),
            }
        }
    }

    /// Takes what came of taking the session down.
    pub fn on_cleanup(&mut self, result: Result<(), String>)
        ensures
            final(self)@ == after_cleanup(old(self)@, result),
    {
        let ghost before = step_views(self.steps@);
        let step = match result {
            Ok(()) => DiagnosticStep { name: "cleanup", ok: true, detail: "ok".to_string() },
            Err(e) => DiagnosticStep { name: "cleanup", ok: false, detail: e },
        };
        let ghost view = step@;
        self.steps.push(step);
        assert(step_views(self.steps@) =~= before.push(view));
    }

    /// The report as a value.
    pub fn to_json(&self) -> (r: Json)
        ensures
            r@ == report_json(self@),
    {
        let mut out: Vec<Json> = Vec::new();
        let mut i: usize = 0;
        while i < self.steps.len()
            invariant
                i <= self.steps@.len(),
                out@.len() == i,
                forall|k: int| 0 <= k < i ==> (#[trigger] out@[k])@ == step_json(self.steps@[k]@),
            decreases self.steps@.len() - i,
        {
            let s = object3(
                "name",
                json_str(self.steps[i].name),
                "ok",
                Json::Bool(self.steps[i].ok),
                "detail",
                json_str(self.steps[i].detail.as_str()),
            );
            out.push(s);
            i = i + 1;
        }
        proof {
            lemma_array_view(out);
            assert(json_views(out@) =~= self@.steps.map_values(|s: StepView| step_json(s)));
        }
        object2("ok", Json::Bool(self.ok), "steps", Json::Array(out))
    }
}

/// A step as a value.
pub open spec fn step_json(s: StepView) -> JsonView {
    JsonView::Object(
        seq![
            ("name"@, JsonView::Str(s.name)),
            ("ok"@, JsonView::Bool(s.ok)),
            ("detail"@, JsonView::Str(s.detail)),
        ],
    )
}

/// A report as a value.
pub open spec fn report_json(r: ReportView) -> JsonView {
    JsonView::Object(
        seq![
            ("ok"@, JsonView::Bool(r.ok)),
            ("steps"@, JsonView::Array(r.steps.map_values(|s: StepView| step_json(s)))),
        ],
    )
}

/// The trial went well exactly if every step but the cleanup did.
pub proof fn trial_is_all_or_nothing(
    session: Seq<char>,
    version: Result<String, String>,
    create: Result<(), String>,
    list: Result<String, String>,
    cleanup: Result<(), String>,
)
    ensures
        ({
            let r = after_cleanup(
                after_list(
                    after_create(after_version(version), session, create),
                    session,
                    list,
                ),
                cleanup,
            );
            &&& r.ok <==> version is Ok && create is Ok && list is Ok && listed(
                list->Ok_0@,
                session,
            )
            &&& r.ok ==> r.steps.len() == 4
            &&& r.steps.last().name == "cleanup"@
        }),
{
}

/// Each step is noted behind those before it, with its name, whether it went well and what
/// came of it; after one that went wrong none is tried but the cleanup.
pub proof fn steps_are_noted_in_order(
    session: Seq<char>,
    version: String,
    list: String,
    error: String,
    cleanup: Result<(), String>,
)
    ensures
        ({
            let r = after_version(Ok(version));
            r.ok && r.steps == seq![
                StepView { name: "version"@, ok: true, detail: trimmed(version@) },
            ]
        }),
        ({
            let r = after_create(after_version(Ok(version)), session, Ok(()));
            &&& r.ok
            &&& r.steps.len() == 2
            &&& r.steps[0] == after_version(Ok(version)).steps[0]
            &&& r.steps[1] == (StepView { name: "create_session"@, ok: true, detail: session })
        }),
        ({
            let before = after_create(after_version(Ok(version)), session, Ok(()));
            let r = after_list(before, session, Ok(list));
            &&& r.ok == listed(list@, session)
            &&& r.steps.len() == 3
            &&& r.steps.take(2) == before.steps
            &&& r.steps[2] == (StepView {
                name: "list_sessions"@,
                ok: listed(list@, session),
                detail: trimmed(list@),
            })
        }),
        ({
            let r = after_version(Err(error));
            &&& !r.ok
            &&& r.steps == seq![StepView { name: "version"@, ok: false, detail: error@ }]
            &&& after_create(r, session, Ok(())) == r
            &&& after_list(r, session, Ok(list)) == r
            &&& after_cleanup(r, cleanup).steps.len() == 2
            &&& after_cleanup(r, cleanup).steps[1].ok == (cleanup is Ok)
        }),
        after_create(after_version(Ok(version)), session, Err(error)).steps[1] == (StepView {
            name: "create_session"@,
            ok: false,
            detail: error@,
        }),
        cleanup is Err ==> after_cleanup(after_version(Ok(version)), cleanup).steps[1].detail
            == cleanup->Err_0@,
{
    let start = Seq::<StepView>::empty();
    let v = StepView { name: "version"@, ok: true, detail: trimmed(version@) };
    assert(start.push(v) =~= seq![v]);
    let e = StepView { name: "version"@, ok: false, detail: error@ };
    assert(start.push(e) =~= seq![e]);
    let before = after_create(after_version(Ok(version)), session, Ok(()));
    let r = after_list(before, session, Ok(list));
    assert(r.steps.take(2) =~= before.steps);
}

/// A session is in a listing if a line of it has its name in it.
pub proof fn sessions_are_found_in_listings(
    a: Seq<char>,
    line: Seq<char>,
    b: Seq<char>,
    session: Seq<char>,
)
    requires
        !has_char(line, '\n'),
        line.len() > 0 ==> line.last() != '\r',
    ensures
        listed(line + seq!['\n'] + b, session) <==> has_text(line, session) || listed(b, session),
        listed(Seq::empty(), session) == false,
{
    let s = line + seq!['\n'] + b;
    lines_end_at_line_feeds(line, b);
    let all = lines_of(s);
    let rest = lines_of(b);
    assert(all[0] == line);
    assert forall|i: int| 0 <= i < rest.len() implies #[trigger] rest[i] == all[i + 1] by {}
    if listed(b, session) {
        let i = choose|i: int| 0 <= i < rest.len() && has_text(#[trigger] rest[i], session);
        assert(has_text(all[i + 1], session));
    }
    if listed(s, session) {
        let i = choose|i: int| 0 <= i < all.len() && has_text(#[trigger] all[i], session);
        if i > 0 {
            assert(has_text(rest[i - 1], session));
        }
    }
}

/// A report as a value says whether all went well, and of every step in order what it was,
/// how it went and what came of it.
pub proof fn reports_tell_of_every_step(r: ReportView, i: int)
    requires
        0 <= i < r.steps.len(),
    ensures
        says(report_json(r), "ok"@, JsonView::Bool(r.ok)),
        exists|steps: Seq<JsonView>|
            {
                &&& #[trigger] says(report_json(r), "steps"@, JsonView::Array(steps))
                &&& steps.len() == r.steps.len()
                &&& says(steps[i], "name"@, JsonView::Str(r.steps[i].name))
                &&& says(steps[i], "ok"@, JsonView::Bool(r.steps[i].ok))
                &&& says(steps[i], "detail"@, JsonView::Str(r.steps[i].detail))
            },
{
    let o = report_json(r)->Object_0;
    lemma_says(o);
    assert(o[0].0 == "ok"@ && o[1].0 == "steps"@);
    let steps = r.steps.map_values(|s: StepView| step_json(s));
    let m = step_json(r.steps[i])->Object_0;
    lemma_says(m);
    assert(m[0].0 == "name"@ && m[1].0 == "ok"@ && m[2].0 == "detail"@);
    assert(steps[i] == JsonView::Object(m));
    assert(says(report_json(r), "steps"@, JsonView::Array(steps)));
}

/// A listing that could not be had is noted as the step that went wrong, with the error; a
/// cleanup that went well says so.
pub proof fn failed_listings_are_noted(report: ReportView, session: Seq<char>, error: String)
    requires
        report.ok,
    ensures
        ({
            let r = after_list(report, session, Err(error));
            &&& !r.ok
            &&& r.steps.len() == report.steps.len() + 1
            &&& r.steps.last() == (StepView { name: "list_sessions"@, ok: false, detail: error@ })
        }),
        after_cleanup(report, Ok(())).steps.last() == (StepView {
            name: "cleanup"@,
            ok: true,
            detail: "ok"@,
        }),
        after_cleanup(report, Ok(())).ok == report.ok,
{
}

} // verus!
