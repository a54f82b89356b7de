//! What requests do to the registry: sessions, agents and runs are made, changed
//! and listed.
use vstd::prelude::*;
use crate::config::{join_path, path_below, paths_are_set_below_directories};
use crate::keymap::{found, inserted, insertion_is_found, sorted};
use crate::reply::{error_reply, error_view, Reply};
use crate::store::{
    copy_opt, id_text, ids_bear_their_number, ids_noted, in_use, lemma_inserted_keys,
    lemma_stay_noted, noted, stamp_shape, well_formed, Agent, AgentRecord, Run, RunView, Session,
    SessionView, Store,
};
use crate::text::{ascii, lowered, opt_str, opt_text, push_text, same, text_or, to_lowercase};

verus! {

broadcast use vstd::string::group_string_axioms;

/// The entries after a record that looks like `view` was put under its id.
pub open spec fn put<T: View>(
    before: Seq<(Seq<char>, T)>,
    after: Seq<(Seq<char>, T)>,
    id: Seq<char>,
    view: T::V,
) -> bool {
    exists|v: T| v@ == view && after == #[trigger] inserted(before, id, v)
}

proof fn lemma_made_id_is_noted(prefix: Seq<char>, id: Seq<char>, seq: u64)
    requires
        exists|stamp: Seq<char>|
            stamp_shape(stamp) && id == #[trigger] id_text(prefix, stamp, seq as nat),
    ensures
        noted(seq, id),
{
    let stamp = choose|stamp: Seq<char>|
        stamp_shape(stamp) && id == #[trigger] id_text(prefix, stamp, seq as nat);
    ids_bear_their_number(prefix, stamp, seq as nat);
}

/// What `put` does: the record is found under its id, and nothing else changes.
pub proof fn put_is_found<T: View>(
    before: Seq<(Seq<char>, T)>,
    after: Seq<(Seq<char>, T)>,
    id: Seq<char>,
    view: T::V,
    other: Seq<char>,
)
    requires
        sorted(before),
        put(before, after, id, view),
    ensures
        found(after, id) is Some,
        found(after, id)->Some_0@ == view,
        other != id ==> found(after, other) == found(before, other),
{
    let v = choose|v: T| v@ == view && after == #[trigger] inserted(before, id, v);
    insertion_is_found(before, id, v, other);
}

// ---------------------------------------------------------------------------
// Sessions
// ---------------------------------------------------------------------------

/// A session that was just made.
pub open spec fn new_session(
    id: Seq<char>,
    title: Option<Seq<char>>,
    share_state: Option<Seq<char>>,
    now: u128,
) -> SessionView {
    SessionView {
        id,
        title: text_or(title, "untitled"@),
        created_at: now,
        updated_at: now,
        status: "idle"@,
        share_state: text_or(share_state, "manual"@),
        tmux_session_name: None,
    }
}

/// A session with the values that a request gives.
pub open spec fn patched(
    s: SessionView,
    title: Option<Seq<char>>,
    share_state: Option<Seq<char>>,
    status: Option<Seq<char>>,
    now: u128,
) -> SessionView {
    SessionView {
        title: text_or(title, s.title),
        share_state: text_or(share_state, s.share_state),
        status: text_or(status, s.status),
        updated_at: now,
        ..s
    }
}

fn text_else(s: Option<String>, other: &str) -> (r: String)
    ensures
        r@ == text_or(opt_text(s), other@),
{
    match s {
        Some(t) => t,
        None => other.to_string(),
    }
}

impl Store {
    /// Makes a session with a new id.
    pub fn create_session(
        &mut self,
        title: Option<String>,
        share_state: Option<String>,
        now: u128,
    ) -> (r: Session)
        requires
            old(self).seq < u64::MAX,
            well_formed(*old(self)),
        ensures
            exists|stamp: Seq<char>|
                stamp_shape(stamp) && r.id@ == #[trigger] id_text(
                    "sess"@,
                    stamp,
                    (old(self).seq + 1) as nat,
                ),
            ids_noted(old(self)@) ==> ids_noted(final(self)@) && !in_use(old(self)@, r.id@),
            r@ == new_session(r.id@, opt_text(title), opt_text(share_state), now),
            put(old(self).sessions@, final(self).sessions@, r.id@, r@),
            final(self).agents == old(self).agents,
            final(self).runs == old(self).runs,
            final(self).seq == old(self).seq + 1,
            well_formed(*final(self)),
    {
        let id = self.next_id("sess");
        let ghost seen = self@;
        proof {
            lemma_made_id_is_noted("sess"@, id@, self.seq);
        }
        let session = Session {
            id: id.clone(),
            title: text_else(title, "untitled"),
            created_at: now,
            updated_at: now,
            status: "idle".to_string(),
            share_state: text_else(share_state, "manual"),
            tmux_session_name: None,
        };
        let copy = session.duplicate();
        let ghost before = self.sessions@;
        self.sessions.insert(id, copy);
        assert(self.sessions@ == inserted(before, session.id@, copy));
        proof {
            lemma_inserted_keys(before, session.id@, copy);
            if ids_noted(seen) {
                lemma_stay_noted(seen, self@, session.id@);
            }
        }
        session
    }

    /// The session of an id.
    pub fn get_session(&self, id: &str) -> (r: Result<&Session, Reply>)
        ensures
            match r {
                Ok(s) => found(self.sessions@, id@) == Some(*s),
                Err(e) => found(self.sessions@, id@) is None && e@ == error_view(
                    404,
                    "session not found"@,
                ),
            },
    {
        match self.sessions.get(id) {
            Some(s) => Ok(s),
            None => Err(error_reply(404, "session not found")),
        }
    }

    /// Gives a session the values of a request.
    pub fn patch_session(
        &mut self,
        id: &str,
        title: Option<String>,
        share_state: Option<String>,
        status: Option<String>,
        now: u128,
    ) -> (r: Result<Session, Reply>)
        requires
            well_formed(*old(self)),
        ensures
            match found(old(self).sessions@, id@) {
                None => {
                    &&& r is Err
                    &&& r->Err_0@ == error_view(404, "session not found"@)
                    &&& final(self).sessions@ == old(self).sessions@
                },
                Some(s) => {
                    &&& r is Ok
                    &&& r->Ok_0@ == patched(
                        s@,
                        opt_text(title),
                        opt_text(share_state),
                        opt_text(status),
                        now,
                    )
                    &&& put(old(self).sessions@, final(self).sessions@, id@, r->Ok_0@)
                },
            },
            final(self).agents == old(self).agents,
            final(self).runs == old(self).runs,
            final(self).seq == old(self).seq,
            well_formed(*final(self)),
            ids_noted(old(self)@) ==> ids_noted(final(self)@),
    {
        let ghost seen = self@;
        let mut session = match self.sessions.get(id) {
            Some(s) => s.duplicate(),
            None => {
                return Err(error_reply(404, "session not found"));
            },
        };
        if let Some(t) = title {
            session.title = t;
        }
        if let Some(t) = share_state {
            session.share_state = t;
        }
        if let Some(t) = status {
            session.status = t;
        }
        session.updated_at = now;
        let copy = session.duplicate();
        let ghost before = self.sessions@;
        self.sessions.insert(id.to_string(), copy);
        assert(self.sessions@ == inserted(before, id@, copy));
        proof {
            lemma_inserted_keys(before, id@, copy);
            if ids_noted(seen) {
                assert(in_use(seen, id@));
                lemma_stay_noted(seen, self@, id@);
            }
        }
        Ok(session)
    }

    /// All sessions in the order of their ids.
    pub fn list_sessions(&self) -> (r: Vec<Session>)
        ensures
            r@.len() == self.sessions@.len(),
            forall|i: int| 0 <= i < r@.len() ==> (#[trigger] r@[i])@ == self.sessions@[i].1@,
    {
        let mut out: Vec<Session> = Vec::new();
        let mut i: usize = 0;
        while i < self.sessions.entries.len()
            invariant
                i <= self.sessions.entries@.len(),
                out@.len() == i,
                forall|k: int| 0 <= k < i ==> (#[trigger] out@[k])@ == self.sessions@[k].1@,
            decreases self.sessions.entries@.len() - i,
        {
            out.push(self.sessions.entries[i].1.duplicate());
            i = i + 1;
        }
        out
    }
}

// ---------------------------------------------------------------------------
// Worktrees
// ---------------------------------------------------------------------------

/// Where an agent works: nowhere of its own, where its parent does, or in a new
/// tree of a repository.
#[derive(Debug, PartialEq, Eq)]
pub enum WorktreeMode {
    Absent,
    Inherit,
    New(String),
}

/// What a `WorktreeMode` holds.
pub enum WorktreeView {
    Absent,
    Inherit,
    New(Seq<char>),
}

impl View for WorktreeMode {
    type V = WorktreeView;

    open spec fn view(&self) -> WorktreeView {
        match self {
            WorktreeMode::Absent => WorktreeView::Absent,
            WorktreeMode::Inherit => WorktreeView::Inherit,
            WorktreeMode::New(p) => WorktreeView::New(p@),
        }
    }
}

/// Where an agent is to work. Left to itself it takes a new tree if a repository
/// is named, else that of its parent, else none.
pub open spec fn worktree_for(
    mode: Option<Seq<char>>,
    repo_path: Option<Seq<char>>,
    parent_worktree: Option<Seq<char>>,
) -> Result<WorktreeView, Seq<char>> {
    let m = lowered(text_or(mode, "auto"@));
    if m == "none"@ {
        Ok(WorktreeView::Absent)
    } else if m == "inherit"@ {
        if parent_worktree is Some {
            Ok(WorktreeView::Inherit)
        } else {
            Err("parent worktree not found"@)
        }
    } else if m == "new"@ {
        match repo_path {
            Some(p) => Ok(WorktreeView::New(p)),
            None => Err("repo_path is required for new worktree"@),
        }
    } else if m == "auto"@ {
        match repo_path {
            Some(p) => Ok(WorktreeView::New(p)),
            None => if parent_worktree is Some {
                Ok(WorktreeView::Inherit)
            } else {
                Ok(WorktreeView::Absent)
            },
        }
    } else {
        Err("invalid worktree_mode (use auto|new|inherit|none)"@)
    }
}

/// A result by its views.
pub open spec fn worktree_result(r: Result<WorktreeMode, String>) -> Result<
    WorktreeView,
    Seq<char>,
> {
    match r {
        Ok(m) => Ok(m@),
        Err(e) => Err(e@),
    }
}

/// Where an agent is to work.
pub fn resolve_worktree_mode(
    mode: Option<&str>,
    repo_path: Option<&str>,
    parent_worktree: Option<&str>,
) -> (r: Result<WorktreeMode, String>)
    ensures
        worktree_result(r) == worktree_for(
            opt_str(mode),
            opt_str(repo_path),
            opt_str(parent_worktree),
        ),
{
    let word = match mode {
        Some(m) => m,
        None => "auto",
    };
    let m = to_lowercase(word);
    if same(m.as_str(), "none") {
        Ok(WorktreeMode::Absent)
    } else if same(m.as_str(), "inherit") {
        if parent_worktree.is_some() {
            Ok(WorktreeMode::Inherit)
        } else {
            Err("parent worktree not found".to_string())
        }
    } else if same(m.as_str(), "new") {
        match repo_path {
            Some(p) => Ok(WorktreeMode::New(p.to_string())),
            None => Err("repo_path is required for new worktree".to_string()),
        }
    } else if same(m.as_str(), "auto") {
        match repo_path {
            Some(p) => Ok(WorktreeMode::New(p.to_string())),
            None => if parent_worktree.is_some() {
                Ok(WorktreeMode::Inherit)
            } else {
                Ok(WorktreeMode::Absent)
            },
        }
    } else {
        Err("invalid worktree_mode (use auto|new|inherit|none)".to_string())
    }
}

/// Where the trees of a session stand below the log directory.
pub open spec fn worktree_base(log_dir: Seq<char>, session_id: Seq<char>) -> Seq<char> {
    path_below(path_below(log_dir, "worktrees"@), session_id)
}

/// A tree that is to be made: its directory, the tree itself and its branch.
#[derive(Debug)]
pub struct WorktreePlan {
    pub base: String,
    pub path: String,
    pub branch: String,
}

/// The tree for an agent below the log directory.
pub fn create_worktree(log_dir: &str, session_id: &str, agent_id: &str) -> (r: WorktreePlan)
    ensures
        r.base@ == worktree_base(log_dir@, session_id@),
        r.path@ == path_below(worktree_base(log_dir@, session_id@), agent_id@),
        r.branch@ == "aish/"@ + agent_id@,
{
    let top = join_path(log_dir, "worktrees");
    let base = join_path(top.as_str(), session_id);
    let path = join_path(base.as_str(), agent_id);
    let mut branch = "aish/".to_string();
    push_text(&mut branch, agent_id);
    WorktreePlan { base, path, branch }
}

// ---------------------------------------------------------------------------
// Agents
// ---------------------------------------------------------------------------

/// A request for an agent.
#[derive(Debug)]
pub struct CreateAgentRequest {
    pub parent_agent_id: Option<String>,
    pub model: Option<String>,
    pub worktree_mode: Option<String>,
    pub repo_path: Option<String>,
}

/// An agent that is being made: its id, where it is to work, and where its
/// parent works.
#[derive(Debug)]
pub struct AgentDraft {
    pub id: String,
    pub mode: WorktreeMode,
    pub parent_worktree: Option<String>,
}

/// Where the parent of an agent works.
pub open spec fn parent_tree(
    agents: Seq<(Seq<char>, Agent)>,
    parent: Option<Seq<char>>,
) -> Option<Seq<char>> {
    match parent {
        Some(p) => match found(agents, p) {
            Some(a) => a@.worktree,
            None => None,
        },
        None => None,
    }
}

fn as_ref(s: &Option<String>) -> (r: Option<&str>)
    ensures
        opt_str(r) == opt_text(*s),
{
    match s {
        Some(t) => Some(t.as_str()),
        None => None,
    }
}

/// The name of an agent's terminal session.
pub open spec fn agent_tmux_name(
    prefix: Seq<char>,
    session_id: Seq<char>,
    id: Seq<char>,
) -> Seq<char> {
    prefix + "-"@ + session_id + "-"@ + id
}

/// The name of an agent's terminal session.
pub fn tmux_name(prefix: &str, session_id: &str, id: &str) -> (r: String)
    ensures
        r@ == agent_tmux_name(prefix@, session_id@, id@),
{
    let mut s = prefix.to_string();
    push_text(&mut s, "-");
    push_text(&mut s, session_id);
    push_text(&mut s, "-");
    push_text(&mut s, id);
    s
}

impl Store {
    /// The first half of making an agent: the session is looked up, an id is
    /// taken, and where the agent is to work is settled. The id is used up even
    /// if that fails.
    pub fn begin_agent(&mut self, session_id: &str, req: &CreateAgentRequest) -> (r: Result<
        AgentDraft,
        Reply,
    >)
        requires
            old(self).seq < u64::MAX,
        ensures
            ({
                let parent = parent_tree(old(self).agents@, opt_text(req.parent_agent_id));
                let tree = worktree_for(
                    opt_text(req.worktree_mode),
                    opt_text(req.repo_path),
                    parent,
                );
                if found(old(self).sessions@, session_id@) is None {
                    &&& r is Err
                    &&& r->Err_0@ == error_view(404, "session not found"@)
                    &&& final(self).seq == old(self).seq
                } else {
                    &&& final(self).seq == old(self).seq + 1
                    &&& match tree {
                        Err(e) => r is Err && r->Err_0@ == error_view(400, e),
                        Ok(mode) => {
                            &&& r is Ok
                            &&& r->Ok_0.mode@ == mode
                            &&& opt_text(r->Ok_0.parent_worktree) == parent
                            &&& exists|stamp: Seq<char>|
                                stamp_shape(stamp) && r->Ok_0.id@ == #[trigger] id_text(
                                    "agent"@,
                                    stamp,
                                    (old(self).seq + 1) as nat,
                                )
                            &&& noted(final(self).seq, r->Ok_0.id@)
                            &&& ids_noted(old(self)@) ==> !in_use(old(self)@, r->Ok_0.id@)
                        },
                    }
                }
            }),
            final(self).sessions == old(self).sessions,
            final(self).agents == old(self).agents,
            final(self).runs == old(self).runs,
            ids_noted(old(self)@) ==> ids_noted(final(self)@),
    {
        if !self.sessions.contains_key(session_id) {
            return Err(error_reply(404, "session not found"));
        }
        let id = self.next_id("agent");
        proof {
            lemma_made_id_is_noted("agent"@, id@, self.seq);
        }
        let parent_worktree = match &req.parent_agent_id {
            Some(p) => match self.agents.get(p.as_str()) {
                Some(a) => copy_opt(&a.worktree),
                None => None,
            },
            None => None,
        };
        let mode = match resolve_worktree_mode(
            as_ref(&req.worktree_mode),
            as_ref(&req.repo_path),
            as_ref(&parent_worktree),
        ) {
            Ok(mode) => mode,
            Err(e) => {
                return Err(error_reply(400, e.as_str()));
            },
        };
        Ok(AgentDraft { id, mode, parent_worktree })
    }

    /// The second half of making an agent, once its tree and its terminal are
    /// there.
    pub fn finish_agent(
        &mut self,
        id: String,
        session_id: &str,
        req: CreateAgentRequest,
        tmux_session_name: String,
        worktree: Option<String>,
    ) -> (r: Agent)
        requires
            well_formed(*old(self)),
        ensures
            r@ == (AgentRecord {
                id: id@,
                session_id: session_id@,
                parent_agent_id: opt_text(req.parent_agent_id),
                model: opt_text(req.model),
                status: "idle"@,
                tmux_session_name: Some(tmux_session_name@),
                worktree: opt_text(worktree),
            }),
            put(old(self).agents@, final(self).agents@, id@, r@),
            final(self).sessions == old(self).sessions,
            final(self).runs == old(self).runs,
            final(self).seq == old(self).seq,
            well_formed(*final(self)),
            ids_noted(old(self)@) && noted(old(self).seq, id@) ==> ids_noted(final(self)@),
    {
        let ghost seen = self@;
        let agent = Agent {
            id: id.clone(),
            session_id: session_id.to_string(),
            parent_agent_id: req.parent_agent_id,
            model: req.model,
            status: "idle".to_string(),
            tmux_session_name: Some(tmux_session_name),
            worktree,
        };
        let copy = agent.duplicate();
        let ghost before = self.agents@;
        self.agents.insert(id, copy);
        assert(self.agents@ == inserted(before, agent.id@, copy));
        proof {
            lemma_inserted_keys(before, agent.id@, copy);
            if ids_noted(seen) && noted(seen.seq, agent.id@) {
                lemma_stay_noted(seen, self@, agent.id@);
            }
        }
        agent
    }

    /// The agent of an id.
    pub fn get_agent(&self, id: &str) -> (r: Result<&Agent, Reply>)
        ensures
            match r {
                Ok(a) => found(self.agents@, id@) == Some(*a),
                Err(e) => found(self.agents@, id@) is None && e@ == error_view(
                    404,
                    "agent not found"@,
                ),
            },
    {
        match self.agents.get(id) {
            Some(a) => Ok(a),
            None => Err(error_reply(404, "agent not found")),
        }
    }

    /// Gives an agent a status; returns the record where there is one.
    pub fn set_agent_status(&mut self, id: &str, status: &str) -> (r: Option<Agent>)
        requires
            well_formed(*old(self)),
        ensures
            match found(old(self).agents@, id@) {
                None => r is None && final(self).agents@ == old(self).agents@,
                Some(a) => {
                    &&& r is Some
                    &&& r->Some_0@ == (AgentRecord { status: status@, ..a@ })
                    &&& put(old(self).agents@, final(self).agents@, id@, r->Some_0@)
                },
            },
            final(self).sessions == old(self).sessions,
            final(self).runs == old(self).runs,
            final(self).seq == old(self).seq,
            well_formed(*final(self)),
            ids_noted(old(self)@) ==> ids_noted(final(self)@),
    {
        let ghost seen = self@;
        let mut agent = match self.agents.get(id) {
            Some(a) => a.duplicate(),
            None => {
                return None;
            },
        };
        agent.status = status.to_string();
        let copy = agent.duplicate();
        let ghost before = self.agents@;
        self.agents.insert(id.to_string(), copy);
        assert(self.agents@ == inserted(before, id@, copy));
        proof {
            lemma_inserted_keys(before, id@, copy);
            if ids_noted(seen) {
                assert(in_use(seen, id@));
                lemma_stay_noted(seen, self@, id@);
            }
        }
        Some(agent)
    }

    /// The agents of a session in the order of their ids.
    pub fn list_agents(&self, session_id: &str) -> (r: Vec<Agent>)
        ensures
            agent_views(r@) == agents_of(self.agents@, session_id@),
    {
        let ghost all = self.agents@;
        let mut out: Vec<Agent> = Vec::new();
        let mut i: usize = 0;
        assert(agent_views(out@) =~= agents_of(all.take(0), session_id@));
        while i < self.agents.entries.len()
            invariant
                all == self.agents@,
                i <= self.agents.entries@.len(),
                agent_views(out@) == agents_of(all.take(i as int), session_id@),
            decreases self.agents.entries@.len() - i,
        {
            assert(all.take(i + 1).drop_last() =~= all.take(i as int));
            assert(all.take(i + 1).last() == all[i as int]);
            let agent = &self.agents.entries[i].1;
            if same(agent.session_id.as_str(), session_id) {
                let copy = agent.duplicate();
                let ghost before = agent_views(out@);
                out.push(copy);
                assert(agent_views(out@) =~= before.push(copy@));
            }
            i = i + 1;
        }
        assert(all.take(i as int) =~= all);
        out
    }
}

/// What a row of agents holds.
pub open spec fn agent_views(v: Seq<Agent>) -> Seq<AgentRecord> {
    Seq::new(v.len(), |i: int| v[i]@)
}

/// The agents of a session.
pub open spec fn agents_of(
    agents: Seq<(Seq<char>, Agent)>,
    session_id: Seq<char>,
) -> Seq<AgentRecord>
    decreases agents.len(),
{
    if agents.len() == 0 {
        Seq::empty()
    } else {
        let before = agents_of(agents.drop_last(), session_id);
        if agents.last().1@.session_id == session_id {
            before.push(agents.last().1@)
        } else {
            before
        }
    }
}

// ---------------------------------------------------------------------------
// Runs
// ---------------------------------------------------------------------------

impl Store {
    /// Makes a run with a new id.
    pub fn create_run(&mut self, session_id: &str, agent_id: &str, mode: &str, now: u128) -> (r:
        Run)
        requires
            old(self).seq < u64::MAX,
            well_formed(*old(self)),
        ensures
            exists|stamp: Seq<char>|
                stamp_shape(stamp) && r.id@ == #[trigger] id_text(
                    "run"@,
                    stamp,
                    (old(self).seq + 1) as nat,
                ),
            ids_noted(old(self)@) ==> ids_noted(final(self)@) && !in_use(old(self)@, r.id@),
            r@ == (RunView {
                id: r.id@,
                session_id: session_id@,
                agent_id: agent_id@,
                mode: mode@,
                status: "running"@,
                started_at: now,
                ended_at: None,
            }),
            put(old(self).runs@, final(self).runs@, r.id@, r@),
            final(self).sessions == old(self).sessions,
            final(self).agents == old(self).agents,
            final(self).seq == old(self).seq + 1,
            well_formed(*final(self)),
    {
        let id = self.next_id("run");
        let ghost seen = self@;
        proof {
            lemma_made_id_is_noted("run"@, id@, self.seq);
        }
        let run = Run {
            id: id.clone(),
            session_id: session_id.to_string(),
            agent_id: agent_id.to_string(),
            mode: mode.to_string(),
            status: "running".to_string(),
            started_at: now,
            ended_at: None,
        };
        let copy = run.duplicate();
        let ghost before = self.runs@;
        self.runs.insert(id, copy);
        assert(self.runs@ == inserted(before, run.id@, copy));
        proof {
            lemma_inserted_keys(before, run.id@, copy);
            if ids_noted(seen) {
                lemma_stay_noted(seen, self@, run.id@);
            }
        }
        run
    }

    /// Gives a run a status, and notes when it ended; returns the record where
    /// there is one.
    pub fn update_run_status(&mut self, id: &str, status: &str, now: u128) -> (r: Option<Run>)
        requires
            well_formed(*old(self)),
        ensures
            match found(old(self).runs@, id@) {
                None => r is None && final(self).runs@ == old(self).runs@,
                Some(run) => {
                    &&& r is Some
                    &&& r->Some_0@ == (RunView {
                        status: status@,
                        ended_at: if status@ != "running"@ {
                            Some(now)
                        } else {
                            run@.ended_at
                        },
                        ..run@
                    })
                    &&& put(old(self).runs@, final(self).runs@, id@, r->Some_0@)
                },
            },
            final(self).sessions == old(self).sessions,
            final(self).agents == old(self).agents,
            final(self).seq == old(self).seq,
            well_formed(*final(self)),
            ids_noted(old(self)@) ==> ids_noted(final(self)@),
    {
        let ghost seen = self@;
        let mut run = match self.runs.get(id) {
            Some(run) => run.duplicate(),
            None => {
                return None;
            },
        };
        run.status = status.to_string();
        if !same(status, "running") {
            run.ended_at = Some(now);
        }
        let copy = run.duplicate();
        let ghost before = self.runs@;
        self.runs.insert(id.to_string(), copy);
        assert(self.runs@ == inserted(before, id@, copy));
        proof {
            lemma_inserted_keys(before, id@, copy);
            if ids_noted(seen) {
                assert(in_use(seen, id@));
                lemma_stay_noted(seen, self@, id@);
            }
        }
        Some(run)
    }

    /// The run of an id.
    pub fn get_run(&self, id: &str) -> (r: Result<&Run, Reply>)
        ensures
            match r {
                Ok(run) => found(self.runs@, id@) == Some(*run),
                Err(e) => found(self.runs@, id@) is None && e@ == error_view(
                    404,
                    "run not found"@,
                ),
            },
    {
        match self.runs.get(id) {
            Some(run) => Ok(run),
            None => Err(error_reply(404, "run not found")),
        }
    }

    /// All runs in the order of their ids.
    pub fn list_runs(&self) -> (r: Vec<Run>)
        ensures
            r@.len() == self.runs@.len(),
            forall|i: int| 0 <= i < r@.len() ==> (#[trigger] r@[i])@ == self.runs@[i].1@,
    {
        let mut out: Vec<Run> = Vec::new();
        let mut i: usize = 0;
        while i < self.runs.entries.len()
            invariant
                i <= self.runs.entries@.len(),
                out@.len() == i,
                forall|k: int| 0 <= k < i ==> (#[trigger] out@[k])@ == self.runs@[k].1@,
            decreases self.runs.entries@.len() - i,
        {
            out.push(self.runs.entries[i].1.duplicate());
            i = i + 1;
        }
        out
    }
}

// ---------------------------------------------------------------------------
// What requests leave behind
// ---------------------------------------------------------------------------

/// A new session bears its id, what the request says of it, and the present as the time
/// at which it was made and changed; it is idle and has no terminal.
pub proof fn new_sessions_bear_what_was_asked(
    id: Seq<char>,
    title: Option<Seq<char>>,
    share_state: Option<Seq<char>>,
    now: u128,
)
    ensures
        ({
            let s = new_session(id, title, share_state, now);
            &&& s.id == id
            &&& title is Some ==> s.title == title->Some_0
            &&& title is None ==> s.title == "untitled"@
            &&& share_state is Some ==> s.share_state == share_state->Some_0
            &&& share_state is None ==> s.share_state == "manual"@
            &&& s.created_at == now && s.updated_at == now
            &&& s.status == "idle"@
            &&& s.tmux_session_name is None
        }),
{
}

/// A request changes what it names and the time of the last change, and leaves the rest of
/// a session as it was.
pub proof fn requests_change_what_they_name(
    s: SessionView,
    title: Option<Seq<char>>,
    share_state: Option<Seq<char>>,
    status: Option<Seq<char>>,
    now: u128,
)
    ensures
        ({
            let p = patched(s, title, share_state, status, now);
            &&& p.updated_at == now
            &&& title is Some ==> p.title == title->Some_0
            &&& title is None ==> p.title == s.title
            &&& share_state is Some ==> p.share_state == share_state->Some_0
            &&& share_state is None ==> p.share_state == s.share_state
            &&& status is Some ==> p.status == status->Some_0
            &&& status is None ==> p.status == s.status
            &&& p.id == s.id
            &&& p.created_at == s.created_at
            &&& p.tmux_session_name == s.tmux_session_name
        }),
{
}

proof fn lemma_modes()
    ensures
        "none"@ != "inherit"@,
        "none"@ != "new"@,
        "none"@ != "auto"@,
        "inherit"@ != "new"@,
        "inherit"@ != "auto"@,
        "new"@ != "auto"@,
        lowered("auto"@) == "auto"@,
{
    reveal_strlit("none");
    reveal_strlit("inherit");
    reveal_strlit("new");
    reveal_strlit("auto");
    assert("none"@.len() == 4 && "inherit"@.len() == 7 && "new"@.len() == 3);
    assert("auto"@.len() == 4 && "none"@[0] == 'n' && "auto"@[0] == 'a');
    assert(ascii("auto"@));
    assert(lowered("auto"@) =~= "auto"@);
}

/// An agent works where it is told: nowhere of its own, where its parent does, or in a new
/// tree of the repository that is named. Left to itself it takes a new tree if a
/// repository is named, else that of its parent, else none. What is asked for and
/// cannot be had is an error, as is any other word.
pub proof fn agents_work_where_they_are_told(
    word: Seq<char>,
    repo_path: Option<Seq<char>>,
    parent: Option<Seq<char>>,
)
    ensures
        lowered(word) == "none"@ ==> worktree_for(Some(word), repo_path, parent) == Ok::<
            WorktreeView,
            Seq<char>,
        >(WorktreeView::Absent),
        lowered(word) == "inherit"@ ==> match worktree_for(Some(word), repo_path, parent) {
            Ok(tree) => tree is Inherit && parent is Some,
            Err(_) => parent is None,
        },
        lowered(word) == "new"@ ==> match worktree_for(Some(word), repo_path, parent) {
            Ok(tree) => repo_path is Some && tree == WorktreeView::New(repo_path->Some_0),
            Err(_) => repo_path is None,
        },
        lowered(word) == "auto"@ ==> match worktree_for(Some(word), repo_path, parent) {
            Ok(WorktreeView::New(p)) => repo_path == Some(p),
            Ok(WorktreeView::Inherit) => repo_path is None && parent is Some,
            Ok(WorktreeView::Absent) => repo_path is None && parent is None,
            Err(_) => false,
        },
        worktree_for(None, repo_path, parent) == worktree_for(Some("auto"@), repo_path, parent),
        lowered(word) != "none"@ && lowered(word) != "inherit"@ && lowered(word) != "new"@
            && lowered(word) != "auto"@ ==> worktree_for(Some(word), repo_path, parent) is Err,
{
    lemma_modes();
}

/// An agent without a parent, or whose parent is not known, has no tree to inherit; any
/// other has that of its parent.
pub proof fn trees_are_inherited_from_parents(agents: Seq<(Seq<char>, Agent)>, parent: Seq<char>)
    ensures
        parent_tree(agents, None) is None,
        found(agents, parent) is None ==> parent_tree(agents, Some(parent)) is None,
        found(agents, parent) is Some ==> parent_tree(agents, Some(parent)) == opt_text(
            found(agents, parent)->Some_0.worktree,
        ),
{
}

/// The agents of a session are listed in order, and only they.
pub proof fn agents_are_listed_by_session(
    a: Seq<(Seq<char>, Agent)>,
    agent: (Seq<char>, Agent),
    b: Seq<(Seq<char>, Agent)>,
    session_id: Seq<char>,
)
    ensures
        agents_of(a + seq![agent] + b, session_id) == agents_of(a, session_id) + (
        if agent.1.session_id@ == session_id {
            seq![agent.1@]
        } else {
            Seq::empty()
        }) + agents_of(b, session_id),
    decreases b.len(),
{
    let all = a + seq![agent] + b;
    let mine = if agent.1.session_id@ == session_id {
        seq![agent.1@]
    } else {
        Seq::empty()
    };
    if b.len() == 0 {
        assert(all.drop_last() =~= a);
        assert(all.last() == agent);
    } else {
        agents_are_listed_by_session(a, agent, b.drop_last(), session_id);
        assert(all.drop_last() =~= a + seq![agent] + b.drop_last());
        assert(all.last() == b.last());
    }
    assert(agents_of(all, session_id) =~= agents_of(a, session_id) + mine + agents_of(
        b,
        session_id,
    ));
}

/// The terminals and trees of agents are told apart by the session and the agent: the
/// name of a terminal bears both behind the prefix, and a tree stands below the
/// directory of its session.
pub proof fn terminals_and_trees_bear_their_agents(
    prefix: Seq<char>,
    log_dir: Seq<char>,
    session_id: Seq<char>,
    id: Seq<char>,
)
    requires
        session_id.len() == 0 || session_id[0] != '/',
    ensures
        agent_tmux_name(prefix, session_id, id) == prefix + seq!['-'] + session_id + seq!['-'] + id,
        log_dir.len() > 0 && log_dir.last() != '/' ==> worktree_base(log_dir, session_id) == log_dir
            + "/worktrees/"@ + session_id,
{
    reveal_strlit("-");
    assert("-"@ =~= seq!['-']);
    reveal_strlit("worktrees");
    reveal_strlit("/worktrees/");
    paths_are_set_below_directories(log_dir, "worktrees"@);
    let w = path_below(log_dir, "worktrees"@);
    paths_are_set_below_directories(w, session_id);
    if log_dir.len() > 0 && log_dir.last() != '/' {
        assert(w.last() == 's');
        assert(seq!['/'] + "worktrees"@ + seq!['/'] =~= "/worktrees/"@);
        assert(worktree_base(log_dir, session_id) =~= log_dir + "/worktrees/"@ + session_id);
    }
}

} // verus!
