//! The registry of sessions, agents and runs: how records get their ids, how
//! they change, and how the registry is restored from its log.
use vstd::prelude::*;
use crate::keymap::{
    found, inserted, insertion_is_found, insertion_keeps_order, lemma_place, place, sorted, KeyMap,
};
use crate::text::{
    all_digits, all_white, blank_texts_are_white, decimal, digits_value, last_pos, lemma_decimal,
    lemma_strs_push, lines, lines_of, nat_to_string, opt_text, parse_nat, parsed_nat, push_text,
    rsplit_once, split_last, strs, trim, trimmed,
};

verus! {

broadcast use vstd::string::group_string_axioms;

// ---------------------------------------------------------------------------
// Records
// ---------------------------------------------------------------------------

/// A session of a person with the shell.
#[derive(Debug, PartialEq, Eq)]
pub struct Session {
    pub id: String,
    pub title: String,
    pub created_at: u128,
    pub updated_at: u128,
    pub status: String,
    pub share_state: String,
    pub tmux_session_name: Option<String>,
}

/// An agent that works in a session.
#[derive(Debug, PartialEq, Eq)]
pub struct Agent {
    pub id: String,
    pub session_id: String,
    pub parent_agent_id: Option<String>,
    pub model: Option<String>,
    pub status: String,
    pub tmux_session_name: Option<String>,
    pub worktree: Option<String>,
}

/// A run of an agent.
#[derive(Debug, PartialEq, Eq)]
pub struct Run {
    pub id: String,
    pub session_id: String,
    pub agent_id: String,
    pub mode: String,
    pub status: String,
    pub started_at: u128,
    pub ended_at: Option<u128>,
}

/// What a `Session` holds.
pub struct SessionView {
    pub id: Seq<char>,
    pub title: Seq<char>,
    pub created_at: u128,
    pub updated_at: u128,
    pub status: Seq<char>,
    pub share_state: Seq<char>,
    pub tmux_session_name: Option<Seq<char>>,
}

/// What an `Agent` holds.
pub struct AgentRecord {
    pub id: Seq<char>,
    pub session_id: Seq<char>,
    pub parent_agent_id: Option<Seq<char>>,
    pub model: Option<Seq<char>>,
    pub status: Seq<char>,
    pub tmux_session_name: Option<Seq<char>>,
    pub worktree: Option<Seq<char>>,
}

/// What a `Run` holds.
pub struct RunView {
    pub id: Seq<char>,
    pub session_id: Seq<char>,
    pub agent_id: Seq<char>,
    pub mode: Seq<char>,
    pub status: Seq<char>,
    pub started_at: u128,
    pub ended_at: Option<u128>,
}

impl View for Session {
    type V = SessionView;

    open spec fn view(&self) -> SessionView {
        SessionView {
            id: self.id@,
            title: self.title@,
            created_at: self.created_at,
            updated_at: self.updated_at,
            status: self.status@,
            share_state: self.share_state@,
            tmux_session_name: opt_text(self.tmux_session_name),
        }
    }
}

impl View for Agent {
    type V = AgentRecord;

    open spec fn view(&self) -> AgentRecord {
        AgentRecord {
            id: self.id@,
            session_id: self.session_id@,
            parent_agent_id: opt_text(self.parent_agent_id),
            model: opt_text(self.model),
            status: self.status@,
            tmux_session_name: opt_text(self.tmux_session_name),
            worktree: opt_text(self.worktree),
        }
    }
}

impl View for Run {
    type V = RunView;

    open spec fn view(&self) -> RunView {
        RunView {
            id: self.id@,
            session_id: self.session_id@,
            agent_id: self.agent_id@,
            mode: self.mode@,
            status: self.status@,
            started_at: self.started_at,
            ended_at: self.ended_at,
        }
    }
}

/// A copy of an optional text.
pub fn copy_opt(s: &Option<String>) -> (r: Option<String>)
    ensures
        opt_text(r) == opt_text(*s),
{
    match s {
        Some(t) => Some(t.clone()),
        None => None,
    }
}

impl Session {
    /// A copy of the record.
    pub fn duplicate(&self) -> (r: Session)
        ensures
            r@ == self@,
    {
        Session {
            id: self.id.clone(),
            title: self.title.clone(),
            created_at: self.created_at,
            updated_at: self.updated_at,
            status: self.status.clone(),
            share_state: self.share_state.clone(),
            tmux_session_name: copy_opt(&self.tmux_session_name),
        }
    }
}

impl Agent {
    /// A copy of the record.
    pub fn duplicate(&self) -> (r: Agent)
        ensures
            r@ == self@,
    {
        Agent {
            id: self.id.clone(),
            session_id: self.session_id.clone(),
            parent_agent_id: copy_opt(&self.parent_agent_id),
            model: copy_opt(&self.model),
            status: self.status.clone(),
            tmux_session_name: copy_opt(&self.tmux_session_name),
            worktree: copy_opt(&self.worktree),
        }
    }
}

impl Run {
    /// A copy of the record.
    pub fn duplicate(&self) -> (r: Run)
        ensures
            r@ == self@,
    {
        Run {
            id: self.id.clone(),
            session_id: self.session_id.clone(),
            agent_id: self.agent_id.clone(),
            mode: self.mode.clone(),
            status: self.status.clone(),
            started_at: self.started_at,
            ended_at: self.ended_at,
        }
    }
}

// ---------------------------------------------------------------------------
// Ids
// ---------------------------------------------------------------------------

/// All records, and the number that the last id bore.
#[derive(Debug)]
pub struct Store {
    pub sessions: KeyMap<Session>,
    pub agents: KeyMap<Agent>,
    pub runs: KeyMap<Run>,
    pub seq: u64,
}

/// The records are in the order of their ids.
pub open spec fn well_formed(s: Store) -> bool {
    sorted(s.sessions@) && sorted(s.agents@) && sorted(s.runs@)
}

impl Default for Store {
    fn default() -> (r: Self)
        ensures
            r.sessions@.len() == 0,
            r.agents@.len() == 0,
            r.runs@.len() == 0,
            r.seq == 0,
            well_formed(r),
            ids_noted(r@),
    {
        Store { sessions: KeyMap::new(), agents: KeyMap::new(), runs: KeyMap::new(), seq: 0 }
    }
}

/// A number with three digits at least.
pub open spec fn padded(n: nat) -> Seq<char> {
    if n < 10 {
        seq!['0', '0'] + decimal(n)
    } else if n < 100 {
        seq!['0'] + decimal(n)
    } else {
        decimal(n)
    }
}

/// An id: what it is for, when it was made, and its number.
pub open spec fn id_text(prefix: Seq<char>, stamp: Seq<char>, n: nat) -> Seq<char> {
    prefix + "_"@ + stamp + "_"@ + padded(n)
}

fn padded_number(n: u64) -> (r: String)
    ensures
        r@ == padded(n as nat),
{
    let mut s = String::new();
    if n < 10 {
        s.push('0');
        s.push('0');
    } else if n < 100 {
        s.push('0');
    }
    push_text(&mut s, nat_to_string(n as u128).as_str());
    assert(s@ =~= padded(n as nat));
    s
}

/// The number of two digits at a place.
pub open spec fn two_digits(s: Seq<char>, at: int) -> nat {
    digits_value(s.subrange(at, at + 2))
}

/// A time as an id bears it: the date, an underscore, and six digits for hour,
/// minute and second. The date has eight digits, the last four for month and day;
/// only where its year does not lie between 0 and 9999 a sign comes before them.
pub open spec fn stamp_shape(s: Seq<char>) -> bool {
    let n = s.len() - 7;
    &&& n >= 8
    &&& s[n] == '_'
    &&& all_digits(s.skip(n + 1))
    &&& if s[0] == '+' || s[0] == '-' {
        n >= 9 && all_digits(s.subrange(1, n))
    } else {
        n == 8 && all_digits(s.take(n))
    }
    &&& 1 <= two_digits(s, n - 4) <= 12
    &&& 1 <= two_digits(s, n - 2) <= 31
    &&& two_digits(s, n + 1) < 24
    &&& two_digits(s, n + 3) < 60
    &&& two_digits(s, n + 5) <= 60
}

/// The present time in UTC, `chrono::Utc::now`, as `chrono` formats it by
/// `%Y%m%d_%H%M%S`. Months, days, hours, minutes and seconds take two digits each
/// and lie in their ranges, a second being 60 in a leap second; a year takes four
/// at least, with a sign before them where it does not lie between 0 and 9999.
/// Which time it is rests on the clock and is not stated.
#[verifier::external_body]
fn utc_stamp() -> (r: String)
    ensures
        stamp_shape(r@),
{
    chrono::Utc::now().format("%Y%m%d_%H%M%S").to_string()
}

/// What stands behind the last underscore of an id.
pub open spec fn last_part(id: Seq<char>) -> Seq<char> {
    match split_last(id, '_') {
        Some((_, part)) => part,
        None => id,
    }
}

/// The number of an id, if it has one.
pub open spec fn id_number(id: Seq<char>) -> Option<nat> {
    parsed_nat(last_part(id), u64::MAX as nat)
}

/// The number to go on from, given that an id is in use.
pub open spec fn seq_after(seq: u64, id: Seq<char>) -> u64 {
    match id_number(id) {
        Some(n) => if n > seq {
            n as u64
        } else {
            seq
        },
        None => seq,
    }
}

impl Store {
    /// The next id for a prefix and a time.
    pub fn next_id_at(&mut self, prefix: &str, stamp: &str) -> (r: String)
        requires
            old(self).seq < u64::MAX,
        ensures
            r@ == id_text(prefix@, stamp@, (old(self).seq + 1) as nat),
            final(self).seq == old(self).seq + 1,
            final(self).sessions == old(self).sessions,
            final(self).agents == old(self).agents,
            final(self).runs == old(self).runs,
            ids_noted(old(self)@) ==> ids_noted(final(self)@) && !in_use(old(self)@, r@),
    {
        proof {
            if ids_noted(self@) {
                fresh_ids_are_unused(self@, prefix@, stamp@);
            }
        }
        self.seq = self.seq + 1;
        let mut s = prefix.to_string();
        push_text(&mut s, "_");
        push_text(&mut s, stamp);
        push_text(&mut s, "_");
        push_text(&mut s, padded_number(self.seq).as_str());
        s
    }

    /// The next id for a prefix, made at the present time.
    pub fn next_id(&mut self, prefix: &str) -> (r: String)
        requires
            old(self).seq < u64::MAX,
        ensures
            exists|stamp: Seq<char>|
                stamp_shape(stamp) && r@ == #[trigger] id_text(
                    prefix@,
                    stamp,
                    (old(self).seq + 1) as nat,
                ),
            ids_noted(old(self)@) ==> ids_noted(final(self)@) && !in_use(old(self)@, r@),
            final(self).seq == old(self).seq + 1,
            final(self).sessions == old(self).sessions,
            final(self).agents == old(self).agents,
            final(self).runs == old(self).runs,
    {
        let stamp = utc_stamp();
        proof {
            if ids_noted(self@) {
                fresh_ids_are_unused(self@, prefix@, stamp@);
            }
        }
        self.next_id_at(prefix, stamp.as_str())
    }

    /// Makes sure that later ids bear larger numbers than this one.
    pub fn update_seq_from_id(&mut self, id: &str)
        ensures
            final(self).seq == seq_after(old(self).seq, id@),
            final(self).sessions == old(self).sessions,
            final(self).agents == old(self).agents,
            final(self).runs == old(self).runs,
    {
        let last = match rsplit_once(id, '_') {
            Some((_, part)) => part,
            None => id.to_string(),
        };
        if let Some(value) = parse_nat(last.as_str(), u64::MAX) {
            if value > self.seq {
                self.seq = value;
            }
        }
    }
}

proof fn lemma_zero_before(d: Seq<char>)
    requires
        all_digits(d),
    ensures
        all_digits(seq!['0'] + d),
        digits_value(seq!['0'] + d) == digits_value(d),
    decreases d.len(),
{
    let s = seq!['0'] + d;
    if d.len() == 0 {
        assert(s.drop_last().len() == 0);
        assert(digits_value(s.drop_last()) == 0);
        assert(s.last() == '0');
    } else {
        assert(s.drop_last() =~= seq!['0'] + d.drop_last());
        assert(all_digits(d.drop_last()));
        lemma_zero_before(d.drop_last());
    }
}

proof fn lemma_padded(n: nat)
    ensures
        all_digits(padded(n)),
        padded(n).len() > 0,
        digits_value(padded(n)) == n,
{
    lemma_decimal(n);
    lemma_zero_before(decimal(n));
    if n < 10 {
        lemma_zero_before(seq!['0'] + decimal(n));
        assert(seq!['0', '0'] + decimal(n) =~= seq!['0'] + (seq!['0'] + decimal(n)));
    }
}

proof fn lemma_last_pos_digits(a: Seq<char>, d: Seq<char>)
    requires
        all_digits(d),
    ensures
        last_pos(a + "_"@ + d, '_') == a.len(),
    decreases d.len(),
{
    reveal_strlit("_");
    let s = a + "_"@ + d;
    if d.len() == 0 {
        assert(s.last() == '_');
    } else {
        assert(s.last() == d.last());
        assert(s.drop_last() =~= a + "_"@ + d.drop_last());
        assert(all_digits(d.drop_last()));
        lemma_last_pos_digits(a, d.drop_last());
    }
}

/// The number of an id is the number that it was made with, whatever its prefix
/// and its time.
pub proof fn ids_bear_their_number(prefix: Seq<char>, stamp: Seq<char>, n: nat)
    requires
        n <= u64::MAX,
    ensures
        id_number(id_text(prefix, stamp, n)) == Some(n),
{
    reveal_strlit("_");
    lemma_padded(n);
    let a = prefix + "_"@ + stamp;
    let id = id_text(prefix, stamp, n);
    lemma_last_pos_digits(a, padded(n));
    assert(id.skip(a.len() as int + 1) =~= padded(n));
    assert(padded(n)[0] != '+');
}

/// Ids with different numbers are different, whatever their prefixes and times.
pub proof fn ids_are_distinct(
    prefix: Seq<char>,
    stamp: Seq<char>,
    n: nat,
    other_prefix: Seq<char>,
    other_stamp: Seq<char>,
    m: nat,
)
    requires
        n <= u64::MAX,
        m <= u64::MAX,
        n != m,
    ensures
        id_text(prefix, stamp, n) != id_text(other_prefix, other_stamp, m),
{
    ids_bear_their_number(prefix, stamp, n);
    ids_bear_their_number(other_prefix, other_stamp, m);
}

/// An id that is in use does not come up again: the next id that is made after
/// its number was noted bears a larger one.
pub proof fn noted_ids_do_not_come_again(
    seq: u64,
    used: Seq<char>,
    prefix: Seq<char>,
    stamp: Seq<char>,
)
    requires
        seq_after(seq, used) < u64::MAX,
    ensures
        seq_after(seq, used) >= seq,
        id_text(prefix, stamp, (seq_after(seq, used) + 1) as nat) != used,
{
    ids_bear_their_number(prefix, stamp, (seq_after(seq, used) + 1) as nat);
}

/// An id that was just made leaves the number as it is.
pub proof fn own_ids_change_nothing(prefix: Seq<char>, stamp: Seq<char>, seq: u64)
    ensures
        seq_after(seq, id_text(prefix, stamp, seq as nat)) == seq,
{
    ids_bear_their_number(prefix, stamp, seq as nat);
}

// ---------------------------------------------------------------------------
// The log of the registry
// ---------------------------------------------------------------------------

/// A record that was made or changed.
#[derive(Debug)]
pub enum StoreEvent {
    SessionUpsert(Session),
    AgentUpsert(Agent),
    RunUpsert(Run),
}

/// The id of the record.
pub open spec fn event_id(event: StoreEvent) -> Seq<char> {
    match event {
        StoreEvent::SessionUpsert(s) => s.id@,
        StoreEvent::AgentUpsert(a) => a.id@,
        StoreEvent::RunUpsert(r) => r.id@,
    }
}

/// What the registry holds.
#[verifier::ext_equal]
pub struct StoreView {
    pub sessions: Seq<(Seq<char>, Session)>,
    pub agents: Seq<(Seq<char>, Agent)>,
    pub runs: Seq<(Seq<char>, Run)>,
    pub seq: u64,
}

impl View for Store {
    type V = StoreView;

    open spec fn view(&self) -> StoreView {
        StoreView {
            sessions: self.sessions@,
            agents: self.agents@,
            runs: self.runs@,
            seq: self.seq,
        }
    }
}

/// The registry without records.
pub open spec fn empty_store() -> StoreView {
    StoreView { sessions: Seq::empty(), agents: Seq::empty(), runs: Seq::empty(), seq: 0 }
}

/// The registry with a record put in, in place of an earlier one of its id.
pub open spec fn with_event(st: StoreView, event: StoreEvent) -> StoreView {
    let seq = seq_after(st.seq, event_id(event));
    match event {
        StoreEvent::SessionUpsert(s) => StoreView {
            sessions: inserted(st.sessions, s.id@, s),
            seq,
            ..st
        },
        StoreEvent::AgentUpsert(a) => StoreView {
            agents: inserted(st.agents, a.id@, a),
            seq,
            ..st
        },
        StoreEvent::RunUpsert(r) => StoreView { runs: inserted(st.runs, r.id@, r), seq, ..st },
    }
}

/// The registry after a row of records, each put in after the one before.
pub open spec fn with_events(st: StoreView, events: Seq<StoreEvent>) -> StoreView
    decreases events.len(),
{
    if events.len() == 0 {
        st
    } else {
        with_event(with_events(st, events.drop_last()), events.last())
    }
}

/// Puts a record in, in place of an earlier one of its id.
pub fn apply_event(store: &mut Store, event: StoreEvent)
    ensures
        final(store)@ == with_event(old(store)@, event),
        well_formed(*old(store)) ==> well_formed(*final(store)),
        ids_noted(old(store)@) ==> ids_noted(final(store)@),
{
    proof {
        if ids_noted(store@) {
            logged_ids_are_noted(store@, event);
        }
    }
    match event {
        StoreEvent::SessionUpsert(session) => {
            store.update_seq_from_id(session.id.as_str());
            let id = session.id.clone();
            store.sessions.insert(id, session);
        },
        StoreEvent::AgentUpsert(agent) => {
            store.update_seq_from_id(agent.id.as_str());
            let id = agent.id.clone();
            store.agents.insert(id, agent);
        },
        StoreEvent::RunUpsert(run) => {
            store.update_seq_from_id(run.id.as_str());
            let id = run.id.clone();
            store.runs.insert(id, run);
        },
    }
}

// ---------------------------------------------------------------------------
// Ids that are in use
// ---------------------------------------------------------------------------

/// Whether one of the keys is this one.
pub open spec fn has_key<V>(s: Seq<(Seq<char>, V)>, key: Seq<char>) -> bool {
    exists|i: int| 0 <= i < s.len() && (#[trigger] s[i]).0 == key
}

/// Whether a session, an agent or a run has this id.
pub open spec fn in_use(st: StoreView, id: Seq<char>) -> bool {
    has_key(st.sessions, id) || has_key(st.agents, id) || has_key(st.runs, id)
}

/// An id that bears no number, or one that was noted.
pub open spec fn noted(seq: u64, id: Seq<char>) -> bool {
    match id_number(id) {
        Some(n) => n <= seq,
        None => true,
    }
}

/// No id in use bears a number beyond the last one that was given out.
pub open spec fn ids_noted(st: StoreView) -> bool {
    forall|id: Seq<char>| #[trigger] in_use(st, id) ==> noted(st.seq, id)
}

/// Putting a value in adds no key but its own.
pub proof fn lemma_inserted_keys<V>(s: Seq<(Seq<char>, V)>, key: Seq<char>, value: V)
    ensures
        forall|id: Seq<char>| #[trigger]
            has_key(inserted(s, key, value), id) ==> id == key || has_key(s, id),
        found(s, key) is Some ==> has_key(s, key),
{
    lemma_place(s, key);
    let p = place(s, key);
    let after = inserted(s, key, value);
    if found(s, key) is Some {
        assert(s[p].0 == key);
    }
    assert forall|id: Seq<char>| #[trigger] has_key(after, id) implies id == key || has_key(
        s,
        id,
    ) by {
        let i = choose|i: int| 0 <= i < after.len() && (#[trigger] after[i]).0 == id;
        if p < s.len() && s[p].0 == key {
            if i != p {
                assert(s[i].0 == id);
            }
        } else if i < p {
            assert(s[i].0 == id);
        } else if i > p {
            assert(s[i - 1].0 == id);
        }
    }
}

/// Ids in use stay noted while the only one that may be added is noted.
pub proof fn lemma_stay_noted(before: StoreView, after: StoreView, id: Seq<char>)
    requires
        ids_noted(before),
        before.seq <= after.seq,
        noted(after.seq, id),
        forall|k: Seq<char>| #[trigger]
            has_key(after.sessions, k) ==> k == id || has_key(before.sessions, k),
        forall|k: Seq<char>| #[trigger]
            has_key(after.agents, k) ==> k == id || has_key(before.agents, k),
        forall|k: Seq<char>| #[trigger]
            has_key(after.runs, k) ==> k == id || has_key(before.runs, k),
    ensures
        ids_noted(after),
{
    assert forall|k: Seq<char>| #[trigger] in_use(after, k) implies noted(after.seq, k) by {
        if k != id {
            assert(in_use(before, k));
        }
    }
}

/// Putting a record in notes the number of its id, so ids in use stay noted.
pub proof fn logged_ids_are_noted(st: StoreView, event: StoreEvent)
    requires
        ids_noted(st),
    ensures
        ids_noted(with_event(st, event)),
{
    match event {
        StoreEvent::SessionUpsert(s) => {
            lemma_inserted_keys(st.sessions, s.id@, s);
        },
        StoreEvent::AgentUpsert(a) => {
            lemma_inserted_keys(st.agents, a.id@, a);
        },
        StoreEvent::RunUpsert(r) => {
            lemma_inserted_keys(st.runs, r.id@, r);
        },
    }
    lemma_stay_noted(st, with_event(st, event), event_id(event));
}

/// The next id that a registry gives out is that of no session, agent or run in
/// it, and giving it out leaves the ids in use noted.
pub proof fn fresh_ids_are_unused(st: StoreView, prefix: Seq<char>, stamp: Seq<char>)
    requires
        ids_noted(st),
        st.seq < u64::MAX,
    ensures
        !in_use(st, id_text(prefix, stamp, (st.seq + 1) as nat)),
        ids_noted(StoreView { seq: (st.seq + 1) as u64, ..st }),
{
    ids_bear_their_number(prefix, stamp, (st.seq + 1) as nat);
    let next = StoreView { seq: (st.seq + 1) as u64, ..st };
    assert forall|id: Seq<char>| #[trigger] in_use(next, id) implies noted(next.seq, id) by {
        assert(in_use(st, id));
    }
}

/// What may happen to a registry: a record is put in, or an id is given out.
pub enum StoreStep {
    Logged(StoreEvent),
    Given,
}

/// The registry after a row of steps from an empty one on. Where the numbers are
/// used up no id is given out.
pub open spec fn after_steps(steps: Seq<StoreStep>) -> StoreView
    decreases steps.len(),
{
    if steps.len() == 0 {
        empty_store()
    } else {
        let before = after_steps(steps.drop_last());
        match steps.last() {
            StoreStep::Logged(event) => with_event(before, event),
            StoreStep::Given => if before.seq < u64::MAX {
                StoreView { seq: (before.seq + 1) as u64, ..before }
            } else {
                before
            },
        }
    }
}

/// Whatever records were put in and whatever ids were given out, in any order: the
/// next id is that of no session, agent or run.
pub proof fn given_ids_are_fresh(steps: Seq<StoreStep>, prefix: Seq<char>, stamp: Seq<char>)
    ensures
        ids_noted(after_steps(steps)),
        after_steps(steps).seq < u64::MAX ==> !in_use(
            after_steps(steps),
            id_text(prefix, stamp, (after_steps(steps).seq + 1) as nat),
        ),
    decreases steps.len(),
{
    if steps.len() > 0 {
        given_ids_are_fresh(steps.drop_last(), prefix, stamp);
        let before = after_steps(steps.drop_last());
        match steps.last() {
            StoreStep::Logged(event) => {
                logged_ids_are_noted(before, event);
            },
            StoreStep::Given => {
                if before.seq < u64::MAX {
                    fresh_ids_are_unused(before, prefix, stamp);
                }
            },
        }
    }
    if after_steps(steps).seq < u64::MAX {
        fresh_ids_are_unused(after_steps(steps), prefix, stamp);
    }
}

// ---------------------------------------------------------------------------
// Reading the log
// ---------------------------------------------------------------------------

/// The lines of a log without the blank ones and without white space at their
/// ends.
pub open spec fn log_lines(lines: Seq<Seq<char>>) -> Seq<Seq<char>>
    decreases lines.len(),
{
    if lines.len() == 0 {
        Seq::empty()
    } else {
        let before = log_lines(lines.drop_last());
        let line = trimmed(lines.last());
        if line.len() == 0 {
            before
        } else {
            before.push(line)
        }
    }
}

/// The lines of a log that hold anything, without white space at their ends.
pub fn store_lines(content: &str) -> (r: Vec<String>)
    ensures
        strs(r@) == log_lines(lines_of(content@)),
{
    let all = lines(content);
    let ghost ls = strs(all@);
    let mut out: Vec<String> = Vec::new();
    let mut i: usize = 0;
    assert(strs(out@) =~= log_lines(ls.take(0)));
    while i < all.len()
        invariant
            ls == strs(all@),
            i <= all@.len(),
            strs(out@) == log_lines(ls.take(i as int)),
        decreases all@.len() - i,
    {
        assert(ls.take(i + 1).drop_last() =~= ls.take(i as int));
        assert(ls.take(i + 1).last() == all@[i as int]@);
        let line = trim(all[i].as_str());
        if !line.as_str().is_empty() {
            proof {
                lemma_strs_push(out@, line);
            }
            out.push(line);
        }
        i = i + 1;
    }
    assert(ls.take(i as int) =~= ls);
    out
}

/// The registry that a row of records makes, each put in after the one before.
pub fn load_store(events: Vec<StoreEvent>) -> (r: Store)
    ensures
        r@ == with_events(empty_store(), events@),
        well_formed(r),
        ids_noted(r@),
{
    let ghost all = events@;
    let mut store = Store::default();
    assert(store@ =~= empty_store());
    assert(store@ == with_events(empty_store(), all.take(0)));
    let mut events = events;
    let mut rest: Vec<StoreEvent> = Vec::new();
    // The events are taken from the end of a reversed row.
    let mut n: usize = events.len();
    while n > 0
        invariant
            n == events@.len(),
            n <= all.len(),
            events@ == all.take(n as int),
            rest@.len() == all.len() - n,
            forall|k: int| 0 <= k < rest@.len() ==> #[trigger] rest@[k] == all[all.len() - 1 - k],
        decreases n,
    {
        let last = events.pop();
        if let Some(e) = last {
            rest.push(e);
        }
        n = n - 1;
        assert(events@ =~= all.take(n as int));
    }
    let mut done: usize = 0;
    let total: usize = rest.len();
    while done < total
        invariant
            total == all.len(),
            done <= total,
            rest@.len() == total - done,
            forall|k: int| 0 <= k < rest@.len() ==> #[trigger] rest@[k] == all[all.len() - 1 - k],
            store@ == with_events(empty_store(), all.take(done as int)),
            well_formed(store),
            ids_noted(store@),
        decreases total - done,
    {
        assert(all.take(done + 1).drop_last() =~= all.take(done as int));
        assert(rest@.last() == all[done as int]);
        let next = rest.pop();
        if let Some(e) = next {
            apply_event(&mut store, e);
        }
        done = done + 1;
    }
    assert(all.take(done as int) =~= all);
    store
}

proof fn lemma_events_sorted(events: Seq<StoreEvent>)
    ensures
        sorted(with_events(empty_store(), events).sessions),
        sorted(with_events(empty_store(), events).agents),
        sorted(with_events(empty_store(), events).runs),
    decreases events.len(),
{
    if events.len() > 0 {
        let rest = events.drop_last();
        lemma_events_sorted(rest);
        let before = with_events(empty_store(), rest);
        match events.last() {
            StoreEvent::SessionUpsert(s) => {
                insertion_keeps_order(before.sessions, s.id@, s);
            },
            StoreEvent::AgentUpsert(a) => {
                insertion_keeps_order(before.agents, a.id@, a);
            },
            StoreEvent::RunUpsert(r) => {
                insertion_keeps_order(before.runs, r.id@, r);
            },
        }
    }
}

/// A registry that is restored from its log holds each record as it was logged
/// last.
pub proof fn restored_records_are_the_last(events: Seq<StoreEvent>, k: int)
    requires
        0 <= k < events.len(),
        forall|j: int|
            k < j < events.len() ==> event_id(#[trigger] events[j]) != event_id(events[k]),
    ensures
        match events[k] {
            StoreEvent::SessionUpsert(s) => found(
                with_events(empty_store(), events).sessions,
                s.id@,
            ) == Some(s),
            StoreEvent::AgentUpsert(a) => found(
                with_events(empty_store(), events).agents,
                a.id@,
            ) == Some(a),
            StoreEvent::RunUpsert(r) => found(with_events(empty_store(), events).runs, r.id@)
                == Some(r),
        },
    decreases events.len(),
{
    let rest = events.drop_last();
    let before = with_events(empty_store(), rest);
    let last = events.last();
    let id = event_id(events[k]);
    lemma_events_sorted(rest);
    if k < rest.len() {
        assert(rest[k] == events[k]);
        assert forall|j: int| k < j < rest.len() implies event_id(#[trigger] rest[j]) != event_id(
            rest[k],
        ) by {
            assert(rest[j] == events[j]);
        }
        restored_records_are_the_last(rest, k);
        assert(event_id(last) != id);
    }
    match last {
        StoreEvent::SessionUpsert(s) => {
            insertion_is_found(before.sessions, s.id@, s, id);
        },
        StoreEvent::AgentUpsert(a) => {
            insertion_is_found(before.agents, a.id@, a, id);
        },
        StoreEvent::RunUpsert(r) => {
            insertion_is_found(before.runs, r.id@, r, id);
        },
    }
}

/// A restored registry gives out no id that a logged record bears.
pub proof fn restored_ids_do_not_come_again(
    events: Seq<StoreEvent>,
    k: int,
    prefix: Seq<char>,
    stamp: Seq<char>,
)
    requires
        0 <= k < events.len(),
        with_events(empty_store(), events).seq < u64::MAX,
    ensures
        id_text(prefix, stamp, (with_events(empty_store(), events).seq + 1) as nat) != event_id(
            events[k],
        ),
{
    let n = with_events(empty_store(), events).seq;
    lemma_seq_covers(events, k);
    ids_bear_their_number(prefix, stamp, (n + 1) as nat);
}

proof fn lemma_seq_covers(events: Seq<StoreEvent>, k: int)
    requires
        0 <= k < events.len(),
    ensures
        match id_number(event_id(events[k])) {
            Some(n) => n <= with_events(empty_store(), events).seq,
            None => true,
        },
    decreases events.len(),
{
    let rest = events.drop_last();
    if k < rest.len() {
        assert(rest[k] == events[k]);
        lemma_seq_covers(rest, k);
    }
}

/// An id begins with what it is for and when it was made, and ends in its number, with
/// three digits at least.
pub proof fn ids_say_what_they_are_for(prefix: Seq<char>, stamp: Seq<char>, n: nat)
    ensures
        exists|number: Seq<char>|
            {
                &&& id_text(prefix, stamp, n) == #[trigger] (prefix + seq!['_'] + stamp + seq!['_']
                    + number)
                &&& number.len() >= 3
                &&& all_digits(number)
                &&& digits_value(number) == n
                &&& n < 1000 ==> number.len() == 3
            },
{
    reveal_strlit("_");
    assert("_"@ =~= seq!['_']);
    lemma_padded(n);
    lemma_padded_length(n);
    let number = padded(n);
    assert(id_text(prefix, stamp, n) == prefix + seq!['_'] + stamp + seq!['_'] + number);
}

proof fn lemma_padded_length(n: nat)
    ensures
        padded(n).len() >= 3,
        n < 1000 ==> padded(n).len() == 3,
{
    lemma_decimal(n);
    if 10 <= n {
        lemma_decimal(n / 10);
        if n < 100 {
            assert(decimal(n / 10).len() == 1);
        } else {
            lemma_decimal(n / 10 / 10);
            assert(decimal(n / 10).len() == decimal(n / 10 / 10).len() + 1);
            if n < 1000 {
                assert(decimal(n / 10 / 10).len() == 1);
            }
        }
    }
}

/// The number to go on from never falls, and is at least that of every id that was seen.
pub proof fn numbers_never_fall(seq: u64, id: Seq<char>)
    ensures
        seq_after(seq, id) >= seq,
        match id_number(id) {
            Some(n) => seq_after(seq, id) >= n && (seq_after(seq, id) == seq || seq_after(seq, id)
                == n),
            None => seq_after(seq, id) == seq,
        },
{
}

/// A record that is logged is put under its own id among the records of its kind, and
/// leaves those of the other kinds as they are.
pub proof fn records_are_put_with_their_kind(st: StoreView, event: StoreEvent)
    requires
        sorted(st.sessions) && sorted(st.agents) && sorted(st.runs),
    ensures
        match event {
            StoreEvent::SessionUpsert(s) => {
                &&& found(with_event(st, event).sessions, s.id@) == Some(s)
                &&& with_event(st, event).agents == st.agents
                &&& with_event(st, event).runs == st.runs
            },
            StoreEvent::AgentUpsert(a) => {
                &&& found(with_event(st, event).agents, a.id@) == Some(a)
                &&& with_event(st, event).sessions == st.sessions
                &&& with_event(st, event).runs == st.runs
            },
            StoreEvent::RunUpsert(r) => {
                &&& found(with_event(st, event).runs, r.id@) == Some(r)
                &&& with_event(st, event).sessions == st.sessions
                &&& with_event(st, event).agents == st.agents
            },
        },
{
    match event {
        StoreEvent::SessionUpsert(s) => {
            insertion_is_found(st.sessions, s.id@, s, s.id@);
        },
        StoreEvent::AgentUpsert(a) => {
            insertion_is_found(st.agents, a.id@, a, a.id@);
        },
        StoreEvent::RunUpsert(r) => {
            insertion_is_found(st.runs, r.id@, r, r.id@);
        },
    }
}

/// The lines of a log are taken in order, each without the white space around it; blank
/// ones are passed over.
pub proof fn log_lines_are_taken_in_order(
    a: Seq<Seq<char>>,
    line: Seq<char>,
    b: Seq<Seq<char>>,
)
    ensures
        log_lines(a + seq![line] + b) == log_lines(a) + (if all_white(line) {
            Seq::empty()
        } else {
            seq![trimmed(line)]
        }) + log_lines(b),
    decreases b.len(),
{
    blank_texts_are_white(line);
    let all = a + seq![line] + b;
    let mine: Seq<Seq<char>> = if all_white(line) {
        Seq::empty()
    } else {
        seq![trimmed(line)]
    };
    if b.len() == 0 {
        assert(all.drop_last() =~= a);
        assert(all.last() == line);
    } else {
        log_lines_are_taken_in_order(a, line, b.drop_last());
        assert(all.drop_last() =~= a + seq![line] + b.drop_last());
        assert(all.last() == b.last());
    }
    assert(log_lines(all) =~= log_lines(a) + mine + log_lines(b));
}

/// A registry starts without records, and no number was given out. Its records are in the
/// order of their ids, each kind by itself.
pub proof fn registries_start_empty(s: Store)
    ensures
        empty_store().sessions.len() == 0,
        empty_store().agents.len() == 0,
        empty_store().runs.len() == 0,
        empty_store().seq == 0,
        well_formed(s) <==> sorted(s.sessions@) && sorted(s.agents@) && sorted(s.runs@),
{
}

/// The id of every session, every agent and every run is in use.
pub proof fn ids_of_records_are_in_use(st: StoreView, i: int)
    ensures
        0 <= i < st.sessions.len() ==> in_use(st, st.sessions[i].0),
        0 <= i < st.agents.len() ==> in_use(st, st.agents[i].0),
        0 <= i < st.runs.len() ==> in_use(st, st.runs[i].0),
{
}

} // verus!
