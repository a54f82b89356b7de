//! Ranking, and the choice of evidence under bounds for each kind.
use vstd::prelude::*;
use crate::evidence::{
    at_least_one, candidate_views, decorated, smaller, CandidateView, OutputRecord,
    ScoredCandidate,
};
use crate::incidents::{
    incident_views, lemma_incident_push, IncidentCandidate, IncidentView,
};
use crate::profile::{cap, Category, RetrievalProfile};
use crate::text::{
    all_white, blank_texts_are_white, copy_texts, lemma_strs_push, same, strs, trim, trimmed,
};

verus! {

broadcast use vstd::string::group_string_axioms;

// ---------------------------------------------------------------------------
// Ranking
// ---------------------------------------------------------------------------

/// Machine integers as mathematical ones.
pub open spec fn ints(v: Seq<usize>) -> Seq<int> {
    Seq::new(v.len(), |i: int| v[i] as int)
}

/// Where an item with this key goes in an order from the largest key down:
/// behind all items whose key is as large.
pub open spec fn slot(order: Seq<int>, keys: Seq<i64>, key: i64) -> int
    decreases order.len(),
{
    if order.len() > 0 && keys[order.last()] < key {
        slot(order.drop_last(), keys, key)
    } else {
        order.len() as int
    }
}

/// The places of the keys from the largest down, equal ones in their own order.
pub open spec fn ranking(keys: Seq<i64>) -> Seq<int>
    decreases keys.len(),
{
    if keys.len() == 0 {
        Seq::empty()
    } else {
        let before = ranking(keys.drop_last());
        before.insert(slot(before, keys, keys.last()), keys.len() - 1)
    }
}

/// An order in which every place stands once, larger keys come first and equal
/// keys keep their own order.
pub open spec fn stable_descending(order: Seq<int>, keys: Seq<i64>) -> bool {
    &&& order.len() == keys.len()
    &&& forall|a: int| 0 <= a < order.len() ==> 0 <= #[trigger] order[a] < keys.len()
    &&& forall|a: int, b: int|
        0 <= a < b < order.len() ==> keys[#[trigger] order[a]] > keys[#[trigger] order[b]] || (
        keys[order[a]] == keys[order[b]] && order[a] < order[b])
}

proof fn lemma_slot(order: Seq<int>, keys: Seq<i64>, key: i64)
    requires
        forall|a: int, b: int|
            0 <= a < b < order.len() ==> keys[#[trigger] order[a]] >= keys[#[trigger] order[b]],
    ensures
        0 <= slot(order, keys, key) <= order.len(),
        forall|a: int|
            0 <= a < slot(order, keys, key) ==> keys[#[trigger] order[a]] >= key,
        forall|a: int|
            slot(order, keys, key) <= a < order.len() ==> keys[#[trigger] order[a]] < key,
    decreases order.len(),
{
    if order.len() > 0 {
        let rest = order.drop_last();
        assert forall|a: int, b: int| 0 <= a < b < rest.len() implies keys[#[trigger] rest[a]]
            >= keys[#[trigger] rest[b]] by {
            assert(rest[a] == order[a] && rest[b] == order[b]);
        }
        lemma_slot(rest, keys, key);
        let s = slot(order, keys, key);
        if keys[order.last()] < key {
            assert forall|a: int| 0 <= a < s implies keys[#[trigger] order[a]] >= key by {
                assert(order[a] == rest[a]);
            }
            assert forall|a: int| s <= a < order.len() implies keys[#[trigger] order[a]] < key by {
                if a < rest.len() {
                    assert(order[a] == rest[a]);
                }
            }
        }
    }
}

/// The ranking puts larger keys first, keeps equal keys in their own order, and
/// holds every place once.
pub proof fn ranking_is_stable(keys: Seq<i64>)
    ensures
        stable_descending(ranking(keys), keys),
    decreases keys.len(),
{
    if keys.len() > 0 {
        let fewer = keys.drop_last();
        ranking_is_stable(fewer);
        let before = ranking(fewer);
        assert forall|a: int, b: int| 0 <= a < b < before.len() implies keys[#[trigger] before[a]]
            >= keys[#[trigger] before[b]] by {
            assert(fewer[before[a]] == keys[before[a]]);
            assert(fewer[before[b]] == keys[before[b]]);
        }
        lemma_slot(before, keys, keys.last());
        let s = slot(before, keys, keys.last());
        let after = ranking(keys);
        assert forall|a: int| 0 <= a < after.len() implies 0 <= #[trigger] after[a] < keys.len() by {
            if a < s {
                assert(after[a] == before[a]);
            } else if a > s {
                assert(after[a] == before[a - 1]);
            }
        }
        assert forall|a: int, b: int| 0 <= a < b < after.len() implies keys[#[trigger] after[a]]
            > keys[#[trigger] after[b]] || (keys[after[a]] == keys[after[b]] && after[a]
            < after[b]) by {
            let x = if a < s { a } else { a - 1 };
            let y = if b < s { b } else { b - 1 };
            if a != s {
                assert(after[a] == before[x]);
                assert(fewer[before[x]] == keys[before[x]]);
            }
            if b != s {
                assert(after[b] == before[y]);
                assert(fewer[before[y]] == keys[before[y]]);
            }
        }
    }
}

/// The places of the keys from the largest down, equal ones in their own order.
pub fn rank(keys: &Vec<i64>) -> (r: Vec<usize>)
    ensures
        ints(r@) == ranking(keys@),
{
    let mut order: Vec<usize> = Vec::new();
    let mut i: usize = 0;
    assert(keys@.take(0) =~= Seq::empty());
    assert(ints(order@) =~= ranking(keys@.take(0)));
    while i < keys.len()
        invariant
            i <= keys@.len(),
            ints(order@) == ranking(keys@.take(i as int)),
        decreases keys@.len() - i,
    {
        let ghost sub = keys@.take(i + 1);
        let ghost before = ranking(keys@.take(i as int));
        proof {
            assert(sub.drop_last() =~= keys@.take(i as int));
            ranking_is_stable(keys@.take(i as int));
            assert(ints(order@).len() == order@.len());
            assert forall|a: int| 0 <= a < order@.len() implies (#[trigger] order@[a]) < i by {
                assert(before[a] == order@[a] as int);
            }
        }
        let mut s: usize = order.len();
        assert(before.take(s as int) =~= before);
        while s > 0 && keys[order[s - 1]] < keys[i]
            invariant
                i < keys@.len(),
                sub == keys@.take(i + 1),
                ints(order@) == before,
                before.len() == order@.len(),
                stable_descending(before, keys@.take(i as int)),
                s <= order@.len(),
                slot(before, sub, keys@[i as int]) == slot(
                    before.take(s as int),
                    sub,
                    keys@[i as int],
                ),
                forall|a: int| 0 <= a < order@.len() ==> (#[trigger] order@[a]) < i,
            decreases s,
        {
            s = s - 1;
            assert(before.take(s + 1).drop_last() =~= before.take(s as int));
            assert(before.take(s + 1).last() == order@[s as int] as int);
        }
        proof {
            if s > 0 {
                assert(before.take(s as int).last() == order@[s - 1] as int);
            }
        }
        let ghost old_order = order@;
        order.insert(s, i);
        assert(ints(order@) =~= before.insert(s as int, i as int));
        i = i + 1;
    }
    assert(keys@.take(i as int) =~= keys@);
    order
}

/// The ranked incidents, at most `max` of them.
pub open spec fn ranked_incidents(incidents: Seq<IncidentView>, keys: Seq<i64>, max: nat) -> Seq<
    IncidentView,
> {
    let n = smaller(incidents.len(), max);
    Seq::new(n, |i: int| incidents[ranking(keys)[i]])
}

fn copy_incident(incident: &IncidentCandidate) -> (r: IncidentCandidate)
    ensures
        r@ == incident@,
{
    IncidentCandidate {
        title: incident.title.clone(),
        summary: copy_texts(&incident.summary),
        score: incident.score,
        reasons: copy_texts(&incident.reasons),
    }
}

/// The incidents from the largest key down, at most `max` of them. The `i`-th
/// key belongs to the `i`-th incident.
pub fn rank_incidents(
    incidents: &Vec<IncidentCandidate>,
    keys: &Vec<i64>,
    max: usize,
) -> (r: Vec<IncidentCandidate>)
    requires
        keys@.len() == incidents@.len(),
    ensures
        incident_views(r@) == ranked_incidents(incident_views(incidents@), keys@, max as nat),
{
    let order = rank(keys);
    proof {
        ranking_is_stable(keys@);
        assert(order@.len() == ints(order@).len());
    }
    let ghost goal = ranked_incidents(incident_views(incidents@), keys@, max as nat);
    let mut out: Vec<IncidentCandidate> = Vec::new();
    let mut i: usize = 0;
    while i < order.len() && i < max
        invariant
            goal == ranked_incidents(incident_views(incidents@), keys@, max as nat),
            ints(order@) == ranking(keys@),
            stable_descending(ranking(keys@), keys@),
            order@.len() == keys@.len(),
            keys@.len() == incidents@.len(),
            i <= order@.len(),
            i <= max,
            incident_views(out@) == goal.take(i as int),
        decreases order@.len() - i,
    {
        assert(ints(order@)[i as int] == order@[i as int] as int);
        let c = copy_incident(&incidents[order[i]]);
        proof {
            lemma_incident_push(out@, c);
            assert(goal.take(i + 1) =~= goal.take(i as int).push(c@));
        }
        out.push(c);
        i = i + 1;
    }
    assert(goal.take(i as int) =~= goal);
    out
}

// ---------------------------------------------------------------------------
// Selection
// ---------------------------------------------------------------------------

/// Whether the text of the `j`-th candidate in order stood earlier in it.
pub open spec fn repeats(cs: Seq<CandidateView>, order: Seq<int>, j: int) -> bool {
    exists|i: int| 0 <= i < j && (#[trigger] cs[order[i]]).text == cs[order[j]].text
}

/// How many of the chosen candidates are of a kind.
pub open spec fn count_of(cs: Seq<CandidateView>, chosen: Seq<int>, category: Category) -> nat
    decreases chosen.len(),
{
    if chosen.len() == 0 {
        0
    } else {
        count_of(cs, chosen.drop_last(), category) + if cs[chosen.last()].category == category {
            1nat
        } else {
            0nat
        }
    }
}

/// The candidates chosen out of the first `k` in order: a text counts once, a
/// kind up to its cap, and all of them up to `max_total` (at least one).
pub open spec fn chosen(
    cs: Seq<CandidateView>,
    order: Seq<int>,
    k: nat,
    max_total: nat,
    p: RetrievalProfile,
) -> Seq<int>
    decreases k,
{
    if k == 0 {
        Seq::empty()
    } else {
        let before = chosen(cs, order, (k - 1) as nat, max_total, p);
        let c = cs[order[k - 1]];
        if before.len() >= at_least_one(max_total) || repeats(cs, order, k - 1) || count_of(
            cs,
            before,
            c.category,
        ) >= cap(p, c.category) {
            before
        } else {
            before.push(order[k - 1])
        }
    }
}

/// The places of the chosen candidates.
pub open spec fn selection(
    cs: Seq<CandidateView>,
    keys: Seq<i64>,
    max_total: nat,
    p: RetrievalProfile,
) -> Seq<int> {
    chosen(cs, ranking(keys), keys.len(), max_total, p)
}

fn seen_before(candidates: &Vec<ScoredCandidate>, order: &Vec<usize>, j: usize) -> (r: bool)
    requires
        j < order@.len(),
        forall|i: int| 0 <= i < order@.len() ==> (#[trigger] order@[i]) < candidates@.len(),
    ensures
        r == repeats(candidate_views(candidates@), ints(order@), j as int),
{
    let ghost cs = candidate_views(candidates@);
    let ghost places = ints(order@);
    let mut i: usize = 0;
    while i < j
        invariant
            cs == candidate_views(candidates@),
            places == ints(order@),
            i <= j < order@.len(),
            forall|i: int| 0 <= i < order@.len() ==> (#[trigger] order@[i]) < candidates@.len(),
            forall|a: int| 0 <= a < i ==> (#[trigger] cs[places[a]]).text != cs[places[j as int]].text,
        decreases j - i,
    {
        assert(places[i as int] == order@[i as int] as int);
        assert(places[j as int] == order@[j as int] as int);
        if same(candidates[order[i]].text.as_str(), candidates[order[j]].text.as_str()) {
            assert(cs[places[i as int]].text == cs[places[j as int]].text);
            return true;
        }
        i = i + 1;
    }
    false
}

fn count_category(
    candidates: &Vec<ScoredCandidate>,
    picked: &Vec<usize>,
    category: Category,
) -> (r: usize)
    requires
        forall|i: int| 0 <= i < picked@.len() ==> (#[trigger] picked@[i]) < candidates@.len(),
    ensures
        r == count_of(candidate_views(candidates@), ints(picked@), category),
{
    let ghost cs = candidate_views(candidates@);
    let ghost all = ints(picked@);
    let mut n: usize = 0;
    let mut i: usize = 0;
    while i < picked.len()
        invariant
            cs == candidate_views(candidates@),
            all == ints(picked@),
            forall|i: int| 0 <= i < picked@.len() ==> (#[trigger] picked@[i]) < candidates@.len(),
            i <= picked@.len(),
            n <= i,
            n == count_of(cs, all.take(i as int), category),
        decreases picked@.len() - i,
    {
        assert(all.take(i + 1).drop_last() =~= all.take(i as int));
        assert(all.take(i + 1).last() == picked@[i as int] as int);
        if candidates[picked[i]].category == category {
            n = n + 1;
        }
        i = i + 1;
    }
    assert(all.take(i as int) =~= all);
    n
}

/// Chooses candidates from the largest key down, and returns their places. The
/// `i`-th key belongs to the `i`-th candidate.
pub fn select_candidates(
    candidates: &Vec<ScoredCandidate>,
    keys: &Vec<i64>,
    max_total: usize,
    profile: RetrievalProfile,
) -> (r: Vec<usize>)
    requires
        keys@.len() == candidates@.len(),
    ensures
        ints(r@) == selection(candidate_views(candidates@), keys@, max_total as nat, profile),
        forall|i: int| 0 <= i < r@.len() ==> (#[trigger] r@[i]) < candidates@.len(),
{
    let order = rank(keys);
    let ghost cs = candidate_views(candidates@);
    let ghost places = ranking(keys@);
    proof {
        ranking_is_stable(keys@);
        assert(order@.len() == ints(order@).len());
        assert forall|i: int| 0 <= i < order@.len() implies (#[trigger] order@[i])
            < candidates@.len() by {
            assert(ints(order@)[i] == order@[i] as int);
        }
    }
    let limit: usize = if max_total == 0 { 1 } else { max_total };
    let mut picked: Vec<usize> = Vec::new();
    let mut k: usize = 0;
    assert(ints(picked@) =~= Seq::empty());
    while k < order.len()
        invariant
            cs == candidate_views(candidates@),
            places == ranking(keys@),
            places == ints(order@),
            order@.len() == keys@.len(),
            keys@.len() == candidates@.len(),
            limit == at_least_one(max_total as nat),
            forall|i: int| 0 <= i < order@.len() ==> (#[trigger] order@[i]) < candidates@.len(),
            forall|i: int| 0 <= i < picked@.len() ==> (#[trigger] picked@[i]) < candidates@.len(),
            k <= order@.len(),
            ints(picked@) == chosen(cs, places, k as nat, max_total as nat, profile),
        decreases order@.len() - k,
    {
        let place: usize = order[k];
        assert(places[k as int] == place as int);
        assert(ints(picked@).len() == picked@.len());
        let category = candidates[place].category;
        if picked.len() < limit && !seen_before(candidates, &order, k) && count_category(
            candidates,
            &picked,
            category,
        ) < profile.category_cap(category) {
            let ghost before = ints(picked@);
            picked.push(place);
            assert(ints(picked@) =~= before.push(place as int));
        }
        k = k + 1;
    }
    picked
}

// ---------------------------------------------------------------------------
// What holds of every selection
// ---------------------------------------------------------------------------

proof fn lemma_chosen(
    cs: Seq<CandidateView>,
    order: Seq<int>,
    k: nat,
    max_total: nat,
    p: RetrievalProfile,
)
    requires
        k <= order.len(),
    ensures
        ({
            let out = chosen(cs, order, k, max_total, p);
            &&& out.len() <= at_least_one(max_total)
            &&& out.len() <= k
            &&& forall|category: Category| #[trigger]
                count_of(cs, out, category) <= cap(p, category)
            &&& forall|a: int|
                0 <= a < out.len() ==> exists|i: int|
                    0 <= i < k && order[i] == #[trigger] out[a]
            &&& forall|a: int, b: int|
                0 <= a < b < out.len() ==> cs[#[trigger] out[a]].text != cs[#[trigger] out[b]].text
        }),
    decreases k,
{
    if k > 0 {
        lemma_chosen(cs, order, (k - 1) as nat, max_total, p);
        let before = chosen(cs, order, (k - 1) as nat, max_total, p);
        let out = chosen(cs, order, k, max_total, p);
        if out.len() > before.len() {
            assert(out.drop_last() =~= before);
            assert(out.last() == order[k - 1]);
            assert forall|category: Category| #[trigger]
                count_of(cs, out, category) <= cap(p, category) by {
                assert(count_of(cs, before, category) <= cap(p, category));
            }
            assert forall|a: int| 0 <= a < out.len() implies exists|i: int|
                0 <= i < k && order[i] == #[trigger] out[a] by {
                if a < before.len() {
                    assert(out[a] == before[a]);
                    let i = choose|i: int| 0 <= i < k - 1 && order[i] == before[a];
                    assert(0 <= i < k && order[i] == out[a]);
                } else {
                    assert(order[k - 1] == out[a]);
                }
            }
            assert forall|a: int, b: int| 0 <= a < b < out.len() implies cs[#[trigger] out[a]].text
                != cs[#[trigger] out[b]].text by {
                assert(out[a] == before[a]);
                if b < before.len() {
                    assert(out[b] == before[b]);
                } else {
                    let i = choose|i: int| 0 <= i < k - 1 && order[i] == before[a];
                    assert(cs[order[i]].text == cs[out[a]].text);
                }
            }
        }
    }
}

/// Whatever the keys: no text is chosen twice, no kind beyond its cap, no more
/// than there are candidates or than asked for (at least one), and every choice
/// is one of the candidates.
pub proof fn selection_respects_bounds(
    cs: Seq<CandidateView>,
    keys: Seq<i64>,
    max_total: nat,
    p: RetrievalProfile,
)
    requires
        keys.len() == cs.len(),
    ensures
        ({
            let out = selection(cs, keys, max_total, p);
            &&& out.len() <= cs.len()
            &&& out.len() <= at_least_one(max_total)
            &&& forall|category: Category| #[trigger]
                count_of(cs, out, category) <= cap(p, category)
            &&& forall|a: int| 0 <= a < out.len() ==> 0 <= #[trigger] out[a] < cs.len()
            &&& forall|a: int, b: int|
                0 <= a < b < out.len() ==> cs[#[trigger] out[a]].text != cs[#[trigger] out[b]].text
        }),
{
    ranking_is_stable(keys);
    lemma_chosen(cs, ranking(keys), keys.len(), max_total, p);
    let out = selection(cs, keys, max_total, p);
    assert forall|a: int| 0 <= a < out.len() implies 0 <= #[trigger] out[a] < cs.len() by {
        let i = choose|i: int| 0 <= i < keys.len() && ranking(keys)[i] == out[a];
        assert(0 <= ranking(keys)[i] < keys.len());
    }
}

// ---------------------------------------------------------------------------
// Reading a selection
// ---------------------------------------------------------------------------

/// The texts of the chosen candidates of a kind, at most `max` of them.
pub open spec fn lines_of_category(
    cs: Seq<CandidateView>,
    picked: Seq<int>,
    category: Category,
    max: nat,
) -> Seq<Seq<char>>
    decreases picked.len(),
{
    if picked.len() == 0 {
        Seq::empty()
    } else {
        let before = lines_of_category(cs, picked.drop_last(), category, max);
        if cs[picked.last()].category == category && before.len() < max {
            before.push(cs[picked.last()].text)
        } else {
            before
        }
    }
}

/// The texts of the chosen candidates of a kind, at most `max` of them.
pub fn selected_lines_by_category(
    candidates: &Vec<ScoredCandidate>,
    selected: &Vec<usize>,
    category: Category,
    max: usize,
) -> (r: Vec<String>)
    requires
        forall|i: int| 0 <= i < selected@.len() ==> (#[trigger] selected@[i]) < candidates@.len(),
    ensures
        strs(r@) == lines_of_category(
            candidate_views(candidates@),
            ints(selected@),
            category,
            max as nat,
        ),
{
    let ghost cs = candidate_views(candidates@);
    let ghost all = ints(selected@);
    let mut out: Vec<String> = Vec::new();
    let mut i: usize = 0;
    assert(strs(out@) =~= lines_of_category(cs, all.take(0), category, max as nat));
    while i < selected.len()
        invariant
            cs == candidate_views(candidates@),
            all == ints(selected@),
            forall|i: int|
                0 <= i < selected@.len() ==> (#[trigger] selected@[i]) < candidates@.len(),
            i <= selected@.len(),
            strs(out@) == lines_of_category(cs, all.take(i as int), category, max as nat),
        decreases selected@.len() - i,
    {
        assert(all.take(i + 1).drop_last() =~= all.take(i as int));
        assert(all.take(i + 1).last() == selected@[i as int] as int);
        assert(strs(out@).len() == out@.len());
        let c = &candidates[selected[i]];
        if c.category == category && out.len() < max {
            proof {
                lemma_strs_push(out@, c.text);
            }
            out.push(c.text.clone());
            assert(strs(out@) =~= lines_of_category(cs, all.take(i + 1), category, max as nat));
        }
        i = i + 1;
    }
    assert(all.take(i as int) =~= all);
    out
}

/// The ids of the chosen lines of output, at most `max` of them.
pub open spec fn output_ids(cs: Seq<CandidateView>, picked: Seq<int>, max: nat) -> Seq<i64>
    decreases picked.len(),
{
    if picked.len() == 0 {
        Seq::empty()
    } else {
        let before = output_ids(cs, picked.drop_last(), max);
        match cs[picked.last()].source_id {
            Some(id) => if cs[picked.last()].category == Category::Output && before.len() < max {
                before.push(id)
            } else {
                before
            },
            None => before,
        }
    }
}

/// The ids of the chosen lines of output, at most `max` of them.
pub fn selected_output_ids(
    candidates: &Vec<ScoredCandidate>,
    selected: &Vec<usize>,
    max: usize,
) -> (r: Vec<i64>)
    requires
        forall|i: int| 0 <= i < selected@.len() ==> (#[trigger] selected@[i]) < candidates@.len(),
    ensures
        r@ == output_ids(candidate_views(candidates@), ints(selected@), max as nat),
{
    let ghost cs = candidate_views(candidates@);
    let ghost all = ints(selected@);
    let mut out: Vec<i64> = Vec::new();
    let mut i: usize = 0;
    while i < selected.len()
        invariant
            cs == candidate_views(candidates@),
            all == ints(selected@),
            forall|i: int|
                0 <= i < selected@.len() ==> (#[trigger] selected@[i]) < candidates@.len(),
            i <= selected@.len(),
            out@ == output_ids(cs, all.take(i as int), max as nat),
        decreases selected@.len() - i,
    {
        assert(all.take(i + 1).drop_last() =~= all.take(i as int));
        assert(all.take(i + 1).last() == selected@[i as int] as int);
        let c = &candidates[selected[i]];
        if let Some(id) = c.source_id {
            if c.category == Category::Output && out.len() < max {
                out.push(id);
            }
        }
        i = i + 1;
    }
    assert(all.take(i as int) =~= all);
    out
}

// ---------------------------------------------------------------------------
// Lines around the chosen output
// ---------------------------------------------------------------------------

/// The last line with this id among the first `k`.
pub open spec fn place_of(lines: Seq<OutputRecord>, id: i64, k: int) -> Option<int>
    decreases k,
{
    if k <= 0 {
        None
    } else if lines[k - 1].id == id {
        Some(k - 1)
    } else {
        place_of(lines, id, k - 1)
    }
}

/// The lines shown so far and one more, unless it is blank or shown already.
pub open spec fn with_line(out: Seq<Seq<char>>, rec: OutputRecord) -> Seq<Seq<char>> {
    let text = trimmed(rec.line_text@);
    let shown = "["@ + rec.stream@ + "] "@ + text;
    if text.len() == 0 || out.contains(shown) {
        out
    } else {
        out.push(shown)
    }
}

/// The lines shown after those from `from` up to below `to`; no more once there
/// are `max`.
pub open spec fn with_range(
    out: Seq<Seq<char>>,
    lines: Seq<OutputRecord>,
    from: int,
    to: int,
    max: nat,
) -> Seq<Seq<char>>
    decreases to - from,
{
    if from >= to || out.len() >= max {
        out
    } else {
        with_range(with_line(out, lines[from]), lines, from + 1, to, max)
    }
}

/// The lines shown after the neighbourhoods of the lines with these ids.
pub open spec fn with_windows(
    out: Seq<Seq<char>>,
    lines: Seq<OutputRecord>,
    ids: Seq<i64>,
    window: nat,
    max: nat,
) -> Seq<Seq<char>>
    decreases ids.len(),
{
    if ids.len() == 0 {
        out
    } else {
        let next = match place_of(lines, ids[0], lines.len() as int) {
            Some(c) => {
                let from = if c < window {
                    0
                } else {
                    c - window
                };
                let to = smaller((c + window + 1) as nat, lines.len()) as int;
                with_range(out, lines, from, to, max)
            },
            None => out,
        };
        with_windows(next, lines, ids.skip(1), window, max)
    }
}

fn find_place(lines: &Vec<OutputRecord>, id: i64) -> (r: Option<usize>)
    ensures
        match r {
            Some(c) => place_of(lines@, id, lines@.len() as int) == Some(c as int) && c
                < lines@.len(),
            None => place_of(lines@, id, lines@.len() as int) is None,
        },
{
    let mut k: usize = lines.len();
    while k > 0
        invariant
            k <= lines@.len(),
            place_of(lines@, id, lines@.len() as int) == place_of(lines@, id, k as int),
        decreases k,
    {
        if lines[k - 1].id == id {
            return Some(k - 1);
        }
        k = k - 1;
    }
    None
}

fn shown_already(out: &Vec<String>, text: &str) -> (r: bool)
    ensures
        r == strs(out@).contains(text@),
{
    let mut i: usize = 0;
    while i < out.len()
        invariant
            i <= out@.len(),
            forall|k: int| 0 <= k < i ==> (#[trigger] out@[k])@ != text@,
        decreases out@.len() - i,
    {
        if same(out[i].as_str(), text) {
            assert(strs(out@)[i as int] == text@);
            return true;
        }
        i = i + 1;
    }
    assert forall|k: int| 0 <= k < strs(out@).len() implies strs(out@)[k] != text@ by {
        assert(strs(out@)[k] == out@[k]@);
    }
    false
}

fn add_range(out: &mut Vec<String>, lines: &Vec<OutputRecord>, from: usize, to: usize, max: usize)
    requires
        to <= lines@.len(),
    ensures
        strs(final(out)@) == with_range(
            strs(old(out)@),
            lines@,
            from as int,
            to as int,
            max as nat,
        ),
{
    let ghost goal = with_range(strs(out@), lines@, from as int, to as int, max as nat);
    let mut i: usize = from;
    while i < to && out.len() < max
        invariant
            to <= lines@.len(),
            goal == with_range(strs(out@), lines@, i as int, to as int, max as nat),
        decreases to - i,
    {
        assert(strs(out@).len() == out@.len());
        let rec = &lines[i];
        let text = trim(rec.line_text.as_str());
        if !text.as_str().is_empty() {
            let shown = decorated(rec.stream.as_str(), text.as_str());
            if !shown_already(out, shown.as_str()) {
                proof {
                    lemma_strs_push(out@, shown);
                }
                out.push(shown);
            }
        }
        i = i + 1;
    }
    assert(strs(out@).len() == out@.len());
}

/// The lines around those with the given ids, each once and with its stream, at
/// most `max` of them (but one in any case).
pub fn expand_output_windows(
    lines: &Vec<OutputRecord>,
    selected_ids: &Vec<i64>,
    window: usize,
    max: usize,
) -> (r: Vec<String>)
    ensures
        strs(r@) == with_windows(
            Seq::empty(),
            lines@,
            selected_ids@,
            window as nat,
            at_least_one(max as nat),
        ),
{
    let limit: usize = if max == 0 { 1 } else { max };
    let ghost goal = with_windows(
        Seq::empty(),
        lines@,
        selected_ids@,
        window as nat,
        limit as nat,
    );
    let mut out: Vec<String> = Vec::new();
    let mut i: usize = 0;
    assert(strs(out@) =~= Seq::empty());
    assert(selected_ids@.skip(0) =~= selected_ids@);
    while i < selected_ids.len()
        invariant
            i <= selected_ids@.len(),
            goal == with_windows(
                strs(out@),
                lines@,
                selected_ids@.skip(i as int),
                window as nat,
                limit as nat,
            ),
        decreases selected_ids@.len() - i,
    {
        assert(selected_ids@.skip(i as int)[0] == selected_ids@[i as int]);
        assert(selected_ids@.skip(i as int).skip(1) =~= selected_ids@.skip(i + 1));
        if let Some(center) = find_place(lines, selected_ids[i]) {
            let from: usize = if center < window { 0 } else { center - window };
            let to: usize = if window >= lines.len() - center {
                lines.len()
            } else {
                center + window + 1
            };
            add_range(&mut out, lines, from, to, limit);
        }
        i = i + 1;
    }
    assert(selected_ids@.skip(i as int).len() == 0);
    out
}

// ---------------------------------------------------------------------------
// What is chosen and what is left out
// ---------------------------------------------------------------------------

/// Of the incidents those with the largest keys are kept, the largest first, as many as
/// there may be: none that is left out has a larger key than one that is kept.
pub proof fn the_largest_incidents_are_kept(
    incidents: Seq<IncidentView>,
    keys: Seq<i64>,
    max: nat,
    a: int,
    b: int,
)
    requires
        keys.len() == incidents.len(),
        0 <= a < b < keys.len(),
    ensures
        ({
            let kept = ranked_incidents(incidents, keys, max);
            let order = ranking(keys);
            &&& incidents.len() <= max ==> kept.len() == incidents.len()
            &&& incidents.len() > max ==> kept.len() == max
            &&& a < kept.len() ==> kept[a] == incidents[order[a]] && keys[order[a]]
                >= keys[order[b]]
        }),
{
    ranking_is_stable(keys);
}

proof fn lemma_chosen_grows(
    cs: Seq<CandidateView>,
    order: Seq<int>,
    j: nat,
    k: nat,
    max_total: nat,
    p: RetrievalProfile,
    category: Category,
)
    requires
        j <= k,
    ensures
        chosen(cs, order, j, max_total, p).is_prefix_of(chosen(cs, order, k, max_total, p)),
        count_of(cs, chosen(cs, order, j, max_total, p), category) <= count_of(
            cs,
            chosen(cs, order, k, max_total, p),
            category,
        ),
    decreases k,
{
    if j < k {
        lemma_chosen_grows(cs, order, j, (k - 1) as nat, max_total, p, category);
        let before = chosen(cs, order, (k - 1) as nat, max_total, p);
        let after = chosen(cs, order, k, max_total, p);
        if after != before {
            assert(after.drop_last() =~= before);
        }
        let first = chosen(cs, order, j, max_total, p);
        assert(first =~= after.take(first.len() as int));
    }
}

/// What is left out has no room: a candidate is chosen unless its text stood before it, its
/// kind is full, or there are as many as there may be.
pub proof fn what_is_left_out_has_no_room(
    cs: Seq<CandidateView>,
    order: Seq<int>,
    j: int,
    k: nat,
    max_total: nat,
    p: RetrievalProfile,
)
    requires
        0 <= j < k <= order.len(),
    ensures
        ({
            let picked = chosen(cs, order, k, max_total, p);
            ||| picked.contains(order[j])
            ||| exists|i: int| 0 <= i < j && (#[trigger] cs[order[i]]).text == cs[order[j]].text
            ||| count_of(cs, picked, cs[order[j]].category) >= cap(p, cs[order[j]].category)
            ||| picked.len() >= max_total && picked.len() >= 1
        }),
{
    let c = cs[order[j]];
    let before = chosen(cs, order, j as nat, max_total, p);
    let at = chosen(cs, order, (j + 1) as nat, max_total, p);
    let picked = chosen(cs, order, k, max_total, p);
    lemma_chosen_grows(cs, order, j as nat, k, max_total, p, c.category);
    lemma_chosen_grows(cs, order, (j + 1) as nat, k, max_total, p, c.category);
    if at != before {
        assert(at.last() == order[j]);
        let n = at.len() - 1;
        assert(picked[n] == at[n]);
    }
}

/// What is chosen stands in the order of the keys, the largest first.
pub proof fn choices_are_in_order(
    cs: Seq<CandidateView>,
    keys: Seq<i64>,
    max_total: nat,
    p: RetrievalProfile,
    a: int,
    b: int,
)
    requires
        0 <= a < b < selection(cs, keys, max_total, p).len(),
    ensures
        ({
            let picked = selection(cs, keys, max_total, p);
            keys[picked[a]] >= keys[picked[b]]
        }),
{
    ranking_is_stable(keys);
    let at = lemma_chosen_places(cs, ranking(keys), keys.len(), max_total, p, a);
    let bt = lemma_chosen_places(cs, ranking(keys), keys.len(), max_total, p, b);
    lemma_chosen_in_order(cs, ranking(keys), keys.len(), max_total, p, a, b);
}

proof fn lemma_chosen_places(
    cs: Seq<CandidateView>,
    order: Seq<int>,
    k: nat,
    max_total: nat,
    p: RetrievalProfile,
    a: int,
) -> (j: int)
    requires
        k <= order.len(),
        0 <= a < chosen(cs, order, k, max_total, p).len(),
    ensures
        0 <= j < k,
        chosen(cs, order, k, max_total, p)[a] == order[j],
        chosen(cs, order, j as nat, max_total, p).len() <= a,
        chosen(cs, order, (j + 1) as nat, max_total, p).len() > a,
    decreases k,
{
    let before = chosen(cs, order, (k - 1) as nat, max_total, p);
    if a < before.len() {
        lemma_chosen_places(cs, order, (k - 1) as nat, max_total, p, a)
    } else {
        k - 1
    }
}

proof fn lemma_chosen_in_order(
    cs: Seq<CandidateView>,
    order: Seq<int>,
    k: nat,
    max_total: nat,
    p: RetrievalProfile,
    a: int,
    b: int,
)
    requires
        k <= order.len(),
        0 <= a < b < chosen(cs, order, k, max_total, p).len(),
    ensures
        exists|i: int, j: int|
            0 <= i < j < k && chosen(cs, order, k, max_total, p)[a] == #[trigger] order[i]
                && chosen(cs, order, k, max_total, p)[b] == #[trigger] order[j],
{
    let i = lemma_chosen_places(cs, order, k, max_total, p, a);
    let j = lemma_chosen_places(cs, order, k, max_total, p, b);
    if j <= i {
        lemma_chosen_grows(cs, order, (j + 1) as nat, (i + 1) as nat, max_total, p, Category::Edit);
        if j < i {
            lemma_chosen_grows(cs, order, (j + 1) as nat, i as nat, max_total, p, Category::Edit);
        }
    }
    assert(i < j);
}

/// The texts of a kind are those of its chosen candidates in order, as many as there may be.
pub proof fn texts_of_a_kind_are_listed(
    cs: Seq<CandidateView>,
    picked: Seq<int>,
    next: int,
    category: Category,
    max: nat,
)
    ensures
        ({
            let before = lines_of_category(cs, picked, category, max);
            let after = lines_of_category(cs, picked.push(next), category, max);
            &&& before.len() <= max
            &&& cs[next].category == category && before.len() < max ==> after == before.push(
                cs[next].text,
            )
            &&& cs[next].category != category || before.len() == max ==> after == before
        }),
        lines_of_category(cs, Seq::empty(), category, max).len() == 0,
        ({
            let before = output_ids(cs, picked, max);
            let after = output_ids(cs, picked.push(next), max);
            &&& before.len() <= max
            &&& cs[next].category is Output && cs[next].source_id is Some && before.len() < max
                ==> after == before.push(cs[next].source_id->Some_0)
            &&& !(cs[next].category is Output) || cs[next].source_id is None || before.len() == max
                ==> after == before
        }),
        output_ids(cs, Seq::empty(), max).len() == 0,
    decreases picked.len(),
{
    let all = picked.push(next);
    assert(all.drop_last() =~= picked);
    assert(all.last() == next);
    if picked.len() > 0 {
        texts_of_a_kind_are_listed(cs, picked.drop_last(), picked.last(), category, max);
        assert(picked.drop_last().push(picked.last()) =~= picked);
    }
}

/// A line is found by its id: the last one that bears it.
pub proof fn lines_are_found_by_their_ids(lines: Seq<OutputRecord>, id: i64, k: int)
    requires
        0 <= k <= lines.len(),
    ensures
        match place_of(lines, id, k) {
            Some(c) => 0 <= c < k && lines[c].id == id && forall|i: int|
                c < i < k ==> (#[trigger] lines[i]).id != id,
            None => forall|i: int| 0 <= i < k ==> (#[trigger] lines[i]).id != id,
        },
    decreases k,
{
    if k > 0 && lines[k - 1].id != id {
        lines_are_found_by_their_ids(lines, id, k - 1);
    }
}

/// A line as it is shown: its stream in brackets and its text behind them.
pub open spec fn shown_line(rec: OutputRecord) -> Seq<char> {
    seq!['['] + rec.stream@ + seq![']', ' '] + trimmed(rec.line_text@)
}

proof fn lemma_with_line(out: Seq<Seq<char>>, rec: OutputRecord)
    ensures
        out.is_prefix_of(with_line(out, rec)),
        with_line(out, rec).len() <= out.len() + 1,
        !all_white(rec.line_text@) ==> with_line(out, rec).contains(shown_line(rec)),
        all_white(rec.line_text@) ==> with_line(out, rec) == out,
        forall|t: Seq<char>| #[trigger]
            with_line(out, rec).contains(t) ==> out.contains(t) || t == shown_line(rec),
{
    reveal_strlit("[");
    reveal_strlit("] ");
    assert("["@ =~= seq!['[']);
    assert("] "@ =~= seq![']', ' ']);
    blank_texts_are_white(rec.line_text@);
    let next = with_line(out, rec);
    if next != out {
        assert(next[out.len() as int] == shown_line(rec));
        assert(out =~= next.take(out.len() as int));
    } else {
        assert(out =~= next.take(out.len() as int));
    }
    assert forall|t: Seq<char>| #[trigger] next.contains(t) implies out.contains(t) || t
        == shown_line(rec) by {
        let i = choose|i: int| 0 <= i < next.len() && next[i] == t;
        if i < out.len() {
            assert(out[i] == t);
        }
    }
}

proof fn lemma_with_range(
    out: Seq<Seq<char>>,
    lines: Seq<OutputRecord>,
    from: int,
    to: int,
    max: nat,
    i: int,
)
    requires
        0 <= from,
        to <= lines.len(),
    ensures
        out.is_prefix_of(with_range(out, lines, from, to, max)),
        from <= to ==> with_range(out, lines, from, to, max).len() <= out.len() + (to - from),
        with_range(out, lines, from, to, max).len() <= max || with_range(out, lines, from, to, max)
            == out,
        from <= i < to && !all_white(lines[i].line_text@) ==> with_range(
            out,
            lines,
            from,
            to,
            max,
        ).contains(shown_line(lines[i])) || with_range(out, lines, from, to, max).len() >= max,
        forall|t: Seq<char>| #[trigger]
            with_range(out, lines, from, to, max).contains(t) ==> out.contains(t) || exists|j: int|
                from <= j < to && t == shown_line(#[trigger] lines[j]),
    decreases to - from,
{
    let r = with_range(out, lines, from, to, max);
    if from >= to || out.len() >= max {
        assert(out =~= r.take(out.len() as int));
    } else {
        let next = with_line(out, lines[from]);
        lemma_with_line(out, lines[from]);
        lemma_with_range(next, lines, from + 1, to, max, i);
        assert(out =~= r.take(out.len() as int));
        if i == from && !all_white(lines[i].line_text@) {
            let n = choose|n: int| 0 <= n < next.len() && next[n] == shown_line(lines[i]);
            assert(r[n] == next[n]);
        }
        assert forall|t: Seq<char>| #[trigger] r.contains(t) implies out.contains(t) || exists|
            j: int,
        |
            from <= j < to && t == shown_line(#[trigger] lines[j]) by {
            if next.contains(t) {
                if !out.contains(t) {
                    assert(t == shown_line(lines[from]));
                }
            } else {
                let j = choose|j: int| from + 1 <= j < to && t == shown_line(#[trigger] lines[j]);
                assert(t == shown_line(lines[j]));
            }
        }
    }
}

/// Around every chosen line those within the window are shown, as far as there may be more;
/// blank ones are passed over.
pub proof fn neighbours_are_shown(
    out: Seq<Seq<char>>,
    lines: Seq<OutputRecord>,
    ids: Seq<i64>,
    window: nat,
    max: nat,
    n: int,
    c: int,
    i: int,
)
    requires
        0 <= n < ids.len(),
        place_of(lines, ids[n], lines.len() as int) == Some(c),
        0 <= i < lines.len(),
        c - window <= i <= c + window,
        !all_white(lines[i].line_text@),
    ensures
        out.is_prefix_of(with_windows(out, lines, ids, window, max)),
        with_windows(out, lines, ids, window, max).contains(shown_line(lines[i]))
            || with_windows(out, lines, ids, window, max).len() >= max,
    decreases ids.len(),
{
    lemma_windows_grow(out, lines, ids, window, max);
    let r = with_windows(out, lines, ids, window, max);
    lines_are_found_by_their_ids(lines, ids[0], lines.len() as int);
    let next = match place_of(lines, ids[0], lines.len() as int) {
        Some(d) => {
            let from = if d < window {
                0
            } else {
                d - window
            };
            let to = smaller((d + window + 1) as nat, lines.len()) as int;
            lemma_with_range(out, lines, from, to, max, i);
            with_range(out, lines, from, to, max)
        },
        None => out,
    };
    let rest = ids.skip(1);
    lemma_windows_grow(next, lines, rest, window, max);
    if n == 0 {
        assert(next.contains(shown_line(lines[i])) || next.len() >= max);
        if next.contains(shown_line(lines[i])) {
            let k = choose|k: int| 0 <= k < next.len() && next[k] == shown_line(lines[i]);
            assert(r[k] == next[k]);
        }
    } else {
        assert(rest[n - 1] == ids[n]);
        neighbours_are_shown(next, lines, rest, window, max, n - 1, c, i);
    }
}

proof fn lemma_windows_grow(
    out: Seq<Seq<char>>,
    lines: Seq<OutputRecord>,
    ids: Seq<i64>,
    window: nat,
    max: nat,
)
    ensures
        out.is_prefix_of(with_windows(out, lines, ids, window, max)),
        with_windows(out, lines, ids, window, max).len() <= max || with_windows(
            out,
            lines,
            ids,
            window,
            max,
        ) == out,
    decreases ids.len(),
{
    let r = with_windows(out, lines, ids, window, max);
    if ids.len() == 0 {
        assert(out =~= r.take(out.len() as int));
    } else {
        lines_are_found_by_their_ids(lines, ids[0], lines.len() as int);
        let next = match place_of(lines, ids[0], lines.len() as int) {
            Some(d) => {
                let from = if d < window {
                    0
                } else {
                    d - window
                };
                let to = smaller((d + window + 1) as nat, lines.len()) as int;
                lemma_with_range(out, lines, from, to, max, 0);
                with_range(out, lines, from, to, max)
            },
            None => out,
        };
        lemma_windows_grow(next, lines, ids.skip(1), window, max);
        assert(out =~= r.take(out.len() as int));
    }
}

/// No more lines are shown than there may be, and none but those within the window of a
/// chosen one.
pub proof fn only_neighbours_are_shown(
    out: Seq<Seq<char>>,
    lines: Seq<OutputRecord>,
    ids: Seq<i64>,
    window: nat,
    max: nat,
    t: Seq<char>,
)
    requires
        with_windows(out, lines, ids, window, max).contains(t),
        !out.contains(t),
    ensures
        exists|n: int, c: int, i: int|
            {
                &&& 0 <= n < ids.len()
                &&& 0 <= c < lines.len()
                &&& (#[trigger] lines[c]).id == #[trigger] ids[n]
                &&& c - window <= i <= c + window
                &&& 0 <= i < lines.len()
                &&& t == shown_line(#[trigger] lines[i])
            },
        with_windows(out, lines, ids, window, max).len() <= max,
    decreases ids.len(),
{
    lemma_windows_grow(out, lines, ids, window, max);
    if ids.len() > 0 {
        lines_are_found_by_their_ids(lines, ids[0], lines.len() as int);
        let rest = ids.skip(1);
        match place_of(lines, ids[0], lines.len() as int) {
            Some(d) => {
                let from = if d < window {
                    0
                } else {
                    d - window
                };
                let to = smaller((d + window + 1) as nat, lines.len()) as int;
                let next = with_range(out, lines, from, to, max);
                lemma_with_range(out, lines, from, to, max, 0);
                if next.contains(t) {
                    let j = choose|j: int| from <= j < to && t == shown_line(#[trigger] lines[j]);
                    assert(lines[d].id == ids[0]);
                    assert(t == shown_line(lines[j]));
                } else {
                    only_neighbours_are_shown(next, lines, rest, window, max, t);
                    let (n, c, i) = choose|n: int, c: int, i: int|
                        {
                            &&& 0 <= n < rest.len()
                            &&& 0 <= c < lines.len()
                            &&& (#[trigger] lines[c]).id == #[trigger] rest[n]
                            &&& c - window <= i <= c + window
                            &&& 0 <= i < lines.len()
                            &&& t == shown_line(#[trigger] lines[i])
                        };
                    assert(lines[c].id == ids[n + 1]);
                }
            },
            None => {
                only_neighbours_are_shown(out, lines, rest, window, max, t);
                let (n, c, i) = choose|n: int, c: int, i: int|
                    {
                        &&& 0 <= n < rest.len()
                        &&& 0 <= c < lines.len()
                        &&& (#[trigger] lines[c]).id == #[trigger] rest[n]
                        &&& c - window <= i <= c + window
                        &&& 0 <= i < lines.len()
                        &&& t == shown_line(#[trigger] lines[i])
                    };
                assert(lines[c].id == ids[n + 1]);
            },
        }
    }
}

} // verus!
