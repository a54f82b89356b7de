//! What is told of the sessions that have logs.
use vstd::prelude::*;
use crate::json::{field, json_of_text, opt_json, parse_json, string_field, Json, JsonView};
use crate::selection::{ints, rank, ranking, ranking_is_stable};
use crate::text::{
    all_white, blank, blank_texts_are_white, decimal, is_blank, lines, lines_of, nat_to_string,
    opt_text, push_text, strs, text_or,
};

verus! {

broadcast use vstd::string::group_string_axioms;

/// The last line that holds more than white space.
pub open spec fn last_line(ls: Seq<Seq<char>>) -> Option<Seq<char>>
    decreases ls.len(),
{
    if ls.len() == 0 {
        None
    } else if blank(ls.last()) {
        last_line(ls.drop_last())
    } else {
        Some(ls.last())
    }
}

/// The last line of a log that holds more than white space.
pub fn find_last_line(contents: &str) -> (r: Option<String>)
    ensures
        opt_text(r) == last_line(lines_of(contents@)),
{
    let ls = lines(contents);
    let ghost all = strs(ls@);
    let mut n: usize = ls.len();
    assert(all.take(n as int) =~= all);
    while n > 0
        invariant
            all == strs(ls@),
            all == lines_of(contents@),
            n <= ls@.len(),
            last_line(all) == last_line(all.take(n as int)),
        decreases n,
    {
        assert(all.take(n as int).drop_last() =~= all.take(n - 1));
        assert(all.take(n as int).last() == ls@[n - 1]@);
        if !is_blank(ls[n - 1].as_str()) {
            return Some(ls[n - 1].clone());
        }
        n = n - 1;
    }
    None
}

/// The last event of a log, where its last line is one.
pub open spec fn last_event(contents: Seq<char>) -> Option<JsonView> {
    match last_line(lines_of(contents)) {
        Some(l) => json_of_text(l),
        None => None,
    }
}

/// The last event of a log, where its last line is one.
pub fn read_last_event(contents: &str) -> (r: Option<Json>)
    ensures
        opt_json(r) == last_event(contents@),
{
    match find_last_line(contents) {
        Some(l) => parse_json(l.as_str()),
        None => None,
    }
}

/// A session that has logs: where they are, when they changed last, in
/// nanoseconds since 1970, and their last event.
#[derive(Debug)]
pub struct StatusRow {
    pub session_id: String,
    pub dir: String,
    pub modified_ns: Option<i64>,
    pub last_event: Option<Json>,
}

/// What a session is ordered by.
pub open spec fn status_key(row: StatusRow) -> i64 {
    match row.modified_ns {
        Some(t) => t,
        None => i64::MIN,
    }
}

/// The seconds that are shown for a session.
pub open spec fn status_seconds(row: StatusRow) -> nat {
    match row.modified_ns {
        Some(t) => if t >= 0 {
            (t as nat) / 1_000_000_000
        } else {
            0
        },
        None => 0,
    }
}

/// What is told of a session.
pub open spec fn status_line(row: StatusRow) -> Seq<char> {
    let kind = match row.last_event {
        Some(e) => text_or(string_field(e@, "kind"@), "unknown"@),
        None => "unknown"@,
    };
    row.session_id@ + "  last="@ + decimal(status_seconds(row)) + "  kind="@ + kind + "  dir="@
        + row.dir@
}

/// The keys of the sessions from the last one back.
pub open spec fn backward_keys(rows: Seq<StatusRow>) -> Seq<i64> {
    Seq::new(rows.len(), |i: int| status_key(rows[rows.len() - 1 - i]))
}

/// The sessions from the newest down; of those that changed at the same time the
/// later ones first.
pub open spec fn status_order(rows: Seq<StatusRow>) -> Seq<int> {
    ranking(backward_keys(rows)).map_values(|i: int| rows.len() - 1 - i)
}

fn write_line(row: &StatusRow) -> (r: String)
    ensures
        r@ == status_line(*row),
{
    let secs: u64 = match row.modified_ns {
        Some(t) => if t >= 0 {
            (t as u64) / 1_000_000_000
        } else {
            0
        },
        None => 0,
    };
    let kind = match &row.last_event {
        Some(e) => match e.get_string("kind") {
            Some(k) => k,
            None => "unknown".to_string(),
        },
        None => "unknown".to_string(),
    };
    let mut out = row.session_id.clone();
    push_text(&mut out, "  last=");
    let n = nat_to_string(secs as u128);
    push_text(&mut out, n.as_str());
    push_text(&mut out, "  kind=");
    push_text(&mut out, kind.as_str());
    push_text(&mut out, "  dir=");
    push_text(&mut out, row.dir.as_str());
    out
}

/// What is told of the sessions, from the newest down.
pub fn show_status(rows: &Vec<StatusRow>) -> (r: Vec<String>)
    ensures
        strs(r@) == status_order(rows@).map_values(|i: int| status_line(rows@[i])),
{
    let total: usize = rows.len();
    let mut keys: Vec<i64> = Vec::new();
    let mut i: usize = 0;
    while i < total
        invariant
            total == rows@.len(),
            i <= total,
            keys@.len() == i,
            forall|k: int|
                0 <= k < i ==> #[trigger] keys@[k] == status_key(rows@[rows@.len() - 1 - k]),
        decreases total - i,
    {
        let key: i64 = match rows[total - 1 - i].modified_ns {
            Some(t) => t,
            None => i64::MIN,
        };
        keys.push(key);
        i = i + 1;
    }
    assert(keys@ =~= backward_keys(rows@));
    let order = rank(&keys);
    let ghost places = ranking(keys@);
    proof {
        ranking_is_stable(keys@);
        assert(ints(order@).len() == order@.len());
    }
    let mut out: Vec<String> = Vec::new();
    let mut k: usize = 0;
    while k < order.len()
        invariant
            total == rows@.len(),
            places == ints(order@),
            places.len() == rows@.len(),
            forall|a: int| 0 <= a < places.len() ==> 0 <= #[trigger] places[a] < rows@.len(),
            k <= order@.len(),
            out@.len() == k,
            forall|a: int|
                0 <= a < k ==> (#[trigger] out@[a])@ == status_line(
                    rows@[rows@.len() - 1 - places[a]],
                ),
        decreases order@.len() - k,
    {
        assert(places[k as int] == order@[k as int] as int);
        let line = write_line(&rows[total - 1 - order[k]]);
        out.push(line);
        k = k + 1;
    }
    assert(strs(out@) =~= status_order(rows@).map_values(|i: int| status_line(rows@[i])));
    out
}

/// Every session is told of once, and none before one that changed later.
pub proof fn sessions_are_in_order(rows: Seq<StatusRow>, a: int, b: int)
    requires
        0 <= a < b < rows.len(),
    ensures
        status_order(rows).len() == rows.len(),
        0 <= status_order(rows)[a] < rows.len(),
        status_order(rows)[a] != status_order(rows)[b],
        status_key(rows[status_order(rows)[a]]) >= status_key(rows[status_order(rows)[b]]),
{
    let keys = backward_keys(rows);
    ranking_is_stable(keys);
    let order = ranking(keys);
    assert(0 <= order[a] < keys.len());
    assert(0 <= order[b] < keys.len());
    assert(keys[order[a]] == status_key(rows[rows.len() - 1 - order[a]]));
    assert(keys[order[b]] == status_key(rows[rows.len() - 1 - order[b]]));
}

/// The last line of a log is the last that is not blank: all behind it are.
pub proof fn the_last_line_counts(a: Seq<Seq<char>>, line: Seq<char>, b: Seq<Seq<char>>)
    requires
        !all_white(line),
        forall|i: int| 0 <= i < b.len() ==> all_white(#[trigger] b[i]),
    ensures
        last_line(a + seq![line] + b) == Some(line),
        last_line(b) is None,
    decreases b.len(),
{
    let all = a + seq![line] + b;
    blank_texts_are_white(line);
    if b.len() == 0 {
        assert(all.last() == line);
    } else {
        assert(all_white(b[b.len() - 1]));
        blank_texts_are_white(b.last());
        assert(all.last() == b.last());
        assert(all.drop_last() =~= a + seq![line] + b.drop_last());
        assert forall|i: int| 0 <= i < b.drop_last().len() implies all_white(
            #[trigger] b.drop_last()[i],
        ) by {
            assert(all_white(b[i]));
        }
        the_last_line_counts(a, line, b.drop_last());
    }
}

/// A session is told of by its id, the second of its last change, the kind of its last
/// event and the directory of its logs; what is not known is so called or zero.
pub proof fn sessions_are_told_of(row: StatusRow)
    ensures
        ({
            let seconds = match row.modified_ns {
                Some(t) => if t < 0 {
                    0
                } else {
                    t as int / 1_000_000_000
                },
                None => 0,
            };
            let kind = match row.last_event {
                Some(e) => match field(e@, "kind"@) {
                    Some(JsonView::Str(k)) => k,
                    _ => "unknown"@,
                },
                None => "unknown"@,
            };
            status_line(row) == row.session_id@ + "  last="@ + decimal(seconds as nat) + "  kind="@
                + kind + "  dir="@ + row.dir@
        }),
{
}

} // verus!
