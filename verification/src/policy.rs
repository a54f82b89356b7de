//! Which tools may run, and with whose leave.
use vstd::prelude::*;
use crate::config::ToolsConfig;
use crate::text::{
    all_white, ascii, lowered, push_text, same, starts, starts_with, strs,
    surrounding_white_space_is_lost, to_lowercase, trim, trimmed, white,
};

verus! {

broadcast use vstd::string::group_string_axioms;

/// Whether a tool runs, asks first, or does not run.
#[derive(Clone, Copy, Debug, PartialEq, Eq, Structural)]
pub enum ToolPolicy {
    Allow,
    Ask,
    Deny,
}

/// The name of a policy.
pub open spec fn policy_name(p: ToolPolicy) -> Seq<char> {
    match p {
        ToolPolicy::Allow => "allow"@,
        ToolPolicy::Ask => "ask"@,
        ToolPolicy::Deny => "deny"@,
    }
}

impl ToolPolicy {
    /// The name of the policy.
    pub fn as_str(self) -> (r: &'static str)
        ensures
            r@ == policy_name(self),
    {
        match self {
            ToolPolicy::Allow => "allow",
            ToolPolicy::Ask => "ask",
            ToolPolicy::Deny => "deny",
        }
    }
}

/// The policy that a word stands for; a word that is not known asks.
pub open spec fn policy_of(value: Seq<char>) -> ToolPolicy {
    let v = lowered(trimmed(value));
    if v == "allow"@ {
        ToolPolicy::Allow
    } else if v == "deny"@ {
        ToolPolicy::Deny
    } else {
        ToolPolicy::Ask
    }
}

/// The policy that a word stands for.
pub fn parse_policy(value: &str) -> (r: ToolPolicy)
    ensures
        r == policy_of(value@),
{
    let word = trim(value);
    let v = to_lowercase(word.as_str());
    if same(v.as_str(), "allow") {
        ToolPolicy::Allow
    } else if same(v.as_str(), "deny") {
        ToolPolicy::Deny
    } else {
        ToolPolicy::Ask
    }
}

/// The texts of pairs.
pub open spec fn pair_views(v: Seq<(String, String)>) -> Seq<(Seq<char>, Seq<char>)> {
    Seq::new(v.len(), |i: int| (v[i].0@, v[i].1@))
}

/// A key governs the tool of that name and all tools below it.
pub open spec fn governs(key: Seq<char>, tool: Seq<char>) -> bool {
    tool == key || starts(tool, key + "."@)
}

/// The place of the longest key that governs the tool.
pub open spec fn governing(policies: Seq<(Seq<char>, Seq<char>)>, tool: Seq<char>) -> Option<int>
    decreases policies.len(),
{
    if policies.len() == 0 {
        None
    } else {
        let best = governing(policies.drop_last(), tool);
        let key = policies.last().0;
        if governs(key, tool) && (best is None || key.len() > policies[best->Some_0].0.len()) {
            Some(policies.len() - 1)
        } else {
            best
        }
    }
}

/// The policy for a tool: that of the longest key that governs it, else the
/// default.
pub open spec fn tool_policy(
    policies: Seq<(Seq<char>, Seq<char>)>,
    default_policy: Seq<char>,
    tool: Seq<char>,
) -> ToolPolicy {
    match governing(policies, tool) {
        Some(i) => policy_of(policies[i].1),
        None => policy_of(default_policy),
    }
}

/// The policy for a tool under a configuration.
pub open spec fn configured_policy(tools: ToolsConfig, tool: Seq<char>) -> ToolPolicy {
    tool_policy(pair_views(tools.policies@), tools.default_policy@, tool)
}

fn key_governs(key: &str, tool: &str) -> (r: bool)
    ensures
        r == governs(key@, tool@),
{
    let mut prefix = key.to_string();
    push_text(&mut prefix, ".");
    same(tool, key) || starts_with(tool, prefix.as_str())
}

/// The policy for a tool.
pub fn policy_for(tools: &ToolsConfig, tool: &str) -> (r: ToolPolicy)
    ensures
        r == configured_policy(*tools, tool@),
{
    let ghost all = pair_views(tools.policies@);
    let mut best: Option<usize> = None;
    let mut i: usize = 0;
    while i < tools.policies.len()
        invariant
            all == pair_views(tools.policies@),
            i <= tools.policies@.len(),
            match best {
                Some(b) => b < i && governing(all.take(i as int), tool@) == Some(b as int),
                None => governing(all.take(i as int), tool@) is None,
            },
        decreases tools.policies@.len() - i,
    {
        proof {
            assert(all.take(i + 1).drop_last() =~= all.take(i as int));
            assert(all.take(i + 1).last() == all[i as int]);
        }
        let key = tools.policies[i].0.as_str();
        let longer = match best {
            Some(b) => key.unicode_len() > tools.policies[b].0.as_str().unicode_len(),
            None => true,
        };
        if key_governs(key, tool) && longer {
            best = Some(i);
        }
        i = i + 1;
    }
    assert(all.take(i as int) =~= all);
    match best {
        Some(b) => parse_policy(tools.policies[b].1.as_str()),
        None => parse_policy(tools.default_policy.as_str()),
    }
}

/// More specific keys win: the key that decides governs the tool, and no key
/// that governs it is longer. In particular a key that is the tool's own name
/// decides.
pub proof fn specific_keys_win(policies: Seq<(Seq<char>, Seq<char>)>, tool: Seq<char>, j: int)
    requires
        0 <= j < policies.len(),
        governs(policies[j].0, tool),
    ensures
        ({
            let best = governing(policies, tool);
            &&& best is Some
            &&& 0 <= best->Some_0 < policies.len()
            &&& governs(policies[best->Some_0].0, tool)
            &&& policies[best->Some_0].0.len() >= policies[j].0.len()
            &&& policies[j].0 == tool ==> policies[best->Some_0].0 == tool
        }),
    decreases policies.len(),
{
    reveal_strlit(".");
    lemma_governing(policies, tool);
    let rest = policies.drop_last();
    if j < rest.len() {
        assert(rest[j] == policies[j]);
        specific_keys_win(rest, tool, j);
        lemma_governing(rest, tool);
    }
    let best = governing(policies, tool)->Some_0;
    if policies[j].0 == tool {
        let key = policies[best].0;
        if key != tool {
            assert((key + "."@).len() <= tool.len());
        }
    }
}

proof fn lemma_governing(policies: Seq<(Seq<char>, Seq<char>)>, tool: Seq<char>)
    ensures
        match governing(policies, tool) {
            Some(i) => 0 <= i < policies.len() && governs(policies[i].0, tool),
            None => forall|j: int|
                0 <= j < policies.len() ==> !governs((#[trigger] policies[j]).0, tool),
        },
    decreases policies.len(),
{
    if policies.len() > 0 {
        let rest = policies.drop_last();
        lemma_governing(rest, tool);
        assert forall|j: int| 0 <= j < rest.len() implies rest[j] == #[trigger] policies[j] by {}
    }
}

/// Where no key governs a tool, the default decides.
pub proof fn default_decides(
    policies: Seq<(Seq<char>, Seq<char>)>,
    default_policy: Seq<char>,
    tool: Seq<char>,
)
    requires
        forall|j: int| 0 <= j < policies.len() ==> !governs((#[trigger] policies[j]).0, tool),
    ensures
        tool_policy(policies, default_policy, tool) == policy_of(default_policy),
{
    lemma_governing(policies, tool);
}

// ---------------------------------------------------------------------------
// Leave to run
// ---------------------------------------------------------------------------

/// What becomes of a request to run a tool.
#[derive(Clone, Copy, Debug, PartialEq, Eq, Structural)]
pub enum Gate {
    Run,
    Denied,
    ApprovalMissing,
    ApprovalRequired,
}

/// The tools that were approved beforehand.
pub open spec fn preapproved(tools: Option<Vec<String>>, name: Seq<char>) -> bool {
    match tools {
        Some(v) => strs(v@).contains(name),
        None => false,
    }
}

/// A tool runs if its policy allows it, or if it asks and was approved: by name
/// beforehand or altogether. Where leave is missing, the request is turned down
/// if nobody can be asked, and waits otherwise.
pub open spec fn gate_for(
    policy: ToolPolicy,
    approved: bool,
    by_name: bool,
    deny_on_missing: bool,
) -> Gate {
    match policy {
        ToolPolicy::Allow => Gate::Run,
        ToolPolicy::Deny => Gate::Denied,
        ToolPolicy::Ask => if by_name || approved {
            Gate::Run
        } else if deny_on_missing {
            Gate::ApprovalMissing
        } else {
            Gate::ApprovalRequired
        },
    }
}

/// Whether a text is among others.
pub fn among(v: &Vec<String>, name: &str) -> (r: bool)
    ensures
        r == strs(v@).contains(name@),
{
    let mut i: usize = 0;
    while i < v.len()
        invariant
            i <= v@.len(),
            forall|k: int| 0 <= k < i ==> (#[trigger] v@[k])@ != name@,
        decreases v@.len() - i,
    {
        if same(v[i].as_str(), name) {
            assert(strs(v@)[i as int] == name@);
            return true;
        }
        i = i + 1;
    }
    assert forall|k: int| 0 <= k < strs(v@).len() implies strs(v@)[k] != name@ by {
        assert(strs(v@)[k] == v@[k]@);
    }
    false
}

/// What becomes of a request to run a tool.
pub fn check_tool(
    tools: &ToolsConfig,
    name: &str,
    approved: bool,
    approved_tools: &Option<Vec<String>>,
    deny_on_missing: bool,
) -> (r: Gate)
    ensures
        r == gate_for(
            configured_policy(*tools, name@),
            approved,
            preapproved(*approved_tools, name@),
            deny_on_missing,
        ),
{
    match policy_for(tools, name) {
        ToolPolicy::Allow => Gate::Run,
        ToolPolicy::Deny => Gate::Denied,
        ToolPolicy::Ask => {
            let by_name = match approved_tools {
                Some(v) => among(v, name),
                None => false,
            };
            if by_name || approved {
                Gate::Run
            } else if deny_on_missing {
                Gate::ApprovalMissing
            } else {
                Gate::ApprovalRequired
            }
        },
    }
}

/// A denied tool never runs, whatever was approved; an allowed one always does;
/// one that asks runs only if it was approved.
pub proof fn gates_hold(policy: ToolPolicy, approved: bool, by_name: bool, deny_on_missing: bool)
    ensures
        policy == ToolPolicy::Deny ==> gate_for(policy, approved, by_name, deny_on_missing)
            == Gate::Denied,
        policy == ToolPolicy::Allow ==> gate_for(policy, approved, by_name, deny_on_missing)
            == Gate::Run,
        policy == ToolPolicy::Ask ==> (gate_for(policy, approved, by_name, deny_on_missing)
            == Gate::Run <==> approved || by_name),
{
}

/// A key governs the tool of its name and those whose names go on behind it with a dot.
pub proof fn keys_govern_what_lies_below(key: Seq<char>, rest: Seq<char>, tool: Seq<char>)
    ensures
        governs(key, key),
        governs(key, key + "."@ + rest),
        governs(key, tool) ==> tool == key || exists|r: Seq<char>|
            tool == #[trigger] (key + "."@ + r),
{
    let dotted = key + "."@;
    assert((dotted + rest).take(dotted.len() as int) =~= dotted);
    if governs(key, tool) && tool != key {
        let r = tool.skip(dotted.len() as int);
        assert(tool =~= key + "."@ + r);
    }
}

/// The key that says most about a tool decides: where one key governs it and every
/// other key that does is shorter, that key's word is the policy.
pub proof fn the_closest_key_decides(
    policies: Seq<(Seq<char>, Seq<char>)>,
    default_policy: Seq<char>,
    tool: Seq<char>,
    j: int,
)
    requires
        0 <= j < policies.len(),
        governs(policies[j].0, tool),
        forall|i: int|
            0 <= i < policies.len() && i != j && governs((#[trigger] policies[i]).0, tool)
                ==> policies[i].0.len() < policies[j].0.len(),
    ensures
        tool_policy(policies, default_policy, tool) == policy_of(policies[j].1),
{
    specific_keys_win(policies, tool, j);
    let best = governing(policies, tool);
    assert(policies[best->Some_0].0.len() >= policies[j].0.len());
    assert(best == Some(j));
}

/// Where two entries have the same key, the first of them is the one that counts.
pub proof fn the_first_of_equal_keys_decides(
    policies: Seq<(Seq<char>, Seq<char>)>,
    tool: Seq<char>,
    j: int,
)
    requires
        0 <= j < policies.len(),
        governs(policies[j].0, tool),
        governing(policies, tool) is Some,
        policies[governing(policies, tool)->Some_0].0.len() == policies[j].0.len(),
    ensures
        governing(policies, tool)->Some_0 <= j,
    decreases policies.len(),
{
    let rest = policies.drop_last();
    lemma_governing(policies, tool);
    lemma_governing(rest, tool);
    if j < rest.len() {
        assert(rest[j] == policies[j]);
        specific_keys_win(rest, tool, j);
        let b = governing(rest, tool)->Some_0;
        assert(rest[b] == policies[b]);
        if governing(policies, tool) == governing(rest, tool) {
            the_first_of_equal_keys_decides(rest, tool, j);
        }
    }
}

proof fn lemma_policy_names()
    ensures
        "allow"@.len() == 5,
        "ask"@.len() == 3,
        "deny"@.len() == 4,
        forall|p: ToolPolicy| ascii(#[trigger] policy_name(p)),
        forall|p: ToolPolicy| lowered(#[trigger] policy_name(p)) == policy_name(p),
        forall|p: ToolPolicy|
            {
                let n = #[trigger] policy_name(p);
                n.len() > 0 && !white(n[0]) && !white(n.last())
            },
{
    reveal_strlit("allow");
    reveal_strlit("ask");
    reveal_strlit("deny");
    assert forall|p: ToolPolicy| lowered(#[trigger] policy_name(p)) == policy_name(p) by {
        let n = policy_name(p);
        assert(ascii(n));
        assert(lowered(n) =~= n);
    }
}

/// Each policy goes by its name, with white space around it or not and in capitals or
/// not; a word that is none of the names asks.
pub proof fn words_stand_for_policies(
    p: ToolPolicy,
    a: Seq<char>,
    word: Seq<char>,
    b: Seq<char>,
    other: Seq<char>,
)
    requires
        all_white(a),
        all_white(b),
        word.len() > 0 ==> !white(word[0]) && !white(word.last()),
        lowered(word) == policy_name(p),
    ensures
        policy_of(a + word + b) == p,
        policy_of(policy_name(p)) == p,
        policy_of(other) is Ask || lowered(trimmed(other)) == policy_name(policy_of(other)),
{
    lemma_policy_names();
    surrounding_white_space_is_lost(a, word, b);
    let e = Seq::<char>::empty();
    let n = policy_name(p);
    surrounding_white_space_is_lost(e, n, e);
    assert(e + n + e =~= n);
}

/// A tool was approved beforehand if its very name is on the list.
pub proof fn approval_is_by_name(tools: Vec<String>, name: Seq<char>)
    ensures
        preapproved(Some(tools), name) <==> exists|i: int|
            0 <= i < tools@.len() && (#[trigger] tools@[i])@ == name,
        !preapproved(None, name),
{
    let all = strs(tools@);
    assert forall|i: int| 0 <= i < tools@.len() implies (#[trigger] tools@[i])@ == all[i] by {}
    if all.contains(name) {
        let i = choose|i: int| 0 <= i < all.len() && all[i] == name;
        assert(tools@[i]@ == name);
    }
}

/// Where leave is missing, the request waits for it, or is turned down if nobody can be
/// asked.
pub proof fn missing_leave_is_asked_for(approved: bool, by_name: bool, deny_on_missing: bool)
    ensures
        gate_for(ToolPolicy::Ask, true, by_name, deny_on_missing) is Run,
        gate_for(ToolPolicy::Ask, approved, true, deny_on_missing) is Run,
        gate_for(ToolPolicy::Ask, false, false, true) is ApprovalMissing,
        gate_for(ToolPolicy::Ask, false, false, false) is ApprovalRequired,
        gate_for(ToolPolicy::Deny, approved, by_name, deny_on_missing) is Denied,
        gate_for(ToolPolicy::Allow, approved, by_name, deny_on_missing) is Run,
{
}

} // verus!
