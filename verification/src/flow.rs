//! Flows: nodes that wait for one another, in which order they run, and what
//! each of them does.
use vstd::prelude::*;
use crate::agent::{NoteView, RunNote};
use crate::config::ToolsConfig;
use crate::json::{
    json_str, json_text, json_to_text, lemma_object_view, lemma_says, member_views, object1,
    object2, object3, render_template, rendered, says, Json, JsonView,
};
use crate::keymap::{
    comes_before, found, inserted, insertion_is_found, insertion_keeps_order, lemma_place,
    lemma_place_unique, order_is_total, place, sorted, KeyMap,
};
use crate::messages::{chat_views, ChatMessage, ChatView};
use crate::policy::{among, configured_policy, preapproved, ToolPolicy};
use crate::reply::{error_reply, error_view, tool_error_reply, tool_error_view, Reply, ReplyView};
use crate::text::{
    copy_texts, lemma_strs_push, lowered, opt_text, push_text, same, starts, strs, text_or,
    to_lowercase,
};
use crate::tools::{execute_tool, start_gate, ToolExecError, ToolExecErrorView};

verus! {

broadcast use vstd::string::group_string_axioms;

/// A node of a flow.
#[derive(Debug)]
pub struct FlowNode {
    pub id: String,
    pub kind: String,
    pub prompt: Option<String>,
    pub tool: Option<String>,
    pub args: Option<Json>,
    pub inputs: Option<Vec<String>>,
}

/// An edge of a flow: `to` waits for `from`.
#[derive(Debug)]
pub struct FlowEdge {
    pub from: String,
    pub to: String,
}

/// The names of the nodes whose outputs a node takes.
pub open spec fn inputs_of(node: FlowNode) -> Seq<Seq<char>> {
    match node.inputs {
        Some(v) => strs(v@),
        None => Seq::empty(),
    }
}

// ---------------------------------------------------------------------------
// What waits for what
// ---------------------------------------------------------------------------

/// Where each node stands in the request, under its id; of nodes with one id the
/// last.
pub open spec fn node_index(nodes: Seq<FlowNode>) -> Seq<(Seq<char>, usize)>
    decreases nodes.len(),
{
    if nodes.len() == 0 {
        Seq::empty()
    } else {
        inserted(
            node_index(nodes.drop_last()),
            nodes.last().id@,
            (nodes.len() - 1) as usize,
        )
    }
}

/// What each node waits for by its inputs.
pub open spec fn input_deps(
    nodes: Seq<FlowNode>,
    index: Seq<(Seq<char>, usize)>,
) -> Seq<(Seq<char>, Seq<Seq<char>>)> {
    Seq::new(index.len(), |i: int| (index[i].0, inputs_of(nodes[index[i].1 as int])))
}

/// What each node waits for, once an edge is added.
pub open spec fn with_edge(
    deps: Seq<(Seq<char>, Seq<Seq<char>>)>,
    from: Seq<char>,
    to: Seq<char>,
) -> Seq<(Seq<char>, Seq<Seq<char>>)> {
    match found(deps, to) {
        Some(d) => inserted(deps, to, d.push(from)),
        None => inserted(deps, to, seq![from]),
    }
}

/// What each node waits for, once all edges are added.
pub open spec fn with_edges(
    deps: Seq<(Seq<char>, Seq<Seq<char>>)>,
    edges: Seq<FlowEdge>,
) -> Seq<(Seq<char>, Seq<Seq<char>>)>
    decreases edges.len(),
{
    if edges.len() == 0 {
        deps
    } else {
        with_edge(with_edges(deps, edges.drop_last()), edges.last().from@, edges.last().to@)
    }
}

/// What each node of a flow waits for: its inputs and the sources of the edges
/// to it.
pub open spec fn flow_deps(
    nodes: Seq<FlowNode>,
    edges: Seq<FlowEdge>,
) -> Seq<(Seq<char>, Seq<Seq<char>>)> {
    with_edges(input_deps(nodes, node_index(nodes)), edges)
}

/// Lists of names by what they hold.
pub open spec fn deps_view(deps: Seq<(Seq<char>, Vec<String>)>) -> Seq<(Seq<char>, Seq<Seq<char>>)> {
    Seq::new(deps.len(), |i: int| (deps[i].0, strs(deps[i].1@)))
}

/// Outputs by what they hold.
pub open spec fn outputs_view(outputs: Seq<(Seq<char>, Json)>) -> Seq<(Seq<char>, JsonView)> {
    Seq::new(outputs.len(), |i: int| (outputs[i].0, outputs[i].1@))
}

proof fn lemma_same_place<A, B>(a: Seq<(Seq<char>, A)>, b: Seq<(Seq<char>, B)>, key: Seq<char>)
    requires
        a.len() == b.len(),
        forall|i: int| 0 <= i < a.len() ==> (#[trigger] a[i]).0 == b[i].0,
    ensures
        place(a, key) == place(b, key),
    decreases a.len(),
{
    if a.len() > 0 {
        assert forall|i: int| 0 <= i < a.skip(1).len() implies (#[trigger] a.skip(1)[i]).0
            == b.skip(1)[i].0 by {
            assert(a[i + 1].0 == b[i + 1].0);
        }
        assert(a[0].0 == b[0].0);
        lemma_same_place(a.skip(1), b.skip(1), key);
    }
}

proof fn lemma_deps_inserted(deps: Seq<(Seq<char>, Vec<String>)>, key: Seq<char>, value: Vec<String>)
    ensures
        deps_view(inserted(deps, key, value)) == inserted(deps_view(deps), key, strs(value@)),
        found(deps_view(deps), key) == (match found(deps, key) {
            Some(d) => Some(strs(d@)),
            None => None::<Seq<Seq<char>>>,
        }),
{
    lemma_same_place(deps, deps_view(deps), key);
    lemma_place(deps, key);
    assert(deps_view(inserted(deps, key, value)) =~= inserted(deps_view(deps), key, strs(value@)));
}

/// Putting in an output changes what the outputs hold in the same way.
pub proof fn lemma_outputs_inserted(outputs: Seq<(Seq<char>, Json)>, key: Seq<char>, value: Json)
    ensures
        outputs_view(inserted(outputs, key, value)) == inserted(
            outputs_view(outputs),
            key,
            value@,
        ),
        found(outputs_view(outputs), key) == (match found(outputs, key) {
            Some(v) => Some(v@),
            None => None::<JsonView>,
        }),
{
    lemma_same_place(outputs, outputs_view(outputs), key);
    lemma_place(outputs, key);
    assert(outputs_view(inserted(outputs, key, value)) =~= inserted(
        outputs_view(outputs),
        key,
        value@,
    ));
}

// ---------------------------------------------------------------------------
// The run of a flow
// ---------------------------------------------------------------------------

/// Everything that a node waits for is there.
pub open spec fn deps_met<V>(needed: Seq<Seq<char>>, outputs: Seq<(Seq<char>, V)>) -> bool {
    forall|i: int| 0 <= i < needed.len() ==> found(outputs, #[trigger] needed[i]) is Some
}

/// The nodes that can run now, in the order of their ids: they have not run yet,
/// and all that they wait for is there.
pub open spec fn ready_ids<V>(
    deps: Seq<(Seq<char>, Seq<Seq<char>>)>,
    outputs: Seq<(Seq<char>, V)>,
) -> Seq<Seq<char>>
    decreases deps.len(),
{
    if deps.len() == 0 {
        Seq::empty()
    } else {
        let before = ready_ids(deps.drop_last(), outputs);
        let (id, needed) = deps.last();
        if found(outputs, id) is None && deps_met(needed, outputs) {
            before.push(id)
        } else {
            before
        }
    }
}

/// A flow that is being run: its nodes, what they wait for, and the outputs so
/// far.
#[derive(Debug)]
pub struct FlowRun {
    pub nodes: Vec<FlowNode>,
    pub index: KeyMap<usize>,
    pub deps: KeyMap<Vec<String>>,
    pub outputs: KeyMap<Json>,
}

/// What a `FlowRun` holds.
pub struct FlowView {
    pub nodes: Seq<FlowNode>,
    pub index: Seq<(Seq<char>, usize)>,
    pub deps: Seq<(Seq<char>, Seq<Seq<char>>)>,
    pub outputs: Seq<(Seq<char>, JsonView)>,
}

impl View for FlowRun {
    type V = FlowView;

    open spec fn view(&self) -> FlowView {
        FlowView {
            nodes: self.nodes@,
            index: self.index@,
            deps: deps_view(self.deps@),
            outputs: outputs_view(self.outputs@),
        }
    }
}

/// The index and the outputs are in order, the index points at nodes, and only
/// nodes have outputs.
pub open spec fn flow_well_formed(f: FlowView) -> bool {
    &&& sorted(f.index)
    &&& sorted(f.deps)
    &&& sorted(f.outputs)
    &&& forall|i: int| 0 <= i < f.index.len() ==> (#[trigger] f.index[i]).1 < f.nodes.len()
    &&& forall|i: int|
        0 <= i < f.outputs.len() ==> found(f.index, (#[trigger] f.outputs[i]).0) is Some
}

/// A flow before any of its nodes has run.
pub open spec fn flow_start(nodes: Seq<FlowNode>, edges: Seq<FlowEdge>) -> FlowView {
    FlowView {
        nodes,
        index: node_index(nodes),
        deps: flow_deps(nodes, edges),
        outputs: Seq::empty(),
    }
}

fn copy_names(v: &Option<Vec<String>>) -> (r: Vec<String>)
    ensures
        strs(r@) == (match v {
            Some(n) => strs(n@),
            None => Seq::empty(),
        }),
{
    match v {
        Some(names) => copy_texts(names),
        None => {
            let out: Vec<String> = Vec::new();
            assert(strs(out@) =~= Seq::empty());
            out
        },
    }
}

proof fn lemma_index(nodes: Seq<FlowNode>)
    requires
        nodes.len() <= usize::MAX,
    ensures
        sorted(node_index(nodes)),
        nodes.len() > 0 ==> node_index(nodes).len() > 0,
        forall|i: int|
            0 <= i < node_index(nodes).len() ==> (#[trigger] node_index(nodes)[i]).1
                < nodes.len(),
    decreases nodes.len(),
{
    if nodes.len() > 0 {
        let before = node_index(nodes.drop_last());
        let key = nodes.last().id@;
        lemma_index(nodes.drop_last());
        insertion_keeps_order(before, key, (nodes.len() - 1) as usize);
        lemma_place(before, key);
        let after = node_index(nodes);
        let p = place(before, key);
        assert forall|i: int| 0 <= i < after.len() implies (#[trigger] after[i]).1 < nodes.len() by {
            if p < before.len() && before[p].0 == key {
                if i != p {
                    assert(after[i] == before[i]);
                }
            } else if i < p {
                assert(after[i] == before[i]);
            } else if i > p {
                assert(after[i] == before[i - 1]);
            }
        }
    }
}

impl FlowRun {
    /// Takes up a flow.
    pub fn start(nodes: Vec<FlowNode>, edges: &Vec<FlowEdge>) -> (r: Result<FlowRun, Reply>)
        ensures
            match r {
                Ok(f) => {
                    &&& nodes@.len() > 0
                    &&& f@ == flow_start(nodes@, edges@)
                    &&& flow_well_formed(f@)
                },
                Err(e) => nodes@.len() == 0 && e@ == error_view(400, "flow nodes required"@),
            },
    {
        let mut index: KeyMap<usize> = KeyMap::new();
        let mut i: usize = 0;
        assert(nodes@.take(0) =~= Seq::empty());
        while i < nodes.len()
            invariant
                i <= nodes@.len(),
                index@ == node_index(nodes@.take(i as int)),
                sorted(index@),
            decreases nodes@.len() - i,
        {
            assert(nodes@.take(i + 1).drop_last() =~= nodes@.take(i as int));
            index.insert(nodes[i].id.clone(), i);
            i = i + 1;
        }
        assert(nodes@.take(i as int) =~= nodes@);
        proof {
            lemma_index(nodes@);
        }
        if nodes.len() == 0 {
            return Err(error_reply(400, "flow nodes required"));
        }
        let mut entries: Vec<(String, Vec<String>)> = Vec::new();
        let mut k: usize = 0;
        while k < index.entries.len()
            invariant
                k <= index.entries@.len(),
                entries@.len() == k,
                index@ == node_index(nodes@),
                forall|j: int|
                    0 <= j < index@.len() ==> (#[trigger] index@[j]).1 < nodes@.len(),
                forall|j: int|
                    0 <= j < k ==> (#[trigger] entries@[j]).0@ == index@[j].0 && strs(
                        entries@[j].1@,
                    ) == inputs_of(nodes@[index@[j].1 as int]),
            decreases index.entries@.len() - k,
        {
            assert(index@[k as int].1 < nodes@.len());
            let at: usize = index.entries[k].1;
            entries.push((index.entries[k].0.clone(), copy_names(&nodes[at].inputs)));
            k = k + 1;
        }
        let mut deps: KeyMap<Vec<String>> = KeyMap { entries };
        proof {
            assert(deps_view(deps@) =~= input_deps(nodes@, index@));
            assert forall|a: int, b: int| 0 <= a < b < deps@.len() implies comes_before(
                (#[trigger] deps@[a]).0,
                (#[trigger] deps@[b]).0,
            ) by {
                assert(deps@[a].0 == index@[a].0);
                assert(deps@[b].0 == index@[b].0);
            }
        }
        let mut e: usize = 0;
        assert(edges@.take(0) =~= Seq::empty());
        while e < edges.len()
            invariant
                e <= edges@.len(),
                deps_view(deps@) == with_edges(
                    input_deps(nodes@, index@),
                    edges@.take(e as int),
                ),
                sorted(deps@),
            decreases edges@.len() - e,
        {
            assert(edges@.take(e + 1).drop_last() =~= edges@.take(e as int));
            let ghost before = deps@;
            let mut list: Vec<String> = match deps.get(edges[e].to.as_str()) {
                Some(d) => copy_texts(d),
                None => Vec::new(),
            };
            let ghost known = strs(list@);
            proof {
                if found(before, edges@[e as int].to@) is None {
                    assert(known =~= Seq::empty());
                }
            }
            list.push(edges[e].from.clone());
            let ghost value = list;
            proof {
                assert(strs(value@) =~= known.push(edges@[e as int].from@));
                assert(Seq::<Seq<char>>::empty().push(edges@[e as int].from@) =~= seq![
                    edges@[e as int].from@,
                ]);
                lemma_deps_inserted(before, edges@[e as int].to@, value);
            }
            deps.insert(edges[e].to.clone(), list);
            e = e + 1;
        }
        assert(edges@.take(e as int) =~= edges@);
        let outputs: KeyMap<Json> = KeyMap::new();
        let f = FlowRun { nodes, index, deps, outputs };
        proof {
            assert(f@.outputs =~= Seq::empty());
            assert forall|a: int, b: int| 0 <= a < b < f@.deps.len() implies comes_before(
                (#[trigger] f@.deps[a]).0,
                (#[trigger] f@.deps[b]).0,
            ) by {
                assert(deps@[a].0 == f@.deps[a].0);
                assert(deps@[b].0 == f@.deps[b].0);
            }
        }
        Ok(f)
    }

    /// The nodes that can run now, in the order of their ids.
    pub fn ready(&self) -> (r: Vec<String>)
        ensures
            strs(r@) == ready_ids(self@.deps, self@.outputs),
    {
        let ghost deps = self@.deps;
        let ghost outputs = self@.outputs;
        let mut out: Vec<String> = Vec::new();
        let mut i: usize = 0;
        assert(strs(out@) =~= ready_ids(deps.take(0), outputs));
        while i < self.deps.entries.len()
            invariant
                deps == self@.deps,
                outputs == self@.outputs,
                i <= self.deps.entries@.len(),
                strs(out@) == ready_ids(deps.take(i as int), outputs),
            decreases self.deps.entries@.len() - i,
        {
            proof {
                assert(deps.take(i + 1).drop_last() =~= deps.take(i as int));
                assert(deps.take(i + 1).last() == deps[i as int]);
                assert(deps[i as int] == (self.deps@[i as int].0, strs(self.deps@[i as int].1@)));
            }
            let id = &self.deps.entries[i].0;
            if !self.has_output(id.as_str()) && self.all_there(&self.deps.entries[i].1) {
                let ghost before = out@;
                out.push(id.clone());
                proof {
                    lemma_strs_push(before, out@.last());
                }
            }
            i = i + 1;
        }
        assert(deps.take(i as int) =~= deps);
        out
    }

    fn has_output(&self, id: &str) -> (r: bool)
        ensures
            r == (found(self@.outputs, id@) is Some),
    {
        proof {
            lemma_same_place(self.outputs@, self@.outputs, id@);
            lemma_place(self.outputs@, id@);
        }
        self.outputs.contains_key(id)
    }

    fn all_there(&self, needed: &Vec<String>) -> (r: bool)
        ensures
            r == deps_met(strs(needed@), self@.outputs),
    {
        let mut i: usize = 0;
        while i < needed.len()
            invariant
                i <= needed@.len(),
                forall|k: int|
                    0 <= k < i ==> found(self@.outputs, #[trigger] strs(needed@)[k]) is Some,
            decreases needed@.len() - i,
        {
            assert(strs(needed@)[i as int] == needed@[i as int]@);
            if !self.has_output(needed[i].as_str()) {
                return false;
            }
            i = i + 1;
        }
        true
    }

    /// The node of an id.
    pub fn node(&self, id: &str) -> (r: Option<&FlowNode>)
        requires
            flow_well_formed(self@),
        ensures
            match r {
                Some(n) => found(self@.index, id@) is Some && *n == self@.nodes[found(
                    self@.index,
                    id@,
                )->Some_0 as int],
                None => found(self@.index, id@) is None,
            },
    {
        match self.index.get(id) {
            Some(at) => {
                proof {
                    lemma_place(self@.index, id@);
                    assert(self@.index[place(self@.index, id@)].1 == *at);
                }
                Some(&self.nodes[*at])
            },
            None => None,
        }
    }

    /// Takes the output of a node that was up.
    pub fn complete(&mut self, id: String, value: Json)
        requires
            flow_well_formed(old(self)@),
            ready_ids(old(self)@.deps, old(self)@.outputs).contains(id@),
            found(old(self)@.index, id@) is Some,
        ensures
            final(self)@ == (FlowView {
                outputs: inserted(old(self)@.outputs, id@, value@),
                ..old(self)@
            }),
            flow_well_formed(final(self)@),
    {
        let ghost before = self.outputs@;
        let ghost seen = self@;
        let ghost key = id@;
        let ghost v = value;
        proof {
            assert forall|a: int, b: int| 0 <= a < b < before.len() implies comes_before(
                (#[trigger] before[a]).0,
                (#[trigger] before[b]).0,
            ) by {
                assert(seen.outputs[a].0 == before[a].0);
                assert(seen.outputs[b].0 == before[b].0);
            }
            lemma_outputs_inserted(before, key, v);
            insertion_keeps_order(seen.outputs, key, v@);
            lemma_place(seen.outputs, key);
        }
        self.outputs.insert(id, value);
        proof {
            let after = inserted(seen.outputs, key, v@);
            let p = place(seen.outputs, key);
            assert forall|i: int| 0 <= i < after.len() implies found(
                seen.index,
                (#[trigger] after[i]).0,
            ) is Some by {
                if p < seen.outputs.len() && seen.outputs[p].0 == key {
                    if i != p {
                        assert(after[i] == seen.outputs[i]);
                    }
                } else if i < p {
                    assert(after[i] == seen.outputs[i]);
                } else if i > p {
                    assert(after[i] == seen.outputs[i - 1]);
                }
            }
        }
    }

    /// What a flow came to once no node can run any more: its outputs, or an
    /// error where a node never got to run.
    pub fn finish(self) -> (r: Result<Vec<(String, Json)>, Reply>)
        ensures
            match r {
                Ok(outputs) => {
                    &&& self@.outputs.len() == self@.index.len()
                    &&& member_views(outputs@) == self@.outputs
                },
                Err(e) => {
                    &&& self@.outputs.len() != self@.index.len()
                    &&& e@ == error_view(400, "flow has unresolved dependencies"@)
                },
            },
    {
        assert(self@.outputs.len() == self.outputs.entries@.len());
        assert(self@.index.len() == self.index.entries@.len());
        if self.outputs.entries.len() != self.index.entries.len() {
            return Err(error_reply(400, "flow has unresolved dependencies"));
        }
        let outputs = self.outputs.entries;
        assert(member_views(outputs@) =~= self@.outputs);
        Ok(outputs)
    }
}

// ---------------------------------------------------------------------------
// What a node does
// ---------------------------------------------------------------------------

/// What is to be done for a node: the model is asked, or a tool is run.
#[derive(Debug, PartialEq, Eq)]
pub enum NodeStep {
    Ask(Vec<ChatMessage>),
    RunTool(String, Json),
}

/// What a `NodeStep` holds.
pub enum NodeStepView {
    Ask(Seq<ChatView>),
    RunTool(Seq<char>, JsonView),
}

impl View for NodeStep {
    type V = NodeStepView;

    open spec fn view(&self) -> NodeStepView {
        match self {
            NodeStep::Ask(m) => NodeStepView::Ask(chat_views(m@)),
            NodeStep::RunTool(t, a) => NodeStepView::RunTool(t@, a@),
        }
    }
}

/// A prompt with the outputs that a node takes written below it.
pub open spec fn prompt_with(
    prompt: Seq<char>,
    inputs: Seq<Seq<char>>,
    outputs: Seq<(Seq<char>, JsonView)>,
) -> Seq<char>
    decreases inputs.len(),
{
    if inputs.len() == 0 {
        prompt
    } else {
        let before = prompt_with(prompt, inputs.drop_last(), outputs);
        match found(outputs, inputs.last()) {
            Some(v) => before + "\n\n["@ + inputs.last() + "]\n"@ + json_text(v),
            None => before,
        }
    }
}

fn write_prompt(prompt: &str, inputs: &Option<Vec<String>>, outputs: &KeyMap<Json>) -> (r: String)
    ensures
        r@ == prompt_with(
            prompt@,
            match inputs {
                Some(v) => strs(v@),
                None => Seq::empty(),
            },
            outputs_view(outputs@),
        ),
{
    let ghost outs = outputs_view(outputs@);
    let mut text = prompt.to_string();
    if let Some(names) = inputs {
        let ghost all = strs(names@);
        let mut i: usize = 0;
        assert(all.take(0) =~= Seq::empty());
        while i < names.len()
            invariant
                all == strs(names@),
                outs == outputs_view(outputs@),
                i <= names@.len(),
                text@ == prompt_with(prompt@, all.take(i as int), outs),
            decreases names@.len() - i,
        {
            proof {
                assert(all.take(i + 1).drop_last() =~= all.take(i as int));
                assert(all.take(i + 1).last() == names@[i as int]@);
                lemma_same_place(outputs@, outs, names@[i as int]@);
                lemma_place(outputs@, names@[i as int]@);
            }
            if let Some(value) = outputs.get(names[i].as_str()) {
                push_text(&mut text, "\n\n[");
                push_text(&mut text, names[i].as_str());
                push_text(&mut text, "]\n");
                let shown = json_to_text(value);
                push_text(&mut text, shown.as_str());
            }
            i = i + 1;
        }
        assert(all.take(i as int) =~= all);
    }
    text
}

/// A question to the model.
pub open spec fn asked(system: Seq<char>, prompt: Seq<char>) -> Seq<ChatView> {
    seq![
        ChatView { role: "system"@, content: system },
        ChatView { role: "user"@, content: prompt },
    ]
}

fn ask(system: &str, prompt: &str) -> (r: Vec<ChatMessage>)
    ensures
        chat_views(r@) == asked(system@, prompt@),
{
    let mut out: Vec<ChatMessage> = Vec::new();
    out.push(ChatMessage::new("system", system));
    out.push(ChatMessage::new("user", prompt));
    assert(chat_views(out@) =~= asked(system@, prompt@));
    out
}

/// What is to be done for a node, or why it cannot be done.
pub open spec fn node_step(
    node: FlowNode,
    outputs: Seq<(Seq<char>, JsonView)>,
    allowed: Option<Vec<String>>,
    canceled: bool,
) -> Result<NodeStepView, ReplyView> {
    let kind = lowered(node.kind@);
    if canceled {
        Err(error_view(403, "run canceled"@))
    } else if kind == "llm"@ {
        Ok(
            NodeStepView::Ask(
                asked(
                    "You are a flow node."@,
                    prompt_with(
                        text_or(opt_text(node.prompt), Seq::empty()),
                        inputs_of(node),
                        outputs,
                    ),
                ),
            ),
        )
    } else if kind == "tool"@ {
        match opt_text(node.tool) {
            None => Err(error_view(400, "tool node requires tool"@)),
            Some(tool) => if allowed is Some && !strs(allowed->Some_0@).contains(tool) {
                Err(tool_error_view(403, "tool not allowed"@, tool))
            } else {
                Ok(
                    NodeStepView::RunTool(
                        tool,
                        rendered(
                            match node.args {
                                Some(a) => a@,
                                None => JsonView::Null,
                            },
                            outputs,
                        ),
                    ),
                )
            },
        }
    } else if kind == "aggregate"@ {
        Ok(
            NodeStepView::Ask(
                asked(
                    "You are an aggregator."@,
                    prompt_with(
                        text_or(opt_text(node.prompt), "Aggregate the following outputs."@),
                        inputs_of(node),
                        outputs,
                    ),
                ),
            ),
        )
    } else {
        Err(error_view(400, "unknown node kind "@ + node.kind@))
    }
}

/// A step, or why there is none, by its views.
pub open spec fn step_result(r: Result<NodeStep, Reply>) -> Result<NodeStepView, ReplyView> {
    match r {
        Ok(s) => Ok(s@),
        Err(e) => Err(e@),
    }
}

/// What is to be done for a node, or why it cannot be done.
pub fn run_flow_node(
    node: &FlowNode,
    outputs: &KeyMap<Json>,
    allowed: &Option<Vec<String>>,
    canceled: bool,
) -> (r: Result<NodeStep, Reply>)
    ensures
        step_result(r) == node_step(*node, outputs_view(outputs@), *allowed, canceled),
{
    if canceled {
        return Err(error_reply(403, "run canceled"));
    }
    let kind = to_lowercase(node.kind.as_str());
    if same(kind.as_str(), "llm") {
        let prompt = match &node.prompt {
            Some(p) => p.clone(),
            None => String::new(),
        };
        assert(prompt@ =~= text_or(opt_text(node.prompt), Seq::empty()));
        let text = write_prompt(prompt.as_str(), &node.inputs, outputs);
        return Ok(NodeStep::Ask(ask("You are a flow node.", text.as_str())));
    }
    if same(kind.as_str(), "tool") {
        let tool = match &node.tool {
            Some(t) => t,
            None => {
                return Err(error_reply(400, "tool node requires tool"));
            },
        };
        if let Some(names) = allowed {
            if !among(names, tool.as_str()) {
                return Err(tool_error_reply(403, "tool not allowed", tool.as_str()));
            }
        }
        let args = match &node.args {
            Some(a) => a.duplicate(),
            None => Json::Null,
        };
        proof {
            assert(member_views(outputs.entries@) =~= outputs_view(outputs@));
        }
        return Ok(NodeStep::RunTool(tool.clone(), render_template(args, &outputs.entries)));
    }
    if same(kind.as_str(), "aggregate") {
        let prompt = match &node.prompt {
            Some(p) => p.clone(),
            None => "Aggregate the following outputs.".to_string(),
        };
        let text = write_prompt(prompt.as_str(), &node.inputs, outputs);
        return Ok(NodeStep::Ask(ask("You are an aggregator.", text.as_str())));
    }
    let mut text = "unknown node kind ".to_string();
    push_text(&mut text, node.kind.as_str());
    Err(error_reply(400, text.as_str()))
}

/// Whether the tool of a node may start, and the answer where it may not. Nobody
/// is there to be asked, so a tool that waits for approval ends the flow.
pub open spec fn flow_gate(
    tools: ToolsConfig,
    tool: Seq<char>,
    approved: bool,
    by_name: bool,
) -> Result<(), ReplyView> {
    match start_gate(tools, tool, approved, by_name, false) {
        Ok(()) => Ok(()),
        Err(ToolExecErrorView::ApprovalRequired) => Err(
            tool_error_view(403, "approval_required"@, tool),
        ),
        Err(ToolExecErrorView::Failed(e)) => Err(e),
    }
}

/// Whether the tool of a node may start, and the answer where it may not.
pub fn start_node_tool(
    tools: &ToolsConfig,
    tool: &str,
    approved: Option<bool>,
    approved_tools: &Option<Vec<String>>,
) -> (r: Result<(), Reply>)
    ensures
        match r {
            Ok(()) => flow_gate(
                *tools,
                tool@,
                approved == Some(true),
                preapproved(*approved_tools, tool@),
            ) is Ok,
            Err(e) => flow_gate(
                *tools,
                tool@,
                approved == Some(true),
                preapproved(*approved_tools, tool@),
            ) == Err::<(), ReplyView>(e@),
        },
{
    let given = match approved {
        Some(b) => b,
        None => false,
    };
    match execute_tool(tools, tool, given, approved_tools, false) {
        Ok(()) => Ok(()),
        Err(ToolExecError::ApprovalRequired) => Err(
            tool_error_reply(403, "approval_required", tool),
        ),
        Err(ToolExecError::Failed(e)) => Err(e),
    }
}

/// The output of a node that asked the model.
pub fn node_answer(result: Result<String, String>) -> (r: Result<Json, Reply>)
    ensures
        match result {
            Ok(text) => r is Ok && r->Ok_0@ == JsonView::Str(text@),
            Err(e) => r is Err && r->Err_0@ == error_view(502, e@),
        },
{
    match result {
        Ok(text) => Ok(Json::Str(text)),
        Err(e) => Err(error_reply(502, e.as_str())),
    }
}

/// How many nodes or tasks may be under way at once: four unless a request says
/// otherwise, and never none.
pub fn concurrency(max_concurrency: Option<u32>) -> (r: u32)
    ensures
        r == (match max_concurrency {
            Some(n) => if n == 0 {
                1
            } else {
                n
            },
            None => 4u32,
        }),
{
    match max_concurrency {
        Some(n) => if n == 0 {
            1
        } else {
            n
        },
        None => 4,
    }
}

// ---------------------------------------------------------------------------
// What listeners are told
// ---------------------------------------------------------------------------

/// What listeners are told when a node starts.
pub fn note_node_start(node: &FlowNode) -> (r: RunNote)
    ensures
        r@ == (NoteView {
            kind: "flow.node.start"@,
            payload: JsonView::Object(
                seq![("node"@, JsonView::Str(node.id@)), ("kind"@, JsonView::Str(node.kind@))],
            ),
        }),
{
    RunNote {
        kind: "flow.node.start",
        payload: object2(
            "node",
            json_str(node.id.as_str()),
            "kind",
            json_str(node.kind.as_str()),
        ),
    }
}

/// What listeners are told when a node ends well.
pub fn note_node_end(node: &FlowNode) -> (r: RunNote)
    ensures
        r@ == (NoteView {
            kind: "flow.node.end"@,
            payload: JsonView::Object(
                seq![("node"@, JsonView::Str(node.id@)), ("ok"@, JsonView::Bool(true))],
            ),
        }),
{
    RunNote {
        kind: "flow.node.end",
        payload: object2("node", json_str(node.id.as_str()), "ok", Json::Bool(true)),
    }
}

/// The status that a flow ends with.
pub open spec fn flow_status(ok: bool, canceled: bool) -> Seq<char> {
    if ok {
        "completed"@
    } else if canceled {
        "canceled"@
    } else {
        "error"@
    }
}

/// The status that a flow ends with, and what listeners are told of it.
pub fn flow_end(ok: bool, canceled: bool) -> (r: (&'static str, RunNote))
    ensures
        r.0@ == flow_status(ok, canceled),
        r.1@ == (if ok {
            NoteView {
                kind: "run.end"@,
                payload: JsonView::Object(seq![("status"@, JsonView::Str("completed"@))]),
            }
        } else if canceled {
            NoteView { kind: "run.canceled"@, payload: JsonView::Object(Seq::empty()) }
        } else {
            NoteView {
                kind: "run.error"@,
                payload: JsonView::Object(seq![("error"@, JsonView::Str("flow failed"@))]),
            }
        }),
{
    if ok {
        (
            "completed",
            RunNote { kind: "run.end", payload: object1("status", json_str("completed")) },
        )
    } else if canceled {
        ("canceled", note_canceled())
    } else {
        (
            "error",
            RunNote { kind: "run.error", payload: object1("error", json_str("flow failed")) },
        )
    }
}

/// What listeners are told when a run is canceled.
pub fn note_canceled() -> (r: RunNote)
    ensures
        r@ == (NoteView { kind: "run.canceled"@, payload: JsonView::Object(Seq::empty()) }),
{
    let none: Vec<(String, Json)> = Vec::new();
    proof {
        lemma_object_view(none);
        assert(member_views(none@) =~= Seq::empty());
    }
    RunNote { kind: "run.canceled", payload: Json::Object(none) }
}

/// The answer to a request for a flow that ended well.
pub fn flow_reply(outputs: Vec<(String, Json)>, run_id: &str) -> (r: Reply)
    ensures
        r@ == (ReplyView {
            status: 200,
            body: JsonView::Object(
                seq![
                    ("status"@, JsonView::Str("completed"@)),
                    ("outputs"@, JsonView::Object(member_views(outputs@))),
                    ("run_id"@, JsonView::Str(run_id@)),
                ],
            ),
        }),
{
    proof {
        lemma_object_view(outputs);
    }
    Reply {
        status: 200,
        body: object3(
            "status",
            json_str("completed"),
            "outputs",
            Json::Object(outputs),
            "run_id",
            json_str(run_id),
        ),
    }
}

// ---------------------------------------------------------------------------
// What holds of every flow
// ---------------------------------------------------------------------------

proof fn lemma_found_at<V>(s: Seq<(Seq<char>, V)>, i: int)
    requires
        sorted(s),
        0 <= i < s.len(),
    ensures
        place(s, s[i].0) == i,
        found(s, s[i].0) == Some(s[i].1),
{
    order_is_total(s[i].0, s[i].0);
    lemma_place_unique(s, s[i].0, i);
}

/// A node is up only if it has not run yet and everything that it waits for is
/// there.
pub proof fn nodes_wait_for_their_inputs<V>(
    deps: Seq<(Seq<char>, Seq<Seq<char>>)>,
    outputs: Seq<(Seq<char>, V)>,
    id: Seq<char>,
)
    requires
        sorted(deps),
        ready_ids(deps, outputs).contains(id),
    ensures
        found(outputs, id) is None,
        found(deps, id) is Some,
        deps_met(found(deps, id)->Some_0, outputs),
{
    let at = lemma_ready_at(deps, outputs, id);
    lemma_found_at(deps, at);
}

proof fn lemma_ready_at<V>(
    deps: Seq<(Seq<char>, Seq<Seq<char>>)>,
    outputs: Seq<(Seq<char>, V)>,
    id: Seq<char>,
) -> (at: int)
    requires
        ready_ids(deps, outputs).contains(id),
    ensures
        0 <= at < deps.len(),
        deps[at].0 == id,
        found(outputs, id) is None,
        deps_met(deps[at].1, outputs),
    decreases deps.len(),
{
    let before = ready_ids(deps.drop_last(), outputs);
    let all = ready_ids(deps, outputs);
    let k = choose|k: int| 0 <= k < all.len() && all[k] == id;
    if k < before.len() {
        assert(before[k] == id);
        lemma_ready_at(deps.drop_last(), outputs, id)
    } else {
        deps.len() - 1
    }
}

/// A node that waits for nothing more and has not run is up.
pub proof fn idle_nodes_come_up<V>(
    deps: Seq<(Seq<char>, Seq<Seq<char>>)>,
    outputs: Seq<(Seq<char>, V)>,
    at: int,
)
    requires
        0 <= at < deps.len(),
        found(outputs, deps[at].0) is None,
        deps_met(deps[at].1, outputs),
    ensures
        ready_ids(deps, outputs).contains(deps[at].0),
    decreases deps.len(),
{
    let all = ready_ids(deps, outputs);
    if at == deps.len() - 1 {
        assert(all.last() == deps[at].0);
    } else {
        idle_nodes_come_up(deps.drop_last(), outputs, at);
        let before = ready_ids(deps.drop_last(), outputs);
        let k = choose|k: int| 0 <= k < before.len() && before[k] == deps[at].0;
        assert(all[k] == deps[at].0);
    }
}

/// Every node that has run waited for nodes that have run.
pub open spec fn in_order<V>(
    deps: Seq<(Seq<char>, Seq<Seq<char>>)>,
    outputs: Seq<(Seq<char>, V)>,
) -> bool {
    forall|i: int|
        0 <= i < deps.len() && found(outputs, (#[trigger] deps[i]).0) is Some ==> deps_met(
            deps[i].1,
            outputs,
        )
}

/// Nodes run after those that they wait for: once all that a node waits for is
/// there, its output can be taken, and what was ready beside it stays so.
pub proof fn order_is_kept<V>(
    deps: Seq<(Seq<char>, Seq<Seq<char>>)>,
    outputs: Seq<(Seq<char>, V)>,
    id: Seq<char>,
    value: V,
    other: Seq<Seq<char>>,
)
    requires
        sorted(deps),
        sorted(outputs),
        in_order(deps, outputs),
        found(deps, id) is Some,
        deps_met(found(deps, id)->Some_0, outputs),
    ensures
        in_order(deps, inserted(outputs, id, value)),
        deps_met(other, outputs) ==> deps_met(other, inserted(outputs, id, value)),
{
    let after = inserted(outputs, id, value);
    assert forall|needed: Seq<Seq<char>>| #[trigger] deps_met(needed, outputs) implies deps_met(
        needed,
        after,
    ) by {
        assert forall|i: int| 0 <= i < needed.len() implies found(after, #[trigger] needed[i]) is Some by {
            assert(found(outputs, needed[i]) is Some);
            insertion_is_found(outputs, id, value, needed[i]);
        }
    }
    assert forall|i: int|
        0 <= i < deps.len() && found(after, (#[trigger] deps[i]).0) is Some implies deps_met(
        deps[i].1,
        after,
    ) by {
        insertion_is_found(outputs, id, value, deps[i].0);
        if deps[i].0 == id {
            lemma_found_at(deps, i);
        }
        assert(deps_met(deps[i].1, outputs));
    }
}

/// Each node that runs adds one output, so a flow ends after as many runs as it
/// has nodes.
pub proof fn every_run_adds_an_output<V>(
    deps: Seq<(Seq<char>, Seq<Seq<char>>)>,
    outputs: Seq<(Seq<char>, V)>,
    id: Seq<char>,
    value: V,
)
    requires
        sorted(deps),
        ready_ids(deps, outputs).contains(id),
    ensures
        inserted(outputs, id, value).len() == outputs.len() + 1,
{
    nodes_wait_for_their_inputs(deps, outputs, id);
    lemma_place(outputs, id);
}

/// Nodes that wait for one another in a circle never run: while none of them has
/// run none of them is up, and the run of any other node leaves it so.
pub proof fn circles_never_start<V>(
    deps: Seq<(Seq<char>, Seq<Seq<char>>)>,
    outputs: Seq<(Seq<char>, V)>,
    circle: Set<Seq<char>>,
    id: Seq<char>,
    value: V,
)
    requires
        sorted(deps),
        sorted(outputs),
        forall|c: Seq<char>| #[trigger]
            circle.contains(c) ==> found(deps, c) is Some && exists|k: int|
                0 <= k < found(deps, c)->Some_0.len() && circle.contains(
                    #[trigger] found(deps, c)->Some_0[k],
                ),
        forall|c: Seq<char>| #[trigger] circle.contains(c) ==> found(outputs, c) is None,
        ready_ids(deps, outputs).contains(id),
    ensures
        !circle.contains(id),
        forall|c: Seq<char>| #[trigger]
            circle.contains(c) ==> found(inserted(outputs, id, value), c) is None,
{
    nodes_wait_for_their_inputs(deps, outputs, id);
    if circle.contains(id) {
        let needed = found(deps, id)->Some_0;
        let k = choose|k: int| 0 <= k < needed.len() && circle.contains(#[trigger] needed[k]);
        assert(found(outputs, needed[k]) is Some);
    }
    assert forall|c: Seq<char>| #[trigger] circle.contains(c) implies found(
        inserted(outputs, id, value),
        c,
    ) is None by {
        insertion_is_found(outputs, id, value, c);
    }
}

/// The keys of a sorted row stand at least as far along a sorted row that has all
/// of them, and no further if both rows are as long.
proof fn lemma_same_keys<A, B>(a: Seq<(Seq<char>, A)>, b: Seq<(Seq<char>, B)>, i: int, up: bool)
    requires
        sorted(a),
        sorted(b),
        a.len() == b.len(),
        forall|k: int| 0 <= k < a.len() ==> found(b, (#[trigger] a[k]).0) is Some,
        0 <= i < a.len(),
    ensures
        up ==> place(b, a[i].0) >= i,
        !up ==> place(b, a[i].0) <= i,
    decreases
            if up {
                i
            } else {
                a.len() - i
            },
{
    lemma_place(b, a[i].0);
    assert(found(b, a[i].0) is Some);
    if up && i > 0 {
        lemma_same_keys(a, b, i - 1, true);
        lemma_place(b, a[i - 1].0);
        assert(found(b, a[i - 1].0) is Some);
        let p = place(b, a[i - 1].0);
        let q = place(b, a[i].0);
        assert(comes_before(a[i - 1].0, a[i].0));
        if q <= p {
            order_is_total(a[i].0, a[i - 1].0);
            if q < p {
                assert(comes_before(b[q].0, b[p].0));
            }
        }
    }
    if !up && i < a.len() - 1 {
        lemma_same_keys(a, b, i + 1, false);
        lemma_place(b, a[i + 1].0);
        assert(found(b, a[i + 1].0) is Some);
        let p = place(b, a[i].0);
        let q = place(b, a[i + 1].0);
        assert(comes_before(a[i].0, a[i + 1].0));
        if q <= p {
            order_is_total(a[i].0, a[i + 1].0);
            if q < p {
                assert(comes_before(b[q].0, b[p].0));
            }
        }
    }
}

/// A flow ends well only if every one of its nodes has run.
pub proof fn finished_flows_ran_every_node(f: FlowView, id: Seq<char>)
    requires
        flow_well_formed(f),
        f.outputs.len() == f.index.len(),
        found(f.index, id) is Some,
    ensures
        found(f.outputs, id) is Some,
{
    lemma_place(f.index, id);
    let i = place(f.index, id);
    lemma_same_keys(f.outputs, f.index, i, true);
    lemma_same_keys(f.outputs, f.index, i, false);
    lemma_place(f.index, f.outputs[i].0);
    assert(found(f.index, f.outputs[i].0) is Some);
    assert(f.outputs[i].0 == id);
    lemma_found_at(f.outputs, i);
}

// ---------------------------------------------------------------------------
// What a flow that was taken up waits for
// ---------------------------------------------------------------------------

/// A node waits for another.
pub open spec fn waits_for(
    deps: Seq<(Seq<char>, Seq<Seq<char>>)>,
    id: Seq<char>,
    other: Seq<char>,
) -> bool {
    found(deps, id) is Some && found(deps, id)->Some_0.contains(other)
}

proof fn lemma_with_edge(
    deps: Seq<(Seq<char>, Seq<Seq<char>>)>,
    from: Seq<char>,
    to: Seq<char>,
    id: Seq<char>,
    other: Seq<char>,
)
    requires
        sorted(deps),
    ensures
        sorted(with_edge(deps, from, to)),
        waits_for(with_edge(deps, from, to), id, other) <==> waits_for(deps, id, other) || (id == to
            && other == from),
        found(with_edge(deps, from, to), id) is Some <==> found(deps, id) is Some || id == to,
{
    let list = match found(deps, to) {
        Some(d) => d.push(from),
        None => seq![from],
    };
    insertion_keeps_order(deps, to, list);
    insertion_is_found(deps, to, list, id);
    if id == to {
        match found(deps, to) {
            Some(d) => {
                assert(list == d.push(from));
                if d.contains(other) {
                    let k = choose|k: int| 0 <= k < d.len() && d[k] == other;
                    assert(list[k] == other);
                }
                if other == from {
                    assert(list[d.len() as int] == from);
                }
                if list.contains(other) && other != from {
                    let k = choose|k: int| 0 <= k < list.len() && list[k] == other;
                    assert(d[k] == other);
                }
            },
            None => {
                assert(list[0] == from);
            },
        }
    }
}

/// There is an edge between two nodes.
pub open spec fn joined_by_edge(edges: Seq<FlowEdge>, from: Seq<char>, to: Seq<char>) -> bool {
    exists|e: int| 0 <= e < edges.len() && (#[trigger] edges[e]).from@ == from && edges[e].to@ == to
}

proof fn lemma_with_edges(
    deps: Seq<(Seq<char>, Seq<Seq<char>>)>,
    edges: Seq<FlowEdge>,
    id: Seq<char>,
    other: Seq<char>,
)
    requires
        sorted(deps),
    ensures
        sorted(with_edges(deps, edges)),
        waits_for(with_edges(deps, edges), id, other) <==> waits_for(deps, id, other)
            || joined_by_edge(edges, other, id),
        found(with_edges(deps, edges), id) is Some <==> found(deps, id) is Some || exists|e: int|
            0 <= e < edges.len() && (#[trigger] edges[e]).to@ == id,
    decreases edges.len(),
{
    if edges.len() > 0 {
        let rest = edges.drop_last();
        lemma_with_edges(deps, rest, id, other);
        lemma_with_edge(with_edges(deps, rest), edges.last().from@, edges.last().to@, id, other);
        let n = edges.len() - 1;
        if joined_by_edge(rest, other, id) {
            let e = choose|e: int|
                0 <= e < rest.len() && (#[trigger] rest[e]).from@ == other && rest[e].to@ == id;
            assert(edges[e] == rest[e]);
        }
        if joined_by_edge(edges, other, id) {
            let e = choose|e: int|
                0 <= e < edges.len() && (#[trigger] edges[e]).from@ == other && edges[e].to@ == id;
            if e < n {
                assert(rest[e] == edges[e]);
            }
        }
        assert(edges[n] == edges.last());
        if exists|e: int| 0 <= e < rest.len() && (#[trigger] rest[e]).to@ == id {
            let e = choose|e: int| 0 <= e < rest.len() && (#[trigger] rest[e]).to@ == id;
            assert(edges[e] == rest[e]);
        }
        if exists|e: int| 0 <= e < edges.len() && (#[trigger] edges[e]).to@ == id {
            let e = choose|e: int| 0 <= e < edges.len() && (#[trigger] edges[e]).to@ == id;
            if e < n {
                assert(rest[e] == edges[e]);
            }
        }
    }
}

/// The last node of its id.
pub open spec fn last_of_its_id(nodes: Seq<FlowNode>, i: int) -> bool {
    &&& 0 <= i < nodes.len()
    &&& forall|j: int| i < j < nodes.len() ==> (#[trigger] nodes[j]).id@ != nodes[i].id@
}

/// Every node is known under its id, of several nodes of one id the last; and nothing
/// else is known.
pub proof fn nodes_are_known_by_their_ids(nodes: Seq<FlowNode>, id: Seq<char>)
    requires
        nodes.len() <= usize::MAX,
    ensures
        match found(node_index(nodes), id) {
            Some(at) => last_of_its_id(nodes, at as int) && nodes[at as int].id@ == id,
            None => forall|j: int| 0 <= j < nodes.len() ==> (#[trigger] nodes[j]).id@ != id,
        },
    decreases nodes.len(),
{
    if nodes.len() > 0 {
        let rest = nodes.drop_last();
        let n = (nodes.len() - 1) as usize;
        nodes_are_known_by_their_ids(rest, id);
        lemma_index(rest);
        insertion_is_found(node_index(rest), nodes.last().id@, n, id);
        assert(nodes.last() == nodes[n as int]);
        assert forall|j: int| 0 <= j < n implies #[trigger] rest[j] == nodes[j] by {}
        match found(node_index(nodes), id) {
            Some(at) => {
                if id != nodes.last().id@ {
                    assert(rest[at as int] == nodes[at as int]);
                    assert forall|j: int| at < j < nodes.len() implies (#[trigger] nodes[j]).id@
                        != nodes[at as int].id@ by {
                        if j < n {
                            assert(rest[j] == nodes[j]);
                        }
                    }
                }
            },
            None => {
                assert forall|j: int| 0 <= j < nodes.len() implies (#[trigger] nodes[j]).id@ != id by {
                    if j < n {
                        assert(rest[j] == nodes[j]);
                    }
                }
            },
        }
    }
}

/// The node of an id names another as its input.
pub open spec fn takes_input(nodes: Seq<FlowNode>, id: Seq<char>, other: Seq<char>) -> bool {
    exists|i: int, k: int|
        last_of_its_id(nodes, i) && (#[trigger] nodes[i]).id@ == id && nodes[i].inputs is Some && 0
            <= k < nodes[i].inputs->Some_0@.len() && #[trigger] nodes[i].inputs->Some_0@[k]@
            == other
}

proof fn lemma_input_deps(nodes: Seq<FlowNode>, id: Seq<char>, other: Seq<char>)
    requires
        nodes.len() <= usize::MAX,
    ensures
        sorted(input_deps(nodes, node_index(nodes))),
        found(input_deps(nodes, node_index(nodes)), id) is Some <==> found(node_index(nodes), id)
            is Some,
        waits_for(input_deps(nodes, node_index(nodes)), id, other) <==> takes_input(
            nodes,
            id,
            other,
        ),
{
    let index = node_index(nodes);
    let deps = input_deps(nodes, index);
    lemma_index(nodes);
    assert forall|a: int, b: int| 0 <= a < b < deps.len() implies comes_before(
        (#[trigger] deps[a]).0,
        (#[trigger] deps[b]).0,
    ) by {
        assert(deps[a].0 == index[a].0 && deps[b].0 == index[b].0);
    }
    lemma_same_place(deps, index, id);
    lemma_place(index, id);
    nodes_are_known_by_their_ids(nodes, id);
    let p = place(index, id);
    if found(index, id) is Some {
        let at = found(index, id)->Some_0 as int;
        assert(deps[p] == (index[p].0, inputs_of(nodes[at])));
        if waits_for(deps, id, other) {
            let names = inputs_of(nodes[at]);
            let k = choose|k: int| 0 <= k < names.len() && names[k] == other;
            assert(names[k] == nodes[at].inputs->Some_0@[k]@);
            assert(last_of_its_id(nodes, at) && nodes[at].id@ == id);
        }
        if takes_input(nodes, id, other) {
            let (i, k) = choose|i: int, k: int|
                last_of_its_id(nodes, i) && (#[trigger] nodes[i]).id@ == id && nodes[i].inputs
                    is Some && 0 <= k < nodes[i].inputs->Some_0@.len()
                    && #[trigger] nodes[i].inputs->Some_0@[k]@ == other;
            if i < at {
                assert(nodes[at].id@ != nodes[i].id@);
            } else if at < i {
                assert(nodes[i].id@ != nodes[at].id@);
            }
            assert(inputs_of(nodes[at])[k] == other);
        }
    } else if takes_input(nodes, id, other) {
        let (i, k) = choose|i: int, k: int|
            last_of_its_id(nodes, i) && (#[trigger] nodes[i]).id@ == id && nodes[i].inputs is Some
                && 0 <= k < nodes[i].inputs->Some_0@.len()
                && #[trigger] nodes[i].inputs->Some_0@[k]@ == other;
        assert(nodes[i].id@ != id);
    }
}

/// In a flow that was taken up a node waits for exactly the nodes that it names as
/// inputs and those that an edge leads from to it, however many there are.
pub proof fn every_edge_and_input_is_waited_for(
    nodes: Seq<FlowNode>,
    edges: Seq<FlowEdge>,
    id: Seq<char>,
    other: Seq<char>,
)
    requires
        nodes.len() <= usize::MAX,
    ensures
        waits_for(flow_start(nodes, edges).deps, id, other) <==> takes_input(nodes, id, other)
            || joined_by_edge(edges, other, id),
        found(flow_start(nodes, edges).deps, id) is Some <==> (exists|i: int|
            0 <= i < nodes.len() && (#[trigger] nodes[i]).id@ == id) || (exists|e: int|
            0 <= e < edges.len() && (#[trigger] edges[e]).to@ == id),
        sorted(flow_start(nodes, edges).deps),
        flow_start(nodes, edges).outputs.len() == 0,
{
    lemma_input_deps(nodes, id, other);
    lemma_with_edges(input_deps(nodes, node_index(nodes)), edges, id, other);
    nodes_are_known_by_their_ids(nodes, id);
    if found(node_index(nodes), id) is Some {
        let at = found(node_index(nodes), id)->Some_0 as int;
        assert(nodes[at].id@ == id);
    }
}

/// Whatever outputs a flow has got: a node is up exactly if it is part of the flow,
/// has no output yet, and every input of it and every source of an edge to it has
/// one.
pub proof fn nodes_run_after_what_they_wait_for<V>(
    nodes: Seq<FlowNode>,
    edges: Seq<FlowEdge>,
    outputs: Seq<(Seq<char>, V)>,
    id: Seq<char>,
)
    requires
        nodes.len() <= usize::MAX,
    ensures
        ready_ids(flow_start(nodes, edges).deps, outputs).contains(id) <==> {
            &&& (exists|i: int| 0 <= i < nodes.len() && (#[trigger] nodes[i]).id@ == id) || (
            exists|e: int| 0 <= e < edges.len() && (#[trigger] edges[e]).to@ == id)
            &&& found(outputs, id) is None
            &&& forall|other: Seq<char>| #[trigger]
                takes_input(nodes, id, other) ==> found(outputs, other) is Some
            &&& forall|e: int|
                0 <= e < edges.len() && (#[trigger] edges[e]).to@ == id ==> found(
                    outputs,
                    edges[e].from@,
                ) is Some
        },
{
    let deps = flow_start(nodes, edges).deps;
    every_edge_and_input_is_waited_for(nodes, edges, id, id);
    assert forall|other: Seq<char>| #[trigger] waits_for(deps, id, other) <==> takes_input(
        nodes,
        id,
        other,
    ) || joined_by_edge(edges, other, id) by {
        every_edge_and_input_is_waited_for(nodes, edges, id, other);
    }
    if ready_ids(deps, outputs).contains(id) {
        nodes_wait_for_their_inputs(deps, outputs, id);
        let needed = found(deps, id)->Some_0;
        assert forall|other: Seq<char>| waits_for(deps, id, other) implies found(
            outputs,
            other,
        ) is Some by {
            let k = choose|k: int| 0 <= k < needed.len() && needed[k] == other;
            assert(found(outputs, needed[k]) is Some);
        }
        assert forall|other: Seq<char>| #[trigger] takes_input(nodes, id, other) implies found(
            outputs,
            other,
        ) is Some by {
            assert(waits_for(deps, id, other));
        }
        assert forall|e: int| 0 <= e < edges.len() && (#[trigger] edges[e]).to@ == id implies found(
            outputs,
            edges[e].from@,
        ) is Some by {
            assert(joined_by_edge(edges, edges[e].from@, id));
            assert(waits_for(deps, id, edges[e].from@));
        }
    }
    if found(deps, id) is Some && found(outputs, id) is None && (forall|other: Seq<char>|
        #[trigger] takes_input(nodes, id, other) ==> found(outputs, other) is Some) && (forall|
        e: int,
    |
        0 <= e < edges.len() && (#[trigger] edges[e]).to@ == id ==> found(
            outputs,
            edges[e].from@,
        ) is Some) {
        lemma_place(deps, id);
        let p = place(deps, id);
        let needed = deps[p].1;
        assert forall|k: int| 0 <= k < needed.len() implies found(
            outputs,
            #[trigger] needed[k],
        ) is Some by {
            assert(waits_for(deps, id, needed[k]));
            if !takes_input(nodes, id, needed[k]) {
                assert(joined_by_edge(edges, needed[k], id));
            }
        }
        idle_nodes_come_up(deps, outputs, p);
    }
}

/// What is up is listed in the order of the ids, each once.
pub proof fn ready_nodes_are_in_order<V>(
    deps: Seq<(Seq<char>, Seq<Seq<char>>)>,
    outputs: Seq<(Seq<char>, V)>,
    a: int,
    b: int,
)
    requires
        sorted(deps),
        0 <= a < b < ready_ids(deps, outputs).len(),
    ensures
        comes_before(ready_ids(deps, outputs)[a], ready_ids(deps, outputs)[b]),
    decreases deps.len(),
{
    let rest = deps.drop_last();
    let before = ready_ids(rest, outputs);
    let all = ready_ids(deps, outputs);
    assert forall|i: int, j: int| 0 <= i < j < rest.len() implies comes_before(
        (#[trigger] rest[i]).0,
        (#[trigger] rest[j]).0,
    ) by {
        assert(rest[i] == deps[i] && rest[j] == deps[j]);
    }
    if b < before.len() {
        ready_nodes_are_in_order(rest, outputs, a, b);
    } else {
        assert(before.contains(before[a]));
        let at = lemma_ready_at(rest, outputs, before[a]);
        assert(rest[at] == deps[at]);
        assert(deps.last() == deps[deps.len() - 1]);
    }
}

// ---------------------------------------------------------------------------
// What a node is given
// ---------------------------------------------------------------------------

/// The prompt of a node starts as it was written, and every output that the node
/// takes stands in it under its name.
pub proof fn prompts_show_every_input(
    prompt: Seq<char>,
    inputs: Seq<Seq<char>>,
    outputs: Seq<(Seq<char>, JsonView)>,
    k: int,
)
    ensures
        starts(prompt_with(prompt, inputs, outputs), prompt),
        0 <= k < inputs.len() && found(outputs, inputs[k]) is Some ==> exists|a: Seq<char>, b: Seq<
            char,
        >|
            prompt_with(prompt, inputs, outputs) == #[trigger] (a + ("\n\n["@ + inputs[k] + "]\n"@
                + json_text(found(outputs, inputs[k])->Some_0)) + b),
    decreases inputs.len(),
{
    let whole = prompt_with(prompt, inputs, outputs);
    if inputs.len() == 0 {
        assert(prompt.take(prompt.len() as int) =~= prompt);
    } else {
        let rest = inputs.drop_last();
        prompts_show_every_input(prompt, rest, outputs, k);
        let before = prompt_with(prompt, rest, outputs);
        assert(starts(before, prompt));
        assert(before.len() <= whole.len() && whole.take(before.len() as int) =~= before);
        assert(whole.take(prompt.len() as int) =~= before.take(prompt.len() as int));
        if 0 <= k < inputs.len() && found(outputs, inputs[k]) is Some {
            let shown = "\n\n["@ + inputs[k] + "]\n"@ + json_text(
                found(outputs, inputs[k])->Some_0,
            );
            if k == inputs.len() - 1 {
                assert(whole =~= before + shown + Seq::empty());
            } else {
                assert(rest[k] == inputs[k]);
                let (a, b) = choose|a: Seq<char>, b: Seq<char>|
                    before == #[trigger] (a + shown + b);
                let tail = whole.skip(before.len() as int);
                assert(whole =~= a + shown + (b + tail));
            }
        }
    }
}

/// A node runs its own tool and no other, one that is allowed, with its own
/// arguments where they have nothing to fill in; a canceled run starts nothing.
pub proof fn nodes_run_their_own_tool(
    node: FlowNode,
    outputs: Seq<(Seq<char>, JsonView)>,
    allowed: Option<Vec<String>>,
    canceled: bool,
)
    ensures
        match node_step(node, outputs, allowed, canceled) {
            Ok(NodeStepView::RunTool(tool, args)) => {
                &&& !canceled
                &&& lowered(node.kind@) == "tool"@
                &&& node.tool is Some && node.tool->Some_0@ == tool
                &&& allowed is Some ==> exists|i: int|
                    0 <= i < allowed->Some_0@.len() && (#[trigger] allowed->Some_0@[i])@ == tool
                &&& node.args is Some ==> args == rendered(node.args->Some_0@, outputs)
            },
            Ok(NodeStepView::Ask(ms)) => {
                &&& !canceled
                &&& lowered(node.kind@) == "llm"@ || lowered(node.kind@) == "aggregate"@
                &&& ms.len() == 2
                &&& ms[0].role == "system"@
                &&& ms[1].role == "user"@
                &&& node.prompt is Some ==> starts(ms[1].content, node.prompt->Some_0@)
            },
            Err(e) => canceled || e.status == 400 || e.status == 403,
        },
        !canceled && (lowered(node.kind@) == "llm"@ || lowered(node.kind@) == "aggregate"@)
            ==> node_step(node, outputs, allowed, canceled) is Ok,
{
    reveal_strlit("llm");
    reveal_strlit("tool");
    reveal_strlit("aggregate");
    assert("llm"@.len() == 3 && "tool"@.len() == 4 && "aggregate"@.len() == 9);
    if node.prompt is Some {
        prompts_show_every_input(node.prompt->Some_0@, inputs_of(node), outputs, 0);
    }
    if allowed is Some && node.tool is Some {
        let names = strs(allowed->Some_0@);
        if names.contains(node.tool->Some_0@) {
            let i = choose|i: int| 0 <= i < names.len() && names[i] == node.tool->Some_0@;
            assert(allowed->Some_0@[i]@ == node.tool->Some_0@);
        }
    }
}

/// The tool of a node starts if it has leave and else is refused by name: nobody is there to
/// be asked, so one that waits for leave is refused as well.
pub proof fn node_tools_need_leave(
    tools: ToolsConfig,
    tool: Seq<char>,
    approved: bool,
    by_name: bool,
)
    ensures
        match configured_policy(tools, tool) {
            ToolPolicy::Allow => flow_gate(tools, tool, approved, by_name) is Ok,
            ToolPolicy::Ask => flow_gate(tools, tool, approved, by_name) is Ok <==> approved
                || by_name,
            ToolPolicy::Deny => flow_gate(tools, tool, approved, by_name) is Err,
        },
        match flow_gate(tools, tool, approved, by_name) {
            Ok(_) => true,
            Err(reply) => {
                &&& reply.status == 403
                &&& says(reply.body, "tool"@, JsonView::Str(tool))
                &&& configured_policy(tools, tool) is Deny ==> says(
                    reply.body,
                    "error"@,
                    JsonView::Str("tool denied"@),
                )
                &&& configured_policy(tools, tool) is Ask ==> says(
                    reply.body,
                    "error"@,
                    JsonView::Str("approval_required"@),
                )
            },
        },
{
    if let Err(reply) = flow_gate(tools, tool, approved, by_name) {
        let o = reply.body->Object_0;
        lemma_says(o);
        assert(o[0].0 == "error"@ && o[1].0 == "tool"@);
    }
}

/// A node that cannot run says why: the run was canceled, it names no tool or one that may
/// not be used, or nothing is known of its kind. A tool that is named and may be used is
/// run.
pub proof fn nodes_that_cannot_run_say_why(
    node: FlowNode,
    outputs: Seq<(Seq<char>, JsonView)>,
    allowed: Vec<String>,
)
    ensures
        node_step(node, outputs, None, true) == Err::<NodeStepView, ReplyView>(
            error_view(403, "run canceled"@),
        ),
        lowered(node.kind@) == "tool"@ && node.tool is None ==> node_step(
            node,
            outputs,
            None,
            false,
        ) == Err::<NodeStepView, ReplyView>(error_view(400, "tool node requires tool"@)),
        lowered(node.kind@) == "tool"@ && node.tool is Some ==> node_step(
            node,
            outputs,
            None,
            false,
        ) is Ok,
        lowered(node.kind@) == "tool"@ && node.tool is Some && !strs(allowed@).contains(
            node.tool->Some_0@,
        ) ==> node_step(node, outputs, Some(allowed), false) == Err::<NodeStepView, ReplyView>(
            tool_error_view(403, "tool not allowed"@, node.tool->Some_0@),
        ),
        lowered(node.kind@) == "tool"@ && node.tool is Some && strs(allowed@).contains(
            node.tool->Some_0@,
        ) ==> node_step(node, outputs, Some(allowed), false) is Ok,
        lowered(node.kind@) != "tool"@ && lowered(node.kind@) != "llm"@ && lowered(node.kind@)
            != "aggregate"@ ==> node_step(node, outputs, None, false) == Err::<
            NodeStepView,
            ReplyView,
        >(error_view(400, "unknown node kind "@ + node.kind@)),
{
    reveal_strlit("llm");
    reveal_strlit("tool");
    reveal_strlit("aggregate");
    assert("llm"@.len() == 3 && "tool"@.len() == 4 && "aggregate"@.len() == 9);
}

/// A flow that ended well is completed, one that was canceled is called so, and any other is
/// an error.
pub proof fn flows_end_as_they_went(canceled: bool)
    ensures
        flow_status(true, canceled) == "completed"@,
        flow_status(false, true) == "canceled"@,
        flow_status(false, false) == "error"@,
{
}

} // verus!
