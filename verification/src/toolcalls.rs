//! What a model's reply asks for: the tool calls in it, and the text of a
//! completion.
use vstd::prelude::*;
use crate::json::{
    field, json_of_text, json_views, lemma_array_view, lemma_object_view, opt_json, parse_json,
    string_field, string_of as string_value, Json, JsonView,
};
use crate::text::{
    all_white, chars_of, join, joined, last_at, occurs_at, opt_text, rfind, starts, starts_with,
    string_of, strs, surrounding_white_space_is_lost, trim, trim_front_text, trim_start_text,
    trimmed, white,
};

verus! {

broadcast use vstd::string::group_string_axioms;

/// A tool and what it is called with.
#[derive(Debug, PartialEq, Eq)]
pub struct ToolCall {
    pub tool: String,
    pub args: Json,
}

/// What a `ToolCall` holds.
pub struct ToolCallView {
    pub tool: Seq<char>,
    pub args: JsonView,
}

impl View for ToolCall {
    type V = ToolCallView;

    open spec fn view(&self) -> ToolCallView {
        ToolCallView { tool: self.tool@, args: self.args@ }
    }
}

/// What a row of tool calls holds.
pub open spec fn call_views(v: Seq<ToolCall>) -> Seq<ToolCallView> {
    Seq::new(v.len(), |i: int| v[i]@)
}

impl ToolCall {
    /// A copy of the call.
    pub fn duplicate(&self) -> (r: ToolCall)
        ensures
            r@ == self@,
    {
        ToolCall { tool: self.tool.clone(), args: self.args.duplicate() }
    }
}

/// What the model is told of tools.
pub open spec fn system_prompt_lines() -> Seq<Seq<char>> {
    seq![
        "You are a tool-using assistant."@,
        "When you need a tool, reply with ONLY valid JSON."@,
        "Formats:"@,
        "  {\"tool\":\"shell\",\"args\":{\"cmd\":\"ls\"}}"@,
        "  {\"tool_calls\":[{\"tool\":\"fs.read\",\"args\":{\"path\":\"README.md\"}}]}"@,
        "If no tool is needed, reply with a normal answer."@,
    ]
}

/// What the model is told of tools.
pub fn tool_system_prompt() -> (r: String)
    ensures
        r@ == joined(system_prompt_lines(), "\n"@),
{
    let mut lines: Vec<String> = Vec::new();
    lines.push("You are a tool-using assistant.".to_string());
    lines.push("When you need a tool, reply with ONLY valid JSON.".to_string());
    lines.push("Formats:".to_string());
    lines.push("  {\"tool\":\"shell\",\"args\":{\"cmd\":\"ls\"}}".to_string());
    lines.push(
        "  {\"tool_calls\":[{\"tool\":\"fs.read\",\"args\":{\"path\":\"README.md\"}}]}".to_string(),
    );
    lines.push("If no tool is needed, reply with a normal answer.".to_string());
    assert(strs(lines@) =~= system_prompt_lines());
    join(&lines, "\n")
}

// ---------------------------------------------------------------------------
// The JSON in a reply
// ---------------------------------------------------------------------------

/// A text that opens with a code fence and closes it at place `e`, with
/// something in between.
pub open spec fn fenced(t: Seq<char>, e: int) -> bool {
    starts(t, "```"@) && last_at(t, "```"@, e) && e > 3
}

/// What stands between the fences, without the name of the language.
pub open spec fn fence_content(t: Seq<char>, e: int) -> Seq<char> {
    trimmed(trim_front_text(t.subrange(3, e), "json"@))
}

/// The document that a reply holds: what stands in its code fence, or else all
/// of it if it opens like an object or an array.
pub open spec fn document_in(text: Seq<char>) -> Option<Seq<char>> {
    let t = trimmed(text);
    if exists|e: int| fenced(t, e) {
        Some(fence_content(t, choose|e: int| fenced(t, e)))
    } else if starts(t, "{"@) || starts(t, "["@) {
        Some(t)
    } else {
        None
    }
}

/// The value that a reply holds.
pub open spec fn json_in(text: Seq<char>) -> Option<JsonView> {
    match document_in(text) {
        Some(d) => json_of_text(d),
        None => None,
    }
}

/// The document that a reply holds.
pub fn find_document(text: &str) -> (r: Option<String>)
    ensures
        opt_text(r) == document_in(text@),
{
    let t = trim(text);
    let cs = chars_of(t.as_str());
    if starts_with(t.as_str(), "```") {
        if let Some(e) = rfind(&cs, "```") {
            if e > 3 {
                let body = string_of(&cs, 3, e);
                proof {
                    reveal_strlit("json");
                }
                let inner = trim_start_text(body.as_str(), "json");
                let doc = trim(inner.as_str());
                proof {
                    assert(fenced(t@, e as int));
                    let e2 = choose|e2: int| fenced(t@, e2);
                    assert(fenced(t@, e2));
                    assert(e2 == e);
                    assert(body@ =~= t@.subrange(3, e as int));
                }
                return Some(doc);
            }
        }
    }
    proof {
        if exists|e: int| fenced(t@, e) {
            let e2 = choose|e2: int| fenced(t@, e2);
            assert(fenced(t@, e2));
            assert(false);
        }
    }
    if starts_with(t.as_str(), "{") || starts_with(t.as_str(), "[") {
        Some(t)
    } else {
        None
    }
}

/// The value that a reply holds.
pub fn extract_json_value(text: &str) -> (r: Option<Json>)
    ensures
        opt_json(r) == json_in(text@),
{
    match find_document(text) {
        Some(d) => parse_json(d.as_str()),
        None => None,
    }
}

// ---------------------------------------------------------------------------
// Tool calls
// ---------------------------------------------------------------------------

/// The value, or null where there is none.
pub open spec fn or_null(v: Option<JsonView>) -> JsonView {
    match v {
        Some(x) => x,
        None => JsonView::Null,
    }
}

/// The call that an item of a list asks for: its tool goes by `tool`, or by
/// `name` where that is missing.
pub open spec fn item_call(item: JsonView) -> Option<ToolCallView> {
    let named = match field(item, "tool"@) {
        Some(v) => Some(v),
        None => field(item, "name"@),
    };
    match string_value(named) {
        Some(tool) => Some(ToolCallView { tool, args: or_null(field(item, "args"@)) }),
        None => None,
    }
}

/// The calls that the items of a list ask for.
pub open spec fn item_calls(items: Seq<JsonView>) -> Seq<ToolCallView>
    decreases items.len(),
{
    if items.len() == 0 {
        Seq::empty()
    } else {
        let before = item_calls(items.drop_last());
        match item_call(items.last()) {
            Some(c) => before.push(c),
            None => before,
        }
    }
}

/// The calls that a value asks for: one call, a list under `tool_calls`, or a
/// plain list.
pub open spec fn calls_of(v: JsonView) -> Seq<ToolCallView> {
    match v {
        JsonView::Object(_) => match string_field(v, "tool"@) {
            Some(tool) => seq![ToolCallView { tool, args: or_null(field(v, "args"@)) }],
            None => match field(v, "tool_calls"@) {
                Some(JsonView::Array(items)) => item_calls(items),
                _ => Seq::empty(),
            },
        },
        JsonView::Array(items) => item_calls(items),
        _ => Seq::empty(),
    }
}

/// The calls that a reply asks for.
pub open spec fn calls_in(text: Seq<char>) -> Seq<ToolCallView> {
    match json_in(text) {
        Some(v) => calls_of(v),
        None => Seq::empty(),
    }
}

fn args_of(value: &Json) -> (r: Json)
    ensures
        r@ == or_null(field(value@, "args"@)),
{
    match value.get("args") {
        Some(v) => v.duplicate(),
        None => Json::Null,
    }
}

fn call_of_item(item: &Json) -> (r: Option<ToolCall>)
    ensures
        match r {
            Some(c) => item_call(item@) == Some(c@),
            None => item_call(item@) is None,
        },
{
    let named = match item.get("tool") {
        Some(v) => v,
        None => match item.get("name") {
            Some(v) => v,
            None => {
                return None;
            },
        },
    };
    match named.as_str() {
        Some(tool) => Some(ToolCall { tool: tool.clone(), args: args_of(item) }),
        None => None,
    }
}

fn calls_of_items(items: &Vec<Json>) -> (r: Vec<ToolCall>)
    ensures
        call_views(r@) == item_calls(json_views(items@)),
{
    let ghost all = json_views(items@);
    let mut out: Vec<ToolCall> = Vec::new();
    let mut i: usize = 0;
    assert(call_views(out@) =~= item_calls(all.take(0)));
    while i < items.len()
        invariant
            all == json_views(items@),
            i <= items@.len(),
            call_views(out@) == item_calls(all.take(i as int)),
        decreases items@.len() - i,
    {
        assert(all.take(i + 1).drop_last() =~= all.take(i as int));
        assert(all.take(i + 1).last() == items@[i as int]@);
        if let Some(c) = call_of_item(&items[i]) {
            let ghost before = call_views(out@);
            out.push(c);
            assert(call_views(out@) =~= before.push(c@));
        }
        i = i + 1;
    }
    assert(all.take(i as int) =~= all);
    out
}

/// The calls that a value asks for.
pub fn tool_calls_from_value(value: &Json) -> (r: Vec<ToolCall>)
    ensures
        call_views(r@) == calls_of(value@),
{
    let mut out: Vec<ToolCall> = Vec::new();
    assert(call_views(out@) =~= Seq::empty());
    match value {
        Json::Object(o) => {
            proof {
                lemma_object_view(*o);
            }
            if let Some(tool) = value.get_string("tool") {
                out.push(ToolCall { tool, args: args_of(value) });
                assert(call_views(out@) =~= calls_of(value@));
                return out;
            }
            if let Some(Json::Array(items)) = value.get("tool_calls") {
                proof {
                    lemma_array_view(*items);
                }
                return calls_of_items(items);
            }
            out
        },
        Json::Array(items) => {
            proof {
                lemma_array_view(*items);
            }
            calls_of_items(items)
        },
        _ => out,
    }
}

/// The calls that a reply asks for.
pub fn parse_tool_calls(text: &str) -> (r: Vec<ToolCall>)
    ensures
        call_views(r@) == calls_in(text@),
{
    match extract_json_value(text) {
        Some(v) => tool_calls_from_value(&v),
        None => {
            let out: Vec<ToolCall> = Vec::new();
            assert(call_views(out@) =~= Seq::empty());
            out
        },
    }
}

// ---------------------------------------------------------------------------
// Completions
// ---------------------------------------------------------------------------

/// The text of a completion: that of its first choice, be it plain or a
/// message.
pub open spec fn completion_text(v: JsonView) -> Option<Seq<char>> {
    match field(v, "choices"@) {
        Some(JsonView::Array(choices)) => if choices.len() == 0 {
            None
        } else {
            let first = choices[0];
            match string_field(first, "text"@) {
                Some(t) => Some(t),
                None => match field(first, "message"@) {
                    Some(m) => string_field(m, "content"@),
                    None => None,
                },
            }
        },
        _ => None,
    }
}

/// The text of a completion.
pub fn extract_completion_text(value: &Json) -> (r: Option<String>)
    ensures
        opt_text(r) == completion_text(value@),
{
    match value.get("choices") {
        Some(Json::Array(choices)) => {
            proof {
                lemma_array_view(*choices);
            }
            if choices.len() == 0 {
                return None;
            }
            let first = &choices[0];
            match first.get_string("text") {
                Some(t) => Some(t),
                None => match first.get("message") {
                    Some(m) => m.get_string("content"),
                    None => None,
                },
            }
        },
        _ => None,
    }
}

// ---------------------------------------------------------------------------
// What a reply is taken for
// ---------------------------------------------------------------------------

/// A reply that is a code fence holds the document between the fences, with or without
/// the name of the language and whatever white space stands around it.
pub proof fn fences_hold_documents(a: Seq<char>, d: Seq<char>, b: Seq<char>)
    requires
        all_white(a),
        all_white(b),
        a.len() > 0,
        d.len() > 0,
        !white(d[0]) && !white(d.last()),
    ensures
        document_in("```json"@ + a + d + b + "```"@) == Some(d),
        document_in("```"@ + a + d + b + "```"@) == Some(d),
{
    reveal_strlit("```");
    reveal_strlit("```json");
    reveal_strlit("json");
    let fence = "```"@;
    let word = "json"@;
    assert(white(a[0]));
    assert(!white('`'));
    assert("```json"@ =~= fence + word);
    let inner = a + d + b;
    lemma_fence(word + inner);
    assert(fence + (word + inner) + fence =~= "```json"@ + a + d + b + fence);
    lemma_fence(inner);
    assert(fence + inner + fence =~= fence + a + d + b + fence);
    assert((word + inner).skip(word.len() as int) =~= inner);
    assert((word + inner).take(word.len() as int) =~= word);
    assert(inner[0] == a[0]);
    if starts(inner, word) {
        assert(inner.take(4)[0] == word[0]);
        assert(inner[0] == 'j');
    }
    assert(trim_front_text(inner, word) == inner);
    assert(trim_front_text(word + inner, word) == trim_front_text(
        (word + inner).skip(word.len() as int),
        word,
    ));
    surrounding_white_space_is_lost(a, d, b);
}

proof fn lemma_fence(inner: Seq<char>)
    requires
        inner.len() > 0,
    ensures
        document_in("```"@ + inner + "```"@) == Some(trimmed(trim_front_text(inner, "json"@))),
{
    reveal_strlit("```");
    let fence = "```"@;
    let t = fence + inner + fence;
    let none = Seq::<char>::empty();
    assert(!white('`'));
    assert(t[0] == '`' && t.last() == '`');
    surrounding_white_space_is_lost(none, t, none);
    assert(none + t + none =~= t);
    let e = t.len() - 3;
    assert(t.take(3) =~= fence);
    assert(t.subrange(e, e + 3) =~= fence);
    assert(occurs_at(t, fence, e));
    assert(fenced(t, e));
    let c = choose|c: int| fenced(t, c);
    assert(fenced(t, c));
    assert(c == e) by {
        assert(occurs_at(t, fence, c));
        if c < e {
            assert(!occurs_at(t, fence, e));
        }
    }
    assert(t.subrange(3, e) =~= inner);
}

/// A reply that opens with a brace or a bracket is a document as it stands, without the
/// white space around it; any other reply without a fence is none.
pub proof fn bare_documents_are_taken_whole(text: Seq<char>)
    requires
        !starts(trimmed(text), "```"@),
    ensures
        match document_in(text) {
            Some(d) => d == trimmed(text) && d.len() > 0 && (d[0] == '{' || d[0] == '['),
            None => trimmed(text).len() == 0 || trimmed(text)[0] != '{' && trimmed(text)[0] != '[',
        },
{
    reveal_strlit("{");
    reveal_strlit("[");
    let t = trimmed(text);
    assert(forall|e: int| !fenced(t, e));
    if t.len() > 0 {
        assert(t.take(1)[0] == t[0]);
        assert(t[0] == '{' ==> t.take(1) =~= "{"@);
        assert(t[0] == '[' ==> t.take(1) =~= "["@);
    }
}

/// An item of a list asks for the tool under `tool`, or under `name` where there is no
/// `tool`, with what stands under `args`, null where nothing does. An item without
/// such a name asks for nothing.
pub proof fn items_ask_for_tools(item: JsonView)
    ensures
        match (field(item, "tool"@), field(item, "name"@)) {
            (Some(JsonView::Str(t)), _) => item_call(item) is Some && item_call(item)->Some_0.tool
                == t,
            (None, Some(JsonView::Str(t))) => item_call(item) is Some && item_call(
                item,
            )->Some_0.tool == t,
            _ => item_call(item) is None,
        },
        item_call(item) is Some ==> match field(item, "args"@) {
            Some(args) => item_call(item)->Some_0.args == args,
            None => item_call(item)->Some_0.args == JsonView::Null,
        },
{
}

/// The calls of a list are taken in order, each item by itself; items that ask for
/// nothing are passed over.
pub proof fn items_are_taken_in_order(a: Seq<JsonView>, item: JsonView, b: Seq<JsonView>)
    ensures
        item_calls(a + seq![item] + b) == item_calls(a) + match item_call(item) {
            Some(c) => seq![c],
            None => Seq::empty(),
        } + item_calls(b),
    decreases b.len(),
{
    let all = a + seq![item] + b;
    if b.len() == 0 {
        assert(all.drop_last() =~= a);
        assert(all.last() == item);
        assert(item_calls(all) =~= item_calls(a) + match item_call(item) {
            Some(c) => seq![c],
            None => Seq::empty(),
        } + item_calls(b));
    } else {
        items_are_taken_in_order(a, item, b.drop_last());
        assert(all.drop_last() =~= a + seq![item] + b.drop_last());
        assert(all.last() == b.last());
        assert(item_calls(all) =~= item_calls(a) + match item_call(item) {
            Some(c) => seq![c],
            None => Seq::empty(),
        } + item_calls(b));
    }
}

/// A reply asks for one tool by its name, for the tools of a list under `tool_calls`, or
/// for those of a list; anything else asks for none.
pub proof fn replies_ask_for_tools(v: JsonView)
    ensures
        match v {
            JsonView::Object(_) => match (field(v, "tool"@), field(v, "tool_calls"@)) {
                (Some(JsonView::Str(t)), _) => {
                    &&& calls_of(v).len() == 1
                    &&& calls_of(v)[0].tool == t
                    &&& match field(v, "args"@) {
                        Some(args) => calls_of(v)[0].args == args,
                        None => calls_of(v)[0].args == JsonView::Null,
                    }
                },
                (_, Some(JsonView::Array(items))) => calls_of(v) == item_calls(items),
                _ => calls_of(v).len() == 0,
            },
            JsonView::Array(items) => calls_of(v) == item_calls(items),
            _ => calls_of(v).len() == 0,
        },
{
}

/// A completion says what its first choice says: its text, or the content of its message
/// where there is no text.
pub proof fn the_first_choice_is_the_answer(v: JsonView, choices: Seq<JsonView>)
    requires
        field(v, "choices"@) == Some(JsonView::Array(choices)),
    ensures
        choices.len() == 0 ==> completion_text(v) is None,
        choices.len() > 0 ==> match (field(choices[0], "text"@), field(choices[0], "message"@)) {
            (Some(JsonView::Str(t)), _) => completion_text(v) == Some(t),
            (_, Some(m)) => match field(m, "content"@) {
                Some(JsonView::Str(t)) => completion_text(v) == Some(t),
                _ => completion_text(v) is None,
            },
            _ => completion_text(v) is None,
        },
{
}

/// The calls of a reply are those of the value that its document is read as; a reply without
/// a document asks for nothing.
pub proof fn replies_are_read_by_their_document(text: Seq<char>)
    ensures
        match document_in(text) {
            Some(d) => match json_of_text(d) {
                Some(v) => calls_in(text) == calls_of(v),
                None => calls_in(text).len() == 0,
            },
            None => calls_in(text).len() == 0,
        },
{
}

/// A row of calls is seen in its order, each by its tool and its arguments.
pub proof fn calls_are_seen_in_order(v: Seq<ToolCall>, i: int)
    requires
        0 <= i < v.len(),
    ensures
        call_views(v).len() == v.len(),
        call_views(v)[i].tool == v[i].tool@,
        call_views(v)[i].args == v[i].args@,
{
}

} // verus!
