//! The client's own loop with a model: what it is told, what is sent, and what
//! is made of the answers.
use vstd::prelude::*;
use crate::agent::result_message;
use crate::json::{
    copy_json, field, has_members, json_of_text, json_str, json_strs, json_text, json_to_text,
    json_to_value, json_uint, lemma_object_view, lemma_says, lemma_with_member, member_views, object1,
    object2, opt_json, parse_json, put_member, says, string_field, with_member, Json, JsonView,
};
use crate::messages::{chat_views, lemma_chat_push, ChatMessage, ChatView};
use crate::provider::{
    json_messages, json_or_raw, messages_json, outcome_text, text_result, HttpOutcome,
};
use crate::text::{
    all_white, ascii_lower, ascii_lower_char, blank, blank_texts_are_white, chars_of, decimal,
    is_blank, is_one_of, join, joined, nat_to_string, numerals_are_read_back, one_of, opt_str,
    opt_text, parse_nat, parsed_nat, push_text, same, strs, trim, trimmed, white,
};
use crate::toolcalls::{
    call_views, calls_in, completion_text, extract_completion_text, parse_tool_calls, ToolCall,
    ToolCallView,
};

verus! {

broadcast use vstd::string::group_string_axioms;

// ---------------------------------------------------------------------------
// What the model is told
// ---------------------------------------------------------------------------

/// What the model is told of the machine and its tools.
pub open spec fn inline_prompt_lines(cwd: Seq<char>, commands: Seq<char>) -> Seq<Seq<char>> {
    seq![
        "You are `ai`, an agentic coding assistant running on the local machine."@,
        "You have direct tool access. Do not claim filesystem/shell access is unavailable."@,
        ""@,
        "Preferred strategy:"@,
        "- Use `shell` for search/build/test/run workflows (rg, git, python3, cargo, etc.)."@,
        "- Use `fs.read` / `fs.write` / `fs.list` for precise file operations."@,
        "- Handle failures by inspecting stderr and iterating."@,
        ""@,
        "Execution model:"@,
        "- The shell tool runs non-interactive commands."@,
        "- Default shell cwd is carried between tool calls. Current cwd:"@,
        "  "@ + cwd,
        "- Installed command hints:"@,
        "  "@ + commands,
        ""@,
        "Response contract:"@,
        "- If another tool action is needed, respond with ONLY valid JSON."@,
        "- JSON formats:"@,
        "  {\"tool\":\"shell\",\"args\":{\"cmd\":\"rg -n \\\"foo\\\" .\"}}"@,
        "  {\"tool_calls\":[{\"tool\":\"fs.read\",\"args\":{\"path\":\"README.md\"}}]}"@,
        "- If task is complete, provide a normal final answer for the user (not JSON)."@,
        ""@,
        "Tool args:"@,
        "- shell: {\"cmd\":\"...\",\"cwd\":\"optional\",\"env\":{\"K\":\"V\"}}"@,
        "- fs.read: {\"path\":\"...\",\"max_bytes\":optional}"@,
        "- fs.write: {\"path\":\"...\",\"content\":\"...\",\"append\":false,\"create_dirs\":true}"@,
        "- fs.list: {\"path\":\"...\"}"@,
        "- mcp.list_tools / mcp.web_search are also available through the daemon."@,
    ]
}

/// The commands that are at hand, as the model is told of them.
pub open spec fn command_hints(commands: Seq<Seq<char>>) -> Seq<char> {
    if commands.len() == 0 {
        "<none detected>"@
    } else {
        joined(commands, ", "@)
    }
}

fn indent(text: &str) -> (r: String)
    ensures
        r@ == "  "@ + text@,
{
    let mut s = "  ".to_string();
    push_text(&mut s, text);
    s
}

/// What the model is told of the machine and its tools.
pub fn inline_agent_system_prompt(cwd: &str, commands: &Vec<String>) -> (r: String)
    ensures
        r@ == joined(inline_prompt_lines(cwd@, command_hints(strs(commands@))), "\n"@),
{
    let command_list = if commands.len() == 0 {
        "<none detected>".to_string()
    } else {
        join(commands, ", ")
    };
    let mut v: Vec<String> = Vec::new();
    v.push("You are `ai`, an agentic coding assistant running on the local machine.".to_string());
    v.push(
        "You have direct tool access. Do not claim filesystem/shell access is unavailable.".to_string(),
    );
    v.push("".to_string());
    v.push("Preferred strategy:".to_string());
    v.push(
        "- Use `shell` for search/build/test/run workflows (rg, git, python3, cargo, etc.).".to_string(),
    );
    v.push("- Use `fs.read` / `fs.write` / `fs.list` for precise file operations.".to_string());
    v.push("- Handle failures by inspecting stderr and iterating.".to_string());
    v.push("".to_string());
    v.push("Execution model:".to_string());
    v.push("- The shell tool runs non-interactive commands.".to_string());
    v.push("- Default shell cwd is carried between tool calls. Current cwd:".to_string());
    v.push(indent(cwd));
    v.push("- Installed command hints:".to_string());
    v.push(indent(command_list.as_str()));
    v.push("".to_string());
    v.push("Response contract:".to_string());
    v.push("- If another tool action is needed, respond with ONLY valid JSON.".to_string());
    v.push("- JSON formats:".to_string());
    v.push("  {\"tool\":\"shell\",\"args\":{\"cmd\":\"rg -n \\\"foo\\\" .\"}}".to_string());
    v.push(
        "  {\"tool_calls\":[{\"tool\":\"fs.read\",\"args\":{\"path\":\"README.md\"}}]}".to_string(),
    );
    v.push(
        "- If task is complete, provide a normal final answer for the user (not JSON).".to_string(),
    );
    v.push("".to_string());
    v.push("Tool args:".to_string());
    v.push("- shell: {\"cmd\":\"...\",\"cwd\":\"optional\",\"env\":{\"K\":\"V\"}}".to_string());
    v.push("- fs.read: {\"path\":\"...\",\"max_bytes\":optional}".to_string());
    v.push(
        "- fs.write: {\"path\":\"...\",\"content\":\"...\",\"append\":false,\"create_dirs\":true}".to_string(),
    );
    v.push("- fs.list: {\"path\":\"...\"}".to_string());
    v.push("- mcp.list_tools / mcp.web_search are also available through the daemon.".to_string());
    assert(strs(v@) =~= inline_prompt_lines(cwd@, command_hints(strs(commands@))));
    join(&v, "\n")
}

/// The tool calls that a reply asks for.
pub fn parse_inline_tool_calls(text: &str) -> (r: Vec<ToolCall>)
    ensures
        call_views(r@) == calls_in(text@),
{
    parse_tool_calls(text)
}

// ---------------------------------------------------------------------------
// Settings
// ---------------------------------------------------------------------------

/// How many steps the loop may take: ten where nothing usable is said, and
/// between one and forty in any case.
pub open spec fn step_bound(setting: Option<Seq<char>>) -> u32 {
    match setting {
        None => 10,
        Some(s) => match parsed_nat(s, u32::MAX as nat) {
            None => 10,
            Some(n) => if n < 1 {
                1
            } else if n > 40 {
                40
            } else {
                n as u32
            },
        },
    }
}

/// How many steps the loop may take.
pub fn inline_max_steps(setting: Option<&str>) -> (r: u32)
    ensures
        r == step_bound(opt_str(setting)),
        1 <= r <= 40,
{
    match setting {
        None => 10,
        Some(s) => match parse_nat(s, 0xffff_ffffu64) {
            None => 10,
            Some(n) => if n < 1 {
                1
            } else if n > 40 {
                40
            } else {
                n as u32
            },
        },
    }
}

/// The words that switch something on.
pub open spec fn on_words() -> Seq<&'static str> {
    seq!["1", "true", "yes", "on"]
}

/// A setting that switches something on.
pub open spec fn switched_on(setting: Option<Seq<char>>) -> bool {
    match setting {
        None => false,
        Some(s) => one_of(ascii_lower(trimmed(s)), on_words()),
    }
}

/// Whether a setting switches something on.
pub fn env_flag_enabled(setting: Option<&str>) -> (r: bool)
    ensures
        r == switched_on(opt_str(setting)),
{
    match setting {
        None => false,
        Some(s) => {
            let t = trim(s);
            let word = ascii_lowercase(t.as_str());
            let words: [&'static str; 4] = ["1", "true", "yes", "on"];
            assert(words@ =~= on_words());
            is_one_of(word.as_str(), words.as_slice())
        },
    }
}

fn lower_char(c: char) -> (r: char)
    ensures
        r == ascii_lower_char(c),
{
    if 'A' <= c && c <= 'Z' {
        let n: u8 = c as u8;
        (n + 32) as char
    } else {
        c
    }
}

fn ascii_lowercase(s: &str) -> (r: String)
    ensures
        r@ == ascii_lower(s@),
{
    let cs = chars_of(s);
    let mut out = String::new();
    let mut i: usize = 0;
    while i < cs.len()
        invariant
            cs@ == s@,
            i <= cs@.len(),
            out@.len() == i,
            forall|k: int| 0 <= k < i ==> #[trigger] out@[k] == ascii_lower_char(cs@[k]),
        decreases cs@.len() - i,
    {
        let ghost before = out@;
        out.push(lower_char(cs[i]));
        assert(out@ =~= before.push(ascii_lower_char(cs@[i as int])));
        i = i + 1;
    }
    assert(out@ =~= ascii_lower(s@));
    out
}

/// The session that a request belongs to: its name without white space around
/// it, where anything is left of it.
pub fn current_session(setting: Option<&str>) -> (r: Option<String>)
    ensures
        opt_text(r) == (match opt_str(setting) {
            Some(s) => if blank(s) {
                None
            } else {
                Some(trimmed(s))
            },
            None => None,
        }),
{
    match setting {
        Some(s) => {
            let t = trim(s);
            if t.as_str().is_empty() {
                None
            } else {
                Some(t)
            }
        },
        None => None,
    }
}

/// The prompt of a command line: its words, or what was read where it has none.
pub open spec fn prompt_of(words: Seq<Seq<char>>, stdin: Seq<char>) -> Result<
    Seq<char>,
    Seq<char>,
> {
    let prompt = if words.len() == 0 {
        stdin
    } else {
        joined(words, " "@)
    };
    if blank(prompt) {
        Err("prompt is empty"@)
    } else {
        Ok(prompt)
    }
}

/// The prompt of a command line: its words, or what was read where it has none.
pub fn choose_prompt(words: &Vec<String>, stdin: &str) -> (r: Result<String, String>)
    ensures
        text_result(r) == prompt_of(strs(words@), stdin@),
{
    let prompt = if words.len() == 0 {
        stdin.to_string()
    } else {
        join(words, " ")
    };
    if is_blank(prompt.as_str()) {
        Err("prompt is empty".to_string())
    } else {
        Ok(prompt)
    }
}

// ---------------------------------------------------------------------------
// What is sent
// ---------------------------------------------------------------------------

/// What the command line says of a completion. The two fractions are given as
/// JSON numbers.
#[derive(Debug)]
pub struct CompletionOverrides {
    pub provider: Option<String>,
    pub model: Option<String>,
    pub max_tokens: Option<u32>,
    pub temperature: Option<Json>,
    pub top_p: Option<Json>,
    pub stop: Vec<String>,
}

/// What `CompletionOverrides` hold.
pub struct OverridesView {
    pub provider: Option<Seq<char>>,
    pub model: Option<Seq<char>>,
    pub max_tokens: Option<u32>,
    pub temperature: Option<JsonView>,
    pub top_p: Option<JsonView>,
    pub stop: Seq<Seq<char>>,
}

impl View for CompletionOverrides {
    type V = OverridesView;

    open spec fn view(&self) -> OverridesView {
        OverridesView {
            provider: opt_text(self.provider),
            model: opt_text(self.model),
            max_tokens: self.max_tokens,
            temperature: opt_json(self.temperature),
            top_p: opt_json(self.top_p),
            stop: strs(self.stop@),
        }
    }
}

/// A string, where there is a text.
pub open spec fn str_json(s: Option<Seq<char>>) -> Option<JsonView> {
    match s {
        Some(t) => Some(JsonView::Str(t)),
        None => None,
    }
}

/// A body with what the command line says of a completion, and with the session
/// that it belongs to.
pub open spec fn with_overrides(
    base: Seq<(Seq<char>, JsonView)>,
    opts: OverridesView,
    session_id: Option<Seq<char>>,
) -> JsonView {
    let s0 = with_member(base, "session_id"@, str_json(session_id));
    let s1 = with_member(
        s0,
        "context_mode"@,
        match session_id {
            Some(_) => Some(JsonView::Str("diagnostic"@)),
            None => None,
        },
    );
    let s2 = with_member(s1, "provider"@, str_json(opts.provider));
    let s3 = with_member(s2, "model"@, str_json(opts.model));
    let s4 = with_member(
        s3,
        "max_tokens"@,
        match opts.max_tokens {
            Some(n) => Some(JsonView::Unsigned(n as u64)),
            None => None,
        },
    );
    let s5 = with_member(s4, "temperature"@, opts.temperature);
    let s6 = with_member(s5, "top_p"@, opts.top_p);
    let s7 = with_member(
        s6,
        "stop"@,
        if opts.stop.len() == 0 {
            None
        } else {
            Some(JsonView::Array(opts.stop.map_values(|t: Seq<char>| JsonView::Str(t))))
        },
    );
    JsonView::Object(s7)
}

fn opt_member(s: &Option<String>) -> (r: Option<Json>)
    ensures
        opt_json(r) == str_json(opt_text(*s)),
{
    match s {
        Some(t) => Some(json_str(t.as_str())),
        None => None,
    }
}

fn write_overrides(
    key: &str,
    value: Json,
    opts: &CompletionOverrides,
    session_id: Option<&str>,
) -> (r: Json)
    ensures
        r@ == with_overrides(seq![(key@, value@)], opts@, opt_str(session_id)),
{
    let ghost first = value@;
    let mut members: Vec<(String, Json)> = Vec::new();
    members.push((key.to_string(), value));
    assert(member_views(members@) =~= seq![(key@, first)]);
    let (session, mode) = match session_id {
        Some(s) => (Some(json_str(s)), Some(json_str("diagnostic"))),
        None => (None, None),
    };
    put_member(&mut members, "session_id", session);
    put_member(&mut members, "context_mode", mode);
    put_member(&mut members, "provider", opt_member(&opts.provider));
    put_member(&mut members, "model", opt_member(&opts.model));
    let tokens = match opts.max_tokens {
        Some(n) => Some(json_uint(n as u64)),
        None => None,
    };
    put_member(&mut members, "max_tokens", tokens);
    put_member(&mut members, "temperature", copy_json(&opts.temperature));
    put_member(&mut members, "top_p", copy_json(&opts.top_p));
    let stop = if opts.stop.len() == 0 {
        None
    } else {
        Some(json_strs(&opts.stop))
    };
    put_member(&mut members, "stop", stop);
    proof {
        lemma_object_view(members);
    }
    Json::Object(members)
}

/// The body that sends a conversation.
pub fn build_chat_completion_body(
    messages: &Vec<ChatMessage>,
    opts: &CompletionOverrides,
    session_id: Option<&str>,
) -> (r: Json)
    ensures
        r@ == with_overrides(
            seq![("messages"@, messages_json(chat_views(messages@)))],
            opts@,
            opt_str(session_id),
        ),
{
    write_overrides("messages", json_messages(messages), opts, session_id)
}

/// The body that sends a single prompt.
pub fn build_prompt_body(prompt: &str, opts: &CompletionOverrides, session_id: Option<&str>) -> (r:
    Json)
    ensures
        r@ == with_overrides(
            seq![("prompt"@, JsonView::Str(prompt@))],
            opts@,
            opt_str(session_id),
        ),
{
    write_overrides("prompt", json_str(prompt), opts, session_id)
}

/// The same body with the wish for a stream.
pub fn with_stream(body: Json) -> (r: Json)
    ensures
        match body@ {
            JsonView::Object(o) => r@ == JsonView::Object(o.push(("stream"@, JsonView::Bool(true)))),
            _ => r == body,
        },
{
    match body {
        Json::Object(members) => {
            proof {
                lemma_object_view(members);
            }
            let ghost before = member_views(members@);
            let mut out = members;
            out.push(("stream".to_string(), Json::Bool(true)));
            proof {
                lemma_object_view(out);
                assert(member_views(out@) =~= before.push(("stream"@, JsonView::Bool(true))));
            }
            Json::Object(out)
        },
        other => other,
    }
}

/// The body that asks the daemon to run a tool.
pub open spec fn daemon_call(args: JsonView, session_id: Option<Seq<char>>) -> JsonView {
    JsonView::Object(
        with_member(
            seq![
                ("args"@, args),
                ("approved"@, JsonView::Bool(true)),
                ("approval_reason"@, JsonView::Str("inline ai tool loop"@)),
            ],
            "session_id"@,
            str_json(session_id),
        ),
    )
}

/// The body that asks the daemon to run a tool.
pub fn call_daemon_tool(args: &Json, session_id: Option<&str>) -> (r: Json)
    ensures
        r@ == daemon_call(args@, opt_str(session_id)),
{
    let mut members: Vec<(String, Json)> = Vec::new();
    members.push(("args".to_string(), args.duplicate()));
    members.push(("approved".to_string(), Json::Bool(true)));
    members.push(("approval_reason".to_string(), json_str("inline ai tool loop")));
    assert(member_views(members@) =~= seq![
        ("args"@, args@),
        ("approved"@, JsonView::Bool(true)),
        ("approval_reason"@, JsonView::Str("inline ai tool loop"@)),
    ]);
    let session = match session_id {
        Some(s) => Some(json_str(s)),
        None => None,
    };
    put_member(&mut members, "session_id", session);
    proof {
        lemma_object_view(members);
    }
    Json::Object(members)
}

// ---------------------------------------------------------------------------
// What is made of the answers
// ---------------------------------------------------------------------------

/// What an answer comes to, given its document as it was read, and how the two
/// ways to fail are worded.
pub open spec fn value_or_error(
    outcome: HttpOutcome,
    parsed: Option<JsonView>,
    refused: Seq<char>,
    middle: Seq<char>,
    failed: Seq<char>,
) -> Result<JsonView, Seq<char>> {
    match outcome {
        HttpOutcome::Answered(text) => Ok(json_or_raw(parsed, text@)),
        HttpOutcome::Refused(status, text) => Err(
            refused + decimal(status as nat) + middle + json_text(json_or_raw(parsed, text@)),
        ),
        HttpOutcome::Failed(message) => Err(failed + message@),
    }
}

/// A value, or what went wrong, by its views.
pub open spec fn value_result(r: Result<Json, String>) -> Result<JsonView, Seq<char>> {
    match r {
        Ok(v) => Ok(v@),
        Err(e) => Err(e@),
    }
}

fn raw_or(parsed: Option<Json>, text: String) -> (r: Json)
    ensures
        r@ == json_or_raw(opt_json(parsed), text@),
{
    match parsed {
        Some(v) => v,
        None => object1("raw", Json::Str(text)),
    }
}

fn settle(
    outcome: HttpOutcome,
    parsed: Option<Json>,
    refused: &str,
    middle: &str,
    failed: &str,
) -> (r: Result<Json, String>)
    ensures
        value_result(r) == value_or_error(outcome, opt_json(parsed), refused@, middle@, failed@),
{
    match outcome {
        HttpOutcome::Answered(text) => Ok(raw_or(parsed, text)),
        HttpOutcome::Refused(status, text) => {
            let value = raw_or(parsed, text);
            let mut out = refused.to_string();
            let code = nat_to_string(status as u128);
            push_text(&mut out, code.as_str());
            push_text(&mut out, middle);
            let shown = json_to_text(&value);
            push_text(&mut out, shown.as_str());
            Err(out)
        },
        HttpOutcome::Failed(message) => {
            let mut out = failed.to_string();
            push_text(&mut out, message.as_str());
            Err(out)
        },
    }
}

fn read_outcome(outcome: &HttpOutcome) -> (r: Option<Json>)
    ensures
        opt_json(r) == json_of_text(outcome_text(*outcome)),
{
    match outcome {
        HttpOutcome::Answered(text) => parse_json(text.as_str()),
        HttpOutcome::Refused(_, text) => parse_json(text.as_str()),
        HttpOutcome::Failed(text) => parse_json(text.as_str()),
    }
}

/// What a call for a completion comes to, with the document of its answer read.
pub open spec fn completion_value_with(outcome: HttpOutcome, parsed: Option<JsonView>) -> Result<
    JsonView,
    Seq<char>,
> {
    value_or_error(
        outcome,
        parsed,
        "completion request failed with status "@,
        ": "@,
        "failed to call aishd /v1/completions: "@,
    )
}

/// What a call for a completion comes to, with the document of its answer read.
pub fn settle_completion(outcome: HttpOutcome, parsed: Option<Json>) -> (r: Result<Json, String>)
    ensures
        value_result(r) == completion_value_with(outcome, opt_json(parsed)),
{
    settle(
        outcome,
        parsed,
        "completion request failed with status ",
        ": ",
        "failed to call aishd /v1/completions: ",
    )
}

/// What a call for a completion comes to.
pub fn call_completion_json(outcome: HttpOutcome) -> (r: Result<Json, String>)
    ensures
        value_result(r) == completion_value_with(outcome, json_of_text(outcome_text(outcome))),
{
    let parsed = read_outcome(&outcome);
    settle_completion(outcome, parsed)
}

/// What the daemon's run of a tool comes to: the result in its answer, or the
/// whole answer where there is none.
pub open spec fn tool_value_with(outcome: HttpOutcome, parsed: Option<JsonView>) -> Result<
    JsonView,
    Seq<char>,
> {
    match value_or_error(
        outcome,
        parsed,
        "daemon tool call failed ("@,
        "): "@,
        "daemon tool call error: "@,
    ) {
        Ok(v) => match field(v, "result"@) {
            Some(x) => Ok(x),
            None => Ok(v),
        },
        Err(e) => Err(e),
    }
}

/// What the daemon's run of a tool comes to, with the document of its answer
/// read.
pub fn settle_daemon_tool(outcome: HttpOutcome, parsed: Option<Json>) -> (r: Result<Json, String>)
    ensures
        value_result(r) == tool_value_with(outcome, opt_json(parsed)),
{
    match settle(
        outcome,
        parsed,
        "daemon tool call failed (",
        "): ",
        "daemon tool call error: ",
    ) {
        Ok(v) => {
            let inner = match v.get("result") {
                Some(x) => Some(x.duplicate()),
                None => None,
            };
            match inner {
                Some(x) => Ok(x),
                None => Ok(v),
            }
        },
        Err(e) => Err(e),
    }
}

/// What the daemon's run of a tool comes to.
pub fn daemon_tool_result(outcome: HttpOutcome) -> (r: Result<Json, String>)
    ensures
        value_result(r) == tool_value_with(outcome, json_of_text(outcome_text(outcome))),
{
    let parsed = read_outcome(&outcome);
    settle_daemon_tool(outcome, parsed)
}

/// The indented document that `serde_json` writes for a value.
pub uninterp spec fn pretty_text(v: JsonView) -> Seq<char>;

/// `serde_json::to_string_pretty` on a value. What it writes depends on the value
/// alone and is named, not spelled out; a JSON value can always be written.
#[verifier::external_body]
fn json_to_pretty(value: &Json) -> (r: String)
    ensures
        r@ == pretty_text(value@),
{
    serde_json::to_string_pretty(&json_to_value(value)).unwrap_or_default()
}

/// What the user sees of an answer: its text, or the whole document.
pub open spec fn visible(v: JsonView) -> Seq<char> {
    match completion_text(v) {
        Some(t) => t,
        None => pretty_text(v),
    }
}

/// What the user sees of an answer, with its document read.
pub fn show_completion(text: String, parsed: Option<Json>) -> (r: String)
    ensures
        r@ == visible(json_or_raw(opt_json(parsed), text@)),
{
    let value = raw_or(parsed, text);
    match extract_completion_text(&value) {
        Some(t) => t,
        None => json_to_pretty(&value),
    }
}

/// What the user sees of an answer.
pub fn single_completion_output(text: String) -> (r: String)
    ensures
        r@ == visible(json_or_raw(json_of_text(text@), text@)),
{
    let parsed = parse_json(text.as_str());
    show_completion(text, parsed)
}

// ---------------------------------------------------------------------------
// The loop
// ---------------------------------------------------------------------------

/// Where the loop stands.
#[derive(Debug)]
pub struct InlineRun {
    pub messages: Vec<ChatMessage>,
    pub step: u32,
}

/// What an `InlineRun` holds.
pub struct InlineView {
    pub messages: Seq<ChatView>,
    pub step: u32,
}

impl View for InlineRun {
    type V = InlineView;

    open spec fn view(&self) -> InlineView {
        InlineView { messages: chat_views(self.messages@), step: self.step }
    }
}

/// What is to be done next: ask the model, run tools, or stop with an answer or
/// an error.
#[derive(Debug, PartialEq, Eq)]
pub enum InlineAction {
    AskModel,
    RunTools(Vec<ToolCall>),
    Finished(String),
    Failed(&'static str),
}

/// What an `InlineAction` holds.
pub enum InlineActionView {
    AskModel,
    RunTools(Seq<ToolCallView>),
    Finished(Seq<char>),
    Failed(Seq<char>),
}

impl View for InlineAction {
    type V = InlineActionView;

    open spec fn view(&self) -> InlineActionView {
        match self {
            InlineAction::AskModel => InlineActionView::AskModel,
            InlineAction::RunTools(c) => InlineActionView::RunTools(call_views(c@)),
            InlineAction::Finished(t) => InlineActionView::Finished(t@),
            InlineAction::Failed(e) => InlineActionView::Failed(e@),
        }
    }
}

/// What the loop says when it ends without an answer.
pub open spec fn no_answer() -> Seq<char> {
    "max agentic steps reached without final answer"@
}

/// What the model said: the text of the completion, else the raw text of the
/// answer, else its document.
pub open spec fn assistant_text(response: JsonView) -> Seq<char> {
    match completion_text(response) {
        Some(t) => t,
        None => match string_field(response, "raw"@) {
            Some(t) => t,
            None => json_text(response),
        },
    }
}

/// What the model said.
pub fn read_assistant(response: &Json) -> (r: String)
    ensures
        r@ == assistant_text(response@),
{
    match extract_completion_text(response) {
        Some(t) => t,
        None => match response.get_string("raw") {
            Some(t) => t,
            None => json_to_text(response),
        },
    }
}

/// What is to be done about what the model said, given the tool calls in it. An
/// answer ends the loop; an empty one is none.
pub open spec fn after_assistant(text: Seq<char>, calls: Seq<ToolCallView>) -> InlineActionView {
    if calls.len() > 0 {
        InlineActionView::RunTools(calls)
    } else if text.len() > 0 {
        InlineActionView::Finished(text)
    } else {
        InlineActionView::Failed(no_answer())
    }
}

/// What the model is told of a tool's outcome.
pub open spec fn outcome_view(result: Result<JsonView, Seq<char>>) -> JsonView {
    match result {
        Ok(v) => v,
        Err(e) => JsonView::Object(
            seq![("success"@, JsonView::Bool(false)), ("error"@, JsonView::Str(e))],
        ),
    }
}

impl InlineRun {
    /// Takes up a prompt.
    pub fn start(system: &str, prompt: &str) -> (r: InlineRun)
        ensures
            r@.messages == seq![
                ChatView { role: "system"@, content: system@ },
                ChatView { role: "user"@, content: prompt@ },
            ],
            r@.step == 0,
    {
        let mut messages: Vec<ChatMessage> = Vec::new();
        messages.push(ChatMessage::new("system", system));
        messages.push(ChatMessage::new("user", prompt));
        let r = InlineRun { messages, step: 0 };
        assert(r@.messages =~= seq![
            ChatView { role: "system"@, content: system@ },
            ChatView { role: "user"@, content: prompt@ },
        ]);
        r
    }

    /// Goes on to the next step, while there is one left.
    pub fn proceed(&mut self, max_steps: u32) -> (r: InlineAction)
        ensures
            final(self)@.messages == old(self)@.messages,
            if old(self)@.step < max_steps {
                r@ == InlineActionView::AskModel && final(self)@.step == old(self)@.step + 1
            } else {
                r@ == InlineActionView::Failed(no_answer()) && final(self)@.step
                    == old(self)@.step
            },
    {
        if self.step < max_steps {
            self.step = self.step + 1;
            InlineAction::AskModel
        } else {
            InlineAction::Failed("max agentic steps reached without final answer")
        }
    }

    /// What the user is told while the model is asked.
    pub fn planning_status(&self, max_steps: u32) -> (r: String)
        ensures
            r@ == "Planning next step ("@ + decimal(self@.step as nat) + "/"@ + decimal(
                max_steps as nat,
            ) + ")..."@,
    {
        let mut s = "Planning next step (".to_string();
        let a = nat_to_string(self.step as u128);
        push_text(&mut s, a.as_str());
        push_text(&mut s, "/");
        let b = nat_to_string(max_steps as u128);
        push_text(&mut s, b.as_str());
        push_text(&mut s, ")...");
        s
    }

    /// The body of the next question. Only the first one names the session.
    pub fn question(&self, opts: &CompletionOverrides, session_id: Option<&str>) -> (r: Json)
        ensures
            r@ == with_overrides(
                seq![("messages"@, messages_json(self@.messages))],
                opts@,
                if self@.step == 1 {
                    opt_str(session_id)
                } else {
                    None
                },
            ),
    {
        let session = if self.step == 1 {
            session_id
        } else {
            None
        };
        build_chat_completion_body(&self.messages, opts, session)
    }

    /// Takes what the model said, given the tool calls in it.
    pub fn on_calls(&mut self, text: String, calls: Vec<ToolCall>) -> (r: InlineAction)
        ensures
            r@ == after_assistant(text@, call_views(calls@)),
            final(self)@.messages == old(self)@.messages.push(
                ChatView { role: "assistant"@, content: text@ },
            ),
            final(self)@.step == old(self)@.step,
    {
        let ghost before = self.messages@;
        let m = ChatMessage::new("assistant", text.as_str());
        proof {
            lemma_chat_push(before, m);
            assert(call_views(calls@).len() == calls@.len());
        }
        self.messages.push(m);
        if calls.len() > 0 {
            InlineAction::RunTools(calls)
        } else if !text.as_str().is_empty() {
            InlineAction::Finished(text)
        } else {
            InlineAction::Failed("max agentic steps reached without final answer")
        }
    }

    /// Takes the model's answer.
    pub fn on_response(&mut self, response: &Json) -> (r: InlineAction)
        ensures
            r@ == after_assistant(
                assistant_text(response@),
                calls_in(assistant_text(response@)),
            ),
            final(self)@.messages == old(self)@.messages.push(
                ChatView { role: "assistant"@, content: assistant_text(response@) },
            ),
            final(self)@.step == old(self)@.step,
    {
        let text = read_assistant(response);
        let calls = parse_inline_tool_calls(text.as_str());
        self.on_calls(text, calls)
    }

    /// Takes the outcome of a tool; a failure is told to the model as well.
    pub fn on_tool(&mut self, tool: &str, result: Result<Json, String>)
        ensures
            final(self)@.messages == old(self)@.messages.push(
                result_message(tool@, outcome_view(value_result(result))),
            ),
            final(self)@.step == old(self)@.step,
    {
        let value = match result {
            Ok(v) => v,
            Err(e) => object2("success", Json::Bool(false), "error", Json::Str(e)),
        };
        let mut content = "Tool result for ".to_string();
        push_text(&mut content, tool);
        push_text(&mut content, ":\n");
        let shown = json_to_text(&value);
        push_text(&mut content, shown.as_str());
        let ghost before = self.messages@;
        let m = ChatMessage::new("user", content.as_str());
        proof {
            lemma_chat_push(before, m);
        }
        self.messages.push(m);
    }
}

/// What the client does about a tool call: it runs the tool itself, lets the
/// daemon run it, or knows of no such tool.
#[derive(Clone, Copy, Debug, PartialEq, Eq, Structural)]
pub enum InlineTool {
    Shell,
    FsRead,
    FsWrite,
    FsList,
    Daemon,
}

/// The tool that a name stands for.
pub open spec fn inline_tool(name: Seq<char>) -> Option<InlineTool> {
    if name == "shell"@ {
        Some(InlineTool::Shell)
    } else if name == "fs.read"@ {
        Some(InlineTool::FsRead)
    } else if name == "fs.write"@ {
        Some(InlineTool::FsWrite)
    } else if name == "fs.list"@ {
        Some(InlineTool::FsList)
    } else if name == "mcp.list_tools"@ || name == "mcp.web_search"@ {
        Some(InlineTool::Daemon)
    } else {
        None
    }
}

/// The tool that a name stands for, or what is said of a name that stands for
/// none.
pub fn execute_inline_tool(name: &str) -> (r: Result<InlineTool, String>)
    ensures
        match r {
            Ok(t) => inline_tool(name@) == Some(t),
            Err(e) => inline_tool(name@) is None && e@ == "unknown tool `"@ + name@ + "`"@,
        },
{
    if same(name, "shell") {
        Ok(InlineTool::Shell)
    } else if same(name, "fs.read") {
        Ok(InlineTool::FsRead)
    } else if same(name, "fs.write") {
        Ok(InlineTool::FsWrite)
    } else if same(name, "fs.list") {
        Ok(InlineTool::FsList)
    } else if same(name, "mcp.list_tools") || same(name, "mcp.web_search") {
        Ok(InlineTool::Daemon)
    } else {
        let mut text = "unknown tool `".to_string();
        push_text(&mut text, name);
        push_text(&mut text, "`");
        Err(text)
    }
}

/// Whether a line break is printed after an answer that was shown.
pub fn needs_line_break(out: &str) -> (r: bool)
    ensures
        r == (out@.len() > 0 && out@.last() != '\n'),
{
    let n: usize = out.unicode_len();
    n > 0 && out.get_char(n - 1) != '\n'
}

// ---------------------------------------------------------------------------
// What the loop does
// ---------------------------------------------------------------------------

/// The model is told where it works and which commands are at hand.
pub proof fn the_model_is_told_where_it_works(cwd: Seq<char>, commands: Seq<Seq<char>>)
    ensures
        inline_prompt_lines(cwd, command_hints(commands)).contains("  "@ + cwd),
        inline_prompt_lines(cwd, command_hints(commands)).contains(
            "  "@ + command_hints(commands),
        ),
        commands.len() == 0 ==> command_hints(commands) == "<none detected>"@,
        commands.len() == 1 ==> command_hints(commands) == commands[0],
        commands.len() > 1 ==> command_hints(commands) == command_hints(commands.drop_last())
            + ", "@ + commands.last(),
{
    let lines = inline_prompt_lines(cwd, command_hints(commands));
    assert(lines[11] == "  "@ + cwd);
    assert(lines[13] == "  "@ + command_hints(commands));
}

/// The loop takes as many steps as it is told, but one at least and forty at most; ten
/// where it is not told a number.
pub proof fn steps_are_as_told(n: nat, other: Seq<char>)
    ensures
        step_bound(None) == 10,
        1 <= n <= 40 ==> step_bound(Some(decimal(n))) == n,
        n == 0 ==> step_bound(Some(decimal(n))) == 1,
        40 < n <= u32::MAX ==> step_bound(Some(decimal(n))) == 40,
        n > u32::MAX ==> step_bound(Some(decimal(n))) == 10,
        parsed_nat(other, u32::MAX as nat) is None ==> step_bound(Some(other)) == 10,
{
    numerals_are_read_back(n, u32::MAX as nat);
}

/// Something is switched on by one of four words, in capitals or not and with white
/// space around it or not, and by nothing else.
pub proof fn words_switch_on(setting: Seq<char>)
    ensures
        !switched_on(None),
        switched_on(Some(setting)) <==> {
            let word = ascii_lower(trimmed(setting));
            word == "1"@ || word == "true"@ || word == "yes"@ || word == "on"@
        },
{
    let words = on_words();
    assert(words[0] == "1" && words[1] == "true" && words[2] == "yes" && words[3] == "on");
}

/// The words of the command line are the prompt, with a blank between neighbours; what
/// was read is the prompt only where there are none. A blank prompt is refused.
pub proof fn words_are_the_prompt(words: Seq<Seq<char>>, word: Seq<char>, stdin: Seq<char>)
    ensures
        prompt_of(seq![], stdin) == (if all_white(stdin) {
            Err::<Seq<char>, Seq<char>>("prompt is empty"@)
        } else {
            Ok(stdin)
        }),
        prompt_of(seq![word], stdin) == (if all_white(word) {
            Err::<Seq<char>, Seq<char>>("prompt is empty"@)
        } else {
            Ok(word)
        }),
        words.len() > 0 && !all_white(word) ==> prompt_of(words.push(word), stdin) == Ok::<
            Seq<char>,
            Seq<char>,
        >(joined(words, " "@) + " "@ + word),
{
    blank_texts_are_white(stdin);
    blank_texts_are_white(word);
    assert(seq![word][0] == word);
    if words.len() > 0 && !all_white(word) {
        let all = words.push(word);
        assert(all.drop_last() =~= words);
        let prompt = joined(words, " "@) + " "@ + word;
        blank_texts_are_white(prompt);
        let i = choose|i: int| 0 <= i < word.len() && !white(#[trigger] word[i]);
        let head = joined(words, " "@) + " "@;
        assert(prompt[head.len() + i] == word[i]);
    }
}

/// The members of a body that what the command line says puts there.
pub open spec fn says_where_given(
    body: JsonView,
    key: Seq<char>,
    value: Option<JsonView>,
) -> bool {
    match value {
        Some(v) => says(body, key, v),
        None => true,
    }
}

/// What is sent holds the question and everything that the command line says, and the
/// session, for which context is asked for; nothing that was not said is sent.
pub proof fn bodies_hold_what_was_said(
    key: Seq<char>,
    value: JsonView,
    opts: OverridesView,
    session_id: Option<Seq<char>>,
    name: Seq<char>,
    other: JsonView,
)
    ensures
        ({
            let body = with_overrides(seq![(key, value)], opts, session_id);
            &&& says(body, key, value)
            &&& match session_id {
                Some(id) => says(body, "session_id"@, JsonView::Str(id)) && says(
                    body,
                    "context_mode"@,
                    JsonView::Str("diagnostic"@),
                ),
                None => true,
            }
            &&& opts.provider is Some ==> says(
                body,
                "provider"@,
                JsonView::Str(opts.provider->Some_0),
            )
            &&& opts.model is Some ==> says(body, "model"@, JsonView::Str(opts.model->Some_0))
            &&& opts.max_tokens is Some ==> says(
                body,
                "max_tokens"@,
                JsonView::Unsigned(opts.max_tokens->Some_0 as u64),
            )
            &&& says_where_given(body, "temperature"@, opts.temperature)
            &&& says_where_given(body, "top_p"@, opts.top_p)
            &&& opts.stop.len() > 0 ==> says(
                body,
                "stop"@,
                JsonView::Array(opts.stop.map_values(|t: Seq<char>| JsonView::Str(t))),
            )
            &&& says(body, name, other) ==> {
                ||| (name, other) == (key, value)
                ||| session_id is Some && (name == "session_id"@ || name == "context_mode"@)
                ||| name == "provider"@ && opts.provider is Some
                ||| name == "model"@ && opts.model is Some
                ||| name == "max_tokens"@ && opts.max_tokens is Some
                ||| name == "temperature"@ && opts.temperature is Some
                ||| name == "top_p"@ && opts.top_p is Some
                ||| name == "stop"@ && opts.stop.len() > 0
            }
        }),
{
    let base = seq![(key, value)];
    assert(base[0] == (key, value));
    assert forall|m: (Seq<char>, JsonView)| #[trigger] base.contains(m) implies m == (
        key,
        value,
    ) by {}
    let v0 = str_json(session_id);
    let s0 = with_member(base, "session_id"@, v0);
    lemma_with_member(base, "session_id"@, v0);
    let v1 = match session_id {
        Some(_) => Some(JsonView::Str("diagnostic"@)),
        None => None,
    };
    let s1 = with_member(s0, "context_mode"@, v1);
    lemma_with_member(s0, "context_mode"@, v1);
    let v2 = str_json(opts.provider);
    let s2 = with_member(s1, "provider"@, v2);
    lemma_with_member(s1, "provider"@, v2);
    let v3 = str_json(opts.model);
    let s3 = with_member(s2, "model"@, v3);
    lemma_with_member(s2, "model"@, v3);
    let v4 = match opts.max_tokens {
        Some(n) => Some(JsonView::Unsigned(n as u64)),
        None => None,
    };
    let s4 = with_member(s3, "max_tokens"@, v4);
    lemma_with_member(s3, "max_tokens"@, v4);
    let s5 = with_member(s4, "temperature"@, opts.temperature);
    lemma_with_member(s4, "temperature"@, opts.temperature);
    let s6 = with_member(s5, "top_p"@, opts.top_p);
    lemma_with_member(s5, "top_p"@, opts.top_p);
    let v7 = if opts.stop.len() == 0 {
        None
    } else {
        Some(JsonView::Array(opts.stop.map_values(|t: Seq<char>| JsonView::Str(t))))
    };
    let s7 = with_member(s6, "stop"@, v7);
    lemma_with_member(s6, "stop"@, v7);
    assert(with_overrides(base, opts, session_id) == JsonView::Object(s7));
}

/// The daemon is asked to run a tool with its arguments, as approved, and for the
/// session where there is one.
pub proof fn the_daemon_is_asked_with_leave(args: JsonView, id: Seq<char>)
    ensures
        says(daemon_call(args, None), "args"@, args),
        says(daemon_call(args, None), "approved"@, JsonView::Bool(true)),
        has_members(daemon_call(args, None), 3),
        says(daemon_call(args, Some(id)), "args"@, args),
        says(daemon_call(args, Some(id)), "approved"@, JsonView::Bool(true)),
        says(daemon_call(args, Some(id)), "session_id"@, JsonView::Str(id)),
        has_members(daemon_call(args, Some(id)), 4),
{
    let a = daemon_call(args, None)->Object_0;
    lemma_says(a);
    assert(a[0].0 == "args"@ && a[1].0 == "approved"@);
    let b = daemon_call(args, Some(id))->Object_0;
    lemma_says(b);
    assert(b[0].0 == "args"@ && b[1].0 == "approved"@ && b[3].0 == "session_id"@);
}

/// An answer is taken by its document, or raw where it is none; a refusal is an error
/// that says with which status and what was answered, and a failure one that says
/// what went wrong.
pub proof fn answers_are_taken_or_told(outcome: HttpOutcome, parsed: Option<JsonView>)
    ensures
        match outcome {
            HttpOutcome::Answered(text) => {
                &&& completion_value_with(outcome, parsed) is Ok
                &&& match parsed {
                    Some(v) => completion_value_with(outcome, parsed)->Ok_0 == v,
                    None => says(
                        completion_value_with(outcome, parsed)->Ok_0,
                        "raw"@,
                        JsonView::Str(text@),
                    ),
                }
                &&& tool_value_with(outcome, parsed) is Ok
                &&& parsed is Some ==> match field(parsed->Some_0, "result"@) {
                    Some(x) => tool_value_with(outcome, parsed)->Ok_0 == x,
                    None => tool_value_with(outcome, parsed)->Ok_0 == parsed->Some_0,
                }
            },
            HttpOutcome::Refused(status, text) => {
                &&& completion_value_with(outcome, parsed) is Err
                &&& tool_value_with(outcome, parsed) is Err
                &&& parsed is Some ==> {
                    &&& completion_value_with(outcome, parsed)->Err_0
                        == "completion request failed with status "@ + decimal(status as nat)
                        + ": "@ + json_text(parsed->Some_0)
                    &&& tool_value_with(outcome, parsed)->Err_0 == "daemon tool call failed ("@
                        + decimal(status as nat) + "): "@ + json_text(parsed->Some_0)
                }
            },
            HttpOutcome::Failed(message) => {
                &&& completion_value_with(outcome, parsed) == Err::<JsonView, Seq<char>>(
                    "failed to call aishd /v1/completions: "@ + message@,
                )
                &&& tool_value_with(outcome, parsed) == Err::<JsonView, Seq<char>>(
                    "daemon tool call error: "@ + message@,
                )
            },
        },
{
    if let HttpOutcome::Answered(text) = outcome {
        if parsed is None {
            let raw = seq![("raw"@, JsonView::Str(text@))];
            lemma_says(raw);
            assert(raw[0].0 == "raw"@);
        }
    }
}

/// What the model said is the text of its completion; where that is missing, the raw
/// text, and at last the document itself. The user sees the text, or the document.
pub proof fn the_text_of_an_answer_is_taken(response: JsonView)
    ensures
        completion_text(response) is Some ==> assistant_text(response) == completion_text(
            response,
        )->Some_0 && visible(response) == completion_text(response)->Some_0,
        completion_text(response) is None ==> match field(response, "raw"@) {
            Some(JsonView::Str(t)) => assistant_text(response) == t,
            _ => assistant_text(response) == json_text(response),
        },
        completion_text(response) is None ==> visible(response) == pretty_text(response),
{
}

/// What the model asks for is done before anything else: all calls of a reply are run, in
/// order. A reply that asks for nothing is the answer, unless it is empty: then there
/// is none.
pub proof fn calls_come_before_answers(text: Seq<char>, calls: Seq<ToolCallView>)
    ensures
        match after_assistant(text, calls) {
            InlineActionView::RunTools(run) => calls.len() > 0 && run == calls,
            InlineActionView::Finished(answer) => calls.len() == 0 && text.len() > 0 && answer
                == text,
            InlineActionView::Failed(_) => calls.len() == 0 && text.len() == 0,
            InlineActionView::AskModel => false,
        },
{
}

/// The model is told of every outcome: of a result as it is, of a failure that it was one
/// and why.
pub proof fn failures_are_told(v: JsonView, e: Seq<char>)
    ensures
        outcome_view(Ok(v)) == v,
        says(outcome_view(Err(e)), "success"@, JsonView::Bool(false)),
        says(outcome_view(Err(e)), "error"@, JsonView::Str(e)),
        has_members(outcome_view(Err(e)), 2),
{
    let o = outcome_view(Err(e))->Object_0;
    lemma_says(o);
    assert(o[0].0 == "success"@ && o[1].0 == "error"@);
}

/// The client runs four tools itself and has the daemon run two; each goes by its own
/// name.
pub proof fn names_stand_for_tools(name: Seq<char>)
    ensures
        inline_tool("shell"@) == Some(InlineTool::Shell),
        inline_tool("fs.read"@) == Some(InlineTool::FsRead),
        inline_tool("fs.write"@) == Some(InlineTool::FsWrite),
        inline_tool("fs.list"@) == Some(InlineTool::FsList),
        inline_tool("mcp.list_tools"@) == Some(InlineTool::Daemon),
        inline_tool("mcp.web_search"@) == Some(InlineTool::Daemon),
        match inline_tool(name) {
            Some(InlineTool::Daemon) => name == "mcp.list_tools"@ || name == "mcp.web_search"@,
            Some(_) => name == "shell"@ || name == "fs.read"@ || name == "fs.write"@ || name
                == "fs.list"@,
            None => true,
        },
{
    reveal_strlit("shell");
    reveal_strlit("fs.read");
    reveal_strlit("fs.write");
    reveal_strlit("fs.list");
    reveal_strlit("mcp.list_tools");
    reveal_strlit("mcp.web_search");
    assert("shell"@[0] == 's' && "fs.read"@[3] == 'r' && "fs.list"@[3] == 'l');
    assert("mcp.list_tools"@.len() == 14 && "mcp.web_search"@.len() == 14);
    assert("shell"@.len() == 5 && "fs.read"@.len() == 7 && "fs.write"@.len() == 8);
    assert("fs.list"@.len() == 7);
}

} // verus!
