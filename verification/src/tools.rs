//! The tools: what they are, when they run, what is logged of them, and how
//! their results read.
use vstd::prelude::*;
use crate::config::ToolsConfig;
use crate::json::{
    has_members, int_view, json_int, json_opt_str, json_str, json_strs, json_uint, json_views,
    lemma_array_view, lemma_says, object1, object2, object3, object4, object5, says, str_or_null,
    Json, JsonView,
};
use crate::policy::{
    check_tool, configured_policy, gate_for, policy_for, policy_name, preapproved, Gate, ToolPolicy,
};
use crate::reply::{error_reply, error_view, tool_error_reply, tool_error_view, Reply, ReplyView};
use crate::text::{contains, has_text, lowered, opt_str, same, strs, to_lowercase};

verus! {

broadcast use vstd::string::group_string_axioms;

// ---------------------------------------------------------------------------
// The tools
// ---------------------------------------------------------------------------

/// The tools that can be run.
#[derive(Clone, Copy, Debug, PartialEq, Eq, Structural)]
pub enum ToolKind {
    Shell,
    FsRead,
    FsWrite,
    FsList,
}

/// All tools in the order in which they are listed.
pub open spec fn all_tools() -> Seq<ToolKind> {
    seq![ToolKind::Shell, ToolKind::FsRead, ToolKind::FsWrite, ToolKind::FsList]
}

/// The name of a tool.
pub open spec fn tool_name(kind: ToolKind) -> Seq<char> {
    match kind {
        ToolKind::Shell => "shell"@,
        ToolKind::FsRead => "fs.read"@,
        ToolKind::FsWrite => "fs.write"@,
        ToolKind::FsList => "fs.list"@,
    }
}

/// What a tool does.
pub open spec fn tool_description(kind: ToolKind) -> Seq<char> {
    match kind {
        ToolKind::Shell => "Execute a shell command"@,
        ToolKind::FsRead => "Read a file from disk"@,
        ToolKind::FsWrite => "Write a file to disk"@,
        ToolKind::FsList => "List a directory"@,
    }
}

/// The tool of this name.
pub open spec fn tool_named(name: Seq<char>) -> Option<ToolKind> {
    if name == "shell"@ {
        Some(ToolKind::Shell)
    } else if name == "fs.read"@ {
        Some(ToolKind::FsRead)
    } else if name == "fs.write"@ {
        Some(ToolKind::FsWrite)
    } else if name == "fs.list"@ {
        Some(ToolKind::FsList)
    } else {
        None
    }
}

/// The tool of this name.
pub fn find_tool(name: &str) -> (r: Option<ToolKind>)
    ensures
        r == tool_named(name@),
{
    if same(name, "shell") {
        Some(ToolKind::Shell)
    } else if same(name, "fs.read") {
        Some(ToolKind::FsRead)
    } else if same(name, "fs.write") {
        Some(ToolKind::FsWrite)
    } else if same(name, "fs.list") {
        Some(ToolKind::FsList)
    } else {
        None
    }
}

/// The name of every tool stands for that tool.
pub proof fn tool_names_round_trip(kind: ToolKind)
    ensures
        tool_named(tool_name(kind)) == Some(kind),
{
    reveal_strlit("shell");
    reveal_strlit("fs.read");
    reveal_strlit("fs.write");
    reveal_strlit("fs.list");
    assert("shell"@[0] != "fs.read"@[0]);
    assert("fs.read"@[3] == 'r');
    assert("fs.write"@[3] == 'w');
    assert("fs.list"@[3] == 'l');
}

/// The schema of a value of a type.
pub open spec fn of_type(name: Seq<char>) -> JsonView {
    JsonView::Object(seq![("type"@, JsonView::Str(name))])
}

/// The schema of an object.
pub open spec fn object_schema(
    properties: Seq<(Seq<char>, JsonView)>,
    required: Seq<Seq<char>>,
) -> JsonView {
    JsonView::Object(
        seq![
            ("type"@, JsonView::Str("object"@)),
            ("properties"@, JsonView::Object(properties)),
            (
                "required"@,
                JsonView::Array(required.map_values(|s: Seq<char>| JsonView::Str(s))),
            ),
        ],
    )
}

/// The schema of a tool's arguments.
pub open spec fn tool_schema(kind: ToolKind) -> JsonView {
    match kind {
        ToolKind::Shell => object_schema(
            seq![
                ("cmd"@, of_type("string"@)),
                ("cwd"@, of_type("string"@)),
                (
                    "env"@,
                    JsonView::Object(
                        seq![
                            ("type"@, JsonView::Str("object"@)),
                            ("additionalProperties"@, of_type("string"@)),
                        ],
                    ),
                ),
            ],
            seq!["cmd"@],
        ),
        ToolKind::FsRead => object_schema(
            seq![("path"@, of_type("string"@)), ("max_bytes"@, of_type("integer"@))],
            seq!["path"@],
        ),
        ToolKind::FsWrite => object_schema(
            seq![
                ("path"@, of_type("string"@)),
                ("content"@, of_type("string"@)),
                ("append"@, of_type("boolean"@)),
                ("create_dirs"@, of_type("boolean"@)),
            ],
            seq!["path"@, "content"@],
        ),
        ToolKind::FsList => object_schema(seq![("path"@, of_type("string"@))], seq!["path"@]),
    }
}

fn type_schema(name: &str) -> (r: Json)
    ensures
        r@ == of_type(name@),
{
    object1("type", json_str(name))
}

fn schema_of(kind: ToolKind) -> (r: Json)
    ensures
        r@ == tool_schema(kind),
{
    let mut required: Vec<String> = Vec::new();
    let properties = match kind {
        ToolKind::Shell => {
            required.push("cmd".to_string());
            assert(strs(required@) =~= seq!["cmd"@]);
            object3(
                "cmd",
                type_schema("string"),
                "cwd",
                type_schema("string"),
                "env",
                object2(
                    "type",
                    json_str("object"),
                    "additionalProperties",
                    type_schema("string"),
                ),
            )
        },
        ToolKind::FsRead => {
            required.push("path".to_string());
            assert(strs(required@) =~= seq!["path"@]);
            object2("path", type_schema("string"), "max_bytes", type_schema("integer"))
        },
        ToolKind::FsWrite => {
            required.push("path".to_string());
            required.push("content".to_string());
            assert(strs(required@) =~= seq!["path"@, "content"@]);
            object4(
                "path",
                type_schema("string"),
                "content",
                type_schema("string"),
                "append",
                type_schema("boolean"),
                "create_dirs",
                type_schema("boolean"),
            )
        },
        ToolKind::FsList => {
            required.push("path".to_string());
            assert(strs(required@) =~= seq!["path"@]);
            object1("path", type_schema("string"))
        },
    };
    object3(
        "type",
        json_str("object"),
        "properties",
        properties,
        "required",
        json_strs(&required),
    )
}

/// A tool and what is to be known to call it.
#[derive(Debug)]
pub struct ToolDef {
    pub kind: ToolKind,
    pub name: &'static str,
    pub description: &'static str,
    pub args_schema: Json,
}

/// A tool as it should be described.
pub open spec fn describes(def: ToolDef, kind: ToolKind) -> bool {
    &&& def.kind == kind
    &&& def.name@ == tool_name(kind)
    &&& def.description@ == tool_description(kind)
    &&& def.args_schema@ == tool_schema(kind)
}

/// All tools.
pub fn tool_defs() -> (r: Vec<ToolDef>)
    ensures
        r@.len() == all_tools().len(),
        forall|i: int| 0 <= i < r@.len() ==> describes(#[trigger] r@[i], all_tools()[i]),
{
    let mut out: Vec<ToolDef> = Vec::new();
    out.push(
        ToolDef {
            kind: ToolKind::Shell,
            name: "shell",
            description: "Execute a shell command",
            args_schema: schema_of(ToolKind::Shell),
        },
    );
    out.push(
        ToolDef {
            kind: ToolKind::FsRead,
            name: "fs.read",
            description: "Read a file from disk",
            args_schema: schema_of(ToolKind::FsRead),
        },
    );
    out.push(
        ToolDef {
            kind: ToolKind::FsWrite,
            name: "fs.write",
            description: "Write a file to disk",
            args_schema: schema_of(ToolKind::FsWrite),
        },
    );
    out.push(
        ToolDef {
            kind: ToolKind::FsList,
            name: "fs.list",
            description: "List a directory",
            args_schema: schema_of(ToolKind::FsList),
        },
    );
    out
}

/// A tool as it is listed: with the policy that holds for it.
pub open spec fn tool_info(tools: ToolsConfig, kind: ToolKind) -> JsonView {
    JsonView::Object(
        seq![
            ("name"@, JsonView::Str(tool_name(kind))),
            ("description"@, JsonView::Str(tool_description(kind))),
            ("args_schema"@, tool_schema(kind)),
            (
                "policy"@,
                JsonView::Str(policy_name(configured_policy(tools, tool_name(kind)))),
            ),
        ],
    )
}

/// The list of all tools.
pub fn list_tools(tools: &ToolsConfig) -> (r: Json)
    ensures
        r@ == JsonView::Array(all_tools().map_values(|k: ToolKind| tool_info(*tools, k))),
{
    let mut defs = tool_defs();
    let ghost all = all_tools();
    let ghost start = defs@;
    let mut out: Vec<Json> = Vec::new();
    let mut i: usize = 0;
    while i < defs.len()
        invariant
            all == all_tools(),
            defs@.len() == all.len(),
            forall|k: int| 0 <= k < defs@.len() ==> describes(#[trigger] defs@[k], all[k]),
            i <= defs@.len(),
            out@.len() == i,
            forall|k: int| 0 <= k < i ==> (#[trigger] out@[k])@ == tool_info(*tools, all[k]),
        decreases defs@.len() - i,
    {
        let policy = policy_for(tools, defs[i].name);
        assert(describes(defs@[i as int], all[i as int]));
        let item = object4(
            "name",
            json_str(defs[i].name),
            "description",
            json_str(defs[i].description),
            "args_schema",
            defs[i].args_schema.duplicate(),
            "policy",
            json_str(policy.as_str()),
        );
        out.push(item);
        i = i + 1;
    }
    proof {
        lemma_array_view(out);
        assert(json_views(out@) =~= all.map_values(|k: ToolKind| tool_info(*tools, k)));
    }
    Json::Array(out)
}

// ---------------------------------------------------------------------------
// Calls
// ---------------------------------------------------------------------------

/// Whether a call may go ahead, and the answer where it may not. A tool that
/// asks needs the caller's approval in the request.
pub open spec fn call_gate(tools: ToolsConfig, name: Seq<char>, approved: Option<bool>) -> Result<
    ToolKind,
    ReplyView,
> {
    match tool_named(name) {
        None => Err(error_view(404, "unknown tool"@)),
        Some(kind) => match configured_policy(tools, name) {
            ToolPolicy::Deny => Err(tool_error_view(403, "tool denied"@, name)),
            ToolPolicy::Ask => if approved == Some(true) {
                Ok(kind)
            } else {
                Err(
                    ReplyView {
                        status: 403,
                        body: JsonView::Object(
                            seq![
                                ("error"@, JsonView::Str("approval_required"@)),
                                ("tool"@, JsonView::Str(name)),
                                ("policy"@, JsonView::Str("ask"@)),
                            ],
                        ),
                    },
                )
            },
            ToolPolicy::Allow => Ok(kind),
        },
    }
}

/// A result with its error taken by its view.
pub open spec fn reply_result<T>(r: Result<T, Reply>) -> Result<T, ReplyView> {
    match r {
        Ok(v) => Ok(v),
        Err(e) => Err(e@),
    }
}

/// Whether a call may go ahead, and the answer where it may not.
pub fn call_tool(tools: &ToolsConfig, name: &str, approved: Option<bool>) -> (r: Result<
    ToolKind,
    Reply,
>)
    ensures
        reply_result(r) == call_gate(*tools, name@, approved),
{
    let kind = match find_tool(name) {
        Some(kind) => kind,
        None => {
            return Err(error_reply(404, "unknown tool"));
        },
    };
    match policy_for(tools, name) {
        ToolPolicy::Deny => Err(tool_error_reply(403, "tool denied", name)),
        ToolPolicy::Ask => {
            let given = match approved {
                Some(b) => b,
                None => false,
            };
            if given {
                Ok(kind)
            } else {
                Err(
                    Reply {
                        status: 403,
                        body: object3(
                            "error",
                            json_str("approval_required"),
                            "tool",
                            json_str(name),
                            "policy",
                            json_str("ask"),
                        ),
                    },
                )
            }
        },
        ToolPolicy::Allow => Ok(kind),
    }
}

/// Why a tool did not give a result.
#[derive(Debug, PartialEq, Eq)]
pub enum ToolExecError {
    ApprovalRequired,
    Failed(Reply),
}

/// What a `ToolExecError` holds.
pub enum ToolExecErrorView {
    ApprovalRequired,
    Failed(ReplyView),
}

impl View for ToolExecError {
    type V = ToolExecErrorView;

    open spec fn view(&self) -> ToolExecErrorView {
        match self {
            ToolExecError::ApprovalRequired => ToolExecErrorView::ApprovalRequired,
            ToolExecError::Failed(r) => ToolExecErrorView::Failed(r@),
        }
    }
}

/// Whether a tool is to be started on behalf of an agent, and the error where it
/// is not.
pub open spec fn start_gate(
    tools: ToolsConfig,
    name: Seq<char>,
    approved: bool,
    by_name: bool,
    deny_on_missing: bool,
) -> Result<(), ToolExecErrorView> {
    match gate_for(configured_policy(tools, name), approved, by_name, deny_on_missing) {
        Gate::Run => Ok(()),
        Gate::Denied => Err(
            ToolExecErrorView::Failed(tool_error_view(403, "tool denied"@, name)),
        ),
        Gate::ApprovalMissing => Err(
            ToolExecErrorView::Failed(tool_error_view(403, "approval_required"@, name)),
        ),
        Gate::ApprovalRequired => Err(ToolExecErrorView::ApprovalRequired),
    }
}

/// Whether a tool is to be started on behalf of an agent. The tool that the name
/// stands for is then looked up by `find_tool`, and its outcome is settled by
/// `finish_tool`.
pub fn execute_tool(
    tools: &ToolsConfig,
    name: &str,
    approved: bool,
    approved_tools: &Option<Vec<String>>,
    deny_on_missing: bool,
) -> (r: Result<(), ToolExecError>)
    ensures
        match r {
            Ok(()) => start_gate(
                *tools,
                name@,
                approved,
                preapproved(*approved_tools, name@),
                deny_on_missing,
            ) is Ok,
            Err(e) => start_gate(
                *tools,
                name@,
                approved,
                preapproved(*approved_tools, name@),
                deny_on_missing,
            ) == Err::<(), ToolExecErrorView>(e@),
        },
{
    match check_tool(tools, name, approved, approved_tools, deny_on_missing) {
        Gate::Run => Ok(()),
        Gate::Denied => Err(ToolExecError::Failed(tool_error_reply(403, "tool denied", name))),
        Gate::ApprovalMissing => Err(
            ToolExecError::Failed(tool_error_reply(403, "approval_required", name)),
        ),
        Gate::ApprovalRequired => Err(ToolExecError::ApprovalRequired),
    }
}

/// No way to run a tool gets around its policy: a denied tool runs for nobody,
/// and one that asks runs neither for a caller who did not approve it nor for an
/// agent to whom it was not approved. An allowed tool runs for everybody.
pub proof fn calls_respect_policy(
    tools: ToolsConfig,
    name: Seq<char>,
    approved: Option<bool>,
    by_name: bool,
    deny_on_missing: bool,
)
    requires
        tool_named(name) is Some,
    ensures
        ({
            let policy = configured_policy(tools, name);
            let called = call_gate(tools, name, approved) is Ok;
            let started = start_gate(
                tools,
                name,
                approved == Some(true),
                by_name,
                deny_on_missing,
            ) is Ok;
            &&& policy == ToolPolicy::Deny ==> !called && !started
            &&& policy == ToolPolicy::Ask ==> (called <==> approved == Some(true))
            &&& policy == ToolPolicy::Ask ==> (started <==> approved == Some(true) || by_name)
            &&& policy == ToolPolicy::Allow ==> called && started
        }),
{
}

/// The outcome of a name that stands for no tool.
pub fn unknown_tool() -> (r: Reply)
    ensures
        r@ == error_view(404, "unknown tool"@),
{
    error_reply(404, "unknown tool")
}

// ---------------------------------------------------------------------------
// What is logged of a call
// ---------------------------------------------------------------------------

/// What is logged when a tool starts.
pub open spec fn start_data(name: Seq<char>, args: JsonView, reason: Option<Seq<char>>) -> JsonView {
    JsonView::Object(
        seq![
            ("tool"@, JsonView::Str(name)),
            ("args"@, args),
            ("approval_reason"@, str_or_null(reason)),
        ],
    )
}

/// What is logged when a tool starts.
pub fn tool_start_data(name: &str, args: &Json, approval_reason: Option<&str>) -> (r: Json)
    ensures
        r@ == start_data(name@, args@, opt_str(approval_reason)),
{
    object3(
        "tool",
        json_str(name),
        "args",
        args.duplicate(),
        "approval_reason",
        json_opt_str(approval_reason),
    )
}

/// What is logged when a tool ends, given the error if it went wrong.
pub open spec fn end_data(name: Seq<char>, error: Option<JsonView>) -> JsonView {
    match error {
        None => JsonView::Object(
            seq![("tool"@, JsonView::Str(name)), ("ok"@, JsonView::Bool(true))],
        ),
        Some(e) => JsonView::Object(
            seq![("tool"@, JsonView::Str(name)), ("ok"@, JsonView::Bool(false)), ("error"@, e)],
        ),
    }
}

/// What is logged when a tool that an agent started ends, and its outcome.
pub fn finish_tool(name: &str, result: Result<Json, Reply>) -> (r: (Json, Result<
    Json,
    ToolExecError,
>))
    ensures
        match result {
            Ok(v) => r.0@ == end_data(name@, None) && r.1 == Ok::<Json, ToolExecError>(v),
            Err(e) => r.0@ == end_data(name@, Some(e.body@)) && r.1 == Err::<Json, ToolExecError>(
                ToolExecError::Failed(e),
            ),
        },
{
    match result {
        Ok(v) => (
            object2("tool", json_str(name), "ok", Json::Bool(true)),
            Ok(v),
        ),
        Err(e) => {
            let data = object3(
                "tool",
                json_str(name),
                "ok",
                Json::Bool(false),
                "error",
                e.body.duplicate(),
            );
            (data, Err(ToolExecError::Failed(e)))
        },
    }
}

/// What is logged when a call ends, and the answer to it.
pub fn finish_call(name: &str, result: Result<Json, Reply>, duration_ms: u64) -> (r: (Json, Reply))
    ensures
        match result {
            Ok(v) => {
                &&& r.0@ == JsonView::Object(
                    seq![
                        ("tool"@, JsonView::Str(name@)),
                        ("ok"@, JsonView::Bool(true)),
                        ("duration_ms"@, JsonView::Unsigned(duration_ms)),
                    ],
                )
                &&& r.1@ == (ReplyView {
                    status: 200,
                    body: JsonView::Object(
                        seq![
                            ("result"@, v@),
                            ("duration_ms"@, JsonView::Unsigned(duration_ms)),
                        ],
                    ),
                })
            },
            Err(e) => {
                &&& r.0@ == JsonView::Object(
                    seq![
                        ("tool"@, JsonView::Str(name@)),
                        ("ok"@, JsonView::Bool(false)),
                        ("duration_ms"@, JsonView::Unsigned(duration_ms)),
                        ("error"@, e.body@),
                    ],
                )
                &&& r.1 == e
            },
        },
{
    match result {
        Ok(v) => (
            object3(
                "tool",
                json_str(name),
                "ok",
                Json::Bool(true),
                "duration_ms",
                json_uint(duration_ms),
            ),
            Reply {
                status: 200,
                body: object2("result", v, "duration_ms", json_uint(duration_ms)),
            },
        ),
        Err(e) => {
            let data = object4(
                "tool",
                json_str(name),
                "ok",
                Json::Bool(false),
                "duration_ms",
                json_uint(duration_ms),
                "error",
                e.body.duplicate(),
            );
            (data, e)
        },
    }
}

/// An event of a session's log; without a session there is none.
pub open spec fn log_event(
    session_id: Option<Seq<char>>,
    agent_id: Option<Seq<char>>,
    kind: Seq<char>,
    data: JsonView,
    now: u64,
) -> Option<JsonView> {
    match session_id {
        None => None,
        Some(id) => Some(
            JsonView::Object(
                seq![
                    ("ts_ms"@, JsonView::Unsigned(now)),
                    ("session_id"@, JsonView::Str(id)),
                    ("agent_id"@, str_or_null(agent_id)),
                    ("kind"@, JsonView::Str(kind)),
                    ("data"@, data),
                ],
            ),
        ),
    }
}

/// The event that is added to a session's log; none without a session.
pub fn log_tool_event(
    session_id: Option<&str>,
    agent_id: Option<&str>,
    kind: &str,
    data: Json,
    now: u64,
) -> (r: Option<Json>)
    ensures
        match r {
            Some(v) => log_event(opt_str(session_id), opt_str(agent_id), kind@, data@, now) == Some(
                v@,
            ),
            None => session_id is None,
        },
{
    match session_id {
        None => None,
        Some(id) => Some(
            object5(
                "ts_ms",
                json_uint(now),
                "session_id",
                json_str(id),
                "agent_id",
                json_opt_str(agent_id),
                "kind",
                json_str(kind),
                "data",
                data,
            ),
        ),
    }
}

// ---------------------------------------------------------------------------
// How tools run and what they return
// ---------------------------------------------------------------------------

/// The flags with which a shell runs a command without reading its start files.
pub open spec fn shell_flags(shell: Seq<char>) -> Seq<Seq<char>> {
    let low = lowered(shell);
    if has_text(low, "zsh"@) {
        seq!["-f"@, "-c"@]
    } else if has_text(low, "bash"@) {
        seq!["--noprofile"@, "--norc"@, "-c"@]
    } else {
        seq!["-c"@]
    }
}

/// The shell that runs commands, and its flags; `sh` where none is set.
pub fn select_shell(shell: Option<&str>) -> (r: (String, Vec<String>))
    ensures
        r.0@ == match opt_str(shell) {
            Some(s) => s,
            None => "sh"@,
        },
        strs(r.1@) == shell_flags(r.0@),
{
    let shell = match shell {
        Some(s) => s.to_string(),
        None => "sh".to_string(),
    };
    let low = to_lowercase(shell.as_str());
    let mut flags: Vec<String> = Vec::new();
    if contains(low.as_str(), "zsh") {
        flags.push("-f".to_string());
        flags.push("-c".to_string());
        assert(strs(flags@) =~= seq!["-f"@, "-c"@]);
    } else if contains(low.as_str(), "bash") {
        flags.push("--noprofile".to_string());
        flags.push("--norc".to_string());
        flags.push("-c".to_string());
        assert(strs(flags@) =~= seq!["--noprofile"@, "--norc"@, "-c"@]);
    } else {
        flags.push("-c".to_string());
        assert(strs(flags@) =~= seq!["-c"@]);
    }
    (shell, flags)
}

/// The first `max` bytes, and whether there were more; all of them without a
/// bound.
pub fn truncate_bytes(bytes: Vec<u8>, max_bytes: Option<u64>) -> (r: (Vec<u8>, bool))
    ensures
        match max_bytes {
            Some(max) => {
                &&& r.1 == (bytes@.len() > max)
                &&& r.0@ == if bytes@.len() > max {
                    bytes@.take(max as int)
                } else {
                    bytes@
                }
            },
            None => !r.1 && r.0@ == bytes@,
        },
{
    let mut bytes = bytes;
    match max_bytes {
        Some(max) => {
            if bytes.len() as u64 > max {
                bytes.truncate(max as usize);
                (bytes, true)
            } else {
                (bytes, false)
            }
        },
        None => (bytes, false),
    }
}

/// An exit code as a value; null where there is none.
pub open spec fn exit_view(code: Option<i32>) -> JsonView {
    match code {
        Some(c) => int_view(c as i64),
        None => JsonView::Null,
    }
}

/// The result of a shell command.
pub fn shell_result(code: Option<i32>, success: bool, stdout: &str, stderr: &str) -> (r: Json)
    ensures
        r@ == JsonView::Object(
            seq![
                ("status"@, exit_view(code)),
                ("success"@, JsonView::Bool(success)),
                ("stdout"@, JsonView::Str(stdout@)),
                ("stderr"@, JsonView::Str(stderr@)),
            ],
        ),
{
    let status = match code {
        Some(c) => json_int(c as i64),
        None => Json::Null,
    };
    object4(
        "status",
        status,
        "success",
        Json::Bool(success),
        "stdout",
        json_str(stdout),
        "stderr",
        json_str(stderr),
    )
}

/// The result of reading a file.
pub fn fs_read_result(path: &str, truncated: bool, content: &str) -> (r: Json)
    ensures
        r@ == JsonView::Object(
            seq![
                ("path"@, JsonView::Str(path@)),
                ("truncated"@, JsonView::Bool(truncated)),
                ("content"@, JsonView::Str(content@)),
            ],
        ),
{
    object3(
        "path",
        json_str(path),
        "truncated",
        Json::Bool(truncated),
        "content",
        json_str(content),
    )
}

/// The result of writing a file.
pub fn fs_write_result(path: &str) -> (r: Json)
    ensures
        r@ == JsonView::Object(
            seq![("ok"@, JsonView::Bool(true)), ("path"@, JsonView::Str(path@))],
        ),
{
    object2("ok", Json::Bool(true), "path", json_str(path))
}

/// An entry of a directory.
#[derive(Debug)]
pub struct ListEntry {
    pub name: String,
    pub path: String,
    pub is_dir: bool,
}

/// An entry of a directory as a value.
pub open spec fn entry_view(entry: ListEntry) -> JsonView {
    JsonView::Object(
        seq![
            ("name"@, JsonView::Str(entry.name@)),
            ("path"@, JsonView::Str(entry.path@)),
            ("is_dir"@, JsonView::Bool(entry.is_dir)),
        ],
    )
}

/// The result of listing a directory.
pub fn fs_list_result(entries: &Vec<ListEntry>) -> (r: Json)
    ensures
        r@ == JsonView::Object(
            seq![
                (
                    "entries"@,
                    JsonView::Array(entries@.map_values(|e: ListEntry| entry_view(e))),
                ),
            ],
        ),
{
    let mut out: Vec<Json> = Vec::new();
    let mut i: usize = 0;
    while i < entries.len()
        invariant
            i <= entries@.len(),
            out@.len() == i,
            forall|k: int| 0 <= k < i ==> (#[trigger] out@[k])@ == entry_view(entries@[k]),
        decreases entries@.len() - i,
    {
        let item = object3(
            "name",
            json_str(entries[i].name.as_str()),
            "path",
            json_str(entries[i].path.as_str()),
            "is_dir",
            Json::Bool(entries[i].is_dir),
        );
        out.push(item);
        i = i + 1;
    }
    proof {
        lemma_array_view(out);
        assert(json_views(out@) =~= entries@.map_values(|e: ListEntry| entry_view(e)));
    }
    object1("entries", Json::Array(out))
}

// ---------------------------------------------------------------------------
// What callers see
// ---------------------------------------------------------------------------

/// A name stands for the one tool that goes by it, every tool is listed once, and each
/// is listed with its name and the policy that holds for it.
pub proof fn every_tool_is_listed(tools: ToolsConfig, name: Seq<char>, kind: ToolKind)
    ensures
        tool_named(name) is Some ==> tool_name(tool_named(name)->Some_0) == name,
        exists|i: int| 0 <= i < all_tools().len() && #[trigger] all_tools()[i] == kind,
        forall|i: int, j: int|
            0 <= i < j < all_tools().len() ==> #[trigger] all_tools()[i] != #[trigger] all_tools()[j],
        says(tool_info(tools, kind), "name"@, JsonView::Str(tool_name(kind))),
        says(tool_info(tools, kind), "description"@, JsonView::Str(tool_description(kind))),
        says(tool_info(tools, kind), "args_schema"@, tool_schema(kind)),
        match configured_policy(tools, tool_name(kind)) {
            ToolPolicy::Allow => says(tool_info(tools, kind), "policy"@, JsonView::Str("allow"@)),
            ToolPolicy::Ask => says(tool_info(tools, kind), "policy"@, JsonView::Str("ask"@)),
            ToolPolicy::Deny => says(tool_info(tools, kind), "policy"@, JsonView::Str("deny"@)),
        },
        has_members(tool_info(tools, kind), 4),
{
    tool_names_round_trip(kind);
    let all = all_tools();
    assert(all[0] == ToolKind::Shell);
    assert(all[1] == ToolKind::FsRead);
    assert(all[2] == ToolKind::FsWrite);
    assert(all[3] == ToolKind::FsList);
    let o = tool_info(tools, kind)->Object_0;
    lemma_says(o);
    assert(o[0].0 == "name"@ && o[1].0 == "description"@);
    assert(o[2].0 == "args_schema"@ && o[3].0 == "policy"@);
}

/// An argument that a tool can be called with, of a type, and whether it has to be
/// given.
pub open spec fn takes_argument(
    schema: JsonView,
    name: Seq<char>,
    kind_name: Seq<char>,
    required: bool,
) -> bool {
    exists|properties: JsonView, needed: Seq<JsonView>|
        {
            &&& says(schema, "type"@, JsonView::Str("object"@))
            &&& #[trigger] says(schema, "properties"@, properties)
            &&& #[trigger] says(schema, "required"@, JsonView::Array(needed))
            &&& exists|arg: JsonView|
                says(arg, "type"@, JsonView::Str(kind_name)) && #[trigger] says(
                    properties,
                    name,
                    arg,
                )
            &&& required <==> needed.contains(JsonView::Str(name))
        }
}

proof fn lemma_takes(
    properties: Seq<(Seq<char>, JsonView)>,
    required: Seq<Seq<char>>,
    i: int,
    kind_name: Seq<char>,
)
    requires
        0 <= i < properties.len(),
        says(properties[i].1, "type"@, JsonView::Str(kind_name)),
    ensures
        takes_argument(
            object_schema(properties, required),
            properties[i].0,
            kind_name,
            required.contains(properties[i].0),
        ),
{
    let schema = object_schema(properties, required);
    let o = schema->Object_0;
    lemma_says(o);
    lemma_says(properties);
    let needed = required.map_values(|s: Seq<char>| JsonView::Str(s));
    assert(o[0].0 == "type"@ && o[1].0 == "properties"@ && o[2].0 == "required"@);
    let name = properties[i].0;
    if required.contains(name) {
        let k = choose|k: int| 0 <= k < required.len() && required[k] == name;
        assert(needed[k] == JsonView::Str(name));
    }
    if needed.contains(JsonView::Str(name)) {
        let k = choose|k: int| 0 <= k < needed.len() && needed[k] == JsonView::Str(name);
        assert(required[k] == name);
    }
    assert(says(JsonView::Object(properties), name, properties[i].1));
    assert(says(schema, "properties"@, JsonView::Object(properties)));
    assert(says(schema, "required"@, JsonView::Array(needed)));
}

/// What each tool is called with: a command, in a directory if one is given; a path,
/// with a bound if one is given; a path and a content, and whether to append and to
/// make directories; a path.
pub proof fn tools_take_their_arguments()
    ensures
        takes_argument(tool_schema(ToolKind::Shell), "cmd"@, "string"@, true),
        takes_argument(tool_schema(ToolKind::Shell), "cwd"@, "string"@, false),
        takes_argument(tool_schema(ToolKind::Shell), "env"@, "object"@, false),
        takes_argument(tool_schema(ToolKind::FsRead), "path"@, "string"@, true),
        takes_argument(tool_schema(ToolKind::FsRead), "max_bytes"@, "integer"@, false),
        takes_argument(tool_schema(ToolKind::FsWrite), "path"@, "string"@, true),
        takes_argument(tool_schema(ToolKind::FsWrite), "content"@, "string"@, true),
        takes_argument(tool_schema(ToolKind::FsWrite), "append"@, "boolean"@, false),
        takes_argument(tool_schema(ToolKind::FsWrite), "create_dirs"@, "boolean"@, false),
        takes_argument(tool_schema(ToolKind::FsList), "path"@, "string"@, true),
{
    reveal_strlit("cmd");
    reveal_strlit("cwd");
    reveal_strlit("env");
    reveal_strlit("path");
    reveal_strlit("content");
    reveal_strlit("append");
    reveal_strlit("create_dirs");
    reveal_strlit("max_bytes");
    assert("cmd"@[1] == 'm' && "cwd"@[1] == 'w' && "env"@[1] == 'n');
    assert forall|name: Seq<char>| says(#[trigger] of_type(name), "type"@, JsonView::Str(name)) by {
        lemma_says(of_type(name)->Object_0);
        assert(of_type(name)->Object_0[0].0 == "type"@);
    }
    let env = JsonView::Object(
        seq![("type"@, JsonView::Str("object"@)), ("additionalProperties"@, of_type("string"@))],
    );
    lemma_says(env->Object_0);
    assert(env->Object_0[0].0 == "type"@);
    let one = seq!["cmd"@];
    assert(one[0] == "cmd"@);
    let shell = seq![("cmd"@, of_type("string"@)), ("cwd"@, of_type("string"@)), ("env"@, env)];
    lemma_takes(shell, one, 0, "string"@);
    lemma_takes(shell, one, 1, "string"@);
    lemma_takes(shell, one, 2, "object"@);
    let path = seq!["path"@];
    assert(path[0] == "path"@);
    let read = seq![("path"@, of_type("string"@)), ("max_bytes"@, of_type("integer"@))];
    lemma_takes(read, path, 0, "string"@);
    lemma_takes(read, path, 1, "integer"@);
    let both = seq!["path"@, "content"@];
    assert(both[0] == "path"@ && both[1] == "content"@);
    assert("append"@.len() == 6 && "create_dirs"@.len() == 11);
    assert("path"@.len() == 4 && "content"@.len() == 7);
    assert forall|i: int| 0 <= i < both.len() implies #[trigger] both[i] != "append"@ && both[i]
        != "create_dirs"@ by {}
    let write = seq![
        ("path"@, of_type("string"@)),
        ("content"@, of_type("string"@)),
        ("append"@, of_type("boolean"@)),
        ("create_dirs"@, of_type("boolean"@)),
    ];
    lemma_takes(write, both, 0, "string"@);
    lemma_takes(write, both, 1, "string"@);
    lemma_takes(write, both, 2, "boolean"@);
    lemma_takes(write, both, 3, "boolean"@);
    let list = seq![("path"@, of_type("string"@))];
    lemma_takes(list, path, 0, "string"@);
}

/// A caller whose call does not go ahead learns why: there is no such tool, it is
/// denied, or leave is missing; the tool that was asked for is named.
pub proof fn refusals_say_why(tools: ToolsConfig, name: Seq<char>, approved: Option<bool>)
    ensures
        match call_gate(tools, name, approved) {
            Ok(kind) => tool_name(kind) == name,
            Err(reply) => if tool_named(name) is None {
                reply.status == 404 && says(reply.body, "error"@, JsonView::Str("unknown tool"@))
            } else {
                &&& reply.status == 403
                &&& says(reply.body, "tool"@, JsonView::Str(name))
                &&& configured_policy(tools, name) is Deny ==> says(
                    reply.body,
                    "error"@,
                    JsonView::Str("tool denied"@),
                )
                &&& configured_policy(tools, name) is Ask ==> says(
                    reply.body,
                    "error"@,
                    JsonView::Str("approval_required"@),
                ) && says(reply.body, "policy"@, JsonView::Str("ask"@))
            },
        },
{
    match call_gate(tools, name, approved) {
        Ok(kind) => {
            every_tool_is_listed(tools, name, kind);
        },
        Err(reply) => {
            let o = reply.body->Object_0;
            lemma_says(o);
            assert(o[0].0 == "error"@);
            if tool_named(name) is Some {
                assert(o[1].0 == "tool"@);
                if configured_policy(tools, name) is Ask {
                    assert(o[2].0 == "policy"@);
                }
            }
        },
    }
}

/// An agent whose tool is not started learns why: it is denied, leave is missing and
/// nobody can be asked, or leave has to be asked for.
pub proof fn agents_learn_why_tools_do_not_start(
    tools: ToolsConfig,
    name: Seq<char>,
    deny_on_missing: bool,
)
    ensures
        match start_gate(tools, name, false, false, deny_on_missing) {
            Ok(_) => configured_policy(tools, name) is Allow,
            Err(ToolExecErrorView::ApprovalRequired) => configured_policy(tools, name) is Ask
                && !deny_on_missing,
            Err(ToolExecErrorView::Failed(reply)) => {
                &&& reply.status == 403
                &&& says(reply.body, "tool"@, JsonView::Str(name))
                &&& configured_policy(tools, name) is Deny ==> says(
                    reply.body,
                    "error"@,
                    JsonView::Str("tool denied"@),
                )
                &&& configured_policy(tools, name) is Ask ==> deny_on_missing && says(
                    reply.body,
                    "error"@,
                    JsonView::Str("approval_required"@),
                )
                &&& !(configured_policy(tools, name) is Allow)
            },
        },
{
    if let Err(ToolExecErrorView::Failed(reply)) = start_gate(
        tools,
        name,
        false,
        false,
        deny_on_missing,
    ) {
        let o = reply.body->Object_0;
        lemma_says(o);
        assert(o[0].0 == "error"@);
        assert(o[1].0 == "tool"@);
    }
}

/// The log of a session says which tool started with what and on whose leave, and how
/// it ended: well, or with its error.
pub proof fn tools_are_logged(
    name: Seq<char>,
    args: JsonView,
    reason: Option<Seq<char>>,
    error: JsonView,
)
    ensures
        says(start_data(name, args, reason), "tool"@, JsonView::Str(name)),
        says(start_data(name, args, reason), "args"@, args),
        match reason {
            Some(r) => says(start_data(name, args, reason), "approval_reason"@, JsonView::Str(r)),
            None => says(start_data(name, args, reason), "approval_reason"@, JsonView::Null),
        },
        says(end_data(name, None), "tool"@, JsonView::Str(name)),
        says(end_data(name, None), "ok"@, JsonView::Bool(true)),
        has_members(end_data(name, None), 2),
        says(end_data(name, Some(error)), "tool"@, JsonView::Str(name)),
        says(end_data(name, Some(error)), "ok"@, JsonView::Bool(false)),
        says(end_data(name, Some(error)), "error"@, error),
        has_members(end_data(name, Some(error)), 3),
{
    let s = start_data(name, args, reason)->Object_0;
    lemma_says(s);
    assert(s[0].0 == "tool"@ && s[1].0 == "args"@ && s[2].0 == "approval_reason"@);
    let w = end_data(name, None)->Object_0;
    lemma_says(w);
    assert(w[0].0 == "tool"@ && w[1].0 == "ok"@);
    let b = end_data(name, Some(error))->Object_0;
    lemma_says(b);
    assert(b[0].0 == "tool"@ && b[1].0 == "ok"@ && b[2].0 == "error"@);
}

/// What happens in a session is logged with its time, its session, its agent where
/// there is one, its kind and its data; outside a session nothing is logged.
pub proof fn events_are_logged_in_sessions(
    id: Seq<char>,
    agent_id: Option<Seq<char>>,
    kind: Seq<char>,
    data: JsonView,
    now: u64,
)
    ensures
        log_event(None, agent_id, kind, data, now) is None,
        log_event(Some(id), agent_id, kind, data, now) is Some,
        ({
            let e = log_event(Some(id), agent_id, kind, data, now)->Some_0;
            &&& says(e, "ts_ms"@, JsonView::Unsigned(now))
            &&& says(e, "session_id"@, JsonView::Str(id))
            &&& match agent_id {
                Some(a) => says(e, "agent_id"@, JsonView::Str(a)),
                None => says(e, "agent_id"@, JsonView::Null),
            }
            &&& says(e, "kind"@, JsonView::Str(kind))
            &&& says(e, "data"@, data)
        }),
{
    let o = log_event(Some(id), agent_id, kind, data, now)->Some_0->Object_0;
    lemma_says(o);
    assert(o[0].0 == "ts_ms"@ && o[1].0 == "session_id"@ && o[2].0 == "agent_id"@);
    assert(o[3].0 == "kind"@ && o[4].0 == "data"@);
}

/// Every shell is handed the command behind `-c`, the last of its flags; those that are
/// known are kept from reading their start files.
pub proof fn shells_run_the_command(shell: Seq<char>)
    ensures
        shell_flags(shell).len() > 0,
        shell_flags(shell).last() == "-c"@,
        has_text(lowered(shell), "zsh"@) ==> shell_flags(shell) == seq!["-f"@, "-c"@],
        !has_text(lowered(shell), "zsh"@) && has_text(lowered(shell), "bash"@) ==> shell_flags(
            shell,
        ) == seq!["--noprofile"@, "--norc"@, "-c"@],
        !has_text(lowered(shell), "zsh"@) && !has_text(lowered(shell), "bash"@) ==> shell_flags(
            shell,
        ).len() == 1,
{
}

/// The result of a command bears its exit code as a number, and null where it was ended
/// from outside; an entry of a directory bears its name, its path and its kind.
pub proof fn results_bear_what_was_found(code: i32, entry: ListEntry)
    ensures
        code >= 0 ==> exit_view(Some(code)) == JsonView::Unsigned(code as u64),
        code < 0 ==> exit_view(Some(code)) == JsonView::Negative(code as i64),
        exit_view(None) == JsonView::Null,
        says(entry_view(entry), "name"@, JsonView::Str(entry.name@)),
        says(entry_view(entry), "path"@, JsonView::Str(entry.path@)),
        says(entry_view(entry), "is_dir"@, JsonView::Bool(entry.is_dir)),
{
    let o = entry_view(entry)->Object_0;
    lemma_says(o);
    assert(o[0].0 == "name"@ && o[1].0 == "path"@ && o[2].0 == "is_dir"@);
}

/// A tool is described by its own name, words and schema.
pub proof fn descriptions_are_of_their_tool(def: ToolDef, kind: ToolKind)
    requires
        describes(def, kind),
    ensures
        def.kind == kind,
        tool_named(def.name@) == Some(kind),
        def.description@ == tool_description(kind),
        def.args_schema@ == tool_schema(kind),
{
    tool_names_round_trip(kind);
}

} // verus!
