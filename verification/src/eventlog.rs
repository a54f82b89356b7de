//! The events that the client writes down: which session they belong to, where
//! they go, and what they hold.
use vstd::prelude::*;
use crate::config::{expanded, join_path, path_below, resolve_path};
use crate::json::{
    int_view, json_int, json_opt_str, json_str, json_uint, lemma_object_view, lemma_with_member,
    member_views, object1, object2, object4, opt_json, put_member, says, str_or_null, with_member,
    Json, JsonView,
};
use crate::text::{opt_str, opt_text, text_or};

verus! {

broadcast use vstd::string::group_string_axioms;

/// What is written down of an event.
#[derive(Debug)]
pub struct LogEventArgs {
    pub cmd: Option<String>,
    pub cwd: Option<String>,
    pub exit: Option<i32>,
    pub duration_ms: Option<u64>,
    pub cols: Option<u16>,
    pub rows: Option<u16>,
}

/// A string, where there is a text.
pub open spec fn text_member(s: Option<String>) -> Option<JsonView> {
    match s {
        Some(t) => Some(JsonView::Str(t@)),
        None => None,
    }
}

/// The data of an event: what was given of it, and nothing else.
pub open spec fn event_data(args: LogEventArgs) -> JsonView {
    let s0 = with_member(Seq::empty(), "cmd"@, text_member(args.cmd));
    let s1 = with_member(s0, "cwd"@, text_member(args.cwd));
    let s2 = with_member(
        s1,
        "exit"@,
        match args.exit {
            Some(n) => Some(int_view(n as i64)),
            None => None,
        },
    );
    let s3 = with_member(
        s2,
        "duration_ms"@,
        match args.duration_ms {
            Some(n) => Some(JsonView::Unsigned(n)),
            None => None,
        },
    );
    let s4 = with_member(
        s3,
        "cols"@,
        match args.cols {
            Some(n) => Some(JsonView::Unsigned(n as u64)),
            None => None,
        },
    );
    let s5 = with_member(
        s4,
        "rows"@,
        match args.rows {
            Some(n) => Some(JsonView::Unsigned(n as u64)),
            None => None,
        },
    );
    JsonView::Object(s5)
}

fn opt_text_json(s: &Option<String>) -> (r: Option<Json>)
    ensures
        opt_json(r) == text_member(*s),
{
    match s {
        Some(t) => Some(json_str(t.as_str())),
        None => None,
    }
}

fn opt_uint_json(n: Option<u64>) -> (r: Option<Json>)
    ensures
        opt_json(r) == (match n {
            Some(k) => Some(JsonView::Unsigned(k)),
            None => None,
        }),
{
    match n {
        Some(k) => Some(json_uint(k)),
        None => None,
    }
}

fn widen(n: Option<u16>) -> (r: Option<u64>)
    ensures
        r == (match n {
            Some(k) => Some(k as u64),
            None => None,
        }),
{
    match n {
        Some(k) => Some(k as u64),
        None => None,
    }
}

/// The data of an event.
pub fn write_log_event(args: &LogEventArgs) -> (r: Json)
    ensures
        r@ == event_data(*args),
{
    let mut members: Vec<(String, Json)> = Vec::new();
    assert(member_views(members@) =~= Seq::empty());
    put_member(&mut members, "cmd", opt_text_json(&args.cmd));
    put_member(&mut members, "cwd", opt_text_json(&args.cwd));
    let exit = match args.exit {
        Some(n) => Some(json_int(n as i64)),
        None => None,
    };
    put_member(&mut members, "exit", exit);
    put_member(&mut members, "duration_ms", opt_uint_json(args.duration_ms));
    put_member(&mut members, "cols", opt_uint_json(widen(args.cols)));
    put_member(&mut members, "rows", opt_uint_json(widen(args.rows)));
    proof {
        lemma_object_view(members);
    }
    Json::Object(members)
}

/// An event as it is written down.
pub fn write_log_event_value(
    ts_ms: u64,
    session_id: &str,
    actor: &str,
    kind: &str,
    data: Json,
    pid: u32,
) -> (r: Json)
    ensures
        r@ == JsonView::Object(
            seq![
                ("ts_ms"@, JsonView::Unsigned(ts_ms)),
                ("session_id"@, JsonView::Str(session_id@)),
                ("actor"@, JsonView::Str(actor@)),
                ("kind"@, JsonView::Str(kind@)),
                ("data"@, data@),
                ("pid"@, JsonView::Unsigned(pid as u64)),
            ],
        ),
{
    let ghost d = data@;
    let mut members: Vec<(String, Json)> = Vec::new();
    members.push(("ts_ms".to_string(), json_uint(ts_ms)));
    members.push(("session_id".to_string(), json_str(session_id)));
    members.push(("actor".to_string(), json_str(actor)));
    members.push(("kind".to_string(), json_str(kind)));
    members.push(("data".to_string(), data));
    members.push(("pid".to_string(), json_uint(pid as u64)));
    proof {
        lemma_object_view(members);
        assert(member_views(members@) =~= seq![
            ("ts_ms"@, JsonView::Unsigned(ts_ms)),
            ("session_id"@, JsonView::Str(session_id@)),
            ("actor"@, JsonView::Str(actor@)),
            ("kind"@, JsonView::Str(kind@)),
            ("data"@, d),
            ("pid"@, JsonView::Unsigned(pid as u64)),
        ]);
    }
    Json::Object(members)
}

/// What was said and what the environment says, where nothing was said.
#[derive(Debug)]
pub struct LogTarget {
    pub session: Option<String>,
    pub log_dir: Option<String>,
    pub actor: Option<String>,
    pub env_session: Option<String>,
    pub env_log_dir: Option<String>,
    pub env_actor: Option<String>,
}

/// The first of two texts that is there.
pub open spec fn either(a: Option<String>, b: Option<String>) -> Option<Seq<char>> {
    match a {
        Some(t) => Some(t@),
        None => opt_text(b),
    }
}

/// The session, the directory and the actor of an event. Without a session there
/// is nowhere to write; without a directory the session has one of its own below
/// the logs.
pub open spec fn log_target(
    target: LogTarget,
    logging_dir: Seq<char>,
    home: Option<Seq<char>>,
) -> Result<(Seq<char>, Seq<char>, Seq<char>), Seq<char>> {
    match either(target.session, target.env_session) {
        None => Err("missing session id (set AISH_SESSION_ID or --session)"@),
        Some(session) => Ok(
            (
                session,
                match either(target.log_dir, target.env_log_dir) {
                    Some(dir) => expanded(dir, home),
                    None => path_below(expanded(logging_dir, home), session),
                },
                text_or(either(target.actor, target.env_actor), "unknown"@),
            ),
        ),
    }
}

/// The session, the directory and the actor of an event, by their views.
pub open spec fn target_result(r: Result<(String, String, String), String>) -> Result<
    (Seq<char>, Seq<char>, Seq<char>),
    Seq<char>,
> {
    match r {
        Ok(t) => Ok((t.0@, t.1@, t.2@)),
        Err(e) => Err(e@),
    }
}

fn first_of_two(a: &Option<String>, b: &Option<String>) -> (r: Option<String>)
    ensures
        opt_text(r) == either(*a, *b),
{
    match a {
        Some(t) => Some(t.clone()),
        None => match b {
            Some(t) => Some(t.clone()),
            None => None,
        },
    }
}

/// The directory of a session's logs.
pub fn log_dir(logging_dir: &str, session_id: &str, home: Option<&str>) -> (r: String)
    ensures
        r@ == path_below(expanded(logging_dir@, opt_str(home)), session_id@),
{
    let base = resolve_path(logging_dir, home);
    join_path(base.as_str(), session_id)
}

/// The session, the directory and the actor of an event.
pub fn resolve_session_and_dir(target: &LogTarget, logging_dir: &str, home: Option<&str>) -> (r: Result<
    (String, String, String),
    String,
>)
    ensures
        target_result(r) == log_target(*target, logging_dir@, opt_str(home)),
{
    let session = match first_of_two(&target.session, &target.env_session) {
        Some(s) => s,
        None => {
            return Err("missing session id (set AISH_SESSION_ID or --session)".to_string());
        },
    };
    let dir = match first_of_two(&target.log_dir, &target.env_log_dir) {
        Some(d) => resolve_path(d.as_str(), home),
        None => log_dir(logging_dir, session.as_str(), home),
    };
    let actor = match first_of_two(&target.actor, &target.env_actor) {
        Some(a) => a,
        None => "unknown".to_string(),
    };
    Ok((session, dir, actor))
}

/// What is written down when a model is asked.
pub fn llm_request_data(prompt: &str, model: Option<&str>, provider: Option<&str>) -> (r: Json)
    ensures
        r@ == JsonView::Object(
            seq![
                ("prompt"@, JsonView::Str(prompt@)),
                ("model"@, str_or_null(opt_str(model))),
                ("provider"@, str_or_null(opt_str(provider))),
                ("agentic_inline"@, JsonView::Bool(true)),
            ],
        ),
{
    object4(
        "prompt",
        json_str(prompt),
        "model",
        json_opt_str(model),
        "provider",
        json_opt_str(provider),
        "agentic_inline",
        Json::Bool(true),
    )
}

/// What is written down when a model has answered, and whether the answer was
/// got in one go after the loop had failed.
pub fn llm_response_data(text: &str, fallback: bool) -> (r: Json)
    ensures
        r@ == (if fallback {
            JsonView::Object(
                seq![
                    ("text"@, JsonView::Str(text@)),
                    ("fallback"@, JsonView::Str("single_completion"@)),
                ],
            )
        } else {
            JsonView::Object(seq![("text"@, JsonView::Str(text@))])
        }),
{
    if fallback {
        object2("text", json_str(text), "fallback", json_str("single_completion"))
    } else {
        object1("text", json_str(text))
    }
}

/// What was given of an event is written down under its name, and nothing else is.
pub proof fn events_hold_what_was_given(args: LogEventArgs, name: Seq<char>, other: JsonView)
    ensures
        ({
            let data = event_data(args);
            &&& args.cmd is Some ==> says(data, "cmd"@, JsonView::Str(args.cmd->Some_0@))
            &&& args.cwd is Some ==> says(data, "cwd"@, JsonView::Str(args.cwd->Some_0@))
            &&& args.exit is Some ==> says(data, "exit"@, int_view(args.exit->Some_0 as i64))
            &&& args.duration_ms is Some ==> says(
                data,
                "duration_ms"@,
                JsonView::Unsigned(args.duration_ms->Some_0),
            )
            &&& args.cols is Some ==> says(
                data,
                "cols"@,
                JsonView::Unsigned(args.cols->Some_0 as u64),
            )
            &&& args.rows is Some ==> says(
                data,
                "rows"@,
                JsonView::Unsigned(args.rows->Some_0 as u64),
            )
            &&& says(data, name, other) ==> {
                ||| name == "cmd"@ && args.cmd is Some
                ||| name == "cwd"@ && args.cwd is Some
                ||| name == "exit"@ && args.exit is Some
                ||| name == "duration_ms"@ && args.duration_ms is Some
                ||| name == "cols"@ && args.cols is Some
                ||| name == "rows"@ && args.rows is Some
            }
        }),
{
    let e = Seq::<(Seq<char>, JsonView)>::empty();
    let v0 = text_member(args.cmd);
    let s0 = with_member(e, "cmd"@, v0);
    lemma_with_member(e, "cmd"@, v0);
    let v1 = text_member(args.cwd);
    let s1 = with_member(s0, "cwd"@, v1);
    lemma_with_member(s0, "cwd"@, v1);
    let v2 = match args.exit {
        Some(n) => Some(int_view(n as i64)),
        None => None,
    };
    let s2 = with_member(s1, "exit"@, v2);
    lemma_with_member(s1, "exit"@, v2);
    let v3 = match args.duration_ms {
        Some(n) => Some(JsonView::Unsigned(n)),
        None => None,
    };
    let s3 = with_member(s2, "duration_ms"@, v3);
    lemma_with_member(s2, "duration_ms"@, v3);
    let v4 = match args.cols {
        Some(n) => Some(JsonView::Unsigned(n as u64)),
        None => None,
    };
    let s4 = with_member(s3, "cols"@, v4);
    lemma_with_member(s3, "cols"@, v4);
    let v5 = match args.rows {
        Some(n) => Some(JsonView::Unsigned(n as u64)),
        None => None,
    };
    lemma_with_member(s4, "rows"@, v5);
}

/// What was said wins over the environment. Without a session there is nowhere to write; a
/// directory that is given is used as it is, and else the session has its own below the
/// logs; an actor that nothing is known of is so called.
pub proof fn what_was_said_comes_first(
    target: LogTarget,
    logging_dir: Seq<char>,
    home: Option<Seq<char>>,
)
    ensures
        match log_target(target, logging_dir, home) {
            Err(_) => target.session is None && target.env_session is None,
            Ok((session, dir, actor)) => {
                &&& target.session is Some ==> session == target.session->Some_0@
                &&& target.session is None ==> opt_text(target.env_session) == Some(session)
                &&& target.log_dir is Some ==> dir == expanded(target.log_dir->Some_0@, home)
                &&& target.log_dir is None && target.env_log_dir is Some ==> dir == expanded(
                    target.env_log_dir->Some_0@,
                    home,
                )
                &&& target.log_dir is None && target.env_log_dir is None ==> dir == path_below(
                    expanded(logging_dir, home),
                    session,
                )
                &&& target.actor is Some ==> actor == target.actor->Some_0@
                &&& target.actor is None && target.env_actor is Some ==> actor
                    == target.env_actor->Some_0@
                &&& target.actor is None && target.env_actor is None ==> actor == "unknown"@
            },
        },
{
}

} // verus!
