//! Failed commands and tool calls, found by pairing the start and the end of
//! each in the recorded events.
use vstd::prelude::*;
use crate::json::{
    bool_of, field, int_of, json_of_text, parse_json, searchable, string_field, value_to_i64,
    value_to_searchable_text, Json, JsonView,
};
use crate::text::{int_to_string, opt_text, push_text, same, signed_decimal, strs, text_or, trim, trimmed};
use crate::text::lemma_strs_push;

verus! {

broadcast use vstd::string::group_string_axioms;

/// An event as it was recorded.
#[derive(Debug)]
pub struct EventRecord {
    pub ts_ms: Option<i64>,
    pub kind: String,
    pub data: Json,
}

/// What the data of an event say; null where the text is no JSON document.
pub open spec fn data_of(text: Seq<char>) -> JsonView {
    match json_of_text(text) {
        Some(v) => v,
        None => JsonView::Null,
    }
}

/// An event as it stands in the index, its data as a document.
pub fn event_record(ts_ms: Option<i64>, kind: String, data_json: &str) -> (r: EventRecord)
    ensures
        r.ts_ms == ts_ms,
        r.kind@ == kind@,
        r.data@ == data_of(data_json@),
{
    let data = match parse_json(data_json) {
        Some(v) => v,
        None => Json::Null,
    };
    EventRecord { ts_ms, kind, data }
}

/// A command that ended with an exit code other than 0.
#[derive(Debug)]
pub struct CommandFailure {
    pub command: Option<String>,
    pub exit: i64,
    pub text: String,
    pub ts_ms: Option<i64>,
}

/// A tool call that went wrong.
#[derive(Debug)]
pub struct ToolFailure {
    pub tool: String,
    pub error: String,
    pub text: String,
    pub ts_ms: Option<i64>,
}

/// What a `CommandFailure` holds.
pub struct CommandFailureView {
    pub command: Option<Seq<char>>,
    pub exit: i64,
    pub text: Seq<char>,
    pub ts_ms: Option<i64>,
}

/// What a `ToolFailure` holds.
pub struct ToolFailureView {
    pub tool: Seq<char>,
    pub error: Seq<char>,
    pub text: Seq<char>,
    pub ts_ms: Option<i64>,
}

impl View for CommandFailure {
    type V = CommandFailureView;

    open spec fn view(&self) -> CommandFailureView {
        CommandFailureView {
            command: opt_text(self.command),
            exit: self.exit,
            text: self.text@,
            ts_ms: self.ts_ms,
        }
    }
}

impl View for ToolFailure {
    type V = ToolFailureView;

    open spec fn view(&self) -> ToolFailureView {
        ToolFailureView {
            tool: self.tool@,
            error: self.error@,
            text: self.text@,
            ts_ms: self.ts_ms,
        }
    }
}

/// What a row of command failures holds.
pub open spec fn command_failure_views(v: Seq<CommandFailure>) -> Seq<CommandFailureView> {
    Seq::new(v.len(), |i: int| v[i]@)
}

/// What a row of tool failures holds.
pub open spec fn tool_failure_views(v: Seq<ToolFailure>) -> Seq<ToolFailureView> {
    Seq::new(v.len(), |i: int| v[i]@)
}

/// At most the first `max` items.
pub open spec fn first_of<A>(s: Seq<A>, max: nat) -> Seq<A> {
    if s.len() <= max {
        s
    } else {
        s.take(max as int)
    }
}

// ---------------------------------------------------------------------------
// Commands
// ---------------------------------------------------------------------------

/// The commands that have started and not failed, and the failures so far,
/// newest first.
pub struct CommandScan {
    pub pending: Seq<Seq<char>>,
    pub failures: Seq<CommandFailureView>,
}

/// The exit code that an event reports.
pub open spec fn reported_exit(event: EventRecord) -> int {
    match field(event.data@, "exit"@) {
        Some(v) => match int_of(v) {
            Some(n) => n,
            None => 0,
        },
        None => 0,
    }
}

/// What an event adds. A command that starts is pending; one that ends badly is
/// taken to be the one that started last.
pub open spec fn command_step(st: CommandScan, event: EventRecord) -> CommandScan {
    if event.kind@ == "command.start"@ {
        let cmd = trimmed(text_or(string_field(event.data@, "cmd"@), ""@));
        if cmd.len() == 0 {
            st
        } else {
            CommandScan { pending: st.pending.push(cmd), ..st }
        }
    } else if event.kind@ == "command.end"@ && reported_exit(event) != 0 {
        let exit = reported_exit(event);
        if st.pending.len() > 0 {
            let cmd = st.pending.last();
            let failure = CommandFailureView {
                command: Some(cmd),
                exit: exit as i64,
                text: cmd + " -> exit "@ + signed_decimal(exit),
                ts_ms: event.ts_ms,
            };
            CommandScan {
                pending: st.pending.drop_last(),
                failures: seq![failure] + st.failures,
            }
        } else {
            let failure = CommandFailureView {
                command: None,
                exit: exit as i64,
                text: "command ended with exit "@ + signed_decimal(exit),
                ts_ms: event.ts_ms,
            };
            CommandScan { failures: seq![failure] + st.failures, ..st }
        }
    } else {
        st
    }
}

/// The scan of events that are listed newest first.
pub open spec fn command_scan(events: Seq<EventRecord>) -> CommandScan
    decreases events.len(),
{
    if events.len() == 0 {
        CommandScan { pending: Seq::empty(), failures: Seq::empty() }
    } else {
        command_step(command_scan(events.skip(1)), events[0])
    }
}

fn event_exit(event: &EventRecord) -> (r: i64)
    ensures
        r == reported_exit(*event),
{
    match event.data.get("exit") {
        Some(v) => match value_to_i64(v) {
            Some(n) => n,
            None => 0,
        },
        None => 0,
    }
}

proof fn lemma_reverse_push(v: Seq<CommandFailure>, f: CommandFailure)
    ensures
        command_failure_views(v.push(f)).reverse() == seq![f@] + command_failure_views(v).reverse(),
{
    assert(command_failure_views(v.push(f)).reverse() =~= seq![f@] + command_failure_views(
        v,
    ).reverse());
}

fn command_failures_reversed(v: &Vec<CommandFailure>, max: usize) -> (r: Vec<CommandFailure>)
    ensures
        command_failure_views(r@) == first_of(command_failure_views(v@).reverse(), max as nat),
{
    let mut out: Vec<CommandFailure> = Vec::new();
    let ghost all = command_failure_views(v@).reverse();
    let mut i: usize = v.len();
    while i > 0 && out.len() < max
        invariant
            all == command_failure_views(v@).reverse(),
            i <= v@.len(),
            out@.len() == v@.len() - i,
            out@.len() <= max,
            command_failure_views(out@) == all.take(out@.len() as int),
        decreases i,
    {
        i = i - 1;
        let f = &v[i];
        let copy = CommandFailure {
            command: match &f.command {
                Some(c) => Some(c.clone()),
                None => None,
            },
            exit: f.exit,
            text: f.text.clone(),
            ts_ms: f.ts_ms,
        };
        let ghost before = out@;
        assert(copy@ == all[before.len() as int]);
        out.push(copy);
        assert(command_failure_views(out@) =~= all.take(before.len() as int).push(copy@));
        assert(all.take(before.len() as int + 1) =~= all.take(before.len() as int).push(copy@));
    }
    assert(command_failure_views(out@) =~= first_of(all, max as nat));
    out
}

/// The failed commands among events that are listed newest first: at most `max`
/// of them, newest first.
pub fn correlate_command_failures(events: &Vec<EventRecord>, max: usize) -> (r: Vec<
    CommandFailure,
>)
    ensures
        command_failure_views(r@) == first_of(command_scan(events@).failures, max as nat),
{
    let mut pending: Vec<String> = Vec::new();
    let mut failures: Vec<CommandFailure> = Vec::new();
    let mut i: usize = events.len();
    assert(strs(pending@) =~= Seq::empty());
    assert(command_failure_views(failures@).reverse() =~= Seq::empty());
    while i > 0
        invariant
            i <= events@.len(),
            strs(pending@) == command_scan(events@.skip(i as int)).pending,
            command_failure_views(failures@).reverse() == command_scan(
                events@.skip(i as int),
            ).failures,
        decreases i,
    {
        let ghost before = command_scan(events@.skip(i as int));
        i = i - 1;
        proof {
            assert(events@.skip(i as int)[0] == events@[i as int]);
            assert(events@.skip(i as int).skip(1) =~= events@.skip(i + 1));
        }
        let event = &events[i];
        if same(event.kind.as_str(), "command.start") {
            let cmd = match event.data.get_string("cmd") {
                Some(c) => trim(c.as_str()),
                None => trim(""),
            };
            if !cmd.as_str().is_empty() {
                proof {
                    lemma_strs_push(pending@, cmd);
                }
                pending.push(cmd);
            }
        } else if same(event.kind.as_str(), "command.end") {
            let exit: i64 = event_exit(event);
            if exit != 0 {
                assert(pending@.len() == strs(pending@).len());
                let ghost old_pending = pending@;
                let failure = match pending.pop() {
                    Some(cmd) => {
                        assert(strs(pending@) =~= before.pending.drop_last());
                        let mut text = cmd.clone();
                        push_text(&mut text, " -> exit ");
                        push_text(&mut text, int_to_string(exit).as_str());
                        CommandFailure { command: Some(cmd), exit, text, ts_ms: event.ts_ms }
                    },
                    None => {
                        let mut text = "command ended with exit ".to_string();
                        push_text(&mut text, int_to_string(exit).as_str());
                        CommandFailure { command: None, exit, text, ts_ms: event.ts_ms }
                    },
                };
                proof {
                    lemma_reverse_push(failures@, failure);
                }
                failures.push(failure);
            }
        }
    }
    assert(events@.skip(0) =~= events@);
    command_failures_reversed(&failures, max)
}

/// Every command failure has an exit code other than 0, and says so.
pub proof fn command_failures_failed(events: Seq<EventRecord>)
    ensures
        forall|i: int|
            0 <= i < command_scan(events).failures.len() ==> ({
                let f = #[trigger] command_scan(events).failures[i];
                &&& f.exit != 0
                &&& f.text == match f.command {
                    Some(cmd) => cmd + " -> exit "@ + signed_decimal(f.exit as int),
                    None => "command ended with exit "@ + signed_decimal(f.exit as int),
                }
            }),
    decreases events.len(),
{
    if events.len() > 0 {
        command_failures_failed(events.skip(1));
        let before = command_scan(events.skip(1));
        let after = command_scan(events);
        if after.failures.len() > before.failures.len() {
            lemma_exit_range(events[0]);
            assert forall|i: int| 0 <= i < after.failures.len() implies ({
                let f = #[trigger] after.failures[i];
                &&& f.exit != 0
                &&& f.text == match f.command {
                    Some(cmd) => cmd + " -> exit "@ + signed_decimal(f.exit as int),
                    None => "command ended with exit "@ + signed_decimal(f.exit as int),
                }
            }) by {
                if i > 0 {
                    assert(after.failures[i] == before.failures[i - 1]);
                }
            }
        }
    }
}

proof fn lemma_exit_range(event: EventRecord)
    ensures
        i64::MIN <= reported_exit(event) <= i64::MAX,
{
}

// ---------------------------------------------------------------------------
// Tools
// ---------------------------------------------------------------------------

/// The tools that have started and not failed, and the failures so far, newest
/// first.
pub struct ToolScan {
    pub pending: Seq<Seq<char>>,
    pub failures: Seq<ToolFailureView>,
}

/// What the tool and its error add up to.
pub open spec fn tool_failure(tool: Seq<char>, event: EventRecord) -> ToolFailureView {
    let error = match field(event.data@, "error"@) {
        Some(v) => searchable(v),
        None => "unknown error"@,
    };
    ToolFailureView { tool, error, text: tool + " failed: "@ + error, ts_ms: event.ts_ms }
}

/// What an event adds. A failed call that does not name its tool is taken to be
/// the one that started last.
pub open spec fn tool_step(st: ToolScan, event: EventRecord) -> ToolScan {
    let named = string_field(event.data@, "tool"@);
    if event.kind@ == "tool.start"@ {
        match named {
            Some(tool) => ToolScan { pending: st.pending.push(tool), ..st },
            None => st,
        }
    } else if event.kind@ == "tool.end"@ && bool_of(field(event.data@, "ok"@)) == Some(false) {
        match named {
            Some(tool) => ToolScan {
                failures: seq![tool_failure(tool, event)] + st.failures,
                ..st
            },
            None => if st.pending.len() > 0 {
                ToolScan {
                    pending: st.pending.drop_last(),
                    failures: seq![tool_failure(st.pending.last(), event)] + st.failures,
                }
            } else {
                ToolScan {
                    failures: seq![tool_failure("unknown"@, event)] + st.failures,
                    ..st
                }
            },
        }
    } else {
        st
    }
}

/// The scan of events that are listed newest first.
pub open spec fn tool_scan(events: Seq<EventRecord>) -> ToolScan
    decreases events.len(),
{
    if events.len() == 0 {
        ToolScan { pending: Seq::empty(), failures: Seq::empty() }
    } else {
        tool_step(tool_scan(events.skip(1)), events[0])
    }
}

proof fn lemma_tool_reverse_push(v: Seq<ToolFailure>, f: ToolFailure)
    ensures
        tool_failure_views(v.push(f)).reverse() == seq![f@] + tool_failure_views(v).reverse(),
{
    assert(tool_failure_views(v.push(f)).reverse() =~= seq![f@] + tool_failure_views(v).reverse());
}

fn tool_failures_reversed(v: &Vec<ToolFailure>, max: usize) -> (r: Vec<ToolFailure>)
    ensures
        tool_failure_views(r@) == first_of(tool_failure_views(v@).reverse(), max as nat),
{
    let mut out: Vec<ToolFailure> = Vec::new();
    let ghost all = tool_failure_views(v@).reverse();
    let mut i: usize = v.len();
    while i > 0 && out.len() < max
        invariant
            all == tool_failure_views(v@).reverse(),
            i <= v@.len(),
            out@.len() == v@.len() - i,
            out@.len() <= max,
            tool_failure_views(out@) == all.take(out@.len() as int),
        decreases i,
    {
        i = i - 1;
        let f = &v[i];
        let copy = ToolFailure {
            tool: f.tool.clone(),
            error: f.error.clone(),
            text: f.text.clone(),
            ts_ms: f.ts_ms,
        };
        let ghost before = out@;
        assert(copy@ == all[before.len() as int]);
        out.push(copy);
        assert(tool_failure_views(out@) =~= all.take(before.len() as int).push(copy@));
        assert(all.take(before.len() as int + 1) =~= all.take(before.len() as int).push(copy@));
    }
    assert(tool_failure_views(out@) =~= first_of(all, max as nat));
    out
}

/// The failed tool calls among events that are listed newest first: at most
/// `max` of them, newest first.
pub fn correlate_tool_failures(events: &Vec<EventRecord>, max: usize) -> (r: Vec<ToolFailure>)
    ensures
        tool_failure_views(r@) == first_of(tool_scan(events@).failures, max as nat),
{
    let mut pending: Vec<String> = Vec::new();
    let mut failures: Vec<ToolFailure> = Vec::new();
    let mut i: usize = events.len();
    assert(strs(pending@) =~= Seq::empty());
    assert(tool_failure_views(failures@).reverse() =~= Seq::empty());
    while i > 0
        invariant
            i <= events@.len(),
            strs(pending@) == tool_scan(events@.skip(i as int)).pending,
            tool_failure_views(failures@).reverse() == tool_scan(events@.skip(i as int)).failures,
        decreases i,
    {
        let ghost before = tool_scan(events@.skip(i as int));
        i = i - 1;
        proof {
            assert(events@.skip(i as int)[0] == events@[i as int]);
            assert(events@.skip(i as int).skip(1) =~= events@.skip(i + 1));
        }
        let event = &events[i];
        let named = event.data.get_string("tool");
        if same(event.kind.as_str(), "tool.start") {
            if let Some(tool) = named {
                proof {
                    lemma_strs_push(pending@, tool);
                }
                pending.push(tool);
            }
        } else if same(event.kind.as_str(), "tool.end") {
            let ok = match event.data.get_bool("ok") {
                Some(b) => b,
                None => true,
            };
            if !ok {
                assert(pending@.len() == strs(pending@).len());
                let tool = match named {
                    Some(tool) => tool,
                    None => match pending.pop() {
                        Some(tool) => {
                            assert(strs(pending@) =~= before.pending.drop_last());
                            tool
                        },
                        None => "unknown".to_string(),
                    },
                };
                let error = match event.data.get("error") {
                    Some(v) => value_to_searchable_text(v),
                    None => "unknown error".to_string(),
                };
                let mut text = tool.clone();
                push_text(&mut text, " failed: ");
                push_text(&mut text, error.as_str());
                let failure = ToolFailure { tool, error, text, ts_ms: event.ts_ms };
                proof {
                    lemma_tool_reverse_push(failures@, failure);
                }
                failures.push(failure);
            }
        }
    }
    assert(events@.skip(0) =~= events@);
    tool_failures_reversed(&failures, max)
}

// ---------------------------------------------------------------------------
// What is blamed for a failure
// ---------------------------------------------------------------------------

/// A command starts: the event is of its kind and its data name a command that is
/// more than white space.
pub open spec fn starts_command(event: EventRecord, cmd: Seq<char>) -> bool {
    &&& event.kind@ == "command.start"@
    &&& exists|raw: Seq<char>| #[trigger]
        trimmed(raw) == cmd && field(event.data@, "cmd"@) == Some(JsonView::Str(raw))
    &&& cmd.len() > 0
}

/// A command ends with an exit code.
pub open spec fn ends_command(event: EventRecord, exit: int) -> bool {
    &&& event.kind@ == "command.end"@
    &&& field(event.data@, "exit"@) is Some
    &&& int_of(field(event.data@, "exit"@)->Some_0) == Some(exit)
}

/// A command that ends badly right after it started is the one that is blamed, with
/// its exit code and the time of its end, and it is reported first. What came before
/// is reported and blamed as if the command had never been run.
pub proof fn the_command_before_is_blamed(
    events: Seq<EventRecord>,
    cmd: Seq<char>,
    exit: int,
    max: nat,
)
    requires
        events.len() >= 2,
        ends_command(events[0], exit),
        exit != 0,
        starts_command(events[1], cmd),
        max > 0,
    ensures
        ({
            let reported = first_of(command_scan(events).failures, max);
            &&& reported.len() > 0
            &&& reported[0].command == Some(cmd)
            &&& reported[0].exit == exit
            &&& reported[0].text == cmd + " -> exit "@ + signed_decimal(exit)
            &&& reported[0].ts_ms == events[0].ts_ms
        }),
        command_scan(events).failures.skip(1) == command_scan(events.skip(2)).failures,
        command_scan(events).pending == command_scan(events.skip(2)).pending,
{
    reveal_strlit("command.start");
    reveal_strlit("command.end");
    assert("command.start"@.len() != "command.end"@.len());
    let rest = command_scan(events.skip(2));
    assert(events.skip(1).skip(1) =~= events.skip(2));
    assert(events.skip(1)[0] == events[1]);
    reveal_with_fuel(command_scan, 3);
    let mid = command_scan(events.skip(1));
    let raw = choose|raw: Seq<char>| #[trigger]
        trimmed(raw) == cmd && field(events[1].data@, "cmd"@) == Some(JsonView::Str(raw));
    assert(string_field(events[1].data@, "cmd"@) == Some(raw));
    assert(mid.pending == rest.pending.push(cmd));
    assert(mid.pending.drop_last() =~= rest.pending);
    assert(command_scan(events).failures.skip(1) =~= rest.failures);
}

/// Commands that started one inside the other and end badly one after the other are
/// blamed from the inside out.
pub proof fn nested_commands_are_blamed_inside_out(
    events: Seq<EventRecord>,
    inner: Seq<char>,
    outer: Seq<char>,
    first_exit: int,
    second_exit: int,
)
    requires
        events.len() >= 4,
        ends_command(events[0], second_exit),
        ends_command(events[1], first_exit),
        first_exit != 0,
        second_exit != 0,
        starts_command(events[2], inner),
        starts_command(events[3], outer),
    ensures
        ({
            let failures = command_scan(events).failures;
            &&& failures.len() >= 2
            &&& failures[0].command == Some(outer)
            &&& failures[0].exit == second_exit
            &&& failures[1].command == Some(inner)
            &&& failures[1].exit == first_exit
        }),
{
    reveal_strlit("command.start");
    reveal_strlit("command.end");
    assert("command.start"@.len() != "command.end"@.len());
    let e1 = events.skip(1);
    assert(e1[0] == events[1] && e1[1] == events[2]);
    the_command_before_is_blamed(e1, inner, first_exit, 1);
    assert(e1.skip(2) =~= events.skip(3));
    let e3 = events.skip(3);
    assert(e3[0] == events[3]);
    let raw = choose|raw: Seq<char>| #[trigger]
        trimmed(raw) == outer && field(events[3].data@, "cmd"@) == Some(JsonView::Str(raw));
    assert(string_field(events[3].data@, "cmd"@) == Some(raw));
    assert(command_scan(e3).pending.last() == outer);
    let before = command_scan(e1);
    assert(command_scan(events) == command_step(before, events[0]));
    assert(before.failures.len() > 0);
    assert(command_scan(events).failures[1] == before.failures[0]);
}

/// A command that ends badly where none had started is reported without a name.
pub proof fn failures_without_a_start_are_reported(
    events: Seq<EventRecord>,
    exit: int,
)
    requires
        events.len() >= 1,
        ends_command(events[0], exit),
        exit != 0,
        forall|i: int, cmd: Seq<char>|
            0 < i < events.len() ==> !#[trigger] starts_command(events[i], cmd),
    ensures
        command_scan(events).failures.len() > 0,
        command_scan(events).failures[0].command is None,
        command_scan(events).failures[0].exit == exit,
        command_scan(events).failures[0].text == "command ended with exit "@ + signed_decimal(exit),
        command_scan(events).failures[0].ts_ms == events[0].ts_ms,
{
    reveal_strlit("command.start");
    reveal_strlit("command.end");
    assert("command.start"@.len() != "command.end"@.len());
    let rest = events.skip(1);
    assert forall|i: int, cmd: Seq<char>|
        0 <= i < rest.len() implies !#[trigger] starts_command(rest[i], cmd) by {
        assert(rest[i] == events[i + 1]);
        assert(!starts_command(events[i + 1], cmd));
    }
    lemma_nothing_started(rest);
}

proof fn lemma_nothing_started(events: Seq<EventRecord>)
    requires
        forall|i: int, cmd: Seq<char>|
            0 <= i < events.len() ==> !#[trigger] starts_command(events[i], cmd),
    ensures
        command_scan(events).pending.len() == 0,
    decreases events.len(),
{
    if events.len() > 0 {
        let rest = events.skip(1);
        assert forall|i: int, cmd: Seq<char>|
            0 <= i < rest.len() implies !#[trigger] starts_command(rest[i], cmd) by {
            assert(rest[i] == events[i + 1]);
            assert(!starts_command(events[i + 1], cmd));
        }
        lemma_nothing_started(rest);
        reveal_strlit("");
        let raw = text_or(string_field(events[0].data@, "cmd"@), ""@);
        assert(!starts_command(events[0], trimmed(raw)));
        if events[0].kind@ == "command.start"@ {
            if field(events[0].data@, "cmd"@) != Some(JsonView::Str(raw)) {
                assert(raw =~= Seq::empty());
                assert(trimmed(raw).len() == 0) by {
                    reveal_with_fuel(crate::text::trim_front, 2);
                    reveal_with_fuel(crate::text::trim_back, 2);
                }
            }
        }
    }
}

/// Nothing but the end of a command with an exit code other than 0 is a failure: an
/// event of another kind, an end with the code 0 or without a code reports none.
pub proof fn other_events_are_no_failures(events: Seq<EventRecord>)
    requires
        events.len() >= 1,
        forall|exit: int| #[trigger] ends_command(events[0], exit) ==> exit == 0,
    ensures
        command_scan(events).failures == command_scan(events.skip(1)).failures,
{
    if field(events[0].data@, "exit"@) is Some {
        let v = field(events[0].data@, "exit"@)->Some_0;
        if int_of(v) is Some && events[0].kind@ == "command.end"@ {
            assert(ends_command(events[0], int_of(v)->Some_0));
        }
    }
}

/// Each bad end is one failure, newest first: as many failures as bad ends, with
/// their exit codes and times in their order.
pub proof fn every_bad_end_is_a_failure(events: Seq<EventRecord>, exits: Seq<int>)
    requires
        exits.len() == events.len(),
        forall|i: int| 0 <= i < events.len() ==> ends_command(#[trigger] events[i], exits[i]),
        forall|i: int| 0 <= i < exits.len() ==> #[trigger] exits[i] != 0,
    ensures
        command_scan(events).failures.len() == events.len(),
        forall|i: int|
            0 <= i < events.len() ==> ({
                let f = #[trigger] command_scan(events).failures[i];
                f.exit == exits[i] && f.ts_ms == events[i].ts_ms
            }),
    decreases events.len(),
{
    if events.len() > 0 {
        reveal_strlit("command.start");
        reveal_strlit("command.end");
        assert("command.start"@.len() != "command.end"@.len());
        let rest = events.skip(1);
        assert forall|i: int| 0 <= i < rest.len() implies ends_command(
            #[trigger] rest[i],
            exits.skip(1)[i],
        ) by {
            assert(ends_command(events[i + 1], exits[i + 1]));
        }
        assert forall|i: int| 0 <= i < exits.skip(1).len() implies #[trigger] exits.skip(1)[i]
            != 0 by {
            assert(exits[i + 1] != 0);
        }
        every_bad_end_is_a_failure(rest, exits.skip(1));
        assert(ends_command(events[0], exits[0]));
        assert(exits[0] != 0);
        let before = command_scan(rest).failures;
        let after = command_scan(events).failures;
        assert(after.len() == before.len() + 1);
        assert forall|i: int| 0 <= i < events.len() implies ({
            let f = #[trigger] after[i];
            f.exit == exits[i] && f.ts_ms == events[i].ts_ms
        }) by {
            if i > 0 {
                assert(after[i] == before[i - 1]);
                assert(rest[i - 1] == events[i]);
            }
        }
    }
}

/// A call of a tool ends badly.
pub open spec fn ends_tool_badly(event: EventRecord) -> bool {
    event.kind@ == "tool.end"@ && field(event.data@, "ok"@) == Some(JsonView::Bool(false))
}

/// A failed call that names its tool is a failure of that tool, reported first with
/// its error and time; it leaves the calls that are under way as they are.
pub proof fn the_named_tool_is_blamed(events: Seq<EventRecord>, tool: Seq<char>)
    requires
        events.len() >= 1,
        ends_tool_badly(events[0]),
        field(events[0].data@, "tool"@) == Some(JsonView::Str(tool)),
    ensures
        tool_scan(events).failures.len() == tool_scan(events.skip(1)).failures.len() + 1,
        tool_scan(events).failures[0].tool == tool,
        tool_scan(events).failures[0].ts_ms == events[0].ts_ms,
        tool_scan(events).failures[0].text == tool + " failed: "@ + tool_scan(
            events,
        ).failures[0].error,
        match field(events[0].data@, "error"@) {
            Some(JsonView::Str(s)) => tool_scan(events).failures[0].error == s,
            Some(_) => true,
            None => tool_scan(events).failures[0].error == "unknown error"@,
        },
        tool_scan(events).failures.skip(1) == tool_scan(events.skip(1)).failures,
        tool_scan(events).pending == tool_scan(events.skip(1)).pending,
{
    reveal_strlit("tool.start");
    reveal_strlit("tool.end");
    assert("tool.start"@.len() != "tool.end"@.len());
    assert(tool_scan(events).failures.skip(1) =~= tool_scan(events.skip(1)).failures);
}

/// A failed call that names no tool, right after a tool started, is a failure of that
/// tool, and the calls before are as if it had not been.
pub proof fn the_tool_before_is_blamed(events: Seq<EventRecord>, tool: Seq<char>)
    requires
        events.len() >= 2,
        ends_tool_badly(events[0]),
        field(events[0].data@, "tool"@) is None,
        events[1].kind@ == "tool.start"@,
        field(events[1].data@, "tool"@) == Some(JsonView::Str(tool)),
    ensures
        tool_scan(events).failures.len() > 0,
        tool_scan(events).failures[0].tool == tool,
        tool_scan(events).failures[0].ts_ms == events[0].ts_ms,
        tool_scan(events).failures.skip(1) == tool_scan(events.skip(2)).failures,
        tool_scan(events).pending == tool_scan(events.skip(2)).pending,
{
    reveal_strlit("tool.start");
    reveal_strlit("tool.end");
    assert("tool.start"@.len() != "tool.end"@.len());
    let rest = tool_scan(events.skip(2));
    assert(events.skip(1).skip(1) =~= events.skip(2));
    assert(events.skip(1)[0] == events[1]);
    let mid = tool_scan(events.skip(1));
    assert(mid == tool_step(rest, events[1]));
    assert(mid.pending == rest.pending.push(tool));
    assert(mid.pending.drop_last() =~= rest.pending);
    assert(tool_scan(events).failures.skip(1) =~= rest.failures);
}

/// A call that ended well, or does not say how it ended, is no failure, nor is an
/// event of another kind.
pub proof fn other_events_are_no_tool_failures(events: Seq<EventRecord>)
    requires
        events.len() >= 1,
        !ends_tool_badly(events[0]),
    ensures
        tool_scan(events).failures == tool_scan(events.skip(1)).failures,
{
}

} // verus!
