//! Streams of events: how they are cut out of lines, what they do to the answer,
//! and what the user sees of the progress.
use vstd::prelude::*;
use crate::json::{field, json_of_text, opt_json, parse_json, string_field, Json, JsonView};
use crate::provider::text_result;
use crate::store::copy_opt;
use crate::text::{
    after_prefix, chars_of, decimal, nat_to_string, opt_str, opt_text, push_text, same, starts,
    string_of, strip_prefix, text_or, trim, trim_front, trim_start, trimmed, white,
};

verus! {

broadcast use vstd::string::group_string_axioms;

// ---------------------------------------------------------------------------
// Events out of lines
// ---------------------------------------------------------------------------

/// An event of a stream: its type, where it has one, and its data.
#[derive(Debug, PartialEq, Eq)]
pub struct SseEvent {
    pub event_type: Option<String>,
    pub data: String,
}

/// What an `SseEvent` holds.
pub struct EventView {
    pub event_type: Option<Seq<char>>,
    pub data: Seq<char>,
}

impl View for SseEvent {
    type V = EventView;

    open spec fn view(&self) -> EventView {
        EventView { event_type: opt_text(self.event_type), data: self.data@ }
    }
}

/// An event, where there is one.
pub open spec fn opt_event(e: Option<SseEvent>) -> Option<EventView> {
    match e {
        Some(v) => Some(v@),
        None => None,
    }
}

/// A line without the characters that end it.
pub open spec fn without_line_end(line: Seq<char>) -> Seq<char>
    decreases line.len(),
{
    if line.len() > 0 && (line.last() == '\r' || line.last() == '\n') {
        without_line_end(line.drop_last())
    } else {
        line
    }
}

/// The event that has been read so far, after one more line, and the event that
/// the line completes. An empty line ends an event; one without data is dropped.
pub open spec fn after_line(pending: EventView, line: Seq<char>) -> (EventView, Option<EventView>) {
    let text = without_line_end(line);
    if text.len() == 0 {
        (
            EventView { event_type: None, data: Seq::empty() },
            if pending.data.len() > 0 {
                Some(pending)
            } else {
                None
            },
        )
    } else {
        match after_prefix(text, "event:"@) {
            Some(rest) => (
                EventView { event_type: Some(trimmed(rest)), data: pending.data },
                None,
            ),
            None => match after_prefix(text, "data:"@) {
                Some(rest) => (
                    EventView {
                        event_type: pending.event_type,
                        data: (if pending.data.len() > 0 {
                            pending.data + "\n"@
                        } else {
                            pending.data
                        }) + trim_front(rest),
                    },
                    None,
                ),
                None => (pending, None),
            },
        }
    }
}

/// The events of a whole stream: those that its lines complete, and what was
/// left at its end if it holds data.
pub open spec fn stream_events(pending: EventView, lines: Seq<Seq<char>>) -> Seq<EventView>
    decreases lines.len(),
{
    if lines.len() == 0 {
        if pending.data.len() > 0 {
            seq![pending]
        } else {
            Seq::empty()
        }
    } else {
        let (next, done) = after_line(pending, lines[0]);
        let rest = stream_events(next, lines.skip(1));
        match done {
            Some(e) => seq![e] + rest,
            None => rest,
        }
    }
}

/// What has been read of an event so far.
#[derive(Debug)]
pub struct SseReader {
    pub event_type: Option<String>,
    pub data: String,
}

impl View for SseReader {
    type V = EventView;

    open spec fn view(&self) -> EventView {
        EventView { event_type: opt_text(self.event_type), data: self.data@ }
    }
}

fn strip_line_end(line: &str) -> (r: String)
    ensures
        r@ == without_line_end(line@),
{
    let cs = chars_of(line);
    let mut n: usize = cs.len();
    assert(cs@.take(n as int) =~= line@);
    while n > 0 && (cs[n - 1] == '\r' || cs[n - 1] == '\n')
        invariant
            cs@ == line@,
            n <= cs@.len(),
            without_line_end(line@) == without_line_end(line@.take(n as int)),
        decreases n,
    {
        assert(line@.take(n as int).drop_last() =~= line@.take(n - 1));
        n = n - 1;
    }
    let r = string_of(&cs, 0, n);
    assert(r@ =~= line@.take(n as int));
    r
}

impl SseReader {
    /// Nothing has been read.
    pub fn new() -> (r: SseReader)
        ensures
            r@ == (EventView { event_type: None, data: Seq::empty() }),
    {
        let r = SseReader { event_type: None, data: String::new() };
        assert(r.data@ =~= Seq::empty());
        r
    }

    /// Takes a line; returns the event that it completes.
    pub fn feed(&mut self, line: &str) -> (r: Option<SseEvent>)
        ensures
            final(self)@ == after_line(old(self)@, line@).0,
            opt_event(r) == after_line(old(self)@, line@).1,
    {
        let text = strip_line_end(line);
        if text.as_str().is_empty() {
            let had_data = !self.data.as_str().is_empty();
            let event = SseEvent {
                event_type: copy_opt(&self.event_type),
                data: self.data.clone(),
            };
            self.event_type = None;
            self.data = String::new();
            assert(self.data@ =~= Seq::empty());
            return if had_data {
                Some(event)
            } else {
                None
            };
        }
        if let Some(rest) = strip_prefix(text.as_str(), "event:") {
            self.event_type = Some(trim(rest.as_str()));
            return None;
        }
        if let Some(rest) = strip_prefix(text.as_str(), "data:") {
            if !self.data.as_str().is_empty() {
                push_text(&mut self.data, "\n");
            }
            let tail = trim_start(rest.as_str());
            push_text(&mut self.data, tail.as_str());
        }
        None
    }

    /// What is left when the stream ends.
    pub fn finish(self) -> (r: Option<SseEvent>)
        ensures
            opt_event(r) == (if self@.data.len() > 0 {
                Some(self@)
            } else {
                None
            }),
    {
        if self.data.as_str().is_empty() {
            None
        } else {
            Some(SseEvent { event_type: self.event_type, data: self.data })
        }
    }
}

/// Every event that comes out of a stream holds data.
pub proof fn events_hold_data(pending: EventView, lines: Seq<Seq<char>>, i: int)
    requires
        0 <= i < stream_events(pending, lines).len(),
    ensures
        stream_events(pending, lines)[i].data.len() > 0,
    decreases lines.len(),
{
    if lines.len() > 0 {
        let (next, done) = after_line(pending, lines[0]);
        if done is Some {
            if i > 0 {
                events_hold_data(next, lines.skip(1), i - 1);
            }
        } else {
            events_hold_data(next, lines.skip(1), i);
        }
    }
}

proof fn lemma_field_line(name: Seq<char>, value: Seq<char>)
    requires
        value.len() > 0,
        value.last() != '\r',
        value.last() != '\n',
    ensures
        without_line_end(name + value) == name + value,
        after_prefix(name + value, name) == Some(value),
{
    assert((name + value).last() == value.last());
    assert((name + value).take(name.len() as int) =~= name);
    assert((name + value).skip(name.len() as int) =~= value);
}

/// An event that was written with its type and one line of data, and ended by an
/// empty line, is read back as it was written, and what follows is read as if it
/// stood alone.
pub proof fn written_events_are_read(kind: Seq<char>, data: Seq<char>, rest: Seq<Seq<char>>)
    requires
        kind.len() > 0,
        !white(kind[0]),
        !white(kind.last()),
        data.len() > 0,
        !white(data[0]),
        data.last() != '\r',
        data.last() != '\n',
    ensures
        stream_events(
            EventView { event_type: None, data: Seq::empty() },
            seq!["event:"@ + (seq![' '] + kind), "data:"@ + (seq![' '] + data), Seq::empty()]
                + rest,
        ) == seq![EventView { event_type: Some(kind), data }] + stream_events(
            EventView { event_type: None, data: Seq::empty() },
            rest,
        ),
{
    let none = EventView { event_type: None, data: Seq::empty() };
    let typed = EventView { event_type: Some(kind), data: Seq::empty() };
    let whole = EventView { event_type: Some(kind), data };
    let k = seq![' '] + kind;
    let d = seq![' '] + data;
    let l1 = "event:"@ + k;
    let l2 = "data:"@ + d;
    let lines = seq![l1, l2, Seq::<char>::empty()] + rest;
    assert(k.skip(1) =~= kind);
    assert(d.skip(1) =~= data);
    assert(k.last() == kind.last() && d.last() == data.last());
    lemma_field_line("event:"@, k);
    lemma_field_line("data:"@, d);
    reveal_with_fuel(trim_front, 2);
    assert(trim_front(k) == kind);
    assert(trimmed(k) == kind);
    assert(trim_front(d) == data);
    assert(after_line(none, l1) == (typed, None::<EventView>));
    assert(after_prefix(l2, "event:"@) is None) by {
        reveal_strlit("event:");
        reveal_strlit("data:");
        assert(l2[0] == 'd');
        if starts(l2, "event:"@) {
            assert(l2.take("event:"@.len() as int)[0] == 'e');
        }
    }
    assert(typed.data + trim_front(d) =~= data);
    assert(after_line(typed, l2) == (whole, None::<EventView>));
    assert(after_line(whole, Seq::empty()) == (none, Some(whole)));
    assert(lines[0] == l1);
    assert(lines.skip(1) =~= seq![l2, Seq::<char>::empty()] + rest);
    assert(lines.skip(1)[0] == l2);
    assert(lines.skip(1).skip(1) =~= seq![Seq::<char>::empty()] + rest);
    assert(lines.skip(1).skip(1)[0] == Seq::<char>::empty());
    assert(lines.skip(1).skip(1).skip(1) =~= rest);
    assert(stream_events(none, lines) == stream_events(typed, lines.skip(1)));
    assert(stream_events(typed, lines.skip(1)) == stream_events(whole, lines.skip(1).skip(1)));
}

// ---------------------------------------------------------------------------
// Progress
// ---------------------------------------------------------------------------

/// What the user sees while an answer is awaited.
#[derive(Debug)]
pub struct ProgressLine {
    pub enabled: bool,
    pub current_status: String,
    pub last_rendered_ms: Option<u64>,
    pub spinner_idx: usize,
}

/// The figure that turns.
pub open spec fn spinner_frame(idx: usize) -> Seq<char> {
    if idx % 4 == 0 {
        "|"@
    } else if idx % 4 == 1 {
        "/"@
    } else if idx % 4 == 2 {
        "-"@
    } else {
        "\\"@
    }
}

/// Whether the line is due to be shown again: at once if it has to be, else once
/// 120 milliseconds have passed.
pub open spec fn due(last_rendered_ms: Option<u64>, force: bool, elapsed_ms: u64) -> bool {
    force || match last_rendered_ms {
        Some(t) => elapsed_ms - t >= 120,
        None => true,
    }
}

impl ProgressLine {
    /// A line that has not been shown yet.
    pub fn new(enabled: bool) -> (r: ProgressLine)
        ensures
            r.enabled == enabled,
            r.current_status@ == "Packing context..."@,
            r.last_rendered_ms is None,
            r.spinner_idx == 0,
    {
        ProgressLine {
            enabled,
            current_status: "Packing context...".to_string(),
            last_rendered_ms: None,
            spinner_idx: 0,
        }
    }

    /// Takes a status; tells whether it is a new one, which has to be shown.
    pub fn set_status(&mut self, status: &str) -> (r: bool)
        ensures
            r == (old(self).current_status@ != status@),
            final(self).current_status@ == status@,
            final(self).enabled == old(self).enabled,
            final(self).last_rendered_ms == old(self).last_rendered_ms,
            final(self).spinner_idx == old(self).spinner_idx,
    {
        if same(self.current_status.as_str(), status) {
            return false;
        }
        self.current_status = status.to_string();
        true
    }

    /// The line is not shown any more; tells whether it has to be cleared.
    pub fn stop(&mut self) -> (r: bool)
        ensures
            r == old(self).enabled,
            !final(self).enabled,
            final(self).current_status == old(self).current_status,
            final(self).last_rendered_ms == old(self).last_rendered_ms,
            final(self).spinner_idx == old(self).spinner_idx,
    {
        let was = self.enabled;
        self.enabled = false;
        was
    }

    /// What to show, if the line is due, `elapsed_ms` after the start.
    pub fn render(&mut self, force: bool, elapsed_ms: u64) -> (r: Option<String>)
        ensures
            if old(self).enabled && due(old(self).last_rendered_ms, force, elapsed_ms) {
                &&& r is Some
                &&& r->Some_0@ == "[ai] "@ + spinner_frame(old(self).spinner_idx) + " "@ + old(
                    self,
                ).current_status@ + " ("@ + decimal((elapsed_ms / 1000) as nat) + "s)"@
                &&& final(self).last_rendered_ms == Some(elapsed_ms)
                &&& final(self).spinner_idx == (if old(self).spinner_idx == usize::MAX {
                    0
                } else {
                    old(self).spinner_idx + 1
                })
            } else {
                &&& r is None
                &&& final(self).last_rendered_ms == old(self).last_rendered_ms
                &&& final(self).spinner_idx == old(self).spinner_idx
            },
            final(self).enabled == old(self).enabled,
            final(self).current_status == old(self).current_status,
    {
        if !self.enabled {
            return None;
        }
        let ready = match self.last_rendered_ms {
            Some(t) => elapsed_ms >= t && elapsed_ms - t >= 120,
            None => true,
        };
        if !force && !ready {
            return None;
        }
        let k: usize = self.spinner_idx % 4;
        let frame = if k == 0 {
            "|"
        } else if k == 1 {
            "/"
        } else if k == 2 {
            "-"
        } else {
            "\\"
        };
        let mut text = "[ai] ".to_string();
        push_text(&mut text, frame);
        push_text(&mut text, " ");
        push_text(&mut text, self.current_status.as_str());
        push_text(&mut text, " (");
        let secs = nat_to_string((elapsed_ms / 1000) as u128);
        push_text(&mut text, secs.as_str());
        push_text(&mut text, "s)");
        self.spinner_idx = if self.spinner_idx == usize::MAX {
            0
        } else {
            self.spinner_idx + 1
        };
        self.last_rendered_ms = Some(elapsed_ms);
        Some(text)
    }
}

// ---------------------------------------------------------------------------
// What an event does
// ---------------------------------------------------------------------------

/// What is left of the data of an event: a document that is none holds nothing.
pub open spec fn event_field(parsed: Option<JsonView>, key: Seq<char>) -> Option<Seq<char>> {
    match parsed {
        Some(v) => string_field(v, key),
        None => None,
    }
}

/// Where a stream stands: the answer so far, the status shown, whether it is
/// shown, when it was shown last, and which figure comes next.
pub struct StreamView {
    pub full_text: Seq<char>,
    pub status: Seq<char>,
    pub enabled: bool,
    pub last_rendered_ms: Option<u64>,
    pub spinner_idx: usize,
}

/// What an event does, given its document: whether the stream is over, or what
/// went wrong; and where the stream stands then.
pub open spec fn after_event(
    st: StreamView,
    event_type: Seq<char>,
    parsed: Option<JsonView>,
) -> (Result<bool, Seq<char>>, StreamView) {
    if event_type == "status"@ {
        (Ok(false), StreamView { status: text_or(event_field(parsed, "status"@), st.status), ..st })
    } else if event_type == "delta"@ {
        let delta = text_or(event_field(parsed, "delta"@), Seq::empty());
        (
            Ok(false),
            StreamView {
                full_text: st.full_text + delta,
                enabled: st.enabled && (delta.len() == 0 || st.full_text.len() > 0),
                ..st
            },
        )
    } else if event_type == "done"@ {
        (
            Ok(true),
            StreamView {
                full_text: if st.full_text.len() == 0 {
                    text_or(event_field(parsed, "text"@), st.full_text)
                } else {
                    st.full_text
                },
                enabled: false,
                ..st
            },
        )
    } else if event_type == "error"@ {
        (
            Err(text_or(event_field(parsed, "error"@), "streaming request failed"@)),
            StreamView { enabled: false, ..st },
        )
    } else {
        (Ok(false), st)
    }
}

/// Where a stream stands.
pub open spec fn stream_state(full_text: String, progress: ProgressLine) -> StreamView {
    StreamView {
        full_text: full_text@,
        status: progress.current_status@,
        enabled: progress.enabled,
        last_rendered_ms: progress.last_rendered_ms,
        spinner_idx: progress.spinner_idx,
    }
}

/// Whether a stream is over, or what went wrong, by its views.
pub open spec fn done_result(r: Result<bool, String>) -> Result<bool, Seq<char>> {
    match r {
        Ok(b) => Ok(b),
        Err(e) => Err(e@),
    }
}

fn field_of(parsed: &Option<Json>, key: &str) -> (r: Option<String>)
    ensures
        opt_text(r) == event_field(opt_json(*parsed), key@),
{
    match parsed {
        Some(v) => v.get_string(key),
        None => None,
    }
}

/// What an event does, given its document.
pub fn apply_sse_event(
    event_type: Option<&str>,
    parsed: &Option<Json>,
    full_text: &mut String,
    progress: &mut ProgressLine,
) -> (r: Result<bool, String>)
    ensures
        (done_result(r), stream_state(*final(full_text), *final(progress))) == after_event(
            stream_state(*old(full_text), *old(progress)),
            text_or(opt_str(event_type), "delta"@),
            opt_json(*parsed),
        ),
{
    let kind = match event_type {
        Some(t) => t,
        None => "delta",
    };
    if same(kind, "status") {
        if let Some(status) = field_of(parsed, "status") {
            let _ = progress.set_status(status.as_str());
        }
        return Ok(false);
    }
    if same(kind, "delta") {
        match field_of(parsed, "delta") {
            Some(delta) => {
                if !delta.as_str().is_empty() {
                    if full_text.as_str().is_empty() {
                        let _ = progress.stop();
                    }
                    push_text(full_text, delta.as_str());
                } else {
                    assert(old(full_text)@ + delta@ =~= old(full_text)@);
                }
            },
            None => {
                assert(old(full_text)@ + Seq::<char>::empty() =~= old(full_text)@);
            },
        }
        return Ok(false);
    }
    if same(kind, "done") {
        if full_text.as_str().is_empty() {
            if let Some(text) = field_of(parsed, "text") {
                push_text(full_text, text.as_str());
                assert(old(full_text)@ + text@ =~= text@);
            }
        }
        let _ = progress.stop();
        return Ok(true);
    }
    if same(kind, "error") {
        let message = match field_of(parsed, "error") {
            Some(e) => e,
            None => "streaming request failed".to_string(),
        };
        let _ = progress.stop();
        return Err(message);
    }
    Ok(false)
}

/// What an event does. Whatever it adds to the answer is to be shown.
pub fn handle_sse_event(
    event_type: Option<&str>,
    data: &str,
    full_text: &mut String,
    progress: &mut ProgressLine,
) -> (r: Result<bool, String>)
    ensures
        (done_result(r), stream_state(*final(full_text), *final(progress))) == after_event(
            stream_state(*old(full_text), *old(progress)),
            text_or(opt_str(event_type), "delta"@),
            json_of_text(data@),
        ),
{
    let parsed = parse_json(data);
    apply_sse_event(event_type, &parsed, full_text, progress)
}

/// The answer only ever grows, so what was shown of it stays right.
pub proof fn answers_only_grow(st: StreamView, event_type: Seq<char>, parsed: Option<JsonView>)
    ensures
        starts(after_event(st, event_type, parsed).1.full_text, st.full_text),
{
    let next = after_event(st, event_type, parsed).1.full_text;
    assert(next.take(st.full_text.len() as int) =~= st.full_text);
}

/// What a stream comes to when it is over: its answer, or why there is none. A
/// failure counts only if nothing had come before it.
pub open spec fn stream_outcome(
    full_text: Seq<char>,
    done: bool,
    failure: Option<Seq<char>>,
) -> Result<Seq<char>, Seq<char>> {
    if done || full_text.len() > 0 {
        Ok(full_text)
    } else {
        match failure {
            Some(e) => Err(e),
            None => Err("no completion text returned"@),
        }
    }
}

/// What a stream comes to when it is over.
pub fn finish_stream(full_text: String, done: bool, failure: Option<String>) -> (r: Result<
    String,
    String,
>)
    ensures
        text_result(r) == stream_outcome(full_text@, done, opt_text(failure)),
{
    if done || !full_text.as_str().is_empty() {
        return Ok(full_text);
    }
    match failure {
        Some(e) => Err(e),
        None => Err("no completion text returned".to_string()),
    }
}

// ---------------------------------------------------------------------------
// What lines and events do
// ---------------------------------------------------------------------------

/// A line that does not end in a character that ends lines.
pub open spec fn bare(line: Seq<char>) -> bool {
    line.len() > 0 && line.last() != '\r' && line.last() != '\n'
}

proof fn lemma_line_end(line: Seq<char>, end: Seq<char>)
    requires
        line.len() == 0 || bare(line),
        forall|i: int| 0 <= i < end.len() ==> #[trigger] end[i] == '\r' || end[i] == '\n',
    ensures
        without_line_end(line + end) == line,
    decreases end.len(),
{
    if end.len() == 0 {
        assert(line + end =~= line);
    } else {
        assert((line + end).last() == end.last());
        assert(end.last() == end[end.len() - 1]);
        assert((line + end).drop_last() =~= line + end.drop_last());
        assert forall|i: int| 0 <= i < end.drop_last().len() implies #[trigger] end.drop_last()[i]
            == '\r' || end.drop_last()[i] == '\n' by {
            assert(end[i] == end.drop_last()[i]);
        }
        lemma_line_end(line, end.drop_last());
    }
}

/// What a line says is taken without the characters that end it: it names the type of the
/// event, or adds to its data, each line of data behind a line feed; a line of another
/// kind is passed over. An empty line ends the event and starts a new one.
pub proof fn lines_make_events(pending: EventView, text: Seq<char>, end: Seq<char>)
    requires
        forall|i: int| 0 <= i < end.len() ==> #[trigger] end[i] == '\r' || end[i] == '\n',
    ensures
        after_line(pending, end).0 == (EventView { event_type: None, data: Seq::empty() }),
        pending.data.len() > 0 ==> after_line(pending, end).1 == Some(pending),
        pending.data.len() == 0 ==> after_line(pending, end).1 is None,
        bare(text) ==> after_line(pending, text + end).1 is None,
        bare(text) && starts(text, "event:"@) ==> after_line(pending, text + end).0 == (EventView {
            event_type: Some(trimmed(text.skip(6))),
            data: pending.data,
        }),
        bare(text) && starts(text, "data:"@) && pending.data.len() == 0 ==> after_line(
            pending,
            text + end,
        ).0 == (EventView { event_type: pending.event_type, data: trim_front(text.skip(5)) }),
        bare(text) && starts(text, "data:"@) && pending.data.len() > 0 ==> after_line(
            pending,
            text + end,
        ).0 == (EventView {
            event_type: pending.event_type,
            data: pending.data + seq!['\n'] + trim_front(text.skip(5)),
        }),
        bare(text) && !starts(text, "event:"@) && !starts(text, "data:"@) ==> after_line(
            pending,
            text + end,
        ).0 == pending,
{
    reveal_strlit("event:");
    reveal_strlit("data:");
    reveal_strlit("\n");
    assert("\n"@ =~= seq!['\n']);
    let none = Seq::<char>::empty();
    lemma_line_end(none, end);
    assert(none + end =~= end);
    if bare(text) {
        lemma_line_end(text, end);
        if starts(text, "event:"@) && starts(text, "data:"@) {
            assert(text.take(6)[0] == 'e');
            assert(text.take(5)[0] == 'd');
        }
        if pending.data.len() == 0 {
            assert(pending.data + trim_front(text.skip(5)) =~= trim_front(text.skip(5)));
        }
    }
}

/// What is left of an event when the stream ends is an event if it holds data; a line more
/// is taken before the rest.
pub proof fn streams_are_read_line_by_line(
    pending: EventView,
    line: Seq<char>,
    rest: Seq<Seq<char>>,
)
    ensures
        pending.data.len() > 0 ==> stream_events(pending, seq![]) == seq![pending],
        pending.data.len() == 0 ==> stream_events(pending, seq![]).len() == 0,
        match after_line(pending, line).1 {
            Some(e) => stream_events(pending, seq![line] + rest) == seq![e] + stream_events(
                after_line(pending, line).0,
                rest,
            ),
            None => stream_events(pending, seq![line] + rest) == stream_events(
                after_line(pending, line).0,
                rest,
            ),
        },
{
    let all = seq![line] + rest;
    assert(all[0] == line);
    assert(all.skip(1) =~= rest);
}

/// The figure turns: each of four comes once in four, and then the first again.
pub proof fn the_figure_turns(idx: usize)
    requires
        idx < usize::MAX - 4,
    ensures
        spinner_frame(0) == "|"@,
        spinner_frame(1) == "/"@,
        spinner_frame(2) == "-"@,
        spinner_frame(3) == "\\"@,
        spinner_frame((idx + 4) as usize) == spinner_frame(idx),
{
}

/// The line is shown at once if it has to be or never was, and else once 120 milliseconds
/// have passed, not before.
pub proof fn the_line_is_shown_in_time(last: u64, elapsed_ms: u64)
    ensures
        due(Some(last), true, elapsed_ms),
        due(None, false, elapsed_ms),
        elapsed_ms >= last + 120 ==> due(Some(last), false, elapsed_ms),
        elapsed_ms < last + 120 ==> !due(Some(last), false, elapsed_ms),
{
}

/// Each event does its part: a status is shown, a piece is added to the answer, the end
/// ends it and gives the whole answer where no piece came, an error ends it with its
/// words; an event of another type does nothing.
pub proof fn events_do_their_part(
    st: StreamView,
    document: JsonView,
    text: Seq<char>,
    other: Seq<char>,
)
    ensures
        field(document, "status"@) == Some(JsonView::Str(text)) ==> {
            let (r, next) = after_event(st, "status"@, Some(document));
            r == Ok::<bool, Seq<char>>(false) && next == (StreamView { status: text, ..st })
        },
        field(document, "delta"@) == Some(JsonView::Str(text)) ==> {
            let (r, next) = after_event(st, "delta"@, Some(document));
            &&& r == Ok::<bool, Seq<char>>(false)
            &&& next.full_text == st.full_text + text
            &&& next.status == st.status
            &&& st.full_text.len() == 0 && text.len() > 0 ==> !next.enabled
            &&& st.full_text.len() > 0 || text.len() == 0 ==> next.enabled == st.enabled
        },
        field(document, "text"@) == Some(JsonView::Str(text)) ==> {
            let (r, next) = after_event(st, "done"@, Some(document));
            &&& r == Ok::<bool, Seq<char>>(true)
            &&& st.full_text.len() == 0 ==> next.full_text == text
            &&& st.full_text.len() > 0 ==> next.full_text == st.full_text
            &&& !next.enabled
        },
        field(document, "error"@) == Some(JsonView::Str(text)) ==> {
            let (r, next) = after_event(st, "error"@, Some(document));
            r == Err::<bool, Seq<char>>(text) && next.full_text == st.full_text && !next.enabled
        },
        after_event(st, "error"@, None).0 == Err::<bool, Seq<char>>("streaming request failed"@),
        after_event(st, "status"@, None) == (Ok::<bool, Seq<char>>(false), st),
        after_event(st, "delta"@, None).1.full_text == st.full_text,
        after_event(st, "done"@, None).0 == Ok::<bool, Seq<char>>(true),
        other != "status"@ && other != "delta"@ && other != "done"@ && other != "error"@
            ==> after_event(st, other, Some(document)) == (Ok::<bool, Seq<char>>(false), st),
{
    reveal_strlit("status");
    reveal_strlit("delta");
    reveal_strlit("done");
    reveal_strlit("error");
    assert("status"@.len() == 6 && "delta"@.len() == 5 && "done"@.len() == 4);
    assert("error"@.len() == 5 && "error"@[0] == 'e' && "delta"@[0] == 'd');
    let none = Seq::<char>::empty();
    assert(st.full_text + none =~= st.full_text);
}

/// A stream that was ended or gave anything comes to its answer, whatever failed later;
/// one that gave nothing comes to what went wrong.
pub proof fn answers_outweigh_failures(full_text: Seq<char>, failure: Seq<char>)
    ensures
        stream_outcome(full_text, true, Some(failure)) == Ok::<Seq<char>, Seq<char>>(full_text),
        full_text.len() > 0 ==> stream_outcome(full_text, false, Some(failure)) == Ok::<
            Seq<char>,
            Seq<char>,
        >(full_text),
        full_text.len() == 0 ==> stream_outcome(full_text, false, Some(failure)) == Err::<
            Seq<char>,
            Seq<char>,
        >(failure),
        full_text.len() == 0 ==> stream_outcome(full_text, false, None) is Err,
{
}

} // verus!
