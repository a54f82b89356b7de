//! Conversations with a model: messages, how old ones are cleared away or
//! summed up, and what a summary is asked with.
use vstd::prelude::*;
use crate::text::{opt_str, push_text, same, starts, starts_with, text_or};

verus! {

broadcast use vstd::string::group_string_axioms;

/// A message of a conversation.
#[derive(Debug, PartialEq, Eq)]
pub struct ChatMessage {
    pub role: String,
    pub content: String,
}

/// What a `ChatMessage` holds.
pub struct ChatView {
    pub role: Seq<char>,
    pub content: Seq<char>,
}

impl View for ChatMessage {
    type V = ChatView;

    open spec fn view(&self) -> ChatView {
        ChatView { role: self.role@, content: self.content@ }
    }
}

/// What a row of messages holds.
pub open spec fn chat_views(v: Seq<ChatMessage>) -> Seq<ChatView> {
    Seq::new(v.len(), |i: int| v[i]@)
}

/// The views after one more message.
pub proof fn lemma_chat_push(v: Seq<ChatMessage>, m: ChatMessage)
    ensures
        chat_views(v.push(m)) == chat_views(v).push(m@),
{
    assert(chat_views(v.push(m)) =~= chat_views(v).push(m@));
}

impl ChatMessage {
    /// A message of a role.
    pub fn new(role: &str, content: &str) -> (r: ChatMessage)
        ensures
            r@ == (ChatView { role: role@, content: content@ }),
    {
        ChatMessage { role: role.to_string(), content: content.to_string() }
    }

    /// A copy of the message.
    pub fn duplicate(&self) -> (r: ChatMessage)
        ensures
            r@ == self@,
    {
        ChatMessage { role: self.role.clone(), content: self.content.clone() }
    }
}

/// A copy of a range of messages.
pub fn copy_messages(v: &Vec<ChatMessage>, from: usize, to: usize) -> (r: Vec<ChatMessage>)
    requires
        from <= to <= v@.len(),
    ensures
        chat_views(r@) == chat_views(v@).subrange(from as int, to as int),
{
    let mut out: Vec<ChatMessage> = Vec::new();
    let mut i: usize = from;
    while i < to
        invariant
            from <= i <= to <= v@.len(),
            out@.len() == i - from,
            forall|k: int| 0 <= k < out@.len() ==> (#[trigger] out@[k])@ == v@[from + k]@,
        decreases to - i,
    {
        out.push(v[i].duplicate());
        i = i + 1;
    }
    assert(chat_views(out@) =~= chat_views(v@).subrange(from as int, to as int));
    out
}

// ---------------------------------------------------------------------------
// Clearing tool results
// ---------------------------------------------------------------------------

/// A message that reports what a tool returned.
pub open spec fn is_result(m: ChatView) -> bool {
    m.role == "user"@ && starts(m.content, "Tool result for "@)
}

/// The conversation with only the last `keep` tool results left in it.
pub open spec fn cleared(ms: Seq<ChatView>, keep: nat) -> Seq<ChatView>
    decreases ms.len(),
{
    if ms.len() == 0 {
        Seq::empty()
    } else if !is_result(ms.last()) {
        cleared(ms.drop_last(), keep).push(ms.last())
    } else if keep > 0 {
        cleared(ms.drop_last(), (keep - 1) as nat).push(ms.last())
    } else {
        cleared(ms.drop_last(), 0)
    }
}

fn tool_result(m: &ChatMessage) -> (r: bool)
    ensures
        r == is_result(m@),
{
    same(m.role.as_str(), "user") && starts_with(m.content.as_str(), "Tool result for ")
}

/// The conversation with only the last `keep_last` tool results left in it.
pub fn clear_tool_uses(messages: &Vec<ChatMessage>, keep_last: u32) -> (r: Vec<ChatMessage>)
    ensures
        chat_views(r@) == cleared(chat_views(messages@), keep_last as nat),
{
    let ghost all = chat_views(messages@);
    let ghost goal = cleared(all, keep_last as nat);
    let mut kept: Vec<usize> = Vec::new();
    let mut keep: u32 = keep_last;
    let mut i: usize = messages.len();
    let ghost mut tail: Seq<ChatView> = Seq::empty();
    assert(all.take(i as int) =~= all);
    assert(goal =~= cleared(all.take(i as int), keep as nat) + tail);
    while i > 0
        invariant
            all == chat_views(messages@),
            i <= messages@.len(),
            goal == cleared(all.take(i as int), keep as nat) + tail,
            tail.len() == kept@.len(),
            forall|k: int|
                0 <= k < kept@.len() ==> (#[trigger] kept@[k]) < messages@.len() && all[kept@[k] as int]
                    == tail[tail.len() - 1 - k],
        decreases i,
    {
        i = i - 1;
        let ghost part = all.take(i + 1);
        assert(part.drop_last() =~= all.take(i as int));
        assert(part.last() == messages@[i as int]@);
        let result = tool_result(&messages[i]);
        let ghost keep_before = keep as nat;
        if !result || keep > 0 {
            if result {
                keep = keep - 1;
            }
            let ghost old_tail = tail;
            proof {
                tail = seq![all[i as int]] + tail;
                assert(cleared(part, keep_before) + old_tail =~= cleared(
                    all.take(i as int),
                    keep as nat,
                ) + tail);
            }
            kept.push(i);
        }
    }
    assert(all.take(0) =~= Seq::empty());
    assert(goal =~= tail);
    let mut out: Vec<ChatMessage> = Vec::new();
    let mut k: usize = kept.len();
    while k > 0
        invariant
            all == chat_views(messages@),
            k <= kept@.len(),
            tail.len() == kept@.len(),
            forall|k: int|
                0 <= k < kept@.len() ==> (#[trigger] kept@[k]) < messages@.len() && all[kept@[k] as int]
                    == tail[tail.len() - 1 - k],
            chat_views(out@) == tail.take(kept@.len() - k),
        decreases k,
    {
        k = k - 1;
        let m = messages[kept[k]].duplicate();
        proof {
            lemma_chat_push(out@, m);
            assert(tail.take(kept@.len() - k) =~= tail.take(kept@.len() - k - 1).push(m@));
        }
        out.push(m);
    }
    assert(tail.take(kept@.len() as int) =~= tail);
    out
}

/// The messages that are no tool results.
pub open spec fn conversation(ms: Seq<ChatView>) -> Seq<ChatView>
    decreases ms.len(),
{
    if ms.len() == 0 {
        Seq::empty()
    } else if is_result(ms.last()) {
        conversation(ms.drop_last())
    } else {
        conversation(ms.drop_last()).push(ms.last())
    }
}

/// The tool results.
pub open spec fn results(ms: Seq<ChatView>) -> Seq<ChatView>
    decreases ms.len(),
{
    if ms.len() == 0 {
        Seq::empty()
    } else if is_result(ms.last()) {
        results(ms.drop_last()).push(ms.last())
    } else {
        results(ms.drop_last())
    }
}

/// Clearing leaves everything but tool results as it is, and of those the last
/// `keep` in order.
pub proof fn clearing_keeps_the_rest(ms: Seq<ChatView>, keep: nat)
    ensures
        conversation(cleared(ms, keep)) == conversation(ms),
        ({
            let n = results(ms).len();
            let from = if n <= keep {
                0
            } else {
                n - keep
            };
            results(cleared(ms, keep)) == results(ms).skip(from as int)
        }),
    decreases ms.len(),
{
    if ms.len() > 0 {
        let rest = ms.drop_last();
        let m = ms.last();
        if !is_result(m) {
            clearing_keeps_the_rest(rest, keep);
            let c = cleared(rest, keep).push(m);
            assert(c.drop_last() =~= cleared(rest, keep));
        } else if keep > 0 {
            clearing_keeps_the_rest(rest, (keep - 1) as nat);
            let c = cleared(rest, (keep - 1) as nat).push(m);
            assert(c.drop_last() =~= cleared(rest, (keep - 1) as nat));
            let n = results(rest).len();
            let from = if n <= keep - 1 {
                0
            } else {
                n - (keep - 1)
            };
            assert(results(ms).skip(from as int) =~= results(rest).skip(from as int).push(m));
        } else {
            clearing_keeps_the_rest(rest, 0);
            assert(results(ms).skip(results(ms).len() as int) =~= Seq::empty());
            assert(results(rest).skip(results(rest).len() as int) =~= Seq::empty());
        }
    } else {
        assert(results(ms).skip(0) =~= results(ms));
    }
}

// ---------------------------------------------------------------------------
// Summing up
// ---------------------------------------------------------------------------

/// How a conversation is cut down before the model sees it.
#[derive(Debug)]
pub struct ContextEditingConfig {
    pub clear_tool_uses: Option<ClearToolUses>,
    pub compact: Option<CompactConfig>,
}

/// How many tool results are kept.
#[derive(Debug)]
pub struct ClearToolUses {
    pub keep_last: Option<u32>,
}

/// How long a conversation may grow before its start is summed up.
#[derive(Debug)]
pub struct CompactConfig {
    pub max_messages: Option<u32>,
}

/// How many tool results are kept: three where nothing is said, none cleared
/// where clearing is not asked for.
pub open spec fn keep_for(config: Option<ContextEditingConfig>) -> Option<nat> {
    match config {
        None => Some(3),
        Some(c) => match c.clear_tool_uses {
            None => None,
            Some(u) => match u.keep_last {
                Some(n) => Some(n as nat),
                None => Some(3),
            },
        },
    }
}

/// How many messages at the start of a conversation of `len` are summed up. A
/// conversation that is short enough is left alone; else half of the bound, and
/// four messages at least, stay as they are.
pub open spec fn split_for(config: Option<ContextEditingConfig>, len: nat) -> Option<nat> {
    match config {
        None => None,
        Some(c) => match c.compact {
            None => None,
            Some(k) => {
                let max: nat = match k.max_messages {
                    Some(n) => n as nat,
                    None => 30,
                };
                let tail: nat = if max / 2 < 4 {
                    4
                } else {
                    max / 2
                };
                if len <= max || len <= tail {
                    None
                } else {
                    Some((len - tail) as nat)
                }
            },
        },
    }
}

/// How many messages at the start of a conversation are summed up.
pub fn compaction_split(config: &Option<ContextEditingConfig>, len: usize) -> (r: Option<usize>)
    ensures
        match r {
            Some(n) => split_for(*config, len as nat) == Some(n as nat) && n <= len,
            None => split_for(*config, len as nat) is None,
        },
{
    match config {
        None => None,
        Some(c) => match &c.compact {
            None => None,
            Some(k) => {
                let max: usize = match k.max_messages {
                    Some(n) => n as usize,
                    None => 30,
                };
                let tail: usize = if max / 2 < 4 { 4 } else { max / 2 };
                if len <= max || len <= tail {
                    None
                } else {
                    Some(len - tail)
                }
            },
        },
    }
}

/// A conversation as it is put to the one who sums it up.
pub open spec fn transcript(ms: Seq<ChatView>) -> Seq<char>
    decreases ms.len(),
{
    if ms.len() == 0 {
        Seq::empty()
    } else {
        transcript(ms.drop_last()) + ("["@ + ms.last().role + "] "@ + ms.last().content + "\n"@)
    }
}

/// What a summary is asked with.
pub open spec fn summary_ask() -> Seq<char> {
    "Summarize the following conversation for future context. Keep it concise and preserve key decisions, facts, and TODOs.\n\n"@
}

/// The messages that ask for a summary of a conversation.
pub open spec fn summary_messages(ms: Seq<ChatView>) -> Seq<ChatView> {
    seq![
        ChatView { role: "system"@, content: "You are a summarizer."@ },
        ChatView { role: "user"@, content: summary_ask() + transcript(ms) },
    ]
}

/// The messages that ask for a summary of a conversation.
pub fn summarize_messages(messages: &Vec<ChatMessage>) -> (r: Vec<ChatMessage>)
    ensures
        chat_views(r@) == summary_messages(chat_views(messages@)),
{
    let ghost all = chat_views(messages@);
    let mut prompt = "Summarize the following conversation for future context. Keep it concise and preserve key decisions, facts, and TODOs.\n\n".to_string();
    let mut i: usize = 0;
    assert(prompt@ =~= summary_ask() + transcript(all.take(0)));
    while i < messages.len()
        invariant
            all == chat_views(messages@),
            i <= messages@.len(),
            prompt@ == summary_ask() + transcript(all.take(i as int)),
        decreases messages@.len() - i,
    {
        assert(all.take(i + 1).drop_last() =~= all.take(i as int));
        assert(all.take(i + 1).last() == messages@[i as int]@);
        let mut line = "[".to_string();
        push_text(&mut line, messages[i].role.as_str());
        push_text(&mut line, "] ");
        push_text(&mut line, messages[i].content.as_str());
        push_text(&mut line, "\n");
        push_text(&mut prompt, line.as_str());
        assert(prompt@ =~= summary_ask() + transcript(all.take(i + 1)));
        i = i + 1;
    }
    assert(all.take(i as int) =~= all);
    let mut out: Vec<ChatMessage> = Vec::new();
    out.push(ChatMessage::new("system", "You are a summarizer."));
    out.push(ChatMessage::new("user", prompt.as_str()));
    assert(chat_views(out@) =~= summary_messages(all));
    out
}

/// A conversation whose start is replaced by its summary.
pub open spec fn compacted(ms: Seq<ChatView>, split: nat, summary: Seq<char>) -> Seq<ChatView> {
    seq![
        ChatView { role: "system"@, content: "Summary of earlier context:\n"@ + summary },
    ] + ms.skip(split as int)
}

/// What has to be summed up before the model is called, as the messages that
/// ask for it; nothing where the conversation is left whole.
pub fn compact_messages(messages: &Vec<ChatMessage>, config: &Option<ContextEditingConfig>) -> (r:
    Option<Vec<ChatMessage>>)
    ensures
        match r {
            Some(v) => {
                &&& split_for(*config, messages@.len()) is Some
                &&& chat_views(v@) == summary_messages(
                    chat_views(messages@).take(
                        split_for(*config, messages@.len())->Some_0 as int,
                    ),
                )
            },
            None => split_for(*config, messages@.len()) is None,
        },
{
    match compaction_split(config, messages.len()) {
        None => None,
        Some(split) => {
            let head = copy_messages(messages, 0, split);
            assert(chat_views(head@) =~= chat_views(messages@).take(split as int));
            Some(summarize_messages(&head))
        },
    }
}

/// The conversation that the model sees: its start replaced by the summary where
/// one is due, then old tool results cleared.
pub open spec fn edited_context(
    ms: Seq<ChatView>,
    config: Option<ContextEditingConfig>,
    summary: Seq<char>,
) -> Seq<ChatView> {
    let view = match split_for(config, ms.len()) {
        Some(split) => compacted(ms, split, summary),
        None => ms,
    };
    match keep_for(config) {
        Some(keep) => cleared(view, keep),
        None => view,
    }
}

/// The conversation that the model sees. A summary is used where one is due and
/// has to be given then.
pub fn apply_context_editing(
    messages: &Vec<ChatMessage>,
    config: &Option<ContextEditingConfig>,
    summary: Option<&str>,
) -> (r: Vec<ChatMessage>)
    requires
        split_for(*config, messages@.len()) is Some ==> summary is Some,
    ensures
        chat_views(r@) == edited_context(
            chat_views(messages@),
            *config,
            text_or(opt_str(summary), Seq::empty()),
        ),
{
    let ghost ms = chat_views(messages@);
    assert(ms.len() == messages@.len());
    let view = match compaction_split(config, messages.len()) {
        None => {
            let v = copy_messages(messages, 0, messages.len());
            assert(chat_views(v@) =~= ms);
            v
        },
        Some(split) => {
            let mut content = "Summary of earlier context:\n".to_string();
            if let Some(s) = summary {
                push_text(&mut content, s);
            }
            let mut v: Vec<ChatMessage> = Vec::new();
            v.push(ChatMessage::new("system", content.as_str()));
            let mut tail = copy_messages(messages, split, messages.len());
            let ghost t = tail@;
            v.append(&mut tail);
            assert(chat_views(v@) =~= compacted(
                ms,
                split as nat,
                text_or(opt_str(summary), Seq::empty()),
            )) by {
                assert(chat_views(t) =~= ms.skip(split as int));
            }
            v
        },
    };
    let keep: Option<u32> = match config {
        None => Some(3),
        Some(c) => match &c.clear_tool_uses {
            None => None,
            Some(u) => match u.keep_last {
                Some(n) => Some(n),
                None => Some(3),
            },
        },
    };
    match keep {
        Some(n) => clear_tool_uses(&view, n),
        None => view,
    }
}

/// A summed-up conversation is one message longer than the part that stays, and
/// ends as the whole one does.
pub proof fn compaction_keeps_the_end(
    ms: Seq<ChatView>,
    config: ContextEditingConfig,
    summary: Seq<char>,
)
    requires
        split_for(Some(config), ms.len()) is Some,
    ensures
        ({
            let split = split_for(Some(config), ms.len())->Some_0;
            let out = compacted(ms, split, summary);
            &&& split < ms.len()
            &&& ms.len() - split >= 4
            &&& out.len() == ms.len() - split + 1
            &&& out.skip(1) == ms.skip(split as int)
        }),
{
    let split = split_for(Some(config), ms.len())->Some_0;
    let out = compacted(ms, split, summary);
    assert(out.skip(1) =~= ms.skip(split as int));
}

/// Where nothing is said of it, the last three results of tools are kept; a configuration
/// that asks for clearing keeps as many as it says, three where it does not, and one
/// that does not ask for it keeps all.
pub proof fn results_are_kept_as_configured(config: ContextEditingConfig)
    ensures
        keep_for(None) == Some(3nat),
        match config.clear_tool_uses {
            Some(u) => match u.keep_last {
                Some(n) => keep_for(Some(config)) == Some(n as nat),
                None => keep_for(Some(config)) == Some(3nat),
            },
            None => keep_for(Some(config)) is None,
        },
{
}

/// A conversation is summed up only where it was asked for and grew beyond its bound,
/// thirty messages where none is given. What stays whole is half of the bound, and
/// four messages at least.
pub proof fn long_conversations_are_summed_up(
    config: ContextEditingConfig,
    compact: CompactConfig,
    len: nat,
    max: nat,
)
    requires
        config.compact == Some(compact),
        match compact.max_messages {
            Some(n) => max == n,
            None => max == 30,
        },
    ensures
        split_for(None, len) is None,
        len <= max ==> split_for(Some(config), len) is None,
        len > max && len > 4 ==> ({
            let split = split_for(Some(config), len);
            &&& split is Some
            &&& max >= 8 ==> len - split->Some_0 == max / 2
            &&& max < 8 ==> len - split->Some_0 == 4
        }),
        len <= 4 ==> split_for(Some(config), len) is None,
{
}

/// Who sums up a conversation reads all of it: every message with its role, in order.
#[verifier::rlimit(50)]
pub proof fn transcripts_hold_every_message(a: Seq<ChatView>, m: ChatView, b: Seq<ChatView>)
    ensures
        transcript(a + seq![m] + b) == transcript(a) + "["@ + m.role + "] "@ + m.content + "\n"@
            + transcript(b),
        summary_messages(a).len() == 2,
        summary_messages(a)[0].role == "system"@,
        summary_messages(a)[1].role == "user"@,
        exists|ask: Seq<char>|
            summary_messages(a)[1].content == #[trigger] (ask + transcript(a)),
    decreases b.len(),
{
    let all = a + seq![m] + b;
    assert(summary_messages(a)[1].content == summary_ask() + transcript(a));
    let line = "["@ + m.role + "] "@ + m.content + "\n"@;
    if b.len() == 0 {
        assert(all.drop_last() =~= a);
        assert(all.last() == m);
        assert(transcript(all) =~= transcript(a) + "["@ + m.role + "] "@ + m.content + "\n"@
            + transcript(b));
    } else {
        transcripts_hold_every_message(a, m, b.drop_last());
        assert(all.drop_last() =~= a + seq![m] + b.drop_last());
        assert(all.last() == b.last());
        assert(transcript(all) =~= transcript(a) + "["@ + m.role + "] "@ + m.content + "\n"@
            + transcript(b));
    }
}

/// The summary stands at the start of what the model sees, as a message of the system
/// that holds it word for word, and everything behind the part that was summed up
/// follows. What the model sees is then cleared of old results of tools.
pub proof fn the_model_sees_the_summary_and_the_end(
    ms: Seq<ChatView>,
    config: Option<ContextEditingConfig>,
    summary: Seq<char>,
)
    ensures
        ({
            let seen = edited_context(ms, config, summary);
            match (split_for(config, ms.len()), keep_for(config)) {
                (None, None) => seen == ms,
                (None, Some(keep)) => seen == cleared(ms, keep),
                (Some(split), None) => {
                    &&& seen.len() == ms.len() - split + 1
                    &&& seen[0].role == "system"@
                    &&& exists|head: Seq<char>| seen[0].content == #[trigger] (head + summary)
                    &&& seen.skip(1) == ms.skip(split as int)
                },
                (Some(split), Some(keep)) => exists|whole: Seq<ChatView>|
                    {
                        &&& whole.len() == ms.len() - split + 1
                        &&& whole[0].role == "system"@
                        &&& whole.skip(1) == ms.skip(split as int)
                        &&& seen == #[trigger] cleared(whole, keep)
                    },
            }
        }),
{
    if let Some(split) = split_for(config, ms.len()) {
        let whole = compacted(ms, split, summary);
        assert(whole.skip(1) =~= ms.skip(split as int));
        assert(whole[0].content == "Summary of earlier context:\n"@ + summary);
        if let Some(keep) = keep_for(config) {
            assert(edited_context(ms, config, summary) == cleared(whole, keep));
        }
    }
}

/// Only a message of the user that reports a result is cleared away.
pub proof fn other_messages_are_no_results(m: ChatView)
    ensures
        m.role != "user"@ ==> !is_result(m),
        is_result(m) ==> exists|rest: Seq<char>|
            m.content == #[trigger] ("Tool result for "@ + rest),
{
    if is_result(m) {
        let head = "Tool result for "@;
        let rest = m.content.skip(head.len() as int);
        assert(m.content =~= head + rest);
    }
}

/// A row of messages is seen in its order, each by its role and its content.
pub proof fn messages_are_seen_in_order(v: Seq<ChatMessage>, i: int)
    requires
        0 <= i < v.len(),
    ensures
        chat_views(v).len() == v.len(),
        chat_views(v)[i].role == v[i].role@,
        chat_views(v)[i].content == v[i].content@,
{
}

} // verus!
