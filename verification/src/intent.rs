//! What a question about a session is after: its intent, the words that count
//! in it, and how much of each kind of evidence the intent calls for.
use vstd::prelude::*;
use crate::text::{
    chars_of, contains, contains_any, has_any, has_text, is_one_of, lemma_strs_push, lowered,
    one_of, same, string_of, strs, to_lowercase, trim, trimmed,
};
use crate::text::{ascii, ascii_lower, trim_front, white};

verus! {

broadcast use vstd::string::group_string_axioms;

// ---------------------------------------------------------------------------
// Intents
// ---------------------------------------------------------------------------

/// What a question is after.
#[derive(Clone, Copy, Debug, PartialEq, Eq, Structural)]
pub enum QueryIntent {
    Debug,
    WhatChanged,
    Resume,
    Status,
    General,
}

/// The name of an intent.
pub open spec fn intent_name(intent: QueryIntent) -> Seq<char> {
    match intent {
        QueryIntent::Debug => "debug"@,
        QueryIntent::WhatChanged => "what-changed"@,
        QueryIntent::Resume => "resume"@,
        QueryIntent::Status => "status"@,
        QueryIntent::General => "general"@,
    }
}

/// The intent that a name stands for; white space around it and the case of its
/// letters do not count.
pub open spec fn named_intent(name: Seq<char>) -> Option<QueryIntent> {
    let s = lowered(trimmed(name));
    if s == "debug"@ || s == "diagnostic"@ {
        Some(QueryIntent::Debug)
    } else if s == "what-changed"@ || s == "changes"@ || s == "edits"@ {
        Some(QueryIntent::WhatChanged)
    } else if s == "resume"@ || s == "continue"@ {
        Some(QueryIntent::Resume)
    } else if s == "status"@ || s == "summary"@ {
        Some(QueryIntent::Status)
    } else if s == "general"@ {
        Some(QueryIntent::General)
    } else {
        None
    }
}

impl QueryIntent {
    /// The intent that a name stands for.
    pub fn from_str(value: &str) -> (r: Option<Self>)
        ensures
            r == named_intent(value@),
    {
        let name = trim(value);
        let s = to_lowercase(name.as_str());
        if same(s.as_str(), "debug") || same(s.as_str(), "diagnostic") {
            Some(QueryIntent::Debug)
        } else if same(s.as_str(), "what-changed") || same(s.as_str(), "changes") || same(
            s.as_str(),
            "edits",
        ) {
            Some(QueryIntent::WhatChanged)
        } else if same(s.as_str(), "resume") || same(s.as_str(), "continue") {
            Some(QueryIntent::Resume)
        } else if same(s.as_str(), "status") || same(s.as_str(), "summary") {
            Some(QueryIntent::Status)
        } else if same(s.as_str(), "general") {
            Some(QueryIntent::General)
        } else {
            None
        }
    }

    /// The name of the intent.
    pub fn as_str(self) -> (r: &'static str)
        ensures
            r@ == intent_name(self),
    {
        match self {
            QueryIntent::Debug => "debug",
            QueryIntent::WhatChanged => "what-changed",
            QueryIntent::Resume => "resume",
            QueryIntent::Status => "status",
            QueryIntent::General => "general",
        }
    }
}

/// The name of every intent stands for that intent.
pub proof fn intent_names_round_trip(intent: QueryIntent)
    ensures
        named_intent(intent_name(intent)) == Some(intent),
{
    reveal_strlit("debug");
    reveal_strlit("diagnostic");
    reveal_strlit("what-changed");
    reveal_strlit("changes");
    reveal_strlit("edits");
    reveal_strlit("resume");
    reveal_strlit("continue");
    reveal_strlit("status");
    reveal_strlit("summary");
    reveal_strlit("general");
    let name = intent_name(intent);
    assert(!white(name[0]) && !white(name.last()));
    assert(trim_front(name) == name);
    assert(trimmed(name) == name);
    assert(ascii(name));
    assert(ascii_lower(name) =~= name);
    assert("debug"@[0] != "what-changed"@[0]);
    assert("status"@[1] == 't' && "summary"@[1] == 'u');
    assert("what-changed"@.len() == 12);
    assert("general"@[0] == 'g');
    assert("resume"@[0] == 'r');
    assert("changes"@[0] == 'c' && "continue"@[0] == 'c');
    assert("edits"@[0] == 'e');
}

/// The words that give an intent away, in the order in which they count.
pub open spec fn intent_of_query(query: Seq<char>) -> QueryIntent {
    let q = lowered(query);
    if has_any(q, debug_words()) {
        QueryIntent::Debug
    } else if has_any(q, resume_words()) {
        QueryIntent::Resume
    } else if has_any(q, change_words()) {
        QueryIntent::WhatChanged
    } else if has_any(q, status_words()) {
        QueryIntent::Status
    } else {
        QueryIntent::General
    }
}

/// Words that ask what went wrong.
pub open spec fn debug_words() -> Seq<&'static str> {
    seq![
        "wrong",
        "error",
        "fail",
        "failed",
        "failure",
        "traceback",
        "panic",
        "debug",
        "fix",
    ]
}

/// Words that ask to go on from where work stopped.
pub open spec fn resume_words() -> Seq<&'static str> {
    seq!["resume", "continue", "pick up", "where were we", "what happened"]
}

/// Words that ask what was changed.
pub open spec fn change_words() -> Seq<&'static str> {
    seq!["what changed", "which files", "edited", "diff", "change list"]
}

/// Words that ask how things stand.
pub open spec fn status_words() -> Seq<&'static str> {
    seq!["status", "state", "summary", "what is going on", "overview"]
}

/// The intent of a question, by the words in it.
pub fn detect_query_intent(query: &str) -> (r: QueryIntent)
    ensures
        r == intent_of_query(query@),
{
    let q = to_lowercase(query);
    let debug: [&'static str; 9] = [
        "wrong",
        "error",
        "fail",
        "failed",
        "failure",
        "traceback",
        "panic",
        "debug",
        "fix",
    ];
    let resume: [&'static str; 5] = [
        "resume",
        "continue",
        "pick up",
        "where were we",
        "what happened",
    ];
    let change: [&'static str; 5] = [
        "what changed",
        "which files",
        "edited",
        "diff",
        "change list",
    ];
    let status: [&'static str; 5] = ["status", "state", "summary", "what is going on", "overview"];
    assert(debug@ =~= debug_words());
    assert(resume@ =~= resume_words());
    assert(change@ =~= change_words());
    assert(status@ =~= status_words());
    if contains_any(q.as_str(), &debug) {
        QueryIntent::Debug
    } else if contains_any(q.as_str(), &resume) {
        QueryIntent::Resume
    } else if contains_any(q.as_str(), &change) {
        QueryIntent::WhatChanged
    } else if contains_any(q.as_str(), &status) {
        QueryIntent::Status
    } else {
        QueryIntent::General
    }
}

// ---------------------------------------------------------------------------
// Words
// ---------------------------------------------------------------------------

/// An ASCII letter or digit.
pub open spec fn alnum(c: char) -> bool {
    ('0' <= c <= '9') || ('A' <= c <= 'Z') || ('a' <= c <= 'z')
}

/// The number of letters and digits that a text starts with.
pub open spec fn run_length(s: Seq<char>) -> nat
    decreases s.len(),
{
    if s.len() > 0 && alnum(s[0]) {
        1 + run_length(s.skip(1))
    } else {
        0
    }
}

/// A run is no longer than the text that it starts.
pub proof fn lemma_run_bounds(s: Seq<char>)
    ensures
        run_length(s) <= s.len(),
        s.len() > 0 && alnum(s[0]) ==> run_length(s) >= 1,
    decreases s.len(),
{
    if s.len() > 0 && alnum(s[0]) {
        lemma_run_bounds(s.skip(1));
    }
}

/// The words that say nothing of what is asked for.
pub open spec fn stop_words() -> Seq<&'static str> {
    seq![
        "what",
        "did",
        "i",
        "me",
        "my",
        "the",
        "a",
        "an",
        "to",
        "of",
        "in",
        "on",
        "for",
        "with",
        "is",
        "are",
        "it",
        "this",
        "that",
        "be",
        "and",
        "or",
        "was",
        "were",
        "you",
        "we",
    ]
}

/// A word that counts: of three characters or more, and no stop word.
pub open spec fn counts(word: Seq<char>) -> bool {
    word.len() >= 3 && !one_of(word, stop_words())
}

/// The words of a text that count, in lower case and in order. A word is a run
/// of ASCII letters and digits.
pub open spec fn words_of(s: Seq<char>) -> Seq<Seq<char>>
    decreases s.len(),
{
    if s.len() == 0 {
        Seq::empty()
    } else if !alnum(s[0]) {
        words_of(s.skip(1))
    } else {
        let n = run_length(s) as int;
        let word = ascii_lower(s.take(n));
        proof {
            lemma_run_bounds(s);
        }
        let rest = words_of(s.skip(n));
        if counts(word) {
            seq![word] + rest
        } else {
            rest
        }
    }
}

proof fn lemma_run(s: Seq<char>, n: int)
    requires
        0 <= n <= s.len(),
        forall|k: int| 0 <= k < n ==> alnum(#[trigger] s[k]),
        n < s.len() ==> !alnum(s[n]),
    ensures
        run_length(s) == n,
    decreases s.len(),
{
    if n > 0 {
        assert(alnum(s[0]));
        let rest = s.skip(1);
        assert forall|k: int| 0 <= k < n - 1 implies alnum(#[trigger] rest[k]) by {
            assert(rest[k] == s[k + 1]);
        }
        lemma_run(rest, n - 1);
    }
}

fn is_alnum(c: char) -> (r: bool)
    ensures
        r == alnum(c),
{
    let n: u32 = c as u32;
    (48 <= n && n <= 57) || (65 <= n && n <= 90) || (97 <= n && n <= 122)
}

fn is_stop_word(word: &str) -> (r: bool)
    ensures
        r == one_of(word@, stop_words()),
{
    let stop: [&'static str; 26] = [
        "what",
        "did",
        "i",
        "me",
        "my",
        "the",
        "a",
        "an",
        "to",
        "of",
        "in",
        "on",
        "for",
        "with",
        "is",
        "are",
        "it",
        "this",
        "that",
        "be",
        "and",
        "or",
        "was",
        "were",
        "you",
        "we",
    ];
    assert(stop@ =~= stop_words());
    is_one_of(word, &stop)
}

/// The words of a question that count.
pub fn query_tokens(query: &str) -> (r: Vec<String>)
    ensures
        strs(r@) == words_of(query@),
{
    let cs = chars_of(query);
    let top: usize = cs.len();
    let mut out: Vec<String> = Vec::new();
    let mut i: usize = 0;
    assert(cs@.skip(0) =~= cs@);
    assert(strs(out@) + words_of(cs@.skip(0)) =~= words_of(query@));
    while i < top
        invariant
            cs@ == query@,
            cs@.len() == top,
            i <= top,
            strs(out@) + words_of(cs@.skip(i as int)) == words_of(query@),
        decreases top - i,
    {
        let ghost rest = cs@.skip(i as int);
        if !is_alnum(cs[i]) {
            assert(rest.skip(1) =~= cs@.skip(i + 1));
            i = i + 1;
        } else {
            let mut j: usize = i + 1;
            while j < top && is_alnum(cs[j])
                invariant
                    cs@.len() == top,
                    i < j <= top,
                    forall|k: int| i <= k < j ==> alnum(#[trigger] cs@[k]),
                decreases top - j,
            {
                j = j + 1;
            }
            let raw = string_of(&cs, i, j);
            let word = to_lowercase(raw.as_str());
            proof {
                lemma_run(rest, (j - i) as int);
                assert(rest.take((j - i) as int) =~= raw@);
                assert(rest.skip((j - i) as int) =~= cs@.skip(j as int));
                assert forall|k: int| 0 <= k < raw@.len() implies #[trigger] raw@[k] as u32
                    <= 127 by {
                    assert(alnum(cs@[i + k]));
                }
                assert(ascii(raw@));
                assert(word@.len() == j - i);
            }
            if j - i >= 3 && !is_stop_word(word.as_str()) {
                proof {
                    lemma_strs_push(out@, word);
                    assert(strs(out@).push(word@) + words_of(cs@.skip(j as int)) =~= strs(out@) + (
                    seq![word@] + words_of(cs@.skip(j as int))));
                }
                out.push(word);
            }
            i = j;
        }
    }
    assert(cs@.skip(i as int) =~= Seq::empty());
    assert(strs(out@) =~= words_of(query@));
    out
}

/// At most the first six words.
pub open spec fn first_words(s: Seq<char>) -> Seq<Seq<char>> {
    let all = words_of(s);
    if all.len() > 6 {
        all.take(6)
    } else {
        all
    }
}

/// At most the first six words of a text that count.
pub fn query_tokens_for_incident(text: &str) -> (r: Vec<String>)
    ensures
        strs(r@) == first_words(text@),
{
    let mut tokens = query_tokens(text);
    assert(tokens@.len() == strs(tokens@).len());
    if tokens.len() > 6 {
        let ghost all = tokens@;
        tokens.truncate(6);
        assert(strs(tokens@) =~= strs(all).take(6));
    }
    tokens
}

/// How many of the words stand in the text, the case of its letters aside.
pub open spec fn overlap(text: Seq<char>, words: Seq<Seq<char>>) -> nat
    decreases words.len(),
{
    if words.len() == 0 {
        0
    } else {
        overlap(text, words.drop_last()) + if has_text(lowered(text), words.last()) {
            1nat
        } else {
            0nat
        }
    }
}

/// How many of the words stand in the text.
pub fn token_overlap_count(text: &str, tokens: &Vec<String>) -> (r: usize)
    ensures
        r == overlap(text@, strs(tokens@)),
        r <= tokens@.len(),
{
    let low = to_lowercase(text);
    let ghost all = strs(tokens@);
    let mut n: usize = 0;
    let mut i: usize = 0;
    while i < tokens.len()
        invariant
            all == strs(tokens@),
            low@ == lowered(text@),
            i <= tokens@.len(),
            n <= i,
            n == overlap(text@, all.take(i as int)),
        decreases tokens@.len() - i,
    {
        assert(all.take(i + 1).drop_last() =~= all.take(i as int));
        if contains(low.as_str(), tokens[i].as_str()) {
            n = n + 1;
        }
        i = i + 1;
    }
    assert(all.take(i as int) =~= all);
    n
}

/// The words by which a line tells of an error.
pub open spec fn error_words() -> Seq<&'static str> {
    seq![
        "error",
        "failed",
        "failure",
        "panic",
        "exception",
        "traceback",
        "cannot",
        "not found",
        "permission denied",
    ]
}

/// Whether a text in lower case tells of an error.
pub fn contains_error_signal(text: &str) -> (r: bool)
    ensures
        r == has_any(text@, error_words()),
{
    let words: [&'static str; 9] = [
        "error",
        "failed",
        "failure",
        "panic",
        "exception",
        "traceback",
        "cannot",
        "not found",
        "permission denied",
    ];
    assert(words@ =~= error_words());
    contains_any(text, &words)
}

/// What a question is after shows in its words, in capitals or not: first those that ask
/// what went wrong, those that ask to go on, those that ask what changed, and those
/// that ask how things stand; a question without any of them is general.
pub proof fn words_give_intents_away(query: Seq<char>, q: Seq<char>)
    requires
        q == lowered(query),
    ensures
        has_any(q, debug_words()) <==> {
            ||| has_text(q, "wrong"@)
            ||| has_text(q, "error"@)
            ||| has_text(q, "fail"@)
            ||| has_text(q, "failed"@)
            ||| has_text(q, "failure"@)
            ||| has_text(q, "traceback"@)
            ||| has_text(q, "panic"@)
            ||| has_text(q, "debug"@)
            ||| has_text(q, "fix"@)
        },
        has_any(q, resume_words()) <==> {
            ||| has_text(q, "resume"@)
            ||| has_text(q, "continue"@)
            ||| has_text(q, "pick up"@)
            ||| has_text(q, "where were we"@)
            ||| has_text(q, "what happened"@)
        },
        has_any(q, change_words()) <==> {
            ||| has_text(q, "what changed"@)
            ||| has_text(q, "which files"@)
            ||| has_text(q, "edited"@)
            ||| has_text(q, "diff"@)
            ||| has_text(q, "change list"@)
        },
        has_any(q, status_words()) <==> {
            ||| has_text(q, "status"@)
            ||| has_text(q, "state"@)
            ||| has_text(q, "summary"@)
            ||| has_text(q, "what is going on"@)
            ||| has_text(q, "overview"@)
        },
        match intent_of_query(query) {
            QueryIntent::Debug => has_any(q, debug_words()),
            QueryIntent::Resume => has_any(q, resume_words()) && !has_any(q, debug_words()),
            QueryIntent::WhatChanged => has_any(q, change_words()) && !has_any(q, debug_words())
                && !has_any(q, resume_words()),
            QueryIntent::Status => has_any(q, status_words()) && !has_any(q, debug_words())
                && !has_any(q, resume_words()) && !has_any(q, change_words()),
            QueryIntent::General => !has_any(q, debug_words()) && !has_any(q, resume_words())
                && !has_any(q, change_words()) && !has_any(q, status_words()),
        },
{
    let d = debug_words();
    assert(d[0] == "wrong" && d[1] == "error" && d[2] == "fail");
    assert(d[3] == "failed" && d[4] == "failure" && d[5] == "traceback");
    assert(d[6] == "panic" && d[7] == "debug" && d[8] == "fix");
    let r = resume_words();
    assert(r[0] == "resume" && r[1] == "continue" && r[2] == "pick up");
    assert(r[3] == "where were we" && r[4] == "what happened");
    let c = change_words();
    assert(c[0] == "what changed" && c[1] == "which files" && c[2] == "edited");
    assert(c[3] == "diff" && c[4] == "change list");
    let s = status_words();
    assert(s[0] == "status" && s[1] == "state" && s[2] == "summary");
    assert(s[3] == "what is going on" && s[4] == "overview");
}

/// A line tells of an error by one of these words and by no other.
pub proof fn words_tell_of_errors(q: Seq<char>)
    ensures
        has_any(q, error_words()) <==> {
            ||| has_text(q, "error"@)
            ||| has_text(q, "failed"@)
            ||| has_text(q, "failure"@)
            ||| has_text(q, "panic"@)
            ||| has_text(q, "exception"@)
            ||| has_text(q, "traceback"@)
            ||| has_text(q, "cannot"@)
            ||| has_text(q, "not found"@)
            ||| has_text(q, "permission denied"@)
        },
{
    let e = error_words();
    assert(e[0] == "error" && e[1] == "failed" && e[2] == "failure");
    assert(e[3] == "panic" && e[4] == "exception" && e[5] == "traceback");
    assert(e[6] == "cannot" && e[7] == "not found" && e[8] == "permission denied");
}

/// An intent goes by its name and by a few others, in capitals or not and with white space
/// around them or not.
pub proof fn intents_go_by_several_names(name: Seq<char>)
    ensures
        ({
            let s = lowered(trimmed(name));
            match named_intent(name) {
                Some(QueryIntent::Debug) => s == "debug"@ || s == "diagnostic"@,
                Some(QueryIntent::WhatChanged) => s == "what-changed"@ || s == "changes"@ || s
                    == "edits"@,
                Some(QueryIntent::Resume) => s == "resume"@ || s == "continue"@,
                Some(QueryIntent::Status) => s == "status"@ || s == "summary"@,
                Some(QueryIntent::General) => s == "general"@,
                None => s != "debug"@ && s != "diagnostic"@ && s != "what-changed"@ && s
                    != "changes"@ && s != "edits"@ && s != "resume"@ && s != "continue"@ && s
                    != "status"@ && s != "summary"@ && s != "general"@,
            }
        }),
{
}

proof fn lemma_run_before(a: Seq<char>, b: Seq<char>)
    requires
        forall|i: int| 0 <= i < a.len() ==> alnum(#[trigger] a[i]),
        b.len() > 0 ==> !alnum(b[0]),
    ensures
        run_length(a + b) == a.len(),
    decreases a.len(),
{
    let s = a + b;
    if a.len() == 0 {
        assert(s =~= b);
    } else {
        assert(s[0] == a[0]);
        assert(s.skip(1) =~= a.skip(1) + b);
        assert forall|i: int| 0 <= i < a.skip(1).len() implies alnum(#[trigger] a.skip(1)[i]) by {
            assert(alnum(a[i + 1]));
        }
        lemma_run_before(a.skip(1), b);
    }
}

/// A text is taken apart at everything that is neither letter nor digit: a run of letters
/// and digits is a word, in small letters, if it has three characters at least and says
/// something of what is asked for; what stands between words is passed over.
pub proof fn texts_are_taken_apart(run: Seq<char>, other: char, rest: Seq<char>)
    requires
        run.len() > 0,
        forall|i: int| 0 <= i < run.len() ==> alnum(#[trigger] run[i]),
        !alnum(other),
    ensures
        words_of(seq![other] + rest) == words_of(rest),
        words_of(run + seq![other] + rest) == (if run.len() >= 3 && !one_of(
            ascii_lower(run),
            stop_words(),
        ) {
            seq![ascii_lower(run)]
        } else {
            Seq::empty()
        }) + words_of(rest),
        words_of(run) == (if run.len() >= 3 && !one_of(ascii_lower(run), stop_words()) {
            seq![ascii_lower(run)]
        } else {
            Seq::empty()
        }),
        words_of(Seq::empty()).len() == 0,
{
    let none = Seq::<char>::empty();
    let gap = seq![other] + rest;
    assert(gap[0] == other);
    assert(gap.skip(1) =~= rest);
    let s = run + seq![other] + rest;
    assert(s =~= run + gap);
    lemma_run_before(run, gap);
    assert(s[0] == run[0]);
    assert(s.take(run.len() as int) =~= run);
    assert(s.skip(run.len() as int) =~= gap);
    assert(ascii_lower(run).len() == run.len());
    lemma_run_before(run, none);
    assert(run + none =~= run);
    assert(run.take(run.len() as int) =~= run);
    assert(run.skip(run.len() as int) =~= none);
    assert(alnum(run[0]));
    let word = ascii_lower(run);
    let mine: Seq<Seq<char>> = if counts(word) {
        seq![word]
    } else {
        Seq::empty()
    };
    assert(words_of(s) =~= mine + words_of(gap));
    assert(words_of(run) =~= mine + words_of(none));
    assert(words_of(run) =~= mine);
}

/// These words say nothing of what is asked for, and no others.
pub proof fn stop_words_say_nothing(word: Seq<char>)
    ensures
        one_of(word, stop_words()) <==> {
            ||| word == "what"@
            ||| word == "did"@
            ||| word == "i"@
            ||| word == "me"@
            ||| word == "my"@
            ||| word == "the"@
            ||| word == "a"@
            ||| word == "an"@
            ||| word == "to"@
            ||| word == "of"@
            ||| word == "in"@
            ||| word == "on"@
            ||| word == "for"@
            ||| word == "with"@
            ||| word == "is"@
            ||| word == "are"@
            ||| word == "it"@
            ||| word == "this"@
            ||| word == "that"@
            ||| word == "be"@
            ||| word == "and"@
            ||| word == "or"@
            ||| word == "was"@
            ||| word == "were"@
            ||| word == "you"@
            ||| word == "we"@
        },
{
    let w = stop_words();
    assert(w[0] == "what" && w[1] == "did" && w[2] == "i");
    assert(w[3] == "me" && w[4] == "my" && w[5] == "the");
    assert(w[6] == "a" && w[7] == "an" && w[8] == "to");
    assert(w[9] == "of" && w[10] == "in" && w[11] == "on");
    assert(w[12] == "for" && w[13] == "with" && w[14] == "is");
    assert(w[15] == "are" && w[16] == "it" && w[17] == "this");
    assert(w[18] == "that" && w[19] == "be" && w[20] == "and");
    assert(w[21] == "or" && w[22] == "was" && w[23] == "were");
    assert(w[24] == "you" && w[25] == "we");
}

/// The first six words of a text count for an incident, all of them where there are no
/// more.
pub proof fn six_words_count(s: Seq<char>)
    ensures
        words_of(s).len() <= 6 ==> first_words(s) == words_of(s),
        words_of(s).len() > 6 ==> first_words(s) == words_of(s).take(6),
{
}

/// Every word counts once if it stands in the text, in capitals there or not.
pub proof fn words_in_the_text_count(text: Seq<char>, a: Seq<Seq<char>>, b: Seq<Seq<char>>)
    ensures
        overlap(text, a + b) == overlap(text, a) + overlap(text, b),
        a.len() == 1 && has_text(lowered(text), a[0]) ==> overlap(text, a) == 1,
        a.len() == 1 && !has_text(lowered(text), a[0]) ==> overlap(text, a) == 0,
        a.len() == 0 ==> overlap(text, a) == 0,
    decreases b.len(),
{
    let all = a + b;
    if a.len() == 1 {
        assert(a.drop_last().len() == 0);
        assert(overlap(text, a.drop_last()) == 0);
        assert(a.last() == a[0]);
    }
    if b.len() == 0 {
        assert(all =~= a);
    } else {
        assert(all.drop_last() =~= a + b.drop_last());
        assert(all.last() == b.last());
        words_in_the_text_count(text, a, b.drop_last());
    }
}

} // verus!
