//! What a model is told of the directory that it is asked about.
use vstd::prelude::*;
use crate::keymap::{comes_before, is_before, order_is_total, order_is_transitive};
use crate::text::{
    all_white, blank, blank_texts_are_white, chars_of, contains_any, has_any, has_char, has_text,
    is_blank, join, joined, lemma_strs_push, lines, lines_end_at_line_feeds, lines_of, lowered,
    occurs_at, opt_str, opt_text, parts_are_joined_in_order, push_text, string_of, strs,
    to_lowercase, trim, trimmed, white,
};

verus! {

broadcast use vstd::string::group_string_axioms;

/// The phrases by which a prompt speaks of the directory it is given in.
pub open spec fn workspace_phrases() -> Seq<&'static str> {
    seq![
        "this repository",
        "this repo",
        "this folder",
        "this directory",
        "current directory",
        "current folder",
        "current repo",
        "this project",
        "summarize this repository",
        "summarize this folder",
    ]
}

/// A prompt that speaks of the directory it is given in.
pub open spec fn about_workspace(prompt: Seq<char>) -> bool {
    has_any(lowered(prompt), workspace_phrases())
}

/// Whether a prompt speaks of the directory it is given in.
pub fn should_attach_workspace_context(prompt: &str) -> (r: bool)
    ensures
        r == about_workspace(prompt@),
{
    let p = to_lowercase(prompt);
    let phrases: [&'static str; 10] = [
        "this repository",
        "this repo",
        "this folder",
        "this directory",
        "current directory",
        "current folder",
        "current repo",
        "this project",
        "summarize this repository",
        "summarize this folder",
    ];
    assert(phrases@ =~= workspace_phrases());
    contains_any(p.as_str(), phrases.as_slice())
}

/// A prompt with what is known of the directory, where it speaks of it.
pub open spec fn prompt_in(prompt: Seq<char>, context: Option<Seq<char>>) -> Seq<char> {
    match context {
        Some(ctx) => if about_workspace(prompt) {
            "You are answering a question about the user's local workspace.\nUse the provided workspace context as source material.\nIf information is missing, say so briefly.\n\nWorkspace context:\n"@
                + ctx + "\n\nUser request:\n"@ + prompt
        } else {
            prompt
        },
        None => prompt,
    }
}

/// The prompt with what is known of the directory, where it speaks of it.
pub fn maybe_attach_workspace_context(prompt: &str, context: Option<&str>) -> (r: String)
    ensures
        r@ == prompt_in(prompt@, opt_str(context)),
{
    if !should_attach_workspace_context(prompt) {
        return prompt.to_string();
    }
    match context {
        Some(ctx) => {
            let mut out =
                "You are answering a question about the user's local workspace.\nUse the provided workspace context as source material.\nIf information is missing, say so briefly.\n\nWorkspace context:\n".to_string();
            push_text(&mut out, ctx);
            push_text(&mut out, "\n\nUser request:\n");
            push_text(&mut out, prompt);
            out
        },
        None => prompt.to_string(),
    }
}

// ---------------------------------------------------------------------------
// Texts cut to size
// ---------------------------------------------------------------------------

/// The first `max` characters of a text, and dots where there are more.
pub open spec fn truncated(text: Seq<char>, max: nat) -> Seq<char> {
    if max == 0 {
        Seq::empty()
    } else if text.len() > max {
        text.take(max as int) + "..."@
    } else {
        text
    }
}

/// The first `max_chars` characters of a text, and dots where there are more.
pub fn truncate_chars(text: &str, max_chars: usize) -> (r: String)
    ensures
        r@ == truncated(text@, max_chars as nat),
{
    let cs = chars_of(text);
    if max_chars == 0 {
        let r = String::new();
        assert(r@ =~= Seq::empty());
        return r;
    }
    if cs.len() > max_chars {
        let mut out = string_of(&cs, 0, max_chars);
        assert(out@ =~= text@.take(max_chars as int));
        push_text(&mut out, "...");
        out
    } else {
        text.to_string()
    }
}

/// Lines, each two places further in.
pub open spec fn indented(ls: Seq<Seq<char>>) -> Seq<Seq<char>> {
    ls.map_values(|l: Seq<char>| "  "@ + l)
}

/// A text with every line two places further in.
pub open spec fn block(text: Seq<char>) -> Seq<char> {
    joined(indented(lines_of(text)), "\n"@)
}

/// A text with every line two places further in.
pub fn indented_block(text: &str) -> (r: String)
    ensures
        r@ == block(text@),
{
    let ls = lines(text);
    let mut out: Vec<String> = Vec::new();
    let mut i: usize = 0;
    while i < ls.len()
        invariant
            strs(ls@) == lines_of(text@),
            i <= ls@.len(),
            out@.len() == i,
            forall|k: int| 0 <= k < i ==> (#[trigger] out@[k])@ == "  "@ + ls@[k]@,
        decreases ls@.len() - i,
    {
        let mut line = "  ".to_string();
        push_text(&mut line, ls[i].as_str());
        out.push(line);
        i = i + 1;
    }
    proof {
        assert(lines_of(text@).len() == ls@.len());
        assert forall|k: int| 0 <= k < strs(out@).len() implies #[trigger] strs(out@)[k]
            == indented(lines_of(text@))[k] by {
            assert(strs(ls@)[k] == ls@[k]@);
        }
        assert(strs(out@) =~= indented(lines_of(text@)));
    }
    join(&out, "\n")
}

// ---------------------------------------------------------------------------
// Names in order
// ---------------------------------------------------------------------------

/// Texts in order; equal ones may stand side by side.
pub open spec fn ascending(s: Seq<Seq<char>>) -> bool {
    forall|i: int, j: int|
        0 <= i < j < s.len() ==> !comes_before(#[trigger] s[j], #[trigger] s[i])
}

/// The texts of a row, in order.
pub open spec fn is_sorted_copy(out: Seq<Seq<char>>, of: Seq<Seq<char>>) -> bool {
    ascending(out) && out.to_multiset() == of.to_multiset()
}

fn slot(names: &Vec<String>, name: &str) -> (r: usize)
    requires
        ascending(strs(names@)),
    ensures
        r <= names@.len(),
        forall|k: int| 0 <= k < r ==> !comes_before(name@, #[trigger] strs(names@)[k]),
        r < names@.len() ==> comes_before(name@, strs(names@)[r as int]),
{
    let mut i: usize = 0;
    while i < names.len()
        invariant
            i <= names@.len(),
            forall|k: int| 0 <= k < i ==> !comes_before(name@, #[trigger] strs(names@)[k]),
        decreases names@.len() - i,
    {
        assert(strs(names@)[i as int] == names@[i as int]@);
        if is_before(name, names[i].as_str()) {
            return i;
        }
        i = i + 1;
    }
    i
}

proof fn lemma_insert_ascending(s: Seq<Seq<char>>, t: Seq<char>, p: int)
    requires
        ascending(s),
        0 <= p <= s.len(),
        forall|k: int| 0 <= k < p ==> !comes_before(t, #[trigger] s[k]),
        p < s.len() ==> comes_before(t, s[p]),
    ensures
        ascending(s.insert(p, t)),
        s.insert(p, t).to_multiset() == s.push(t).to_multiset(),
{
    let out = s.insert(p, t);
    assert forall|i: int, j: int| 0 <= i < j < out.len() implies !comes_before(
        #[trigger] out[j],
        #[trigger] out[i],
    ) by {
        if i < p && j < p {
            assert(out[i] == s[i] && out[j] == s[j]);
        } else if i < p && j == p {
            assert(out[i] == s[i]);
        } else if i < p {
            assert(out[i] == s[i] && out[j] == s[j - 1]);
        } else if i == p {
            assert(out[j] == s[j - 1]);
            let far = s[j - 1];
            if comes_before(far, t) {
                if j - 1 == p {
                    order_is_total(t, far);
                } else {
                    order_is_transitive(far, t, s[p]);
                    assert(!comes_before(s[j - 1], s[p]));
                }
            }
        } else {
            assert(out[i] == s[i - 1] && out[j] == s[j - 1]);
        }
    }
    broadcast use vstd::seq_lib::group_to_multiset_ensures;

    assert(s.insert(p, t).to_multiset() =~= s.push(t).to_multiset());
}

/// The names in order.
pub fn sort_names(names: &Vec<String>) -> (r: Vec<String>)
    ensures
        is_sorted_copy(strs(r@), strs(names@)),
{
    let ghost all = strs(names@);
    let mut out: Vec<String> = Vec::new();
    let mut i: usize = 0;
    assert(strs(out@) =~= all.take(0));
    while i < names.len()
        invariant
            all == strs(names@),
            i <= names@.len(),
            is_sorted_copy(strs(out@), all.take(i as int)),
        decreases names@.len() - i,
    {
        let ghost before = strs(out@);
        let p = slot(&out, names[i].as_str());
        proof {
            lemma_insert_ascending(before, names@[i as int]@, p as int);
            broadcast use vstd::seq_lib::group_to_multiset_ensures;

            assert(all.take(i + 1) =~= all.take(i as int).push(names@[i as int]@));
        }
        out.insert(p, names[i].clone());
        assert(strs(out@) =~= before.insert(p as int, names@[i as int]@));
        i = i + 1;
    }
    assert(all.take(i as int) =~= all);
    out
}

/// The first `limit` names of a directory, in order; none where there is nothing
/// to name.
pub fn list_dir_entries(names: &Vec<String>, limit: usize) -> (r: Option<Vec<String>>)
    ensures
        match r {
            None => names@.len() == 0 || limit == 0,
            Some(v) => {
                &&& names@.len() > 0 && limit > 0
                &&& exists|s: Seq<Seq<char>>| #[trigger]
                    is_sorted_copy(s, strs(names@)) && strs(v@) == s.take(
                        if s.len() <= limit {
                            s.len() as int
                        } else {
                            limit as int
                        },
                    )
            },
        },
{
    if names.len() == 0 || limit == 0 {
        return None;
    }
    let all = sort_names(names);
    let ghost s = strs(all@);
    let n: usize = if all.len() <= limit {
        all.len()
    } else {
        limit
    };
    let mut out: Vec<String> = Vec::new();
    let mut i: usize = 0;
    while i < n
        invariant
            s == strs(all@),
            i <= n <= all@.len(),
            out@.len() == i,
            forall|k: int| 0 <= k < i ==> (#[trigger] out@[k])@ == all@[k]@,
        decreases n - i,
    {
        out.push(all[i].clone());
        i = i + 1;
    }
    assert(strs(out@) =~= s.take(n as int));
    Some(out)
}

// ---------------------------------------------------------------------------
// The whole picture
// ---------------------------------------------------------------------------

/// The files that are looked for to tell what a directory is about.
pub fn readme_names() -> (r: Vec<&'static str>)
    ensures
        r@ == seq!["README.md", "Readme.md", "readme.md"],
{
    let mut v: Vec<&'static str> = Vec::new();
    v.push("README.md");
    v.push("Readme.md");
    v.push("readme.md");
    assert(v@ =~= seq!["README.md", "Readme.md", "readme.md"]);
    v
}

/// The start of the first text that holds anything.
pub open spec fn first_excerpt(texts: Seq<Option<String>>, max: nat) -> Option<Seq<char>>
    decreases texts.len(),
{
    if texts.len() == 0 {
        None
    } else {
        match texts[0] {
            Some(t) => {
                let e = truncated(trimmed(t@), max);
                if e.len() > 0 {
                    Some(e)
                } else {
                    first_excerpt(texts.skip(1), max)
                }
            },
            None => first_excerpt(texts.skip(1), max),
        }
    }
}

/// The start of the first text that holds anything, of those that could be read.
pub fn read_readme_excerpt(texts: &Vec<Option<String>>, max_chars: usize) -> (r: Option<String>)
    ensures
        opt_text(r) == first_excerpt(texts@, max_chars as nat),
{
    let mut i: usize = 0;
    assert(texts@.skip(0) =~= texts@);
    while i < texts.len()
        invariant
            i <= texts@.len(),
            first_excerpt(texts@, max_chars as nat) == first_excerpt(
                texts@.skip(i as int),
                max_chars as nat,
            ),
        decreases texts@.len() - i,
    {
        assert(texts@.skip(i as int)[0] == texts@[i as int]);
        assert(texts@.skip(i as int).skip(1) =~= texts@.skip(i + 1));
        if let Some(text) = &texts[i] {
            let t = trim(text.as_str());
            let excerpt = truncate_chars(t.as_str(), max_chars);
            if !excerpt.as_str().is_empty() {
                return Some(excerpt);
            }
        }
        i = i + 1;
    }
    None
}

/// What a command printed, where it went well and printed anything.
pub fn captured_text(success: bool, stdout: &str) -> (r: Option<String>)
    ensures
        opt_text(r) == (if success && !blank(stdout@) {
            Some(trimmed(stdout@))
        } else {
            None
        }),
{
    let text = trim(stdout);
    if !success || text.as_str().is_empty() {
        None
    } else {
        Some(text)
    }
}

/// What is known of a repository.
#[derive(Debug)]
pub struct RepoFacts {
    pub root: String,
    pub branch: Option<String>,
    pub status: Option<String>,
    pub files: Option<String>,
}

/// The lines with a heading and a block, where there is a text for it.
pub open spec fn with_block(
    ls: Seq<Seq<char>>,
    heading: Seq<char>,
    text: Option<Seq<char>>,
) -> Seq<Seq<char>> {
    match text {
        Some(t) => ls.push(heading).push(block(t)),
        None => ls,
    }
}

/// At most the first 200 lines of a text, where it has any.
pub open spec fn first_lines(text: Option<String>) -> Option<Seq<char>> {
    match text {
        Some(t) => {
            let ls = lines_of(t@);
            if ls.len() == 0 {
                None
            } else {
                Some(
                    joined(
                        ls.take(
                            if ls.len() <= 200 {
                                ls.len() as int
                            } else {
                                200
                            },
                        ),
                        "\n"@,
                    ),
                )
            }
        },
        None => None,
    }
}

/// The state of the working tree, where there is anything to tell.
pub open spec fn status_part(status: Option<String>) -> Option<Seq<char>> {
    match status {
        Some(s) => if blank(truncated(s@, 2000)) {
            None
        } else {
            Some(truncated(s@, 2000))
        },
        None => None,
    }
}

/// The lines with what is known of a repository.
pub open spec fn repo_lines(ls: Seq<Seq<char>>, repo: RepoFacts) -> Seq<Seq<char>> {
    let l1 = ls.push("- repo_root: "@ + repo.root@);
    let l2 = match repo.branch {
        Some(b) => l1.push("- git_branch: "@ + b@),
        None => l1,
    };
    let l3 = with_block(l2, "- git_status_short:"@, status_part(repo.status));
    with_block(l3, "- tracked_files_sample:"@, first_lines(repo.files))
}

/// What a model is told of a directory.
pub open spec fn workspace_text(
    cwd: Seq<char>,
    repo: Option<RepoFacts>,
    entries: Option<Seq<Seq<char>>>,
    readme: Option<Seq<char>>,
) -> Seq<char> {
    let l0 = seq!["- cwd: "@ + cwd];
    let l1 = match repo {
        Some(r) => repo_lines(l0, r),
        None => l0,
    };
    let l2 = with_block(
        l1,
        "- top_level_entries:"@,
        match entries {
            Some(e) => Some(joined(e, "\n"@)),
            None => None,
        },
    );
    let l3 = with_block(l2, "- readme_excerpt:"@, readme);
    joined(l3, "\n"@)
}

fn push_line(out: &mut Vec<String>, label: &str, text: &str)
    ensures
        strs(final(out)@) == strs(old(out)@).push(label@ + text@),
{
    let ghost before = out@;
    let mut line = label.to_string();
    push_text(&mut line, text);
    out.push(line);
    proof {
        lemma_strs_push(before, out@.last());
    }
}

fn push_block(out: &mut Vec<String>, heading: &str, text: &Option<String>)
    ensures
        strs(final(out)@) == with_block(strs(old(out)@), heading@, opt_text(*text)),
{
    if let Some(t) = text {
        let ghost b0 = out@;
        out.push(heading.to_string());
        let ghost b1 = out@;
        out.push(indented_block(t.as_str()));
        proof {
            lemma_strs_push(b0, b1.last());
            lemma_strs_push(b1, out@.last());
        }
    }
}

fn take_lines(text: &Option<String>) -> (r: Option<String>)
    ensures
        opt_text(r) == first_lines(*text),
{
    match text {
        Some(t) => {
            let ls = lines(t.as_str());
            assert(lines_of(t@).len() == ls@.len());
            if ls.len() == 0 {
                return None;
            }
            let n: usize = if ls.len() <= 200 {
                ls.len()
            } else {
                200
            };
            let mut out: Vec<String> = Vec::new();
            let mut i: usize = 0;
            while i < n
                invariant
                    i <= n <= ls@.len(),
                    out@.len() == i,
                    forall|k: int| 0 <= k < i ==> (#[trigger] out@[k])@ == ls@[k]@,
                decreases n - i,
            {
                out.push(ls[i].clone());
                i = i + 1;
            }
            proof {
                assert forall|k: int| 0 <= k < strs(out@).len() implies #[trigger] strs(out@)[k]
                    == lines_of(t@)[k] by {
                    assert(strs(ls@)[k] == ls@[k]@);
                }
                assert(strs(out@) =~= lines_of(t@).take(n as int));
            }
            Some(join(&out, "\n"))
        },
        None => None,
    }
}

/// What a model is told of a directory: where it is, what repository it belongs
/// to, what is in it, and how its description begins.
pub fn collect_workspace_context(
    cwd: &str,
    repo: &Option<RepoFacts>,
    entries: &Option<Vec<String>>,
    readme: &Option<String>,
) -> (r: String)
    ensures
        r@ == workspace_text(
            cwd@,
            *repo,
            match entries {
                Some(e) => Some(strs(e@)),
                None => None,
            },
            opt_text(*readme),
        ),
{
    let mut out: Vec<String> = Vec::new();
    push_line(&mut out, "- cwd: ", cwd);
    assert(strs(out@) =~= seq!["- cwd: "@ + cwd@]);
    if let Some(facts) = repo {
        push_line(&mut out, "- repo_root: ", facts.root.as_str());
        if let Some(branch) = &facts.branch {
            push_line(&mut out, "- git_branch: ", branch.as_str());
        }
        let status = match &facts.status {
            Some(s) => {
                let t = truncate_chars(s.as_str(), 2000);
                if is_blank(t.as_str()) {
                    None
                } else {
                    Some(t)
                }
            },
            None => None,
        };
        push_block(&mut out, "- git_status_short:", &status);
        let files = take_lines(&facts.files);
        push_block(&mut out, "- tracked_files_sample:", &files);
    }
    let listed = match entries {
        Some(e) => Some(join(e, "\n")),
        None => None,
    };
    push_block(&mut out, "- top_level_entries:", &listed);
    push_block(&mut out, "- readme_excerpt:", readme);
    join(&out, "\n")
}

// ---------------------------------------------------------------------------
// What the model is told
// ---------------------------------------------------------------------------

/// A prompt speaks of the directory that it is given in exactly if it holds one of eight
/// phrases, in capitals or not.
pub proof fn phrases_speak_of_the_workspace(prompt: Seq<char>)
    ensures
        about_workspace(prompt) <==> {
            let low = lowered(prompt);
            ||| has_text(low, "this repository"@)
            ||| has_text(low, "this repo"@)
            ||| has_text(low, "this folder"@)
            ||| has_text(low, "this directory"@)
            ||| has_text(low, "current directory"@)
            ||| has_text(low, "current folder"@)
            ||| has_text(low, "current repo"@)
            ||| has_text(low, "this project"@)
        },
{
    let low = lowered(prompt);
    let p = workspace_phrases();
    assert(p[0] == "this repository" && p[1] == "this repo" && p[2] == "this folder");
    assert(p[3] == "this directory" && p[4] == "current directory" && p[5] == "current folder");
    assert(p[6] == "current repo" && p[7] == "this project");
    assert(p[8] == "summarize this repository" && p[9] == "summarize this folder");
    reveal_strlit("summarize this repository");
    reveal_strlit("summarize this folder");
    reveal_strlit("this repository");
    reveal_strlit("this folder");
    if has_text(low, p[8]@) {
        let i = choose|i: int| occurs_at(low, p[8]@, i);
        assert(p[8]@.subrange(10, 25) =~= "this repository"@);
        assert(low.subrange(i + 10, i + 25) =~= low.subrange(i, i + 25).subrange(10, 25));
        assert(occurs_at(low, "this repository"@, i + 10));
    }
    if has_text(low, p[9]@) {
        let i = choose|i: int| occurs_at(low, p[9]@, i);
        assert(p[9]@.subrange(10, 21) =~= "this folder"@);
        assert(low.subrange(i + 10, i + 21) =~= low.subrange(i, i + 21).subrange(10, 21));
        assert(occurs_at(low, "this folder"@, i + 10));
    }
}

/// A prompt that does not speak of the directory, or of one that nothing is known of, stays
/// as it is; any other ends the text that it is put in, behind all that is known.
pub proof fn prompts_are_kept(prompt: Seq<char>, context: Seq<char>)
    ensures
        prompt_in(prompt, None) == prompt,
        !about_workspace(prompt) ==> prompt_in(prompt, Some(context)) == prompt,
        about_workspace(prompt) ==> exists|head: Seq<char>, middle: Seq<char>|
            prompt_in(prompt, Some(context)) == #[trigger] (head + context + middle + prompt),
{
    if about_workspace(prompt) {
        let head = "You are answering a question about the user's local workspace.\nUse the provided workspace context as source material.\nIf information is missing, say so briefly.\n\nWorkspace context:\n"@;
        let middle = "\n\nUser request:\n"@;
        assert(prompt_in(prompt, Some(context)) == head + context + middle + prompt);
    }
}

/// A text that is short enough stays; of a longer one the start is kept, as many characters
/// as there may be, and dots tell that there was more.
pub proof fn long_texts_are_cut(text: Seq<char>, max: nat)
    ensures
        text.len() <= max ==> truncated(text, max) == text,
        text.len() > max > 0 ==> truncated(text, max) == text.take(max as int) + seq![
            '.',
            '.',
            '.',
        ],
        max == 0 ==> truncated(text, max).len() == 0,
{
    reveal_strlit("...");
    assert("..."@ =~= seq!['.', '.', '.']);
    if max == 0 && text.len() == 0 {
        assert(truncated(text, max) =~= text);
    }
}

/// Every line of a block stands two places further in, in its order.
pub proof fn blocks_are_set_in(ls: Seq<Seq<char>>, i: int)
    requires
        0 <= i < ls.len(),
    ensures
        indented(ls).len() == ls.len(),
        indented(ls)[i] == seq![' ', ' '] + ls[i],
{
    reveal_strlit("  ");
    assert("  "@ =~= seq![' ', ' ']);
}

/// The first text that could be read and holds anything is quoted from its start.
pub proof fn the_first_description_is_quoted(
    before: Seq<Option<String>>,
    text: String,
    after: Seq<Option<String>>,
    max: nat,
)
    requires
        max > 0,
        !all_white(text@),
        forall|i: int|
            0 <= i < before.len() ==> match #[trigger] before[i] {
                Some(t) => all_white(t@),
                None => true,
            },
    ensures
        first_excerpt(before + seq![Some(text)] + after, max) == Some(
            truncated(trimmed(text@), max),
        ),
        first_excerpt(before, max) is None,
    decreases before.len(),
{
    let all = before + seq![Some(text)] + after;
    blank_texts_are_white(text@);
    long_texts_are_cut(trimmed(text@), max);
    if before.len() == 0 {
        assert(all[0] == Some(text));
    } else {
        assert(all[0] == before[0]);
        assert(all.skip(1) =~= before.skip(1) + seq![Some(text)] + after);
        assert forall|i: int| 0 <= i < before.skip(1).len() implies (
        match #[trigger] before.skip(1)[i] {
            Some(t) => all_white(t@),
            None => true,
        }) by {
            assert(before.skip(1)[i] == before[i + 1]);
        }
        the_first_description_is_quoted(before.skip(1), text, after, max);
        if let Some(t) = before[0] {
            blank_texts_are_white(t@);
            assert(truncated(trimmed(t@), max).len() == 0);
        }
    }
}

/// A heading and its block are set behind what is told already, where there is a text.
pub proof fn blocks_stand_below_their_headings(
    ls: Seq<Seq<char>>,
    heading: Seq<char>,
    text: Seq<char>,
)
    ensures
        with_block(ls, heading, None) == ls,
        with_block(ls, heading, Some(text)).len() == ls.len() + 2,
        with_block(ls, heading, Some(text)).take(ls.len() as int) == ls,
        with_block(ls, heading, Some(text))[ls.len() as int] == heading,
        with_block(ls, heading, Some(text)).last() == block(text),
{
    assert(with_block(ls, heading, Some(text)).take(ls.len() as int) =~= ls);
}

/// Of the files of a repository the first two hundred are named; of the state of the
/// working tree the first two thousand characters are told, unless it is blank.
pub proof fn repositories_are_told_of_in_part(files: String, status: String)
    ensures
        lines_of(files@).len() == 0 ==> first_lines(Some(files)) is None,
        0 < lines_of(files@).len() <= 200 ==> first_lines(Some(files)) == Some(
            joined(lines_of(files@), "\n"@),
        ),
        lines_of(files@).len() > 200 ==> first_lines(Some(files)) == Some(
            joined(lines_of(files@).take(200), "\n"@),
        ),
        first_lines(None) is None,
        0 < status@.len() <= 2000 && !all_white(status@) ==> status_part(Some(status)) == Some(
            status@,
        ),
        all_white(status@) && status@.len() <= 2000 ==> status_part(Some(status)) is None,
        status@.len() > 2000 ==> status_part(Some(status)) == Some(
            status@.take(2000) + seq!['.', '.', '.'],
        ),
        status_part(None) is None,
{
    let ls = lines_of(files@);
    assert(ls.take(ls.len() as int) =~= ls);
    blank_texts_are_white(status@);
    long_texts_are_cut(status@, 2000);
    if status@.len() > 2000 {
        let t = truncated(status@, 2000);
        blank_texts_are_white(t);
        assert(t[2000] == '.');
        assert(!white('.'));
    }
}

/// What the model is told begins with where it is; behind that stand the repository, the
/// entries and the description, each where it is known and in this order.
pub proof fn the_whole_picture_is_told(
    cwd: Seq<char>,
    repo: RepoFacts,
    entries: Seq<Seq<char>>,
    readme: Seq<char>,
)
    ensures
        workspace_text(cwd, None, None, None) == "- cwd: "@ + cwd,
        workspace_text(cwd, None, Some(entries), None) == joined(
            seq!["- cwd: "@ + cwd, "- top_level_entries:"@, block(joined(entries, "\n"@))],
            "\n"@,
        ),
        workspace_text(cwd, None, Some(entries), Some(readme)) == joined(
            seq![
                "- cwd: "@ + cwd,
                "- top_level_entries:"@,
                block(joined(entries, "\n"@)),
                "- readme_excerpt:"@,
                block(readme),
            ],
            "\n"@,
        ),
        repo.branch is None && repo.status is None && repo.files is None ==> workspace_text(
            cwd,
            Some(repo),
            None,
            None,
        ) == joined(seq!["- cwd: "@ + cwd, "- repo_root: "@ + repo.root@], "\n"@),
        repo.branch is Some && repo.status is None && repo.files is None ==> workspace_text(
            cwd,
            Some(repo),
            None,
            None,
        ) == joined(
            seq![
                "- cwd: "@ + cwd,
                "- repo_root: "@ + repo.root@,
                "- git_branch: "@ + repo.branch->Some_0@,
            ],
            "\n"@,
        ),
        repo.branch is None && status_part(repo.status) is Some && first_lines(repo.files) is Some
            ==> workspace_text(cwd, Some(repo), None, None) == joined(
            seq![
                "- cwd: "@ + cwd,
                "- repo_root: "@ + repo.root@,
                "- git_status_short:"@,
                block(status_part(repo.status)->Some_0),
                "- tracked_files_sample:"@,
                block(first_lines(repo.files)->Some_0),
            ],
            "\n"@,
        ),
{
    let c = "- cwd: "@ + cwd;
    let l0 = seq![c];
    assert(l0[0] == c);
    let e = block(joined(entries, "\n"@));
    let l2 = seq![c, "- top_level_entries:"@, e];
    assert(l0.push("- top_level_entries:"@).push(e) =~= l2);
    assert(l2.push("- readme_excerpt:"@).push(block(readme)) =~= seq![
        c,
        "- top_level_entries:"@,
        e,
        "- readme_excerpt:"@,
        block(readme),
    ]);
    let r1 = seq![c, "- repo_root: "@ + repo.root@];
    assert(l0.push("- repo_root: "@ + repo.root@) =~= r1);
    if let Some(b) = repo.branch {
        assert(r1.push("- git_branch: "@ + b@) =~= seq![
            c,
            "- repo_root: "@ + repo.root@,
            "- git_branch: "@ + b@,
        ]);
    }
    if status_part(repo.status) is Some && first_lines(repo.files) is Some {
        let s = block(status_part(repo.status)->Some_0);
        let f = block(first_lines(repo.files)->Some_0);
        assert(r1.push("- git_status_short:"@).push(s).push("- tracked_files_sample:"@).push(f)
            =~= seq![
            c,
            "- repo_root: "@ + repo.root@,
            "- git_status_short:"@,
            s,
            "- tracked_files_sample:"@,
            f,
        ]);
    }
}

/// Sorted names are the very names, in the order of texts: none that comes later comes
/// before one that stands before it.
pub proof fn sorted_names_are_in_order(
    out: Seq<Seq<char>>,
    of: Seq<Seq<char>>,
    i: int,
    j: int,
)
    requires
        is_sorted_copy(out, of),
        0 <= i < j < out.len(),
    ensures
        comes_before(out[i], out[j]) || out[i] == out[j],
        out.to_multiset() == of.to_multiset(),
{
    order_is_total(out[i], out[j]);
}

/// A block is its lines, each set in by two places, one under the other.
pub proof fn blocks_are_their_lines(line: Seq<char>, rest: Seq<char>)
    requires
        !has_char(line, '\n'),
        line.len() > 0 ==> line.last() != '\r',
    ensures
        line.len() > 0 ==> block(line) == seq![' ', ' '] + line,
        lines_of(rest).len() > 0 ==> block(line + seq!['\n'] + rest) == seq![' ', ' '] + line
            + seq!['\n'] + block(rest),
{
    reveal_strlit("  ");
    reveal_strlit("\n");
    assert("  "@ =~= seq![' ', ' ']);
    assert("\n"@ =~= seq!['\n']);
    lines_end_at_line_feeds(line, rest);
    let first = seq![line];
    let others = lines_of(rest);
    assert(indented(first) =~= seq![seq![' ', ' '] + line]);
    assert(indented(first)[0] == seq![' ', ' '] + line);
    if others.len() > 0 {
        assert(indented(first + others) =~= indented(first) + indented(others));
        parts_are_joined_in_order(indented(first), indented(others), "\n"@);
    }
}

} // verus!
