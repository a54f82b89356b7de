//! What is handed to a shell or to the terminal multiplexer, and how a shell
//! command moves the working directory.
use vstd::prelude::*;
use crate::config::{expanded, join_path, path_below};
use crate::json::{
    has_members, json_int, json_str, json_strs, json_uint, lemma_object_view, lemma_says,
    member_views, object2, object3, says, Json, JsonView,
};
use crate::text::{
    after_prefix, all_white, chars_of, contains, decimal, has_text, nat_to_string, opt_str,
    opt_text, push_text, same, starts, strip_prefix, strs, surrounding_white_space_is_lost, trim,
    trim_back_char, trim_char, trim_front_char, trimmed, white,
};
use crate::tools::exit_view;

verus! {

broadcast use vstd::string::group_string_axioms;

// ---------------------------------------------------------------------------
// Quoting
// ---------------------------------------------------------------------------

/// What stands for a character between single quotes.
pub open spec fn quoted_char(c: char) -> Seq<char> {
    if c == '\'' {
        seq!['\'', '"', '\'', '"', '\'']
    } else {
        seq![c]
    }
}

/// What stands for a text between single quotes.
pub open spec fn quoted_body(s: Seq<char>) -> Seq<char>
    decreases s.len(),
{
    if s.len() == 0 {
        Seq::empty()
    } else {
        quoted_body(s.drop_last()) + quoted_char(s.last())
    }
}

/// A text as one word of a shell command.
pub open spec fn quoted(s: Seq<char>) -> Seq<char> {
    seq!['\''] + quoted_body(s) + seq!['\'']
}

/// A path as one word of a shell command.
pub fn shell_quote(path: &str) -> (r: String)
    ensures
        r@ == quoted(path@),
{
    let cs = chars_of(path);
    let mut out = String::new();
    out.push('\'');
    let mut i: usize = 0;
    assert(out@ =~= seq!['\''] + quoted_body(path@.take(0)));
    while i < cs.len()
        invariant
            cs@ == path@,
            i <= cs@.len(),
            out@ == seq!['\''] + quoted_body(path@.take(i as int)),
        decreases cs@.len() - i,
    {
        let ghost before = out@;
        proof {
            assert(path@.take(i + 1).drop_last() =~= path@.take(i as int));
            assert(path@.take(i + 1).last() == path@[i as int]);
        }
        if cs[i] == '\'' {
            push_text(&mut out, "'\"'\"'");
            proof {
                reveal_strlit("'\"'\"'");
                assert("'\"'\"'"@ =~= quoted_char('\''));
            }
        } else {
            out.push(cs[i]);
            assert(out@ =~= before + quoted_char(path@[i as int]));
        }
        assert(out@ =~= seq!['\''] + quoted_body(path@.take(i + 1)));
        i = i + 1;
    }
    assert(path@.take(i as int) =~= path@);
    out.push('\'');
    assert(out@ =~= quoted(path@));
    out
}

/// How a shell reads a word.
pub enum Quote {
    Bare,
    Single,
    Double,
}

/// What a shell makes of a word that is all in quotes: between single quotes every
/// character stands for itself; between double quotes so does every character
/// that is not special there.
pub open spec fn shell_word(s: Seq<char>, quote: Quote) -> Option<Seq<char>>
    decreases s.len(),
{
    if s.len() == 0 {
        match quote {
            Quote::Bare => Some(Seq::empty()),
            _ => None,
        }
    } else {
        let c = s[0];
        let rest = s.skip(1);
        match quote {
            Quote::Bare => if c == '\'' {
                shell_word(rest, Quote::Single)
            } else if c == '"' {
                shell_word(rest, Quote::Double)
            } else {
                None
            },
            Quote::Single => if c == '\'' {
                shell_word(rest, Quote::Bare)
            } else {
                with_first(c, shell_word(rest, Quote::Single))
            },
            Quote::Double => if c == '"' {
                shell_word(rest, Quote::Bare)
            } else if c == '\\' || c == '$' || c == '`' || c == '!' {
                None
            } else {
                with_first(c, shell_word(rest, Quote::Double))
            },
        }
    }
}

/// A text with a character before it, where there is a text.
pub open spec fn with_first(c: char, s: Option<Seq<char>>) -> Option<Seq<char>> {
    match s {
        Some(t) => Some(seq![c] + t),
        None => None,
    }
}

proof fn lemma_read_char(c: char, rest: Seq<char>)
    ensures
        shell_word(quoted_char(c) + rest, Quote::Single) == with_first(
            c,
            shell_word(rest, Quote::Single),
        ),
{
    let s = quoted_char(c) + rest;
    if c == '\'' {
        let q = '\'';
        assert(s.skip(1) =~= seq!['"', '\'', '"', '\''] + rest);
        assert(s.skip(1).skip(1) =~= seq!['\'', '"', '\''] + rest);
        assert(s.skip(1).skip(1).skip(1) =~= seq!['"', '\''] + rest);
        assert(s.skip(1).skip(1).skip(1).skip(1) =~= seq!['\''] + rest);
        assert(s.skip(1).skip(1).skip(1).skip(1).skip(1) =~= rest);
        let s1 = s.skip(1);
        let s2 = s1.skip(1);
        let s3 = s2.skip(1);
        let s4 = s3.skip(1);
        assert(shell_word(s, Quote::Single) == shell_word(s1, Quote::Bare));
        assert(shell_word(s1, Quote::Bare) == shell_word(s2, Quote::Double));
        assert(s2[0] == q);
        assert(shell_word(s2, Quote::Double) == with_first(q, shell_word(s3, Quote::Double)));
        assert(shell_word(s3, Quote::Double) == shell_word(s4, Quote::Bare));
        assert(shell_word(s4, Quote::Bare) == shell_word(rest, Quote::Single));
    } else {
        assert(s.skip(1) =~= rest);
    }
}

proof fn lemma_read_body(s: Seq<char>, rest: Seq<char>)
    ensures
        match shell_word(rest, Quote::Single) {
            Some(t) => shell_word(quoted_body(s) + rest, Quote::Single) == Some(s + t),
            None => shell_word(quoted_body(s) + rest, Quote::Single) is None,
        },
    decreases s.len(),
{
    if s.len() == 0 {
        assert(quoted_body(s) + rest =~= rest);
        if shell_word(rest, Quote::Single) is Some {
            let t = shell_word(rest, Quote::Single)->Some_0;
            assert(s + t =~= t);
        }
    } else {
        let tail = quoted_char(s.last()) + rest;
        assert(quoted_body(s) + rest =~= quoted_body(s.drop_last()) + tail);
        lemma_read_char(s.last(), rest);
        lemma_read_body(s.drop_last(), tail);
        if shell_word(rest, Quote::Single) is Some {
            let t = shell_word(rest, Quote::Single)->Some_0;
            assert(s.drop_last() + (seq![s.last()] + t) =~= s + t);
        }
    }
}

/// A shell reads a quoted text as exactly that text, whatever it holds.
pub proof fn quoting_is_undone(s: Seq<char>)
    ensures
        shell_word(quoted(s), Quote::Bare) == Some(s),
{
    let end = seq!['\''];
    assert(end.skip(1) =~= Seq::empty());
    assert(shell_word(end.skip(1), Quote::Bare) == Some(Seq::<char>::empty()));
    assert(shell_word(end, Quote::Single) == Some(Seq::<char>::empty()));
    lemma_read_body(s, end);
    assert(s + Seq::<char>::empty() =~= s);
    assert(quoted(s).skip(1) =~= quoted_body(s) + end);
}

// ---------------------------------------------------------------------------
// The working directory
// ---------------------------------------------------------------------------

/// The path that a tool means: one that begins at the root as it is, any other
/// below the working directory.
pub fn resolve_tool_path(base: &str, input: &str) -> (r: String)
    ensures
        r@ == path_below(base@, input@),
{
    join_path(base, input)
}

/// The texts that make a command more than a change of directory.
pub open spec fn compound(rest: Seq<char>) -> bool {
    ||| has_text(rest, "&&"@)
    ||| has_text(rest, "||"@)
    ||| has_text(rest, ";"@)
    ||| has_text(rest, "|"@)
    ||| has_text(rest, "\n"@)
    ||| has_text(rest, "\t"@)
}

/// A text without the quotes around it.
pub open spec fn unquoted(s: Seq<char>) -> Seq<char> {
    let t = trimmed(s);
    let u = trim_back_char(trim_front_char(t, '"'), '"');
    trim_back_char(trim_front_char(u, '\''), '\'')
}

/// Where a command that does nothing but change the directory leads to.
pub open spec fn cd_path(cmd: Seq<char>, cwd: Seq<char>, home: Option<Seq<char>>) -> Option<
    Seq<char>,
> {
    if trimmed(cmd) == "cd"@ {
        home
    } else {
        match after_prefix(trimmed(cmd), "cd "@) {
            None => None,
            Some(rest) => {
                let target = unquoted(rest);
                if compound(rest) || target.len() == 0 {
                    None
                } else if target == "~"@ || after_prefix(target, "~/"@) is Some {
                    match home {
                        Some(h) => Some(expanded(target, home)),
                        None => None,
                    }
                } else {
                    Some(path_below(cwd, target))
                }
            },
        }
    }
}

/// Where a command that does nothing but change the directory leads to. Whether
/// that is a directory is for the caller to find out.
pub fn cd_candidate(cmd: &str, cwd: &str, home: Option<&str>) -> (r: Option<String>)
    ensures
        opt_text(r) == cd_path(cmd@, cwd@, opt_str(home)),
{
    let text = trim(cmd);
    if same(text.as_str(), "cd") {
        return match home {
            Some(h) => Some(h.to_string()),
            None => None,
        };
    }
    let rest = match strip_prefix(text.as_str(), "cd ") {
        Some(rest) => rest,
        None => {
            return None;
        },
    };
    let words = rest.as_str();
    if contains(words, "&&") || contains(words, "||") || contains(words, ";") || contains(
        words,
        "|",
    ) || contains(words, "\n") || contains(words, "\t") {
        return None;
    }
    let t = trim(words);
    let u = trim_char(t.as_str(), '"');
    let target = trim_char(u.as_str(), '\'');
    if target.as_str().is_empty() {
        return None;
    }
    if same(target.as_str(), "~") {
        return match home {
            Some(h) => Some(h.to_string()),
            None => None,
        };
    }
    match strip_prefix(target.as_str(), "~/") {
        Some(suffix) => match home {
            Some(h) => Some(join_path(h, suffix.as_str())),
            None => None,
        },
        None => Some(resolve_tool_path(cwd, target.as_str())),
    }
}

/// Where a change of directory leads to, given whether what it names is a
/// directory. The home directory is taken without a look.
pub fn parse_simple_cd(cmd: &str, cwd: &str, home: Option<&str>, is_dir: bool) -> (r: Option<
    String,
>)
    ensures
        opt_text(r) == (if trimmed(cmd@) == "cd"@ || is_dir {
            cd_path(cmd@, cwd@, opt_str(home))
        } else {
            None
        }),
{
    let text = trim(cmd);
    if same(text.as_str(), "cd") || is_dir {
        cd_candidate(cmd, cwd, home)
    } else {
        None
    }
}

/// The command to run, without the white space around it. A blank one is refused.
pub fn run_inline_shell(cmd: &str) -> (r: Result<String, String>)
    ensures
        match r {
            Ok(text) => text@ == trimmed(cmd@) && text@.len() > 0,
            Err(e) => trimmed(cmd@).len() == 0 && e@ == "shell cmd is empty"@,
        },
{
    let text = trim(cmd);
    if text.as_str().is_empty() {
        return Err("shell cmd is empty".to_string());
    }
    Ok(text)
}

/// Why a command cannot run in a directory.
pub fn shell_cwd_error(cwd: &str, exists: bool, is_dir: bool) -> (r: Option<String>)
    ensures
        opt_text(r) == (if !exists {
            Some("shell cwd does not exist: "@ + cwd@)
        } else if !is_dir {
            Some("shell cwd is not a directory: "@ + cwd@)
        } else {
            None
        }),
{
    if exists && is_dir {
        return None;
    }
    let mut text = if exists {
        "shell cwd is not a directory: ".to_string()
    } else {
        "shell cwd does not exist: ".to_string()
    };
    push_text(&mut text, cwd);
    Some(text)
}

/// The members that tell of a shell command and of the directory that it ran in.
pub open spec fn shell_members(
    code: Option<i32>,
    success: bool,
    stdout: Seq<char>,
    stderr: Seq<char>,
    cwd: Seq<char>,
) -> Seq<(Seq<char>, JsonView)> {
    seq![
        ("status"@, exit_view(code)),
        ("success"@, JsonView::Bool(success)),
        ("stdout"@, JsonView::Str(stdout)),
        ("stderr"@, JsonView::Str(stderr)),
        ("cwd"@, JsonView::Str(cwd)),
    ]
}

fn write_shell_members(
    code: Option<i32>,
    success: bool,
    stdout: &str,
    stderr: &str,
    cwd: &str,
) -> (r: Vec<(String, Json)>)
    ensures
        member_views(r@) == shell_members(code, success, stdout@, stderr@, cwd@),
{
    let status = match code {
        Some(c) => json_int(c as i64),
        None => Json::Null,
    };
    let mut out: Vec<(String, Json)> = Vec::new();
    out.push(("status".to_string(), status));
    out.push(("success".to_string(), Json::Bool(success)));
    out.push(("stdout".to_string(), json_str(stdout)));
    out.push(("stderr".to_string(), json_str(stderr)));
    out.push(("cwd".to_string(), json_str(cwd)));
    assert(member_views(out@) =~= shell_members(code, success, stdout@, stderr@, cwd@));
    out
}

/// The result of a shell command that the client ran.
pub fn inline_shell_result(
    code: Option<i32>,
    success: bool,
    stdout: &str,
    stderr: &str,
    cwd: &str,
) -> (r: Json)
    ensures
        r@ == JsonView::Object(shell_members(code, success, stdout@, stderr@, cwd@)),
{
    let out = write_shell_members(code, success, stdout, stderr, cwd);
    proof {
        lemma_object_view(out);
    }
    Json::Object(out)
}

/// The result of a change of directory.
pub fn cd_result(cwd: &str) -> (r: Json)
    ensures
        r@ == JsonView::Object(
            shell_members(Some(0), true, Seq::empty(), Seq::empty(), cwd@).push(
                ("note"@, JsonView::Str("cwd updated via cd"@)),
            ),
        ),
{
    let mut out = write_shell_members(Some(0), true, "", "", cwd);
    let ghost before = member_views(out@);
    proof {
        reveal_strlit("");
        assert(""@ =~= Seq::empty());
    }
    out.push(("note".to_string(), json_str("cwd updated via cd")));
    proof {
        lemma_object_view(out);
        assert(member_views(out@) =~= before.push(
            ("note"@, JsonView::Str("cwd updated via cd"@)),
        ));
    }
    Json::Object(out)
}

/// How many bytes of a file are handed on.
pub fn read_limit(max_bytes: Option<u64>) -> (r: u64)
    ensures
        r == (match max_bytes {
            None => 256_000u64,
            Some(n) => if n < 1 {
                1
            } else if n > 2_000_000 {
                2_000_000
            } else {
                n
            },
        }),
{
    match max_bytes {
        None => 256_000,
        Some(n) => if n < 1 {
            1
        } else if n > 2_000_000 {
            2_000_000
        } else {
            n
        },
    }
}

/// The result of writing a file, by the client.
pub fn inline_write_result(path: &str, bytes_written: u64, appended: bool) -> (r: Json)
    ensures
        r@ == JsonView::Object(
            seq![
                ("path"@, JsonView::Str(path@)),
                ("bytes_written"@, JsonView::Unsigned(bytes_written)),
                ("appended"@, JsonView::Bool(appended)),
            ],
        ),
{
    object3(
        "path",
        json_str(path),
        "bytes_written",
        json_uint(bytes_written),
        "appended",
        Json::Bool(appended),
    )
}

/// The result of listing a directory, by the client.
pub fn inline_list_result(path: &str, entries: &Vec<String>) -> (r: Json)
    ensures
        r@ == JsonView::Object(
            seq![
                ("path"@, JsonView::Str(path@)),
                (
                    "entries"@,
                    JsonView::Array(strs(entries@).map_values(|s: Seq<char>| JsonView::Str(s))),
                ),
            ],
        ),
{
    object2("path", json_str(path), "entries", json_strs(entries))
}

// ---------------------------------------------------------------------------
// The terminal session
// ---------------------------------------------------------------------------

/// The name of the session that a person works in.
pub fn main_session(prefix: &str) -> (r: String)
    ensures
        r@ == prefix@ + "-main"@,
{
    let mut s = prefix.to_string();
    push_text(&mut s, "-main");
    s
}

/// The name under which a new session's logs are kept.
pub fn generate_session_id(now_ms: u128, pid: u32) -> (r: String)
    ensures
        r@ == decimal(now_ms as nat) + "-"@ + decimal(pid as nat),
{
    let mut s = nat_to_string(now_ms);
    push_text(&mut s, "-");
    let p = nat_to_string(pid as u128);
    push_text(&mut s, p.as_str());
    s
}

/// What a new session is made with.
pub open spec fn session_arguments(
    name: Seq<char>,
    cwd: Seq<char>,
    session_id: Seq<char>,
    log_dir: Seq<char>,
    zdotdir: Seq<char>,
    bin: Option<Seq<char>>,
) -> Seq<Seq<char>> {
    seq![
        "new-session"@,
        "-d"@,
        "-A"@,
        "-s"@,
        name,
        "-c"@,
        cwd,
        "-e"@,
        "AISH_SESSION_ID="@ + session_id,
        "-e"@,
        "AISH_LOG_DIR="@ + log_dir,
        "-e"@,
        "AISH_ACTOR=human"@,
        "-e"@,
        "ZDOTDIR="@ + zdotdir,
    ] + (match bin {
        Some(b) => seq!["-e"@, "AISH_BIN="@ + b],
        None => Seq::empty(),
    }) + seq!["zsh"@, "-l"@]
}

fn setting(name: &str, value: &str) -> (r: String)
    ensures
        r@ == name@ + value@,
{
    let mut s = name.to_string();
    push_text(&mut s, value);
    s
}

/// What a new session is made with.
pub fn launch_arguments(
    name: &str,
    cwd: &str,
    session_id: &str,
    log_dir: &str,
    zdotdir: &str,
    bin: Option<&str>,
) -> (r: Vec<String>)
    ensures
        strs(r@) == session_arguments(
            name@,
            cwd@,
            session_id@,
            log_dir@,
            zdotdir@,
            opt_str(bin),
        ),
{
    let mut out: Vec<String> = Vec::new();
    out.push("new-session".to_string());
    out.push("-d".to_string());
    out.push("-A".to_string());
    out.push("-s".to_string());
    out.push(name.to_string());
    out.push("-c".to_string());
    out.push(cwd.to_string());
    out.push("-e".to_string());
    out.push(setting("AISH_SESSION_ID=", session_id));
    out.push("-e".to_string());
    out.push(setting("AISH_LOG_DIR=", log_dir));
    out.push("-e".to_string());
    out.push("AISH_ACTOR=human".to_string());
    out.push("-e".to_string());
    out.push(setting("ZDOTDIR=", zdotdir));
    if let Some(b) = bin {
        out.push("-e".to_string());
        out.push(setting("AISH_BIN=", b));
    }
    out.push("zsh".to_string());
    out.push("-l".to_string());
    assert(strs(out@) =~= session_arguments(
        name@,
        cwd@,
        session_id@,
        log_dir@,
        zdotdir@,
        opt_str(bin),
    ));
    out
}

/// The command that copies the output of a session to a file.
pub fn capture_command(output_path: &str) -> (r: String)
    ensures
        r@ == "cat >> "@ + quoted(output_path@),
{
    let mut s = "cat >> ".to_string();
    let word = shell_quote(output_path);
    push_text(&mut s, word.as_str());
    s
}

/// What the copying of a session's output is set up with.
pub fn capture_arguments(name: &str, output_path: &str) -> (r: Vec<String>)
    ensures
        strs(r@) == seq![
            "pipe-pane"@,
            "-o"@,
            "-t"@,
            name@ + ":0.0"@,
            "cat >> "@ + quoted(output_path@),
        ],
{
    let mut out: Vec<String> = Vec::new();
    out.push("pipe-pane".to_string());
    out.push("-o".to_string());
    out.push("-t".to_string());
    out.push(setting(name, ":0.0"));
    out.push(capture_command(output_path));
    assert(strs(out@) =~= seq![
        "pipe-pane"@,
        "-o"@,
        "-t"@,
        name@ + ":0.0"@,
        "cat >> "@ + quoted(output_path@),
    ]);
    out
}

// ---------------------------------------------------------------------------
// What commands lead to
// ---------------------------------------------------------------------------

/// A command alone that changes the directory leads home.
pub proof fn bare_changes_lead_home(
    a: Seq<char>,
    b: Seq<char>,
    cwd: Seq<char>,
    home: Option<Seq<char>>,
)
    requires
        all_white(a),
        all_white(b),
    ensures
        cd_path(a + seq!['c', 'd'] + b, cwd, home) == home,
{
    reveal_strlit("cd");
    assert("cd"@ =~= seq!['c', 'd']);
    assert(!white('c') && !white('d'));
    surrounding_white_space_is_lost(a, seq!['c', 'd'], b);
}

/// A plain name of a directory: without quotes or white space at its ends.
pub open spec fn plain_name(s: Seq<char>) -> bool {
    &&& s.len() > 0
    &&& !white(s[0]) && !white(s.last())
    &&& s[0] != '"' && s[0] != '\'' && s.last() != '"' && s.last() != '\''
}

proof fn lemma_plain(dir: Seq<char>)
    requires
        plain_name(dir),
    ensures
        trimmed(seq!['c', 'd', ' '] + dir) == seq!['c', 'd', ' '] + dir,
        after_prefix(seq!['c', 'd', ' '] + dir, "cd "@) == Some(dir),
        seq!['c', 'd', ' '] + dir != "cd"@,
        unquoted(dir) == dir,
{
    reveal_strlit("cd ");
    reveal_strlit("cd");
    let head = seq!['c', 'd', ' '];
    assert("cd "@ =~= head);
    let s = head + dir;
    let none = Seq::<char>::empty();
    assert(!white('c'));
    assert(s[0] == 'c' && s.last() == dir.last());
    surrounding_white_space_is_lost(none, s, none);
    assert(none + s + none =~= s);
    assert(s.take(3) =~= head);
    assert(s.skip(3) =~= dir);
    surrounding_white_space_is_lost(none, dir, none);
    assert(none + dir + none =~= dir);
}

/// A command that changes the directory leads to what it names: a path from the root as
/// it is, any other below the working directory, and below the home directory if a
/// tilde says so.
pub proof fn changes_lead_where_they_say(
    dir: Seq<char>,
    cwd: Seq<char>,
    home: Seq<char>,
)
    requires
        plain_name(dir),
        !compound(dir),
    ensures
        dir[0] != '~' ==> cd_path(seq!['c', 'd', ' '] + dir, cwd, Some(home)) == Some(
            path_below(cwd, dir),
        ),
        dir[0] != '~' ==> cd_path(seq!['c', 'd', ' '] + dir, cwd, None) == Some(
            path_below(cwd, dir),
        ),
        dir == seq!['~'] ==> cd_path(seq!['c', 'd', ' '] + dir, cwd, Some(home)) == Some(home),
        dir.len() > 1 && dir[0] == '~' && dir[1] == '/' ==> cd_path(
            seq!['c', 'd', ' '] + dir,
            cwd,
            Some(home),
        ) == Some(path_below(home, dir.skip(2))),
        dir == seq!['~'] ==> cd_path(seq!['c', 'd', ' '] + dir, cwd, None) is None,
{
    lemma_plain(dir);
    reveal_strlit("~");
    reveal_strlit("~/");
    assert("~"@ =~= seq!['~']);
    assert("~/"@ =~= seq!['~', '/']);
    if dir.len() > 1 && dir[0] == '~' && dir[1] == '/' {
        assert(dir.take(2) =~= "~/"@);
    }
    if starts(dir, "~/"@) {
        assert(dir.take(2)[0] == dir[0]);
    }
}

/// A command that does more than change the directory is none that changes it: one with
/// another command behind it, or one that is not called so.
pub proof fn other_commands_lead_nowhere(
    dir: Seq<char>,
    cmd: Seq<char>,
    cwd: Seq<char>,
    home: Option<Seq<char>>,
)
    requires
        plain_name(dir),
    ensures
        has_text(dir, "&&"@) || has_text(dir, "||"@) || has_text(dir, ";"@) || has_text(dir, "|"@)
            || has_text(dir, "\n"@) || has_text(dir, "\t"@) ==> cd_path(
            seq!['c', 'd', ' '] + dir,
            cwd,
            home,
        ) is None,
        trimmed(cmd) != "cd"@ && !starts(trimmed(cmd), "cd "@) ==> cd_path(cmd, cwd, home) is None,
{
    lemma_plain(dir);
}

/// The result of a command says how it ended, what it wrote to both streams and where it
/// ran.
pub proof fn results_tell_of_the_command(
    code: Option<i32>,
    success: bool,
    stdout: Seq<char>,
    stderr: Seq<char>,
    cwd: Seq<char>,
)
    ensures
        ({
            let r = JsonView::Object(shell_members(code, success, stdout, stderr, cwd));
            &&& says(r, "status"@, exit_view(code))
            &&& says(r, "success"@, JsonView::Bool(success))
            &&& says(r, "stdout"@, JsonView::Str(stdout))
            &&& says(r, "stderr"@, JsonView::Str(stderr))
            &&& says(r, "cwd"@, JsonView::Str(cwd))
            &&& has_members(r, 5)
        }),
{
    let o = shell_members(code, success, stdout, stderr, cwd);
    lemma_says(o);
    assert(o[0].0 == "status"@ && o[1].0 == "success"@ && o[2].0 == "stdout"@);
    assert(o[3].0 == "stderr"@ && o[4].0 == "cwd"@);
}

/// Two arguments stand next to each other.
pub open spec fn hands_over(args: Seq<Seq<char>>, flag: Seq<char>, value: Seq<char>) -> bool {
    exists|i: int| 0 <= i < args.len() - 1 && #[trigger] args[i] == flag && args[i + 1] == value
}

/// A session is made under its name and in its directory, and its shell learns the
/// session, where to log, where its start files are and, if it is known, which program
/// to call.
pub proof fn sessions_know_themselves(
    name: Seq<char>,
    cwd: Seq<char>,
    session_id: Seq<char>,
    log_dir: Seq<char>,
    zdotdir: Seq<char>,
    bin: Option<Seq<char>>,
)
    ensures
        ({
            let args = session_arguments(name, cwd, session_id, log_dir, zdotdir, bin);
            &&& args[0] == "new-session"@
            &&& hands_over(args, "-s"@, name)
            &&& hands_over(args, "-c"@, cwd)
            &&& hands_over(args, "-e"@, "AISH_SESSION_ID="@ + session_id)
            &&& hands_over(args, "-e"@, "AISH_LOG_DIR="@ + log_dir)
            &&& hands_over(args, "-e"@, "AISH_ACTOR=human"@)
            &&& hands_over(args, "-e"@, "ZDOTDIR="@ + zdotdir)
            &&& bin is Some ==> hands_over(args, "-e"@, "AISH_BIN="@ + bin->Some_0)
            &&& args[args.len() - 2] == "zsh"@
            &&& args.last() == "-l"@
        }),
{
    let args = session_arguments(name, cwd, session_id, log_dir, zdotdir, bin);
    assert(args[3] == "-s"@ && args[4] == name);
    assert(args[5] == "-c"@ && args[6] == cwd);
    assert(args[7] == "-e"@ && args[8] == "AISH_SESSION_ID="@ + session_id);
    assert(args[9] == "-e"@ && args[10] == "AISH_LOG_DIR="@ + log_dir);
    assert(args[11] == "-e"@ && args[12] == "AISH_ACTOR=human"@);
    assert(args[13] == "-e"@ && args[14] == "ZDOTDIR="@ + zdotdir);
    if bin is Some {
        assert(args[15] == "-e"@ && args[16] == "AISH_BIN="@ + bin->Some_0);
    }
}

/// Quotes around the name of a directory do not count.
pub proof fn quotes_around_names_are_lost(dir: Seq<char>, cwd: Seq<char>, home: Option<Seq<char>>)
    requires
        plain_name(dir),
        !compound(seq!['"'] + dir + seq!['"']),
        !compound(seq!['\''] + dir + seq!['\'']),
        dir[0] != '~',
    ensures
        cd_path(seq!['c', 'd', ' ', '"'] + dir + seq!['"'], cwd, home) == Some(
            path_below(cwd, dir),
        ),
        cd_path(seq!['c', 'd', ' ', '\''] + dir + seq!['\''], cwd, home) == Some(
            path_below(cwd, dir),
        ),
{
    lemma_quoted(dir, '"');
    lemma_quoted(dir, '\'');
    reveal_strlit("~");
    reveal_strlit("~/");
    if starts(dir, "~/"@) {
        assert(dir.take(2)[0] == dir[0]);
    }
}

proof fn lemma_quoted(dir: Seq<char>, q: char)
    requires
        plain_name(dir),
        q == '"' || q == '\'',
    ensures
        trimmed(seq!['c', 'd', ' ', q] + dir + seq![q]) == seq!['c', 'd', ' ', q] + dir + seq![q],
        after_prefix(seq!['c', 'd', ' ', q] + dir + seq![q], "cd "@) == Some(
            seq![q] + dir + seq![q],
        ),
        seq!['c', 'd', ' ', q] + dir + seq![q] != "cd"@,
        unquoted(seq![q] + dir + seq![q]) == dir,
{
    reveal_strlit("cd ");
    reveal_strlit("cd");
    let head = seq!['c', 'd', ' '];
    assert("cd "@ =~= head);
    let s = seq!['c', 'd', ' ', q] + dir + seq![q];
    let none = Seq::<char>::empty();
    assert(!white('c') && !white('"') && !white('\''));
    assert(s[0] == 'c' && s.last() == q);
    surrounding_white_space_is_lost(none, s, none);
    assert(none + s + none =~= s);
    assert(s.take(3) =~= head);
    let t = seq![q] + dir + seq![q];
    assert(s.skip(3) =~= t);
    surrounding_white_space_is_lost(none, t, none);
    assert(none + t + none =~= t);
    let front = dir + seq![q];
    assert(t.skip(1) =~= front);
    assert(front[0] == dir[0]);
    assert(front.drop_last() =~= dir);
    assert(trim_front_char(front, q) == front);
    assert(trim_front_char(t, q) == front);
    assert(trim_back_char(dir, q) == dir);
    assert(trim_back_char(front, q) == dir);
    if q == '\'' {
        assert(trim_front_char(t, '"') == t);
        assert(trim_back_char(t, '"') == t);
    } else {
        assert(trim_front_char(dir, '\'') == dir);
        assert(trim_back_char(dir, '\'') == dir);
    }
}

} // verus!
