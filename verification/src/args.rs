//! The command line: words that are no command are a prompt.
use vstd::prelude::*;
use crate::text::{is_one_of, one_of, same, starts, starts_with, strs};

verus! {

broadcast use vstd::string::group_string_axioms;

/// What stands for itself at the start of a command line.
pub open spec fn command_words() -> Seq<&'static str> {
    seq![
        "launch",
        "serve",
        "web",
        "attach",
        "llm",
        "status",
        "log",
        "ensure-daemon",
        "ensure_daemon",
        "help",
        "-h",
        "--help",
        "--version",
    ]
}

/// A command, or a request for help or for the version.
pub open spec fn is_command(word: Seq<char>) -> bool {
    one_of(word, command_words())
}

/// Where the words after the choice of a configuration begin, looking from `i`
/// on.
pub open spec fn after_config(args: Seq<Seq<char>>, i: nat) -> nat
    decreases args.len() - i,
{
    if i >= args.len() {
        i
    } else if args[i as int] == "--config"@ {
        if i + 1 < args.len() {
            after_config(args, i + 2)
        } else {
            i + 1
        }
    } else if starts(args[i as int], "--config="@) {
        after_config(args, i + 1)
    } else {
        i
    }
}

/// The command line with the command `llm` put in where it names none.
pub open spec fn normalized(args: Seq<Seq<char>>) -> Seq<Seq<char>> {
    let i = after_config(args, 1) as int;
    if args.len() <= 1 || i >= args.len() || is_command(args[i]) {
        args
    } else {
        args.insert(i, "llm"@)
    }
}

fn command_word(word: &str) -> (r: bool)
    ensures
        r == is_command(word@),
{
    let words: [&'static str; 13] = [
        "launch",
        "serve",
        "web",
        "attach",
        "llm",
        "status",
        "log",
        "ensure-daemon",
        "ensure_daemon",
        "help",
        "-h",
        "--help",
        "--version",
    ];
    assert(words@ =~= command_words());
    is_one_of(word, words.as_slice())
}

/// The command line with the command `llm` put in where it names none.
pub fn normalize_cli_args(raw: Vec<String>) -> (r: Vec<String>)
    requires
        raw@.len() < usize::MAX,
    ensures
        strs(r@) == normalized(strs(raw@)),
{
    if raw.len() <= 1 {
        return raw;
    }
    let ghost args = strs(raw@);
    let mut i: usize = 1;
    while i < raw.len()
        invariant
            args == strs(raw@),
            1 <= i <= raw@.len() < usize::MAX,
            after_config(args, 1) == after_config(args, i as nat),
        ensures
            args == strs(raw@),
            1 <= i <= raw@.len(),
            after_config(args, 1) == i,
        decreases raw@.len() - i,
    {
        assert(args[i as int] == raw@[i as int]@);
        if same(raw[i].as_str(), "--config") {
            if i + 1 < raw.len() {
                i = i + 2;
            } else {
                i = i + 1;
            }
        } else if starts_with(raw[i].as_str(), "--config=") {
            i = i + 1;
        } else {
            break;
        }
    }
    if i >= raw.len() {
        return raw;
    }
    assert(args[i as int] == raw@[i as int]@);
    if command_word(raw[i].as_str()) {
        return raw;
    }
    let mut out = raw;
    out.insert(i, "llm".to_string());
    assert(strs(out@) =~= args.insert(i as int, "llm"@));
    out
}

proof fn lemma_after_config_within(args: Seq<Seq<char>>, i: nat)
    ensures
        after_config(args, i) >= i,
    decreases args.len() - i,
{
    if i < args.len() {
        if args[i as int] == "--config"@ {
            if i + 1 < args.len() {
                lemma_after_config_within(args, i + 2);
            }
        } else if starts(args[i as int], "--config="@) {
            lemma_after_config_within(args, i + 1);
        }
    }
}

proof fn lemma_after_config_same(a: Seq<Seq<char>>, b: Seq<Seq<char>>, i: nat, end: nat)
    requires
        after_config(a, i) == end,
        end < a.len(),
        end < b.len(),
        forall|k: int| 0 <= k < end ==> a[k] == #[trigger] b[k],
        b[end as int] != "--config"@,
        !starts(b[end as int], "--config="@),
    ensures
        after_config(b, i) == end,
    decreases a.len() - i,
{
    lemma_after_config_within(a, i);
    if i < end {
        assert(a[i as int] == b[i as int]);
        if a[i as int] == "--config"@ {
            lemma_after_config_within(a, i + 2);
            lemma_after_config_same(a, b, i + 2, end);
        } else {
            lemma_after_config_same(a, b, i + 1, end);
        }
    }
}

/// A command line that was put in order once is in order: doing it again changes
/// nothing.
pub proof fn order_is_settled(args: Seq<Seq<char>>)
    ensures
        normalized(normalized(args)) == normalized(args),
{
    let i = after_config(args, 1);
    let out = normalized(args);
    if args.len() > 1 && i < args.len() && !is_command(args[i as int]) {
        lemma_after_config_within(args, 1);
        reveal_strlit("llm");
        reveal_strlit("--config");
        reveal_strlit("--config=");
        assert("llm"@.len() == 3 && "--config"@.len() == 8 && "--config="@.len() == 9);
        lemma_after_config_same(args, out, 1, i);
        assert(command_words()[4]@ == "llm"@);
        assert(is_command("llm"@));
    }
}

/// Nothing of a command line is lost: every word is still there, in its order,
/// and at most `llm` was added.
pub proof fn words_are_kept(args: Seq<Seq<char>>)
    ensures
        normalized(args) == args || exists|i: int|
            1 <= i < args.len() && normalized(args) == #[trigger] args.insert(i, "llm"@),
{
    lemma_after_config_within(args, 1);
}

/// A command line names a command by one of these words and by no other.
pub proof fn commands_stand_for_themselves(word: Seq<char>)
    ensures
        is_command(word) <==> {
            ||| word == "launch"@
            ||| word == "serve"@
            ||| word == "web"@
            ||| word == "attach"@
            ||| word == "llm"@
            ||| word == "status"@
            ||| word == "log"@
            ||| word == "ensure-daemon"@
            ||| word == "ensure_daemon"@
            ||| word == "help"@
            ||| word == "-h"@
            ||| word == "--help"@
            ||| word == "--version"@
        },
{
    let c = command_words();
    assert(c[0] == "launch" && c[1] == "serve" && c[2] == "web");
    assert(c[3] == "attach" && c[4] == "llm" && c[5] == "status");
    assert(c[6] == "log" && c[7] == "ensure-daemon" && c[8] == "ensure_daemon");
    assert(c[9] == "help" && c[10] == "-h" && c[11] == "--help");
    assert(c[12] == "--version");
}

/// A word that neither chooses a configuration nor is a command.
pub open spec fn opens_prompt(word: Seq<char>) -> bool {
    !is_command(word) && word != "--config"@ && !starts(word, "--config="@)
}

/// Words that are no command are put to the model: `llm` is set before them, behind the
/// choice of a configuration where there is one. A command stays as it is.
pub proof fn words_are_put_to_the_model(
    program: Seq<char>,
    file: Seq<char>,
    choice: Seq<char>,
    word: Seq<char>,
    rest: Seq<Seq<char>>,
)
    requires
        starts(choice, "--config="@),
    ensures
        opens_prompt(word) ==> normalized(seq![program, word] + rest) == seq![
            program,
            "llm"@,
            word,
        ] + rest,
        opens_prompt(word) ==> normalized(seq![program, "--config"@, file, word] + rest) == seq![
            program,
            "--config"@,
            file,
            "llm"@,
            word,
        ] + rest,
        opens_prompt(word) ==> normalized(seq![program, choice, word] + rest) == seq![
            program,
            choice,
            "llm"@,
            word,
        ] + rest,
        is_command(word) ==> normalized(seq![program, word] + rest) == seq![program, word] + rest,
        is_command(word) ==> normalized(seq![program, "--config"@, file, word] + rest) == seq![
            program,
            "--config"@,
            file,
            word,
        ] + rest,
        normalized(seq![program]) == seq![program],
{
    reveal_with_fuel(after_config, 3);
    reveal_strlit("--config");
    reveal_strlit("--config=");
    commands_stand_for_themselves(word);
    if is_command(word) {
        reveal_strlit("launch");
        reveal_strlit("serve");
        reveal_strlit("web");
        reveal_strlit("attach");
        reveal_strlit("llm");
        reveal_strlit("status");
        reveal_strlit("log");
        reveal_strlit("ensure-daemon");
        reveal_strlit("ensure_daemon");
        reveal_strlit("help");
        reveal_strlit("-h");
        reveal_strlit("--help");
        reveal_strlit("--version");
        if starts(word, "--config="@) {
            assert(word.take(9)[2] == 'c');
            assert(word[2] == 'c');
            assert(word.take(9)[0] == '-');
            assert(word[0] == '-');
            assert("--config="@.len() == 9);
            assert("--version"@[2] == 'v' && "--help"@.len() == 6 && "-h"@.len() == 2);
        }
        assert(word != "--config"@) by {
            assert("--config"@.len() == 8 && "--config"@[0] == '-');
            assert("--version"@.len() == 9 && "--help"@.len() == 6 && "-h"@.len() == 2);
        }
    }
    if starts(choice, "--config="@) {
        assert(choice != "--config"@) by {
            assert("--config="@.len() == 9 && "--config"@.len() == 8);
        }
    }
    let a = seq![program, word] + rest;
    assert(a[1] == word);
    assert(a.insert(1, "llm"@) =~= seq![program, "llm"@, word] + rest);
    let b = seq![program, "--config"@, file, word] + rest;
    assert(b[1] == "--config"@ && b[3] == word);
    assert(b.insert(3, "llm"@) =~= seq![program, "--config"@, file, "llm"@, word] + rest);
    let c = seq![program, choice, word] + rest;
    assert(c[1] == choice && c[2] == word);
    assert(c.insert(2, "llm"@) =~= seq![program, choice, "llm"@, word] + rest);
}

} // verus!
