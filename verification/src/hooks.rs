//! The files that hook the client into a shell.
use vstd::prelude::*;
use crate::text::{contains, has_text, opt_str};

verus! {

broadcast use vstd::string::group_string_axioms;

/// What the shell reads first.
pub const ZSHENV: &'static str = "if [[ -f \"$HOME/.zshenv\" ]]; then\n  source \"$HOME/.zshenv\"\nfi\n";

/// What an interactive shell reads.
pub const ZSHRC: &'static str = "if [[ -f \"$HOME/.zshrc\" ]]; then\n  source \"$HOME/.zshrc\"\nfi\nif [[ -f \"$HOME/.config/aish/aish.zsh\" ]]; then\n  source \"$HOME/.config/aish/aish.zsh\"\nfi\n";

/// The hooks: they write down which commands start and end, and what the size of
/// the terminal is.
pub const HOOK_SCRIPT: &'static str = r#"# aish hooks (auto-generated)
autoload -Uz add-zsh-hook

typeset -g AISH_CMD_START=""
typeset -g AISH_IN_LOG=0

_aish_log() {
  if [[ -z "$AISH_LOG_DIR" || -z "$AISH_SESSION_ID" ]]; then
    return
  fi
  if (( AISH_IN_LOG )); then
    return
  fi
  AISH_IN_LOG=1
  local bin="${AISH_BIN:-aish}"
  command "$bin" log "$@"
  AISH_IN_LOG=0
}

llm() {
  local bin="${AISH_BIN:-aish}"
  command "$bin" llm "$@"
}

_aish_preexec() {
  if (( AISH_IN_LOG )); then
    return
  fi
  AISH_CMD_START="${EPOCHREALTIME}"
  if [[ -n "$AISH_LOG_DIR" ]]; then
    print -r -- "$1" >> "$AISH_LOG_DIR/stdin.log"
  fi
  _aish_log --kind "command.start" --cmd "$1" --cwd "$PWD"
}

_aish_precmd() {
  if (( AISH_IN_LOG )); then
    return
  fi
  local exit_code=$?
  local end="${EPOCHREALTIME}"
  local duration_ms=""
  if [[ -n "$AISH_CMD_START" && -n "$end" ]]; then
    local -F start=$AISH_CMD_START
    local -F finish=$end
    local -F diff=$(( (finish - start) * 1000 ))
    duration_ms=$(printf "%.0f" "$diff")
  fi
  if [[ -n "$duration_ms" ]]; then
    _aish_log --kind "command.end" --exit "$exit_code" --cwd "$PWD" --duration-ms "$duration_ms"
  else
    _aish_log --kind "command.end" --exit "$exit_code" --cwd "$PWD"
  fi
}

TRAPWINCH() {
  _aish_log --kind "terminal.resize" --cols "$COLUMNS" --rows "$LINES"
}

add-zsh-hook preexec _aish_preexec
add-zsh-hook precmd _aish_precmd
"#;

/// The hooks.
pub fn default_hook_script() -> (r: &'static str)
    ensures
        r@ == HOOK_SCRIPT@,
{
    HOOK_SCRIPT
}

/// Whether the file with the hooks is written: it is where there is none, and
/// where the one that is there was written by this program and not by hand.
pub fn writes_hooks(existing: Option<&str>) -> (r: bool)
    ensures
        r == (match opt_str(existing) {
            Some(text) => has_text(text, "aish hooks (auto-generated)"@),
            None => true,
        }),
{
    match existing {
        Some(text) => contains(text, "aish hooks (auto-generated)"),
        None => true,
    }
}

/// The commands that are looked for on the machine.
pub fn command_candidates() -> (r: Vec<&'static str>)
    ensures
        r@ == seq![
            "rg",
            "fd",
            "git",
            "python3",
            "cargo",
            "rustc",
            "uv",
            "pytest",
            "node",
            "npm",
            "pnpm",
            "go",
            "make",
            "just",
            "docker",
            "tmux",
            "jq",
            "curl",
            "sed",
            "awk",
        ],
{
    let words: [&'static str; 20] = [
        "rg",
        "fd",
        "git",
        "python3",
        "cargo",
        "rustc",
        "uv",
        "pytest",
        "node",
        "npm",
        "pnpm",
        "go",
        "make",
        "just",
        "docker",
        "tmux",
        "jq",
        "curl",
        "sed",
        "awk",
    ];
    let mut out: Vec<&'static str> = Vec::new();
    let mut i: usize = 0;
    while i < 20
        invariant
            i <= 20,
            out@.len() == i,
            forall|k: int| 0 <= k < i ==> out@[k] == #[trigger] words@[k],
        decreases 20 - i,
    {
        out.push(words[i]);
        i = i + 1;
    }
    assert(out@ =~= words@);
    out
}

} // verus!
