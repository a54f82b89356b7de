# aish

A shell assistant and its daemon. The logic is a Verus library: the functions in
`src/` state in `requires` and `ensures` what they do, and Verus proves it, but for
the few calls under "What is trusted".

## Layout

- `src/`: the library.
  - Values: `text`, `json`, `keymap`, `reply`.
  - The log index, from lines on disk to the context of a question: `index`,
    `ingest`, `reading`, `query`, `intent`, `profile`, `failures`, `evidence`, `incidents`,
    `selection`, `budget`, `bundle`, `corpus`.
  - The daemon: `config`, `policy`, `tools`, `toolcalls`, `messages`, `provider`,
    `agent`, `flow`, `subagents`, `store`, `registry`, `diagnostics`.
  - The client: `args`, `shell`, `inline`, `sse`, `workspace`, `status`,
    `eventlog`, `hooks`.
- `app/`: `main`, files, the network, the database and the terminal. One program,
  which is the daemon where it is called `aishd` and the client otherwise.
- `tests/`: tests of the library.

## What is trusted

The library calls serde_json, chrono and a few functions of std. Each call stands
in a function marked `#[verifier::external_body]`, or has its contract in an
`assume_specification`, and the comment above says what is taken for granted. Two
functions that only move JSON values in and out of serde_json have no contract.

SQLite runs in `app/`. What its statements do to the tables is modelled in `index`
(`IF NOT EXISTS`) and `reading` (`INSERT OR IGNORE`), where the laws about the index
are proved.

Scores are floating-point numbers. The library builds them as integer parts and
orders candidates by integer keys; `app/score.rs` computes the one from the other.
