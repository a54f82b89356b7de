//! The decision-making core of a shell assistant and its daemon.
//!
//! What the two decide and compute stands here: which tools may run, what a
//! provider is sent, how an agent and a flow go on, how logs become an index and
//! an index the context of a question. Files, sockets and processes are the
//! caller's; a function takes what was read and returns what is to be done.
pub mod agent;
pub mod args;
pub mod budget;
pub mod bundle;
pub mod config;
pub mod corpus;
pub mod diagnostics;
pub mod eventlog;
pub mod evidence;
pub mod failures;
pub mod flow;
pub mod hooks;
pub mod incidents;
pub mod index;
pub mod ingest;
pub mod inline;
pub mod intent;
pub mod json;
pub mod keymap;
pub mod messages;
pub mod policy;
pub mod profile;
pub mod provider;
pub mod query;
pub mod reading;
pub mod registry;
pub mod reply;
pub mod selection;
pub mod shell;
pub mod sse;
pub mod status;
pub mod store;
pub mod subagents;
pub mod text;
pub mod toolcalls;
pub mod tools;
pub mod workspace;
