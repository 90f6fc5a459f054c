//! The rules of a project of a code editor.
//!
//! A project holds worktrees, open buffers and running language servers, and can be shared with other
//! participants. This crate decides what a project does: it keeps the project's state and says, as
//! plain values, what is to be done in the world around it. Doing it is left to the caller.
//!
//! - `project` is the state, `model` is what the rules read of buffers, worktrees and servers, and
//!   `effects` is what the rules ask for.
//! - `worktrees`, `worktree_events`, `entries`, `matching` and `search` are about files.
//! - `buffers`, `buffer_events`, `buffer_diagnostics`, `snapshots`, `edits` and `text` are about the
//!   texts that are open.
//! - `servers`, `lifecycle`, `registration`, `languages`, `progress`, `watch`, `server_messages`,
//!   `diagnostics`, `requests`, `symbols`, `hints`, `workspace_edits`, `edit_run`, `formatting`,
//!   `format_run` and `prettier` are about language servers and other tools.
//! - `sharing`, `collab`, `peers`, `sync` and `handlers` are about the other participants.
//! - `path`, `ids`, `order`, `map`, `sort`, `seqs` and `debounce` are what the rest is built on, and
//!   `outside` is what comes from other crates.

pub mod buffer_diagnostics;
pub mod buffer_events;
pub mod buffers;
pub mod collab;
pub mod debounce;
pub mod diagnostics;
pub mod edit_run;
pub mod edits;
pub mod effects;
pub mod entries;
pub mod format_run;
pub mod formatting;
pub mod handlers;
pub mod hints;
pub mod ids;
pub mod languages;
pub mod lifecycle;
pub mod map;
pub mod matching;
pub mod model;
pub mod order;
pub mod outside;
pub mod path;
pub mod peers;
pub mod prettier;
pub mod progress;
pub mod project;
pub mod registration;
pub mod requests;
pub mod search;
pub mod seqs;
pub mod server_messages;
pub mod servers;
pub mod sharing;
pub mod snapshots;
pub mod sort;
pub mod symbols;
pub mod sync;
pub mod text;
pub mod watch;
pub mod workspace_edits;
pub mod worktree_events;
pub mod worktrees;
