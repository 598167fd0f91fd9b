//! A per-branch todo list backed by a local SQLite file.
//!
//! Each branch of a working copy owns an ordered list of short text notes.
//! A note is addressed by its *ordinal*: its 1-based rank within the
//! ascending-by-id sequence of its branch, recomputed on every read and
//! therefore unstable across deletions. The store keeps one table of
//! `(id, branch, content)` rows; ids are assigned by the engine, strictly
//! increasing and never reused, and are the only stable handle to a row.
//!
//! Concurrent invocations against the same storage file may interleave
//! non-deterministically: an ordinal resolved from a stale snapshot is the
//! user's responsibility. No cross-invocation locking is attempted.

pub mod command;
pub mod dao;
pub mod error;
pub mod model;
pub mod order;
pub mod resolver;
pub mod text;
pub mod todo;
