//! Live status of coding-agent sessions, derived from their append-only
//! activity logs: discovery, incremental tailing, event extraction and the
//! per-agent state machine that a terminal dashboard reads.
//!
//! The library never reads a clock, a directory or a file. Its callers
//! hand it the time in seconds, the files that they found and the bytes
//! that they read, and every function says in its contract what it makes
//! of them, over the mathematical value (`@`) of each type.
//!
//! - [`watcher`]: decoding log lines, tailing files, tracking sessions.
//! - [`state`]: the agents and the workflow's phases.
//! - [`app`]: the dashboard's state and its tick; [`invariants`] holds
//!   what every tick preserves.
//! - [`ui`], [`terminal`]: what is drawn, and where the dashboard opens.
//! - [`text`], [`assoc`], [`order`]: strings, small keyed tables and
//!   filtered sequences.

pub mod app;
pub mod assoc;
pub mod invariants;
pub mod order;
pub mod state;
pub mod terminal;
pub mod text;
pub mod ui;
pub mod watcher;
