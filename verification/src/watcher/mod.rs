//! Ingestion: decoding log lines, tailing files and tracking sessions.

pub mod discovery;
pub mod file_watcher;
pub mod json;
pub mod parser;
pub mod types;
