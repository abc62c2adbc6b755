//! The status of each agent and how events change it.

pub mod agent;
pub mod sdd;
