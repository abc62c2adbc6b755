//! Opening the dashboard in a pane beside the session.

pub mod detect;
