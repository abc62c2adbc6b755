//! What the dashboard draws from: sprites, colours and summary lines.

pub mod layout;
pub mod sprites;
