//! The state of the running daemon, and what happens to a message on its way to its sinks.

pub mod status;
pub mod tasks;
pub mod wake;
