//! The command-not-found adapter's logic: answer parsing, prompt assembly,
//! the turn and retry state machines, session paths, history stamps and the
//! progress block, each with a contract checked by Verus.

pub mod text;
pub mod protocol;
pub mod session;
pub mod cli;
pub mod config;
pub mod shell;
pub mod prompt;
pub mod ask;
pub mod pi;
pub mod ui;
pub mod markdown;
