//! What the caller says per invocation; everything else is a setting.

use vstd::prelude::*;

verus! {

/// The command line: an optional extra config file and a subcommand.
#[derive(Debug)]
pub struct Cli {
    /// Merge one more config file over the XDG ones.
    pub config: Option<String>,
    pub command: Command,
}

#[derive(Debug)]
pub enum Command {
    /// Ask pi for the missing command and print the shell code that runs it.
    Run(Box<Run>),
    /// Print a new session id, for a shell to export.
    SessionId,
    /// Print the system prompt the handler sends to pi.
    SystemPrompt,
    /// Print the settings the adapter resolved from every layer.
    Config,
}

/// What the caller has to say per invocation.
#[derive(Debug)]
pub struct Run {
    /// The command line the user typed, after `--`.
    pub input: Vec<String>,
    /// Shell that will source the answer, e.g. bash, zsh, fish, nu.
    pub shell: String,
    /// Session id; defaults to a random UUID.
    pub session_id: Option<String>,
}

} // verus!
