//! The command-line surface, as plain data.
//!
//! Argument parsing itself happens outside the library; the parsed command
//! arrives here as a value of these types.

use vstd::prelude::*;

verus! {

/// One daemon invocation's subcommand.
#[derive(Clone, Copy, Debug, PartialEq, Eq, Structural)]
pub enum Commands {
    /// Starts the clipboard monitor.
    Start,
    /// Asks a running daemon to show the picker.
    Toggle,
    /// Prints the stored history.
    Dump,
    /// Empties the stored history.
    Clear,
    /// Installs the service-manager unit file.
    Install,
}

/// The parsed command line.
#[derive(Clone, Copy, Debug, PartialEq, Eq, Structural)]
pub struct Cli {
    pub command: Option<Commands>,
}

impl Cli {
    /// The subcommand to run: an absent subcommand means `Start`.
    pub fn effective(&self) -> (r: Commands)
        ensures
            r == match self.command {
                Some(c) => c,
                None => Commands::Start,
            },
    {
        match self.command {
            Some(c) => c,
            None => Commands::Start,
        }
    }
}

} // verus!
