//! The subcommands of the command-line front end. The interactive
//! dispatcher itself — argument parsing, prompts, terminal output —
//! stays outside the library and hands these plain values around.

use vstd::prelude::*;

verus! {

/// One subcommand of the command-line front end.
pub enum Commands {
    /// List every configured tunnel with its status.
    List,
    /// Start a selected tunnel.
    Run,
    /// Stop a selected running tunnel.
    Stop,
    /// Change the source and/or port of a configured tunnel.
    SetParams { alias: String, source: Option<String>, port: Option<u16> },
    /// Remove a configured tunnel, stopping it first when it runs.
    Remove { alias: String },
    /// Configure a new tunnel.
    Add { alias: String, source: String, port: u16 },
}

} // verus!
