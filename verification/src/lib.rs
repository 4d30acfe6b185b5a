//! Supervision logic for named TCP tunnels run through an external
//! tunneling client: a bounded log buffer, parsers for the OS process
//! and socket listings the probe relies on, the supervisor's start/stop
//! state machine, and the registry of configured tunnels.

pub mod cli;
pub mod config;
pub mod logbuf;
pub mod probe;
pub mod text;
pub mod tunnel;
