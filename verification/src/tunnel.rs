//! The tunnel supervisor's state machine. A `Tunnel` owns at most one
//! child-process handle and a bounded log buffer; the decisions of
//! `start` and `stop` — whether the port check admits a spawn, what a
//! grace-window poll means, which stop failures propagate — are made
//! here, while the caller performs the OS work (bind, spawn, poll,
//! kill) between the calls and reports each outcome back.

use vstd::prelude::*;
use crate::logbuf::{LogBuffer, log_push_spec, MAX_LOG_LINES};
use crate::text::{dec_seq, trimmed, trim, contains_at, contains_seq, render_u64};

verus! {

/// Why a start attempt failed.
pub enum StartError {
    /// The local port is bound or claimed by a foreign client; nothing
    /// was spawned.
    PortUnavailable(String),
    /// The OS refused to spawn the external client; nothing is retained.
    SpawnFailed(String),
    /// The client exited within the grace window; the message carries
    /// its stderr text, or its exit status when stderr was empty.
    EarlyExit(String),
    /// The client survived the grace window but the running check still
    /// reported the tunnel down.
    SilentExit(String),
}

impl StartError {
    pub open spec fn spec_message(&self) -> Seq<char> {
        match self {
            StartError::PortUnavailable(m) => m@,
            StartError::SpawnFailed(m) => m@,
            StartError::EarlyExit(m) => m@,
            StartError::SilentExit(m) => m@,
        }
    }

    /// The human-readable cause carried by the error.
    pub fn message(&self) -> (r: &String)
        ensures
            r@ == self.spec_message(),
    {
        match self {
            StartError::PortUnavailable(m) => m,
            StartError::SpawnFailed(m) => m,
            StartError::EarlyExit(m) => m,
            StartError::SilentExit(m) => m,
        }
    }
}

/// A stop attempt failed to kill the supervisor's own child process.
/// Foreign-process cleanup failures are never reported.
pub struct StopError {
    pub message: String,
}

/// What the admission check before a spawn decided.
pub enum StartGate {
    /// The tunnel already runs; the start succeeds without a spawn.
    AlreadyRunning,
    /// The port is unavailable; the start fails without a spawn.
    Refused(StartError),
    /// The port is free; the caller may spawn the external client.
    Proceed,
}

/// Message of the configuration error raised when the port is taken.
pub open spec fn port_unavailable_msg(alias: Seq<char>, port: nat) -> Seq<char> {
    "tunnel "@ + alias + ": port "@ + dec_seq(port) + " is already in use"@
}

/// Message of the error raised when the external client cannot be spawned.
pub open spec fn spawn_failure_msg(alias: Seq<char>, detail: Seq<char>) -> Seq<char> {
    "tunnel "@ + alias + ": failed to launch cloudflared: "@ + detail
}

/// Diagnostic for a client that exited within the grace window: its
/// stderr text when there was any, its exit status otherwise.
pub open spec fn early_exit_msg(stderr_trim: Seq<char>, status: Seq<char>) -> Seq<char> {
    if stderr_trim.len() == 0 {
        "cloudflared start failed, exit status: "@ + status
    } else {
        "cloudflared start failed: "@ + stderr_trim
    }
}

/// Diagnostic for a client alive after the grace window while the
/// running check still reports the tunnel down.
pub open spec fn silent_exit_msg(alias: Seq<char>) -> Seq<char> {
    "tunnel "@ + alias + ": cloudflared went down right after startup"@
}

/// Message of the error raised when the owned child cannot be killed.
pub open spec fn stop_failure_msg(alias: Seq<char>, detail: Seq<char>) -> Seq<char> {
    "tunnel "@ + alias + ": failed to stop cloudflared: "@ + detail
}

/// The log line recording a grace-window failure diagnostic.
pub open spec fn stderr_log_line(alias: Seq<char>, msg: Seq<char>) -> Seq<char> {
    "["@ + alias + "][stderr] "@ + msg
}

/// The log line recording a silent-exit diagnostic.
pub open spec fn error_log_line(alias: Seq<char>, msg: Seq<char>) -> Seq<char> {
    "["@ + alias + "][error] "@ + msg
}

/// The prefix put before each line the client writes on its stdout.
pub open spec fn drain_log_line(alias: Seq<char>, line: Seq<char>) -> Seq<char> {
    "["@ + alias + "] "@ + line
}

/// The tunnel counts as running when the supervisor's own handle is
/// confirmed alive, or when the port scan found a foreign client —
/// two independently failable sources of truth, combined by or.
pub open spec fn is_running_spec(
    handle: Option<u32>,
    handle_alive: bool,
    port_claimed: bool,
) -> bool {
    (handle is Some && handle_alive) || port_claimed
}

/// One named tunnel: its persisted attributes (alias, source, port)
/// and its runtime state (owned process handle, log buffer).
pub struct Tunnel {
    pub alias: String,
    pub source: String,
    pub port: u16,
    handle: Option<u32>,
    log_buffer: LogBuffer,
}

impl Tunnel {
    /// The alias, as seen by contracts.
    pub closed spec fn spec_alias(&self) -> Seq<char> {
        self.alias@
    }

    /// The source hostname, as seen by contracts.
    pub closed spec fn spec_source(&self) -> Seq<char> {
        self.source@
    }

    /// The local port, as seen by contracts.
    pub closed spec fn spec_port(&self) -> u16 {
        self.port
    }

    /// The process id of the owned child, while one is retained.
    pub closed spec fn spec_handle(&self) -> Option<u32> {
        self.handle
    }

    /// The lines currently held by the tunnel's log buffer.
    pub closed spec fn spec_logs(&self) -> Seq<Seq<char>> {
        self.log_buffer@
    }

    /// The port is positive and the log buffer within its bound.
    pub open spec fn wf(&self) -> bool {
        1 <= self.spec_port() && self.spec_logs().len() <= MAX_LOG_LINES
    }

    /// The persisted attributes of the two states agree.
    pub open spec fn same_config(&self, other: &Tunnel) -> bool {
        self.spec_alias() == other.spec_alias() && self.spec_source() == other.spec_source()
            && self.spec_port() == other.spec_port()
    }

    /// A tunnel that was never started: no handle, empty log buffer.
    pub fn new(alias: &str, source: &str, port: u16) -> (r: Self)
        requires
            1 <= port,
        ensures
            r.spec_alias() == alias@,
            r.spec_source() == source@,
            r.spec_port() == port,
            r.spec_handle() is None,
            r.spec_logs() == Seq::<Seq<char>>::empty(),
            r.wf(),
    {
        Tunnel {
            alias: alias.to_owned(),
            source: source.to_owned(),
            port,
            handle: None,
            log_buffer: LogBuffer::new(),
        }
    }

    /// The alias, for callers that key on it.
    pub fn alias_str(&self) -> (r: &str)
        ensures
            r@ == self.spec_alias(),
    {
        self.alias.as_str()
    }

    /// Replace the persisted source; everything else is kept.
    pub fn set_source(&mut self, source: &str)
        ensures
            final(self).spec_alias() == old(self).spec_alias(),
            final(self).spec_source() == source@,
            final(self).spec_port() == old(self).spec_port(),
            final(self).spec_handle() == old(self).spec_handle(),
            final(self).spec_logs() == old(self).spec_logs(),
            old(self).wf() ==> final(self).wf(),
    {
        self.source = source.to_owned();
    }

    /// Replace the persisted port; everything else is kept.
    pub fn set_port(&mut self, port: u16)
        requires
            1 <= port,
        ensures
            final(self).spec_alias() == old(self).spec_alias(),
            final(self).spec_source() == old(self).spec_source(),
            final(self).spec_port() == port,
            final(self).spec_handle() == old(self).spec_handle(),
            final(self).spec_logs() == old(self).spec_logs(),
            old(self).wf() ==> final(self).wf(),
    {
        self.port = port;
    }

    /// The two-source running check, given what the OS reported: the
    /// owned handle confirmed alive, or the port claimed by a client.
    pub fn is_running(&self, handle_alive: bool, port_claimed: bool) -> (r: bool)
        ensures
            r == is_running_spec(self.spec_handle(), handle_alive, port_claimed),
    {
        (self.handle.is_some() && handle_alive) || port_claimed
    }

    /// Status label for a listing view.
    pub fn status(&self, running: bool) -> (r: &'static str)
        ensures
            running ==> r@ == "running"@,
            !running ==> r@ == "stopped"@,
    {
        if running {
            "running"
        } else {
            "stopped"
        }
    }

    /// The local address the tunnel exposes, for a listing view.
    pub fn target_url(&self) -> (r: String)
        ensures
            r@ == "tcp://localhost:"@ + dec_seq(self.spec_port() as nat),
    {
        let mut r = String::from_str("tcp://localhost:");
        let digits = render_u64(self.port as u64);
        r.append(digits.as_str());
        r
    }

    /// An independent copy of the log buffer, oldest line first;
    /// available whatever the running state.
    pub fn get_logs(&self) -> (r: Vec<String>)
        ensures
            r@.map_values(|l: String| l@) == self.spec_logs(),
    {
        self.log_buffer.get_lines()
    }

    /// Record one line of client output, prefixed with the alias, in
    /// the log buffer. The drain task calls this for each stdout line.
    pub fn append_output(&mut self, line: &str)
        requires
            old(self).wf(),
        ensures
            final(self).wf(),
            final(self).same_config(old(self)),
            final(self).spec_handle() == old(self).spec_handle(),
            final(self).spec_logs() == log_push_spec(
                old(self).spec_logs(),
                drain_log_line(old(self).spec_alias(), line@),
            ),
    {
        let mut entry = String::from_str("[");
        entry.append(self.alias.as_str());
        entry.append("] ");
        entry.append(line);
        proof {
            assert(entry@ =~= drain_log_line(self.alias@, line@));
        }
        self.log_buffer.add_line(entry);
    }

    /// The admission check before any spawn. A tunnel already running
    /// is answered with success and no spawn; a port that could not be
    /// bound, or one claimed by a foreign client, refuses the start
    /// with a configuration error naming the port; otherwise the
    /// caller may spawn.
    pub fn start_gate(&self, running: bool, bind_ok: bool, foreign_claimed: bool) -> (g:
        StartGate)
        ensures
            running ==> g is AlreadyRunning,
            !running && (!bind_ok || foreign_claimed) ==> (g matches StartGate::Refused(e)
                && e matches StartError::PortUnavailable(m)
                && m@ == port_unavailable_msg(self.spec_alias(), self.spec_port() as nat)),
            !running && bind_ok && !foreign_claimed ==> g is Proceed,
    {
        if running {
            StartGate::AlreadyRunning
        } else if !bind_ok || foreign_claimed {
            let mut m = String::from_str("tunnel ");
            m.append(self.alias.as_str());
            m.append(": port ");
            let digits = render_u64(self.port as u64);
            m.append(digits.as_str());
            m.append(" is already in use");
            proof {
                assert(m@ =~= port_unavailable_msg(self.alias@, self.port as nat));
            }
            StartGate::Refused(StartError::PortUnavailable(m))
        } else {
            StartGate::Proceed
        }
    }

    /// The error surfaced when the OS refused to spawn the external
    /// client. No state is retained: handle and log buffer are the
    /// caller's unchanged.
    pub fn spawn_failure(&self, detail: &str) -> (e: StartError)
        ensures
            e matches StartError::SpawnFailed(m) && m@ == spawn_failure_msg(
                self.spec_alias(),
                detail@,
            ),
    {
        let mut m = String::from_str("tunnel ");
        m.append(self.alias.as_str());
        m.append(": failed to launch cloudflared: ");
        m.append(detail);
        proof {
            assert(m@ =~= spawn_failure_msg(self.alias@, detail@));
        }
        StartError::SpawnFailed(m)
    }

    /// The verdict after the grace window, from the re-poll the caller
    /// made: `exit_status` is the rendered status when the child had
    /// already exited (with the stderr text drained from it), and
    /// `running_now` is the two-source running check. An early exit or
    /// a down tunnel fails the start, with the diagnostic recorded in
    /// the log buffer; otherwise the handle is retained as owned.
    pub fn grace_verdict(
        &mut self,
        pid: u32,
        exit_status: Option<&str>,
        stderr_text: &str,
        running_now: bool,
    ) -> (r: Result<(), StartError>)
        requires
            old(self).wf(),
        ensures
            final(self).wf(),
            final(self).same_config(old(self)),
            match exit_status {
                Some(st) => {
                    &&& r matches Err(StartError::EarlyExit(m)) && m@ == early_exit_msg(
                        trimmed(stderr_text@),
                        st@,
                    )
                    &&& final(self).spec_handle() == old(self).spec_handle()
                    &&& final(self).spec_logs() == log_push_spec(
                        old(self).spec_logs(),
                        stderr_log_line(
                            old(self).spec_alias(),
                            early_exit_msg(trimmed(stderr_text@), st@),
                        ),
                    )
                },
                None => {
                    if running_now {
                        &&& r is Ok
                        &&& final(self).spec_handle() == Some(pid)
                        &&& final(self).spec_logs() == old(self).spec_logs()
                    } else {
                        &&& r matches Err(StartError::SilentExit(m)) && m@ == silent_exit_msg(
                            old(self).spec_alias(),
                        )
                        &&& final(self).spec_handle() == old(self).spec_handle()
                        &&& final(self).spec_logs() == log_push_spec(
                            old(self).spec_logs(),
                            error_log_line(
                                old(self).spec_alias(),
                                silent_exit_msg(old(self).spec_alias()),
                            ),
                        )
                    }
                },
            },
    {
        match exit_status {
            Some(st) => {
                let t = trim(stderr_text);
                let mut m: String;
                if t.as_str().is_empty() {
                    m = String::from_str("cloudflared start failed, exit status: ");
                    m.append(st);
                } else {
                    m = String::from_str("cloudflared start failed: ");
                    m.append(t.as_str());
                }
                proof {
                    assert(m@ =~= early_exit_msg(trimmed(stderr_text@), st@));
                }
                let mut line = String::from_str("[");
                line.append(self.alias.as_str());
                line.append("][stderr] ");
                line.append(m.as_str());
                proof {
                    assert(line@ =~= stderr_log_line(self.alias@, m@));
                }
                self.log_buffer.add_line(line);
                Err(StartError::EarlyExit(m))
            },
            None => {
                if running_now {
                    self.handle = Some(pid);
                    Ok(())
                } else {
                    let mut m = String::from_str("tunnel ");
                    m.append(self.alias.as_str());
                    m.append(": cloudflared went down right after startup");
                    proof {
                        assert(m@ =~= silent_exit_msg(self.alias@));
                    }
                    let mut line = String::from_str("[");
                    line.append(self.alias.as_str());
                    line.append("][error] ");
                    line.append(m.as_str());
                    proof {
                        assert(line@ =~= error_log_line(self.alias@, m@));
                    }
                    self.log_buffer.add_line(line);
                    Err(StartError::SilentExit(m))
                }
            },
        }
    }

    /// Give the owned handle up, leaving none behind; the caller kills
    /// the returned process. Stopping a tunnel that was never started
    /// hands back nothing.
    pub fn take_handle(&mut self) -> (r: Option<u32>)
        requires
            old(self).wf(),
        ensures
            final(self).wf(),
            final(self).same_config(old(self)),
            r == old(self).spec_handle(),
            final(self).spec_handle() is None,
            final(self).spec_logs() == old(self).spec_logs(),
    {
        let r = self.handle;
        self.handle = None;
        r
    }

    /// The overall outcome of a stop: only a failure to kill the owned
    /// handle propagates; with no owned handle, or with the owned kill
    /// done, the stop succeeds whatever the best-effort foreign cleanup
    /// did.
    pub fn stop_outcome(&self, owned: Option<u32>, owned_kill_ok: bool, detail: &str) -> (r:
        Result<(), StopError>)
        ensures
            owned is None ==> r is Ok,
            owned is Some && owned_kill_ok ==> r is Ok,
            owned is Some && !owned_kill_ok ==> (r matches Err(e) && e.message@
                == stop_failure_msg(self.spec_alias(), detail@)),
    {
        match owned {
            None => Ok(()),
            Some(_) => {
                if owned_kill_ok {
                    Ok(())
                } else {
                    let mut m = String::from_str("tunnel ");
                    m.append(self.alias.as_str());
                    m.append(": failed to stop cloudflared: ");
                    m.append(detail);
                    proof {
                        assert(m@ =~= stop_failure_msg(self.alias@, detail@));
                    }
                    Err(StopError { message: m })
                }
            },
        }
    }
}

/// Law of the idempotent start: once a start has retained the owned
/// handle, the two-source check reports running whenever the OS still
/// confirms that child alive, so `start_gate` answers an immediate
/// second start with `AlreadyRunning` and no second spawn.
pub proof fn lemma_second_start_sees_running(
    handle: Option<u32>,
    handle_alive: bool,
    port_claimed: bool,
)
    requires
        handle is Some,
        handle_alive,
    ensures
        is_running_spec(handle, handle_alive, port_claimed),
{
}

/// Law of the grace-window diagnostic: the failure message of an early
/// exit is never empty, and the line recorded in the log buffer carries
/// that message verbatim.
pub proof fn lemma_early_exit_message_logged(
    alias: Seq<char>,
    stderr_trim: Seq<char>,
    status: Seq<char>,
)
    ensures
        early_exit_msg(stderr_trim, status).len() > 0,
        contains_seq(
            stderr_log_line(alias, early_exit_msg(stderr_trim, status)),
            early_exit_msg(stderr_trim, status),
        ),
{
    reveal_strlit("cloudflared start failed, exit status: ");
    reveal_strlit("cloudflared start failed: ");
    let m = early_exit_msg(stderr_trim, status);
    let line = stderr_log_line(alias, m);
    let pre = "["@ + alias + "][stderr] "@;
    assert(line == pre + m);
    assert(contains_at(line, m, pre.len() as int)) by {
        assert(forall|j: int| 0 <= j < m.len() ==> line[pre.len() + j] == m[j]);
    }
}

} // verus!
