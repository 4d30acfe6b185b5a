use cf_manager::tunnel::{StartError, StartGate, Tunnel};

fn fresh(alias: &str, source: &str, port: u16) -> Tunnel {
    Tunnel::new(alias, source, port)
}

#[test]
fn new_tunnel_is_stopped_with_empty_logs() {
    let t = fresh("db", "db.internal.example.com", 15432);
    assert!(!t.is_running(false, false));
    assert_eq!(t.status(false), "stopped");
    assert_eq!(t.get_logs().len(), 0);
}

#[test]
fn target_url_names_the_local_port() {
    let t = fresh("db", "db.internal.example.com", 15432);
    assert_eq!(t.target_url(), "tcp://localhost:15432");
}

#[test]
fn status_labels() {
    let t = fresh("a", "s", 1);
    assert_eq!(t.status(true), "running");
    assert_eq!(t.status(false), "stopped");
}

#[test]
fn gate_refuses_port_bound_by_unrelated_process() {
    // The port could not be bound locally: a configuration error names
    // the port, and the spawn step is never reached.
    let t = fresh("web", "web.example.com", 8080);
    match t.start_gate(false, false, false) {
        StartGate::Refused(StartError::PortUnavailable(m)) => {
            assert!(m.contains("8080"));
            assert!(m.contains("web"));
        }
        _ => panic!("expected a refusal of a bound port"),
    }
}

#[test]
fn gate_refuses_port_claimed_by_foreign_client() {
    let t = fresh("web", "web.example.com", 8080);
    match t.start_gate(false, true, true) {
        StartGate::Refused(StartError::PortUnavailable(m)) => {
            assert!(m.contains("8080"));
        }
        _ => panic!("expected a refusal of a claimed port"),
    }
}

#[test]
fn gate_admits_a_free_port() {
    let t = fresh("web", "web.example.com", 8080);
    assert!(matches!(t.start_gate(false, true, false), StartGate::Proceed));
}

#[test]
fn second_start_is_idempotent() {
    // First start: the port is admitted, spawn happens outside, the grace check
    // passes and the handle is retained.
    let mut t = fresh("web", "web.example.com", 8080);
    assert!(matches!(t.start_gate(false, true, false), StartGate::Proceed));
    assert!(t.grace_verdict(4242, None, "", true).is_ok());
    // Second start: the owned handle is alive, so the running check is
    // true and the second call succeeds without a second spawn.
    let running = t.is_running(true, false);
    assert!(running);
    assert!(matches!(
        t.start_gate(running, false, true),
        StartGate::AlreadyRunning
    ));
}

#[test]
fn stop_on_never_started_tunnel_is_a_successful_noop() {
    let mut t = fresh("web", "web.example.com", 8080);
    let owned = t.take_handle();
    assert_eq!(owned, None);
    assert!(t.stop_outcome(owned, false, "").is_ok());
    assert_eq!(t.take_handle(), None);
}

#[test]
fn stop_surfaces_only_the_owned_kill_failure() {
    let mut t = fresh("web", "web.example.com", 8080);
    assert!(t.grace_verdict(77, None, "", true).is_ok());
    let owned = t.take_handle();
    assert_eq!(owned, Some(77));
    assert_eq!(t.take_handle(), None);
    assert!(t.stop_outcome(owned, true, "").is_ok());
    let err = t.stop_outcome(owned, false, "permission denied").unwrap_err();
    assert!(err.message.contains("web"));
    assert!(err.message.contains("permission denied"));
}

#[test]
fn early_exit_in_grace_window_fails_and_is_logged_verbatim() {
    let mut t = fresh("db", "db.internal.example.com", 15432);
    let verdict = t.grace_verdict(11, Some("exit status: 1"), "  bad hostname\n", false);
    let msg = match verdict {
        Err(StartError::EarlyExit(m)) => m,
        _ => panic!("expected an early-exit failure"),
    };
    assert!(!msg.is_empty());
    assert_eq!(msg, "cloudflared start failed: bad hostname");
    let logs = t.get_logs();
    assert_eq!(logs.len(), 1);
    assert!(logs[0].contains(msg.as_str()));
    assert_eq!(logs[0], "[db][stderr] cloudflared start failed: bad hostname");
    // No handle is retained.
    assert_eq!(t.take_handle(), None);
}

#[test]
fn early_exit_with_empty_stderr_reports_the_exit_status() {
    let mut t = fresh("db", "db.internal.example.com", 15432);
    let verdict = t.grace_verdict(11, Some("exit status: 3"), " \t\n", false);
    match verdict {
        Err(StartError::EarlyExit(m)) => {
            assert_eq!(m, "cloudflared start failed, exit status: exit status: 3");
        }
        _ => panic!("expected an early-exit failure"),
    }
}

#[test]
fn silent_exit_fails_and_is_logged() {
    let mut t = fresh("db", "db.internal.example.com", 15432);
    let verdict = t.grace_verdict(11, None, "", false);
    let msg = match verdict {
        Err(StartError::SilentExit(m)) => m,
        _ => panic!("expected a silent-exit failure"),
    };
    assert!(!msg.is_empty());
    let logs = t.get_logs();
    assert_eq!(logs.len(), 1);
    assert!(logs[0].contains(msg.as_str()));
    assert_eq!(t.take_handle(), None);
}

#[test]
fn absent_executable_fails_with_spawn_error_and_no_logs() {
    // Scenario: alias "db", source "db.internal.example.com", port
    // 15432, on a host without the external client: the spawn fails,
    // the error names the missing executable, and no log line exists
    // because no process ever ran.
    let t = fresh("db", "db.internal.example.com", 15432);
    match t.start_gate(false, true, false) {
        StartGate::Proceed => {}
        _ => panic!("expected a free port to be admitted"),
    }
    let e = t.spawn_failure("No such file or directory (os error 2)");
    match e {
        StartError::SpawnFailed(m) => {
            assert!(m.contains("cloudflared"));
            assert!(m.contains("db"));
            assert!(m.contains("No such file or directory"));
        }
        _ => panic!("expected a spawn failure"),
    }
    assert_eq!(t.get_logs().len(), 0);
}

#[test]
fn second_tunnel_on_same_port_is_refused_while_first_runs() {
    // Scenario: two tunnels configured on port 8080; the first runs, so
    // the second sees the port claimed and is refused with a
    // configuration error identifying 8080.
    let mut first = fresh("one", "one.example.com", 8080);
    assert!(matches!(first.start_gate(false, true, false), StartGate::Proceed));
    assert!(first.grace_verdict(31, None, "", true).is_ok());
    let second = fresh("two", "two.example.com", 8080);
    // With the first client bound, the second's bind fails and the
    // probe reports a claimant; either alone refuses the start.
    match second.start_gate(false, false, true) {
        StartGate::Refused(StartError::PortUnavailable(m)) => {
            assert!(m.contains("8080"));
            assert!(m.contains("two"));
        }
        _ => panic!("expected a configuration error on the shared port"),
    }
}

#[test]
fn drained_output_lines_carry_the_alias_prefix() {
    let mut t = fresh("db", "db.internal.example.com", 15432);
    t.append_output("connection established");
    t.append_output("ready");
    assert_eq!(
        t.get_logs(),
        vec!["[db] connection established", "[db] ready"]
    );
}

#[test]
fn error_messages_are_exposed_through_message() {
    let e = StartError::PortUnavailable("tunnel x: port 1 is already in use".to_string());
    assert_eq!(e.message(), "tunnel x: port 1 is already in use");
}
