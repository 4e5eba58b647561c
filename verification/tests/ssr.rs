use inertia::ssr::{
    check_node_version, health_retry_delay, parse_node_version, restart_delay, validate_client_limits, ClientLimitError,
    NodeVersion, ProbeDecision, ProbeOutcome, SsrBackendKind, SsrHealth, StartupProbe, Supervisor, SupervisorAction,
    SupervisorEvent, SupervisorPhase,
};

#[test]
fn parses_current_node_version() {
    assert_eq!(parse_node_version("v22.11.0").unwrap(), NodeVersion { major: 22, minor: 11, patch: 0 });
}

#[test]
fn parses_prerelease_node_version() {
    assert_eq!(parse_node_version("v23.0.0-nightly").unwrap().patch, 0);
}

#[test]
fn rejects_invalid_node_version() {
    assert!(parse_node_version("nope").is_err());
}

#[test]
fn node_before_version_22_is_refused() {
    assert!(check_node_version("v20.0.0\n").is_err());
    assert_eq!(check_node_version("v22.0.0\n").unwrap(), NodeVersion { major: 22, minor: 0, patch: 0 });
}

#[test]
fn client_limits_are_validated_in_order() {
    assert_eq!(validate_client_limits(0, 1, 1, 1), Err(ClientLimitError::InvalidTimeout));
    assert_eq!(validate_client_limits(1, 0, 1, 1), Err(ClientLimitError::InvalidControlTimeout));
    assert_eq!(validate_client_limits(1, 1, 0, 1), Err(ClientLimitError::InvalidConcurrency));
    assert_eq!(validate_client_limits(1, 1, 1, 0), Err(ClientLimitError::InvalidResponseLimit));
    assert_eq!(validate_client_limits(0, 0, 0, 0), Err(ClientLimitError::InvalidTimeout));
    assert_eq!(validate_client_limits(1_000_000_000, 1_000_000_000, 1, 1), Ok(()));
}

#[test]
fn unreadable_node_versions_carry_the_text_read() {
    assert_eq!(parse_node_version("  vnext.1 \n").unwrap_err(), "next.1");
    assert!(matches!(check_node_version("v1.x"), Err(inertia::ssr::NodeCheckError::InvalidVersion(t)) if t == "1.x"));
}

#[test]
fn endpoint_and_limit_validation_is_actionable() {
    assert!(matches!(validate_client_limits(0, 1_000_000_000, 1, 1), Err(ClientLimitError::InvalidTimeout)));
    assert!(matches!(validate_client_limits(1_000_000_000, 0, 1, 1), Err(ClientLimitError::InvalidControlTimeout)));
    assert!(matches!(
        validate_client_limits(1_000_000_000, 1_000_000_000, 0, 1),
        Err(ClientLimitError::InvalidConcurrency)
    ));
    assert!(matches!(
        validate_client_limits(1_000_000_000, 1_000_000_000, 1, 0),
        Err(ClientLimitError::InvalidResponseLimit)
    ));
    assert!(validate_client_limits(1_000_000_000, 1_000_000_000, 1, 1).is_ok());
}

#[test]
fn supervisor_restarts_an_exited_child_with_growing_delays() {
    let node = SsrBackendKind::ManagedNode;
    let s = Supervisor::new();
    let exited = s.step(SupervisorEvent::ChildExited);
    assert_eq!(exited.action, SupervisorAction::Sleep(100));
    assert_eq!(exited.report, Some(SsrHealth::Unavailable { backend: node }));
    assert_eq!(exited.next, Supervisor { phase: SupervisorPhase::Waiting, restart_attempt: 1 });
    let woke = exited.next.step(SupervisorEvent::DelayElapsed);
    assert_eq!(woke.action, SupervisorAction::Relaunch);
    assert_eq!(woke.report, Some(SsrHealth::Starting { backend: node }));
    let spawn_failed = woke.next.step(SupervisorEvent::RelaunchFailed);
    assert_eq!(spawn_failed.action, SupervisorAction::Sleep(250));
    assert_eq!(spawn_failed.report, None);
    let relaunched = spawn_failed.next.step(SupervisorEvent::DelayElapsed).next.step(SupervisorEvent::Relaunched);
    assert_eq!(relaunched.action, SupervisorAction::CheckHealth);
    let unhealthy = relaunched.next.step(SupervisorEvent::HealthFailed);
    assert_eq!(unhealthy.action, SupervisorAction::KillThenSleep(500));
    assert_eq!(unhealthy.next.restart_attempt, 3);
    let ready = unhealthy
        .next
        .step(SupervisorEvent::DelayElapsed)
        .next
        .step(SupervisorEvent::Relaunched)
        .next
        .step(SupervisorEvent::HealthReady);
    assert_eq!(ready.report, Some(SsrHealth::Ready { backend: node }));
    assert_eq!(ready.next, Supervisor::new());
    assert_eq!(ready.action, SupervisorAction::Wait);
}

#[test]
fn supervisor_shutdown_stops_the_child_or_exits() {
    let running = Supervisor::new().step(SupervisorEvent::ShutdownRequested);
    assert_eq!(running.action, SupervisorAction::StopChild);
    assert_eq!(running.next.phase, SupervisorPhase::Stopped);
    let waiting = Supervisor::new().step(SupervisorEvent::ChildExited).next.step(SupervisorEvent::ShutdownRequested);
    assert_eq!(waiting.action, SupervisorAction::Exit);
    let stopped = waiting.next.step(SupervisorEvent::ChildExited);
    assert_eq!(stopped.next, waiting.next);
    assert_eq!(stopped.action, SupervisorAction::Wait);
}

#[test]
fn restart_delays_cap_at_five_seconds() {
    let delays: Vec<u64> = (0..8).map(restart_delay).collect();
    assert_eq!(delays, vec![100, 250, 500, 1000, 2000, 5000, 5000, 5000]);
    let far = Supervisor { phase: SupervisorPhase::Running, restart_attempt: usize::MAX };
    let step = far.step(SupervisorEvent::ChildExited);
    assert_eq!(step.action, SupervisorAction::Sleep(5000));
    assert_eq!(step.next.restart_attempt, usize::MAX);
}

#[test]
fn startup_probe_retries_until_healthy_or_deadline() {
    let probe: StartupProbe<&str> = StartupProbe::new();
    let probe = probe.before_probe(1_000).unwrap();
    let (probe, decision) = probe.after_probe(ProbeOutcome::Failed("refused"), 1_000);
    assert_eq!(decision, ProbeDecision::Retry(25));
    assert_eq!(probe.attempt, 1);
    let (probe, decision) = probe.after_probe(ProbeOutcome::Failed("busy"), 30);
    assert_eq!(decision, ProbeDecision::Retry(30));
    assert_eq!(probe.last_failure, Some("busy"));
    assert_eq!(probe.before_probe(0), Err(Some("busy")));
    let fresh = || -> StartupProbe<&str> { StartupProbe::new() };
    assert_eq!(fresh().before_probe(0), Err(None));
    let (_, decision) = fresh().after_probe(ProbeOutcome::Healthy, 10);
    assert_eq!(decision, ProbeDecision::Ready);
    let (_, decision) = fresh().after_probe(ProbeOutcome::TimedOut, 10);
    assert_eq!(decision, ProbeDecision::TimedOut);
    assert_eq!(health_retry_delay(7, 10_000), 500);
}

#[test]
fn restart_attempts_count_failed_relaunches() {
    let mut state = Supervisor { phase: SupervisorPhase::Waiting, restart_attempt: 1 };
    let mut pauses = Vec::new();
    for _ in 0..3 {
        let relaunching = state.step(SupervisorEvent::DelayElapsed);
        assert_eq!(relaunching.action, SupervisorAction::Relaunch);
        let failed = relaunching.next.step(SupervisorEvent::RelaunchFailed);
        if let SupervisorAction::Sleep(ms) = failed.action {
            pauses.push(ms);
        }
        state = failed.next;
    }
    assert_eq!(pauses, vec![250, 500, 1000]);
    assert_eq!(state, Supervisor { phase: SupervisorPhase::Waiting, restart_attempt: 4 });
}
