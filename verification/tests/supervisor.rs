use tunnelium::model::status::{LogLevel, TunnelState};
use tunnelium::model::tunnel_config::ReconnectPolicy;
use tunnelium::tunnel::supervisor::{Next, Notice, Supervisor};

fn policy(enabled: bool, max_retries: Option<u32>) -> ReconnectPolicy {
    ReconnectPolicy {
        enabled,
        initial_delay_ms: 1000,
        max_delay_ms: 60000,
        factor_milli: 2000,
        jitter: false,
        max_retries,
    }
}

fn status_of(n: &Notice) -> (TunnelState, Option<String>) {
    match n {
        Notice::Status { state, message } => (*state, message.clone()),
        other => panic!("expected a status, got {:?}", other),
    }
}

#[test]
fn first_attempt_connects_then_reconnects() {
    let mut s = Supervisor::new();
    assert_eq!(s.attempt_state(), TunnelState::Connecting);
    let d = s.retry_with(&policy(true, None), 0);
    assert_eq!(d.next, Next::Wait { delay_ms: 1000 });
    assert_eq!(
        status_of(&d.notices[0]),
        (TunnelState::Reconnecting, Some("Reconnecting in 1s (attempt 1)".to_string()))
    );
    assert_eq!(s.attempt_state(), TunnelState::Reconnecting);
    let d = s.retry_with(&policy(true, None), 0);
    assert_eq!(d.next, Next::Wait { delay_ms: 2000 });
    assert_eq!(
        status_of(&d.notices[0]).1.unwrap(),
        "Reconnecting in 2s (attempt 2)"
    );
}

#[test]
fn success_resets_the_attempt_count() {
    let mut s = Supervisor::new();
    s.retry_with(&policy(true, None), 0);
    s.retry_with(&policy(true, None), 0);
    let d = s.connected();
    assert_eq!(d.next, Next::Serve);
    assert_eq!(status_of(&d.notices[0]), (TunnelState::Connected, None));
    assert_eq!(s.attempt, 0);
    assert_eq!(s.attempt_state(), TunnelState::Connecting);
}

#[test]
fn disabled_reconnect_stops_with_disconnected() {
    let mut s = Supervisor::new();
    let d = s.retry_with(&policy(false, None), 0);
    assert_eq!(d.next, Next::Stop);
    assert_eq!(
        status_of(&d.notices[0]),
        (TunnelState::Error, Some("Disconnected".to_string()))
    );
}

#[test]
fn gives_up_after_max_retries() {
    let p = policy(true, Some(2));
    let mut s = Supervisor::new();
    assert!(matches!(s.retry_with(&p, 0).next, Next::Wait { .. }));
    assert!(matches!(s.retry_with(&p, 0).next, Next::Wait { .. }));
    let d = s.retry_with(&p, 0);
    assert_eq!(d.next, Next::Stop);
    assert_eq!(
        status_of(&d.notices[0]),
        (TunnelState::Error, Some("Gave up after reconnect attempts".to_string()))
    );
}

#[test]
fn connect_failure_is_logged_before_the_retry() {
    let mut s = Supervisor::new();
    let d = s.connect_failed(&policy(true, None), "SSH error: refused");
    match &d.notices[0] {
        Notice::Log { level, line } => {
            assert_eq!(*level, LogLevel::Error);
            assert_eq!(line, "Connection failed: SSH error: refused");
        }
        other => panic!("expected a log line, got {:?}", other),
    }
    assert_eq!(d.notices.len(), 2);
}

#[test]
fn serve_end_outcomes() {
    let p = policy(true, None);
    let mut s = Supervisor::new();
    let d = s.serve_ended(&p, true, Some("broken pipe"));
    assert_eq!(d.next, Next::Stop);
    assert_eq!(status_of(&d.notices[0]), (TunnelState::Idle, None));
    assert_eq!(s.attempt, 0);

    let d = s.serve_ended(&p, false, None);
    match &d.notices[0] {
        Notice::Log { level, line } => {
            assert_eq!(*level, LogLevel::Warn);
            assert_eq!(line, "Tunnel disconnected");
        }
        other => panic!("expected a log line, got {:?}", other),
    }
    assert!(matches!(d.next, Next::Wait { .. }));

    let d = s.serve_ended(&p, false, Some("reset"));
    match &d.notices[0] {
        Notice::Log { level, line } => {
            assert_eq!(*level, LogLevel::Error);
            assert_eq!(line, "Tunnel error: reset");
        }
        other => panic!("expected a log line, got {:?}", other),
    }
    assert_eq!(s.attempt, 2);
}

#[test]
fn wait_cancelled_goes_idle() {
    let s = Supervisor::new();
    let d = s.wait_cancelled();
    assert_eq!(d.next, Next::Stop);
    assert_eq!(status_of(&d.notices[0]), (TunnelState::Idle, None));
}

#[test]
fn seconds_are_rounded_half_to_even() {
    let mut p = policy(true, None);
    p.initial_delay_ms = 2500;
    p.jitter = false;
    let mut s = Supervisor::new();
    let d = s.retry_with(&p, 0);
    assert_eq!(status_of(&d.notices[0]).1.unwrap(), "Reconnecting in 2s (attempt 1)");
    p.initial_delay_ms = 3500;
    let mut s = Supervisor::new();
    let d = s.retry_with(&p, 0);
    assert_eq!(status_of(&d.notices[0]).1.unwrap(), "Reconnecting in 4s (attempt 1)");
    p.initial_delay_ms = 1499;
    let mut s = Supervisor::new();
    let d = s.retry_with(&p, 0);
    assert_eq!(status_of(&d.notices[0]).1.unwrap(), "Reconnecting in 1s (attempt 1)");
}

#[test]
fn jittered_waits_are_announced_with_their_delay() {
    let mut p = policy(true, None);
    p.jitter = true;
    let mut s = Supervisor::new();
    let d = s.retry_with(&p, 500);
    assert_eq!(d.next, Next::Wait { delay_ms: 750 });
    assert_eq!(status_of(&d.notices[0]).1.unwrap(), "Reconnecting in 1s (attempt 1)");
    let mut s = Supervisor::new();
    let d = s.schedule_retry(&p);
    match d.next {
        Next::Wait { delay_ms } => assert!((500..=1000).contains(&delay_ms)),
        other => panic!("expected a wait, got {:?}", other),
    }
}
