use tunnelium::model::tunnel_config::ReconnectPolicy;
use tunnelium::tunnel::reconnect::{backoff_delay, backoff_delay_with, should_retry};

fn policy(enabled: bool, max_retries: Option<u32>) -> ReconnectPolicy {
    ReconnectPolicy {
        enabled,
        initial_delay_ms: 1000,
        max_delay_ms: 60000,
        factor_milli: 2000,
        jitter: false,
        max_retries,
    }
}

#[test]
fn retries_forever_when_unlimited() {
    let p = policy(true, None);
    assert!(should_retry(&p, 1));
    assert!(should_retry(&p, 1000));
}

#[test]
fn stops_after_max_retries() {
    let p = policy(true, Some(3));
    assert!(should_retry(&p, 3));
    assert!(!should_retry(&p, 4));
}

#[test]
fn never_retries_when_disabled() {
    let p = policy(false, None);
    assert!(!should_retry(&p, 1));
}

#[test]
fn backoff_grows_exponentially_then_caps() {
    let p = policy(true, None);
    assert_eq!(backoff_delay(&p, 1), 1000);
    assert_eq!(backoff_delay(&p, 2), 2000);
    assert_eq!(backoff_delay(&p, 3), 4000);
    // Eventually hits the 60s cap and stays there.
    assert_eq!(backoff_delay(&p, 20), 60000);
}

#[test]
fn attempt_zero_waits_the_initial_delay() {
    let p = policy(true, None);
    assert_eq!(backoff_delay(&p, 0), 1000);
    assert_eq!(backoff_delay(&p, 7), 60000);
    assert_eq!(backoff_delay(&p, u32::MAX), 60000);
}

#[test]
fn fractional_factor_rounds_once() {
    let mut p = policy(true, None);
    p.factor_milli = 1500;
    assert_eq!(backoff_delay(&p, 2), 1500);
    assert_eq!(backoff_delay(&p, 3), 2250);
    assert_eq!(backoff_delay(&p, 4), 3375);
    p.initial_delay_ms = 3;
    // 3 · 1.5^3 = 10.125
    assert_eq!(backoff_delay(&p, 4), 10);
    p.initial_delay_ms = 1001;
    // 1001 · 2.25 = 2252.25
    assert_eq!(backoff_delay(&p, 3), 2252);
}

#[test]
fn slow_growth_reaches_the_cap_exactly() {
    let mut p = policy(true, None);
    p.factor_milli = 1001;
    p.initial_delay_ms = 1;
    p.max_delay_ms = 2;
    // 1.001^k first reaches 2 at k = 694.
    assert_eq!(backoff_delay(&p, 694), 1);
    assert_eq!(backoff_delay(&p, 695), 2);
    assert_eq!(backoff_delay(&p, u32::MAX), 2);
    p.factor_milli = 999;
    p.initial_delay_ms = 1000;
    p.max_delay_ms = 60000;
    // 1000 · 0.999^2 = 998.001
    assert_eq!(backoff_delay(&p, 3), 998);
    assert_eq!(backoff_delay(&p, u32::MAX), 0);
}

#[test]
fn factor_below_one_shrinks_the_delay() {
    let mut p = policy(true, None);
    p.factor_milli = 500;
    assert_eq!(backoff_delay(&p, 2), 500);
    assert_eq!(backoff_delay(&p, 3), 250);
}

#[test]
fn initial_above_cap_is_capped() {
    let mut p = policy(true, None);
    p.initial_delay_ms = 90_000;
    assert_eq!(backoff_delay(&p, 1), 60000);
}

#[test]
fn jitter_stays_in_the_upper_half() {
    let mut p = policy(true, None);
    p.jitter = true;
    assert_eq!(backoff_delay_with(&p, 1, 0), 500);
    assert_eq!(backoff_delay_with(&p, 1, 999), 999);
    assert_eq!(backoff_delay_with(&p, 3, 500), 3000);
    for attempt in 1..30 {
        let d = backoff_delay(&p, attempt);
        let full = backoff_delay_with(&policy(true, None), attempt, 0);
        assert!(d >= full / 2 && d <= full);
    }
}

#[test]
fn jitter_applies_before_rounding() {
    let p = ReconnectPolicy {
        enabled: true,
        initial_delay_ms: 1,
        max_delay_ms: 60000,
        factor_milli: 1500,
        jitter: true,
        max_retries: None,
    };
    // 1 ms · 1.5 = 1.5 ms; jittered by 1999/2000 it is 1.49925 ms, so 1 ms.
    assert_eq!(backoff_delay_with(&p, 2, 999), 1);
    // The lowest draw halves it: 0.75 ms, so 0 ms.
    assert_eq!(backoff_delay_with(&p, 2, 0), 0);
    // 1 ms · 1.5² = 2.25 ms; jittered by 1500/2000 it is 1.6875 ms.
    assert_eq!(backoff_delay_with(&p, 3, 500), 1);
    // Capped delays are jittered from the cap.
    let mut capped = p.clone();
    capped.max_delay_ms = 2;
    assert_eq!(backoff_delay_with(&capped, 3, 999), 1);
}
