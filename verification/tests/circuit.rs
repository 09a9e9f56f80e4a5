use reliable_provider::circuit::{Admission, CircuitBreakers, CircuitState};

#[test]
fn healthy_state_is_closed_without_failures() {
    let s = CircuitState::healthy();
    assert_eq!(s.consecutive_failures, 0);
    assert_eq!(s.open_until, None);
}

#[test]
fn closed_breaker_admits_and_stays_as_it_is() {
    let mut s = CircuitState { consecutive_failures: 2, open_until: None };
    assert_eq!(s.request_admission(0), Admission::Admitted);
    assert_eq!(s, CircuitState { consecutive_failures: 2, open_until: None });
}

#[test]
fn open_breaker_refuses_until_its_deadline() {
    let mut s = CircuitState { consecutive_failures: 3, open_until: Some(1000) };
    assert_eq!(s.request_admission(0), Admission::Refused);
    assert_eq!(s.request_admission(999), Admission::Refused);
    assert_eq!(s, CircuitState { consecutive_failures: 3, open_until: Some(1000) });
    assert_eq!(s.request_admission(1000), Admission::HalfOpened);
    assert_eq!(s, CircuitState::healthy());
    assert_eq!(s.request_admission(1000), Admission::Admitted);
}

#[test]
fn failures_open_the_breaker_at_the_threshold() {
    let mut s = CircuitState::healthy();
    assert!(!s.fail(3, 30_000, 100));
    assert_eq!(s, CircuitState { consecutive_failures: 1, open_until: None });
    assert!(!s.fail(3, 30_000, 200));
    assert_eq!(s, CircuitState { consecutive_failures: 2, open_until: None });
    assert!(s.fail(3, 30_000, 300));
    assert_eq!(s, CircuitState { consecutive_failures: 3, open_until: Some(30_300) });
}

#[test]
fn failure_on_an_open_breaker_extends_it_without_counting_an_opening() {
    let mut s = CircuitState { consecutive_failures: 3, open_until: Some(30_300) };
    assert!(!s.fail(3, 30_000, 400));
    assert_eq!(s, CircuitState { consecutive_failures: 4, open_until: Some(30_400) });
    // At the deadline the breaker is no longer open: a failure opens it anew.
    assert!(s.fail(3, 30_000, 30_400));
    assert_eq!(s, CircuitState { consecutive_failures: 5, open_until: Some(60_400) });
}

#[test]
fn failure_count_saturates() {
    let mut s = CircuitState { consecutive_failures: u32::MAX, open_until: None };
    assert!(s.fail(u32::MAX, 250, 10));
    assert_eq!(s.consecutive_failures, u32::MAX);
    assert_eq!(s.open_until, Some(260));
}

#[test]
fn deadline_never_overflows() {
    let mut s = CircuitState::healthy();
    assert!(s.fail(1, u64::MAX, u64::MAX));
    assert_eq!(s.open_until, Some(2 * (u64::MAX as u128)));
    assert_eq!(s.request_admission(u64::MAX), Admission::Refused);
}

#[test]
fn success_closes_and_reports_whether_there_was_anything_to_close() {
    let mut s = CircuitState::healthy();
    assert!(!s.succeed());
    let mut s = CircuitState { consecutive_failures: 1, open_until: None };
    assert!(s.succeed());
    assert_eq!(s, CircuitState::healthy());
    let mut s = CircuitState { consecutive_failures: 0, open_until: Some(5) };
    assert!(s.succeed());
    assert_eq!(s, CircuitState::healthy());
}

#[test]
fn breakers_open_at_threshold_and_skip_until_cooldown() {
    let mut b = CircuitBreakers::new(3, 30_000);
    assert!(b.allows_call("p", 0));
    b.record_failure("p", 10);
    b.record_failure("p", 20);
    assert!(b.allows_call("p", 25));
    assert_eq!(b.metrics_snapshot(), (0, 0, 0));
    b.record_failure("p", 30);
    assert_eq!(b.metrics_snapshot(), (1, 0, 0));
    assert!(!b.allows_call("p", 30));
    assert!(!b.allows_call("p", 30_029));
    // Another provider is not affected.
    assert!(b.allows_call("q", 30));
    assert_eq!(b.metrics_snapshot(), (1, 0, 0));
}

#[test]
fn breakers_half_open_after_cooldown() {
    let mut b = CircuitBreakers::new(1, 250);
    b.record_failure("p", 1000);
    assert_eq!(b.metrics_snapshot(), (1, 0, 0));
    assert!(!b.allows_call("p", 1249));
    assert!(b.allows_call("p", 1250));
    assert_eq!(b.metrics_snapshot(), (1, 1, 0));
    // The breaker is closed again: further calls are admitted, uncounted.
    assert!(b.allows_call("p", 1250));
    assert_eq!(b.metrics_snapshot(), (1, 1, 0));
    // With a threshold of one, the first failure reopens it.
    b.record_failure("p", 1300);
    assert_eq!(b.metrics_snapshot(), (2, 1, 0));
    assert!(!b.allows_call("p", 1549));
    assert!(b.allows_call("p", 1550));
    assert_eq!(b.metrics_snapshot(), (2, 2, 0));
}

#[test]
fn half_open_then_success_leaves_closed_without_counting_a_close() {
    let mut b = CircuitBreakers::new(2, 250);
    b.record_failure("p", 0);
    b.record_failure("p", 1);
    assert!(b.allows_call("p", 251));
    b.record_success("p");
    assert_eq!(b.metrics_snapshot(), (1, 1, 0));
    assert!(b.allows_call("p", 252));
}

#[test]
fn half_open_then_failure_counts_from_one() {
    let mut b = CircuitBreakers::new(2, 250);
    b.record_failure("p", 0);
    b.record_failure("p", 1);
    assert!(b.allows_call("p", 251));
    b.record_failure("p", 260);
    assert!(b.allows_call("p", 261));
    b.record_failure("p", 270);
    assert!(!b.allows_call("p", 271));
    assert_eq!(b.metrics_snapshot(), (2, 1, 0));
}

#[test]
fn success_on_open_or_failing_breaker_counts_a_close() {
    let mut b = CircuitBreakers::new(3, 1000);
    b.record_success("p");
    assert_eq!(b.metrics_snapshot(), (0, 0, 0));
    b.record_failure("p", 0);
    b.record_success("p");
    assert_eq!(b.metrics_snapshot(), (0, 0, 1));
    b.record_failure("p", 1);
    b.record_failure("p", 2);
    b.record_failure("p", 3);
    assert!(!b.allows_call("p", 4));
    b.record_success("p");
    assert_eq!(b.metrics_snapshot(), (1, 0, 2));
    assert!(b.allows_call("p", 4));
}
