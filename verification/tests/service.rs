use radiodiodj::service::{backoff_ms, RetryGate, DEFAULT_BACKOFF_MS};

#[test]
fn backoff_walks_the_schedule() {
    let schedule = [1000, 2000, 5000];
    assert_eq!(backoff_ms(&schedule, 0), 1000);
    assert_eq!(backoff_ms(&schedule, 1), 2000);
    assert_eq!(backoff_ms(&schedule, 2), 5000);
}

#[test]
fn backoff_saturates_on_the_last_entry() {
    let schedule = [1000, 2000, 5000];
    assert_eq!(backoff_ms(&schedule, 3), 5000);
    assert_eq!(backoff_ms(&schedule, 99), 5000);
}

#[test]
fn backoff_falls_back_when_the_schedule_is_empty() {
    assert_eq!(backoff_ms(&[], 0), DEFAULT_BACKOFF_MS);
    assert_eq!(backoff_ms(&[], 7), DEFAULT_BACKOFF_MS);
}

#[test]
fn an_armed_retry_fires_until_something_supersedes_it() {
    let mut gate = RetryGate::new();
    let first = gate.arm();
    assert!(gate.fires(first));
    let second = gate.arm();
    assert!(!gate.fires(first));
    assert!(gate.fires(second));
    gate.cancel();
    assert!(!gate.fires(second));
}

#[test]
fn the_retry_generation_wraps() {
    let mut gate = RetryGate { generation: u64::MAX };
    let ticket = gate.arm();
    assert_eq!(ticket, 0);
    assert!(gate.fires(0));
}
