use test_utils::backoff::{Backoff, RetryStep};
use test_utils::error::{Error, ErrorKind};

fn failure(text: &str) -> Error {
    Error::new(ErrorKind::Transient, text.to_string())
}

#[test]
fn default_policy_polls_every_100ms_for_300_attempts() {
    let b = Backoff::default();
    assert_eq!(b.maximum_attempts, 300);
    assert_eq!(b.wait_ms, 100);
    assert_eq!(b.initial_wait_ms, 100);
    assert_eq!(b.maximum_wait_ms, 100);
    assert_eq!(b.attempts, 0);
}

#[test]
fn constant_policy_divides_total_by_interval() {
    let b = Backoff::constant(5000);
    assert_eq!(b.maximum_attempts, 50);
    assert_eq!(b.wait_ms, 100);
    assert_eq!(b.maximum_wait_ms, 100);
    assert_eq!(Backoff::constant(99).maximum_attempts, 0);
}

#[test]
fn wait_doubles_up_to_cap() {
    let mut b = Backoff::new(10, 100, 350);
    let mut sleeps = Vec::new();
    for _ in 0..4 {
        match b.record_failure(failure("x")) {
            RetryStep::Retry { sleep_ms } => sleeps.push(sleep_ms),
            RetryStep::GiveUp { .. } => panic!("gave up too early"),
        }
    }
    assert_eq!(sleeps, vec![100, 200, 350, 350]);
    assert_eq!(b.attempts, 4);
}

#[test]
fn reset_restores_initial_state() {
    let mut b = Backoff::new(5, 10, 1000);
    let _ = b.record_failure(failure("x"));
    let _ = b.record_failure(failure("x"));
    b.reset();
    assert_eq!(b.attempts, 0);
    assert_eq!(b.wait_ms, 10);
}

fn run<T>(b: &mut Backoff, mut op: impl FnMut() -> Result<T, Error>, sleeps: &mut Vec<u64>) -> Result<T, Error> {
    b.reset();
    loop {
        match op() {
            Ok(v) => return Ok(v),
            Err(e) => match b.record_failure(e) {
                RetryStep::Retry { sleep_ms } => sleeps.push(sleep_ms),
                RetryStep::GiveUp { sleep_ms, error } => {
                    sleeps.push(sleep_ms);
                    return Err(error);
                }
            },
        }
    }
}

#[test]
fn retry_succeeds_after_two_failures_with_two_sleeps() {
    let mut b = Backoff::new(3, 100, 100);
    let mut calls = 0;
    let mut sleeps = Vec::new();
    let r = run(&mut b, || {
        calls += 1;
        if calls <= 2 { Err(failure("not yet")) } else { Ok(42) }
    }, &mut sleeps);
    assert_eq!(r.unwrap(), 42);
    assert_eq!(sleeps.len(), 2);
    assert_eq!(calls, 3);
}

#[test]
fn retry_gives_up_after_three_attempts_with_cause() {
    let mut b = Backoff::new(3, 100, 100);
    let mut calls = 0;
    let mut sleeps = Vec::new();
    let r: Result<(), Error> = run(&mut b, || {
        calls += 1;
        Err(failure("engine unreachable"))
    }, &mut sleeps);
    let e = r.unwrap_err();
    assert_eq!(calls, 3);
    assert_eq!(e.kind, ErrorKind::Timeout);
    assert_eq!(e.to_string(), "Backoff timeout: engine unreachable");
    assert!(e.description.contains("engine unreachable"));
}

#[test]
fn zero_attempts_gives_up_after_first_failure() {
    let mut b = Backoff::new(0, 100, 100);
    match b.record_failure(failure("x")) {
        RetryStep::GiveUp { sleep_ms, .. } => assert_eq!(sleep_ms, 100),
        RetryStep::Retry { .. } => panic!("should give up"),
    }
}
