use test_utils::backoff::{Backoff, RetryStep};
use test_utils::engine::{
    build_event_outcome, cleanup_plan, cleanup_step, decimal, exec_outcome, health_outcome, image_reference,
    process_table, trim, CleanupStep, HealthStatus, HealthWait, Inspection, WaitStep,
};
use test_utils::error::{Error, ErrorKind};

fn wait_healthy(id: &str, polls: &[Result<Option<HealthStatus>, Error>], backoff: &mut Backoff) -> (Result<(), Error>, usize) {
    backoff.reset();
    let mut n = 0;
    loop {
        let reply = polls[n.min(polls.len() - 1)].clone();
        n += 1;
        match health_outcome(id, reply) {
            Ok(()) => return (Ok(()), n),
            Err(e) => match backoff.record_failure(e) {
                RetryStep::Retry { .. } => {}
                RetryStep::GiveUp { error, .. } => return (Err(error), n),
            },
        }
    }
}

#[test]
fn healthy_after_two_starting_polls() {
    let polls = vec![Ok(Some(HealthStatus::Starting)), Ok(Some(HealthStatus::Starting)), Ok(Some(HealthStatus::Healthy))];
    let (r, n) = wait_healthy("c0ffee", &polls, &mut Backoff::default());
    assert!(r.is_ok());
    assert_eq!(n, 3);
}

#[test]
fn never_healthy_times_out_naming_container() {
    let polls = vec![Ok(Some(HealthStatus::Unhealthy))];
    let (r, n) = wait_healthy("c0ffee", &polls, &mut Backoff::new(4, 1, 1));
    let e = r.unwrap_err();
    assert_eq!(n, 4);
    assert_eq!(e.kind, ErrorKind::Timeout);
    assert!(e.description.contains("c0ffee"));
    assert_eq!(e.description, "Backoff timeout: Container c0ffee not yet healthy");
}

#[test]
fn health_wait_succeeds_on_third_poll() {
    let mut wait = HealthWait::new("c0ffee");
    assert!(matches!(wait.on_poll(Ok(Some(HealthStatus::Starting))), WaitStep::Sleep { sleep_ms: 100 }));
    assert!(matches!(wait.on_poll(Ok(Some(HealthStatus::Starting))), WaitStep::Sleep { sleep_ms: 100 }));
    assert!(matches!(wait.on_poll(Ok(Some(HealthStatus::Healthy))), WaitStep::Healthy));
}

#[test]
fn health_wait_times_out_after_300_polls_naming_container() {
    let mut wait = HealthWait::new("c0ffee");
    for _ in 0..299 {
        assert!(matches!(wait.on_poll(Ok(Some(HealthStatus::Unhealthy))), WaitStep::Sleep { .. }));
    }
    let cause = Error::new(ErrorKind::Engine, "gone".to_string());
    match wait.on_poll(Err(cause)) {
        WaitStep::TimedOut { error, .. } => {
            assert_eq!(error.kind, ErrorKind::Timeout);
            assert_eq!(error.description, "Backoff timeout: Container c0ffee not ready: gone");
        }
        _ => panic!("expected a timeout"),
    }
}

#[test]
fn health_outcome_cases() {
    assert!(health_outcome("a", Ok(Some(HealthStatus::Healthy))).is_ok());
    let e = health_outcome("a", Ok(None)).unwrap_err();
    assert_eq!(e.kind, ErrorKind::Transient);
    assert_eq!(e.description, "Container a not yet healthy");
    let cause = Error::new(ErrorKind::Engine, "no such container".to_string());
    let e = health_outcome("a", Err(cause)).unwrap_err();
    assert_eq!(e.description, "Container a not ready: no such container");
}

#[test]
fn exec_with_wrong_exit_code_fails() {
    let out = vec!["ok\n".to_string()];
    let e = exec_outcome(&out, 1, 0).unwrap_err();
    assert_eq!(e.kind, ErrorKind::ExitCode);
    assert_eq!(e.description, "Unexpected exit code: 1");
    let e = exec_outcome(&out, -2, 0).unwrap_err();
    assert_eq!(e.description, "Unexpected exit code: -2");
}

#[test]
fn exec_with_expected_exit_code_returns_trimmed_lines() {
    let out = vec!["  first \r\nsecond\n".to_string(), "\tthird".to_string()];
    let lines = exec_outcome(&out, 1, 1).unwrap();
    assert_eq!(lines, vec!["first", "second", "", "third"]);
}

#[test]
fn decimal_formats_like_to_string() {
    assert_eq!(decimal(0), "0");
    assert_eq!(decimal(127), "127");
    assert_eq!(decimal(-45), "-45");
    assert_eq!(decimal(i64::MIN), i64::MIN.to_string());
    assert_eq!(decimal(i64::MAX), i64::MAX.to_string());
}

#[test]
fn trim_strips_unicode_white_space() {
    assert_eq!(trim("  a b \t\n"), "a b");
    assert_eq!(trim("\u{3000}x\u{a0}"), "x");
    assert_eq!(trim("   "), "");
    assert_eq!(trim(""), "");
}

fn strings(v: &[&str]) -> Vec<String> {
    v.iter().map(|s| s.to_string()).collect()
}

#[test]
fn process_table_maps_command_to_pid_by_title() {
    let titles = strings(&["UID", "CMD", "PID"]);
    let rows = vec![strings(&["root", "pipewire", "12"]), strings(&["root", "wireplumber", "13"])];
    let m = process_table(&titles, &rows).unwrap();
    assert_eq!(m.entries, vec![("pipewire".to_string(), "12".to_string()), ("wireplumber".to_string(), "13".to_string())]);
}

#[test]
fn process_table_without_pid_column_fails() {
    let e = process_table(&strings(&["UID", "CMD"]), &vec![]).unwrap_err();
    assert_eq!(e.kind, ErrorKind::Engine);
    let e = process_table(&strings(&["PID", "CMD"]), &vec![strings(&["1"])]).unwrap_err();
    assert_eq!(e.kind, ErrorKind::Engine);
}

#[test]
fn sweep_skips_vanished_and_cleans_the_rest() {
    let cs = vec![
        ("a".to_string(), Inspection::State { running: true }),
        ("gone".to_string(), Inspection::Gone),
        ("b".to_string(), Inspection::State { running: false }),
        ("c".to_string(), Inspection::NoState),
    ];
    let plan = cleanup_plan(&cs);
    assert_eq!(plan.len(), 2);
    assert!(matches!(&plan[0], CleanupStep::StopAndRemove { id } if id == "a"));
    assert!(matches!(&plan[1], CleanupStep::Remove { id } if id == "b"));
    assert!(cleanup_step("x", Inspection::Gone).is_none());
}

#[test]
fn image_reference_joins_name_and_tag() {
    assert_eq!(image_reference("pipewire", "latest"), "pipewire:latest");
}

#[test]
fn build_event_with_error_is_fatal() {
    assert!(build_event_outcome(&None).is_ok());
    let e = build_event_outcome(&Some("COPY failed".to_string())).unwrap_err();
    assert_eq!(e.kind, ErrorKind::Build);
    assert_eq!(e.description, "COPY failed");
}
