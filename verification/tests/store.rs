use canari::model::{Check, CheckKind, PingKind, Status};
use canari::store::{
    checked_record_ping, create_check, draft_check, expired_pings, keep_body, pause_check,
    record_ping, resume_check, vet_check_at, NewCheck, PingInput, MAX_BODY_BYTES,
    MAX_PINGS_PER_CHECK,
};

const T0: i64 = 1_700_000_000;

fn new_check() -> NewCheck {
    NewCheck {
        name: "job".into(),
        description: "d".into(),
        tags: "t".into(),
        kind: CheckKind::Simple,
        period_s: 3600,
        grace_s: 600,
        cron_expr: None,
        tz: "UTC".into(),
    }
}

fn check() -> Check {
    draft_check(new_check(), "uuid".into(), T0)
}

fn ping(kind: PingKind) -> PingInput {
    PingInput { kind: Some(kind), ..PingInput::default() }
}

#[test]
fn new_checks_expect_nothing_yet() {
    let check = create_check(new_check()).unwrap();
    assert_eq!(check.status, Status::New);
    assert_eq!((check.last_ping_at, check.alert_after, check.n_pings), (None, None, 0));
    assert_eq!(check.uuid.len(), 36);
    assert!(uuid::Uuid::parse_str(&check.uuid).is_ok());
    assert_eq!(check.created_at, check.updated_at);
    let other = create_check(new_check()).unwrap();
    assert_ne!(check.uuid, other.uuid);
}

#[test]
fn unusable_checks_are_refused() {
    let mut bad = new_check();
    bad.grace_s = 0;
    assert_eq!(create_check(bad).unwrap_err().message, "grace must be positive");
    let mut bad = new_check();
    bad.period_s = 0;
    bad.grace_s = 0;
    assert_eq!(create_check(bad).unwrap_err().message, "period must be positive");
    let mut cron = new_check();
    cron.kind = CheckKind::Cron;
    assert_eq!(
        vet_check_at(&cron, T0).unwrap_err().message,
        "cron check requires a cron expression"
    );
    cron.cron_expr = Some("*/5 * * * *".into());
    cron.period_s = 0;
    assert!(vet_check_at(&cron, T0).is_ok());
}

#[test]
fn a_success_takes_the_check_up() {
    let done = record_ping(&check(), PingInput::default(), T0 + 10).unwrap();
    assert_eq!(done.check.status, Status::Up);
    assert_eq!(done.check.alert_after, Some(T0 + 10 + 3600 + 600));
    assert_eq!(done.check.last_ping_at, Some(T0 + 10));
    assert_eq!((done.check.n_pings, done.ping.n, done.outcome.n), (1, 1, 1));
    assert_eq!((done.outcome.previous, done.outcome.status), (Status::New, Status::Up));
    assert_eq!(done.ping.kind, PingKind::Success);
    assert_eq!(done.check.updated_at, T0 + 10);
}

#[test]
fn a_failure_takes_the_check_down() {
    let up = record_ping(&check(), PingInput::default(), T0).unwrap().check;
    let mut input = ping(PingKind::Fail);
    input.exit_code = Some(2);
    input.remote_addr = Some("10.0.0.1".into());
    input.user_agent = Some("curl".into());
    input.method = Some("GET".into());
    input.body = Some("oops".into());
    let done = record_ping(&up, input, T0 + 5).unwrap();
    assert_eq!((done.check.status, done.check.alert_after), (Status::Down, None));
    assert_eq!(done.check.last_ping_at, Some(T0 + 5));
    assert_eq!((done.ping.exit_code, done.ping.n), (Some(2), 2));
    assert_eq!(done.ping.remote_addr.as_deref(), Some("10.0.0.1"));
    assert_eq!(done.ping.user_agent.as_deref(), Some("curl"));
    assert_eq!(done.ping.method.as_deref(), Some("GET"));
    assert_eq!(done.ping.body.as_deref(), Some("oops"));
}

#[test]
fn start_and_finish_measure_a_duration() {
    let started = record_ping(&check(), ping(PingKind::Start), T0).unwrap().check;
    assert_eq!(started.last_start_at, Some(T0));
    assert_eq!((started.status, started.alert_after), (Status::New, None));
    let done = record_ping(&started, ping(PingKind::Success), T0 + 90).unwrap();
    assert_eq!(done.ping.duration_ms, Some(90_000));
    assert_eq!(done.check.last_duration_ms, Some(90_000));
    assert_eq!(done.check.last_start_at, None);
    let again = record_ping(&done.check, ping(PingKind::Success), T0 + 200).unwrap();
    assert_eq!((again.ping.duration_ms, again.check.last_duration_ms), (None, Some(90_000)));
}

#[test]
fn a_clock_set_back_counts_as_no_time() {
    let started = record_ping(&check(), ping(PingKind::Start), T0).unwrap().check;
    let done = record_ping(&started, ping(PingKind::Fail), T0 - 50).unwrap();
    assert_eq!(done.ping.duration_ms, Some(0));
}

#[test]
fn log_pings_only_count() {
    let up = record_ping(&check(), PingInput::default(), T0).unwrap().check;
    let logged = record_ping(&up, ping(PingKind::Log), T0 + 7).unwrap().check;
    assert_eq!((logged.status, logged.alert_after), (up.status, up.alert_after));
    assert_eq!((logged.last_ping_at, logged.n_pings), (Some(T0), 2));
    assert_eq!(logged.updated_at, T0 + 7);
}

#[test]
fn log_pings_keep_a_start_open() {
    let started = record_ping(&check(), ping(PingKind::Start), T0).unwrap().check;
    let logged = record_ping(&started, ping(PingKind::Log), T0 + 7).unwrap().check;
    let again = record_ping(&logged, ping(PingKind::Log), T0 + 8).unwrap().check;
    assert_eq!(again.last_start_at, Some(T0));
    let done = record_ping(&again, ping(PingKind::Fail), T0 + 30).unwrap();
    assert_eq!((done.ping.duration_ms, done.check.last_start_at), (Some(30_000), None));
}

#[test]
fn pausing_and_resuming() {
    let up = record_ping(&check(), PingInput::default(), T0).unwrap().check;
    let paused = pause_check(&up, T0 + 1);
    assert_eq!((paused.status, paused.alert_after), (Status::Paused, None));
    let resumed = resume_check(&paused, T0 + 2).unwrap().unwrap();
    assert_eq!((resumed.status, resumed.alert_after), (Status::Up, Some(T0 + 2 + 4200)));
    let pinged = record_ping(&paused, PingInput::default(), T0 + 3).unwrap().check;
    assert_eq!(pinged.status, Status::Up);
    assert!(resume_check(&paused, i64::MAX).is_none());
}

#[test]
fn a_success_without_a_next_deadline_is_refused() {
    let mut broken = check();
    broken.kind = CheckKind::Cron;
    broken.cron_expr = Some("not a cron".into());
    let err = record_ping(&broken, PingInput::default(), T0).unwrap_err();
    assert!(err.message.starts_with("invalid cron expression"));
    assert!(record_ping(&broken, ping(PingKind::Fail), T0).is_ok());
    assert!(resume_check(&broken, T0).unwrap().is_err());
}

#[test]
fn pings_past_64_bits_are_not_recorded() {
    let check = check();
    assert!(checked_record_ping(&check, PingInput::default(), i64::MAX).is_none());
    assert!(checked_record_ping(&check, PingInput::default(), T0).unwrap().is_ok());
    let mut worn = check.clone();
    worn.n_pings = i64::MAX;
    assert!(checked_record_ping(&worn, ping(PingKind::Log), T0).is_none());
    let mut odd = check;
    odd.last_start_at = Some(i64::MIN);
    assert!(checked_record_ping(&odd, ping(PingKind::Fail), T0).is_none());
    assert!(checked_record_ping(&odd, ping(PingKind::Log), T0).is_some());
}

#[test]
fn old_pings_expire() {
    let ids: Vec<i64> = (1..=103).rev().collect();
    assert_eq!(expired_pings(&ids), vec![3, 2, 1]);
    let ids: Vec<i64> = (1..=100).rev().collect();
    assert!(expired_pings(&ids).is_empty());
    assert_eq!(MAX_PINGS_PER_CHECK, 100);
}

#[test]
fn long_bodies_are_cut_on_a_character() {
    assert_eq!(keep_body("short".into()), "short");
    let exact = "a".repeat(MAX_BODY_BYTES);
    assert_eq!(keep_body(exact.clone()), exact);
    let long = "a".repeat(MAX_BODY_BYTES + 1);
    assert_eq!(keep_body(long).len(), MAX_BODY_BYTES);
    // 102399 ones and then three-byte characters: the cut falls inside one.
    let mixed = format!("{}{}", "a".repeat(MAX_BODY_BYTES - 1), "€€");
    assert_eq!(keep_body(mixed), "a".repeat(MAX_BODY_BYTES - 1));
}

#[test]
fn a_cut_body_loses_three_bytes_at_most() {
    let canary = "\u{1f424}";
    for lead in 0..4 {
        let body = "a".repeat(lead) + &canary.repeat(MAX_BODY_BYTES);
        let kept = keep_body(body.clone());
        assert!(body.starts_with(&kept));
        assert_eq!(kept.len(), MAX_BODY_BYTES - (MAX_BODY_BYTES - lead) % 4);
    }
}
