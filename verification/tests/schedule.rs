use canari::model::{Check, CheckKind, Status};
use canari::schedule::{
    checked_next_deadline, is_clear_of_ends, next_cron_occurrence, next_deadline, validate,
    validate_at,
};
use chrono::DateTime;

fn check(kind: CheckKind, cron: Option<&str>, tz: &str) -> Check {
    Check {
        id: 1,
        uuid: "u".into(),
        name: "t".into(),
        description: String::new(),
        tags: String::new(),
        kind,
        period_s: 3600,
        grace_s: 600,
        cron_expr: cron.map(Into::into),
        tz: tz.into(),
        status: Status::New,
        last_ping_at: None,
        last_start_at: None,
        last_duration_ms: None,
        alert_after: None,
        n_pings: 0,
        created_at: 0,
        updated_at: 0,
        badge_token: "b".into(),
    }
}

fn at(text: &str) -> i64 {
    DateTime::parse_from_rfc3339(text).unwrap().timestamp()
}

#[test]
fn simple_deadline_is_period_plus_grace() {
    let c = check(CheckKind::Simple, None, "UTC");
    assert_eq!(next_deadline(&c, 1_000).unwrap(), 1_000 + 3600 + 600);
}

#[test]
fn cron_deadline_uses_next_occurrence() {
    // 2026-08-24T09:00:00Z, hourly schedule: next occurrence is 10:00Z.
    let c = check(CheckKind::Cron, Some("0 * * * *"), "UTC");
    let from = DateTime::parse_from_rfc3339("2026-08-24T09:00:00Z")
        .unwrap()
        .timestamp();
    let expected = DateTime::parse_from_rfc3339("2026-08-24T10:00:00Z")
        .unwrap()
        .timestamp();
    assert_eq!(next_deadline(&c, from).unwrap(), expected + 600);
}

#[test]
fn cron_deadline_honours_timezone() {
    // Daily at 02:00 Europe/Paris = 00:00Z in August (UTC+2).
    let c = check(CheckKind::Cron, Some("0 2 * * *"), "Europe/Paris");
    let from = DateTime::parse_from_rfc3339("2026-08-24T09:00:00Z")
        .unwrap()
        .timestamp();
    let expected = DateTime::parse_from_rfc3339("2026-08-25T00:00:00Z")
        .unwrap()
        .timestamp();
    assert_eq!(next_deadline(&c, from).unwrap(), expected + 600);
}

#[test]
fn rejects_bad_schedules() {
    assert!(validate(CheckKind::Cron, Some("not a cron"), "UTC", 0).is_err());
    assert!(validate(CheckKind::Cron, Some("* * * * *"), "Mars/Olympus", 0).is_err());
    assert!(validate(CheckKind::Cron, None, "UTC", 0).is_err());
    assert!(validate(CheckKind::Simple, None, "UTC", 0).is_err());
    assert!(validate(CheckKind::Simple, None, "UTC", 60).is_ok());
    assert!(validate(CheckKind::Cron, Some("*/5 * * * *"), "UTC", 0).is_ok());
}

#[test]
fn refusals_say_what_is_wrong() {
    let said = |kind, cron, tz, period| validate(kind, cron, tz, period).unwrap_err().message;
    assert_eq!(said(CheckKind::Simple, None, "UTC", -1), "period must be positive");
    assert_eq!(said(CheckKind::Cron, None, "UTC", 0), "cron check requires a cron expression");
    assert_eq!(
        said(CheckKind::Cron, Some("* * * * *"), "Mars/Olympus", 0),
        "unknown timezone \"Mars/Olympus\""
    );
    assert!(said(CheckKind::Cron, Some("not a cron"), "UTC", 0)
        .starts_with("invalid cron expression \"not a cron\": "));
}

#[test]
fn a_pattern_that_never_matches_is_refused() {
    let err = validate_at(CheckKind::Cron, Some("0 0 30 2 *"), "UTC", 0, 1_700_000_000)
        .unwrap_err();
    assert!(err.message.starts_with("no next occurrence for \"0 0 30 2 *\": "), "{}", err.message);
}

#[test]
fn instants_without_a_date_have_no_occurrence() {
    let err = next_cron_occurrence("* * * * *", "UTC", i64::MAX).unwrap_err();
    assert_eq!(err.message, "timestamp out of range");
}

#[test]
fn occurrences_in_utc_are_strictly_after() {
    let from = at("2026-08-24T09:00:00Z");
    assert_eq!(next_cron_occurrence("0 9 * * *", "UTC", from).unwrap(), from + 86_400);
    assert_eq!(next_cron_occurrence("* * * * *", "UTC", from).unwrap(), from + 60);
}

#[test]
fn occurrences_are_strictly_after_while_clocks_are_set_back() {
    // 02:30 in Paris for the second time that night.
    let from = at("2026-10-25T01:30:00Z");
    assert_eq!(
        next_cron_occurrence("45 2 * * *", "Europe/Paris", from).unwrap(),
        at("2026-10-26T01:45:00Z")
    );
    assert_eq!(
        next_cron_occurrence("*/15 * * * *", "Europe/Paris", from).unwrap(),
        at("2026-10-25T01:45:00Z")
    );
    // And for the first time.
    let from = at("2026-10-25T00:30:00Z");
    assert_eq!(
        next_cron_occurrence("45 2 * * *", "Europe/Paris", from).unwrap(),
        at("2026-10-25T00:45:00Z")
    );
}

#[test]
fn hours_that_repeat_have_their_occurrences_twice() {
    let mut seen = Vec::new();
    let mut from = at("2026-10-24T23:50:00Z");
    while from < at("2026-10-25T02:15:00Z") {
        from = next_cron_occurrence("*/30 * * * *", "Europe/Paris", from).unwrap();
        seen.push(from);
    }
    let first = at("2026-10-25T00:00:00Z");
    let expected: Vec<i64> = (0..=5).map(|n| first + 1800 * n).collect();
    assert_eq!(seen, expected);
}

#[test]
fn the_answer_stays_the_same_until_it_has_come() {
    for (zone, from, next) in [
        ("UTC", "2026-08-24T09:00:00Z", "2026-08-24T10:30:00Z"),
        ("Europe/Paris", "2026-10-25T00:30:00Z", "2026-10-25T08:30:00Z"),
    ] {
        let expr = if zone == "UTC" { "30 10 * * *" } else { "30 9,21 * * *" };
        let (from, next) = (at(from), at(next));
        for t in [from, from + 1, from + 1800, next - 1] {
            assert_eq!(next_cron_occurrence(expr, zone, t).unwrap(), next);
        }
        assert!(next_cron_occurrence(expr, zone, next).unwrap() > next);
    }
}

#[test]
fn a_day_without_a_match_is_searched_past() {
    // Clocks are set back on the 25th; the next match is on the 28th.
    let from = at("2026-10-25T00:10:00Z");
    assert_eq!(
        next_cron_occurrence("0,30 12 28 10 *", "Europe/Paris", from).unwrap(),
        at("2026-10-28T11:00:00Z")
    );
}

#[test]
fn skipped_hours_are_made_up_for() {
    // 02:30 does not exist in Paris that night.
    let from = at("2026-03-28T12:00:00Z");
    assert_eq!(
        next_cron_occurrence("30 2 * * *", "Europe/Paris", from).unwrap(),
        at("2026-03-29T01:00:00Z")
    );
}

#[test]
fn a_cron_check_without_expression_has_no_deadline() {
    let c = check(CheckKind::Cron, None, "UTC");
    assert_eq!(next_deadline(&c, 0).unwrap_err().message, "cron check has no cron expression");
}

#[test]
fn deadlines_past_64_bits_are_none() {
    let c = check(CheckKind::Simple, None, "UTC");
    assert!(checked_next_deadline(&c, i64::MAX).is_none());
    assert_eq!(checked_next_deadline(&c, 1_000).unwrap().unwrap(), 5_200);
    let mut cron = check(CheckKind::Cron, Some("0 * * * *"), "UTC");
    cron.grace_s = i64::MAX;
    assert!(checked_next_deadline(&cron, 1_700_000_000).is_none());
}

#[test]
fn the_ends_of_the_calendar_are_told_apart() {
    let (first, last) = (-8_334_601_228_800, 8_210_266_876_799);
    for clear in [0, i64::MAX, first - 1, first + 86_400, last - 86_400, last + 1] {
        assert!(is_clear_of_ends("Europe/Paris", clear));
        assert!(is_clear_of_ends("UTC", clear));
    }
    for end in [first, first + 86_399, last - 86_399, last] {
        assert!(!is_clear_of_ends("Europe/Paris", end));
        assert!(is_clear_of_ends("UTC", end));
    }
}

#[test]
fn the_last_months_of_the_calendar_have_no_occurrence() {
    let last = 8_210_266_876_799;
    for expr in ["* * L * *", "*/5 * * * 5#1", "* * * * 5L", "* * 1W * *", "0 12 * * *"] {
        for days in [0, 1, 2, 7, 16, 31, 32, 33, 40] {
            let from = last - days * 86_400;
            let err = next_cron_occurrence(expr, "UTC", from).unwrap_err();
            assert!(err.message.starts_with("no next occurrence for "));
            if days > 0 {
                assert!(next_cron_occurrence(expr, "Europe/Paris", from).is_err());
            }
        }
    }
}

#[test]
fn the_first_months_of_the_calendar_look_ahead() {
    let first = -8_334_601_228_800;
    // The first minute of the year 1.
    let year_one = -62_135_596_800;
    for days in [0, 1, 16, 40] {
        let from = first + days * 86_400;
        assert_eq!(next_cron_occurrence("* * * * *", "UTC", from).unwrap(), year_one);
    }
}

#[test]
fn clocks_that_are_set_on_the_way_do_not_matter() {
    for (from, next) in [
        ("2026-03-15T08:00:00Z", "2026-04-01T10:00:00Z"),
        ("2026-10-15T08:00:00Z", "2026-11-01T11:00:00Z"),
        // 02:30 in Paris for the first time that night.
        ("2026-10-25T00:30:00Z", "2026-11-01T11:00:00Z"),
    ] {
        let (from, next) = (at(from), at(next));
        for t in [from, from + 3600, from + 86_400, next - 1] {
            assert_eq!(next_cron_occurrence("0 12 1 * *", "Europe/Paris", t).unwrap(), next);
            assert_eq!(next_cron_occurrence("0,30 12 1 * *", "Europe/Paris", t).unwrap(), next);
        }
    }
}

#[test]
fn schedules_are_told_in_one_line() {
    let simple = check(CheckKind::Simple, None, "UTC");
    assert_eq!(simple.schedule_summary(), "every 1h (grace 10m)");
    let cron = check(CheckKind::Cron, Some("0 2 * * *"), "Europe/Paris");
    assert_eq!(cron.schedule_summary(), "0 2 * * * [Europe/Paris] (grace 10m)");
    let none = check(CheckKind::Cron, None, "UTC");
    assert_eq!(none.schedule_summary(), "? [UTC] (grace 10m)");
}
