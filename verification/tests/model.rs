use canari::model::{
    fits, format_duration, format_ts, now, parse_duration, ChannelKind, CheckKind, DurationError,
    PingKind, Status,
};

#[test]
fn parses_durations() {
    assert_eq!(parse_duration("30s").unwrap(), 30);
    assert_eq!(parse_duration("5m").unwrap(), 300);
    assert_eq!(parse_duration("2h").unwrap(), 7200);
    assert_eq!(parse_duration("1d").unwrap(), 86400);
    assert_eq!(parse_duration("1h30m").unwrap(), 5400);
    assert_eq!(parse_duration("90").unwrap(), 90);
    assert!(parse_duration("").is_err());
    assert!(parse_duration("5x").is_err());
    assert!(parse_duration("0").is_err());
}

#[test]
fn formats_durations() {
    assert_eq!(format_duration(0), "0s");
    assert_eq!(format_duration(45), "45s");
    assert_eq!(format_duration(300), "5m");
    assert_eq!(format_duration(5400), "1h30m");
    assert_eq!(format_duration(90061), "1d1h");
}

#[test]
fn durations_are_refused_with_a_reason() {
    let said = |input: &str| parse_duration(input).unwrap_err().message(input);
    assert_eq!(said("  "), "empty duration");
    assert_eq!(said("5x"), "invalid duration \"5x\": unexpected 'x'");
    assert_eq!(said("h"), "invalid duration \"h\": missing number before 'h'");
    assert_eq!(said("0m"), "duration must be positive");
    assert_eq!(said("99999999999999999999"), "number too large to fit in target type");
}

#[test]
fn duration_errors_name_what_is_wrong() {
    assert_eq!(parse_duration(""), Err(DurationError::Empty));
    assert_eq!(parse_duration("5x"), Err(DurationError::Unexpected('x')));
    assert_eq!(parse_duration("5mm"), Err(DurationError::MissingNumber('m')));
    assert_eq!(parse_duration("0"), Err(DurationError::NotPositive));
    assert_eq!(parse_duration("9223372036854775808"), Err(DurationError::TooLarge));
}

#[test]
fn durations_may_mix_units_and_end_in_seconds() {
    assert_eq!(parse_duration(" 1w2d3h4m5 ").unwrap(), 604800 + 2 * 86400 + 3 * 3600 + 240 + 5);
    assert_eq!(parse_duration("90m").unwrap(), 5400);
}

#[test]
fn durations_past_64_bits_do_not_fit() {
    assert!(fits("15250284452471w"));
    assert!(!fits("15250284452472w"));
    assert!(fits("nonsense"));
}

#[test]
fn shown_durations_read_back() {
    for secs in [1, 59, 60, 61, 3600, 5400, 86400, 90000, 31_536_000] {
        assert_eq!(parse_duration(&format_duration(secs)), Ok(secs));
    }
    for secs in [86_460, 86_401, 3601, 7 * 86_400 + 59, 61 * 86_400 + 3540] {
        assert_eq!(parse_duration(&format_duration(secs)), Ok(secs));
    }
    assert_eq!(parse_duration(&format_duration(90061)), Ok(90000));
    assert_eq!(parse_duration(&format_duration(86_519)), Ok(86_460));
}

#[test]
fn negative_durations_show_as_nothing() {
    assert_eq!(format_duration(-5), "0s");
    assert_eq!(format_duration(i64::MIN), "0s");
    assert_eq!(format_duration(i64::MAX), "106751991167300d15h");
}

#[test]
fn formats_timestamps_in_utc() {
    assert_eq!(format_ts(0), "1970-01-01 00:00:00Z");
    assert_eq!(format_ts(1_700_000_000), "2023-11-14 22:13:20Z");
    assert_eq!(format_ts(i64::MAX), "9223372036854775807");
    assert_eq!(format_ts(i64::MIN), "-9223372036854775808");
}

#[test]
fn the_clock_is_past_its_first_decades() {
    assert!(now() > 1_700_000_000);
}

#[test]
fn words_for_states_and_kinds() {
    let statuses = [
        (Status::New, "new"),
        (Status::Up, "up"),
        (Status::Grace, "grace"),
        (Status::Down, "down"),
        (Status::Paused, "paused"),
    ];
    for (status, word) in statuses {
        assert_eq!(status.as_str(), word);
    }
    assert_eq!(CheckKind::Simple.as_str(), "simple");
    assert_eq!(CheckKind::Cron.as_str(), "cron");
    assert_eq!(ChannelKind::Webhook.as_str(), "webhook");
    assert_eq!(ChannelKind::Ntfy.as_str(), "ntfy");
    assert_eq!(PingKind::Success.as_str(), "success");
    assert_eq!(PingKind::Start.as_str(), "start");
    assert_eq!(PingKind::Fail.as_str(), "fail");
    assert_eq!(PingKind::Log.as_str(), "log");
}
