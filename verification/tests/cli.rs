use canari::cli::{
    can_print, can_read_args, channel_added, channel_attached, channel_deleted, channel_detached,
    channel_tested, check_added, check_deleted, check_paused, check_resumed, default_filter,
    list_channels, list_checks, new_check, new_ntfy, new_webhook, password_updated, show_check,
    truncate, AdminCmd, Command,
};
use canari::config::Config;
use canari::model::{ChannelKind, Check, CheckKind, PingKind, Status};
use canari::notify::{ChannelConfig, SendError};
use canari::store::{Channel, Ping};

const T0: i64 = 1_700_000_000;

fn check() -> Check {
    Check {
        id: 1,
        uuid: "u-1".into(),
        name: "job".into(),
        description: String::new(),
        tags: String::new(),
        kind: CheckKind::Simple,
        period_s: 3600,
        grace_s: 600,
        cron_expr: None,
        tz: "UTC".into(),
        status: Status::Up,
        last_ping_at: Some(T0 - 60),
        last_start_at: None,
        last_duration_ms: None,
        alert_after: Some(T0 + 60),
        n_pings: 1,
        created_at: T0,
        updated_at: T0,
        badge_token: "b".into(),
    }
}

fn channel(enabled: bool) -> Channel {
    Channel {
        id: 4,
        kind: ChannelKind::Ntfy,
        name: "a very long channel name".into(),
        config: r#"{"topic":"t"}"#.into(),
        enabled,
        created_at: T0,
    }
}

#[test]
fn texts_are_truncated() {
    assert_eq!(truncate("short", 5), "short");
    assert_eq!(truncate("longer", 5), "long…");
    assert_eq!(truncate("ééé", 2), "é…");
    assert_eq!(truncate("x", 0), "…");
    assert_eq!(truncate("", 0), "");
}

#[test]
fn arguments_ask_for_checks() {
    let new = new_check("job", "5m", "1h", None, "UTC", "a b", "d").unwrap();
    assert_eq!((new.kind, new.period_s, new.grace_s), (CheckKind::Simple, 300, 3600));
    assert_eq!((new.tags.as_str(), new.description.as_str()), ("a b", "d"));
    let cron = new_check("job", "1d", "1h", Some("0 * * * *"), "UTC", "", "").unwrap();
    assert_eq!((cron.kind, cron.cron_expr.as_deref()), (CheckKind::Cron, Some("0 * * * *")));
    let err = new_check("job", "5x", "1h", None, "UTC", "", "").unwrap_err();
    assert_eq!(err.message, "invalid duration \"5x\": unexpected 'x'");
    let err = new_check("job", "1d", "", None, "UTC", "", "").unwrap_err();
    assert_eq!(err.message, "empty duration");
    assert!(can_read_args("1d", "1h"));
    assert!(!can_read_args("1d", "99999999999999999w"));
}

#[test]
fn arguments_ask_for_channels() {
    let headers = vec!["A: 1".to_string(), "B:2".to_string(), "A: 3".to_string()];
    let new = new_webhook("h", "https://h.test", "PUT", &headers, Some("$NAME")).unwrap();
    let ChannelConfig::Webhook(cfg) = new.config else { panic!("not a webhook") };
    assert_eq!(
        cfg.headers,
        vec![("A".to_string(), "3".to_string()), ("B".to_string(), "2".to_string())]
    );
    assert_eq!((cfg.method.as_deref(), cfg.body.as_deref()), (Some("PUT"), Some("$NAME")));
    let err = new_webhook("h", "u", "PUT", &vec!["bad".to_string()], None).unwrap_err();
    assert_eq!(err.message, "header \"bad\" is not \"Name: value\"");
    let ntfy = new_ntfy("p", "t", "https://n.test", Some("k"), Some(2));
    let ChannelConfig::Ntfy(cfg) = ntfy.config else { panic!("not ntfy") };
    assert_eq!((cfg.topic.as_str(), cfg.token.as_deref(), cfg.priority), ("t", Some("k"), Some(2)));
}

#[test]
fn checks_are_listed_in_columns() {
    let mut late = check();
    late.name = "late".into();
    late.status = Status::Grace;
    late.alert_after = Some(T0);
    late.last_ping_at = None;
    let mut new = check();
    new.status = Status::New;
    new.alert_after = None;
    let text = list_checks(&vec![check(), late, new], T0);
    let mut expected = String::new();
    for row in [
        ["STATUS", "NAME", "LAST PING", "LATE IN", "UUID"],
        ["up", "job", "1m ago", "1m", "u-1"],
        ["grace", "late", "never", "overdue", "u-1"],
        ["new", "job", "1m ago", "-", "u-1"],
    ] {
        expected += &format!(
            "{:<7} {:<24} {:<12} {:<12} {}\n",
            row[0], row[1], row[2], row[3], row[4]
        );
    }
    assert_eq!(text, expected);
    assert_eq!(
        list_checks(&Vec::new(), T0),
        "no checks yet — create one with `canari check add <name>`\n"
    );
}

#[test]
fn added_checks_tell_their_address() {
    assert_eq!(
        check_added(&check(), "https://x.test/"),
        "job\n  schedule  every 1h (grace 10m)\n  ping url  https://x.test/ping/u-1\n"
    );
}

#[test]
fn one_check_is_shown_in_detail() {
    let mut c = check();
    c.description = "nightly".into();
    c.tags = "prod".into();
    c.last_start_at = Some(T0);
    c.last_duration_ms = Some(90_000);
    let text = show_check(&c, &vec![channel(true)], &Vec::new(), "https://x.test", T0);
    assert_eq!(
        text,
        "job  [up]\n  nightly\n  tags      prod\n  schedule  every 1h (grace 10m)\n  ping url  https://x.test/ping/u-1\n  created   2023-11-14 22:13:20Z\n  updated   2023-11-14 22:13:20Z\n  last ping 2023-11-14 22:12:20Z (1m ago)\n  running   since 2023-11-14 22:13:20Z\n  duration  1m30s\n  late in   1m\n  channels  a very long channel name (#4, ntfy)\n\nno pings yet\n"
    );
}

#[test]
fn pings_are_shown_in_columns() {
    let mut c = check();
    c.last_ping_at = None;
    c.alert_after = Some(T0 - 1);
    let pings = vec![
        Ping {
            n: 2,
            ts: T0,
            kind: PingKind::Fail,
            exit_code: Some(1),
            duration_ms: Some(2_500),
            remote_addr: Some("10.0.0.1".into()),
            user_agent: Some("a".repeat(40)),
            method: Some("POST".into()),
            body: Some("first\nsecond".into()),
        },
        Ping {
            n: 1,
            ts: T0,
            kind: PingKind::Success,
            exit_code: None,
            duration_ms: None,
            remote_addr: None,
            user_agent: None,
            method: None,
            body: Some(String::new()),
        },
    ];
    let text = show_check(&c, &Vec::new(), &pings, "https://x.test", T0);
    let when = "2023-11-14 22:13:20Z";
    let agent = format!("{}…", "a".repeat(31));
    let mut expected = String::from(
        "job  [up]\n  schedule  every 1h (grace 10m)\n  ping url  https://x.test/ping/u-1\n  created   2023-11-14 22:13:20Z\n  updated   2023-11-14 22:13:20Z\n  last ping never\n  overdue   since 2023-11-14 22:13:19Z\n  channels  none — alerts go nowhere\n\n",
    );
    for (row, body) in [
        (["#", "WHEN", "KIND", "EXIT", "DURATION", "VIA", "FROM", "AGENT"], None),
        (["2", when, "fail", "1", "2s", "POST", "10.0.0.1", &agent], Some("first")),
        (["1", when, "success", "-", "-", "-", "-", "-"], Some("")),
    ] {
        expected += &format!(
            "{:<5} {:<21} {:<8} {:<5} {:<9} {:<6} {:<16} {}\n",
            row[0], row[1], row[2], row[3], row[4], row[5], row[6], row[7]
        );
        if let Some(body) = body {
            expected += &format!("      body: {body}\n");
        }
    }
    assert_eq!(text, expected);
}

#[test]
fn channels_are_listed_in_columns() {
    let text = list_channels(&vec![channel(true), channel(false)]);
    let mut expected = String::new();
    for row in [
        ["ID", "KIND", "NAME", "STATE", "ADDED", "TARGET"],
        ["4", "ntfy", "a very long channel…", "enabled", "2023-11-14", "https://ntfy.sh/t"],
        ["4", "ntfy", "a very long channel…", "disabled", "2023-11-14", "https://ntfy.sh/t"],
    ] {
        expected += &format!(
            "{:<5} {:<9} {:<20} {:<9} {:<12} {}\n",
            row[0], row[1], row[2], row[3], row[4], row[5]
        );
    }
    assert_eq!(text, expected);
    assert_eq!(list_channels(&Vec::new()), "no channels yet — alerts have nowhere to go\n");
}

#[test]
fn added_channels_tell_their_target() {
    assert_eq!(
        channel_added(&channel(true), Some(("https://n.test/", "t"))),
        "channel #4 a very long channel name (ntfy)\n  target  https://n.test/t\n"
    );
    assert_eq!(
        channel_added(&channel(true), None),
        "channel #4 a very long channel name (ntfy)\n"
    );
}

#[test]
fn times_too_far_apart_cannot_be_printed() {
    let mut c = check();
    assert!(can_print(&c, T0));
    c.last_ping_at = Some(i64::MIN);
    assert!(!can_print(&c, T0));
    c.last_ping_at = None;
    c.alert_after = Some(i64::MAX);
    assert!(can_print(&c, T0));
    assert!(!can_print(&c, -1));
}

#[test]
fn one_shot_commands_log_little() {
    let admin = Some(Command::Admin(AdminCmd::SetPassword { password: None }));
    assert_eq!(default_filter(&admin), "warn");
    assert_eq!(default_filter(&Some(Command::Serve)), "canari=info,tower_http=warn");
    assert_eq!(default_filter(&None), "canari=info,tower_http=warn");
}

#[test]
fn sites_hand_out_addresses() {
    let config = Config {
        db: "canari.db".into(),
        listen: "127.0.0.1:8000".into(),
        site_url: "https://x.test//".into(),
        command: None,
    };
    assert_eq!(config.ping_base(), "https://x.test/ping");
    assert_eq!(config.badge_url("tok"), "https://x.test/badge/tok.svg");
}

#[test]
fn all_readers_agree_on_durations() {
    for text in ["5m", "90", "1h30m", "2w"] {
        let typed = new_check("x", text, text, None, "UTC", "", "").unwrap();
        let mut form = Vec::new();
        for (name, value) in [("name", "x"), ("period", text), ("grace", text)] {
            canari::fields::put(&mut form, name.to_string(), value.to_string());
        }
        let submitted = canari::web::ui::new_check_from_form(&form).unwrap();
        let posted = canari::web::api::CheckPayload {
            name: "x".into(),
            description: String::new(),
            tags: String::new(),
            kind: None,
            period: Some(text.into()),
            grace: Some(text.into()),
            cron: None,
            tz: None,
            channels: None,
        }
        .to_new_check()
        .unwrap();
        assert_eq!((typed.period_s, typed.grace_s), (submitted.period_s, submitted.grace_s));
        assert_eq!((typed.period_s, typed.grace_s), (posted.period_s, posted.grace_s));
    }
}

#[test]
fn outcomes_are_told() {
    let said = |r: Result<String, canari::error::Error>| r.map_err(|e| e.message);
    let gone = Err("no check with uuid u-1".to_string());
    assert_eq!(said(check_paused("u-1", true)), Ok("paused u-1\n".into()));
    assert_eq!(said(check_paused("u-1", false)), gone);
    assert_eq!(said(check_resumed("u-1", true)), Ok("resumed u-1\n".into()));
    assert_eq!(said(check_resumed("u-1", false)), gone);
    assert_eq!(said(check_deleted("u-1", true)), Ok("deleted u-1\n".into()));
    assert_eq!(said(check_deleted("u-1", false)), gone);
    assert_eq!(channel_attached(&check(), &channel(true)), "job -> a very long channel name\n");
    assert_eq!(
        said(channel_detached(&check(), 4, true)),
        Ok("detached channel #4 from job\n".into())
    );
    assert_eq!(
        said(channel_detached(&check(), 4, false)),
        Err("channel #4 was not attached to u-1".into())
    );
    assert_eq!(said(channel_deleted(4, true)), Ok("deleted channel #4\n".into()));
    assert_eq!(said(channel_deleted(4, false)), Err("no channel with id 4".into()));
    assert_eq!(
        said(channel_tested("phone", &Ok(()))),
        Ok("sent a test alert through phone\n".into())
    );
    assert_eq!(
        said(channel_tested("phone", &Err(SendError::permanent("gone")))),
        Err("delivery failed: gone".into())
    );
    assert_eq!(password_updated(), "password updated — existing sessions were signed out\n");
}
