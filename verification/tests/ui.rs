use canari::auth::set_password;
use canari::error::Error;
use canari::fields;
use canari::model::{ChannelKind, Check, CheckKind, PingKind, Status};
use canari::notify::{ChannelConfig, SendError};
use canari::store::{Channel, Ping};
use canari::web::ui::{
    can_read_form, can_show, channel_added, channel_choices, channel_deleted, channel_row,
    channel_tested, check_created, check_deleted, check_detail, check_paused, check_resumed,
    check_saved, create_channel, describe_target, edit_check_form, field, form_with_error,
    format_ago, format_late_in, format_millis, index, login, logout, new_check_form,
    new_check_from_form, non_empty, password_is_right, redirect_err, redirect_ok,
    selected_channels, tag_list,
};

const T0: i64 = 1_700_000_000;

fn form(pairs: &[(&str, &str)]) -> Vec<(String, String)> {
    let mut form = Vec::new();
    for (name, value) in pairs {
        fields::put(&mut form, name.to_string(), value.to_string());
    }
    form
}

fn check(name: &str, status: Status) -> Check {
    Check {
        id: 1,
        uuid: "u-1".into(),
        name: name.into(),
        description: "d".into(),
        tags: "a b".into(),
        kind: CheckKind::Simple,
        period_s: 5400,
        grace_s: 60,
        cron_expr: None,
        tz: "UTC".into(),
        status,
        last_ping_at: Some(T0 - 90),
        last_start_at: None,
        last_duration_ms: Some(61_500),
        alert_after: Some(T0 + 60),
        n_pings: 7,
        created_at: 0,
        updated_at: 0,
        badge_token: "b".into(),
    }
}

fn channel(id: i64, kind: ChannelKind, config: &str) -> Channel {
    Channel {
        id,
        kind,
        name: format!("c{id}"),
        config: config.into(),
        enabled: true,
        created_at: T0,
    }
}

#[test]
fn redirects_carry_a_message() {
    let ok = redirect_ok("/checks/u-1", "Check créé");
    assert_eq!(ok.status, 303);
    assert_eq!(ok.location.as_deref(), Some("/checks/u-1?ok=Check%20cr%C3%A9%C3%A9"));
    let err = redirect_err("/login", "Wrong password");
    assert_eq!(err.location.as_deref(), Some("/login?err=Wrong%20password"));
    let kept = redirect_ok("/", "a-b.c_d~e/f");
    assert_eq!(kept.location.as_deref(), Some("/?ok=a-b.c_d~e%2Ff"));
}

#[test]
fn fields_are_trimmed() {
    let form = form(&[("name", "  backup ")]);
    assert_eq!(field(&form, "name"), "backup");
    assert_eq!(field(&form, "missing"), "");
    assert_eq!(non_empty("x".into()).as_deref(), Some("x"));
    assert_eq!(non_empty(String::new()), None);
    assert_eq!(tag_list(" a\tb  c "), vec!["a", "b", "c"]);
    assert!(tag_list("  ").is_empty());
}

#[test]
fn later_values_replace_earlier_ones() {
    let form = form(&[("a", "1"), ("b", "2"), ("a", "3")]);
    assert_eq!(form.len(), 2);
    assert_eq!(fields::get(&form, "a"), Some("3"));
    assert_eq!(fields::get(&form, "b"), Some("2"));
    assert_eq!(fields::get(&form, "c"), None);
    assert_eq!(fields::find(&form, "c"), 2);
}

#[test]
fn times_are_told_from_now() {
    assert_eq!(format_ago(Some(T0 - 90), T0), "1m30s ago");
    assert_eq!(format_ago(Some(T0), T0), "0s ago");
    assert_eq!(format_ago(Some(T0 + 1), T0), "2023-11-14 22:13:21Z");
    assert_eq!(format_ago(None, T0), "never");
    let mut c = check("job", Status::Up);
    assert_eq!(format_late_in(&c, T0), "1m");
    c.alert_after = Some(T0);
    assert_eq!(format_late_in(&c, T0), "overdue by 0s");
    c.alert_after = None;
    assert_eq!(format_late_in(&c, T0), "—");
    assert_eq!(format_millis(61_999), "1m1s");
    assert_eq!(format_millis(-1), "0s");
}

#[test]
fn times_too_far_apart_cannot_be_shown() {
    let mut c = check("job", Status::Up);
    assert!(can_show(&c, T0));
    c.last_ping_at = Some(i64::MIN);
    assert!(!can_show(&c, T0));
    c.last_ping_at = Some(i64::MAX);
    assert!(can_show(&c, T0));
    assert!(can_show(&c, -1_000));
    assert_eq!(format_ago(Some(86_400), i64::MIN), "1970-01-02 00:00:00Z");
    c.alert_after = Some(i64::MAX);
    assert!(can_show(&c, T0));
    assert!(!can_show(&c, -1_000));
}

#[test]
fn the_index_lists_checks() {
    let page = index(&vec![check("a", Status::Down), check("b", Status::Up)], T0);
    assert_eq!(page.summary, "2 checks, 1 down");
    assert_eq!((page.down_count, page.rows.len()), (1, 2));
    let row = &page.rows[0];
    assert_eq!((row.name.as_str(), row.status.as_str()), ("a", "down"));
    assert_eq!(row.tags, vec!["a", "b"]);
    assert_eq!(row.schedule, "every 1h30m (grace 1m)");
    assert_eq!((row.last_ping.as_str(), row.late_in.as_str()), ("1m30s ago", "1m"));
    assert_eq!((row.uuid.as_str(), row.n_pings), ("u-1", 7));
    assert_eq!(index(&vec![check("a", Status::Up)], T0).summary, "1 check, 0 down");
    assert_eq!(index(&Vec::new(), T0).summary, "0 checks, 0 down");
}

#[test]
fn the_detail_page_tells_all() {
    let channels = vec![
        channel(1, ChannelKind::Ntfy, "{}"),
        channel(2, ChannelKind::Webhook, "{}"),
    ];
    let pings = vec![Ping {
        n: 3,
        ts: T0,
        kind: PingKind::Fail,
        exit_code: Some(2),
        duration_ms: Some(1_500),
        remote_addr: None,
        user_agent: Some("curl".into()),
        method: Some("GET".into()),
        body: None,
    }];
    let c = check("job", Status::Up);
    let page = check_detail(&c, &channels, &pings, "https://x.test", T0);
    assert_eq!(page.channels, "c1, c2");
    assert_eq!(page.last_duration.as_deref(), Some("1m1s"));
    assert_eq!(page.ping_url, "https://x.test/ping/u-1");
    let row = &page.pings[0];
    assert_eq!((row.n, row.when.as_str()), (3, "2023-11-14 22:13:20Z"));
    assert_eq!((row.kind.as_str(), row.exit_code.as_str()), ("fail", "2"));
    assert_eq!((row.duration.as_str(), row.method.as_str()), ("1s", "GET"));
    assert_eq!((row.remote_addr.as_str(), row.user_agent.as_str()), ("", "curl"));
    assert_eq!(row.body, "");
    let lonely = check_detail(&c, &Vec::new(), &Vec::new(), "https://x.test", T0);
    assert_eq!(lonely.channels, "none — alerts go nowhere");
}

#[test]
fn targets_are_described() {
    let hook = channel(1, ChannelKind::Webhook, r#"{"url":"https://h.test"}"#);
    assert_eq!(describe_target(&hook), "https://h.test");
    let ntfy = channel(2, ChannelKind::Ntfy, r#"{"server":"https://n.test//","topic":"t"}"#);
    assert_eq!(describe_target(&ntfy), "https://n.test/t");
    let bare = channel(3, ChannelKind::Ntfy, r#"{"server":5}"#);
    assert_eq!(describe_target(&bare), "https://ntfy.sh/?");
    assert_eq!(describe_target(&channel(4, ChannelKind::Webhook, "nonsense")), "?");
    let row = channel_row(&ntfy, 3);
    assert_eq!((row.id, row.kind.as_str(), row.name.as_str()), (2, "ntfy", "c2"));
    assert_eq!((row.target.as_str(), row.check_count), ("https://n.test/t", 3));
}

#[test]
fn ticked_boxes_select_channels() {
    let form = form(&[
        ("channel_10", "on"),
        ("name", "x"),
        ("channel_2", "on"),
        ("channel_x", "on"),
        ("channel_-3", ""),
        ("channel_+2", "on"),
    ]);
    assert_eq!(selected_channels(&form), vec![-3, 2, 2, 10]);
    assert!(selected_channels(&Vec::new()).is_empty());
}

#[test]
fn choices_tick_what_is_selected() {
    let channels = vec![
        channel(1, ChannelKind::Ntfy, "{}"),
        channel(2, ChannelKind::Ntfy, "{}"),
    ];
    let choices = channel_choices(&channels, &vec![2, 5]);
    assert_eq!(choices.len(), 2);
    assert_eq!((choices[0].selected, choices[1].selected), (false, true));
    assert_eq!((choices[1].id, choices[1].kind.as_str()), (2, "ntfy"));
}

#[test]
fn forms_start_blank() {
    let page = new_check_form(&vec![channel(1, ChannelKind::Ntfy, "{}")]);
    assert_eq!((page.heading.as_str(), page.action.as_str()), ("New check", "/checks"));
    assert_eq!((page.kind.as_str(), page.period.as_str(), page.grace.as_str()), ("simple", "1d", "1h"));
    assert_eq!((page.cancel_url.as_str(), page.tz.as_str()), ("/", "UTC"));
    assert!(!page.channels[0].selected);
    assert!(page.error.is_none());
}

#[test]
fn forms_edit_a_check() {
    let c = check("job", Status::Up);
    let page = edit_check_form(&c, &vec![channel(4, ChannelKind::Ntfy, "{}")], &vec![4]);
    assert_eq!((page.heading.as_str(), page.action.as_str()), ("Edit job", "/checks/u-1"));
    assert_eq!((page.period.as_str(), page.grace.as_str()), ("1h30m", "1m"));
    assert_eq!((page.kind.as_str(), page.cron.as_str()), ("simple", ""));
    assert!(page.channels[0].selected);
    let saved = new_check_from_form(&form(&[
        ("name", &page.name),
        ("kind", &page.kind),
        ("period", &page.period),
        ("grace", &page.grace),
    ]))
    .unwrap();
    assert_eq!((saved.period_s, saved.grace_s), (c.period_s, c.grace_s));
}

#[test]
fn refused_forms_keep_their_input() {
    let typed = form(&[("name", "x"), ("kind", "cron"), ("cron", "bad"), ("channel_1", "on")]);
    let channels = vec![channel(1, ChannelKind::Ntfy, "{}")];
    let page = form_with_error(&typed, None, "nope", &channels);
    assert_eq!(page.error.as_deref(), Some("nope"));
    assert_eq!((page.name.as_str(), page.kind.as_str(), page.cron.as_str()), ("x", "cron", "bad"));
    assert_eq!((page.period.as_str(), page.heading.as_str()), ("", "New check"));
    assert!(page.channels[0].selected);
    let c = check("job", Status::Up);
    let page = form_with_error(&typed, Some(&c), "nope", &channels);
    assert_eq!((page.heading.as_str(), page.cancel_url.as_str()), ("Edit job", "/checks/u-1"));
}

#[test]
fn forms_ask_for_checks() {
    let new = new_check_from_form(&form(&[("name", " x ")])).unwrap();
    assert_eq!((new.name.as_str(), new.kind), ("x", CheckKind::Simple));
    assert_eq!((new.period_s, new.grace_s, new.tz.as_str()), (86_400, 3_600, "UTC"));
    assert_eq!(new.cron_expr, None);
    let new = new_check_from_form(&form(&[
        ("name", "x"),
        ("kind", "cron"),
        ("cron", " 0 * * * * "),
        ("tz", "Europe/Paris"),
        ("tags", "a b"),
        ("description", "d"),
    ]))
    .unwrap();
    assert_eq!((new.kind, new.cron_expr.as_deref()), (CheckKind::Cron, Some("0 * * * *")));
    assert_eq!((new.tz.as_str(), new.tags.as_str()), ("Europe/Paris", "a b"));
}

#[test]
fn forms_are_refused_with_a_reason() {
    let said = |pairs: &[(&str, &str)]| new_check_from_form(&form(pairs)).unwrap_err().message;
    assert_eq!(said(&[("name", "  ")]), "name is required");
    assert_eq!(
        said(&[("name", "x"), ("period", "5x")]),
        "invalid duration \"5x\": unexpected 'x'"
    );
    assert_eq!(said(&[("name", "x"), ("grace", "0")]), "duration must be positive");
    assert!(!can_read_form(&form(&[("name", "x"), ("grace", "99999999999999999w")])));
    assert!(can_read_form(&form(&[("grace", "99999999999999999w")])));
}

#[test]
fn forms_ask_for_webhooks() {
    let new = create_channel(&form(&[
        ("name", "hook"),
        ("kind", "webhook"),
        ("url", "https://h.test"),
        ("headers", "A: 1\r\n\n B :2\nA:3"),
    ]))
    .unwrap();
    assert_eq!(new.name, "hook");
    let ChannelConfig::Webhook(cfg) = new.config else { panic!("not a webhook") };
    assert_eq!((cfg.url.as_str(), cfg.method.as_deref()), ("https://h.test", Some("POST")));
    assert_eq!(
        cfg.headers,
        vec![("A".to_string(), "3".to_string()), ("B".to_string(), "2".to_string())]
    );
    assert_eq!(cfg.body, None);
}

#[test]
fn forms_ask_for_ntfy() {
    let new = create_channel(&form(&[
        ("name", "phone"),
        ("kind", "ntfy"),
        ("topic", "t"),
        ("priority", "5"),
    ]))
    .unwrap();
    let ChannelConfig::Ntfy(cfg) = new.config else { panic!("not ntfy") };
    assert_eq!((cfg.server.as_str(), cfg.topic.as_str()), ("https://ntfy.sh", "t"));
    assert_eq!((cfg.token, cfg.priority), (None, Some(5)));
    let odd = create_channel(&form(&[("name", "p"), ("kind", "ntfy"), ("priority", "256")]));
    let ChannelConfig::Ntfy(cfg) = odd.unwrap().config else { panic!("not ntfy") };
    assert_eq!(cfg.priority, None);
}

#[test]
fn channel_forms_are_refused_with_a_reason() {
    let said = |pairs: &[(&str, &str)]| create_channel(&form(pairs)).unwrap_err().message;
    assert_eq!(said(&[]), "Channel name is required");
    assert_eq!(
        said(&[("name", "h"), ("headers", "A: 1\nnonsense\nworse")]),
        "Header \"nonsense\" is not \"Name: value\""
    );
}

#[test]
fn channel_outcomes_are_answered() {
    let to = |reply: canari::web::Reply| reply.location.unwrap();
    assert_eq!(to(channel_added(&Ok(()))), "/channels?ok=Channel%20added");
    assert_eq!(to(channel_added(&Err(Error::new("no")))), "/channels?err=no");
    assert_eq!(
        to(channel_tested("phone", &Ok(()))),
        "/channels?ok=Test%20alert%20sent%20through%20phone"
    );
    assert_eq!(
        to(channel_tested("phone", &Err(SendError::permanent("gone")))),
        "/channels?err=Delivery%20failed%3A%20gone"
    );
}

#[test]
fn changes_are_confirmed_where_they_show() {
    let to = |reply: canari::web::Reply| (reply.status, reply.location.unwrap());
    assert_eq!(to(check_created("u-1")), (303, "/checks/u-1?ok=Check%20created".into()));
    assert_eq!(to(check_saved("u-1")), (303, "/checks/u-1?ok=Check%20saved".into()));
    assert_eq!(to(check_paused("u-1")), (303, "/checks/u-1?ok=Check%20paused".into()));
    assert_eq!(to(check_resumed("u-1")), (303, "/checks/u-1?ok=Check%20resumed".into()));
    assert_eq!(to(check_deleted()), (303, "/?ok=Check%20deleted".into()));
    assert_eq!(to(channel_deleted()), (303, "/channels?ok=Channel%20deleted".into()));
}

#[test]
fn signing_in_and_out() {
    let hash = set_password("correct horse").unwrap();
    let typed = form(&[("password", " correct horse ")]);
    assert!(password_is_right(Some(&hash), &typed));
    assert!(!password_is_right(Some(&hash), &form(&[("password", "wrong")])));
    assert!(!password_is_right(None, &typed));
    let reply = login(Some("t"), "https://x.test");
    assert_eq!((reply.status, reply.location.as_deref()), (303, Some("/")));
    assert!(reply.cookie.unwrap().starts_with("canari_session=t; "));
    let wrong = login(None, "https://x.test");
    assert_eq!(wrong.location.as_deref(), Some("/login?err=Wrong%20password"));
    assert!(wrong.cookie.is_none());
    let out = logout();
    assert_eq!(out.location.as_deref(), Some("/login"));
    assert!(out.cookie.unwrap().contains("Max-Age=0"));
}
