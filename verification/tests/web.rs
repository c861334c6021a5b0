use canari::auth::hash_secret;
use canari::error::AppError;
use canari::model::{Check, CheckKind, PingKind, Status};
use canari::web::api::{
    badge, badge_token, check_json, render_badge, require_api_key, status_color, truncate_label,
    ApiKey, CheckPayload, KeyAccess,
};
use canari::web::ping::{acknowledge, client_ip, parse_suffix, read_request, Request};

#[test]
fn badge_escapes_markup_in_names() {
    let svg = render_badge("<script>alert(1)</script>", "up");
    assert!(!svg.contains("<script>"));
    assert!(svg.contains("&lt;script&gt;"));
}

#[test]
fn badge_colors_follow_status() {
    assert!(render_badge("job", "down").contains("#e03131"));
    assert!(render_badge("job", "up").contains("#2fb380"));
    assert!(render_badge("job", "paused").contains("#6b8590"));
}

#[test]
fn badge_label_is_bounded() {
    let svg = render_badge(&"x".repeat(200), "up");
    let width: f32 = svg
        .split("width=\"")
        .nth(1)
        .and_then(|s| s.split('"').next())
        .and_then(|s| s.parse().ok())
        .expect("width attribute");
    assert!(width < 250.0, "badge too wide: {width}");
}

#[test]
fn parses_suffixes() {
    assert_eq!(parse_suffix("start"), Some((PingKind::Start, None)));
    assert_eq!(parse_suffix("fail"), Some((PingKind::Fail, None)));
    assert_eq!(parse_suffix("log"), Some((PingKind::Log, None)));
    assert_eq!(parse_suffix("0"), Some((PingKind::Success, Some(0))));
    assert_eq!(parse_suffix("1"), Some((PingKind::Fail, Some(1))));
    assert_eq!(parse_suffix("255"), Some((PingKind::Fail, Some(255))));
    assert_eq!(parse_suffix("256"), None);
    assert_eq!(parse_suffix("nope"), None);
}

#[test]
fn odd_suffixes() {
    assert_eq!(parse_suffix("+7"), Some((PingKind::Fail, Some(7))));
    assert_eq!(parse_suffix("007"), Some((PingKind::Fail, Some(7))));
    assert_eq!(parse_suffix("-0"), None);
    assert_eq!(parse_suffix(""), None);
    assert_eq!(parse_suffix("70000"), None);
    assert_eq!(parse_suffix("Start"), None);
}

/// The widths and positions as single precision gives them.
fn expected_badge(label: &str, status: &str, color: &str) -> String {
    let label_width = (label.chars().count() as f32 * 6.5).round() + 10.0;
    let status_width = (status.chars().count() as f32 * 6.5).round() + 10.0;
    let total = label_width + status_width;
    let label_x = label_width / 2.0;
    let status_x = label_width + status_width / 2.0;
    format!(
        r##"<svg xmlns="http://www.w3.org/2000/svg" width="{total}" height="20" role="img" aria-label="{label}: {status}">
  <title>{label}: {status}</title>
  <linearGradient id="s" x2="0" y2="100%">
    <stop offset="0" stop-color="#bbb" stop-opacity=".1"/>
    <stop offset="1" stop-opacity=".1"/>
  </linearGradient>
  <clipPath id="r"><rect width="{total}" height="20" rx="3" fill="#fff"/></clipPath>
  <g clip-path="url(#r)">
    <rect width="{label_width}" height="20" fill="#3c4a52"/>
    <rect x="{label_width}" width="{status_width}" height="20" fill="{color}"/>
    <rect width="{total}" height="20" fill="url(#s)"/>
  </g>
  <g fill="#fff" text-anchor="middle" font-family="Verdana,DejaVu Sans,Geneva,sans-serif" font-size="11">
    <text x="{label_x}" y="15" fill="#010101" fill-opacity=".3">{label}</text>
    <text x="{label_x}" y="14">{label}</text>
    <text x="{status_x}" y="15" fill="#010101" fill-opacity=".3">{status}</text>
    <text x="{status_x}" y="14">{status}</text>
  </g>
</svg>
"##
    )
}

#[test]
fn badges_are_exact() {
    assert_eq!(render_badge("job", "up"), expected_badge("job", "up", "#2fb380"));
    assert_eq!(render_badge("", "grace"), expected_badge("", "grace", "#f5b301"));
    assert_eq!(
        render_badge("twelve chars", "new"),
        expected_badge("twelve chars", "new", "#29a3bd")
    );
    let long = "w".repeat(1001);
    assert_eq!(render_badge("odd", &long), expected_badge("odd", &long, "#29a3bd"));
    let longest = "w".repeat(canari::web::api::MAX_STATUS_LEN);
    assert_eq!(render_badge("job", &longest), expected_badge("job", &longest, "#29a3bd"));
}

#[test]
fn badges_of_escaped_names_stay_narrow() {
    let svg = render_badge(&"&".repeat(28), "up");
    assert!(svg.contains("width=\"215\""));
    assert!(svg.contains(&"&amp;".repeat(28)));
    let narrow = render_badge(&"x".repeat(28), "up").replace(&"x".repeat(28), &"&amp;".repeat(28));
    assert_eq!(svg, narrow);
    let widest = render_badge(&"<".repeat(99), "paused");
    assert!(widest.contains("width=\"241\""));
}

#[test]
fn labels_are_cut_and_escaped() {
    assert_eq!(truncate_label("a & b <c> \"d\""), "a &amp; b &lt;c&gt; &quot;d&quot;");
    assert_eq!(truncate_label(&"é".repeat(28)), "é".repeat(28));
    assert_eq!(truncate_label(&"é".repeat(29)), format!("{}…", "é".repeat(27)));
}

#[test]
fn every_status_has_a_color() {
    assert_eq!(status_color("up"), "#2fb380");
    assert_eq!(status_color("grace"), "#f5b301");
    assert_eq!(status_color("down"), "#e03131");
    assert_eq!(status_color("paused"), "#6b8590");
    assert_eq!(status_color("new"), "#29a3bd");
    assert_eq!(status_color("anything"), "#29a3bd");
}

fn check() -> Check {
    Check {
        id: 1,
        uuid: "u-1".into(),
        name: "backup".into(),
        description: "nightly".into(),
        tags: " prod  db ".into(),
        kind: CheckKind::Cron,
        period_s: 300,
        grace_s: 60,
        cron_expr: Some("0 * * * *".into()),
        tz: "UTC".into(),
        status: Status::Up,
        last_ping_at: Some(5),
        last_start_at: None,
        last_duration_ms: Some(1500),
        alert_after: Some(9),
        n_pings: 7,
        created_at: 1,
        updated_at: 2,
        badge_token: "tok".into(),
    }
}

#[test]
fn checks_are_shown_by_the_api() {
    let view = check_json(&check(), "https://x.test/");
    assert_eq!(view.tags, vec!["prod".to_string(), "db".to_string()]);
    assert_eq!((view.kind.as_str(), view.status.as_str()), ("cron", "up"));
    assert_eq!(view.schedule, "0 * * * * [UTC] (grace 1m)");
    assert_eq!(view.ping_url, "https://x.test/ping/u-1");
    assert_eq!(view.badge_url, "https://x.test/badge/tok.svg");
    assert_eq!((view.last_ping, view.late_after, view.created_at), (Some(5), Some(9), 1));
    assert_eq!(view.cron.as_deref(), Some("0 * * * *"));
}

#[test]
fn badges_are_served_by_token() {
    assert_eq!(badge_token("tok.svg"), "tok");
    assert_eq!(badge_token("tok"), "tok");
    assert_eq!(badge_token(".svg"), "");
    assert_eq!(badge_token("a.svg.svg"), "a.svg");
    let found = badge(Some(&check()));
    assert_eq!(found.status, 200);
    assert_eq!(found.content_type.as_deref(), Some("image/svg+xml; charset=utf-8"));
    assert_eq!(found.cache_control.as_deref(), Some("public, max-age=60"));
    assert_eq!(found.body, render_badge("backup", "up"));
    assert_eq!(badge(None).status, 404);
}

fn payload() -> CheckPayload {
    CheckPayload {
        name: " backup ".into(),
        description: String::new(),
        tags: String::new(),
        kind: None,
        period: None,
        grace: None,
        cron: None,
        tz: None,
        channels: None,
    }
}

fn refused(payload: &CheckPayload) -> String {
    match payload.to_new_check() {
        Err(AppError::BadRequest(why)) => why,
        other => panic!("not refused: {other:?}"),
    }
}

#[test]
fn payloads_have_defaults() {
    let new = payload().to_new_check().unwrap();
    assert_eq!(new.name, "backup");
    assert_eq!((new.kind, new.period_s, new.grace_s), (CheckKind::Simple, 86_400, 3_600));
    assert_eq!((new.cron_expr, new.tz.as_str()), (None, "UTC"));
}

#[test]
fn payloads_are_read() {
    let mut full = payload();
    full.kind = Some("cron".into());
    full.period = Some("5m".into());
    full.grace = Some("90".into());
    full.cron = Some("0 * * * *".into());
    full.tz = Some("Europe/Paris".into());
    let new = full.to_new_check().unwrap();
    assert_eq!((new.kind, new.period_s, new.grace_s), (CheckKind::Cron, 300, 90));
    assert_eq!((new.cron_expr.as_deref(), new.tz.as_str()), (Some("0 * * * *"), "Europe/Paris"));
}

#[test]
fn payloads_are_refused_with_a_reason() {
    let mut bad = payload();
    bad.kind = Some("weekly".into());
    assert_eq!(refused(&bad), "unknown kind \"weekly\", expected \"simple\" or \"cron\"");
    let mut bad = payload();
    bad.name = "  ".into();
    assert_eq!(refused(&bad), "name is required");
    let mut bad = payload();
    bad.period = Some("5x".into());
    assert_eq!(refused(&bad), "invalid duration \"5x\": unexpected 'x'");
    let mut bad = payload();
    bad.grace = Some("0".into());
    assert_eq!(refused(&bad), "duration must be positive");
}

#[test]
fn payload_durations_may_not_fit() {
    let mut big = payload();
    assert!(big.fits());
    big.grace = Some("99999999999999999w".into());
    assert!(!big.fits());
    big.name = String::new();
    assert!(big.fits());
}

fn keys(read_only: bool) -> Vec<ApiKey> {
    vec![
        ApiKey { id: 1, key_hash: hash_secret("other"), read_only: false },
        ApiKey { id: 2, key_hash: hash_secret("mine"), read_only },
    ]
}

#[test]
fn api_keys_are_required() {
    let rows = keys(false);
    assert_eq!(require_api_key(None, Some(&rows), "GET"), KeyAccess::Unauthorized);
    assert_eq!(require_api_key(Some("nope"), Some(&rows), "GET"), KeyAccess::Unauthorized);
    assert_eq!(require_api_key(Some("mine"), Some(&rows), "DELETE"), KeyAccess::Allowed);
    assert_eq!(require_api_key(Some("mine"), None, "GET"), KeyAccess::Failed);
    assert_eq!(require_api_key(None, None, "GET"), KeyAccess::Unauthorized);
}

#[test]
fn read_only_keys_only_read() {
    let rows = keys(true);
    assert_eq!(require_api_key(Some("mine"), Some(&rows), "GET"), KeyAccess::Allowed);
    for method in ["POST", "DELETE", "HEAD", "get"] {
        assert_eq!(require_api_key(Some("mine"), Some(&rows), method), KeyAccess::ReadOnly);
    }
}

#[test]
fn api_refusals_are_answered() {
    assert!(KeyAccess::Allowed.refusal().is_none());
    let read_only = KeyAccess::ReadOnly.refusal().unwrap();
    assert_eq!(read_only.status, 403);
    assert_eq!(read_only.body, "{\"error\":\"this API key is read-only\"}");
    assert_eq!(read_only.content_type.as_deref(), Some("application/json"));
    assert_eq!(KeyAccess::Unauthorized.refusal().unwrap().status, 401);
    let failed = KeyAccess::Failed.refusal().unwrap();
    assert_eq!((failed.status, failed.body.as_str()), (500, ""));
}

#[test]
fn failures_are_answered_without_their_text() {
    let db = AppError::Db("table secrets".into()).reply();
    let other = AppError::Other("anything".into()).reply();
    assert_eq!(db.status, 500);
    assert_eq!(db.body, "{\"error\":\"internal server error\"}");
    assert_eq!(db.body, other.body);
    let bad = AppError::BadRequest("say \"please\"".into()).reply();
    assert_eq!((bad.status, bad.body.as_str()), (400, "{\"error\":\"say \\\"please\\\"\"}"));
    assert_eq!(AppError::NotFound.reply().status, 404);
}

fn request<'a>(uuid: &'a str, suffix: Option<&'a str>, body: &'a [u8]) -> Request<'a> {
    Request {
        uuid,
        suffix,
        peer: "10.0.0.1",
        forwarded_for: None,
        user_agent: Some("curl/8"),
        method: "POST",
        body,
    }
}

const UUID: &str = "3f1a2b3c-0000-4000-8000-000000000001";

#[test]
fn pings_are_read() {
    let input = read_request(&request(UUID, None, b"")).unwrap();
    assert_eq!((input.kind, input.exit_code), (Some(PingKind::Success), None));
    assert_eq!(input.remote_addr.as_deref(), Some("10.0.0.1"));
    assert_eq!(input.user_agent.as_deref(), Some("curl/8"));
    assert_eq!(input.method.as_deref(), Some("POST"));
    assert_eq!(input.body, None);
    let input = read_request(&request(UUID, Some("3"), b"out\xffput")).unwrap();
    assert_eq!((input.kind, input.exit_code), (Some(PingKind::Fail), Some(3)));
    assert_eq!(input.body.as_deref(), Some("out\u{fffd}put"));
}

#[test]
fn odd_pings_are_refused() {
    let bad = read_request(&request(UUID, Some("nope"), b"")).unwrap_err();
    assert_eq!((bad.status, bad.body.as_str()), (400, "unrecognized ping suffix\n"));
    let malformed = read_request(&request("not-a-uuid", None, b"")).unwrap_err();
    assert_eq!((malformed.status, malformed.body.as_str()), (404, "not found\n"));
    let both = read_request(&request("not-a-uuid", Some("nope"), b"")).unwrap_err();
    assert_eq!(both.status, 400);
}

#[test]
fn unknown_and_malformed_uuids_are_answered_alike() {
    let unknown = acknowledge(false);
    let malformed = read_request(&request("nonsense", None, b"")).unwrap_err();
    assert_eq!((unknown.status, &unknown.body), (malformed.status, &malformed.body));
    let found = acknowledge(true);
    assert_eq!((found.status, found.body.as_str()), (200, "OK\n"));
}

#[test]
fn forwarded_addresses_win() {
    assert_eq!(client_ip(None, "10.0.0.1"), "10.0.0.1");
    assert_eq!(client_ip(Some(" 1.2.3.4 , 5.6.7.8"), "10.0.0.1"), "1.2.3.4");
    assert_eq!(client_ip(Some(" , 5.6.7.8"), "10.0.0.1"), "10.0.0.1");
    assert_eq!(client_ip(Some(""), "10.0.0.1"), "10.0.0.1");
}
