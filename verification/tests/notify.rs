use std::fmt;

use canari::model::{now, ChannelKind, Check, CheckKind, Status};
use canari::notify::{
    after_attempt, classify_response, config_json, default_ntfy_server, encode_header, error_chain,
    method_takes_body, record, request, request_at, sample_check, test_request, validate_config,
    ChannelConfig, Event, NtfyConfig, SendError, Step, Vars, WebhookConfig,
};
use canari::store::Channel;

fn sample(name: &str) -> Check {
    Check {
        id: 1,
        uuid: "3f1a2b3c-0000-4000-8000-000000000001".into(),
        name: name.into(),
        description: String::new(),
        tags: "prod db".into(),
        kind: CheckKind::Simple,
        period_s: 300,
        grace_s: 60,
        cron_expr: None,
        tz: "UTC".into(),
        status: Status::Down,
        last_ping_at: Some(now() - 600),
        last_start_at: None,
        last_duration_ms: None,
        alert_after: None,
        n_pings: 7,
        created_at: 0,
        updated_at: 0,
        badge_token: "badge".into(),
    }
}

/// The message of an error and of each of its causes.
fn messages(err: &dyn std::error::Error) -> Vec<String> {
    let mut all = vec![err.to_string()];
    let mut source = err.source();
    while let Some(cause) = source {
        all.push(cause.to_string());
        source = cause.source();
    }
    all
}

/// The settings in a JSON document.
fn settings(kind: ChannelKind, config: &str) -> Result<ChannelConfig, String> {
    let value: serde_json::Value = serde_json::from_str(config).map_err(|e| e.to_string())?;
    let text = |key: &str| value.get(key).and_then(|v| v.as_str()).map(str::to_owned);
    match kind {
        ChannelKind::Webhook => Ok(ChannelConfig::Webhook(WebhookConfig {
            url: text("url").ok_or("missing field `url`")?,
            method: text("method"),
            headers: Vec::new(),
            body: text("body"),
        })),
        ChannelKind::Ntfy => Ok(ChannelConfig::Ntfy(NtfyConfig {
            server: text("server").unwrap_or_else(default_ntfy_server),
            topic: text("topic").ok_or("missing field `topic`")?,
            token: text("token"),
            priority: value.get("priority").and_then(|v| v.as_u64()).map(|n| n as u8),
        })),
    }
}

fn validated(kind: ChannelKind, config: &str) -> Result<(), String> {
    validate_config(&settings(kind, config)).map_err(|e| e.message)
}

#[test]
fn renders_placeholders() {
    let check = sample("backup");
    let vars = Vars::new(&check, Event::Down, "https://canari.example.org/");
    let rendered = vars.render("$NAME|$STATUS|$TAGS|$URL");
    assert_eq!(
        rendered,
        "backup|down|prod db|https://canari.example.org/checks/3f1a2b3c-0000-4000-8000-000000000001"
    );
}

#[test]
fn json_variants_are_escaped() {
    let check = sample("say \"hello\"");
    let vars = Vars::new(&check, Event::Down, "https://x.test");
    let body = vars.render("{\"text\": $NAME_JSON}");
    let parsed: serde_json::Value = serde_json::from_str(&body).expect("valid JSON");
    assert_eq!(parsed["text"], "say \"hello\"");
}

#[test]
fn default_payload_survives_hostile_names() {
    let check = sample("weird \"name\" \n with newline");
    let vars = Vars::new(&check, Event::Up, "https://x.test");
    let parsed: serde_json::Value =
        serde_json::from_str(&vars.default_json()).expect("valid JSON");
    assert_eq!(parsed["check"], "weird \"name\" \n with newline");
    assert_eq!(parsed["status"], "up");
}

#[derive(Debug)]
struct Wrapper(std::io::Error);

impl fmt::Display for Wrapper {
    fn fmt(&self, f: &mut fmt::Formatter<'_>) -> fmt::Result {
        f.write_str("error sending request for url (https://example.test/x)")
    }
}

impl std::error::Error for Wrapper {
    fn source(&self) -> Option<&(dyn std::error::Error + 'static)> {
        Some(&self.0)
    }
}

#[test]
fn error_chain_keeps_the_root_cause() {
    let wrapped = Wrapper(std::io::Error::new(
        std::io::ErrorKind::ConnectionRefused,
        "connection refused",
    ));
    let flattened = error_chain(&messages(&wrapped));

    assert!(flattened.starts_with("error sending request for url"));
    assert!(flattened.ends_with("connection refused"));
}

#[derive(Debug)]
struct Echo(&'static str);

impl fmt::Display for Echo {
    fn fmt(&self, f: &mut fmt::Formatter<'_>) -> fmt::Result {
        f.write_str(self.0)
    }
}

impl std::error::Error for Echo {}

#[test]
fn error_chain_does_not_repeat_itself() {
    assert_eq!(error_chain(&messages(&Echo("boom"))), "boom");
}

#[test]
fn encodes_non_ascii_headers() {
    assert_eq!(encode_header("backup"), "backup");
    assert_eq!(
        encode_header("sauvegarde réussie"),
        "=?UTF-8?B?c2F1dmVnYXJkZSByw6l1c3NpZQ==?="
    );
}

#[test]
fn validates_channel_configs() {
    assert!(validated(ChannelKind::Webhook, r#"{"url":"https://x.test"}"#).is_ok());
    assert!(validated(ChannelKind::Webhook, r#"{"url":"ftp://x.test"}"#).is_err());
    assert!(validated(ChannelKind::Webhook, r#"{}"#).is_err());
    assert!(validated(
        ChannelKind::Webhook,
        r#"{"url":"https://x.test","method":"WAT WAT"}"#
    )
    .is_err());
    assert!(validated(ChannelKind::Ntfy, r#"{"topic":"alerts"}"#).is_ok());
    assert!(validated(ChannelKind::Ntfy, r#"{"topic":""}"#).is_err());
    assert!(validated(
        ChannelKind::Ntfy,
        r#"{"server":"https://n.test","topic":"a","priority":5}"#
    )
    .is_ok());
}

#[test]
fn config_refusals_say_what_is_wrong() {
    let said = |kind, config| validated(kind, config).unwrap_err();
    assert_eq!(said(ChannelKind::Webhook, "{}"), "missing field `url`");
    assert_eq!(
        said(ChannelKind::Webhook, r#"{"url":"https://x.test","method":"WAT WAT"}"#),
        "invalid HTTP method \"WAT WAT\""
    );
    assert_eq!(
        said(ChannelKind::Webhook, r#"{"url":"ftp://x.test"}"#),
        "webhook url must start with http:// or https://"
    );
    assert_eq!(said(ChannelKind::Ntfy, r#"{"topic":""}"#), "ntfy topic must not be empty");
}

#[test]
fn links_already_said_are_skipped() {
    let links = |parts: &[&str]| {
        let owned: Vec<String> = parts.iter().map(|s| s.to_string()).collect();
        error_chain(&owned)
    };
    assert_eq!(links(&["a: b", "b", "c", "c"]), "a: b: c");
    assert_eq!(links(&["outer", "inner", "root"]), "outer: inner: root");
    assert_eq!(links(&[]), "");
}

#[test]
fn unsendable_requests_are_permanent() {
    let chain = vec!["builder error".to_string(), "bad url".to_string()];
    let built = SendError::from_reqwest(&chain, true);
    assert_eq!(built.message, "builder error: bad url");
    assert!(!built.retryable);
    assert!(SendError::from_reqwest(&chain, false).retryable);
    assert!(SendError::transient("x").retryable);
    assert!(!SendError::permanent("x").retryable);
}

#[test]
fn messages_tell_what_happened() {
    let mut check = sample("backup");
    check.last_ping_at = Some(1_700_000_000);
    let down = Vars::at(&check, Event::Down, "https://x.test", 1_700_000_090);
    assert_eq!(down.title, "backup is DOWN");
    assert_eq!(
        down.message,
        "Check \"backup\" is down.\nLast ping: 2023-11-14 22:13:20Z (1m30s ago).\nExpected: every 5m (grace 1m)."
    );
    check.last_ping_at = None;
    let up = Vars::at(&check, Event::Up, "https://x.test", 0);
    assert_eq!(up.title, "backup is UP");
    assert_eq!(up.message, "Check \"backup\" is back up.\nLast ping: never.");
}

#[test]
fn every_placeholder_is_replaced() {
    let mut check = sample("a \"b\"");
    check.last_ping_at = None;
    let vars = Vars::at(&check, Event::Up, "https://x.test", 0);
    let rendered = vars.render_at(
        "$NAME_JSON/$TITLE_JSON/$NAME/$TITLE/$UUID/$NOW/$MESSAGE/$MESSAGE_JSON",
        1_700_000_000,
    );
    assert_eq!(
        rendered,
        "\"a \\\"b\\\"\"/\"a \\\"b\\\" is UP\"/a \"b\"/a \"b\" is UP/3f1a2b3c-0000-4000-8000-000000000001/2023-11-14 22:13:20Z/Check \"a \"b\"\" is back up.\nLast ping: never./\"Check \\\"a \\\"b\\\"\\\" is back up.\\nLast ping: never.\""
    );
}

#[test]
fn templates_without_placeholders_are_kept() {
    let check = sample("backup");
    let vars = Vars::at(&check, Event::Down, "https://x.test", now());
    assert_eq!(vars.render("nothing to see {here}"), "nothing to see {here}");
    assert_eq!(vars.render("$UNKNOWN"), "$UNKNOWN");
}

#[test]
fn the_default_payload_is_exact() {
    let mut check = sample("back\tup");
    check.last_ping_at = Some(12);
    let vars = Vars::at(&check, Event::Down, "https://x.test", 72);
    let text = vars.default_json();
    assert!(text.starts_with("{\"check\":\"back\\tup\",\"last_ping\":12,\"message\":\"Check "));
    assert!(text.ends_with(
        ",\"schedule\":\"every 5m (grace 1m)\",\"status\":\"down\",\"tags\":\"prod db\",\"title\":\"back\\tup is DOWN\",\"url\":\"https://x.test/checks/3f1a2b3c-0000-4000-8000-000000000001\",\"uuid\":\"3f1a2b3c-0000-4000-8000-000000000001\"}"
    ));
    check.last_ping_at = None;
    let vars = Vars::at(&check, Event::Down, "https://x.test", 72);
    assert!(vars.default_json().contains("\"last_ping\":null"));
}

fn webhook(method: Option<&str>, body: Option<&str>) -> Result<ChannelConfig, String> {
    Ok(ChannelConfig::Webhook(WebhookConfig {
        url: "https://hook.test/$UUID".into(),
        method: method.map(Into::into),
        headers: vec![("X-Name".into(), "$NAME".into())],
        body: body.map(Into::into),
    }))
}

#[test]
fn webhooks_carry_the_default_payload() {
    let check = sample("backup");
    let vars = Vars::at(&check, Event::Down, "https://x.test", now());
    let sent = request_at(&webhook(None, None), &vars, 0).unwrap();
    assert_eq!(sent.method, "POST");
    assert_eq!(sent.url, "https://hook.test/3f1a2b3c-0000-4000-8000-000000000001");
    assert_eq!(
        sent.headers,
        vec![
            ("X-Name".to_string(), "backup".to_string()),
            ("content-type".to_string(), "application/json".to_string()),
        ]
    );
    assert_eq!(sent.body, Some(vars.default_json()));
    assert_eq!(sent.bearer, None);
}

#[test]
fn webhooks_carry_their_template() {
    let check = sample("backup");
    let vars = Vars::at(&check, Event::Down, "https://x.test", now());
    let sent = request_at(&webhook(Some("PUT"), Some("$NAME!")), &vars, 0).unwrap();
    assert_eq!((sent.method.as_str(), sent.body.as_deref()), ("PUT", Some("backup!")));
    assert_eq!(sent.headers.len(), 1);
    let empty = request_at(&webhook(Some("PUT"), Some("")), &vars, 0).unwrap();
    assert_eq!(empty.body, None);
    let get = request_at(&webhook(Some("GET"), None), &vars, 0).unwrap();
    assert_eq!((get.body, get.headers.len()), (None, 1));
}

#[test]
fn methods_with_a_payload() {
    for method in ["POST", "PUT", "PATCH"] {
        assert!(method_takes_body(method));
    }
    for method in ["GET", "DELETE", "post", ""] {
        assert!(!method_takes_body(method));
    }
}

#[test]
fn bad_settings_cannot_be_sent() {
    let check = sample("backup");
    let bad = request(&webhook(Some("WAT WAT"), None), &check, Event::Down, "https://x.test");
    let err = bad.unwrap_err();
    assert_eq!(err.message, "invalid HTTP method \"WAT WAT\"");
    assert!(!err.retryable);
    let unread = request(&Err("expected value".into()), &check, Event::Up, "https://x.test");
    let err = unread.unwrap_err();
    assert_eq!((err.message.as_str(), err.retryable), ("expected value", false));
}

fn ntfy(token: Option<&str>, priority: Option<u8>) -> Result<ChannelConfig, String> {
    Ok(ChannelConfig::Ntfy(NtfyConfig {
        server: "https://n.test//".into(),
        topic: "alerts".into(),
        token: token.map(Into::into),
        priority,
    }))
}

#[test]
fn ntfy_requests_carry_title_priority_and_tags() {
    let check = sample("tâche");
    let vars = Vars::at(&check, Event::Down, "https://x.test", now());
    let sent = request_at(&ntfy(Some("secret"), None), &vars, 0).unwrap();
    assert_eq!((sent.method.as_str(), sent.url.as_str()), ("POST", "https://n.test/alerts"));
    assert_eq!(
        sent.headers,
        vec![
            ("Title".to_string(), "=?UTF-8?B?dMOiY2hlIGlzIERPV04=?=".to_string()),
            ("Priority".to_string(), "4".to_string()),
            ("Tags".to_string(), "rotating_light".to_string()),
        ]
    );
    assert_eq!(sent.body, Some(vars.message.clone()));
    assert_eq!(sent.bearer.as_deref(), Some("secret"));

    let up = Vars::at(&check, Event::Up, "https://x.test", now());
    let sent = request_at(&ntfy(None, None), &up, 0).unwrap();
    assert_eq!(sent.headers[1].1, "3");
    assert_eq!(sent.headers[2].1, "white_check_mark");
    assert_eq!(sent.bearer, None);
    let fixed = request_at(&ntfy(None, Some(5)), &up, 0).unwrap();
    assert_eq!(fixed.headers[1].1, "5");
}

#[test]
fn responses_are_classified() {
    assert!(classify_response(200, "").is_ok());
    assert!(classify_response(204, "").is_ok());
    let missing = classify_response(404, "  no such hook \n").unwrap_err();
    assert_eq!(missing.message, "HTTP 404 Not Found: no such hook");
    assert!(!missing.retryable);
    for status in [408, 429, 500, 503, 599] {
        assert!(classify_response(status, "").unwrap_err().retryable);
    }
    for status in [301, 400, 401, 600] {
        assert!(!classify_response(status, "").unwrap_err().retryable);
    }
}

#[test]
fn response_details_are_cut_short() {
    let long = "é".repeat(500);
    let err = classify_response(500, &long).unwrap_err();
    let expected = format!("HTTP 500 Internal Server Error: {}", "é".repeat(200));
    assert_eq!(err.message, expected);
}

/// How a delivery goes: its pauses, and how it ends.
fn deliver(outcomes: Vec<Result<(), SendError>>) -> (Vec<u64>, Result<(), String>) {
    let mut pauses = Vec::new();
    for (attempt, outcome) in outcomes.into_iter().enumerate() {
        match after_attempt(attempt, outcome) {
            Step::Delivered => return (pauses, Ok(())),
            Step::Failed(err) => return (pauses, Err(err.message)),
            Step::Retry(pause) => pauses.push(pause),
        }
    }
    (pauses, Err("still trying".into()))
}

#[test]
fn transient_failures_are_retried() {
    let three = vec![
        Err(SendError::transient("first")),
        Err(SendError::transient("second")),
        Err(SendError::transient("third")),
    ];
    assert_eq!(deliver(three), (vec![2, 5], Err("third".to_string())));
    let recovered = vec![Err(SendError::transient("first")), Ok(())];
    assert_eq!(deliver(recovered), (vec![2], Ok(())));
    assert_eq!(canari::notify::ATTEMPTS, 3);
}

#[test]
fn permanent_failures_are_not_retried() {
    let refused = vec![Err(SendError::permanent("no")), Ok(())];
    assert_eq!(deliver(refused), (vec![], Err("no".to_string())));
    assert_eq!(deliver(vec![Ok(())]), (vec![], Ok(())));
}

#[test]
fn notifications_record_the_outcome() {
    let check = sample("backup");
    let channel = Channel {
        id: 9,
        kind: ChannelKind::Ntfy,
        name: "phone".into(),
        config: "{}".into(),
        enabled: true,
        created_at: 0,
    };
    let sent = record(&check, &channel, Event::Up, &Ok(()));
    assert_eq!((sent.check_id, sent.channel_id), (1, 9));
    assert_eq!((sent.reason.as_str(), sent.error), ("up", None));
    let failed = record(&check, &channel, Event::Down, &Err(SendError::permanent("gone")));
    assert_eq!((failed.reason.as_str(), failed.error.as_deref()), ("down", Some("gone")));
}

#[test]
fn test_alerts_speak_of_a_sample_check() {
    let check = sample_check("phone", 1_700_000_000);
    assert_eq!(check.name, "canari test (phone)");
    assert_eq!(check.uuid, "00000000-0000-4000-8000-000000000000");
    assert_eq!(check.last_ping_at, Some(1_700_000_000 - 3600));
    assert_eq!(check.status, Status::Down);
    let sent = test_request(&ntfy(None, None), "phone", "https://x.test").unwrap();
    assert_eq!(sent.headers[0].1, "canari test (phone) is DOWN");
    assert!(sent.body.unwrap().contains("(1h ago)"));
}

#[test]
fn events_have_reasons_and_settings_have_kinds() {
    assert_eq!(Event::Down.reason(), "down");
    assert_eq!(Event::Up.reason(), "up");
    assert_eq!(webhook(None, None).unwrap().kind(), ChannelKind::Webhook);
    assert_eq!(ntfy(None, None).unwrap().kind(), ChannelKind::Ntfy);
    assert_eq!(default_ntfy_server(), "https://ntfy.sh");
}

#[test]
fn methods_are_tokens() {
    for code in 0..=255u8 {
        let c = code as char;
        let token = c.is_ascii_alphanumeric() || "!#$%&'*+-.^_`|~".contains(c);
        let config = ChannelConfig::Webhook(WebhookConfig {
            url: "http://x.test".into(),
            method: Some(format!("A{c}")),
            headers: Vec::new(),
            body: None,
        });
        assert_eq!(validate_config(&Ok(config)).is_ok(), token, "U+{code:04X}");
    }
    assert!(validated(ChannelKind::Webhook, r#"{"url":"http://x.test","method":""}"#).is_err());
    assert!(validated(ChannelKind::Webhook, r#"{"url":"http://x.test","method":"M-SEARCH"}"#).is_ok());
}

#[test]
fn accepted_settings_can_be_sent() {
    let check = sample("backup");
    for (kind, config) in [
        (ChannelKind::Webhook, r#"{"url":"https://x.test"}"#),
        (ChannelKind::Webhook, r#"{"url":"http://x.test","method":"GET"}"#),
        (ChannelKind::Ntfy, r#"{"topic":"alerts"}"#),
    ] {
        let config = settings(kind, config);
        assert!(validate_config(&config).is_ok());
        assert!(request(&config, &check, Event::Down, "https://x.test").is_ok());
    }
}

#[test]
fn ages_past_64_bits_cannot_be_told() {
    let mut check = sample("backup");
    assert!(canari::notify::can_tell_age(&check));
    check.last_ping_at = Some(i64::MIN);
    assert!(!canari::notify::can_tell_age(&check));
    check.last_ping_at = Some(i64::MAX);
    assert!(canari::notify::can_tell_age(&check));
}

#[test]
fn control_characters_are_quoted() {
    let mut check = sample("\u{1}\u{8}\u{c}\r\t\u{1f}\u{7f}é\\");
    check.last_ping_at = None;
    let vars = Vars::at(&check, Event::Up, "", 0);
    assert_eq!(
        vars.render("$NAME_JSON"),
        "\"\\u0001\\b\\f\\r\\t\\u001f\u{7f}é\\\\\""
    );
}

#[test]
fn quoted_values_are_not_taken_for_placeholders() {
    let mut check = sample("$TAGS$NAME$URL");
    check.tags = "a\"b$NOW".into();
    check.last_ping_at = None;
    let vars = Vars::at(&check, Event::Up, "https://x.test", 0);
    assert_eq!(vars.render("$NAME_JSON"), "\"$TAGS$NAME$URL\"");
    assert_eq!(vars.render("$TITLE_JSON"), "\"$TAGS$NAME$URL is UP\"");
    assert_eq!(vars.render("{\"t\":$MESSAGE_JSON}"), "{\"t\":\"Check \\\"$TAGS$NAME$URL\\\" is back up.\\nLast ping: never.\"}");
    assert_eq!(vars.render("$STATUS$NAME_JSON$STATUS"), "up\"$TAGS$NAME$URL\"up");
}

#[test]
fn placeholders_are_filled_one_after_the_other() {
    let mut check = sample("$TAGS $NAME");
    check.tags = "$NOW $UUID".into();
    let vars = Vars::at(&check, Event::Up, "https://x.test", now());
    assert_eq!(vars.render_at("$NAME", 0), "1970-01-01 00:00:00Z $UUID $NAME");
    assert_eq!(vars.render_at("$NAME_JSON|$TAGS", 0), "\"$TAGS $NAME\"|1970-01-01 00:00:00Z $UUID");
}

#[test]
fn the_longest_placeholder_wins() {
    let check = sample("x");
    let vars = Vars::at(&check, Event::Down, "https://x.test", now());
    assert_eq!(vars.render("$NAME_JSO|$NAME_JSONS|$$NAME|$NAM"), "x_JSO|\"x\"S|$x|$NAM");
}

#[test]
fn stored_webhook_settings_have_sorted_headers() {
    let config = ChannelConfig::Webhook(WebhookConfig {
        url: "https://example.com/\"x\"".into(),
        method: Some("PUT".into()),
        headers: vec![
            ("X-Two".into(), "2".into()),
            ("Accept".into(), "a \\ b".into()),
            ("X".into(), "1".into()),
        ],
        body: None,
    });
    let stored = config_json(&config);
    assert_eq!(
        stored,
        [
            r#"{"body":null,"headers":{"Accept":"a \\ b","X":"1","X-Two":"2"},"#,
            r#""method":"PUT","url":"https://example.com/\"x\""}"#,
        ]
        .concat()
    );
    let value: serde_json::Value = serde_json::from_str(&stored).unwrap();
    assert_eq!(value["headers"]["Accept"], "a \\ b");
    assert_eq!(value.to_string(), stored);
}

#[test]
fn stored_headers_keep_the_last_value() {
    let config = ChannelConfig::Webhook(WebhookConfig {
        url: "u".into(),
        method: None,
        headers: vec![
            ("b".into(), "1".into()),
            ("a".into(), "2".into()),
            ("b".into(), "3".into()),
        ],
        body: Some("x\ny".into()),
    });
    assert_eq!(
        config_json(&config),
        r#"{"body":"x\ny","headers":{"a":"2","b":"3"},"method":null,"url":"u"}"#
    );
}

#[test]
fn stored_ntfy_settings() {
    let with = |token: Option<&str>, priority: Option<u8>| {
        config_json(&ChannelConfig::Ntfy(NtfyConfig {
            server: "https://ntfy.sh".into(),
            topic: "t".into(),
            token: token.map(String::from),
            priority,
        }))
    };
    assert_eq!(
        with(None, None),
        r#"{"priority":null,"server":"https://ntfy.sh","token":null,"topic":"t"}"#
    );
    assert_eq!(
        with(Some("k"), Some(5)),
        r#"{"priority":5,"server":"https://ntfy.sh","token":"k","topic":"t"}"#
    );
}
