//! Telling people: what a notification says, where it goes, and when to try
//! again.

use vstd::prelude::*;
use vstd::utf8::*;

use crate::error;
use crate::error::Error;
use crate::fields;
use crate::model;
use crate::model::{ChannelKind, Check, CheckKind, Status};
use crate::outside;
use crate::schedule;
use crate::store::Channel;
use crate::text;

verus! {

/// Delivery attempts per channel. Only transient failures are retried: a 4xx
/// will not fix itself.
pub const ATTEMPTS: usize = 3;

/// The pauses between delivery attempts, in seconds.
pub open spec fn backoff(attempt: int) -> int {
    if attempt == 0 {
        2
    } else {
        5
    }
}

/// What happened to the check. Notifications are sent on transitions only, so
/// there is exactly one of these per state change.
#[derive(Debug, Clone, Copy, PartialEq, Eq, Structural)]
pub enum Event {
    Down,
    Up,
}

impl Event {
    /// The word for the event.
    pub open spec fn word(self) -> Seq<char> {
        match self {
            Event::Down => "down"@,
            Event::Up => "up"@,
        }
    }

    /// The word for the event.
    pub fn reason(self) -> (r: &'static str)
        ensures
            r@ == self.word(),
    {
        match self {
            Event::Down => "down",
            Event::Up => "up",
        }
    }
}

// ---------------------------------------------------------- configurations

/// Where and how a webhook is called.
#[derive(Debug)]
pub struct WebhookConfig {
    pub url: String,
    pub method: Option<String>,
    /// Names and values; no name occurs twice.
    pub headers: Vec<(String, String)>,
    /// Placeholder template. Absent means the default JSON payload.
    pub body: Option<String>,
}

/// Where and how an ntfy topic is notified.
#[derive(Debug)]
pub struct NtfyConfig {
    pub server: String,
    pub topic: String,
    /// Access token for protected topics.
    pub token: Option<String>,
    /// Overrides the priority chosen from the event.
    pub priority: Option<u8>,
}

/// The settings of a channel.
#[derive(Debug)]
pub enum ChannelConfig {
    Webhook(WebhookConfig),
    Ntfy(NtfyConfig),
}

impl ChannelConfig {
    /// The kind of channel that the settings are for.
    pub open spec fn kind_of(self) -> ChannelKind {
        match self {
            ChannelConfig::Webhook(_) => ChannelKind::Webhook,
            ChannelConfig::Ntfy(_) => ChannelKind::Ntfy,
        }
    }

    /// The kind of channel that the settings are for.
    pub fn kind(&self) -> (r: ChannelKind)
        ensures
            r == self.kind_of(),
    {
        match self {
            ChannelConfig::Webhook(_) => ChannelKind::Webhook,
            ChannelConfig::Ntfy(_) => ChannelKind::Ntfy,
        }
    }
}

/// A channel as someone asks for it.
#[derive(Debug)]
pub struct NewChannel {
    pub name: String,
    pub config: ChannelConfig,
}

/// The server that a topic without one is on.
pub fn default_ntfy_server() -> (r: String)
    ensures
        r@ == "https://ntfy.sh"@,
{
    "https://ntfy.sh".to_owned()
}

/// A text or none, as JSON has it.
pub open spec fn json_optional(s: Option<Seq<char>>) -> Seq<char> {
    match s {
        Some(s) => outside::json_string(s),
        None => "null"@,
    }
}

/// The members of a JSON object whose values are strings.
pub open spec fn json_members(list: Seq<(Seq<char>, Seq<char>)>) -> Seq<char>
    decreases list.len(),
{
    if list.len() == 0 {
        Seq::empty()
    } else {
        let before = if list.len() == 1 {
            Seq::empty()
        } else {
            json_members(list.drop_last()) + ","@
        };
        before + outside::json_string(list.last().0) + ":"@ + outside::json_string(list.last().1)
    }
}

/// A channel's settings as they are stored: a JSON object, its members in the
/// order of their names, and so the headers of a webhook.
pub open spec fn config_text(config: ChannelConfig) -> Seq<char> {
    match config {
        ChannelConfig::Webhook(cfg) => "{\"body\":"@ + json_optional(outside::text_of(cfg.body))
            + ",\"headers\":{"@ + json_members(fields::arranged(fields::pairs(cfg.headers@)))
            + "},\"method\":"@ + json_optional(outside::text_of(cfg.method)) + ",\"url\":"@
            + outside::json_string(cfg.url@) + "}"@,
        ChannelConfig::Ntfy(cfg) => "{\"priority\":"@ + match cfg.priority {
            Some(n) => text::decimal(n as int),
            None => "null"@,
        } + ",\"server\":"@ + outside::json_string(cfg.server@) + ",\"token\":"@ + json_optional(
            outside::text_of(cfg.token),
        ) + ",\"topic\":"@ + outside::json_string(cfg.topic@) + "}"@,
    }
}

/// A text or none, as JSON has it.
fn quote_optional(s: &Option<String>) -> (r: String)
    ensures
        r@ == json_optional(outside::text_of(*s)),
{
    match s {
        Some(s) => outside::quote_json(s.as_str()),
        None => "null".to_owned(),
    }
}

/// The members of a JSON object whose values are strings.
fn write_members(list: &Vec<(String, String)>) -> (r: String)
    ensures
        r@ == json_members(fields::pairs(list@)),
{
    let ghost all = fields::pairs(list@);
    let mut r = String::new();
    let mut i: usize = 0;
    while i < list.len()
        invariant
            i <= list@.len(),
            all == fields::pairs(list@),
            r@ == json_members(all.take(i as int)),
        decreases list@.len() - i,
    {
        assert(all.take(i + 1).drop_last() =~= all.take(i as int));
        if i > 0 {
            r.append(",");
        }
        r.append(outside::quote_json(list[i].0.as_str()).as_str());
        r.append(":");
        r.append(outside::quote_json(list[i].1.as_str()).as_str());
        i = i + 1;
    }
    assert(all.take(i as int) =~= all);
    r
}

/// A channel's settings as they are stored.
pub fn config_json(config: &ChannelConfig) -> (r: String)
    ensures
        r@ == config_text(*config),
{
    match config {
        ChannelConfig::Webhook(cfg) => {
            let mut r = "{\"body\":".to_owned();
            r.append(quote_optional(&cfg.body).as_str());
            r.append(",\"headers\":{");
            r.append(write_members(&fields::arrange(&cfg.headers)).as_str());
            r.append("},\"method\":");
            r.append(quote_optional(&cfg.method).as_str());
            r.append(",\"url\":");
            r.append(outside::quote_json(cfg.url.as_str()).as_str());
            r.append("}");
            r
        },
        ChannelConfig::Ntfy(cfg) => {
            let mut r = "{\"priority\":".to_owned();
            match cfg.priority {
                Some(n) => {
                    r.append(text::int_text(n as i64).as_str());
                },
                None => {
                    r.append("null");
                },
            }
            r.append(",\"server\":");
            r.append(outside::quote_json(cfg.server.as_str()).as_str());
            r.append(",\"token\":");
            r.append(quote_optional(&cfg.token).as_str());
            r.append(",\"topic\":");
            r.append(outside::quote_json(cfg.topic.as_str()).as_str());
            r.append("}");
            r
        },
    }
}

/// Why a channel's settings cannot be used, if they cannot.
pub open spec fn config_refusal(config: ChannelConfig) -> Option<Seq<char>> {
    match config {
        ChannelConfig::Webhook(cfg) => if cfg.method matches Some(method) && !outside::is_method(
            method@,
        ) {
            Some("invalid HTTP method "@ + outside::debug_text(cfg.method->0@))
        } else if !text::occurs_at(cfg.url@, "http://"@, 0) && !text::occurs_at(
            cfg.url@,
            "https://"@,
            0,
        ) {
            Some("webhook url must start with http:// or https://"@)
        } else {
            None
        },
        ChannelConfig::Ntfy(cfg) => if cfg.topic@.len() == 0 {
            Some("ntfy topic must not be empty"@)
        } else {
            None
        },
    }
}

/// Reject a channel configuration at creation time rather than discovering it
/// is unusable when an alert finally needs to go out.
///
/// Settings that could not even be read come as the reason why.
pub fn validate_config(config: &Result<ChannelConfig, String>) -> (r: Result<(), Error>)
    ensures
        error::told(r) == match *config {
            Err(why) => Err::<(), Seq<char>>(why@),
            Ok(config) => match config_refusal(config) {
                Some(why) => Err(why),
                None => Ok(()),
            },
        },
{
    let config = match config {
        Ok(config) => config,
        Err(why) => {
            return Err(Error::new(why.as_str()));
        },
    };
    match config {
        ChannelConfig::Webhook(cfg) => {
            if let Some(method) = &cfg.method {
                if !outside::reads_method(method.as_str()) {
                    return Err(Error { message: bad_method(method.as_str()) });
                }
            }
            if !text::starts_with(cfg.url.as_str(), "http://") && !text::starts_with(
                cfg.url.as_str(),
                "https://",
            ) {
                return Err(Error::new("webhook url must start with http:// or https://"));
            }
        },
        ChannelConfig::Ntfy(cfg) => {
            if cfg.topic.as_str().unicode_len() == 0 {
                return Err(Error::new("ntfy topic must not be empty"));
            }
        },
    }
    Ok(())
}

/// The words for an HTTP method that is none.
fn bad_method(method: &str) -> (r: String)
    ensures
        r@ == "invalid HTTP method "@ + outside::debug_text(method@),
{
    let mut r = "invalid HTTP method ".to_owned();
    r.append(outside::debug_str(method).as_str());
    r
}

// ------------------------------------------------------------------ errors

/// Why a notification was not delivered.
#[derive(Debug)]
pub struct SendError {
    pub message: String,
    /// Whether trying again may help.
    pub retryable: bool,
}

/// The links of a chain of errors that say something new: those that no link
/// kept before them contains.
pub open spec fn new_links(messages: Seq<Seq<char>>) -> Seq<Seq<char>>
    decreases messages.len(),
{
    if messages.len() == 0 {
        Seq::empty()
    } else {
        let before = new_links(messages.drop_last());
        if said(before, messages.last()) {
            before
        } else {
            before.push(messages.last())
        }
    }
}

/// Whether one of the parts contains the message.
pub open spec fn said(parts: Seq<Seq<char>>, message: Seq<char>) -> bool {
    exists|i: int| 0 <= i < parts.len() && text::occurs(#[trigger] parts[i], message)
}

/// A chain of errors in one line.
pub open spec fn chain_text(messages: Seq<Seq<char>>) -> Seq<char> {
    text::joined(new_links(messages), ": "@)
}

/// Whether one of the parts contains the message.
fn is_said(parts: &Vec<String>, message: &str) -> (r: bool)
    ensures
        r == said(text::views(parts@), message@),
{
    let ghost all = text::views(parts@);
    let mut i: usize = 0;
    while i < parts.len()
        invariant
            i <= parts@.len(),
            all == text::views(parts@),
            forall|k: int| 0 <= k < i ==> !text::occurs(#[trigger] all[k], message@),
        decreases parts@.len() - i,
    {
        if text::contains(parts[i].as_str(), message) {
            assert(text::occurs(all[i as int], message@));
            return true;
        }
        i = i + 1;
    }
    false
}

/// Flatten an error and its causes, given the message of each, into one line,
/// skipping links that merely repeat what a previous one already said.
pub fn error_chain(messages: &Vec<String>) -> (r: String)
    ensures
        r@ == chain_text(text::views(messages@)),
{
    let ghost all = text::views(messages@);
    let mut parts: Vec<String> = Vec::new();
    let mut i: usize = 0;
    assert(text::views(parts@) =~= new_links(all.take(0)));
    while i < messages.len()
        invariant
            i <= messages@.len(),
            all == text::views(messages@),
            text::views(parts@) == new_links(all.take(i as int)),
        decreases messages@.len() - i,
    {
        assert(all.take(i + 1).drop_last() =~= all.take(i as int));
        assert(all.take(i + 1).last() == messages@[i as int]@);
        if !is_said(&parts, messages[i].as_str()) {
            let ghost before = text::views(parts@);
            parts.push(messages[i].clone());
            assert(text::views(parts@) =~= before.push(messages@[i as int]@));
        }
        i = i + 1;
    }
    assert(all.take(i as int) =~= all);
    text::join(&parts, ": ")
}

impl SendError {
    /// A failure that may pass.
    pub fn transient(message: &str) -> (r: SendError)
        ensures
            r.message@ == message@,
            r.retryable,
    {
        SendError { message: message.to_owned(), retryable: true }
    }

    /// A failure that will not fix itself.
    pub fn permanent(message: &str) -> (r: SendError)
        ensures
            r.message@ == message@,
            !r.retryable,
    {
        SendError { message: message.to_owned(), retryable: false }
    }

    /// A request that could not be sent, given the message of the error and of
    /// each of its causes, and whether the request could not even be built.
    ///
    /// The first message stops at "error sending request for url (…)" and hides
    /// what actually went wrong: refused connection, unknown CA, unresolvable
    /// name. The cause lives further down the chain, so it is unwound before
    /// the message is shown or stored.
    pub fn from_reqwest(messages: &Vec<String>, is_builder: bool) -> (r: SendError)
        ensures
            r.message@ == chain_text(text::views(messages@)),
            r.retryable == !is_builder,
    {
        SendError { message: error_chain(messages), retryable: !is_builder }
    }
}

// ----------------------------------------------------------------- headers

/// A text as it stands in a header.
pub open spec fn header_text(value: Seq<char>) -> Seq<char> {
    if is_ascii_chars(value) {
        value
    } else {
        "=?UTF-8?B?"@ + outside::base64_standard(encode_utf8(value)) + "?="@
    }
}

/// HTTP headers are latin-1; ntfy reads titles as RFC 2047 when encoded, which
/// keeps accented check names readable instead of mangled.
pub fn encode_header(value: &str) -> (r: String)
    ensures
        r@ == header_text(value@),
{
    if value.is_ascii() {
        return value.to_owned();
    }
    let mut r = "=?UTF-8?B?".to_owned();
    r.append(outside::encode_base64_standard(value.as_bytes()).as_str());
    r.append("?=");
    r
}

/// Whether requests with a method carry a payload.
pub open spec fn carries_payload(method: Seq<char>) -> bool {
    method == "POST"@ || method == "PUT"@ || method == "PATCH"@
}

/// Whether requests with a method carry a payload.
pub fn method_takes_body(method: &str) -> (r: bool)
    ensures
        r == carries_payload(method@),
{
    text::same(method, "POST") || text::same(method, "PUT") || text::same(method, "PATCH")
}

// --------------------------------------------------------------- templates

/// Values substituted into user-supplied templates.
#[derive(Debug)]
pub struct Vars<'a> {
    pub check: &'a Check,
    pub event: Event,
    pub title: String,
    pub message: String,
    pub url: String,
}

/// The values that templates can speak of.
pub struct Values {
    pub name: Seq<char>,
    pub uuid: Seq<char>,
    pub status: Seq<char>,
    pub tags: Seq<char>,
    pub title: Seq<char>,
    pub message: Seq<char>,
    pub url: Seq<char>,
    pub last_ping: Option<i64>,
    pub schedule: Seq<char>,
}

impl<'a> View for Vars<'a> {
    type V = Values;

    open spec fn view(&self) -> Values {
        Values {
            name: self.check.name@,
            uuid: self.check.uuid@,
            status: self.event.word(),
            tags: self.check.tags@,
            title: self.title@,
            message: self.message@,
            url: self.url@,
            last_ping: self.check.last_ping_at,
            schedule: self.check.summary(),
        }
    }
}

/// When a check last reported, looked at from `ts`.
pub open spec fn last_ping_text(check: Check, ts: int) -> Seq<char> {
    match check.last_ping_at {
        Some(t) => model::ts_text(t as int) + " ("@ + model::duration_text(ts - t) + " ago)"@,
        None => "never"@,
    }
}

/// The headline of a notification.
pub open spec fn title_text(check: Check, event: Event) -> Seq<char> {
    match event {
        Event::Down => check.name@ + " is DOWN"@,
        Event::Up => check.name@ + " is UP"@,
    }
}

/// The text of a notification, written at `ts`.
pub open spec fn message_text(check: Check, event: Event, ts: int) -> Seq<char> {
    match event {
        Event::Down => "Check \""@ + check.name@ + "\" is down.\nLast ping: "@ + last_ping_text(
            check,
            ts,
        ) + ".\nExpected: "@ + check.summary() + "."@,
        Event::Up => "Check \""@ + check.name@ + "\" is back up.\nLast ping: "@ + last_ping_text(
            check,
            ts,
        ) + "."@,
    }
}

/// The values for an event on a check, as of `ts`.
pub open spec fn values_for(check: Check, event: Event, site_url: Seq<char>, ts: int) -> Values {
    Values {
        name: check.name@,
        uuid: check.uuid@,
        status: event.word(),
        tags: check.tags@,
        title: title_text(check, event),
        message: message_text(check, event, ts),
        url: text::trim_end_of(site_url, '/') + "/checks/"@ + check.uuid@,
        last_ping: check.last_ping_at,
        schedule: check.summary(),
    }
}

/// Whether the time since a check's last ping fits 64 bits.
pub open spec fn age_fits(check: Check, ts: int) -> bool {
    check.last_ping_at matches Some(t) ==> schedule::in_i64(ts - t)
}

/// Whether the time since a check's last ping fits 64 bits at any time that a
/// clock can show.
pub open spec fn age_always_fits(check: Check) -> bool {
    check.last_ping_at matches Some(t) ==> outside::CALENDAR_LAST - t <= i64::MAX
}

/// Whether the time since a check's last ping fits 64 bits at any time that a
/// clock can show.
pub fn can_tell_age(check: &Check) -> (r: bool)
    ensures
        r == age_always_fits(*check),
{
    match check.last_ping_at {
        Some(t) => outside::CALENDAR_LAST as i128 - t as i128 <= i64::MAX as i128,
        None => true,
    }
}

/// The JSON variant that a template begins with: how many characters it takes,
/// and the quoted text to put in.
pub open spec fn json_variant(values: Values, template: Seq<char>) -> Option<(nat, Seq<char>)> {
    if text::occurs_at(template, "$NAME_JSON"@, 0) {
        Some(("$NAME_JSON"@.len(), outside::json_string(values.name)))
    } else if text::occurs_at(template, "$MESSAGE_JSON"@, 0) {
        Some(("$MESSAGE_JSON"@.len(), outside::json_string(values.message)))
    } else if text::occurs_at(template, "$TITLE_JSON"@, 0) {
        Some(("$TITLE_JSON"@.len(), outside::json_string(values.title)))
    } else {
        None
    }
}

/// How many characters of a template precede its first JSON variant: all,
/// without one.
pub open spec fn before_json(values: Values, template: Seq<char>) -> nat
    decreases template.len(),
{
    if template.len() == 0 || json_variant(values, template) is Some {
        0
    } else {
        1 + before_json(values, template.skip(1))
    }
}

/// A part of a template without JSON variants, with its placeholders replaced,
/// one after the other.
pub open spec fn filled(values: Values, part: Seq<char>, now: int) -> Seq<char> {
    let s1 = text::replaced(part, "$NAME"@, values.name);
    let s2 = text::replaced(s1, "$MESSAGE"@, values.message);
    let s3 = text::replaced(s2, "$TITLE"@, values.title);
    let s4 = text::replaced(s3, "$UUID"@, values.uuid);
    let s5 = text::replaced(s4, "$STATUS"@, values.status);
    let s6 = text::replaced(s5, "$TAGS"@, values.tags);
    let s7 = text::replaced(s6, "$URL"@, values.url);
    text::replaced(s7, "$NOW"@, model::ts_text(now))
}

/// A template with its placeholders replaced, at `now`: the quoted texts of the
/// JSON variants as they are, and what stands between them filled.
pub open spec fn rendered(values: Values, template: Seq<char>, now: int) -> Seq<char>
    decreases template.len(),
{
    let at = before_json(values, template);
    match json_variant(values, template.skip(at as int)) {
        Some((len, put)) => if 0 < len <= template.len() - at {
            filled(values, template.take(at as int), now) + put + rendered(
                values,
                template.skip((at + len) as int),
                now,
            )
        } else {
            Seq::empty()
        },
        None => filled(values, template, now),
    }
}

/// A number in a JSON document, or null.
pub open spec fn json_number(n: Option<i64>) -> Seq<char> {
    match n {
        Some(n) => text::decimal(n as int),
        None => "null"@,
    }
}

/// The members of the payload that follow the name of the check.
pub open spec fn payload_rest(values: Values) -> Seq<char> {
    ",\"last_ping\":"@ + json_number(values.last_ping) + ",\"message\":"@ + outside::json_string(
        values.message,
    ) + ",\"schedule\":"@ + outside::json_string(values.schedule) + ",\"status\":"@
        + outside::json_string(values.status) + ",\"tags\":"@ + outside::json_string(values.tags)
        + ",\"title\":"@ + outside::json_string(values.title) + ",\"url\":"@
        + outside::json_string(values.url) + ",\"uuid\":"@ + outside::json_string(values.uuid)
        + "}"@
}

/// The payload of a webhook without a template: a JSON object, its members in
/// the order of their names.
pub open spec fn payload(values: Values) -> Seq<char> {
    "{\"check\":"@ + outside::json_string(values.name) + payload_rest(values)
}

impl<'a> Vars<'a> {
    /// The values for an event on a check, as of `ts`.
    pub fn at(check: &'a Check, event: Event, site_url: &str, ts: i64) -> (r: Self)
        requires
            age_fits(*check, ts as int),
        ensures
            r@ == values_for(*check, event, site_url@, ts as int),
            r.event == event,
    {
        let mut title = check.name.clone();
        let mut message = "Check \"".to_owned();
        message.append(check.name.as_str());
        match event {
            Event::Down => {
                title.append(" is DOWN");
                message.append("\" is down.\nLast ping: ");
            },
            Event::Up => {
                title.append(" is UP");
                message.append("\" is back up.\nLast ping: ");
            },
        }
        let last_ping = match check.last_ping_at {
            Some(t) => {
                let mut r = model::format_ts(t);
                r.append(" (");
                r.append(model::format_duration(ts - t).as_str());
                r.append(" ago)");
                r
            },
            None => "never".to_owned(),
        };
        message.append(last_ping.as_str());
        match event {
            Event::Down => {
                message.append(".\nExpected: ");
                message.append(check.schedule_summary().as_str());
                message.append(".");
            },
            Event::Up => {
                message.append(".");
            },
        }
        let mut url = text::trim_end_char(site_url, '/');
        url.append("/checks/");
        url.append(check.uuid.as_str());
        Vars { check, event, title, message, url }
    }

    /// The values for an event on a check, as of now.
    pub fn new(check: &'a Check, event: Event, site_url: &str) -> (r: Self)
        requires
            age_always_fits(*check),
        ensures
            exists|ts: int|
                0 <= ts <= outside::CALENDAR_LAST && r@ == #[trigger] values_for(
                    *check,
                    event,
                    site_url@,
                    ts,
                ),
            r.event == event,
    {
        let ts = model::now();
        let r = Vars::at(check, event, site_url, ts);
        assert(r@ == values_for(*check, event, site_url@, ts as int));
        r
    }

    /// The JSON variant that stands in a template at a position.
    fn json_at(&self, template: &Vec<char>, at: usize) -> (r: Option<(usize, String)>)
        requires
            at <= template@.len(),
        ensures
            match json_variant(self@, template@.skip(at as int)) {
                Some((len, put)) => r matches Some(found) && found.0 == len && found.1@ == put
                    && 0 < len <= template@.len() - at,
                None => r is None,
            },
    {
        proof {
            reveal_placeholders();
            lemma_occurs_behind(template@, "$NAME_JSON"@, at as int);
            lemma_occurs_behind(template@, "$MESSAGE_JSON"@, at as int);
            lemma_occurs_behind(template@, "$TITLE_JSON"@, at as int);
        }
        if text::found_at(template, &text::chars_of("$NAME_JSON"), at) {
            Some((10, outside::quote_json(self.check.name.as_str())))
        } else if text::found_at(template, &text::chars_of("$MESSAGE_JSON"), at) {
            Some((13, outside::quote_json(self.message.as_str())))
        } else if text::found_at(template, &text::chars_of("$TITLE_JSON"), at) {
            Some((11, outside::quote_json(self.title.as_str())))
        } else {
            None
        }
    }

    /// Replaces the placeholders in a part of a template without JSON variants.
    fn fill(&self, part: &str, now_ts: i64) -> (r: String)
        ensures
            r@ == filled(self@, part@, now_ts as int),
    {
        proof {
            reveal_placeholders();
        }
        let s1 = text::replace(part, "$NAME", self.check.name.as_str());
        let s2 = text::replace(s1.as_str(), "$MESSAGE", self.message.as_str());
        let s3 = text::replace(s2.as_str(), "$TITLE", self.title.as_str());
        let s4 = text::replace(s3.as_str(), "$UUID", self.check.uuid.as_str());
        let s5 = text::replace(s4.as_str(), "$STATUS", self.event.reason());
        let s6 = text::replace(s5.as_str(), "$TAGS", self.check.tags.as_str());
        let s7 = text::replace(s6.as_str(), "$URL", self.url.as_str());
        text::replace(s7.as_str(), "$NOW", model::format_ts(now_ts).as_str())
    }

    /// Replace `$NAME`-style placeholders, at `now_ts`. `$*_JSON` variants are
    /// escaped for embedding in a JSON template.
    pub fn render_at(&self, template: &str, now_ts: i64) -> (r: String)
        ensures
            r@ == rendered(self@, template@, now_ts as int),
    {
        let v = text::chars_of(template);
        let ghost all = rendered(self@, v@, now_ts as int);
        let mut r: String = String::new();
        // What stands before `start` is in `r`; no variant begins from there
        // up to `at`.
        let mut start: usize = 0;
        let mut at: usize = 0;
        assert(v@.skip(0) =~= v@);
        assert(r@ + rendered(self@, v@, now_ts as int) =~= all);
        while at < v.len()
            invariant
                start <= at <= v@.len(),
                r@ + rendered(self@, v@.skip(start as int), now_ts as int) == all,
                before_json(self@, v@.skip(start as int)) == at - start + before_json(
                    self@,
                    v@.skip(at as int),
                ),
            decreases v@.len() - at,
        {
            let ghost rest = v@.skip(start as int);
            let ghost here = v@.skip(at as int);
            assert(rest.skip(at - start) =~= here);
            match self.json_at(&v, at) {
                Some((len, put)) => {
                    let ghost before = r@;
                    let part = text::text_between(&v, start, at);
                    r.append(self.fill(part.as_str(), now_ts).as_str());
                    r.append(put.as_str());
                    assert(rest.take(at - start) =~= part@);
                    assert(rest.skip(at - start + len) =~= v@.skip(at + len));
                    at = at + len;
                    start = at;
                    assert(before + rendered(self@, rest, now_ts as int) =~= r@ + rendered(
                        self@,
                        v@.skip(start as int),
                        now_ts as int,
                    ));
                },
                None => {
                    assert(here.skip(1) =~= v@.skip(at + 1));
                    at = at + 1;
                },
            }
        }
        let part = text::text_between(&v, start, at);
        proof {
            let rest = v@.skip(start as int);
            assert(rest =~= part@);
            assert(rest.skip(rest.len() as int) =~= v@.skip(at as int));
            reveal_placeholders();
        }
        r.append(self.fill(part.as_str(), now_ts).as_str());
        r
    }

    /// Replace `$NAME`-style placeholders.
    pub fn render(&self, template: &str) -> (r: String)
        ensures
            exists|now: int|
                0 <= now <= outside::CALENDAR_LAST && r@ == #[trigger] rendered(
                    self@,
                    template@,
                    now,
                ),
    {
        let now_ts = model::now();
        let r = self.render_at(template, now_ts);
        assert(r@ == rendered(self@, template@, now_ts as int));
        r
    }

    /// The payload of a webhook without a template: a JSON document whose
    /// strings are quoted, so a name containing quotes cannot break it.
    pub fn default_json(&self) -> (r: String)
        ensures
            r@ == payload(self@),
    {
        let mut rest = ",\"last_ping\":".to_owned();
        match self.check.last_ping_at {
            Some(t) => {
                rest.append(text::int_text(t).as_str());
            },
            None => {
                rest.append("null");
            },
        }
        rest.append(",\"message\":");
        rest.append(outside::quote_json(self.message.as_str()).as_str());
        rest.append(",\"schedule\":");
        rest.append(outside::quote_json(self.check.schedule_summary().as_str()).as_str());
        rest.append(",\"status\":");
        rest.append(outside::quote_json(self.event.reason()).as_str());
        rest.append(",\"tags\":");
        rest.append(outside::quote_json(self.check.tags.as_str()).as_str());
        rest.append(",\"title\":");
        rest.append(outside::quote_json(self.title.as_str()).as_str());
        rest.append(",\"url\":");
        rest.append(outside::quote_json(self.url.as_str()).as_str());
        rest.append(",\"uuid\":");
        rest.append(outside::quote_json(self.check.uuid.as_str()).as_str());
        rest.append("}");
        let mut r = "{\"check\":".to_owned();
        r.append(outside::quote_json(self.check.name.as_str()).as_str());
        r.append(rest.as_str());
        r
    }
}

// ---------------------------------------------------------------- requests

/// A request to send, in plain values.
#[derive(Debug)]
pub struct HttpRequest {
    pub method: String,
    pub url: String,
    pub headers: Vec<(String, String)>,
    pub body: Option<String>,
    /// A token to authenticate with.
    pub bearer: Option<String>,
}

/// What a request says.
pub struct Outgoing {
    pub method: Seq<char>,
    pub url: Seq<char>,
    pub headers: Seq<(Seq<char>, Seq<char>)>,
    pub body: Option<Seq<char>>,
    pub bearer: Option<Seq<char>>,
}

impl View for HttpRequest {
    type V = Outgoing;

    open spec fn view(&self) -> Outgoing {
        Outgoing {
            method: self.method@,
            url: self.url@,
            headers: fields::pairs(self.headers@),
            body: outside::text_of(self.body),
            bearer: outside::text_of(self.bearer),
        }
    }
}

/// The method a webhook is called with.
pub open spec fn webhook_method(cfg: WebhookConfig) -> Seq<char> {
    match cfg.method {
        Some(method) => method@,
        None => "POST"@,
    }
}

/// Headers with their values rendered.
pub open spec fn rendered_headers(
    headers: Seq<(Seq<char>, Seq<char>)>,
    values: Values,
    now: int,
) -> Seq<(Seq<char>, Seq<char>)> {
    headers.map_values(|h: (Seq<char>, Seq<char>)| (h.0, rendered(values, h.1, now)))
}

/// The call of a webhook. Without a template, methods that carry a payload
/// carry the default JSON document; a template that renders to nothing means
/// no body.
pub open spec fn webhook_call(cfg: WebhookConfig, values: Values, now: int) -> Outgoing {
    let headers = rendered_headers(fields::pairs(cfg.headers@), values, now);
    let by_default = cfg.body is None && carries_payload(webhook_method(cfg));
    Outgoing {
        method: webhook_method(cfg),
        url: rendered(values, cfg.url@, now),
        headers: if by_default {
            headers.push(("content-type"@, "application/json"@))
        } else {
            headers
        },
        body: match cfg.body {
            Some(template) => if rendered(values, template@, now).len() == 0 {
                None
            } else {
                Some(rendered(values, template@, now))
            },
            None => if by_default {
                Some(payload(values))
            } else {
                None
            },
        },
        bearer: None,
    }
}

/// The priority of a notification.
pub open spec fn priority_of(cfg: NtfyConfig, event: Event) -> int {
    match cfg.priority {
        Some(priority) => priority as int,
        None => match event {
            Event::Down => 4,
            Event::Up => 3,
        },
    }
}

/// The tag of a notification.
pub open spec fn tag_of(event: Event) -> Seq<char> {
    match event {
        Event::Down => "rotating_light"@,
        Event::Up => "white_check_mark"@,
    }
}

/// The publication of a notification on an ntfy topic.
pub open spec fn ntfy_call(cfg: NtfyConfig, values: Values, event: Event) -> Outgoing {
    Outgoing {
        method: "POST"@,
        url: text::trim_end_of(cfg.server@, '/') + "/"@ + cfg.topic@,
        headers: seq![
            ("Title"@, header_text(values.title)),
            ("Priority"@, text::decimal(priority_of(cfg, event))),
            ("Tags"@, tag_of(event)),
        ],
        body: Some(values.message),
        bearer: outside::text_of(cfg.token),
    }
}

/// The request that carries a notification, or why there can be none.
pub open spec fn call_for(
    config: Result<ChannelConfig, String>,
    values: Values,
    event: Event,
    now: int,
) -> Result<Outgoing, Seq<char>> {
    match config {
        Err(why) => Err(why@),
        Ok(ChannelConfig::Webhook(cfg)) => if outside::is_method(webhook_method(cfg))
            || cfg.method is None {
            Ok(webhook_call(cfg, values, now))
        } else {
            Err("invalid HTTP method "@ + outside::debug_text(webhook_method(cfg)))
        },
        Ok(ChannelConfig::Ntfy(cfg)) => Ok(ntfy_call(cfg, values, event)),
    }
}

/// Whether `r` is the request, or the permanent failure, that is asked for.
pub open spec fn is_call(
    r: Result<HttpRequest, SendError>,
    call: Result<Outgoing, Seq<char>>,
) -> bool {
    match r {
        Ok(request) => call == Ok::<Outgoing, Seq<char>>(request@),
        Err(e) => !e.retryable && call == Err::<Outgoing, Seq<char>>(e.message@),
    }
}

/// The headers of a webhook with their values rendered.
fn render_headers(vars: &Vars, headers: &Vec<(String, String)>, now_ts: i64) -> (r: Vec<
    (String, String),
>)
    ensures
        fields::pairs(r@) == rendered_headers(fields::pairs(headers@), vars@, now_ts as int),
{
    let mut r: Vec<(String, String)> = Vec::new();
    let mut i: usize = 0;
    while i < headers.len()
        invariant
            i <= headers@.len(),
            r@.len() == i,
            forall|k: int|
                #![trigger r@[k]]
                0 <= k < i ==> r@[k].0@ == headers@[k].0@ && r@[k].1@ == rendered(
                    vars@,
                    headers@[k].1@,
                    now_ts as int,
                ),
        decreases headers@.len() - i,
    {
        r.push((headers[i].0.clone(), vars.render_at(headers[i].1.as_str(), now_ts)));
        i = i + 1;
    }
    assert(fields::pairs(r@) =~= rendered_headers(fields::pairs(headers@), vars@, now_ts as int));
    r
}

/// The call of a webhook.
fn webhook_request(cfg: &WebhookConfig, vars: &Vars, now_ts: i64) -> (r: HttpRequest)
    ensures
        r@ == webhook_call(*cfg, vars@, now_ts as int),
{
    let method = match &cfg.method {
        Some(method) => method.clone(),
        None => "POST".to_owned(),
    };
    let url = vars.render_at(cfg.url.as_str(), now_ts);
    let mut headers = render_headers(vars, &cfg.headers, now_ts);
    let ghost before = fields::pairs(headers@);
    let body = match &cfg.body {
        Some(template) => {
            let body = vars.render_at(template.as_str(), now_ts);
            if body.as_str().unicode_len() == 0 {
                None
            } else {
                Some(body)
            }
        },
        None => if method_takes_body(method.as_str()) {
            headers.push(("content-type".to_owned(), "application/json".to_owned()));
            assert(fields::pairs(headers@) =~= before.push(("content-type"@, "application/json"@)));
            Some(vars.default_json())
        } else {
            None
        },
    };
    HttpRequest { method, url, headers, body, bearer: None }
}

/// The publication of a notification on an ntfy topic.
fn ntfy_request(cfg: &NtfyConfig, vars: &Vars) -> (r: HttpRequest)
    ensures
        r@ == ntfy_call(*cfg, vars@, vars.event),
{
    let mut url = text::trim_end_char(cfg.server.as_str(), '/');
    url.append("/");
    url.append(cfg.topic.as_str());
    let priority: u8 = match cfg.priority {
        Some(priority) => priority,
        None => match vars.event {
            Event::Down => 4,
            Event::Up => 3,
        },
    };
    let tags = match vars.event {
        Event::Down => "rotating_light",
        Event::Up => "white_check_mark",
    };
    let mut headers: Vec<(String, String)> = Vec::new();
    headers.push(("Title".to_owned(), encode_header(vars.title.as_str())));
    headers.push(("Priority".to_owned(), text::int_text(priority as i64)));
    headers.push(("Tags".to_owned(), tags.to_owned()));
    let bearer = match &cfg.token {
        Some(token) => Some(token.clone()),
        None => None,
    };
    let r = HttpRequest {
        method: "POST".to_owned(),
        url,
        headers,
        body: Some(vars.message.clone()),
        bearer,
    };
    assert(r@.headers =~= ntfy_call(*cfg, vars@, vars.event).headers);
    r
}

/// The request that carries a notification, written at `now_ts`.
pub fn request_at(
    config: &Result<ChannelConfig, String>,
    vars: &Vars,
    now_ts: i64,
) -> (r: Result<HttpRequest, SendError>)
    ensures
        is_call(r, call_for(*config, vars@, vars.event, now_ts as int)),
{
    match config {
        Err(why) => Err(SendError::permanent(why.as_str())),
        Ok(ChannelConfig::Webhook(cfg)) => {
            if let Some(method) = &cfg.method {
                if !outside::reads_method(method.as_str()) {
                    return Err(SendError::permanent(bad_method(method.as_str()).as_str()));
                }
            }
            Ok(webhook_request(cfg, vars, now_ts))
        },
        Ok(ChannelConfig::Ntfy(cfg)) => Ok(ntfy_request(cfg, vars)),
    }
}

/// The request that carries a notification on a check, written now.
pub fn request(
    config: &Result<ChannelConfig, String>,
    check: &Check,
    event: Event,
    site_url: &str,
) -> (r: Result<HttpRequest, SendError>)
    requires
        age_always_fits(*check),
    ensures
        exists|ts: int|
            0 <= ts <= outside::CALENDAR_LAST && is_call(
                r,
                call_for(*config, #[trigger] values_for(*check, event, site_url@, ts), event, ts),
            ),
{
    let ts = model::now();
    let vars = Vars::at(check, event, site_url, ts);
    let r = request_at(config, &vars, ts);
    assert(vars@ == values_for(*check, event, site_url@, ts as int));
    r
}

// --------------------------------------------------------------- responses

/// The beginning of a response's text, at most two hundred characters of it.
pub open spec fn excerpt(detail: Seq<char>) -> Seq<char> {
    if detail.len() > 200 {
        detail.take(200)
    } else {
        detail
    }
}

/// What is wrong with a response.
pub open spec fn response_text(status: int, detail: Seq<char>) -> Seq<char> {
    "HTTP "@ + outside::status_text(status) + ": "@ + text::trimmed(excerpt(detail))
}

/// What a response means: anything in the two hundreds is a delivery. 408, 429
/// and 5xx are worth another try; the rest are configuration errors.
pub fn classify_response(status: u16, detail: &str) -> (r: Result<(), SendError>)
    requires
        100 <= status <= 999,
    ensures
        r is Ok <==> 200 <= status <= 299,
        r matches Err(e) ==> e.message@ == response_text(status as int, detail@),
        r matches Err(e) ==> e.retryable == (500 <= status <= 599 || status == 429 || status == 408),
{
    if 200 <= status && status <= 299 {
        return Ok(());
    }
    let v = text::chars_of(detail);
    let n: usize = if v.len() > 200 {
        200
    } else {
        v.len()
    };
    let detail = text::text_between(&v, 0, n);
    assert(detail@ =~= excerpt(v@));
    let mut message = "HTTP ".to_owned();
    message.append(outside::show_status(status).as_str());
    message.append(": ");
    message.append(text::trim(detail.as_str()).as_str());
    let retryable = (500 <= status && status <= 599) || status == 429 || status == 408;
    Err(SendError { message, retryable })
}

// ----------------------------------------------------------------- retries

/// What to do after an attempt at delivery.
#[derive(Debug)]
pub enum Step {
    Delivered,
    /// Nothing left to try: this is what went wrong last.
    Failed(SendError),
    /// Wait this many seconds, then try again.
    Retry(u64),
}

/// What to do after the attempt with the number `attempt`, counted from 0.
pub open spec fn step_after(attempt: int, outcome: Result<(), SendError>) -> Step {
    match outcome {
        Ok(_) => Step::Delivered,
        Err(e) => if e.retryable && attempt + 1 < ATTEMPTS {
            Step::Retry(backoff(attempt) as u64)
        } else {
            Step::Failed(e)
        },
    }
}

/// What to do after an attempt at delivery.
pub fn after_attempt(attempt: usize, outcome: Result<(), SendError>) -> (r: Step)
    requires
        attempt < ATTEMPTS,
    ensures
        r == step_after(attempt as int, outcome),
{
    match outcome {
        Ok(()) => Step::Delivered,
        Err(e) => if e.retryable && attempt + 1 < ATTEMPTS {
            Step::Retry(
                if attempt == 0 {
                    2
                } else {
                    5
                },
            )
        } else {
            Step::Failed(e)
        },
    }
}

/// The row that records a notification.
#[derive(Debug)]
pub struct Notification {
    pub check_id: i64,
    pub channel_id: i64,
    pub reason: String,
    /// What went wrong, if it did.
    pub error: Option<String>,
}

/// The row that records what came of notifying a channel. A failure is
/// recorded, never passed on: a broken channel must not take down the alert
/// loop or a ping request.
pub fn record(check: &Check, channel: &Channel, event: Event, outcome: &Result<(), SendError>) -> (r:
    Notification)
    ensures
        r.check_id == check.id,
        r.channel_id == channel.id,
        r.reason@ == event.word(),
        outside::text_of(r.error) == match *outcome {
            Ok(_) => None::<Seq<char>>,
            Err(e) => Some(e.message@),
        },
{
    let error = match outcome {
        Ok(()) => None,
        Err(e) => Some(e.message.clone()),
    };
    Notification {
        check_id: check.id,
        channel_id: channel.id,
        reason: event.reason().to_owned(),
        error,
    }
}

/// Whether `check` is the sample that test alerts speak of.
pub open spec fn is_sample(check: Check, channel_name: Seq<char>, ts: int) -> bool {
    &&& check.id == 0
    &&& check.uuid@ == "00000000-0000-4000-8000-000000000000"@
    &&& check.name@ == "canari test ("@ + channel_name + ")"@
    &&& check.description@ == "test notification"@
    &&& check.tags@ == "test"@
    &&& check.kind == CheckKind::Simple
    &&& check.period_s == 3600
    &&& check.grace_s == 600
    &&& check.cron_expr is None
    &&& check.tz@ == "UTC"@
    &&& check.status == Status::Down
    &&& check.last_ping_at == Some((ts - 3600) as i64)
    &&& check.last_start_at is None
    &&& check.last_duration_ms is None
    &&& check.alert_after is None
    &&& check.n_pings == 0
    &&& check.created_at == ts
    &&& check.updated_at == ts
    &&& check.badge_token@ == "sample"@
}

/// The sample check that test alerts speak of: down, after an hour of silence.
pub fn sample_check(channel_name: &str, ts: i64) -> (r: Check)
    requires
        ts >= i64::MIN + 3600,
    ensures
        is_sample(r, channel_name@, ts as int),
{
    let mut name = "canari test (".to_owned();
    name.append(channel_name);
    name.append(")");
    Check {
        id: 0,
        uuid: "00000000-0000-4000-8000-000000000000".to_owned(),
        name,
        description: "test notification".to_owned(),
        tags: "test".to_owned(),
        kind: CheckKind::Simple,
        period_s: 3600,
        grace_s: 600,
        cron_expr: None,
        tz: "UTC".to_owned(),
        status: Status::Down,
        last_ping_at: Some(ts - 3600),
        last_start_at: None,
        last_duration_ms: None,
        alert_after: None,
        n_pings: 0,
        created_at: ts,
        updated_at: ts,
        badge_token: "sample".to_owned(),
    }
}

/// The request of a sample alert, so a channel can be proven working before an
/// incident depends on it.
pub fn test_request(
    config: &Result<ChannelConfig, String>,
    channel_name: &str,
    site_url: &str,
) -> (r: Result<HttpRequest, SendError>)
    ensures
        exists|sample: Check, ts: int|
            0 <= ts <= outside::CALENDAR_LAST && #[trigger] is_sample(sample, channel_name@, ts)
                && is_call(
                r,
                call_for(
                    *config,
                    values_for(sample, Event::Down, site_url@, ts),
                    Event::Down,
                    ts,
                ),
            ),
{
    let ts = model::now();
    let sample = sample_check(channel_name, ts);
    let vars = Vars::at(&sample, Event::Down, site_url, ts);
    let r = request_at(config, &vars, ts);
    assert(is_sample(sample, channel_name@, ts as int));
    r
}

// -------------------------------------------------------------------- laws

/// Every part stands in the joined text.
proof fn lemma_part_is_joined(parts: Seq<Seq<char>>, sep: Seq<char>, i: int)
    requires
        0 <= i < parts.len(),
    ensures
        text::occurs(text::joined(parts, sep), parts[i]),
    decreases parts.len(),
{
    let whole = text::joined(parts, sep);
    if parts.len() == 1 {
        assert(whole.subrange(0, whole.len() as int) =~= parts[0]);
        assert(text::occurs_at(whole, parts[0], 0));
    } else if i == parts.len() - 1 {
        let at = whole.len() - parts[i].len();
        assert(whole.subrange(at, whole.len() as int) =~= parts[i]);
        assert(text::occurs_at(whole, parts[i], at));
    } else {
        let before = parts.drop_last();
        lemma_part_is_joined(before, sep, i);
        let at = choose|at: int| text::occurs_at(text::joined(before, sep), before[i], at);
        let end = at + parts[i].len();
        assert(whole.subrange(at, end) =~= text::joined(before, sep).subrange(at, end));
        assert(text::occurs_at(whole, parts[i], at));
    }
}

/// What stands in a part of a text stands in the text.
proof fn lemma_occurs_within(s: Seq<char>, part: Seq<char>, pat: Seq<char>)
    requires
        text::occurs(s, part),
        text::occurs(part, pat),
    ensures
        text::occurs(s, pat),
{
    let a = choose|at: int| text::occurs_at(s, part, at);
    let b = choose|at: int| text::occurs_at(part, pat, at);
    assert(s.subrange(a + b, a + b + pat.len()) =~= part.subrange(b, b + pat.len())) by {
        assert(part == s.subrange(a, a + part.len()));
    }
    assert(text::occurs_at(s, pat, a + b));
}

/// A text stands in itself.
proof fn lemma_occurs_in_itself(s: Seq<char>)
    ensures
        text::occurs(s, s),
{
    assert(s.subrange(0, s.len() as int) =~= s);
    assert(text::occurs_at(s, s, 0));
}

/// The root cause of an error is never lost on the way into one line, and
/// neither is any other link.
pub proof fn law_chain_keeps_every_cause(messages: Seq<Seq<char>>, i: int)
    requires
        0 <= i < messages.len(),
    ensures
        text::occurs(chain_text(messages), messages[i]),
{
    lemma_said(messages, i);
    let links = new_links(messages);
    let k = choose|k: int|
        0 <= k < links.len() && text::occurs(#[trigger] links[k], messages[i]);
    lemma_part_is_joined(links, ": "@, k);
    lemma_occurs_within(chain_text(messages), links[k], messages[i]);
}

proof fn lemma_said(messages: Seq<Seq<char>>, i: int)
    requires
        0 <= i < messages.len(),
    ensures
        said(new_links(messages), messages[i]),
    decreases messages.len(),
{
    let before = new_links(messages.drop_last());
    let links = new_links(messages);
    if i < messages.len() - 1 {
        lemma_said(messages.drop_last(), i);
        let k = choose|k: int|
            0 <= k < before.len() && text::occurs(#[trigger] before[k], messages[i]);
        assert(links[k] == before[k]);
    } else if !said(before, messages.last()) {
        lemma_occurs_in_itself(messages.last());
        assert(links[links.len() - 1] == messages.last());
    }
}

/// No link of a chain repeats what an earlier one already said.
pub proof fn law_chain_does_not_repeat_itself(messages: Seq<Seq<char>>, i: int, j: int)
    requires
        0 <= i < j < new_links(messages).len(),
    ensures
        !text::occurs(new_links(messages)[i], new_links(messages)[j]),
    decreases messages.len(),
{
    let before = new_links(messages.drop_last());
    if j < before.len() {
        law_chain_does_not_repeat_itself(messages.drop_last(), i, j);
    } else {
        assert(new_links(messages)[i] == before[i]);
    }
}

/// An error without causes is told as it is.
pub proof fn law_lone_error_is_told_as_it_is(message: Seq<char>)
    ensures
        chain_text(seq![message]) == message,
{
    let one = seq![message];
    assert(one.drop_last() =~= Seq::<Seq<char>>::empty());
    assert(new_links(one.drop_last()) =~= Seq::<Seq<char>>::empty());
    assert(new_links(one) =~= one);
}

/// What stands in a header is ASCII, and ASCII stands there as it is.
pub proof fn law_header_is_ascii(value: Seq<char>)
    ensures
        is_ascii_chars(header_text(value)),
        is_ascii_chars(value) ==> header_text(value) == value,
{
    reveal_strlit("=?UTF-8?B?");
    reveal_strlit("?=");
    let bytes = encode_utf8(value);
    let encoded = outside::base64_standard(bytes);
    let body = outside::base64_unpadded(bytes, '+', '/');
    assert forall|i: int| 0 <= i < encoded.len() implies (#[trigger] encoded[i]) as u32 <= 127 by {
        if i < body.len() {
            let n = outside::sextet(bytes, i);
            assert(0 <= n < 64);
            assert(body[i] == outside::base64_char(n, '+', '/'));
        }
    }
    if !is_ascii_chars(value) {
        let text = header_text(value);
        assert forall|i: int| 0 <= i < text.len() implies (#[trigger] text[i]) as u32 <= 127 by {
            let head = "=?UTF-8?B?"@;
            if head.len() <= i < head.len() + encoded.len() {
                assert(text[i] == encoded[i - head.len()]);
            }
        }
    }
}

/// What the placeholders are, character by character.
proof fn reveal_placeholders()
    ensures
        "$NAME_JSON"@ == seq!['$', 'N', 'A', 'M', 'E', '_', 'J', 'S', 'O', 'N'],
        "$MESSAGE_JSON"@ == seq![
            '$', 'M', 'E', 'S', 'S', 'A', 'G', 'E', '_', 'J', 'S', 'O', 'N',
        ],
        "$TITLE_JSON"@ == seq!['$', 'T', 'I', 'T', 'L', 'E', '_', 'J', 'S', 'O', 'N'],
        "$NAME"@ == seq!['$', 'N', 'A', 'M', 'E'],
        "$MESSAGE"@ == seq!['$', 'M', 'E', 'S', 'S', 'A', 'G', 'E'],
        "$TITLE"@ == seq!['$', 'T', 'I', 'T', 'L', 'E'],
        "$UUID"@ == seq!['$', 'U', 'U', 'I', 'D'],
        "$STATUS"@ == seq!['$', 'S', 'T', 'A', 'T', 'U', 'S'],
        "$TAGS"@ == seq!['$', 'T', 'A', 'G', 'S'],
        "$URL"@ == seq!['$', 'U', 'R', 'L'],
        "$NOW"@ == seq!['$', 'N', 'O', 'W'],
{
    reveal_strlit("$NAME_JSON");
    reveal_strlit("$MESSAGE_JSON");
    reveal_strlit("$TITLE_JSON");
    reveal_strlit("$NAME");
    reveal_strlit("$MESSAGE");
    reveal_strlit("$TITLE");
    reveal_strlit("$UUID");
    reveal_strlit("$STATUS");
    reveal_strlit("$TAGS");
    reveal_strlit("$URL");
    reveal_strlit("$NOW");
}

/// A text stands at a position where what follows begins with it.
proof fn lemma_occurs_behind(s: Seq<char>, pat: Seq<char>, at: int)
    requires
        0 <= at <= s.len(),
    ensures
        text::occurs_at(s.skip(at), pat, 0) == text::occurs_at(s, pat, at),
{
    if at + pat.len() <= s.len() {
        assert(s.skip(at).subrange(0, pat.len() as int) =~= s.subrange(at, at + pat.len()));
    }
}

/// A text whose only dollar sign comes first stands before another dollar sign
/// where it stands without what follows that.
proof fn lemma_occurs_before_dollar(s: Seq<char>, after: Seq<char>, pat: Seq<char>)
    requires
        s.len() > 0,
        after.len() > 0,
        after[0] == '$',
        forall|i: int| 0 < i < pat.len() ==> #[trigger] pat[i] != '$',
    ensures
        text::occurs_at(s + after, pat, 0) == text::occurs_at(s, pat, 0),
{
    let whole = s + after;
    let n = pat.len() as int;
    if n <= s.len() {
        assert(whole.subrange(0, n) =~= s.subrange(0, n));
    } else if text::occurs_at(whole, pat, 0) {
        assert(whole.subrange(0, n)[s.len() as int] == whole[s.len() as int]);
        assert(whole[s.len() as int] == after[0]);
    }
}

/// A template without a dollar sign has no JSON variant, and nothing to fill.
proof fn lemma_no_placeholder(values: Values, template: Seq<char>, now: int)
    requires
        forall|i: int| 0 <= i < template.len() ==> #[trigger] template[i] != '$',
    ensures
        before_json(values, template) == template.len(),
        filled(values, template, now) == template,
    decreases template.len(),
{
    reveal_placeholders();
    text::lemma_nothing_to_replace(template, "$NAME"@, values.name);
    text::lemma_nothing_to_replace(template, "$MESSAGE"@, values.message);
    text::lemma_nothing_to_replace(template, "$TITLE"@, values.title);
    text::lemma_nothing_to_replace(template, "$UUID"@, values.uuid);
    text::lemma_nothing_to_replace(template, "$STATUS"@, values.status);
    text::lemma_nothing_to_replace(template, "$TAGS"@, values.tags);
    text::lemma_nothing_to_replace(template, "$URL"@, values.url);
    text::lemma_nothing_to_replace(template, "$NOW"@, model::ts_text(now));
    if template.len() > 0 {
        let rest = template.skip(1);
        assert forall|i: int| 0 <= i < rest.len() implies #[trigger] rest[i] != '$' by {
            assert(rest[i] == template[i + 1]);
        }
        lemma_no_placeholder(values, rest, now);
        if json_variant(values, template) is Some {
            let len = json_variant(values, template)->Some_0.0;
            assert(template.subrange(0, len as int)[0] == template[0]);
        }
    }
}

/// A template without placeholders is sent as it is.
pub proof fn law_plain_template_is_kept(values: Values, template: Seq<char>, now: int)
    requires
        forall|i: int| 0 <= i < template.len() ==> #[trigger] template[i] != '$',
    ensures
        rendered(values, template, now) == template,
{
    reveal_placeholders();
    lemma_no_placeholder(values, template, now);
}

/// A template before a JSON variant has its variants where it has them alone.
proof fn lemma_before_variant(values: Values, before: Seq<char>, after: Seq<char>)
    requires
        after.len() > 0,
        after[0] == '$',
        json_variant(values, after) is Some,
    ensures
        before_json(values, before + after) == before_json(values, before),
        before_json(values, before) <= before.len(),
        before_json(values, before) < before.len() ==> json_variant(
            values,
            (before + after).skip(before_json(values, before) as int),
        ) == json_variant(values, before.skip(before_json(values, before) as int))
            && json_variant(values, before.skip(before_json(values, before) as int)) is Some,
    decreases before.len(),
{
    reveal_placeholders();
    let whole = before + after;
    if before.len() == 0 {
        assert(whole =~= after);
    } else {
        lemma_occurs_before_dollar(before, after, "$NAME_JSON"@);
        lemma_occurs_before_dollar(before, after, "$MESSAGE_JSON"@);
        lemma_occurs_before_dollar(before, after, "$TITLE_JSON"@);
        assert(before.skip(0) =~= before);
        assert(whole.skip(0) =~= whole);
        if json_variant(values, before) is None {
            lemma_before_variant(values, before.skip(1), after);
            let n = before_json(values, before.skip(1)) as int;
            assert(whole.skip(1) =~= before.skip(1) + after);
            assert(whole.skip(1).skip(n) =~= whole.skip(n + 1));
            assert(before.skip(1).skip(n) =~= before.skip(n + 1));
        }
    }
}

/// A JSON variant renders apart from what stands before and after it.
proof fn lemma_one_variant(
    values: Values,
    before: Seq<char>,
    name: Seq<char>,
    after: Seq<char>,
    put: Seq<char>,
    now: int,
)
    requires
        name.len() > 0,
        name[0] == '$',
        json_variant(values, name + after) == Some((name.len(), put)),
    ensures
        rendered(values, before + (name + after), now) == rendered(values, before, now) + put
            + rendered(values, after, now),
    decreases before.len(),
{
    reveal_placeholders();
    let rest = name + after;
    let whole = before + rest;
    let at = before_json(values, before) as int;
    lemma_before_variant(values, before, rest);
    assert(rest[0] == '$');
    if at < before.len() {
        let (len, first) = json_variant(values, before.skip(at))->Some_0;
        assert(len <= before.len() - at);
        let behind = before.skip(at + len);
        lemma_one_variant(values, behind, name, after, put, now);
        assert(whole.skip(at + len) =~= behind + rest);
        assert(whole.take(at) =~= before.take(at));
        let head = filled(values, before.take(at), now) + first;
        let tail = rendered(values, after, now);
        assert(head + (rendered(values, behind, now) + put + tail) =~= head + rendered(
            values,
            behind,
            now,
        ) + put + tail);
    } else {
        assert(whole.skip(at) =~= rest);
        assert(whole.take(at) =~= before);
        assert(whole.skip(at + name.len()) =~= after);
        assert(before.skip(at) =~= Seq::empty());
    }
}

/// A JSON variant puts the quoted text into a template, whatever the text
/// holds, whatever stands before and after: nothing of it is taken for a
/// placeholder again.
pub proof fn law_json_variants_are_embedded(
    values: Values,
    before: Seq<char>,
    after: Seq<char>,
    now: int,
)
    ensures
        rendered(values, before + "$NAME_JSON"@ + after, now) == rendered(values, before, now)
            + outside::json_string(values.name) + rendered(values, after, now),
        rendered(values, before + "$MESSAGE_JSON"@ + after, now) == rendered(values, before, now)
            + outside::json_string(values.message) + rendered(values, after, now),
        rendered(values, before + "$TITLE_JSON"@ + after, now) == rendered(values, before, now)
            + outside::json_string(values.title) + rendered(values, after, now),
{
    reveal_placeholders();
    let name = "$NAME_JSON"@;
    let message = "$MESSAGE_JSON"@;
    let title = "$TITLE_JSON"@;
    assert((name + after).subrange(0, name.len() as int) =~= name);
    assert((message + after).subrange(0, message.len() as int) =~= message);
    assert((title + after).subrange(0, title.len() as int) =~= title);
    lemma_second_differs(message + after, name);
    lemma_second_differs(title + after, name);
    lemma_second_differs(title + after, message);
    lemma_one_variant(values, before, name, after, outside::json_string(values.name), now);
    lemma_one_variant(values, before, message, after, outside::json_string(values.message), now);
    lemma_one_variant(values, before, title, after, outside::json_string(values.title), now);
    assert(before + (name + after) =~= before + name + after);
    assert(before + (message + after) =~= before + message + after);
    assert(before + (title + after) =~= before + title + after);
}

/// A text does not begin with another that differs in the second character.
proof fn lemma_second_differs(s: Seq<char>, pat: Seq<char>)
    requires
        pat.len() > 1,
        s.len() > 1,
        s[1] != pat[1],
    ensures
        !text::occurs_at(s, pat, 0),
{
    if text::occurs_at(s, pat, 0) {
        assert(s.subrange(0, pat.len() as int)[1] == s[1]);
    }
}

/// On its own, a JSON variant renders as a JSON string that holds the text,
/// whatever the text is and whatever the other values are.
pub proof fn law_json_variants_read_back(values: Values, now: int)
    ensures
        rendered(values, "$NAME_JSON"@, now) == outside::json_string(values.name),
        rendered(values, "$MESSAGE_JSON"@, now) == outside::json_string(values.message),
        rendered(values, "$TITLE_JSON"@, now) == outside::json_string(values.title),
        read_json_string(rendered(values, "$NAME_JSON"@, now).skip(1)) == Some(
            (values.name, Seq::<char>::empty()),
        ),
        read_json_string(rendered(values, "$MESSAGE_JSON"@, now).skip(1)) == Some(
            (values.message, Seq::<char>::empty()),
        ),
        read_json_string(rendered(values, "$TITLE_JSON"@, now).skip(1)) == Some(
            (values.title, Seq::<char>::empty()),
        ),
{
    let none = Seq::<char>::empty();
    law_json_variants_are_embedded(values, none, none, now);
    law_plain_template_is_kept(values, none, now);
    lemma_alone("$NAME_JSON"@);
    lemma_alone("$MESSAGE_JSON"@);
    lemma_alone("$TITLE_JSON"@);
    lemma_alone(outside::json_string(values.name));
    lemma_alone(outside::json_string(values.message));
    lemma_alone(outside::json_string(values.title));
    lemma_json_string_reads_back(values.name);
    lemma_json_string_reads_back(values.message);
    lemma_json_string_reads_back(values.title);
}

/// A text with nothing around it.
proof fn lemma_alone(s: Seq<char>)
    ensures
        Seq::<char>::empty() + s + Seq::<char>::empty() == s,
{
    assert(Seq::<char>::empty() + s + Seq::<char>::empty() =~= s);
}

/// A JSON string is read back as the text it quotes, and nothing follows.
proof fn lemma_json_string_reads_back(s: Seq<char>)
    ensures
        read_json_string(outside::json_string(s).skip(1)) == Some((s, Seq::<char>::empty())),
{
    let none = Seq::<char>::empty();
    law_quoted_text_reads_back(s, none);
    assert(outside::json_string(s).skip(1) =~= outside::json_chars(s) + seq!['"'] + none);
}

/// The value of a hexadecimal digit.
pub open spec fn hex_value(c: char) -> Option<int> {
    if '0' <= c <= '9' {
        Some(c as int - '0' as int)
    } else if 'a' <= c <= 'f' {
        Some(c as int - 'a' as int + 10)
    } else if 'A' <= c <= 'F' {
        Some(c as int - 'A' as int + 10)
    } else {
        None
    }
}

/// The character that an escape in a JSON string stands for.
pub open spec fn unescaped(c: char) -> Option<char> {
    if c == '"' || c == '\\' || c == '/' {
        Some(c)
    } else if c == 'b' {
        Some('\u{8}')
    } else if c == 'f' {
        Some('\u{c}')
    } else if c == 'n' {
        Some('\n')
    } else if c == 'r' {
        Some('\r')
    } else if c == 't' {
        Some('\t')
    } else {
        None
    }
}

/// The character that a JSON string begins with, and how much of the text it
/// takes. Escapes by number are read up to U+00FF.
pub open spec fn first_in_json(t: Seq<char>) -> Option<(char, int)> {
    if t[0] != '\\' {
        if t[0] as int <= 31 {
            None
        } else {
            Some((t[0], 1))
        }
    } else if t.len() < 2 {
        None
    } else if t[1] != 'u' {
        match unescaped(t[1]) {
            Some(c) => Some((c, 2)),
            None => None,
        }
    } else if t.len() < 6 || t[2] != '0' || t[3] != '0' {
        None
    } else {
        match (hex_value(t[4]), hex_value(t[5])) {
            (Some(hi), Some(lo)) => Some(((16 * hi + lo) as char, 6)),
            _ => None,
        }
    }
}

/// What a JSON string whose opening quote was read holds, and what follows its
/// closing quote.
pub open spec fn read_json_string(t: Seq<char>) -> Option<(Seq<char>, Seq<char>)>
    decreases t.len(),
{
    if t.len() == 0 {
        None
    } else if t[0] == '"' {
        Some((Seq::empty(), t.skip(1)))
    } else {
        match first_in_json(t) {
            Some((c, n)) => if 0 < n <= t.len() {
                match read_json_string(t.skip(n)) {
                    Some((held, rest)) => Some((seq![c] + held, rest)),
                    None => None,
                }
            } else {
                None
            },
            None => None,
        }
    }
}

/// Quoting goes character by character, from the left too.
proof fn lemma_json_chars_first(s: Seq<char>)
    requires
        s.len() > 0,
    ensures
        outside::json_chars(s) == outside::json_char(s[0]) + outside::json_chars(s.skip(1)),
    decreases s.len(),
{
    if s.len() == 1 {
        assert(s.drop_last() =~= Seq::<char>::empty());
        assert(s.skip(1) =~= Seq::<char>::empty());
        assert(outside::json_chars(s) =~= outside::json_char(s[0]) + outside::json_chars(
            s.skip(1),
        ));
    } else {
        lemma_json_chars_first(s.drop_last());
        assert(s.drop_last().skip(1) =~= s.skip(1).drop_last());
        assert(s.skip(1).last() == s.last());
        assert(outside::json_chars(s) =~= outside::json_char(s[0]) + outside::json_chars(
            s.skip(1),
        ));
    }
}

/// One quoted character is read back as itself.
proof fn lemma_json_char_reads_back(c: char, rest: Seq<char>)
    ensures
        outside::json_char(c).len() > 0,
        outside::json_char(c)[0] != '"',
        first_in_json(outside::json_char(c) + rest) == Some(
            (c, outside::json_char(c).len() as int),
        ),
{
    let t = outside::json_char(c) + rest;
    let n = outside::json_char(c).len();
    assert(forall|i: int| 0 <= i < n ==> t[i] == outside::json_char(c)[i]);
    if n == 6 {
        let hi = c as int / 16;
        let lo = c as int % 16;
        assert(hex_value(outside::hex_lower(hi)) == Some(hi));
        assert(hex_value(outside::hex_lower(lo)) == Some(lo));
        assert(16 * hi + lo == c as int);
    }
}

/// A text that was quoted is read back as itself, whatever follows it: no text
/// can end its string early or break the document around it.
pub proof fn law_quoted_text_reads_back(s: Seq<char>, rest: Seq<char>)
    ensures
        read_json_string(outside::json_chars(s) + seq!['"'] + rest) == Some((s, rest)),
    decreases s.len(),
{
    let t = outside::json_chars(s) + seq!['"'] + rest;
    if s.len() == 0 {
        assert(t.skip(1) =~= rest);
        assert(s =~= Seq::<char>::empty());
    } else {
        lemma_json_chars_first(s);
        let first = outside::json_char(s[0]);
        let tail = outside::json_chars(s.skip(1)) + seq!['"'] + rest;
        assert(t =~= first + tail);
        lemma_json_char_reads_back(s[0], tail);
        assert(t.skip(first.len() as int) =~= tail);
        law_quoted_text_reads_back(s.skip(1), rest);
        assert(seq![s[0]] + s.skip(1) =~= s);
    }
}

/// The default payload holds the name of the check, whatever the name.
pub proof fn law_payload_holds_any_name(values: Values)
    ensures
        "{\"check\":\""@.is_prefix_of(payload(values)),
        read_json_string(payload(values).skip("{\"check\":\""@.len() as int)) matches Some(read)
            && read.0 == values.name,
{
    reveal_strlit("{\"check\":\"");
    reveal_strlit("{\"check\":");
    let head = "{\"check\":\""@;
    let rest = payload_rest(values);
    let all = payload(values);
    assert(head =~= all.subrange(0, head.len() as int));
    assert(all.skip(head.len() as int) =~= outside::json_chars(values.name) + seq!['"'] + rest);
    law_quoted_text_reads_back(values.name, rest);
}

/// Settings that are accepted can be used: a request can be made of them when
/// an alert needs to go out.
pub proof fn law_accepted_config_is_usable(
    config: ChannelConfig,
    values: Values,
    event: Event,
    now: int,
)
    requires
        config_refusal(config) is None,
    ensures
        call_for(Ok(config), values, event, now) is Ok,
{
}

/// How a delivery goes, given the outcome of each attempt: the last outcome,
/// and how many attempts were made.
pub open spec fn delivery(outcomes: Seq<Result<(), SendError>>, attempt: int) -> (
    Result<(), SendError>,
    int,
)
    decreases ATTEMPTS - attempt,
{
    if attempt >= ATTEMPTS {
        (outcomes[attempt], attempt)
    } else {
        match step_after(attempt, outcomes[attempt]) {
            Step::Retry(_) => delivery(outcomes, attempt + 1),
            _ => (outcomes[attempt], attempt + 1),
        }
    }
}

/// A delivery takes at least one attempt and at most [`ATTEMPTS`]. It ends with
/// the outcome of its last attempt, every earlier one having failed for a
/// reason that may pass. It fails only for good or after the last attempt.
pub proof fn law_delivery_is_bounded(outcomes: Seq<Result<(), SendError>>)
    ensures
        ({
            let (result, made) = delivery(outcomes, 0);
            &&& 1 <= made <= ATTEMPTS
            &&& result == outcomes[made - 1]
            &&& forall|k: int|
                0 <= k < made - 1 ==> ((#[trigger] outcomes[k]) matches Err(e) && e.retryable)
            &&& result matches Err(e) ==> !e.retryable || made == ATTEMPTS
        }),
{
    lemma_delivery(outcomes, 0);
}

proof fn lemma_delivery(outcomes: Seq<Result<(), SendError>>, attempt: int)
    requires
        0 <= attempt < ATTEMPTS,
    ensures
        ({
            let (result, made) = delivery(outcomes, attempt);
            &&& attempt < made <= ATTEMPTS
            &&& result == outcomes[made - 1]
            &&& forall|k: int|
                attempt <= k < made - 1 ==> ((#[trigger] outcomes[k]) matches Err(e)
                    && e.retryable)
            &&& result matches Err(e) ==> !e.retryable || made == ATTEMPTS
        }),
    decreases ATTEMPTS - attempt,
{
    if step_after(attempt, outcomes[attempt]) is Retry {
        lemma_delivery(outcomes, attempt + 1);
    }
}

// ------------------------------------------------------- laws on requests

/// A priority that a channel sets overrides the one chosen from the event, which
/// is high for a check that went down and normal for one that came back.
pub proof fn law_channel_priority_overrides(cfg: NtfyConfig, values: Values, event: Event)
    ensures
        fields::value_of(ntfy_call(cfg, values, event).headers, "Priority"@) == Some(
            match cfg.priority {
                Some(priority) => text::decimal(priority as int),
                None => if event == Event::Down {
                    "4"@
                } else {
                    "3"@
                },
            },
        ),
{
    lemma_ntfy_headers(cfg, values, event);
    reveal_strlit("4");
    reveal_strlit("3");
    assert(text::decimal(4) =~= "4"@);
    assert(text::decimal(3) =~= "3"@);
}

/// Where the headers of a notification stand.
proof fn lemma_ntfy_headers(cfg: NtfyConfig, values: Values, event: Event)
    ensures
        ({
            let headers = ntfy_call(cfg, values, event).headers;
            &&& headers.len() == 3
            &&& fields::value_of(headers, "Title"@) == Some(headers[0].1)
            &&& fields::value_of(headers, "Priority"@) == Some(headers[1].1)
            &&& fields::value_of(headers, "Tags"@) == Some(headers[2].1)
        }),
{
    reveal_strlit("Title");
    reveal_strlit("Priority");
    reveal_strlit("Tags");
    let headers = ntfy_call(cfg, values, event).headers;
    assert("Title"@[0] == 'T' && "Title"@[1] == 'i');
    assert("Priority"@[0] == 'P');
    assert("Tags"@[0] == 'T' && "Tags"@[1] == 'a');
    fields::lemma_place_of(headers, "Title"@);
    fields::lemma_place_of(headers, "Priority"@);
    fields::lemma_place_of(headers, "Tags"@);
    let title = fields::place_of(headers, "Title"@);
    let priority = fields::place_of(headers, "Priority"@);
    let tags = fields::place_of(headers, "Tags"@);
    assert(headers[0].0 == "Title"@ && headers[1].0 == "Priority"@ && headers[2].0 == "Tags"@);
    assert(title == 0);
    assert(priority == 1);
    assert(tags == 2);
}

/// A notification is posted to its topic on its server, whatever slashes the
/// server ends in; the message is its body, the title and the tag of the event
/// stand in its headers, and the token of the channel goes with it.
pub proof fn law_notification_goes_to_its_topic(cfg: NtfyConfig, values: Values, event: Event)
    ensures
        ({
            let call = ntfy_call(cfg, values, event);
            &&& call.method == "POST"@
            &&& exists|server: Seq<char>|
                #![trigger server + "/"@]
                server.is_prefix_of(cfg.server@) && (server.len() > 0 ==> server.last() != '/') && (
                forall|i: int| server.len() <= i < cfg.server@.len() ==> cfg.server@[i] == '/')
                    && call.url == server + "/"@ + cfg.topic@
            &&& call.body == Some(values.message)
            &&& call.bearer is Some == cfg.token is Some
            &&& cfg.token matches Some(token) ==> call.bearer->0 == token@
            &&& fields::value_of(call.headers, "Title"@) == Some(header_text(values.title))
            &&& fields::value_of(call.headers, "Tags"@) == Some(
                if event == Event::Down {
                    "rotating_light"@
                } else {
                    "white_check_mark"@
                },
            )
        }),
{
    lemma_ntfy_headers(cfg, values, event);
    text::law_end_is_trimmed(cfg.server@, '/');
    let server = text::trim_end_of(cfg.server@, '/');
    assert(ntfy_call(cfg, values, event).url == server + "/"@ + cfg.topic@);
}

/// A webhook is called with its method, or POST without one, at its address as
/// rendered, under its headers in their order, each with its value rendered.
pub proof fn law_webhook_is_called_as_set(cfg: WebhookConfig, values: Values, now: int, i: int)
    requires
        0 <= i < cfg.headers@.len(),
    ensures
        ({
            let call = webhook_call(cfg, values, now);
            &&& call.method == match cfg.method {
                Some(method) => method@,
                None => "POST"@,
            }
            &&& call.url == rendered(values, cfg.url@, now)
            &&& call.bearer is None
            &&& call.headers.len() >= cfg.headers@.len()
            &&& call.headers[i].0 == cfg.headers@[i].0@
            &&& call.headers[i].1 == rendered(values, cfg.headers@[i].1@, now)
        }),
{
}

/// A webhook with a template sends it rendered, or no body when nothing is left
/// of it. Without one, methods that carry a body send the default payload as
/// JSON and say so, and the others send none.
pub proof fn law_webhook_body(cfg: WebhookConfig, values: Values, now: int)
    ensures
        ({
            let call = webhook_call(cfg, values, now);
            let posts = match cfg.method {
                Some(method) => method@ == "POST"@ || method@ == "PUT"@ || method@ == "PATCH"@,
                None => true,
            };
            match cfg.body {
                Some(template) => {
                    let body = rendered(values, template@, now);
                    &&& call.headers.len() == cfg.headers@.len()
                    &&& body.len() == 0 ==> call.body is None
                    &&& body.len() > 0 ==> call.body == Some(body)
                },
                None => if posts {
                    &&& call.body == Some(payload(values))
                    &&& call.headers.len() == cfg.headers@.len() + 1
                    &&& call.headers.last() == ("content-type"@, "application/json"@)
                } else {
                    &&& call.body is None
                    &&& call.headers.len() == cfg.headers@.len()
                },
            }
        }),
{
}

/// What is sent follows the kind of the channel: settings that cannot be read
/// and a method that is none are told, and everything else is sent.
pub proof fn law_what_is_sent(
    config: Result<ChannelConfig, String>,
    values: Values,
    event: Event,
    now: int,
)
    ensures
        config matches Err(why) ==> call_for(config, values, event, now) == Err::<
            Outgoing,
            Seq<char>,
        >(why@),
        config matches Ok(ChannelConfig::Ntfy(cfg)) ==> call_for(config, values, event, now)
            == Ok::<Outgoing, Seq<char>>(ntfy_call(cfg, values, event)),
        config matches Ok(ChannelConfig::Webhook(cfg)) ==> match cfg.method {
            Some(method) if !outside::is_method(method@) => call_for(config, values, event, now)
                == Err::<Outgoing, Seq<char>>(
                "invalid HTTP method "@ + outside::debug_text(method@),
            ),
            _ => call_for(config, values, event, now) == Ok::<Outgoing, Seq<char>>(
                webhook_call(cfg, values, now),
            ),
        },
{
}

/// An alert names its check and what happened to it, when it last reported and
/// what was expected of it, and leads to its page.
pub proof fn law_alert_says_what_happened(check: Check, event: Event, site: Seq<char>, ts: int)
    ensures
        ({
            let values = values_for(check, event, site, ts);
            let last = match check.last_ping_at {
                Some(t) => model::ts_text(t as int) + " ("@ + model::duration_text(ts - t)
                    + " ago)"@,
                None => "never"@,
            };
            &&& values.name == check.name@
            &&& values.uuid == check.uuid@
            &&& values.tags == check.tags@
            &&& values.last_ping == check.last_ping_at
            &&& values.schedule == check.summary()
            &&& event == Event::Down ==> {
                &&& values.status == "down"@
                &&& values.title == check.name@ + " is DOWN"@
                &&& values.message == "Check \""@ + check.name@ + "\" is down.\nLast ping: "@ + last
                    + ".\nExpected: "@ + check.summary() + "."@
            }
            &&& event == Event::Up ==> {
                &&& values.status == "up"@
                &&& values.title == check.name@ + " is UP"@
                &&& values.message == "Check \""@ + check.name@ + "\" is back up.\nLast ping: "@
                    + last + "."@
            }
        }),
        forall|base: Seq<char>|
            #![trigger base + "/checks/"@]
            base.is_prefix_of(site) && (base.len() > 0 ==> base.last() != '/') && (forall|i: int|
                base.len() <= i < site.len() ==> site[i] == '/') ==> values_for(
                check,
                event,
                site,
                ts,
            ).url == base + "/checks/"@ + check.uuid@,
{
    text::law_end_is_trimmed(site, '/');
    let mine = text::trim_end_of(site, '/');
    assert forall|base: Seq<char>|
        #![trigger base + "/checks/"@]
        base.is_prefix_of(site) && (base.len() > 0 ==> base.last() != '/') && (forall|i: int|
            base.len() <= i < site.len() ==> site[i] == '/') implies values_for(
        check,
        event,
        site,
        ts,
    ).url == base + "/checks/"@ + check.uuid@ by {
        if base.len() < mine.len() {
            assert(site[mine.len() - 1] == mine.last());
        } else if mine.len() < base.len() {
            assert(site[base.len() - 1] == base.last());
        }
        assert(base =~= mine);
    }
}

/// A delivery is tried again after two and after five seconds, where that can
/// help; a success, a failure that will not mend itself and the third failure end
/// it.
pub proof fn law_when_to_try_again(attempt: int, outcome: Result<(), SendError>)
    requires
        0 <= attempt < 3,
    ensures
        outcome is Ok ==> step_after(attempt, outcome) == Step::Delivered,
        outcome matches Err(e) ==> {
            &&& !e.retryable || attempt == 2 ==> step_after(attempt, outcome) == Step::Failed(e)
            &&& e.retryable && attempt == 0 ==> step_after(attempt, outcome) == Step::Retry(2)
            &&& e.retryable && attempt == 1 ==> step_after(attempt, outcome) == Step::Retry(5)
        },
{
}

/// What a refused delivery is told as: the status and the beginning of the
/// answer.
pub proof fn law_refused_delivery_is_told(status: int, detail: Seq<char>)
    ensures
        detail.len() <= 200 ==> response_text(status, detail) == "HTTP "@ + outside::status_text(
            status,
        ) + ": "@ + text::trimmed(detail),
        detail.len() > 200 ==> response_text(status, detail) == response_text(
            status,
            detail.take(200),
        ),
{
}

/// A header is sent as it is where it is ASCII, and otherwise encoded as base64 of
/// its UTF-8.
pub proof fn law_headers_are_encoded(value: Seq<char>)
    ensures
        (forall|i: int| 0 <= i < value.len() ==> '\0' <= #[trigger] value[i] <= '\u{7f}')
            ==> header_text(value) == value,
        (exists|i: int| 0 <= i < value.len() && #[trigger] value[i] > '\u{7f}') ==> header_text(
            value,
        ) == "=?UTF-8?B?"@ + outside::base64_standard(encode_utf8(value)) + "?="@,
{
    if forall|i: int| 0 <= i < value.len() ==> '\0' <= #[trigger] value[i] <= '\u{7f}' {
        assert(is_ascii_chars(value));
    }
    if exists|i: int| 0 <= i < value.len() && #[trigger] value[i] > '\u{7f}' {
        let i = choose|i: int| 0 <= i < value.len() && #[trigger] value[i] > '\u{7f}';
        assert(!is_ascii_chars(value));
    }
}

/// Settings are refused exactly where a webhook's method is none or its address
/// is no web address, or a topic is empty.
pub proof fn law_which_settings_are_refused(config: ChannelConfig)
    ensures
        match config {
            ChannelConfig::Webhook(cfg) => {
                let web = (cfg.url@.len() >= 7 && cfg.url@.take(7) == "http://"@) || (
                cfg.url@.len() >= 8 && cfg.url@.take(8) == "https://"@);
                &&& config_refusal(config) is None <==> web && (cfg.method matches Some(method)
                    ==> outside::is_method(method@))
                &&& (cfg.method matches Some(method) ==> !outside::is_method(method@)
                    ==> config_refusal(config) == Some(
                    "invalid HTTP method "@ + outside::debug_text(method@),
                ))
            },
            ChannelConfig::Ntfy(cfg) => config_refusal(config) == if cfg.topic@.len() == 0 {
                Some("ntfy topic must not be empty"@)
            } else {
                None
            },
        },
{
    reveal_strlit("http://");
    reveal_strlit("https://");
    if let ChannelConfig::Webhook(cfg) = config {
        let url = cfg.url@;
        if url.len() >= 7 {
            assert(url.subrange(0, 7) =~= url.take(7));
        }
        if url.len() >= 8 {
            assert(url.subrange(0, 8) =~= url.take(8));
        }
    }
}

/// What the default payload says of a check, member by member.
pub proof fn law_payload_says_it_all(values: Values)
    ensures
        payload(values) == "{\"check\":"@ + outside::json_string(values.name) + (
        ",\"last_ping\":"@ + match values.last_ping {
            Some(t) => text::decimal(t as int),
            None => "null"@,
        } + ",\"message\":"@ + outside::json_string(values.message) + ",\"schedule\":"@
            + outside::json_string(values.schedule) + ",\"status\":"@ + outside::json_string(
            values.status,
        ) + ",\"tags\":"@ + outside::json_string(values.tags) + ",\"title\":"@
            + outside::json_string(values.title) + ",\"url\":"@ + outside::json_string(values.url)
            + ",\"uuid\":"@ + outside::json_string(values.uuid) + "}"@),
{
}

// ----------------------------------------------------- laws on placeholders

/// A text does not begin with another that differs in a character.
proof fn lemma_differs(s: Seq<char>, pat: Seq<char>, k: int)
    requires
        0 <= k < pat.len(),
        k < s.len(),
        s[k] != pat[k],
    ensures
        !text::occurs_at(s, pat, 0),
{
    if text::occurs_at(s, pat, 0) {
        assert(s.subrange(0, pat.len() as int)[k] == s[k]);
    }
}

/// The only dollar sign of a template decides what is replaced in it.
proof fn lemma_replaced_at_dollar(
    before: Seq<char>,
    name: Seq<char>,
    after: Seq<char>,
    pat: Seq<char>,
    with: Seq<char>,
)
    requires
        forall|i: int| 0 <= i < before.len() ==> #[trigger] before[i] != '$',
        forall|i: int| 0 <= i < after.len() ==> #[trigger] after[i] != '$',
        name.len() > 0,
        name[0] == '$',
        forall|i: int| 0 < i < name.len() ==> #[trigger] name[i] != '$',
        pat.len() > 0,
        pat[0] == '$',
        pat == name || !text::occurs_at(name + after, pat, 0),
    ensures
        text::replaced(before + name + after, pat, with) == before + if pat == name {
            with
        } else {
            name
        } + after,
    decreases before.len(),
{
    let whole = before + name + after;
    if before.len() > 0 {
        let rest = before.skip(1);
        assert forall|i: int| 0 <= i < rest.len() implies #[trigger] rest[i] != '$' by {
            assert(rest[i] == before[i + 1]);
        }
        lemma_replaced_at_dollar(rest, name, after, pat, with);
        assert(whole[0] == before[0]);
        lemma_differs(whole, pat, 0);
        assert(whole.skip(1) =~= rest + name + after);
        assert(seq![before[0]] + rest =~= before);
        assert(text::replaced(whole, pat, with) =~= before + if pat == name {
            with
        } else {
            name
        } + after);
    } else {
        assert(whole =~= name + after);
        if pat == name {
            assert(whole.subrange(0, name.len() as int) =~= name);
            assert(whole.skip(name.len() as int) =~= after);
            text::lemma_nothing_to_replace(after, pat, with);
            assert(before + with + after =~= with + after);
        } else {
            let rest = whole.skip(1);
            assert forall|i: int| 0 <= i < rest.len() implies #[trigger] rest[i] != '$' by {
                if i + 1 < name.len() {
                    assert(rest[i] == name[i + 1]);
                } else {
                    assert(rest[i] == after[i + 1 - name.len()]);
                }
            }
            text::lemma_nothing_to_replace(rest, pat, with);
            assert(seq![whole[0]] + rest =~= before + name + after);
        }
    }
}

/// A template whose only dollar sign begins no JSON variant is filled as one
/// part.
proof fn lemma_one_part(values: Values, before: Seq<char>, rest: Seq<char>, now: int)
    requires
        forall|i: int| 0 <= i < before.len() ==> #[trigger] before[i] != '$',
        forall|i: int| 0 < i < rest.len() ==> #[trigger] rest[i] != '$',
        json_variant(values, rest) is None,
    ensures
        before_json(values, before + rest) == (before + rest).len(),
        rendered(values, before + rest, now) == filled(values, before + rest, now),
    decreases before.len(),
{
    reveal_placeholders();
    let whole = before + rest;
    if before.len() > 0 {
        let behind = before.skip(1);
        assert forall|i: int| 0 <= i < behind.len() implies #[trigger] behind[i] != '$' by {
            assert(behind[i] == before[i + 1]);
        }
        lemma_one_part(values, behind, rest, now);
        assert(whole[0] == before[0]);
        lemma_differs(whole, "$NAME_JSON"@, 0);
        lemma_differs(whole, "$MESSAGE_JSON"@, 0);
        lemma_differs(whole, "$TITLE_JSON"@, 0);
        assert(whole.skip(1) =~= behind + rest);
    } else {
        assert(whole =~= rest);
        if rest.len() > 0 {
            let behind = rest.skip(1);
            assert forall|i: int| 0 <= i < behind.len() implies #[trigger] behind[i] != '$' by {
                assert(behind[i] == rest[i + 1]);
            }
            lemma_no_placeholder(values, behind, now);
        }
    }
    assert(whole.skip(whole.len() as int) =~= Seq::empty());
}

/// Nothing is filled in a text without a dollar sign.
proof fn lemma_nothing_left(s: Seq<char>, pat: Seq<char>, with: Seq<char>)
    requires
        forall|i: int| 0 <= i < s.len() ==> #[trigger] s[i] != '$',
        pat.len() > 0,
        pat[0] == '$',
    ensures
        text::replaced(s, pat, with) == s,
{
    text::lemma_nothing_to_replace(s, pat, with);
}

/// `$NAME` in a template is filled with what it stands for.
pub proof fn law_name_is_filled_in(
    values: Values,
    before: Seq<char>,
    after: Seq<char>,
    now: int,
)
    requires
        forall|i: int| 0 <= i < before.len() ==> #[trigger] before[i] != '$',
        forall|i: int| 0 <= i < after.len() ==> #[trigger] after[i] != '$',
        forall|i: int| 0 <= i < values.name.len() ==> #[trigger] values.name[i] != '$',
        after.len() >= 5 ==> after.take(5) != "_JSON"@,
    ensures
        rendered(values, before + "$NAME"@ + after, now) == before + values.name + after,
{
    reveal_placeholders();
    let name = "$NAME"@;
    let rest = name + after;
    let whole = before + name + after;
    let put = values.name;
    let done = before + put + after;
    assert(before + rest =~= whole);
    assert forall|i: int| 0 < i < rest.len() implies #[trigger] rest[i] != '$' by {
        if i >= name.len() {
            assert(rest[i] == after[i - name.len()]);
        }
    }
    assert forall|i: int| 0 <= i < done.len() implies #[trigger] done[i] != '$' by {
        if i < before.len() {
            assert(done[i] == before[i]);
        } else if i < before.len() + put.len() {
            assert(done[i] == put[i - before.len()]);
        } else {
            assert(done[i] == after[i - before.len() - put.len()]);
        }
    }
    assert(!text::occurs_at(rest, "$NAME_JSON"@, 0)) by {
        reveal_strlit("_JSON");
        if text::occurs_at(rest, "$NAME_JSON"@, 0) {
            assert(rest.subrange(0, 10) == "$NAME_JSON"@);
            assert(after.take(5) =~= "_JSON"@) by {
                assert forall|i: int| 0 <= i < 5 implies after[i] == "_JSON"@[i] by {
                    assert(rest.subrange(0, 10)[i + 5] == after[i]);
                }
            }
        }
    }
    lemma_differs(rest, "$MESSAGE_JSON"@, 1);
    lemma_differs(rest, "$TITLE_JSON"@, 1);
    lemma_one_part(values, before, rest, now);
    lemma_replaced_at_dollar(before, name, after, "$NAME"@, values.name);
    lemma_nothing_left(done, "$MESSAGE"@, values.message);
    lemma_nothing_left(done, "$TITLE"@, values.title);
    lemma_nothing_left(done, "$UUID"@, values.uuid);
    lemma_nothing_left(done, "$STATUS"@, values.status);
    lemma_nothing_left(done, "$TAGS"@, values.tags);
    lemma_nothing_left(done, "$URL"@, values.url);
    lemma_nothing_left(done, "$NOW"@, model::ts_text(now));
}

/// `$MESSAGE` in a template is filled with what it stands for.
pub proof fn law_message_is_filled_in(
    values: Values,
    before: Seq<char>,
    after: Seq<char>,
    now: int,
)
    requires
        forall|i: int| 0 <= i < before.len() ==> #[trigger] before[i] != '$',
        forall|i: int| 0 <= i < after.len() ==> #[trigger] after[i] != '$',
        forall|i: int| 0 <= i < values.message.len() ==> #[trigger] values.message[i] != '$',
        after.len() >= 5 ==> after.take(5) != "_JSON"@,
    ensures
        rendered(values, before + "$MESSAGE"@ + after, now) == before + values.message + after,
{
    reveal_placeholders();
    let name = "$MESSAGE"@;
    let rest = name + after;
    let whole = before + name + after;
    let put = values.message;
    let done = before + put + after;
    assert(before + rest =~= whole);
    assert forall|i: int| 0 < i < rest.len() implies #[trigger] rest[i] != '$' by {
        if i >= name.len() {
            assert(rest[i] == after[i - name.len()]);
        }
    }
    assert forall|i: int| 0 <= i < done.len() implies #[trigger] done[i] != '$' by {
        if i < before.len() {
            assert(done[i] == before[i]);
        } else if i < before.len() + put.len() {
            assert(done[i] == put[i - before.len()]);
        } else {
            assert(done[i] == after[i - before.len() - put.len()]);
        }
    }
    lemma_differs(rest, "$NAME_JSON"@, 1);
    assert(!text::occurs_at(rest, "$MESSAGE_JSON"@, 0)) by {
        reveal_strlit("_JSON");
        if text::occurs_at(rest, "$MESSAGE_JSON"@, 0) {
            assert(rest.subrange(0, 13) == "$MESSAGE_JSON"@);
            assert(after.take(5) =~= "_JSON"@) by {
                assert forall|i: int| 0 <= i < 5 implies after[i] == "_JSON"@[i] by {
                    assert(rest.subrange(0, 13)[i + 8] == after[i]);
                }
            }
        }
    }
    lemma_differs(rest, "$TITLE_JSON"@, 1);
    lemma_one_part(values, before, rest, now);
    lemma_differs(rest, "$NAME"@, 1);
    assert("$NAME"@ != name) by {
        assert("$NAME"@[1] != name[1]);
    }
    lemma_replaced_at_dollar(before, name, after, "$NAME"@, values.name);
    lemma_replaced_at_dollar(before, name, after, "$MESSAGE"@, values.message);
    lemma_nothing_left(done, "$TITLE"@, values.title);
    lemma_nothing_left(done, "$UUID"@, values.uuid);
    lemma_nothing_left(done, "$STATUS"@, values.status);
    lemma_nothing_left(done, "$TAGS"@, values.tags);
    lemma_nothing_left(done, "$URL"@, values.url);
    lemma_nothing_left(done, "$NOW"@, model::ts_text(now));
}

/// `$TITLE` in a template is filled with what it stands for.
pub proof fn law_title_is_filled_in(
    values: Values,
    before: Seq<char>,
    after: Seq<char>,
    now: int,
)
    requires
        forall|i: int| 0 <= i < before.len() ==> #[trigger] before[i] != '$',
        forall|i: int| 0 <= i < after.len() ==> #[trigger] after[i] != '$',
        forall|i: int| 0 <= i < values.title.len() ==> #[trigger] values.title[i] != '$',
        after.len() >= 5 ==> after.take(5) != "_JSON"@,
    ensures
        rendered(values, before + "$TITLE"@ + after, now) == before + values.title + after,
{
    reveal_placeholders();
    let name = "$TITLE"@;
    let rest = name + after;
    let whole = before + name + after;
    let put = values.title;
    let done = before + put + after;
    assert(before + rest =~= whole);
    assert forall|i: int| 0 < i < rest.len() implies #[trigger] rest[i] != '$' by {
        if i >= name.len() {
            assert(rest[i] == after[i - name.len()]);
        }
    }
    assert forall|i: int| 0 <= i < done.len() implies #[trigger] done[i] != '$' by {
        if i < before.len() {
            assert(done[i] == before[i]);
        } else if i < before.len() + put.len() {
            assert(done[i] == put[i - before.len()]);
        } else {
            assert(done[i] == after[i - before.len() - put.len()]);
        }
    }
    lemma_differs(rest, "$NAME_JSON"@, 1);
    lemma_differs(rest, "$MESSAGE_JSON"@, 1);
    assert(!text::occurs_at(rest, "$TITLE_JSON"@, 0)) by {
        reveal_strlit("_JSON");
        if text::occurs_at(rest, "$TITLE_JSON"@, 0) {
            assert(rest.subrange(0, 11) == "$TITLE_JSON"@);
            assert(after.take(5) =~= "_JSON"@) by {
                assert forall|i: int| 0 <= i < 5 implies after[i] == "_JSON"@[i] by {
                    assert(rest.subrange(0, 11)[i + 6] == after[i]);
                }
            }
        }
    }
    lemma_one_part(values, before, rest, now);
    lemma_differs(rest, "$NAME"@, 1);
    assert("$NAME"@ != name) by {
        assert("$NAME"@[1] != name[1]);
    }
    lemma_replaced_at_dollar(before, name, after, "$NAME"@, values.name);
    lemma_differs(rest, "$MESSAGE"@, 1);
    assert("$MESSAGE"@ != name) by {
        assert("$MESSAGE"@[1] != name[1]);
    }
    lemma_replaced_at_dollar(before, name, after, "$MESSAGE"@, values.message);
    lemma_replaced_at_dollar(before, name, after, "$TITLE"@, values.title);
    lemma_nothing_left(done, "$UUID"@, values.uuid);
    lemma_nothing_left(done, "$STATUS"@, values.status);
    lemma_nothing_left(done, "$TAGS"@, values.tags);
    lemma_nothing_left(done, "$URL"@, values.url);
    lemma_nothing_left(done, "$NOW"@, model::ts_text(now));
}

/// `$UUID` in a template is filled with what it stands for.
pub proof fn law_uuid_is_filled_in(
    values: Values,
    before: Seq<char>,
    after: Seq<char>,
    now: int,
)
    requires
        forall|i: int| 0 <= i < before.len() ==> #[trigger] before[i] != '$',
        forall|i: int| 0 <= i < after.len() ==> #[trigger] after[i] != '$',
        forall|i: int| 0 <= i < values.uuid.len() ==> #[trigger] values.uuid[i] != '$',
    ensures
        rendered(values, before + "$UUID"@ + after, now) == before + values.uuid + after,
{
    reveal_placeholders();
    let name = "$UUID"@;
    let rest = name + after;
    let whole = before + name + after;
    let put = values.uuid;
    let done = before + put + after;
    assert(before + rest =~= whole);
    assert forall|i: int| 0 < i < rest.len() implies #[trigger] rest[i] != '$' by {
        if i >= name.len() {
            assert(rest[i] == after[i - name.len()]);
        }
    }
    assert forall|i: int| 0 <= i < done.len() implies #[trigger] done[i] != '$' by {
        if i < before.len() {
            assert(done[i] == before[i]);
        } else if i < before.len() + put.len() {
            assert(done[i] == put[i - before.len()]);
        } else {
            assert(done[i] == after[i - before.len() - put.len()]);
        }
    }
    lemma_differs(rest, "$NAME_JSON"@, 1);
    lemma_differs(rest, "$MESSAGE_JSON"@, 1);
    lemma_differs(rest, "$TITLE_JSON"@, 1);
    lemma_one_part(values, before, rest, now);
    lemma_differs(rest, "$NAME"@, 1);
    assert("$NAME"@ != name) by {
        assert("$NAME"@[1] != name[1]);
    }
    lemma_replaced_at_dollar(before, name, after, "$NAME"@, values.name);
    lemma_differs(rest, "$MESSAGE"@, 1);
    assert("$MESSAGE"@ != name) by {
        assert("$MESSAGE"@[1] != name[1]);
    }
    lemma_replaced_at_dollar(before, name, after, "$MESSAGE"@, values.message);
    lemma_differs(rest, "$TITLE"@, 1);
    assert("$TITLE"@ != name) by {
        assert("$TITLE"@[1] != name[1]);
    }
    lemma_replaced_at_dollar(before, name, after, "$TITLE"@, values.title);
    lemma_replaced_at_dollar(before, name, after, "$UUID"@, values.uuid);
    lemma_nothing_left(done, "$STATUS"@, values.status);
    lemma_nothing_left(done, "$TAGS"@, values.tags);
    lemma_nothing_left(done, "$URL"@, values.url);
    lemma_nothing_left(done, "$NOW"@, model::ts_text(now));
}

/// `$STATUS` in a template is filled with what it stands for.
pub proof fn law_status_is_filled_in(
    values: Values,
    before: Seq<char>,
    after: Seq<char>,
    now: int,
)
    requires
        forall|i: int| 0 <= i < before.len() ==> #[trigger] before[i] != '$',
        forall|i: int| 0 <= i < after.len() ==> #[trigger] after[i] != '$',
        forall|i: int| 0 <= i < values.status.len() ==> #[trigger] values.status[i] != '$',
    ensures
        rendered(values, before + "$STATUS"@ + after, now) == before + values.status + after,
{
    reveal_placeholders();
    let name = "$STATUS"@;
    let rest = name + after;
    let whole = before + name + after;
    let put = values.status;
    let done = before + put + after;
    assert(before + rest =~= whole);
    assert forall|i: int| 0 < i < rest.len() implies #[trigger] rest[i] != '$' by {
        if i >= name.len() {
            assert(rest[i] == after[i - name.len()]);
        }
    }
    assert forall|i: int| 0 <= i < done.len() implies #[trigger] done[i] != '$' by {
        if i < before.len() {
            assert(done[i] == before[i]);
        } else if i < before.len() + put.len() {
            assert(done[i] == put[i - before.len()]);
        } else {
            assert(done[i] == after[i - before.len() - put.len()]);
        }
    }
    lemma_differs(rest, "$NAME_JSON"@, 1);
    lemma_differs(rest, "$MESSAGE_JSON"@, 1);
    lemma_differs(rest, "$TITLE_JSON"@, 1);
    lemma_one_part(values, before, rest, now);
    lemma_differs(rest, "$NAME"@, 1);
    assert("$NAME"@ != name) by {
        assert("$NAME"@[1] != name[1]);
    }
    lemma_replaced_at_dollar(before, name, after, "$NAME"@, values.name);
    lemma_differs(rest, "$MESSAGE"@, 1);
    assert("$MESSAGE"@ != name) by {
        assert("$MESSAGE"@[1] != name[1]);
    }
    lemma_replaced_at_dollar(before, name, after, "$MESSAGE"@, values.message);
    lemma_differs(rest, "$TITLE"@, 1);
    assert("$TITLE"@ != name) by {
        assert("$TITLE"@[1] != name[1]);
    }
    lemma_replaced_at_dollar(before, name, after, "$TITLE"@, values.title);
    lemma_differs(rest, "$UUID"@, 1);
    assert("$UUID"@ != name) by {
        assert("$UUID"@[1] != name[1]);
    }
    lemma_replaced_at_dollar(before, name, after, "$UUID"@, values.uuid);
    lemma_replaced_at_dollar(before, name, after, "$STATUS"@, values.status);
    lemma_nothing_left(done, "$TAGS"@, values.tags);
    lemma_nothing_left(done, "$URL"@, values.url);
    lemma_nothing_left(done, "$NOW"@, model::ts_text(now));
}

/// `$TAGS` in a template is filled with what it stands for.
pub proof fn law_tags_is_filled_in(
    values: Values,
    before: Seq<char>,
    after: Seq<char>,
    now: int,
)
    requires
        forall|i: int| 0 <= i < before.len() ==> #[trigger] before[i] != '$',
        forall|i: int| 0 <= i < after.len() ==> #[trigger] after[i] != '$',
        forall|i: int| 0 <= i < values.tags.len() ==> #[trigger] values.tags[i] != '$',
    ensures
        rendered(values, before + "$TAGS"@ + after, now) == before + values.tags + after,
{
    reveal_placeholders();
    let name = "$TAGS"@;
    let rest = name + after;
    let whole = before + name + after;
    let put = values.tags;
    let done = before + put + after;
    assert(before + rest =~= whole);
    assert forall|i: int| 0 < i < rest.len() implies #[trigger] rest[i] != '$' by {
        if i >= name.len() {
            assert(rest[i] == after[i - name.len()]);
        }
    }
    assert forall|i: int| 0 <= i < done.len() implies #[trigger] done[i] != '$' by {
        if i < before.len() {
            assert(done[i] == before[i]);
        } else if i < before.len() + put.len() {
            assert(done[i] == put[i - before.len()]);
        } else {
            assert(done[i] == after[i - before.len() - put.len()]);
        }
    }
    lemma_differs(rest, "$NAME_JSON"@, 1);
    lemma_differs(rest, "$MESSAGE_JSON"@, 1);
    lemma_differs(rest, "$TITLE_JSON"@, 2);
    lemma_one_part(values, before, rest, now);
    lemma_differs(rest, "$NAME"@, 1);
    assert("$NAME"@ != name) by {
        assert("$NAME"@[1] != name[1]);
    }
    lemma_replaced_at_dollar(before, name, after, "$NAME"@, values.name);
    lemma_differs(rest, "$MESSAGE"@, 1);
    assert("$MESSAGE"@ != name) by {
        assert("$MESSAGE"@[1] != name[1]);
    }
    lemma_replaced_at_dollar(before, name, after, "$MESSAGE"@, values.message);
    lemma_differs(rest, "$TITLE"@, 2);
    assert("$TITLE"@ != name) by {
        assert("$TITLE"@[2] != name[2]);
    }
    lemma_replaced_at_dollar(before, name, after, "$TITLE"@, values.title);
    lemma_differs(rest, "$UUID"@, 1);
    assert("$UUID"@ != name) by {
        assert("$UUID"@[1] != name[1]);
    }
    lemma_replaced_at_dollar(before, name, after, "$UUID"@, values.uuid);
    lemma_differs(rest, "$STATUS"@, 1);
    assert("$STATUS"@ != name) by {
        assert("$STATUS"@[1] != name[1]);
    }
    lemma_replaced_at_dollar(before, name, after, "$STATUS"@, values.status);
    lemma_replaced_at_dollar(before, name, after, "$TAGS"@, values.tags);
    lemma_nothing_left(done, "$URL"@, values.url);
    lemma_nothing_left(done, "$NOW"@, model::ts_text(now));
}

/// `$URL` in a template is filled with what it stands for.
pub proof fn law_url_is_filled_in(
    values: Values,
    before: Seq<char>,
    after: Seq<char>,
    now: int,
)
    requires
        forall|i: int| 0 <= i < before.len() ==> #[trigger] before[i] != '$',
        forall|i: int| 0 <= i < after.len() ==> #[trigger] after[i] != '$',
        forall|i: int| 0 <= i < values.url.len() ==> #[trigger] values.url[i] != '$',
    ensures
        rendered(values, before + "$URL"@ + after, now) == before + values.url + after,
{
    reveal_placeholders();
    let name = "$URL"@;
    let rest = name + after;
    let whole = before + name + after;
    let put = values.url;
    let done = before + put + after;
    assert(before + rest =~= whole);
    assert forall|i: int| 0 < i < rest.len() implies #[trigger] rest[i] != '$' by {
        if i >= name.len() {
            assert(rest[i] == after[i - name.len()]);
        }
    }
    assert forall|i: int| 0 <= i < done.len() implies #[trigger] done[i] != '$' by {
        if i < before.len() {
            assert(done[i] == before[i]);
        } else if i < before.len() + put.len() {
            assert(done[i] == put[i - before.len()]);
        } else {
            assert(done[i] == after[i - before.len() - put.len()]);
        }
    }
    lemma_differs(rest, "$NAME_JSON"@, 1);
    lemma_differs(rest, "$MESSAGE_JSON"@, 1);
    lemma_differs(rest, "$TITLE_JSON"@, 1);
    lemma_one_part(values, before, rest, now);
    lemma_differs(rest, "$NAME"@, 1);
    assert("$NAME"@ != name) by {
        assert("$NAME"@[1] != name[1]);
    }
    lemma_replaced_at_dollar(before, name, after, "$NAME"@, values.name);
    lemma_differs(rest, "$MESSAGE"@, 1);
    assert("$MESSAGE"@ != name) by {
        assert("$MESSAGE"@[1] != name[1]);
    }
    lemma_replaced_at_dollar(before, name, after, "$MESSAGE"@, values.message);
    lemma_differs(rest, "$TITLE"@, 1);
    assert("$TITLE"@ != name) by {
        assert("$TITLE"@[1] != name[1]);
    }
    lemma_replaced_at_dollar(before, name, after, "$TITLE"@, values.title);
    lemma_differs(rest, "$UUID"@, 2);
    assert("$UUID"@ != name) by {
        assert("$UUID"@[2] != name[2]);
    }
    lemma_replaced_at_dollar(before, name, after, "$UUID"@, values.uuid);
    lemma_differs(rest, "$STATUS"@, 1);
    assert("$STATUS"@ != name) by {
        assert("$STATUS"@[1] != name[1]);
    }
    lemma_replaced_at_dollar(before, name, after, "$STATUS"@, values.status);
    lemma_differs(rest, "$TAGS"@, 1);
    assert("$TAGS"@ != name) by {
        assert("$TAGS"@[1] != name[1]);
    }
    lemma_replaced_at_dollar(before, name, after, "$TAGS"@, values.tags);
    lemma_replaced_at_dollar(before, name, after, "$URL"@, values.url);
    lemma_nothing_left(done, "$NOW"@, model::ts_text(now));
}

/// `$NOW` in a template is filled with what it stands for.
pub proof fn law_now_is_filled_in(
    values: Values,
    before: Seq<char>,
    after: Seq<char>,
    now: int,
)
    requires
        forall|i: int| 0 <= i < before.len() ==> #[trigger] before[i] != '$',
        forall|i: int| 0 <= i < after.len() ==> #[trigger] after[i] != '$',
        forall|i: int| 0 <= i < model::ts_text(now).len() ==> #[trigger] model::ts_text(now)[i] != '$',
    ensures
        rendered(values, before + "$NOW"@ + after, now) == before + model::ts_text(now) + after,
{
    reveal_placeholders();
    let name = "$NOW"@;
    let rest = name + after;
    let whole = before + name + after;
    let put = model::ts_text(now);
    let done = before + put + after;
    assert(before + rest =~= whole);
    assert forall|i: int| 0 < i < rest.len() implies #[trigger] rest[i] != '$' by {
        if i >= name.len() {
            assert(rest[i] == after[i - name.len()]);
        }
    }
    assert forall|i: int| 0 <= i < done.len() implies #[trigger] done[i] != '$' by {
        if i < before.len() {
            assert(done[i] == before[i]);
        } else if i < before.len() + put.len() {
            assert(done[i] == put[i - before.len()]);
        } else {
            assert(done[i] == after[i - before.len() - put.len()]);
        }
    }
    lemma_differs(rest, "$NAME_JSON"@, 2);
    lemma_differs(rest, "$MESSAGE_JSON"@, 1);
    lemma_differs(rest, "$TITLE_JSON"@, 1);
    lemma_one_part(values, before, rest, now);
    lemma_differs(rest, "$NAME"@, 2);
    assert("$NAME"@ != name) by {
        assert("$NAME"@[2] != name[2]);
    }
    lemma_replaced_at_dollar(before, name, after, "$NAME"@, values.name);
    lemma_differs(rest, "$MESSAGE"@, 1);
    assert("$MESSAGE"@ != name) by {
        assert("$MESSAGE"@[1] != name[1]);
    }
    lemma_replaced_at_dollar(before, name, after, "$MESSAGE"@, values.message);
    lemma_differs(rest, "$TITLE"@, 1);
    assert("$TITLE"@ != name) by {
        assert("$TITLE"@[1] != name[1]);
    }
    lemma_replaced_at_dollar(before, name, after, "$TITLE"@, values.title);
    lemma_differs(rest, "$UUID"@, 1);
    assert("$UUID"@ != name) by {
        assert("$UUID"@[1] != name[1]);
    }
    lemma_replaced_at_dollar(before, name, after, "$UUID"@, values.uuid);
    lemma_differs(rest, "$STATUS"@, 1);
    assert("$STATUS"@ != name) by {
        assert("$STATUS"@[1] != name[1]);
    }
    lemma_replaced_at_dollar(before, name, after, "$STATUS"@, values.status);
    lemma_differs(rest, "$TAGS"@, 1);
    assert("$TAGS"@ != name) by {
        assert("$TAGS"@[1] != name[1]);
    }
    lemma_replaced_at_dollar(before, name, after, "$TAGS"@, values.tags);
    lemma_differs(rest, "$URL"@, 1);
    assert("$URL"@ != name) by {
        assert("$URL"@[1] != name[1]);
    }
    lemma_replaced_at_dollar(before, name, after, "$URL"@, values.url);
    lemma_replaced_at_dollar(before, name, after, "$NOW"@, model::ts_text(now));
}

// --------------------------------------------------- laws on stored settings

/// The headers of a webhook are stored as the members of an object, one after
/// the other.
pub proof fn law_members_are_joined(list: Seq<(Seq<char>, Seq<char>)>)
    ensures
        json_members(list) == text::joined(
            list.map_values(
                |p: (Seq<char>, Seq<char>)|
                    outside::json_string(p.0) + ":"@ + outside::json_string(p.1),
            ),
            ","@,
        ),
    decreases list.len(),
{
    let member = |p: (Seq<char>, Seq<char>)|
        outside::json_string(p.0) + ":"@ + outside::json_string(p.1);
    let all = list.map_values(member);
    if list.len() > 0 {
        law_members_are_joined(list.drop_last());
        assert(all.drop_last() =~= list.drop_last().map_values(member));
        assert(all.last() == member(list.last()));
        if list.len() == 1 {
            assert(all[0] == member(list.last()));
            assert(json_members(list) =~= all[0]);
        } else {
            assert(json_members(list) =~= text::joined(all, ","@));
        }
    }
}

/// What is stored of a channel holds every one of its settings.
pub proof fn law_settings_are_stored(config: ChannelConfig)
    ensures
        match config {
            ChannelConfig::Webhook(cfg) => config_text(config) == "{\"body\":"@ + (match cfg.body {
                Some(body) => outside::json_string(body@),
                None => "null"@,
            }) + ",\"headers\":{"@ + json_members(fields::arranged(fields::pairs(cfg.headers@)))
                + "},\"method\":"@ + (match cfg.method {
                Some(method) => outside::json_string(method@),
                None => "null"@,
            }) + ",\"url\":"@ + outside::json_string(cfg.url@) + "}"@,
            ChannelConfig::Ntfy(cfg) => config_text(config) == "{\"priority\":"@ + (
            match cfg.priority {
                Some(priority) => text::decimal(priority as int),
                None => "null"@,
            }) + ",\"server\":"@ + outside::json_string(cfg.server@) + ",\"token\":"@ + (
            match cfg.token {
                Some(token) => outside::json_string(token@),
                None => "null"@,
            }) + ",\"topic\":"@ + outside::json_string(cfg.topic@) + "}"@,
        },
        config.kind_of() == match config {
            ChannelConfig::Webhook(_) => ChannelKind::Webhook,
            ChannelConfig::Ntfy(_) => ChannelKind::Ntfy,
        },
{
}

/// A test alert is about a check that is down and that carries the name of the
/// channel.
pub proof fn law_test_alert_names_its_channel(check: Check, name: Seq<char>, site: Seq<char>, ts: int)
    requires
        is_sample(check, name, ts),
        i64::MIN + 3600 <= ts <= i64::MAX,
    ensures
        ({
            let values = values_for(check, Event::Down, site, ts);
            &&& values.name == "canari test ("@ + name + ")"@
            &&& values.title == "canari test ("@ + name + ")"@ + " is DOWN"@
            &&& values.status == "down"@
            &&& values.tags == "test"@
            &&& check.last_ping_at matches Some(t) && t == ts - 3600
            &&& check.status == Status::Down
        }),
{
}

/// A request says what it says, and what is made of settings that cannot be used
/// is not tried again.
pub proof fn law_requests_say_what_they_say(
    request: HttpRequest,
    error: SendError,
    call: Result<Outgoing, Seq<char>>,
)
    ensures
        request@.method == request.method@,
        request@.url == request.url@,
        request@.headers.len() == request.headers@.len(),
        forall|i: int|
            0 <= i < request.headers@.len() ==> #[trigger] request@.headers[i] == (
                request.headers@[i].0@,
                request.headers@[i].1@,
            ),
        request@.body is Some == request.body is Some,
        request.body matches Some(body) ==> request@.body->0 == body@,
        request@.bearer is Some == request.bearer is Some,
        request.bearer matches Some(token) ==> request@.bearer->0 == token@,
        is_call(Ok(request), call) <==> call == Ok::<Outgoing, Seq<char>>(request@),
        is_call(Err(error), call) <==> !error.retryable && call == Err::<Outgoing, Seq<char>>(
            error.message@,
        ),
{
}

/// The values for templates are those of the check and the event.
pub proof fn law_values_are_the_checks(vars: Vars)
    ensures
        vars@.name == vars.check.name@,
        vars@.uuid == vars.check.uuid@,
        vars@.tags == vars.check.tags@,
        vars@.status == if vars.event == Event::Down {
            "down"@
        } else {
            "up"@
        },
        vars@.title == vars.title@,
        vars@.message == vars.message@,
        vars@.url == vars.url@,
        vars@.last_ping == vars.check.last_ping_at,
        vars@.schedule == vars.check.summary(),
{
}

/// An age can be told exactly where it fits 64 bits.
pub proof fn law_which_ages_fit(check: Check, ts: int)
    ensures
        age_fits(check, ts) <==> (check.last_ping_at matches Some(t) ==> i64::MIN <= ts - t
            <= i64::MAX),
        age_always_fits(check) ==> 0 <= ts <= outside::CALENDAR_LAST ==> age_fits(check, ts),
        check.last_ping_at is None ==> age_always_fits(check),
        check.last_ping_at matches Some(t) ==> t >= 0 ==> age_always_fits(check),
{
}

/// An error and its causes are told from the outside in: a cause that says
/// something new follows what came before, and one that does not is left out.
pub proof fn law_causes_follow(messages: Seq<Seq<char>>, cause: Seq<char>)
    requires
        messages.len() > 0,
    ensures
        (exists|i: int|
            0 <= i < new_links(messages).len() && text::occurs(
                #[trigger] new_links(messages)[i],
                cause,
            )) ==> chain_text(messages.push(cause)) == chain_text(messages),
        (forall|i: int|
            0 <= i < new_links(messages).len() ==> !text::occurs(
                #[trigger] new_links(messages)[i],
                cause,
            )) ==> chain_text(messages.push(cause)) == chain_text(messages) + ": "@ + cause,
{
    assert(messages.push(cause).drop_last() =~= messages);
    let links = new_links(messages);
    lemma_said(messages, 0);
    assert(links.len() > 0);
    assert(links.push(cause).drop_last() =~= links);
}

} // verus!
