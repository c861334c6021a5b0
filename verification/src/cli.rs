//! The command line: what it asks for and what it prints.

use vstd::prelude::*;

use crate::config;
use crate::error::Error;
use crate::fields;
use crate::model;
use crate::model::{Check, CheckKind};
use crate::notify::{ChannelConfig, NewChannel, NtfyConfig, SendError, WebhookConfig};
use crate::outside;
use crate::schedule;
use crate::store::{Channel, NewCheck, Ping};
use crate::text;
use crate::web::api::CheckPayload;
use crate::web::ui;

verus! {

/// What to do.
#[derive(Debug)]
pub enum Command {
    /// Run the HTTP server (default when no command is given).
    Serve,
    /// Manage checks without going through the web interface.
    Check(CheckCmd),
    /// Manage notification channels.
    Channel(ChannelCmd),
    /// Operator account and instance settings.
    Admin(AdminCmd),
}

/// What to do with the operator account.
#[derive(Debug)]
pub enum AdminCmd {
    /// Set the web interface password (prompts when not given inline).
    SetPassword {
        /// Password; omit to be prompted without echo.
        password: Option<String>,
    },
}

/// What to do with checks.
#[derive(Debug)]
pub enum CheckCmd {
    /// Create a check and print its ping URL.
    Add {
        /// Display name.
        name: String,
        /// Expected interval between pings, e.g. 5m, 1h30m, 1d.
        period: String,
        /// How late a ping may be before the check goes down.
        grace: String,
        /// Cron expression; replaces the period with a schedule.
        cron: Option<String>,
        /// Timezone the cron expression is evaluated in.
        tz: String,
        /// Space-separated tags.
        tags: String,
        description: String,
        /// Notification channel ids to attach.
        channels: Vec<i64>,
    },
    /// List checks and their current state.
    Ls,
    /// Show one check in detail, with its recent pings.
    Show {
        uuid: String,
        /// Number of pings to display.
        limit: i64,
    },
    /// Suspend monitoring for a check.
    Pause { uuid: String },
    /// Resume monitoring, giving the job a full period to report in.
    Resume { uuid: String },
    /// Send this check's alerts to a channel.
    Attach { uuid: String, channel_id: i64 },
    /// Stop sending this check's alerts to a channel.
    Detach { uuid: String, channel_id: i64 },
    /// Delete a check and its ping history.
    Rm { uuid: String },
}

/// What to do with notification channels.
#[derive(Debug)]
pub enum ChannelCmd {
    /// Add an HTTP webhook channel.
    AddWebhook {
        name: String,
        /// Target URL; placeholders such as $NAME and $UUID are substituted.
        url: String,
        method: String,
        /// Extra headers as "Name: value".
        headers: Vec<String>,
        /// Body template. Omit for canari's default JSON payload.
        body: Option<String>,
    },
    /// Add an ntfy channel.
    AddNtfy {
        name: String,
        topic: String,
        server: String,
        /// Access token for protected topics.
        token: Option<String>,
        /// Fixed priority (1-5); by default 4 for down and 3 for up.
        priority: Option<u8>,
    },
    /// List channels.
    Ls,
    /// Send a sample alert through a channel.
    Test { id: i64 },
    /// Delete a channel.
    Rm { id: i64 },
}

/// The log filter for a command: one-shot commands print their own output; the
/// server logs.
pub fn default_filter(command: &Option<Command>) -> (r: &'static str)
    ensures
        r@ == match *command {
            Some(Command::Check(_)) | Some(Command::Channel(_)) | Some(Command::Admin(_)) => "warn"@,
            _ => "canari=info,tower_http=warn"@,
        },
{
    match command {
        Some(Command::Check(_)) | Some(Command::Channel(_)) | Some(Command::Admin(_)) => "warn",
        _ => "canari=info,tower_http=warn",
    }
}

// --------------------------------------------------------------- new checks

/// Why arguments ask for no check, when they do not.
pub open spec fn check_refusal(period: Seq<char>, grace: Seq<char>) -> Option<Seq<char>> {
    match model::duration_of(period) {
        Err(e) => Some(e.text(period)),
        Ok(_) => match model::duration_of(grace) {
            Err(e) => Some(e.text(grace)),
            Ok(_) => None,
        },
    }
}

/// Whether a check has the durations that two texts give.
pub open spec fn has_durations(new: NewCheck, period: Seq<char>, grace: Seq<char>) -> bool {
    &&& model::duration_of(period) == Ok::<int, model::DurationError>(new.period_s as int)
    &&& model::duration_of(grace) == Ok::<int, model::DurationError>(new.grace_s as int)
}

/// Whether the durations among arguments that are looked at fit 64 bits.
pub open spec fn args_fit(period: Seq<char>, grace: Seq<char>) -> bool {
    model::duration_fits(period) && (model::duration_of(period) is Ok ==> model::duration_fits(
        grace,
    ))
}

/// Whether the durations among arguments that are looked at fit 64 bits.
pub fn can_read_args(period: &str, grace: &str) -> (r: bool)
    ensures
        r == args_fit(period@, grace@),
{
    if !model::fits(period) {
        return false;
    }
    match model::parse_duration(period) {
        Ok(_) => model::fits(grace),
        Err(_) => true,
    }
}

/// The check that arguments ask for, or why there is none. A cron expression
/// makes it a cron check.
pub fn new_check(
    name: &str,
    period: &str,
    grace: &str,
    cron: Option<&str>,
    tz: &str,
    tags: &str,
    description: &str,
) -> (r: Result<NewCheck, Error>)
    requires
        args_fit(period@, grace@),
    ensures
        match check_refusal(period@, grace@) {
            Some(why) => r matches Err(e) && e@ == why,
            None => {
                &&& r matches Ok(new)
                &&& new.name@ == name@
                &&& new.description@ == description@
                &&& new.tags@ == tags@
                &&& new.kind == if cron is Some {
                    CheckKind::Cron
                } else {
                    CheckKind::Simple
                }
                &&& has_durations(new, period@, grace@)
                &&& outside::text_of(new.cron_expr) == schedule::chars(cron)
                &&& new.tz@ == tz@
            },
        },
{
    let (kind, cron_expr) = match cron {
        Some(expr) => (CheckKind::Cron, Some(expr.to_owned())),
        None => (CheckKind::Simple, None),
    };
    let period_s: i64 = match model::parse_duration(period) {
        Ok(secs) => secs,
        Err(e) => {
            return Err(Error { message: e.message(period) });
        },
    };
    let grace_s: i64 = match model::parse_duration(grace) {
        Ok(secs) => secs,
        Err(e) => {
            return Err(Error { message: e.message(grace) });
        },
    };
    Ok(
        NewCheck {
            name: name.to_owned(),
            description: description.to_owned(),
            tags: tags.to_owned(),
            kind,
            period_s,
            grace_s,
            cron_expr,
            tz: tz.to_owned(),
        },
    )
}

// ------------------------------------------------------------ new channels

/// The headers that arguments give, "Name: value" each; a name that comes again
/// replaces its value. Otherwise, the first argument that is no header.
pub open spec fn headers_in(args: Seq<Seq<char>>) -> Result<
    Seq<(Seq<char>, Seq<char>)>,
    Seq<char>,
>
    decreases args.len(),
{
    if args.len() == 0 {
        Ok(Seq::empty())
    } else {
        match headers_in(args.drop_last()) {
            Err(arg) => Err(arg),
            Ok(list) => match text::cut(args.last(), ':') {
                Some((name, value)) => Ok(
                    fields::with_value(list, text::trimmed(name), text::trimmed(value)),
                ),
                None => Err(args.last()),
            },
        }
    }
}

/// Once an argument is no header, those after it do not matter.
proof fn lemma_first_bad_header(args: Seq<Seq<char>>, n: int)
    requires
        0 <= n <= args.len(),
        headers_in(args.take(n)) is Err,
    ensures
        headers_in(args) == headers_in(args.take(n)),
    decreases args.len() - n,
{
    if n < args.len() {
        assert(args.take(n + 1).drop_last() =~= args.take(n));
        lemma_first_bad_header(args, n + 1);
    } else {
        assert(args.take(n) =~= args);
    }
}

/// The webhook that arguments ask for, or why there is none.
pub fn new_webhook(
    name: &str,
    url: &str,
    method: &str,
    headers: &Vec<String>,
    body: Option<&str>,
) -> (r: Result<NewChannel, Error>)
    ensures
        match headers_in(text::views(headers@)) {
            Err(arg) => r matches Err(e) && e@ == "header "@ + outside::debug_text(arg)
                + " is not \"Name: value\""@,
            Ok(list) => {
                &&& r matches Ok(new)
                &&& new.name@ == name@
                &&& new.config matches ChannelConfig::Webhook(cfg)
                &&& cfg.url@ == url@
                &&& outside::text_of(cfg.method) == Some(method@)
                &&& fields::pairs(cfg.headers@) == list
                &&& outside::text_of(cfg.body) == schedule::chars(body)
            },
        },
{
    let ghost all = text::views(headers@);
    let mut list: Vec<(String, String)> = Vec::new();
    let mut i: usize = 0;
    assert(fields::pairs(list@) =~= Seq::empty());
    assert(all.take(0) =~= Seq::empty());
    while i < headers.len()
        invariant
            i <= headers@.len(),
            all == text::views(headers@),
            headers_in(all.take(i as int)) == Ok::<Seq<(Seq<char>, Seq<char>)>, Seq<char>>(
                fields::pairs(list@),
            ),
        decreases headers@.len() - i,
    {
        assert(all.take(i + 1).drop_last() =~= all.take(i as int));
        assert(all.take(i + 1).last() == headers@[i as int]@);
        match text::split_once(headers[i].as_str(), ':') {
            Some((key, value)) => {
                fields::put(&mut list, text::trim(key.as_str()), text::trim(value.as_str()));
            },
            None => {
                proof {
                    lemma_first_bad_header(all, i + 1);
                }
                let mut message = "header ".to_owned();
                message.append(outside::debug_str(headers[i].as_str()).as_str());
                message.append(" is not \"Name: value\"");
                return Err(Error { message });
            },
        }
        i = i + 1;
    }
    assert(all.take(i as int) =~= all);
    let body = match body {
        Some(body) => Some(body.to_owned()),
        None => None,
    };
    let config = ChannelConfig::Webhook(
        WebhookConfig {
            url: url.to_owned(),
            method: Some(method.to_owned()),
            headers: list,
            body,
        },
    );
    Ok(NewChannel { name: name.to_owned(), config })
}

/// The ntfy channel that arguments ask for.
pub fn new_ntfy(
    name: &str,
    topic: &str,
    server: &str,
    token: Option<&str>,
    priority: Option<u8>,
) -> (r: NewChannel)
    ensures
        r.name@ == name@,
        r.config is Ntfy,
        r.config matches ChannelConfig::Ntfy(cfg) ==> cfg.server@ == server@ && cfg.topic@
            == topic@ && outside::text_of(cfg.token) == schedule::chars(token) && cfg.priority
            == priority,
{
    let token = match token {
        Some(token) => Some(token.to_owned()),
        None => None,
    };
    let config = ChannelConfig::Ntfy(
        NtfyConfig { server: server.to_owned(), topic: topic.to_owned(), token, priority },
    );
    NewChannel { name: name.to_owned(), config }
}

// ------------------------------------------------------------------ output

/// A text in at most `max` characters, the last one an ellipsis when some were
/// left out.
pub open spec fn truncated(s: Seq<char>, max: int) -> Seq<char> {
    if s.len() <= max {
        s
    } else if max == 0 {
        "…"@
    } else {
        s.take(max - 1) + "…"@
    }
}

/// Shorten free-form text (user agents, ping bodies) for table output.
pub fn truncate(s: &str, max: usize) -> (r: String)
    ensures
        r@ == truncated(s@, max as int),
{
    let v = text::chars_of(s);
    if v.len() <= max {
        return s.to_owned();
    }
    let n: usize = if max == 0 {
        0
    } else {
        max - 1
    };
    let mut r = text::text_between(&v, 0, n);
    assert(r@ =~= s@.take(n as int));
    r.append("…");
    assert(max == 0 ==> r@ =~= "…"@);
    r
}

/// A label, a value, and the end of the line.
pub open spec fn line(label: Seq<char>, value: Seq<char>) -> Seq<char> {
    label + value + "\n"@
}

/// A label, a value, and the end of the line.
fn line_of(label: &str, value: &str) -> (r: String)
    ensures
        r@ == line(label@, value@),
{
    let mut r = label.to_owned();
    r.append(value);
    r.append("\n");
    r
}

/// Where a check is pinged.
pub open spec fn ping_url_of(check: Check, site_url: Seq<char>) -> Seq<char> {
    config::ping_base_of(site_url) + "/"@ + check.uuid@
}

/// Where a check is pinged.
fn ping_url(check: &Check, site_url: &str) -> (r: String)
    ensures
        r@ == ping_url_of(*check, site_url@),
{
    let mut r = config::ping_base(site_url);
    r.append("/");
    r.append(check.uuid.as_str());
    r
}

/// What is printed of a check that was just added.
pub open spec fn added_text(check: Check, site_url: Seq<char>) -> Seq<char> {
    line(""@, check.name@) + line("  schedule  "@, check.summary()) + line(
        "  ping url  "@,
        ping_url_of(check, site_url),
    )
}

/// What is printed of a check that was just added.
pub fn check_added(check: &Check, site_url: &str) -> (r: String)
    ensures
        r@ == added_text(*check, site_url@),
{
    let mut r = line_of("", check.name.as_str());
    r.append(line_of("  schedule  ", check.schedule_summary().as_str()).as_str());
    r.append(line_of("  ping url  ", ping_url(check, site_url).as_str()).as_str());
    r
}

/// Whether the times that are printed of a check fit 64 bits.
pub open spec fn print_fits(check: Check, now: int) -> bool {
    &&& check.last_ping_at matches Some(t) ==> schedule::in_i64(now - t)
    &&& check.alert_after matches Some(t) ==> t > now ==> schedule::in_i64(t - now)
}

/// Whether the times that are printed of a check fit 64 bits.
pub fn can_print(check: &Check, now_ts: i64) -> (r: bool)
    ensures
        r == print_fits(*check, now_ts as int),
{
    let last = match check.last_ping_at {
        Some(t) => {
            let apart: i128 = now_ts as i128 - t as i128;
            i64::MIN as i128 <= apart && apart <= i64::MAX as i128
        },
        None => true,
    };
    let late = match check.alert_after {
        Some(t) => t <= now_ts || t as i128 - now_ts as i128 <= i64::MAX as i128,
        None => true,
    };
    last && late
}

/// When a check last reported, in the list.
pub open spec fn listed_last(check: Check, now: int) -> Seq<char> {
    match check.last_ping_at {
        Some(t) => model::duration_text(now - t) + " ago"@,
        None => "never"@,
    }
}

/// How long until a check is late, in the list.
pub open spec fn listed_late(check: Check, now: int) -> Seq<char> {
    match check.alert_after {
        Some(t) => if t > now {
            model::duration_text(t - now)
        } else {
            "overdue"@
        },
        None => "-"@,
    }
}

/// One line of the list of checks.
pub open spec fn check_columns(
    status: Seq<char>,
    name: Seq<char>,
    last: Seq<char>,
    late: Seq<char>,
    uuid: Seq<char>,
) -> Seq<char> {
    ""@ + text::padded(status, 7) + " "@ + text::padded(name, 24) + " "@ + text::padded(last, 12)
        + " "@ + text::padded(late, 12) + " "@ + uuid + "\n"@
}

/// One line of the list of checks.
fn check_line(status: &str, name: &str, last: &str, late: &str, uuid: &str) -> (r: String)
    ensures
        r@ == check_columns(status@, name@, last@, late@, uuid@),
{
    let mut r = "".to_owned();
    text::push_padded(&mut r, status, 7);
    r.append(" ");
    text::push_padded(&mut r, name, 24);
    r.append(" ");
    text::push_padded(&mut r, last, 12);
    r.append(" ");
    text::push_padded(&mut r, late, 12);
    r.append(" ");
    r.append(uuid);
    r.append("\n");
    r
}

/// The lines for some checks.
pub open spec fn check_lines(checks: Seq<Check>, now: int) -> Seq<char>
    decreases checks.len(),
{
    if checks.len() == 0 {
        ""@
    } else {
        let check = checks.last();
        check_lines(checks.drop_last(), now) + check_columns(
            check.status.word(),
            check.name@,
            listed_last(check, now),
            listed_late(check, now),
            check.uuid@,
        )
    }
}

/// The list of checks and their current state.
pub open spec fn checks_text(checks: Seq<Check>, now: int) -> Seq<char> {
    if checks.len() == 0 {
        "no checks yet — create one with `canari check add <name>`\n"@
    } else {
        check_columns("STATUS"@, "NAME"@, "LAST PING"@, "LATE IN"@, "UUID"@) + check_lines(
            checks,
            now,
        )
    }
}

/// The list of checks and their current state.
pub fn list_checks(checks: &Vec<Check>, now_ts: i64) -> (r: String)
    requires
        forall|i: int| 0 <= i < checks@.len() ==> print_fits(#[trigger] checks@[i], now_ts as int),
    ensures
        r@ == checks_text(checks@, now_ts as int),
{
    if checks.len() == 0 {
        return "no checks yet — create one with `canari check add <name>`\n".to_owned();
    }
    let mut lines = "".to_owned();
    let mut i: usize = 0;
    while i < checks.len()
        invariant
            i <= checks@.len(),
            lines@ == check_lines(checks@.take(i as int), now_ts as int),
            forall|k: int|
                0 <= k < checks@.len() ==> print_fits(#[trigger] checks@[k], now_ts as int),
        decreases checks@.len() - i,
    {
        assert(checks@.take(i + 1).drop_last() =~= checks@.take(i as int));
        let check = &checks[i];
        let last = match check.last_ping_at {
            Some(t) => {
                let mut s = model::format_duration(now_ts - t);
                s.append(" ago");
                s
            },
            None => "never".to_owned(),
        };
        let late = match check.alert_after {
            Some(t) => if t > now_ts {
                model::format_duration(t - now_ts)
            } else {
                "overdue".to_owned()
            },
            None => "-".to_owned(),
        };
        lines.append(
            check_line(
                check.status.as_str(),
                check.name.as_str(),
                last.as_str(),
                late.as_str(),
                check.uuid.as_str(),
            ).as_str(),
        );
        i = i + 1;
    }
    assert(checks@.take(i as int) =~= checks@);
    let mut r = check_line("STATUS", "NAME", "LAST PING", "LATE IN", "UUID");
    r.append(lines.as_str());
    r
}

/// A line, unless the value is empty.
pub open spec fn line_unless_empty(label: Seq<char>, value: Seq<char>) -> Seq<char> {
    if value.len() == 0 {
        ""@
    } else {
        line(label, value)
    }
}

/// A line, unless the value is empty.
fn optional_line(label: &str, value: &str) -> (r: String)
    ensures
        r@ == line_unless_empty(label@, value@),
{
    if value.unicode_len() == 0 {
        "".to_owned()
    } else {
        line_of(label, value)
    }
}

/// The line on when a check last reported.
pub open spec fn last_ping_line(check: Check, now: int) -> Seq<char> {
    match check.last_ping_at {
        Some(t) => line(
            "  last ping "@,
            model::ts_text(t as int) + " ("@ + model::duration_text(now - t) + " ago)"@,
        ),
        None => "  last ping never\n"@,
    }
}

/// The line on when a check is late.
pub open spec fn late_line(check: Check, now: int) -> Seq<char> {
    match check.alert_after {
        Some(t) => if t > now {
            line("  late in   "@, model::duration_text(t - now))
        } else {
            line("  overdue   since "@, model::ts_text(t as int))
        },
        None => "  late in   -\n"@,
    }
}

/// The line on a job that is running.
pub open spec fn running_line(check: Check) -> Seq<char> {
    match check.last_start_at {
        Some(started) => line("  running   since "@, model::ts_text(started as int)),
        None => ""@,
    }
}

/// The line on how long a job last took.
pub open spec fn duration_line(check: Check) -> Seq<char> {
    match check.last_duration_ms {
        Some(ms) => line("  duration  "@, ui::millis_text(ms as int)),
        None => ""@,
    }
}

/// A channel that a check is attached to.
pub open spec fn attached_text(channel: Channel) -> Seq<char> {
    channel.name@ + " (#"@ + text::decimal(channel.id as int) + ", "@ + channel.kind.word() + ")"@
}

/// The channels that a check is attached to.
pub open spec fn attached_texts(channels: Seq<Channel>) -> Seq<Seq<char>> {
    channels.map_values(|c: Channel| attached_text(c))
}

/// The line on where a check's alerts go.
pub open spec fn channels_line(channels: Seq<Channel>) -> Seq<char> {
    if channels.len() == 0 {
        "  channels  none — alerts go nowhere\n"@
    } else {
        line("  channels  "@, text::joined(attached_texts(channels), ", "@))
    }
}

/// The lines on a check itself.
pub open spec fn check_card(
    check: Check,
    channels: Seq<Channel>,
    site_url: Seq<char>,
    now: int,
) -> Seq<char> {
    (check.name@ + "  ["@ + check.status.word() + "]\n"@) + line_unless_empty(
        "  "@,
        check.description@,
    ) + line_unless_empty("  tags      "@, check.tags@) + line("  schedule  "@, check.summary())
        + line("  ping url  "@, ping_url_of(check, site_url)) + line(
        "  created   "@,
        model::ts_text(check.created_at as int),
    ) + line("  updated   "@, model::ts_text(check.updated_at as int)) + last_ping_line(check, now)
        + running_line(check) + duration_line(check) + late_line(check, now) + channels_line(
        channels,
    )
}

/// The line on when a check last reported.
fn print_last_ping(check: &Check, now_ts: i64) -> (r: String)
    requires
        print_fits(*check, now_ts as int),
    ensures
        r@ == last_ping_line(*check, now_ts as int),
{
    match check.last_ping_at {
        Some(t) => {
            let mut value = model::format_ts(t);
            value.append(" (");
            value.append(model::format_duration(now_ts - t).as_str());
            value.append(" ago)");
            line_of("  last ping ", value.as_str())
        },
        None => "  last ping never\n".to_owned(),
    }
}

/// The line on when a check is late.
fn print_late(check: &Check, now_ts: i64) -> (r: String)
    requires
        print_fits(*check, now_ts as int),
    ensures
        r@ == late_line(*check, now_ts as int),
{
    match check.alert_after {
        Some(t) => if t > now_ts {
            line_of("  late in   ", model::format_duration(t - now_ts).as_str())
        } else {
            line_of("  overdue   since ", model::format_ts(t).as_str())
        },
        None => "  late in   -\n".to_owned(),
    }
}

/// The line on where a check's alerts go.
fn print_channels(channels: &Vec<Channel>) -> (r: String)
    ensures
        r@ == channels_line(channels@),
{
    if channels.len() == 0 {
        return "  channels  none — alerts go nowhere\n".to_owned();
    }
    let mut names: Vec<String> = Vec::new();
    let mut i: usize = 0;
    while i < channels.len()
        invariant
            i <= channels@.len(),
            names@.len() == i,
            forall|k: int| 0 <= k < i ==> (#[trigger] names@[k])@ == attached_text(channels@[k]),
        decreases channels@.len() - i,
    {
        let channel = &channels[i];
        let mut name = channel.name.clone();
        name.append(" (#");
        text::push_int(&mut name, channel.id);
        name.append(", ");
        name.append(channel.kind.as_str());
        name.append(")");
        names.push(name);
        i = i + 1;
    }
    assert(text::views(names@) =~= attached_texts(channels@));
    line_of("  channels  ", text::join(&names, ", ").as_str())
}

/// The lines on a check itself.
fn print_card(check: &Check, channels: &Vec<Channel>, site_url: &str, now_ts: i64) -> (r: String)
    requires
        print_fits(*check, now_ts as int),
    ensures
        r@ == check_card(*check, channels@, site_url@, now_ts as int),
{
    let mut r = check.name.clone();
    r.append("  [");
    r.append(check.status.as_str());
    r.append("]\n");
    r.append(optional_line("  ", check.description.as_str()).as_str());
    r.append(optional_line("  tags      ", check.tags.as_str()).as_str());
    r.append(line_of("  schedule  ", check.schedule_summary().as_str()).as_str());
    r.append(line_of("  ping url  ", ping_url(check, site_url).as_str()).as_str());
    r.append(line_of("  created   ", model::format_ts(check.created_at).as_str()).as_str());
    r.append(line_of("  updated   ", model::format_ts(check.updated_at).as_str()).as_str());
    r.append(print_last_ping(check, now_ts).as_str());
    let running = match check.last_start_at {
        Some(started) => line_of("  running   since ", model::format_ts(started).as_str()),
        None => "".to_owned(),
    };
    r.append(running.as_str());
    let duration = match check.last_duration_ms {
        Some(ms) => line_of("  duration  ", ui::format_millis(ms).as_str()),
        None => "".to_owned(),
    };
    r.append(duration.as_str());
    r.append(print_late(check, now_ts).as_str());
    r.append(print_channels(channels).as_str());
    r
}

/// One line of a ping log.
pub open spec fn ping_columns(
    n: Seq<char>,
    when: Seq<char>,
    kind: Seq<char>,
    exit: Seq<char>,
    duration: Seq<char>,
    via: Seq<char>,
    from: Seq<char>,
    agent: Seq<char>,
) -> Seq<char> {
    ""@ + text::padded(n, 5) + " "@ + text::padded(when, 21) + " "@ + text::padded(kind, 8) + " "@
        + text::padded(exit, 5) + " "@ + text::padded(duration, 9) + " "@ + text::padded(via, 6)
        + " "@ + text::padded(from, 16) + " "@ + agent + "\n"@
}

/// One line of a ping log.
fn ping_line(
    n: &str,
    when: &str,
    kind: &str,
    exit: &str,
    duration: &str,
    via: &str,
    from: &str,
    agent: &str,
) -> (r: String)
    ensures
        r@ == ping_columns(n@, when@, kind@, exit@, duration@, via@, from@, agent@),
{
    let mut r = "".to_owned();
    text::push_padded(&mut r, n, 5);
    r.append(" ");
    text::push_padded(&mut r, when, 21);
    r.append(" ");
    text::push_padded(&mut r, kind, 8);
    r.append(" ");
    text::push_padded(&mut r, exit, 5);
    r.append(" ");
    text::push_padded(&mut r, duration, 9);
    r.append(" ");
    text::push_padded(&mut r, via, 6);
    r.append(" ");
    text::push_padded(&mut r, from, 16);
    r.append(" ");
    r.append(agent);
    r.append("\n");
    r
}

/// A text, or a dash.
pub open spec fn or_dash(s: Option<String>) -> Seq<char> {
    match s {
        Some(s) => s@,
        None => "-"@,
    }
}

/// A text, or a dash.
fn text_or_dash(s: &Option<String>) -> (r: &str)
    ensures
        r@ == or_dash(*s),
{
    match s {
        Some(s) => s.as_str(),
        None => "-",
    }
}

/// The first line of a text, if it has any.
pub open spec fn first_line(s: Seq<char>) -> Seq<char> {
    if text::lines_of(s).len() == 0 {
        ""@
    } else {
        text::lines_of(s)[0]
    }
}

/// What is printed of a ping.
pub open spec fn ping_text(ping: Ping) -> Seq<char> {
    ping_columns(
        text::decimal(ping.n as int),
        model::ts_text(ping.ts as int),
        ping.kind.word(),
        match ping.exit_code {
            Some(code) => text::decimal(code as int),
            None => "-"@,
        },
        match ping.duration_ms {
            Some(ms) => ui::millis_text(ms as int),
            None => "-"@,
        },
        or_dash(ping.method),
        or_dash(ping.remote_addr),
        truncated(or_dash(ping.user_agent), 32),
    ) + match ping.body {
        Some(body) => line("      body: "@, truncated(first_line(body@), 70)),
        None => ""@,
    }
}

/// What is printed of a ping.
fn print_ping(ping: &Ping) -> (r: String)
    ensures
        r@ == ping_text(*ping),
{
    let exit = match ping.exit_code {
        Some(code) => text::int_text(code),
        None => "-".to_owned(),
    };
    let duration = match ping.duration_ms {
        Some(ms) => ui::format_millis(ms),
        None => "-".to_owned(),
    };
    let mut r = ping_line(
        text::int_text(ping.n).as_str(),
        model::format_ts(ping.ts).as_str(),
        ping.kind.as_str(),
        exit.as_str(),
        duration.as_str(),
        text_or_dash(&ping.method),
        text_or_dash(&ping.remote_addr),
        truncate(text_or_dash(&ping.user_agent), 32).as_str(),
    );
    let body = match &ping.body {
        Some(body) => {
            let lines = text::split_lines(body.as_str());
            assert(text::views(lines@).len() == lines@.len());
            let first = if lines.len() == 0 {
                ""
            } else {
                assert(text::views(lines@)[0] == lines@[0]@);
                lines[0].as_str()
            };
            line_of("      body: ", truncate(first, 70).as_str())
        },
        None => "".to_owned(),
    };
    r.append(body.as_str());
    r
}

/// What is printed of some pings.
pub open spec fn ping_texts(pings: Seq<Ping>) -> Seq<char>
    decreases pings.len(),
{
    if pings.len() == 0 {
        ""@
    } else {
        ping_texts(pings.drop_last()) + ping_text(pings.last())
    }
}

/// The log of a check's recent pings.
pub open spec fn log_text(pings: Seq<Ping>) -> Seq<char> {
    if pings.len() == 0 {
        "\nno pings yet\n"@
    } else {
        "\n"@ + ping_columns(
            "#"@,
            "WHEN"@,
            "KIND"@,
            "EXIT"@,
            "DURATION"@,
            "VIA"@,
            "FROM"@,
            "AGENT"@,
        ) + ping_texts(pings)
    }
}

/// The log of a check's recent pings.
fn print_log(pings: &Vec<Ping>) -> (r: String)
    ensures
        r@ == log_text(pings@),
{
    if pings.len() == 0 {
        return "\nno pings yet\n".to_owned();
    }
    let mut lines = "".to_owned();
    let mut i: usize = 0;
    while i < pings.len()
        invariant
            i <= pings@.len(),
            lines@ == ping_texts(pings@.take(i as int)),
        decreases pings@.len() - i,
    {
        assert(pings@.take(i + 1).drop_last() =~= pings@.take(i as int));
        lines.append(print_ping(&pings[i]).as_str());
        i = i + 1;
    }
    assert(pings@.take(i as int) =~= pings@);
    let mut r = "\n".to_owned();
    r.append(
        ping_line("#", "WHEN", "KIND", "EXIT", "DURATION", "VIA", "FROM", "AGENT").as_str(),
    );
    r.append(lines.as_str());
    r
}

/// One check in detail, with its recent pings.
pub fn show_check(
    check: &Check,
    channels: &Vec<Channel>,
    pings: &Vec<Ping>,
    site_url: &str,
    now_ts: i64,
) -> (r: String)
    requires
        print_fits(*check, now_ts as int),
    ensures
        r@ == check_card(*check, channels@, site_url@, now_ts as int) + log_text(pings@),
{
    let mut r = print_card(check, channels, site_url, now_ts);
    r.append(print_log(pings).as_str());
    r
}

/// One line of the list of channels.
pub open spec fn channel_columns(
    id: Seq<char>,
    kind: Seq<char>,
    name: Seq<char>,
    state: Seq<char>,
    added: Seq<char>,
    target: Seq<char>,
) -> Seq<char> {
    ""@ + text::padded(id, 5) + " "@ + text::padded(kind, 9) + " "@ + text::padded(name, 20) + " "@
        + text::padded(state, 9) + " "@ + text::padded(added, 12) + " "@ + target + "\n"@
}

/// One line of the list of channels.
fn channel_line(id: &str, kind: &str, name: &str, state: &str, added: &str, target: &str) -> (r:
    String)
    ensures
        r@ == channel_columns(id@, kind@, name@, state@, added@, target@),
{
    let mut r = "".to_owned();
    text::push_padded(&mut r, id, 5);
    r.append(" ");
    text::push_padded(&mut r, kind, 9);
    r.append(" ");
    text::push_padded(&mut r, name, 20);
    r.append(" ");
    text::push_padded(&mut r, state, 9);
    r.append(" ");
    text::push_padded(&mut r, added, 12);
    r.append(" ");
    r.append(target);
    r.append("\n");
    r
}

/// The date of an instant: the first ten characters of its text.
pub open spec fn date_text(ts: int) -> Seq<char> {
    if model::ts_text(ts).len() < 10 {
        model::ts_text(ts)
    } else {
        model::ts_text(ts).take(10)
    }
}

/// The date of an instant.
fn date(ts: i64) -> (r: String)
    ensures
        r@ == date_text(ts as int),
{
    let s = model::format_ts(ts);
    let v = text::chars_of(s.as_str());
    if v.len() < 10 {
        return s;
    }
    let r = text::text_between(&v, 0, 10);
    assert(r@ =~= s@.take(10));
    r
}

/// What is printed of a channel in the list.
pub open spec fn channel_text(channel: Channel) -> Seq<char> {
    channel_columns(
        text::decimal(channel.id as int),
        channel.kind.word(),
        truncated(channel.name@, 20),
        if channel.enabled {
            "enabled"@
        } else {
            "disabled"@
        },
        date_text(channel.created_at as int),
        truncated(ui::target_text(channel), 50),
    )
}

/// What is printed of some channels.
pub open spec fn channel_texts(channels: Seq<Channel>) -> Seq<char>
    decreases channels.len(),
{
    if channels.len() == 0 {
        ""@
    } else {
        channel_texts(channels.drop_last()) + channel_text(channels.last())
    }
}

/// The list of channels.
pub fn list_channels(channels: &Vec<Channel>) -> (r: String)
    ensures
        r@ == if channels@.len() == 0 {
            "no channels yet — alerts have nowhere to go\n"@
        } else {
            channel_columns("ID"@, "KIND"@, "NAME"@, "STATE"@, "ADDED"@, "TARGET"@)
                + channel_texts(channels@)
        },
{
    if channels.len() == 0 {
        return "no channels yet — alerts have nowhere to go\n".to_owned();
    }
    let mut lines = "".to_owned();
    let mut i: usize = 0;
    while i < channels.len()
        invariant
            i <= channels@.len(),
            lines@ == channel_texts(channels@.take(i as int)),
        decreases channels@.len() - i,
    {
        assert(channels@.take(i + 1).drop_last() =~= channels@.take(i as int));
        let channel = &channels[i];
        let state = if channel.enabled {
            "enabled"
        } else {
            "disabled"
        };
        lines.append(
            channel_line(
                text::int_text(channel.id).as_str(),
                channel.kind.as_str(),
                truncate(channel.name.as_str(), 20).as_str(),
                state,
                date(channel.created_at).as_str(),
                truncate(ui::describe_target(channel).as_str(), 50).as_str(),
            ).as_str(),
        );
        i = i + 1;
    }
    assert(channels@.take(i as int) =~= channels@);
    let mut r = channel_line("ID", "KIND", "NAME", "STATE", "ADDED", "TARGET");
    r.append(lines.as_str());
    r
}

/// What is printed of a channel that was just added; for ntfy, with its target.
pub open spec fn channel_added_text(channel: Channel, target: Option<(Seq<char>, Seq<char>)>) -> Seq<
    char,
> {
    ("channel #"@ + text::decimal(channel.id as int) + " "@ + channel.name@ + " ("@
        + channel.kind.word() + ")\n"@) + match target {
        Some((server, topic)) => "  target  "@ + text::trim_end_of(server, '/') + "/"@ + topic
            + "\n"@,
        None => ""@,
    }
}

/// What is printed of a channel that was just added, given the server and the
/// topic of an ntfy channel.
pub fn channel_added(channel: &Channel, target: Option<(&str, &str)>) -> (r: String)
    ensures
        r@ == channel_added_text(
            *channel,
            match target {
                Some((server, topic)) => Some((server@, topic@)),
                None => None,
            },
        ),
{
    let mut r = "channel #".to_owned();
    text::push_int(&mut r, channel.id);
    r.append(" ");
    r.append(channel.name.as_str());
    r.append(" (");
    r.append(channel.kind.as_str());
    r.append(")\n");
    let more = match target {
        Some((server, topic)) => {
            let mut s = "  target  ".to_owned();
            s.append(text::trim_end_char(server, '/').as_str());
            s.append("/");
            s.append(topic);
            s.append("\n");
            s
        },
        None => "".to_owned(),
    };
    r.append(more.as_str());
    r
}

// ---------------------------------------------------------------- outcomes

/// The words for a check that is not there.
pub open spec fn no_check_text(uuid: Seq<char>) -> Seq<char> {
    "no check with uuid "@ + uuid
}

/// The words for a channel that is not there.
pub open spec fn no_channel_text(id: int) -> Seq<char> {
    "no channel with id "@ + text::decimal(id)
}

/// A result whose texts are strings, by their characters.
pub open spec fn texts(r: Result<String, Error>) -> Result<Seq<char>, Seq<char>> {
    match r {
        Ok(s) => Ok(s@),
        Err(e) => Err(e@),
    }
}

/// What is printed of something done to a check, or that it is not there.
pub open spec fn done_text(done: Seq<char>, uuid: Seq<char>, found: bool) -> Result<
    Seq<char>,
    Seq<char>,
> {
    if found {
        Ok(line(done, uuid))
    } else {
        Err(no_check_text(uuid))
    }
}

/// The refusal for a check that is not there.
pub fn no_check(uuid: &str) -> (r: Error)
    ensures
        r@ == no_check_text(uuid@),
{
    let mut message = "no check with uuid ".to_owned();
    message.append(uuid);
    Error { message }
}

/// The refusal for a channel that is not there.
pub fn no_channel(id: i64) -> (r: Error)
    ensures
        r@ == no_channel_text(id as int),
{
    let mut message = "no channel with id ".to_owned();
    text::push_int(&mut message, id);
    Error { message }
}

/// What is printed of something done to a check, or that it is not there.
fn done_to_check(done: &str, uuid: &str, found: bool) -> (r: Result<String, Error>)
    ensures
        texts(r) == done_text(done@, uuid@, found),
{
    if found {
        Ok(line_of(done, uuid))
    } else {
        Err(no_check(uuid))
    }
}

/// What is printed of a check that was paused, given whether it was there.
pub fn check_paused(uuid: &str, found: bool) -> (r: Result<String, Error>)
    ensures
        texts(r) == done_text("paused "@, uuid@, found),
{
    done_to_check("paused ", uuid, found)
}

/// What is printed of a check that was resumed, given whether it was there.
pub fn check_resumed(uuid: &str, found: bool) -> (r: Result<String, Error>)
    ensures
        texts(r) == done_text("resumed "@, uuid@, found),
{
    done_to_check("resumed ", uuid, found)
}

/// What is printed of a check that was deleted, given whether it was there.
pub fn check_deleted(uuid: &str, found: bool) -> (r: Result<String, Error>)
    ensures
        texts(r) == done_text("deleted "@, uuid@, found),
{
    done_to_check("deleted ", uuid, found)
}

/// What is printed of a channel that was attached to a check.
pub fn channel_attached(check: &Check, channel: &Channel) -> (r: String)
    ensures
        r@ == check.name@ + " -> "@ + channel.name@ + "\n"@,
{
    let mut r = check.name.clone();
    r.append(" -> ");
    r.append(channel.name.as_str());
    r.append("\n");
    r
}

/// What is printed of a channel that was detached from a check, given whether
/// it was attached.
pub fn channel_detached(check: &Check, channel_id: i64, found: bool) -> (r: Result<String, Error>)
    ensures
        texts(r) == if found {
            Ok::<Seq<char>, Seq<char>>(
                "detached channel #"@ + text::decimal(channel_id as int) + " from "@ + check.name@
                    + "\n"@,
            )
        } else {
            Err(
                "channel #"@ + text::decimal(channel_id as int) + " was not attached to "@
                    + check.uuid@,
            )
        },
{
    if found {
        let mut r = "detached channel #".to_owned();
        text::push_int(&mut r, channel_id);
        r.append(" from ");
        r.append(check.name.as_str());
        r.append("\n");
        Ok(r)
    } else {
        let mut message = "channel #".to_owned();
        text::push_int(&mut message, channel_id);
        message.append(" was not attached to ");
        message.append(check.uuid.as_str());
        Err(Error { message })
    }
}

/// What is printed of a channel that was deleted, given whether it was there.
pub fn channel_deleted(id: i64, found: bool) -> (r: Result<String, Error>)
    ensures
        texts(r) == if found {
            Ok::<Seq<char>, Seq<char>>("deleted channel #"@ + text::decimal(id as int) + "\n"@)
        } else {
            Err(no_channel_text(id as int))
        },
{
    if found {
        let mut r = "deleted channel #".to_owned();
        text::push_int(&mut r, id);
        r.append("\n");
        Ok(r)
    } else {
        Err(no_channel(id))
    }
}

/// What is printed of a channel that was tested.
pub fn channel_tested(name: &str, outcome: &Result<(), SendError>) -> (r: Result<String, Error>)
    ensures
        texts(r) == match *outcome {
            Ok(_) => Ok::<Seq<char>, Seq<char>>(line("sent a test alert through "@, name@)),
            Err(e) => Err("delivery failed: "@ + e.message@),
        },
{
    match outcome {
        Ok(()) => Ok(line_of("sent a test alert through ", name)),
        Err(e) => {
            let mut message = "delivery failed: ".to_owned();
            message.append(e.message.as_str());
            Err(Error { message })
        },
    }
}

/// What is printed once the password was set.
pub fn password_updated() -> (r: String)
    ensures
        r@ == "password updated — existing sessions were signed out\n"@,
{
    "password updated — existing sessions were signed out\n".to_owned()
}

// -------------------------------------------------------------------- laws

/// A shortened text has at most the characters it may have, and a text that
/// has no more is kept.
pub proof fn law_truncated_fits(s: Seq<char>, max: int)
    requires
        max >= 1,
    ensures
        truncated(s, max).len() <= max,
        s.len() <= max ==> truncated(s, max) == s,
        truncated(s, max).take(
            if s.len() <= max {
                s.len() as int
            } else {
                max - 1
            },
        ).is_prefix_of(s),
{
    reveal_strlit("…");
    if s.len() > max {
        assert(truncated(s, max).take(max - 1) =~= s.take(max - 1));
    } else {
        assert(s.take(s.len() as int) =~= s);
    }
}

/// The command line, the web form and the API agree on durations: the same
/// texts give the same period and the same grace.
pub proof fn law_all_readers_agree_on_durations(
    typed: NewCheck,
    submitted: NewCheck,
    posted: NewCheck,
    form: Seq<(Seq<char>, Seq<char>)>,
    payload: CheckPayload,
)
    requires
        has_durations(typed, ui::form_period(form), ui::form_grace(form)),
        ui::form_asks_for(form, submitted),
        payload.asks_for(posted),
        payload.period_text() == ui::form_period(form),
        payload.grace_text() == ui::form_grace(form),
    ensures
        typed.period_s == submitted.period_s,
        submitted.period_s == posted.period_s,
        typed.grace_s == submitted.grace_s,
        submitted.grace_s == posted.grace_s,
{
}

/// The headers of a webhook have distinct names.
pub proof fn law_header_names_are_distinct(args: Seq<Seq<char>>)
    ensures
        headers_in(args) matches Ok(list) ==> fields::distinct(list),
    decreases args.len(),
{
    if args.len() > 0 {
        law_header_names_are_distinct(args.drop_last());
        if let Ok(list) = headers_in(args.drop_last()) {
            if let Some((name, value)) = text::cut(args.last(), ':') {
                fields::law_put_keeps_names_distinct(
                    list,
                    text::trimmed(name),
                    text::trimmed(value),
                );
            }
        }
    }
}

/// Arguments for a check are refused where a duration cannot be read, the period
/// first, and otherwise mean what they say.
pub proof fn law_durations_in_arguments(new: NewCheck, period: Seq<char>, grace: Seq<char>)
    ensures
        check_refusal(period, grace) is None <==> model::duration_of(period) is Ok
            && model::duration_of(grace) is Ok,
        model::duration_of(period) matches Err(e) ==> check_refusal(period, grace) == Some(
            e.text(period),
        ),
        model::duration_of(period) is Ok ==> (model::duration_of(grace) matches Err(e)
            ==> check_refusal(period, grace) == Some(e.text(grace))),
        has_durations(new, period, grace) <==> model::duration_of(period) == Ok::<
            int,
            model::DurationError,
        >(new.period_s as int) && model::duration_of(grace) == Ok::<int, model::DurationError>(
            new.grace_s as int,
        ),
{
}

/// Header arguments are read one after the other: each gives a name and a value,
/// without the white space around them, and one without a colon is refused.
pub proof fn law_header_arguments(
    args: Seq<Seq<char>>,
    name: Seq<char>,
    value: Seq<char>,
    bad: Seq<char>,
)
    requires
        headers_in(args) is Ok,
        forall|i: int| 0 <= i < name.len() ==> #[trigger] name[i] != ':',
        forall|i: int| 0 <= i < bad.len() ==> #[trigger] bad[i] != ':',
    ensures
        headers_in(args.push(name + seq![':'] + value)) == Ok::<
            Seq<(Seq<char>, Seq<char>)>,
            Seq<char>,
        >(fields::with_value(headers_in(args)->Ok_0, text::trimmed(name), text::trimmed(value))),
        headers_in(args.push(bad)) == Err::<Seq<(Seq<char>, Seq<char>)>, Seq<char>>(bad),
        headers_in(Seq::empty()) == Ok::<Seq<(Seq<char>, Seq<char>)>, Seq<char>>(Seq::empty()),
{
    text::law_cut_at_the_first(name, value, ':');
    text::law_cut_at_the_first(bad, value, ':');
    let arg = name + seq![':'] + value;
    assert(args.push(arg).drop_last() =~= args);
    assert(args.push(bad).drop_last() =~= args);
}

/// A long text is cut to what fits, with an ellipsis at the end; a short one is
/// shown whole.
pub proof fn law_what_is_left_of_a_text(s: Seq<char>, max: int)
    requires
        max >= 1,
    ensures
        s.len() <= max ==> truncated(s, max) == s,
        s.len() > max ==> truncated(s, max) == s.take(max - 1) + seq!['…'],
{
    reveal_strlit("…");
    assert("…"@ =~= seq!['…']);
}

/// A list of checks has a line for each, in their order, under a line of titles.
pub proof fn law_checks_are_listed(checks: Seq<Check>, more: Seq<Check>, check: Check, now: int)
    ensures
        check_lines(checks + more, now) == check_lines(checks, now) + check_lines(more, now),
        check_lines(seq![check], now) == ""@ + check_columns(
            check.status.word(),
            check.name@,
            listed_last(check, now),
            listed_late(check, now),
            check.uuid@,
        ),
        checks.len() > 0 ==> checks_text(checks, now) == check_columns(
            "STATUS"@,
            "NAME"@,
            "LAST PING"@,
            "LATE IN"@,
            "UUID"@,
        ) + check_lines(checks, now),
        checks.len() == 0 ==> checks_text(checks, now)
            == "no checks yet — create one with `canari check add <name>`\n"@,
    decreases more.len(),
{
    reveal_strlit("");
    let one = seq![check];
    assert(one.drop_last() =~= Seq::empty());
    assert(check_lines(Seq::empty(), now) =~= ""@);
    if more.len() == 0 {
        assert(checks + more =~= checks);
        assert(check_lines(checks, now) + check_lines(more, now) =~= check_lines(checks, now));
    } else {
        law_checks_are_listed(checks, more.drop_last(), check, now);
        assert((checks + more).drop_last() =~= checks + more.drop_last());
        assert((checks + more).last() == more.last());
        assert(check_lines(checks + more, now) =~= check_lines(checks, now) + check_lines(
            more,
            now,
        ));
    }
}

/// What the list says of the times of a check.
pub proof fn law_times_in_the_list(check: Check, now: int)
    ensures
        check.last_ping_at is None ==> listed_last(check, now) == "never"@,
        check.last_ping_at matches Some(t) ==> listed_last(check, now) == model::duration_text(
            now - t,
        ) + " ago"@,
        check.alert_after is None ==> listed_late(check, now) == "-"@,
        check.alert_after matches Some(t) ==> listed_late(check, now) == if now < t {
            model::duration_text(t - now)
        } else {
            "overdue"@
        },
{
}

/// How the columns of the lists are laid out.
pub proof fn law_columns(
    a: Seq<char>,
    b: Seq<char>,
    c: Seq<char>,
    d: Seq<char>,
    e: Seq<char>,
    f: Seq<char>,
    g: Seq<char>,
    h: Seq<char>,
)
    ensures
        check_columns(a, b, c, d, e) == ""@ + text::padded(a, 7) + " "@ + text::padded(b, 24) + " "@
            + text::padded(c, 12) + " "@ + text::padded(d, 12) + " "@ + e + "\n"@,
        ping_columns(a, b, c, d, e, f, g, h) == ""@ + text::padded(a, 5) + " "@ + text::padded(
            b,
            21,
        ) + " "@ + text::padded(c, 8) + " "@ + text::padded(d, 5) + " "@ + text::padded(e, 9) + " "@
            + text::padded(f, 6) + " "@ + text::padded(g, 16) + " "@ + h + "\n"@,
        channel_columns(a, b, c, d, e, f) == ""@ + text::padded(a, 5) + " "@ + text::padded(b, 9)
            + " "@ + text::padded(c, 20) + " "@ + text::padded(d, 9) + " "@ + text::padded(e, 12)
            + " "@ + f + "\n"@,
{
}

/// What is printed of a check: its name and status, what was asked for, where to
/// ping, and what is known of its pings and channels.
pub proof fn law_what_is_printed_of_a_check(
    check: Check,
    channels: Seq<Channel>,
    site: Seq<char>,
    now: int,
)
    ensures
        check_card(check, channels, site, now) == (check.name@ + "  ["@ + check.status.word()
            + "]\n"@) + (if check.description@.len() == 0 {
            ""@
        } else {
            "  "@ + check.description@ + "\n"@
        }) + (if check.tags@.len() == 0 {
            ""@
        } else {
            "  tags      "@ + check.tags@ + "\n"@
        }) + ("  schedule  "@ + check.summary() + "\n"@) + ("  ping url  "@ + (config::ping_base_of(
            site,
        ) + "/"@ + check.uuid@) + "\n"@) + ("  created   "@ + model::ts_text(
            check.created_at as int,
        ) + "\n"@) + ("  updated   "@ + model::ts_text(check.updated_at as int) + "\n"@)
            + last_ping_line(check, now) + running_line(check) + duration_line(check) + late_line(
            check,
            now,
        ) + channels_line(channels),
        check.last_ping_at matches Some(t) ==> last_ping_line(check, now) == "  last ping "@ + (
        model::ts_text(t as int) + " ("@ + model::duration_text(now - t) + " ago)"@) + "\n"@,
        check.last_ping_at is None ==> last_ping_line(check, now) == "  last ping never\n"@,
        check.last_start_at matches Some(t) ==> running_line(check) == "  running   since "@
            + model::ts_text(t as int) + "\n"@,
        check.last_start_at is None ==> running_line(check) == ""@,
        check.last_duration_ms matches Some(ms) ==> duration_line(check) == "  duration  "@
            + ui::millis_text(ms as int) + "\n"@,
        check.last_duration_ms is None ==> duration_line(check) == ""@,
        check.alert_after matches Some(t) ==> late_line(check, now) == if now < t {
            "  late in   "@ + model::duration_text(t - now) + "\n"@
        } else {
            "  overdue   since "@ + model::ts_text(t as int) + "\n"@
        },
        check.alert_after is None ==> late_line(check, now) == "  late in   -\n"@,
        channels.len() == 0 ==> channels_line(channels)
            == "  channels  none — alerts go nowhere\n"@,
        channels.len() > 0 ==> channels_line(channels) == "  channels  "@ + text::joined(
            channels.map_values(
                |c: Channel|
                    c.name@ + " (#"@ + text::decimal(c.id as int) + ", "@ + c.kind.word() + ")"@,
            ),
            ", "@,
        ) + "\n"@,
{
    assert(attached_texts(channels) =~= channels.map_values(
        |c: Channel| c.name@ + " (#"@ + text::decimal(c.id as int) + ", "@ + c.kind.word() + ")"@,
    ));
}

/// The log that is printed has an entry for each ping, in their order.
pub proof fn law_pings_are_printed(pings: Seq<Ping>, more: Seq<Ping>)
    ensures
        ping_texts(pings + more) == ping_texts(pings) + ping_texts(more),
        pings.len() == 0 ==> log_text(pings) == "\nno pings yet\n"@,
        pings.len() > 0 ==> log_text(pings) == "\n"@ + ping_columns(
            "#"@,
            "WHEN"@,
            "KIND"@,
            "EXIT"@,
            "DURATION"@,
            "VIA"@,
            "FROM"@,
            "AGENT"@,
        ) + ping_texts(pings),
    decreases more.len(),
{
    reveal_strlit("");
    if more.len() == 0 {
        assert(pings + more =~= pings);
        assert(ping_texts(pings) + ping_texts(more) =~= ping_texts(pings));
    } else {
        law_pings_are_printed(pings, more.drop_last());
        assert((pings + more).drop_last() =~= pings + more.drop_last());
        assert((pings + more).last() == more.last());
        assert(ping_texts(pings + more) =~= ping_texts(pings) + ping_texts(more));
    }
}

/// What is printed of one ping.
pub proof fn law_what_is_printed_of_a_ping(ping: Ping)
    ensures
        ping_texts(seq![ping]) == ""@ + (ping_columns(
            text::decimal(ping.n as int),
            model::ts_text(ping.ts as int),
            ping.kind.word(),
            if ping.exit_code is Some {
                text::decimal(ping.exit_code->0 as int)
            } else {
                "-"@
            },
            if ping.duration_ms is Some {
                ui::millis_text(ping.duration_ms->0 as int)
            } else {
                "-"@
            },
            if ping.method is Some {
                ping.method->0@
            } else {
                "-"@
            },
            if ping.remote_addr is Some {
                ping.remote_addr->0@
            } else {
                "-"@
            },
            truncated(
                if ping.user_agent is Some {
                    ping.user_agent->0@
                } else {
                    "-"@
                },
                32,
            ),
        ) + if ping.body is Some {
            "      body: "@ + truncated(first_line(ping.body->0@), 70) + "\n"@
        } else {
            ""@
        }),
{
    let one = seq![ping];
    assert(one.drop_last() =~= Seq::empty());
    assert(one.last() == ping);
    assert(ping_texts(Seq::empty()) == ""@);
}

/// The first line of a text ends at its first break.
pub proof fn law_first_line(line: Seq<char>, rest: Seq<char>)
    requires
        forall|i: int| 0 <= i < line.len() ==> #[trigger] line[i] != '\n' && line[i] != '\r',
    ensures
        first_line(line + seq!['\n'] + rest) == line,
        line.len() > 0 ==> first_line(line) == line,
{
    text::law_lines_end_at_breaks(line, rest);
    if line.len() > 0 {
        assert(line.last() == line[line.len() - 1]);
    }
}

/// A list of channels has a line for each, in their order, that says where it
/// leads.
pub proof fn law_channels_are_listed(channels: Seq<Channel>, more: Seq<Channel>, channel: Channel)
    ensures
        channel_texts(channels + more) == channel_texts(channels) + channel_texts(more),
        channel_texts(seq![channel]) == ""@ + channel_columns(
            text::decimal(channel.id as int),
            channel.kind.word(),
            truncated(channel.name@, 20),
            if channel.enabled {
                "enabled"@
            } else {
                "disabled"@
            },
            date_text(channel.created_at as int),
            truncated(ui::target_text(channel), 50),
        ),
    decreases more.len(),
{
    reveal_strlit("");
    let one = seq![channel];
    assert(one.drop_last() =~= Seq::empty());
    assert(one.last() == channel);
    assert(channel_texts(Seq::empty()) == ""@);
    if more.len() == 0 {
        assert(channels + more =~= channels);
        assert(channel_texts(channels) + channel_texts(more) =~= channel_texts(channels));
    } else {
        law_channels_are_listed(channels, more.drop_last(), channel);
        assert((channels + more).drop_last() =~= channels + more.drop_last());
        assert((channels + more).last() == more.last());
        assert(channel_texts(channels + more) =~= channel_texts(channels) + channel_texts(more));
    }
}

/// What commands say of what they did, and of what is not there.
pub proof fn law_what_commands_say(
    check: Check,
    channel: Channel,
    site: Seq<char>,
    done: Seq<char>,
    uuid: Seq<char>,
    id: int,
)
    ensures
        added_text(check, site) == (""@ + check.name@ + "\n"@) + ("  schedule  "@ + check.summary()
            + "\n"@) + ("  ping url  "@ + (config::ping_base_of(site) + "/"@ + check.uuid@) + "\n"@),
        done_text(done, uuid, true) == Ok::<Seq<char>, Seq<char>>(done + uuid + "\n"@),
        done_text(done, uuid, false) == Err::<Seq<char>, Seq<char>>("no check with uuid "@ + uuid),
        no_channel_text(id) == "no channel with id "@ + text::decimal(id),
        channel_added_text(channel, None) == "channel #"@ + text::decimal(channel.id as int) + " "@
            + channel.name@ + " ("@ + channel.kind.word() + ")\n"@ + ""@,
        channel_added_text(channel, Some((site, uuid))) == "channel #"@ + text::decimal(
            channel.id as int,
        ) + " "@ + channel.name@ + " ("@ + channel.kind.word() + ")\n"@ + ("  target  "@
            + text::trim_end_of(site, '/') + "/"@ + uuid + "\n"@),
{
}

/// A date is the beginning of what an instant is told as.
pub proof fn law_dates(ts: int)
    ensures
        date_text(ts).is_prefix_of(model::ts_text(ts)),
        model::ts_text(ts).len() >= 10 ==> date_text(ts).len() == 10,
        model::ts_text(ts).len() < 10 ==> date_text(ts) == model::ts_text(ts),
{
    let whole = model::ts_text(ts);
    assert(whole.take(whole.len() as int) =~= whole);
}

/// What is printed fits exactly where its times do, and the durations in
/// arguments can be read exactly where they fit.
pub proof fn law_what_fits_in_print(check: Check, now: int, period: Seq<char>, grace: Seq<char>)
    ensures
        print_fits(check, now) <==> (check.last_ping_at matches Some(t) ==> i64::MIN <= now - t
            <= i64::MAX) && (check.alert_after matches Some(t) ==> t > now ==> t - now
            <= i64::MAX),
        args_fit(period, grace) <==> model::duration_fits(period) && (model::duration_of(period)
            is Ok ==> model::duration_fits(grace)),
{
}

/// A result is told by its text, or by the words of its refusal.
pub proof fn law_results_are_told(s: String, error: Error)
    ensures
        texts(Ok(s)) == Ok::<Seq<char>, Seq<char>>(s@),
        texts(Err(error)) == Err::<Seq<char>, Seq<char>>(error.message@),
{
}

} // verus!
