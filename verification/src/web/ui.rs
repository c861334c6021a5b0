//! The web interface: what its pages show and what its forms ask for.

use vstd::prelude::*;
use vstd::utf8::*;

use crate::auth;
use crate::config;
use crate::error::Error;
use crate::fields;
use crate::model;
use crate::model::{ChannelKind, Check, CheckKind, Status};
use crate::notify::{ChannelConfig, NewChannel, NtfyConfig, SendError, WebhookConfig};
use crate::outside;
use crate::schedule;
use crate::store::{Channel, NewCheck, Ping};
use crate::text;
use crate::web;
use crate::web::Reply;

verus! {

/// Delay applied to a failed sign-in, in seconds, to take the speed out of
/// guessing.
pub const LOGIN_FAILURE_DELAY_S: u64 = 1;

// ----------------------------------------------------------------- helpers

/// An address with a message in its query string. Flash messages travel there,
/// so no server-side session state is needed to survive a redirect.
pub open spec fn with_message(path: Seq<char>, key: Seq<char>, message: Seq<char>) -> Seq<char> {
    path + key + outside::percent_bytes(encode_utf8(message))
}

/// Go elsewhere and say that something worked.
pub fn redirect_ok(path: &str, message: &str) -> (r: Reply)
    ensures
        r@ == web::see_other(with_message(path@, "?ok="@, message@)),
{
    let mut to = path.to_owned();
    to.append("?ok=");
    to.append(outside::encode_percent(message).as_str());
    Reply::see_other(to)
}

/// Go elsewhere and say that something failed.
pub fn redirect_err(path: &str, message: &str) -> (r: Reply)
    ensures
        r@ == web::see_other(with_message(path@, "?err="@, message@)),
{
    let mut to = path.to_owned();
    to.append("?err=");
    to.append(outside::encode_percent(message).as_str());
    Reply::see_other(to)
}

/// What a form holds under a name, without the white space around it.
pub open spec fn field_of(form: Seq<(Seq<char>, Seq<char>)>, name: Seq<char>) -> Seq<char> {
    match fields::value_of(form, name) {
        Some(value) => text::trimmed(value),
        None => ""@,
    }
}

/// What a form holds under a name, without the white space around it.
pub fn field(form: &Vec<(String, String)>, name: &str) -> (r: String)
    ensures
        r@ == field_of(fields::pairs(form@), name@),
{
    match fields::get(form, name) {
        Some(value) => text::trim(value),
        None => "".to_owned(),
    }
}

/// A text, unless it is empty.
pub open spec fn unless_empty(value: Seq<char>) -> Option<Seq<char>> {
    if value.len() == 0 {
        None
    } else {
        Some(value)
    }
}

/// A text, or what stands in for an empty one.
pub open spec fn or_if_empty(value: Seq<char>, default: Seq<char>) -> Seq<char> {
    if value.len() == 0 {
        default
    } else {
        value
    }
}

/// A text, unless it is empty.
pub fn non_empty(value: String) -> (r: Option<String>)
    ensures
        outside::text_of(r) == unless_empty(value@),
{
    if value.as_str().unicode_len() == 0 {
        None
    } else {
        Some(value)
    }
}

/// What a form holds under a name, or what stands in for nothing.
fn field_or(form: &Vec<(String, String)>, name: &str, default: &str) -> (r: String)
    ensures
        r@ == or_if_empty(field_of(fields::pairs(form@), name@), default@),
{
    match non_empty(field(form, name)) {
        Some(value) => value,
        None => default.to_owned(),
    }
}

/// The tags in a text.
pub fn tag_list(tags: &str) -> (r: Vec<String>)
    ensures
        text::views(r@) == text::words(tags@),
{
    text::split_words(tags)
}

/// How long ago an instant was.
pub open spec fn ago_text(ts: Option<i64>, now: int) -> Seq<char> {
    match ts {
        Some(t) => if now >= t {
            model::duration_text(now - t) + " ago"@
        } else {
            model::ts_text(t as int)
        },
        None => "never"@,
    }
}

/// Whether the time since an instant fits 64 bits, where it has come.
pub open spec fn ago_fits(ts: Option<i64>, now: int) -> bool {
    ts matches Some(t) ==> now >= t ==> schedule::in_i64(now - t)
}

/// Whether the time between an instant and now fits 64 bits, whichever comes
/// first.
pub open spec fn apart_fits(ts: Option<i64>, now: int) -> bool {
    ago_fits(ts, now) && (ts matches Some(t) ==> now < t ==> schedule::in_i64(t - now))
}

/// How long ago an instant was.
pub fn format_ago(ts: Option<i64>, now_ts: i64) -> (r: String)
    requires
        ago_fits(ts, now_ts as int),
    ensures
        r@ == ago_text(ts, now_ts as int),
{
    match ts {
        Some(t) => if now_ts >= t {
            let mut r = model::format_duration(now_ts - t);
            r.append(" ago");
            r
        } else {
            model::format_ts(t)
        },
        None => "never".to_owned(),
    }
}

/// How long until a check is late.
pub open spec fn late_in_text(check: Check, now: int) -> Seq<char> {
    match check.alert_after {
        Some(t) => if t > now {
            model::duration_text(t - now)
        } else {
            "overdue by "@ + model::duration_text(now - t)
        },
        None => "—"@,
    }
}

/// How long until a check is late.
pub fn format_late_in(check: &Check, now_ts: i64) -> (r: String)
    requires
        apart_fits(check.alert_after, now_ts as int),
    ensures
        r@ == late_in_text(*check, now_ts as int),
{
    match check.alert_after {
        Some(t) => if t > now_ts {
            model::format_duration(t - now_ts)
        } else {
            let mut r = "overdue by ".to_owned();
            r.append(model::format_duration(now_ts - t).as_str());
            r
        },
        None => "—".to_owned(),
    }
}

/// Whether what is shown of a check's times fits 64 bits.
pub open spec fn times_fit(check: Check, now: int) -> bool {
    ago_fits(check.last_ping_at, now) && apart_fits(check.alert_after, now)
}

/// Whether one 64-bit number less another fits 64 bits.
fn difference_fits(a: i64, b: i64) -> (r: bool)
    ensures
        r == schedule::in_i64(a - b),
{
    let difference: i128 = a as i128 - b as i128;
    i64::MIN as i128 <= difference && difference <= i64::MAX as i128
}

/// Whether what is shown of a check's times fits 64 bits.
pub fn can_show(check: &Check, now_ts: i64) -> (r: bool)
    ensures
        r == times_fit(*check, now_ts as int),
{
    let ping_fits = match check.last_ping_at {
        Some(t) => now_ts < t || difference_fits(now_ts, t),
        None => true,
    };
    let alert_fits = match check.alert_after {
        Some(t) => if now_ts >= t {
            difference_fits(now_ts, t)
        } else {
            difference_fits(t, now_ts)
        },
        None => true,
    };
    ping_fits && alert_fits
}

/// A number of milliseconds as a duration.
pub open spec fn millis_text(ms: int) -> Seq<char> {
    model::duration_text(
        if ms < 0 {
            0
        } else {
            ms / 1000
        },
    )
}

/// A number of milliseconds as a duration.
pub fn format_millis(ms: i64) -> (r: String)
    ensures
        r@ == millis_text(ms as int),
{
    if ms < 0 {
        model::format_duration(0)
    } else {
        model::format_duration(ms / 1000)
    }
}

/// A number of milliseconds as a duration, if there is one.
fn millis_or(ms: Option<i64>, default: &str) -> (r: String)
    ensures
        r@ == match ms {
            Some(ms) => millis_text(ms as int),
            None => default@,
        },
{
    match ms {
        Some(ms) => format_millis(ms),
        None => default.to_owned(),
    }
}

/// A text, or nothing.
fn text_or_nothing(s: &Option<String>) -> (r: String)
    ensures
        r@ == match *s {
            Some(s) => s@,
            None => ""@,
        },
{
    match s {
        Some(s) => s.clone(),
        None => "".to_owned(),
    }
}

// ------------------------------------------------------------------- index

/// One check in the list of all.
#[derive(Debug)]
pub struct CheckRow {
    pub uuid: String,
    pub name: String,
    pub status: String,
    pub tags: Vec<String>,
    pub schedule: String,
    pub last_ping: String,
    pub late_in: String,
    pub n_pings: i64,
}

/// The list of all checks.
#[derive(Debug)]
pub struct IndexPage {
    pub rows: Vec<CheckRow>,
    pub summary: String,
    pub down_count: usize,
}

/// Whether `row` is how a check is listed.
pub open spec fn lists(row: CheckRow, check: Check, now: int) -> bool {
    &&& row.uuid@ == check.uuid@
    &&& row.name@ == check.name@
    &&& row.status@ == check.status.word()
    &&& text::views(row.tags@) == text::words(check.tags@)
    &&& row.schedule@ == check.summary()
    &&& row.last_ping@ == ago_text(check.last_ping_at, now)
    &&& row.late_in@ == late_in_text(check, now)
    &&& row.n_pings == check.n_pings
}

/// How many checks are down.
pub open spec fn downs(checks: Seq<Check>) -> nat
    decreases checks.len(),
{
    if checks.len() == 0 {
        0
    } else {
        downs(checks.drop_last()) + if checks.last().status == Status::Down {
            1nat
        } else {
            0nat
        }
    }
}

/// How many checks there are, and how many are down.
pub open spec fn summary_text(checks: Seq<Check>) -> Seq<char> {
    text::decimal_nat(checks.len()) + " check"@ + (if checks.len() == 1 {
        ""@
    } else {
        "s"@
    }) + ", "@ + text::decimal_nat(downs(checks)) + " down"@
}

/// One check in the list of all.
fn check_row(check: &Check, now_ts: i64) -> (r: CheckRow)
    requires
        times_fit(*check, now_ts as int),
    ensures
        lists(r, *check, now_ts as int),
{
    CheckRow {
        uuid: check.uuid.clone(),
        name: check.name.clone(),
        status: check.status.as_str().to_owned(),
        tags: tag_list(check.tags.as_str()),
        schedule: check.schedule_summary(),
        last_ping: format_ago(check.last_ping_at, now_ts),
        late_in: format_late_in(check, now_ts),
        n_pings: check.n_pings,
    }
}

/// The list of all checks.
pub fn index(checks: &Vec<Check>, now_ts: i64) -> (r: IndexPage)
    requires
        forall|i: int| 0 <= i < checks@.len() ==> times_fit(#[trigger] checks@[i], now_ts as int),
    ensures
        r.rows@.len() == checks@.len(),
        forall|i: int|
            0 <= i < checks@.len() ==> lists(#[trigger] r.rows@[i], checks@[i], now_ts as int),
        r.summary@ == summary_text(checks@),
        r.down_count == downs(checks@),
{
    let mut rows: Vec<CheckRow> = Vec::new();
    let mut down_count: usize = 0;
    let mut i: usize = 0;
    while i < checks.len()
        invariant
            i <= checks@.len(),
            down_count <= i,
            down_count == downs(checks@.take(i as int)),
            rows@.len() == i,
            forall|k: int|
                0 <= k < checks@.len() ==> times_fit(#[trigger] checks@[k], now_ts as int),
            forall|k: int|
                0 <= k < i ==> lists(#[trigger] rows@[k], checks@[k], now_ts as int),
        decreases checks@.len() - i,
    {
        assert(checks@.take(i + 1).drop_last() =~= checks@.take(i as int));
        if checks[i].status == Status::Down {
            down_count = down_count + 1;
        }
        rows.push(check_row(&checks[i], now_ts));
        i = i + 1;
    }
    assert(checks@.take(i as int) =~= checks@);
    let mut summary = String::new();
    text::push_nat(&mut summary, checks.len() as u64);
    assert(summary@ =~= text::decimal_nat(checks@.len()));
    summary.append(" check");
    if checks.len() == 1 {
        summary.append("");
    } else {
        summary.append("s");
    }
    summary.append(", ");
    text::push_nat(&mut summary, down_count as u64);
    summary.append(" down");
    IndexPage { rows, summary, down_count }
}

// ------------------------------------------------------------------ detail

/// One ping in a check's log.
#[derive(Debug)]
pub struct PingRow {
    pub n: i64,
    pub when: String,
    pub kind: String,
    pub exit_code: String,
    pub duration: String,
    pub method: String,
    pub remote_addr: String,
    pub user_agent: String,
    pub body: String,
}

/// All about one check.
#[derive(Debug)]
pub struct DetailPage {
    pub uuid: String,
    pub name: String,
    pub status: String,
    pub schedule: String,
    pub last_ping: String,
    pub late_in: String,
    pub n_pings: i64,
    pub last_duration: Option<String>,
    pub channels: String,
    pub description: String,
    pub tags: Vec<String>,
    pub ping_url: String,
    pub pings: Vec<PingRow>,
}

/// Whether `row` is how a ping is listed.
pub open spec fn logs(row: PingRow, ping: Ping) -> bool {
    &&& row.n == ping.n
    &&& row.when@ == model::ts_text(ping.ts as int)
    &&& row.kind@ == ping.kind.word()
    &&& row.exit_code@ == match ping.exit_code {
        Some(code) => text::decimal(code as int),
        None => ""@,
    }
    &&& row.duration@ == match ping.duration_ms {
        Some(ms) => millis_text(ms as int),
        None => ""@,
    }
    &&& row.method@ == shown_or_nothing(ping.method)
    &&& row.remote_addr@ == shown_or_nothing(ping.remote_addr)
    &&& row.user_agent@ == shown_or_nothing(ping.user_agent)
    &&& row.body@ == shown_or_nothing(ping.body)
}

/// A text, or nothing.
pub open spec fn shown_or_nothing(s: Option<String>) -> Seq<char> {
    match s {
        Some(s) => s@,
        None => ""@,
    }
}

/// The names of channels.
pub open spec fn names_of(channels: Seq<Channel>) -> Seq<Seq<char>> {
    channels.map_values(|c: Channel| c.name@)
}

/// Where a check's alerts go.
pub open spec fn channels_text(channels: Seq<Channel>) -> Seq<char> {
    if channels.len() == 0 {
        "none — alerts go nowhere"@
    } else {
        text::joined(names_of(channels), ", "@)
    }
}

/// Whether `page` is all about a check.
pub open spec fn details(
    page: DetailPage,
    check: Check,
    channels: Seq<Channel>,
    pings: Seq<Ping>,
    site_url: Seq<char>,
    now: int,
) -> bool {
    &&& page.uuid@ == check.uuid@
    &&& page.name@ == check.name@
    &&& page.status@ == check.status.word()
    &&& page.schedule@ == check.summary()
    &&& page.last_ping@ == ago_text(check.last_ping_at, now)
    &&& page.late_in@ == late_in_text(check, now)
    &&& page.n_pings == check.n_pings
    &&& outside::text_of(page.last_duration) == match check.last_duration_ms {
        Some(ms) => Some(millis_text(ms as int)),
        None => None,
    }
    &&& page.channels@ == channels_text(channels)
    &&& page.description@ == check.description@
    &&& text::views(page.tags@) == text::words(check.tags@)
    &&& page.ping_url@ == config::ping_base_of(site_url) + "/"@ + check.uuid@
    &&& page.pings@.len() == pings.len()
    &&& forall|i: int| 0 <= i < pings.len() ==> logs(#[trigger] page.pings@[i], pings[i])
}

/// One ping in a check's log.
fn ping_row(ping: &Ping) -> (r: PingRow)
    ensures
        logs(r, *ping),
{
    PingRow {
        n: ping.n,
        when: model::format_ts(ping.ts),
        kind: ping.kind.as_str().to_owned(),
        exit_code: match ping.exit_code {
            Some(code) => text::int_text(code),
            None => "".to_owned(),
        },
        duration: millis_or(ping.duration_ms, ""),
        method: text_or_nothing(&ping.method),
        remote_addr: text_or_nothing(&ping.remote_addr),
        user_agent: text_or_nothing(&ping.user_agent),
        body: text_or_nothing(&ping.body),
    }
}

/// Where a check's alerts go.
fn channel_summary(channels: &Vec<Channel>) -> (r: String)
    ensures
        r@ == channels_text(channels@),
{
    if channels.len() == 0 {
        return "none — alerts go nowhere".to_owned();
    }
    let mut names: Vec<String> = Vec::new();
    let mut i: usize = 0;
    while i < channels.len()
        invariant
            i <= channels@.len(),
            names@.len() == i,
            forall|k: int| 0 <= k < i ==> (#[trigger] names@[k])@ == channels@[k].name@,
        decreases channels@.len() - i,
    {
        names.push(channels[i].name.clone());
        i = i + 1;
    }
    assert(text::views(names@) =~= names_of(channels@));
    text::join(&names, ", ")
}

/// All about one check.
pub fn check_detail(
    check: &Check,
    channels: &Vec<Channel>,
    pings: &Vec<Ping>,
    site_url: &str,
    now_ts: i64,
) -> (r: DetailPage)
    requires
        times_fit(*check, now_ts as int),
    ensures
        details(r, *check, channels@, pings@, site_url@, now_ts as int),
{
    let mut rows: Vec<PingRow> = Vec::new();
    let mut i: usize = 0;
    while i < pings.len()
        invariant
            i <= pings@.len(),
            rows@.len() == i,
            forall|k: int| 0 <= k < i ==> logs(#[trigger] rows@[k], pings@[k]),
        decreases pings@.len() - i,
    {
        rows.push(ping_row(&pings[i]));
        i = i + 1;
    }
    let mut ping_url = config::ping_base(site_url);
    ping_url.append("/");
    ping_url.append(check.uuid.as_str());
    DetailPage {
        uuid: check.uuid.clone(),
        name: check.name.clone(),
        status: check.status.as_str().to_owned(),
        schedule: check.schedule_summary(),
        last_ping: format_ago(check.last_ping_at, now_ts),
        late_in: format_late_in(check, now_ts),
        n_pings: check.n_pings,
        last_duration: match check.last_duration_ms {
            Some(ms) => Some(format_millis(ms)),
            None => None,
        },
        channels: channel_summary(channels),
        description: check.description.clone(),
        tags: tag_list(check.tags.as_str()),
        ping_url,
        pings: rows,
    }
}

// ---------------------------------------------------------------- channels

/// A member of a JSON document, or what stands in for it.
pub open spec fn member_or(config: Seq<char>, key: Seq<char>, default: Seq<char>) -> Seq<char> {
    match outside::json_text_field(config, key) {
        Some(value) => value,
        None => default,
    }
}

/// Where a channel sends.
pub open spec fn target_text(channel: Channel) -> Seq<char> {
    match channel.kind {
        ChannelKind::Webhook => member_or(channel.config@, "url"@, "?"@),
        ChannelKind::Ntfy => text::trim_end_of(
            member_or(channel.config@, "server"@, "https://ntfy.sh"@),
            '/',
        ) + "/"@ + member_or(channel.config@, "topic"@, "?"@),
    }
}

/// A member of a JSON document, or what stands in for it.
fn read_member(config: &str, key: &str, default: &str) -> (r: String)
    ensures
        r@ == member_or(config@, key@, default@),
{
    match outside::read_json_text(config, key) {
        Some(value) => value,
        None => default.to_owned(),
    }
}

/// Where a channel sends, for display in listings and forms.
pub fn describe_target(channel: &Channel) -> (r: String)
    ensures
        r@ == target_text(*channel),
{
    let config = channel.config.as_str();
    match channel.kind {
        ChannelKind::Webhook => read_member(config, "url", "?"),
        ChannelKind::Ntfy => {
            let server = read_member(config, "server", "https://ntfy.sh");
            let mut r = text::trim_end_char(server.as_str(), '/');
            r.append("/");
            r.append(read_member(config, "topic", "?").as_str());
            r
        },
    }
}

/// A channel that a check can be attached to.
#[derive(Debug)]
pub struct ChannelChoice {
    pub id: i64,
    pub name: String,
    pub kind: String,
    pub target: String,
    pub selected: bool,
}

/// One channel in the list of all.
#[derive(Debug)]
pub struct ChannelRow {
    pub id: i64,
    pub kind: String,
    pub name: String,
    pub target: String,
    /// How many checks notify it.
    pub check_count: i64,
}

/// Whether `choice` is how a channel is offered.
pub open spec fn offers(choice: ChannelChoice, channel: Channel, selected: Seq<i64>) -> bool {
    &&& choice.id == channel.id
    &&& choice.name@ == channel.name@
    &&& choice.kind@ == channel.kind.word()
    &&& choice.target@ == target_text(channel)
    &&& choice.selected == selected.contains(channel.id)
}

/// Whether `choices` offer some channels, those selected ticked.
pub open spec fn offers_all(
    choices: Seq<ChannelChoice>,
    channels: Seq<Channel>,
    selected: Seq<i64>,
) -> bool {
    choices.len() == channels.len() && forall|i: int|
        0 <= i < channels.len() ==> offers(#[trigger] choices[i], channels[i], selected)
}

/// Whether an id is among some.
fn is_among(ids: &Vec<i64>, id: i64) -> (r: bool)
    ensures
        r == ids@.contains(id),
{
    let mut i: usize = 0;
    while i < ids.len()
        invariant
            i <= ids@.len(),
            forall|k: int| 0 <= k < i ==> ids@[k] != id,
        decreases ids@.len() - i,
    {
        if ids[i] == id {
            assert(ids@[i as int] == id);
            return true;
        }
        i = i + 1;
    }
    false
}

/// The channels that a check can be attached to, those selected ticked.
pub fn channel_choices(channels: &Vec<Channel>, selected: &Vec<i64>) -> (r: Vec<ChannelChoice>)
    ensures
        offers_all(r@, channels@, selected@),
{
    let mut r: Vec<ChannelChoice> = Vec::new();
    let mut i: usize = 0;
    while i < channels.len()
        invariant
            i <= channels@.len(),
            r@.len() == i,
            forall|k: int| 0 <= k < i ==> offers(#[trigger] r@[k], channels@[k], selected@),
        decreases channels@.len() - i,
    {
        let channel = &channels[i];
        r.push(
            ChannelChoice {
                id: channel.id,
                name: channel.name.clone(),
                kind: channel.kind.as_str().to_owned(),
                target: describe_target(channel),
                selected: is_among(selected, channel.id),
            },
        );
        i = i + 1;
    }
    r
}

/// One channel in the list of all, given how many checks notify it.
pub fn channel_row(channel: &Channel, check_count: i64) -> (r: ChannelRow)
    ensures
        r.id == channel.id,
        r.kind@ == channel.kind.word(),
        r.name@ == channel.name@,
        r.target@ == target_text(*channel),
        r.check_count == check_count,
{
    ChannelRow {
        id: channel.id,
        kind: channel.kind.as_str().to_owned(),
        name: channel.name.clone(),
        target: describe_target(channel),
        check_count,
    }
}

/// The id in the name of a ticked box.
pub open spec fn ticked(name: Seq<char>) -> Option<int> {
    if text::occurs_at(name, "channel_"@, 0) {
        text::parsed_i64(name.skip("channel_"@.len() as int))
    } else {
        None
    }
}

/// The ids in the names of a form's ticked boxes, in their order.
pub open spec fn ticked_in(form: Seq<(Seq<char>, Seq<char>)>) -> Seq<i64>
    decreases form.len(),
{
    if form.len() == 0 {
        Seq::empty()
    } else {
        let before = ticked_in(form.drop_last());
        match ticked(form.last().0) {
            Some(id) => before.push(id as i64),
            None => before,
        }
    }
}

/// Whether ids are in ascending order.
pub open spec fn ascending(ids: Seq<i64>) -> bool {
    forall|i: int, j: int| 0 <= i <= j < ids.len() ==> ids[i] <= ids[j]
}

/// The id in the name of a ticked box.
fn read_ticked(name: &str) -> (r: Option<i64>)
    ensures
        r is Some == ticked(name@) is Some,
        r matches Some(id) ==> ticked(name@) == Some(id as int),
{
    proof {
        reveal_strlit("channel_");
    }
    if !text::starts_with(name, "channel_") {
        return None;
    }
    let v = text::chars_of(name);
    let rest = text::text_between(&v, 8, v.len());
    assert(rest@ =~= name@.skip(8));
    text::parse_i64(rest.as_str())
}

/// Puts an id in its place among ascending ones.
fn insert_ascending(ids: &mut Vec<i64>, id: i64)
    requires
        ascending(old(ids)@),
    ensures
        ascending(final(ids)@),
        final(ids)@.to_multiset() == old(ids)@.to_multiset().insert(id),
{
    let mut i: usize = ids.len();
    while i > 0 && ids[i - 1] > id
        invariant
            i <= ids@.len(),
            ids@ == old(ids)@,
            forall|k: int| i <= k < ids@.len() ==> id < ids@[k],
        decreases i,
    {
        i = i - 1;
    }
    let ghost before = ids@;
    assert(forall|k: int| 0 <= k < i ==> ids@[k] <= id);
    ids.insert(i, id);
    proof {
        let after = ids@;
        assert(after.remove(i as int) =~= before);
        vstd::seq_lib::to_multiset_remove(after, i as int);
        vstd::seq_lib::to_multiset_contains(after, id);
        assert(after[i as int] == id);
        assert(after.to_multiset() =~= before.to_multiset().insert(id));
        assert forall|a: int, b: int| 0 <= a <= b < after.len() implies after[a] <= after[b] by {
            let x = if a < i {
                a
            } else {
                a - 1
            };
            let y = if b < i {
                b
            } else {
                b - 1
            };
            if a != i && b != i {
                assert(before[x] <= before[y]);
            }
        }
    }
}

/// The channels that a form asks to notify, in ascending order. Checkboxes are
/// named `channel_<id>`: browsers only submit the ones that are ticked, and
/// distinct names sidestep url-encoded forms' lack of repeated keys.
pub fn selected_channels(form: &Vec<(String, String)>) -> (r: Vec<i64>)
    ensures
        ascending(r@),
        r@.to_multiset() == ticked_in(fields::pairs(form@)).to_multiset(),
{
    let ghost all = fields::pairs(form@);
    let mut ids: Vec<i64> = Vec::new();
    let mut i: usize = 0;
    assert(all.take(0) =~= Seq::<(Seq<char>, Seq<char>)>::empty());
    assert(ids@ =~= ticked_in(all.take(0)));
    while i < form.len()
        invariant
            i <= form@.len(),
            all == fields::pairs(form@),
            ascending(ids@),
            ids@.to_multiset() == ticked_in(all.take(i as int)).to_multiset(),
        decreases form@.len() - i,
    {
        assert(all.take(i + 1).drop_last() =~= all.take(i as int));
        assert(all.take(i + 1).last().0 == form@[i as int].0@);
        if let Some(id) = read_ticked(form[i].0.as_str()) {
            proof {
                vstd::seq_lib::to_multiset_build(ticked_in(all.take(i as int)), id);
            }
            insert_ascending(&mut ids, id);
        }
        i = i + 1;
    }
    assert(all.take(i as int) =~= all);
    ids
}

// ------------------------------------------------------------- check forms

/// The form for a check.
#[derive(Debug)]
pub struct CheckForm {
    pub error: Option<String>,
    pub heading: String,
    pub action: String,
    pub cancel_url: String,
    pub name: String,
    pub description: String,
    pub tags: String,
    pub kind: String,
    pub period: String,
    pub cron: String,
    pub tz: String,
    pub grace: String,
    pub channels: Vec<ChannelChoice>,
}

/// What a form for a check shows, but for the channels on offer.
pub struct FormTexts {
    pub error: Option<Seq<char>>,
    pub heading: Seq<char>,
    pub action: Seq<char>,
    pub cancel_url: Seq<char>,
    pub name: Seq<char>,
    pub description: Seq<char>,
    pub tags: Seq<char>,
    pub kind: Seq<char>,
    pub period: Seq<char>,
    pub cron: Seq<char>,
    pub tz: Seq<char>,
    pub grace: Seq<char>,
}

impl View for CheckForm {
    type V = FormTexts;

    open spec fn view(&self) -> FormTexts {
        FormTexts {
            error: outside::text_of(self.error),
            heading: self.heading@,
            action: self.action@,
            cancel_url: self.cancel_url@,
            name: self.name@,
            description: self.description@,
            tags: self.tags@,
            kind: self.kind@,
            period: self.period@,
            cron: self.cron@,
            tz: self.tz@,
            grace: self.grace@,
        }
    }
}

/// The form for a new check.
pub open spec fn blank_form() -> FormTexts {
    FormTexts {
        error: None,
        heading: "New check"@,
        action: "/checks"@,
        cancel_url: "/"@,
        name: ""@,
        description: ""@,
        tags: ""@,
        kind: "simple"@,
        period: "1d"@,
        cron: ""@,
        tz: "UTC"@,
        grace: "1h"@,
    }
}

/// The form for a check that is there.
pub open spec fn edit_form(check: Check) -> FormTexts {
    FormTexts {
        error: None,
        heading: "Edit "@ + check.name@,
        action: "/checks/"@ + check.uuid@,
        cancel_url: "/checks/"@ + check.uuid@,
        name: check.name@,
        description: check.description@,
        tags: check.tags@,
        kind: check.kind.word(),
        period: model::duration_text(check.period_s as int),
        cron: shown_or_nothing(check.cron_expr),
        tz: check.tz@,
        grace: model::duration_text(check.grace_s as int),
    }
}

/// The form with what was typed, and what is wrong with it.
pub open spec fn retyped_form(
    form: Seq<(Seq<char>, Seq<char>)>,
    existing: Option<Check>,
    error: Seq<char>,
) -> FormTexts {
    let frame = match existing {
        Some(check) => edit_form(check),
        None => blank_form(),
    };
    FormTexts {
        error: Some(error),
        heading: frame.heading,
        action: frame.action,
        cancel_url: frame.cancel_url,
        name: field_of(form, "name"@),
        description: field_of(form, "description"@),
        tags: field_of(form, "tags"@),
        kind: field_of(form, "kind"@),
        period: field_of(form, "period"@),
        cron: field_of(form, "cron"@),
        tz: field_of(form, "tz"@),
        grace: field_of(form, "grace"@),
    }
}

/// The form for a new check, with the channels on offer.
pub fn new_check_form(channels: &Vec<Channel>) -> (r: CheckForm)
    ensures
        r@ == blank_form(),
        offers_all(r.channels@, channels@, Seq::empty()),
{
    let none: Vec<i64> = Vec::new();
    assert(none@ =~= Seq::<i64>::empty());
    CheckForm {
        error: None,
        heading: "New check".to_owned(),
        action: "/checks".to_owned(),
        cancel_url: "/".to_owned(),
        name: "".to_owned(),
        description: "".to_owned(),
        tags: "".to_owned(),
        kind: "simple".to_owned(),
        period: "1d".to_owned(),
        cron: "".to_owned(),
        tz: "UTC".to_owned(),
        grace: "1h".to_owned(),
        channels: channel_choices(channels, &none),
    }
}

/// The address of a check's page.
fn page_of(check: &Check) -> (r: String)
    ensures
        r@ == "/checks/"@ + check.uuid@,
{
    let mut r = "/checks/".to_owned();
    r.append(check.uuid.as_str());
    r
}

/// The heading of the form for a check that is there.
fn edit_heading(check: &Check) -> (r: String)
    ensures
        r@ == "Edit "@ + check.name@,
{
    let mut r = "Edit ".to_owned();
    r.append(check.name.as_str());
    r
}

/// The form for a check that is there, with the channels on offer and those
/// attached ticked.
pub fn edit_check_form(check: &Check, channels: &Vec<Channel>, attached: &Vec<i64>) -> (r:
    CheckForm)
    ensures
        r@ == edit_form(*check),
        offers_all(r.channels@, channels@, attached@),
{
    CheckForm {
        error: None,
        heading: edit_heading(check),
        action: page_of(check),
        cancel_url: page_of(check),
        name: check.name.clone(),
        description: check.description.clone(),
        tags: check.tags.clone(),
        kind: check.kind.as_str().to_owned(),
        period: model::format_duration(check.period_s),
        cron: text_or_nothing(&check.cron_expr),
        tz: check.tz.clone(),
        grace: model::format_duration(check.grace_s),
        channels: channel_choices(channels, attached),
    }
}

/// The form with what was typed, so a rejected cron expression does not cost
/// the operator the rest of their input.
pub fn form_with_error(
    form: &Vec<(String, String)>,
    existing: Option<&Check>,
    error: &str,
    channels: &Vec<Channel>,
) -> (r: CheckForm)
    ensures
        r@ == retyped_form(
            fields::pairs(form@),
            match existing {
                Some(check) => Some(*check),
                None => None,
            },
            error@,
        ),
        offers_all(r.channels@, channels@, ticked_in(fields::pairs(form@))),
{
    let (heading, action, cancel_url) = match existing {
        Some(check) => (edit_heading(check), page_of(check), page_of(check)),
        None => ("New check".to_owned(), "/checks".to_owned(), "/".to_owned()),
    };
    let selected = selected_channels(form);
    let choices = channel_choices(channels, &selected);
    proof {
        let asked = ticked_in(fields::pairs(form@));
        assert forall|i: int| 0 <= i < channels@.len() implies offers(
            #[trigger] choices@[i],
            channels@[i],
            asked,
        ) by {
            vstd::seq_lib::to_multiset_contains(selected@, channels@[i].id);
            vstd::seq_lib::to_multiset_contains(asked, channels@[i].id);
        }
    }
    CheckForm {
        error: Some(error.to_owned()),
        heading,
        action,
        cancel_url,
        name: field(form, "name"),
        description: field(form, "description"),
        tags: field(form, "tags"),
        kind: field(form, "kind"),
        period: field(form, "period"),
        cron: field(form, "cron"),
        tz: field(form, "tz"),
        grace: field(form, "grace"),
        channels: choices,
    }
}

/// The kind of schedule that a form asks for.
pub open spec fn form_kind(form: Seq<(Seq<char>, Seq<char>)>) -> CheckKind {
    if field_of(form, "kind"@) == "cron"@ {
        CheckKind::Cron
    } else {
        CheckKind::Simple
    }
}

/// The period that a form asks for.
pub open spec fn form_period(form: Seq<(Seq<char>, Seq<char>)>) -> Seq<char> {
    or_if_empty(field_of(form, "period"@), "1d"@)
}

/// The grace that a form asks for.
pub open spec fn form_grace(form: Seq<(Seq<char>, Seq<char>)>) -> Seq<char> {
    or_if_empty(field_of(form, "grace"@), "1h"@)
}

/// Why a form asks for no check, when it does not.
pub open spec fn form_refusal(form: Seq<(Seq<char>, Seq<char>)>) -> Option<Seq<char>> {
    if field_of(form, "name"@).len() == 0 {
        Some("name is required"@)
    } else {
        match model::duration_of(form_period(form)) {
            Err(e) => Some(e.text(form_period(form))),
            Ok(_) => match model::duration_of(form_grace(form)) {
                Err(e) => Some(e.text(form_grace(form))),
                Ok(_) => None,
            },
        }
    }
}

/// Whether the durations in a form that are looked at fit 64 bits.
pub open spec fn form_fits(form: Seq<(Seq<char>, Seq<char>)>) -> bool {
    field_of(form, "name"@).len() > 0 ==> {
        &&& model::duration_fits(form_period(form))
        &&& model::duration_of(form_period(form)) is Ok ==> model::duration_fits(form_grace(form))
    }
}

/// Whether `new` is the check that a form asks for.
pub open spec fn form_asks_for(form: Seq<(Seq<char>, Seq<char>)>, new: NewCheck) -> bool {
    &&& new.name@ == field_of(form, "name"@)
    &&& new.description@ == field_of(form, "description"@)
    &&& new.tags@ == field_of(form, "tags"@)
    &&& new.kind == form_kind(form)
    &&& model::duration_of(form_period(form)) == Ok::<int, model::DurationError>(
        new.period_s as int,
    )
    &&& model::duration_of(form_grace(form)) == Ok::<int, model::DurationError>(new.grace_s as int)
    &&& outside::text_of(new.cron_expr) == match form_kind(form) {
        CheckKind::Cron => Some(field_of(form, "cron"@)),
        CheckKind::Simple => None,
    }
    &&& new.tz@ == or_if_empty(field_of(form, "tz"@), "UTC"@)
}

/// Whether the durations in a form that are looked at fit 64 bits.
pub fn can_read_form(form: &Vec<(String, String)>) -> (r: bool)
    ensures
        r == form_fits(fields::pairs(form@)),
{
    if field(form, "name").as_str().unicode_len() == 0 {
        return true;
    }
    let period = field_or(form, "period", "1d");
    if !model::fits(period.as_str()) {
        return false;
    }
    match model::parse_duration(period.as_str()) {
        Ok(_) => model::fits(field_or(form, "grace", "1h").as_str()),
        Err(_) => true,
    }
}

/// The check that a form asks for, or why there is none.
pub fn new_check_from_form(form: &Vec<(String, String)>) -> (r: Result<NewCheck, Error>)
    requires
        form_fits(fields::pairs(form@)),
    ensures
        match form_refusal(fields::pairs(form@)) {
            Some(why) => r matches Err(e) && e@ == why,
            None => r matches Ok(new) && form_asks_for(fields::pairs(form@), new),
        },
{
    let name = field(form, "name");
    if name.as_str().unicode_len() == 0 {
        return Err(Error::new("name is required"));
    }
    let kind = if text::same(field(form, "kind").as_str(), "cron") {
        CheckKind::Cron
    } else {
        CheckKind::Simple
    };
    let cron_expr = match kind {
        CheckKind::Cron => Some(field(form, "cron")),
        CheckKind::Simple => None,
    };
    let period = field_or(form, "period", "1d");
    let period_s: i64 = match model::parse_duration(period.as_str()) {
        Ok(secs) => secs,
        Err(e) => {
            return Err(Error { message: e.message(period.as_str()) });
        },
    };
    let grace = field_or(form, "grace", "1h");
    let grace_s: i64 = match model::parse_duration(grace.as_str()) {
        Ok(secs) => secs,
        Err(e) => {
            return Err(Error { message: e.message(grace.as_str()) });
        },
    };
    Ok(
        NewCheck {
            name,
            description: field(form, "description"),
            tags: field(form, "tags"),
            kind,
            period_s,
            grace_s,
            cron_expr,
            tz: field_or(form, "tz", "UTC"),
        },
    )
}

// ------------------------------------------------------------ channel form

/// The headers on some lines, "Name: value" on each, matching what a reverse
/// proxy config or curl invocation looks like. Blank lines say nothing; a name
/// that comes again replaces its value. Otherwise, the first line that is no
/// header.
pub open spec fn headers_on(lines: Seq<Seq<char>>) -> Result<
    Seq<(Seq<char>, Seq<char>)>,
    Seq<char>,
>
    decreases lines.len(),
{
    if lines.len() == 0 {
        Ok(Seq::empty())
    } else {
        match headers_on(lines.drop_last()) {
            Err(line) => Err(line),
            Ok(list) => {
                let line = text::trimmed(lines.last());
                if line.len() == 0 {
                    Ok(list)
                } else {
                    match text::cut(line, ':') {
                        Some((name, value)) => Ok(
                            fields::with_value(list, text::trimmed(name), text::trimmed(value)),
                        ),
                        None => Err(line),
                    }
                }
            },
        }
    }
}

/// The words for a line that is no header.
pub open spec fn bad_header_text(line: Seq<char>) -> Seq<char> {
    "Header "@ + outside::debug_text(line) + " is not \"Name: value\""@
}

/// Once a line is no header, the lines after it do not matter.
proof fn lemma_first_bad_line(lines: Seq<Seq<char>>, n: int)
    requires
        0 <= n <= lines.len(),
        headers_on(lines.take(n)) is Err,
    ensures
        headers_on(lines) == headers_on(lines.take(n)),
    decreases lines.len() - n,
{
    if n < lines.len() {
        assert(lines.take(n + 1).drop_last() =~= lines.take(n));
        lemma_first_bad_line(lines, n + 1);
    } else {
        assert(lines.take(n) =~= lines);
    }
}

/// The headers on the lines of a text.
fn read_headers(s: &str) -> (r: Result<Vec<(String, String)>, Error>)
    ensures
        match headers_on(text::lines_of(s@)) {
            Ok(list) => r matches Ok(headers) && fields::pairs(headers@) == list,
            Err(line) => r matches Err(e) && e@ == bad_header_text(line),
        },
{
    let lines = text::split_lines(s);
    let ghost all = text::views(lines@);
    let mut headers: Vec<(String, String)> = Vec::new();
    let mut i: usize = 0;
    assert(fields::pairs(headers@) =~= Seq::empty());
    assert(all.take(0) =~= Seq::empty());
    while i < lines.len()
        invariant
            i <= lines@.len(),
            all == text::views(lines@),
            all == text::lines_of(s@),
            headers_on(all.take(i as int)) == Ok::<Seq<(Seq<char>, Seq<char>)>, Seq<char>>(
                fields::pairs(headers@),
            ),
        decreases lines@.len() - i,
    {
        assert(all.take(i + 1).drop_last() =~= all.take(i as int));
        assert(all.take(i + 1).last() == lines@[i as int]@);
        let line = text::trim(lines[i].as_str());
        if line.as_str().unicode_len() > 0 {
            match text::split_once(line.as_str(), ':') {
                Some((name, value)) => {
                    fields::put(
                        &mut headers,
                        text::trim(name.as_str()),
                        text::trim(value.as_str()),
                    );
                },
                None => {
                    proof {
                        lemma_first_bad_line(all, i + 1);
                    }
                    let mut message = "Header ".to_owned();
                    message.append(outside::debug_str(line.as_str()).as_str());
                    message.append(" is not \"Name: value\"");
                    return Err(Error { message });
                },
            }
        }
        i = i + 1;
    }
    assert(all.take(i as int) =~= all);
    Ok(headers)
}

/// Why a form asks for no channel, when it does not.
pub open spec fn channel_refusal(form: Seq<(Seq<char>, Seq<char>)>) -> Option<Seq<char>> {
    if field_of(form, "name"@).len() == 0 {
        Some("Channel name is required"@)
    } else if field_of(form, "kind"@) == "ntfy"@ {
        None
    } else {
        match headers_on(text::lines_of(field_of(form, "headers"@))) {
            Ok(_) => None,
            Err(line) => Some(bad_header_text(line)),
        }
    }
}

/// Whether `new` is the channel that a form asks for.
pub open spec fn form_asks_channel(form: Seq<(Seq<char>, Seq<char>)>, new: NewChannel) -> bool {
    &&& new.name@ == field_of(form, "name"@)
    &&& match new.config {
        ChannelConfig::Ntfy(cfg) => {
            &&& field_of(form, "kind"@) == "ntfy"@
            &&& cfg.server@ == or_if_empty(field_of(form, "server"@), "https://ntfy.sh"@)
            &&& cfg.topic@ == field_of(form, "topic"@)
            &&& outside::text_of(cfg.token) == unless_empty(field_of(form, "token"@))
            &&& cfg.priority == match text::parsed_uint(field_of(form, "priority"@), 255) {
                Some(n) => Some(n as u8),
                None => None,
            }
        },
        ChannelConfig::Webhook(cfg) => {
            &&& field_of(form, "kind"@) != "ntfy"@
            &&& cfg.url@ == field_of(form, "url"@)
            &&& outside::text_of(cfg.method) == Some(
                or_if_empty(field_of(form, "method"@), "POST"@),
            )
            &&& headers_on(text::lines_of(field_of(form, "headers"@))) == Ok::<
                Seq<(Seq<char>, Seq<char>)>,
                Seq<char>,
            >(fields::pairs(cfg.headers@))
            &&& outside::text_of(cfg.body) == unless_empty(field_of(form, "body"@))
        },
    }
}

/// The channel that a form asks for, or why there is none.
pub fn create_channel(form: &Vec<(String, String)>) -> (r: Result<NewChannel, Error>)
    ensures
        match channel_refusal(fields::pairs(form@)) {
            Some(why) => r matches Err(e) && e@ == why,
            None => r matches Ok(new) && form_asks_channel(fields::pairs(form@), new),
        },
{
    let name = field(form, "name");
    if name.as_str().unicode_len() == 0 {
        return Err(Error::new("Channel name is required"));
    }
    let config = if text::same(field(form, "kind").as_str(), "ntfy") {
        let priority = match text::parse_uint(field(form, "priority").as_str(), 255) {
            Some(n) => Some(n as u8),
            None => None,
        };
        ChannelConfig::Ntfy(
            NtfyConfig {
                server: field_or(form, "server", "https://ntfy.sh"),
                topic: field(form, "topic"),
                token: non_empty(field(form, "token")),
                priority,
            },
        )
    } else {
        let headers = match read_headers(field(form, "headers").as_str()) {
            Ok(headers) => headers,
            Err(e) => {
                return Err(e);
            },
        };
        ChannelConfig::Webhook(
            WebhookConfig {
                url: field(form, "url"),
                method: Some(field_or(form, "method", "POST")),
                headers,
                body: non_empty(field(form, "body")),
            },
        )
    };
    Ok(NewChannel { name, config })
}

// ----------------------------------------------------------------- outcomes

/// Go to the page of a check and say that something worked.
fn to_check(uuid: &str, message: &str) -> (r: Reply)
    ensures
        r@ == web::see_other(with_message("/checks/"@ + uuid@, "?ok="@, message@)),
{
    let mut path = "/checks/".to_owned();
    path.append(uuid);
    redirect_ok(path.as_str(), message)
}

/// What the form for a new check is answered, once the check is there.
pub fn check_created(uuid: &str) -> (r: Reply)
    ensures
        r@ == web::see_other(with_message("/checks/"@ + uuid@, "?ok="@, "Check created"@)),
{
    to_check(uuid, "Check created")
}

/// What the form for a check is answered, once it is saved.
pub fn check_saved(uuid: &str) -> (r: Reply)
    ensures
        r@ == web::see_other(with_message("/checks/"@ + uuid@, "?ok="@, "Check saved"@)),
{
    to_check(uuid, "Check saved")
}

/// What a request to pause a check is answered.
pub fn check_paused(uuid: &str) -> (r: Reply)
    ensures
        r@ == web::see_other(with_message("/checks/"@ + uuid@, "?ok="@, "Check paused"@)),
{
    to_check(uuid, "Check paused")
}

/// What a request to resume a check is answered.
pub fn check_resumed(uuid: &str) -> (r: Reply)
    ensures
        r@ == web::see_other(with_message("/checks/"@ + uuid@, "?ok="@, "Check resumed"@)),
{
    to_check(uuid, "Check resumed")
}

/// What a request to delete a check is answered.
pub fn check_deleted() -> (r: Reply)
    ensures
        r@ == web::see_other(with_message("/"@, "?ok="@, "Check deleted"@)),
{
    redirect_ok("/", "Check deleted")
}

/// What a request to delete a channel is answered.
pub fn channel_deleted() -> (r: Reply)
    ensures
        r@ == web::see_other(with_message("/channels"@, "?ok="@, "Channel deleted"@)),
{
    redirect_ok("/channels", "Channel deleted")
}

/// What the form for a channel is answered.
pub fn channel_added(outcome: &Result<(), Error>) -> (r: Reply)
    ensures
        r@ == match *outcome {
            Ok(_) => web::see_other(with_message("/channels"@, "?ok="@, "Channel added"@)),
            Err(e) => web::see_other(with_message("/channels"@, "?err="@, e@)),
        },
{
    match outcome {
        Ok(()) => redirect_ok("/channels", "Channel added"),
        Err(e) => redirect_err("/channels", e.message.as_str()),
    }
}

/// What a request to test a channel is answered.
pub fn channel_tested(name: &str, outcome: &Result<(), SendError>) -> (r: Reply)
    ensures
        r@ == match *outcome {
            Ok(_) => web::see_other(
                with_message("/channels"@, "?ok="@, "Test alert sent through "@ + name@),
            ),
            Err(e) => web::see_other(
                with_message("/channels"@, "?err="@, "Delivery failed: "@ + e.message@),
            ),
        },
{
    match outcome {
        Ok(()) => {
            let mut message = "Test alert sent through ".to_owned();
            message.append(name);
            redirect_ok("/channels", message.as_str())
        },
        Err(e) => {
            let mut message = "Delivery failed: ".to_owned();
            message.append(e.message.as_str());
            redirect_err("/channels", message.as_str())
        },
    }
}

// -------------------------------------------------------------------- auth

/// Whether the password in a sign-in form is the one stored.
pub fn password_is_right(stored: Option<&str>, form: &Vec<(String, String)>) -> (r: bool)
    ensures
        r == auth::lets_in(
            schedule::chars(stored),
            field_of(fields::pairs(form@), "password"@),
        ),
{
    auth::verify_password(stored, field(form, "password").as_str())
}

/// What a sign-in is answered: the session's cookie, or another try.
pub fn login(token: Option<&str>, site_url: &str) -> (r: Reply)
    ensures
        r@ == match token {
            Some(token) => (web::Answer {
                cookie: Some(auth::cookie_for(token@, site_url@)),
                ..web::see_other("/"@)
            }),
            None => web::see_other(with_message("/login"@, "?err="@, "Wrong password"@)),
        },
{
    match token {
        Some(token) => {
            let mut r = Reply::see_other("/".to_owned());
            r.cookie = Some(auth::session_cookie(token, site_url));
            r
        },
        None => redirect_err("/login", "Wrong password"),
    }
}

/// What a sign-out is answered.
pub fn logout() -> (r: Reply)
    ensures
        r@ == (web::Answer {
            cookie: Some(
                auth::SESSION_COOKIE@ + "=; Path=/; HttpOnly; SameSite=Lax; Max-Age=0"@,
            ),
            ..web::see_other("/login"@)
        }),
{
    let mut r = Reply::see_other("/login".to_owned());
    r.cookie = Some(auth::cleared_cookie());
    r
}

// -------------------------------------------------------------------- laws

/// The headers of a channel have distinct names.
pub proof fn law_header_names_are_distinct(lines: Seq<Seq<char>>)
    ensures
        headers_on(lines) matches Ok(list) ==> fields::distinct(list),
    decreases lines.len(),
{
    if lines.len() > 0 {
        law_header_names_are_distinct(lines.drop_last());
        if let Ok(list) = headers_on(lines.drop_last()) {
            let line = text::trimmed(lines.last());
            if let Some((name, value)) = text::cut(line, ':') {
                fields::law_put_keeps_names_distinct(
                    list,
                    text::trimmed(name),
                    text::trimmed(value),
                );
            }
        }
    }
}

/// Whoever types the password that was set gets in, when it has no white space
/// around it: a form's fields are read without.
pub proof fn law_right_password_signs_in(
    form: Seq<(Seq<char>, Seq<char>)>,
    plain: Seq<char>,
    stored: Seq<char>,
)
    requires
        fields::value_of(form, "password"@) == Some(plain),
        text::trimmed(plain) == plain,
        auth::lets_in(Some(stored), plain),
    ensures
        auth::lets_in(Some(stored), field_of(form, "password"@)),
{
}

/// A form that is shown again after a refusal holds what was typed, and says
/// why it was refused.
pub proof fn law_refused_form_keeps_input(
    form: Seq<(Seq<char>, Seq<char>)>,
    existing: Option<Check>,
    error: Seq<char>,
)
    ensures
        ({
            let shown = retyped_form(form, existing, error);
            &&& shown.error == Some(error)
            &&& shown.name == field_of(form, "name"@)
            &&& shown.period == field_of(form, "period"@)
            &&& shown.grace == field_of(form, "grace"@)
            &&& shown.cron == field_of(form, "cron"@)
            &&& shown.tz == field_of(form, "tz"@)
        }),
{
}

/// Saving the form of a check unchanged keeps its durations, when each is told
/// in full by its two largest units.
pub proof fn law_unchanged_form_keeps_durations(check: Check)
    requires
        check.period_s > 0,
        check.grace_s > 0,
        model::rounded(check.period_s as int, 0, 2) == check.period_s,
        model::rounded(check.grace_s as int, 0, 2) == check.grace_s,
    ensures
        model::duration_of(edit_form(check).period) == Ok::<int, model::DurationError>(
            check.period_s as int,
        ),
        model::duration_of(edit_form(check).grace) == Ok::<int, model::DurationError>(
            check.grace_s as int,
        ),
{
    model::law_shown_duration_reads_back(check.period_s);
    model::law_shown_duration_reads_back(check.grace_s);
}

/// A field of a form is the first value under its name, without the white space
/// around it, and empty where the form has none.
pub proof fn law_fields_of_a_form(
    before: Seq<(Seq<char>, Seq<char>)>,
    name: Seq<char>,
    value: Seq<char>,
    after: Seq<(Seq<char>, Seq<char>)>,
)
    requires
        forall|i: int| 0 <= i < before.len() ==> (#[trigger] before[i]).0 != name,
    ensures
        field_of(before + seq![(name, value)] + after, name) == text::trimmed(value),
        field_of(before, name).len() == 0,
{
    reveal_strlit("");
    fields::law_first_value_is_found(before, name, value, after);
}

/// An empty field stands for nothing, or for what is usual.
pub proof fn law_empty_fields(value: Seq<char>, usual: Seq<char>)
    ensures
        value.len() == 0 ==> unless_empty(value) is None && or_if_empty(value, usual) == usual,
        value.len() > 0 ==> unless_empty(value) == Some(value) && or_if_empty(value, usual)
            == value,
{
}

/// A message travels in the query string of the address it is shown at.
pub proof fn law_messages_travel(path: Seq<char>, key: Seq<char>, message: Seq<char>)
    ensures
        with_message(path, key, message) == path + key + outside::percent_bytes(
            encode_utf8(message),
        ),
{
}

/// How times are told on the pages.
pub proof fn law_times_on_pages(check: Check, ts: Option<i64>, now: int, ms: int)
    ensures
        ts is None ==> ago_text(ts, now) == "never"@,
        ts matches Some(t) ==> ago_text(ts, now) == if t <= now {
            model::duration_text(now - t) + " ago"@
        } else {
            model::ts_text(t as int)
        },
        check.alert_after is None ==> late_in_text(check, now) == "—"@,
        check.alert_after matches Some(t) ==> late_in_text(check, now) == if now < t {
            model::duration_text(t - now)
        } else {
            "overdue by "@ + model::duration_text(now - t)
        },
        ms >= 0 ==> millis_text(ms) == model::duration_text(ms / 1000),
        ms < 0 ==> millis_text(ms) == model::duration_text(0),
{
}

/// A row of the front page is about its check.
pub proof fn law_what_a_row_says(row: CheckRow, check: Check, now: int)
    requires
        lists(row, check, now),
    ensures
        row.uuid@ == check.uuid@,
        row.name@ == check.name@,
        row.status@ == check.status.word(),
        text::views(row.tags@) == text::words(check.tags@),
        row.schedule@ == check.summary(),
        row.last_ping@ == ago_text(check.last_ping_at, now),
        row.late_in@ == late_in_text(check, now),
        row.n_pings == check.n_pings,
{
}

/// The front page counts all checks, and those that are down.
pub proof fn law_checks_are_counted(checks: Seq<Check>, more: Seq<Check>, check: Check)
    ensures
        downs(checks + more) == downs(checks) + downs(more),
        downs(seq![check]) == if check.status == Status::Down {
            1nat
        } else {
            0nat
        },
        summary_text(checks) == text::decimal_nat(checks.len()) + (" check"@) + (
        if checks.len() == 1 {
            ""@
        } else {
            "s"@
        }) + ", "@ + text::decimal_nat(downs(checks)) + " down"@,
    decreases more.len(),
{
    let one = seq![check];
    assert(one.drop_last() =~= Seq::empty());
    assert(one.last() == check);
    assert(downs(Seq::empty()) == 0);
    if more.len() == 0 {
        assert(checks + more =~= checks);
    } else {
        law_checks_are_counted(checks, more.drop_last(), check);
        assert((checks + more).drop_last() =~= checks + more.drop_last());
        assert((checks + more).last() == more.last());
    }
}

/// A row of a check's log is about its ping.
pub proof fn law_what_a_log_row_says(row: PingRow, ping: Ping)
    requires
        logs(row, ping),
    ensures
        row.n == ping.n,
        row.when@ == model::ts_text(ping.ts as int),
        row.kind@ == ping.kind.word(),
        ping.exit_code matches Some(code) ==> row.exit_code@ == text::decimal(code as int),
        ping.exit_code is None ==> row.exit_code@ == ""@,
        ping.duration_ms matches Some(ms) ==> row.duration@ == millis_text(ms as int),
        ping.duration_ms is None ==> row.duration@ == ""@,
        ping.method matches Some(method) ==> row.method@ == method@,
        ping.remote_addr matches Some(addr) ==> row.remote_addr@ == addr@,
        ping.user_agent matches Some(agent) ==> row.user_agent@ == agent@,
        ping.body matches Some(body) ==> row.body@ == body@,
        ping.method is None ==> row.method@ == ""@,
        ping.remote_addr is None ==> row.remote_addr@ == ""@,
        ping.user_agent is None ==> row.user_agent@ == ""@,
        ping.body is None ==> row.body@ == ""@,
{
}

/// The page of a check is about it, its channels and its pings, each in its row.
pub proof fn law_what_a_page_says(
    page: DetailPage,
    check: Check,
    channels: Seq<Channel>,
    pings: Seq<Ping>,
    site: Seq<char>,
    now: int,
    i: int,
)
    requires
        details(page, check, channels, pings, site, now),
        0 <= i < pings.len(),
    ensures
        page.uuid@ == check.uuid@,
        page.name@ == check.name@,
        page.status@ == check.status.word(),
        page.schedule@ == check.summary(),
        page.last_ping@ == ago_text(check.last_ping_at, now),
        page.late_in@ == late_in_text(check, now),
        page.n_pings == check.n_pings,
        page.last_duration is Some == check.last_duration_ms is Some,
        check.last_duration_ms matches Some(ms) ==> page.last_duration->0@ == millis_text(
            ms as int,
        ),
        page.description@ == check.description@,
        text::views(page.tags@) == text::words(check.tags@),
        page.ping_url@ == config::ping_base_of(site) + "/"@ + check.uuid@,
        channels.len() == 0 ==> page.channels@ == "none — alerts go nowhere"@,
        channels.len() > 0 ==> page.channels@ == text::joined(
            channels.map_values(|c: Channel| c.name@),
            ", "@,
        ),
        page.pings@.len() == pings.len(),
        page.pings@[i].n == pings[i].n,
        page.pings@[i].when@ == model::ts_text(pings[i].ts as int),
        page.pings@[i].kind@ == pings[i].kind.word(),
{
    assert(names_of(channels) =~= channels.map_values(|c: Channel| c.name@));
    assert(logs(page.pings@[i], pings[i]));
}

/// A channel leads to the address of its webhook, or to its topic on its server.
pub proof fn law_where_a_channel_leads(channel: Channel)
    ensures
        channel.kind == ChannelKind::Webhook ==> target_text(channel)
            == match outside::json_text_field(channel.config@, "url"@) {
            Some(url) => url,
            None => "?"@,
        },
        channel.kind == ChannelKind::Ntfy ==> target_text(channel) == text::trim_end_of(
            match outside::json_text_field(channel.config@, "server"@) {
                Some(server) => server,
                None => "https://ntfy.sh"@,
            },
            '/',
        ) + "/"@ + match outside::json_text_field(channel.config@, "topic"@) {
            Some(topic) => topic,
            None => "?"@,
        },
{
}

/// A form offers every channel, in their order, and shows those that are
/// selected.
pub proof fn law_channels_are_offered(
    choices: Seq<ChannelChoice>,
    channels: Seq<Channel>,
    selected: Seq<i64>,
    i: int,
)
    requires
        offers_all(choices, channels, selected),
        0 <= i < channels.len(),
    ensures
        choices.len() == channels.len(),
        choices[i].id == channels[i].id,
        choices[i].name@ == channels[i].name@,
        choices[i].kind@ == channels[i].kind.word(),
        choices[i].target@ == target_text(channels[i]),
        choices[i].selected <==> exists|k: int|
            0 <= k < selected.len() && #[trigger] selected[k] == channels[i].id,
{
    assert(offers(choices[i], channels[i], selected));
}

/// The channels that a form selects are those whose boxes it names.
pub proof fn law_ticked_boxes(
    form: Seq<(Seq<char>, Seq<char>)>,
    more: Seq<(Seq<char>, Seq<char>)>,
    id: i64,
    name: Seq<char>,
    value: Seq<char>,
)
    requires
        name.len() < 8 || name.take(8) != "channel_"@,
    ensures
        ticked_in(form + more) == ticked_in(form) + ticked_in(more),
        ticked_in(seq![("channel_"@ + text::decimal(id as int), value)]) == seq![id],
        ticked_in(seq![(name, value)]).len() == 0,
    decreases more.len(),
{
    reveal_strlit("channel_");
    let box_name = "channel_"@ + text::decimal(id as int);
    assert(box_name.subrange(0, 8) =~= "channel_"@);
    assert(box_name.skip(8) =~= text::decimal(id as int));
    text::law_numbers_read_back(id as int, 0);
    let ticked_box = seq![(box_name, value)];
    assert(ticked_box.drop_last() =~= Seq::empty());
    assert(ticked_box.last() == (box_name, value));
    assert(ticked(box_name) == Some(id as int));
    assert(ticked_in(ticked_box.drop_last()) =~= Seq::<i64>::empty());
    assert(ticked_in(ticked_box) =~= seq![id]);
    let other = seq![(name, value)];
    assert(other.drop_last() =~= Seq::empty());
    assert(other.last() == (name, value));
    if name.len() >= 8 {
        assert(name.subrange(0, 8) =~= name.take(8));
    }
    if more.len() == 0 {
        assert(form + more =~= form);
        assert(ticked_in(form) + ticked_in(more) =~= ticked_in(form));
    } else {
        law_ticked_boxes(form, more.drop_last(), id, name, value);
        assert((form + more).drop_last() =~= form + more.drop_last());
        assert((form + more).last() == more.last());
        assert(ticked_in(form + more) =~= ticked_in(form) + ticked_in(more));
    }
}

/// The form for a new check starts out simple, daily, with an hour of grace, in
/// UTC.
pub proof fn law_blank_form()
    ensures
        blank_form() == (FormTexts {
            error: None,
            heading: "New check"@,
            action: "/checks"@,
            cancel_url: "/"@,
            name: ""@,
            description: ""@,
            tags: ""@,
            kind: "simple"@,
            period: "1d"@,
            cron: ""@,
            tz: "UTC"@,
            grace: "1h"@,
        }),
{
}

/// The form for a check holds what is known of it.
pub proof fn law_form_for_a_check(check: Check)
    ensures
        ({
            let form = edit_form(check);
            &&& form.error is None
            &&& form.heading == "Edit "@ + check.name@
            &&& form.action == "/checks/"@ + check.uuid@
            &&& form.cancel_url == "/checks/"@ + check.uuid@
            &&& form.name == check.name@
            &&& form.description == check.description@
            &&& form.tags == check.tags@
            &&& form.kind == check.kind.word()
            &&& form.period == model::duration_text(check.period_s as int)
            &&& form.grace == model::duration_text(check.grace_s as int)
            &&& form.tz == check.tz@
            &&& check.cron_expr matches Some(expr) ==> form.cron == expr@
            &&& check.cron_expr is None ==> form.cron == ""@
        }),
{
}

/// What a form asks for is what it says, with a day, an hour and UTC where it says
/// nothing; only a cron check has an expression.
pub proof fn law_what_a_form_asks_for(form: Seq<(Seq<char>, Seq<char>)>, new: NewCheck)
    requires
        form_asks_for(form, new),
    ensures
        new.name@ == field_of(form, "name"@),
        new.description@ == field_of(form, "description"@),
        new.tags@ == field_of(form, "tags"@),
        new.kind == CheckKind::Cron <==> field_of(form, "kind"@) == "cron"@,
        new.kind == CheckKind::Cron ==> new.cron_expr is Some && new.cron_expr->0@ == field_of(
            form,
            "cron"@,
        ),
        new.kind == CheckKind::Simple ==> new.cron_expr is None,
        field_of(form, "period"@).len() == 0 ==> new.period_s == 86400,
        field_of(form, "period"@).len() > 0 ==> model::duration_of(field_of(form, "period"@))
            == Ok::<int, model::DurationError>(new.period_s as int),
        field_of(form, "grace"@).len() == 0 ==> new.grace_s == 3600,
        field_of(form, "grace"@).len() > 0 ==> model::duration_of(field_of(form, "grace"@)) == Ok::<
            int,
            model::DurationError,
        >(new.grace_s as int),
        field_of(form, "tz"@).len() == 0 ==> new.tz@ == "UTC"@,
        field_of(form, "tz"@).len() > 0 ==> new.tz@ == field_of(form, "tz"@),
{
    web::api::lemma_default_durations();
}

/// A form for a check is refused without a name and for durations that cannot be
/// read, and for nothing else.
pub proof fn law_which_forms_are_refused(form: Seq<(Seq<char>, Seq<char>)>)
    ensures
        form_refusal(form) is None <==> field_of(form, "name"@).len() > 0 && (field_of(
            form,
            "period"@,
        ).len() == 0 || model::duration_of(field_of(form, "period"@)) is Ok) && (field_of(
            form,
            "grace"@,
        ).len() == 0 || model::duration_of(field_of(form, "grace"@)) is Ok),
        field_of(form, "name"@).len() == 0 ==> form_refusal(form) == Some("name is required"@),
{
    web::api::lemma_default_durations();
}

/// Header lines are read one after the other: each gives a name and a value,
/// blank ones are passed over, and one without a colon is refused.
pub proof fn law_header_lines(
    lines: Seq<Seq<char>>,
    name: Seq<char>,
    value: Seq<char>,
    line: Seq<char>,
)
    requires
        headers_on(lines) is Ok,
        forall|i: int| 0 <= i < name.len() ==> #[trigger] name[i] != ':',
    ensures
        text::trimmed(line) == name + seq![':'] + value ==> headers_on(lines.push(line)) == Ok::<
            Seq<(Seq<char>, Seq<char>)>,
            Seq<char>,
        >(fields::with_value(headers_on(lines)->Ok_0, text::trimmed(name), text::trimmed(value))),
        text::trimmed(line).len() == 0 ==> headers_on(lines.push(line)) == headers_on(lines),
        name.len() > 0 && text::trimmed(line) == name ==> headers_on(lines.push(line)) == Err::<
            Seq<(Seq<char>, Seq<char>)>,
            Seq<char>,
        >(name),
        headers_on(Seq::empty()) == Ok::<Seq<(Seq<char>, Seq<char>)>, Seq<char>>(Seq::empty()),
{
    text::law_cut_at_the_first(name, value, ':');
    assert(lines.push(line).drop_last() =~= lines);
}

/// A form for a channel asks for what it says: an ntfy topic, or a webhook, which
/// is posted to where it does not say how.
pub proof fn law_what_a_channel_form_asks_for(form: Seq<(Seq<char>, Seq<char>)>, new: NewChannel)
    requires
        form_asks_channel(form, new),
    ensures
        new.name@ == field_of(form, "name"@),
        new.config is Ntfy <==> field_of(form, "kind"@) == "ntfy"@,
        new.config matches ChannelConfig::Ntfy(cfg) ==> {
            &&& cfg.topic@ == field_of(form, "topic"@)
            &&& field_of(form, "server"@).len() > 0 ==> cfg.server@ == field_of(form, "server"@)
            &&& field_of(form, "server"@).len() == 0 ==> cfg.server@ == "https://ntfy.sh"@
            &&& cfg.token is Some <==> field_of(form, "token"@).len() > 0
            &&& cfg.token matches Some(token) ==> token@ == field_of(form, "token"@)
            &&& cfg.priority is Some <==> text::parsed_uint(field_of(form, "priority"@), 255)
                is Some
            &&& cfg.priority matches Some(priority) ==> text::parsed_uint(
                field_of(form, "priority"@),
                255,
            ) == Some(priority as int)
        },
        new.config matches ChannelConfig::Webhook(cfg) ==> {
            &&& cfg.url@ == field_of(form, "url"@)
            &&& cfg.method is Some
            &&& field_of(form, "method"@).len() > 0 ==> cfg.method->0@ == field_of(form, "method"@)
            &&& field_of(form, "method"@).len() == 0 ==> cfg.method->0@ == "POST"@
            &&& headers_on(text::lines_of(field_of(form, "headers"@))) == Ok::<
                Seq<(Seq<char>, Seq<char>)>,
                Seq<char>,
            >(fields::pairs(cfg.headers@))
            &&& cfg.body is Some <==> field_of(form, "body"@).len() > 0
            &&& cfg.body matches Some(body) ==> body@ == field_of(form, "body"@)
        },
{
}

/// A form for a channel is refused without a name and for header lines that are
/// none, and for nothing else.
pub proof fn law_which_channel_forms_are_refused(form: Seq<(Seq<char>, Seq<char>)>)
    ensures
        channel_refusal(form) is None <==> field_of(form, "name"@).len() > 0 && (field_of(
            form,
            "kind"@,
        ) == "ntfy"@ || headers_on(text::lines_of(field_of(form, "headers"@))) is Ok),
        field_of(form, "name"@).len() == 0 ==> channel_refusal(form) == Some(
            "Channel name is required"@,
        ),
        field_of(form, "name"@).len() > 0 && field_of(form, "kind"@) != "ntfy"@ ==> (headers_on(
            text::lines_of(field_of(form, "headers"@)),
        ) matches Err(line) ==> channel_refusal(form) == Some(
            "Header "@ + outside::debug_text(line) + " is not \"Name: value\""@,
        )),
{
}

/// A form that is shown again keeps the rest of what was typed too, under the
/// heading and addresses of the form it was.
pub proof fn law_refused_form_is_the_same_form(
    form: Seq<(Seq<char>, Seq<char>)>,
    existing: Option<Check>,
    error: Seq<char>,
)
    ensures
        ({
            let shown = retyped_form(form, existing, error);
            &&& shown.description == field_of(form, "description"@)
            &&& shown.tags == field_of(form, "tags"@)
            &&& shown.kind == field_of(form, "kind"@)
            &&& existing matches Some(check) ==> shown.heading == "Edit "@ + check.name@
                && shown.action == "/checks/"@ + check.uuid@ && shown.cancel_url == "/checks/"@
                + check.uuid@
            &&& existing is None ==> shown.heading == "New check"@ && shown.action == "/checks"@
                && shown.cancel_url == "/"@
        }),
{
}

/// A form says what its texts are.
pub proof fn law_forms_say_what_they_say(form: CheckForm)
    ensures
        form@.error is Some == form.error is Some,
        form.error matches Some(error) ==> form@.error->0 == error@,
        form@.heading == form.heading@,
        form@.action == form.action@,
        form@.cancel_url == form.cancel_url@,
        form@.name == form.name@,
        form@.description == form.description@,
        form@.tags == form.tags@,
        form@.kind == form.kind@,
        form@.period == form.period@,
        form@.cron == form.cron@,
        form@.tz == form.tz@,
        form@.grace == form.grace@,
{
}

/// What is shown of times fits exactly where the time between each and now does.
pub proof fn law_which_times_fit(check: Check, now: int)
    ensures
        times_fit(check, now) <==> (check.last_ping_at matches Some(t) ==> now - t <= i64::MAX) && (
        check.alert_after matches Some(t) ==> now - t <= i64::MAX && t - now <= i64::MAX),
        i64::MIN <= now <= i64::MAX ==> (check.last_ping_at matches Some(t) ==> t >= 0 && now >= 0)
            && (check.alert_after matches Some(t) ==> t >= 0 && now >= 0) ==> times_fit(check, now),
{
}

/// The durations of a form can be read exactly where they fit 64 bits.
pub proof fn law_which_forms_fit(form: Seq<(Seq<char>, Seq<char>)>)
    ensures
        form_fits(form) <==> (field_of(form, "name"@).len() > 0 ==> model::duration_fits(
            form_period(form),
        ) && (model::duration_of(form_period(form)) is Ok ==> model::duration_fits(
            form_grace(form),
        ))),
        form_period(form) == if field_of(form, "period"@).len() > 0 {
            field_of(form, "period"@)
        } else {
            "1d"@
        },
        form_grace(form) == if field_of(form, "grace"@).len() > 0 {
            field_of(form, "grace"@)
        } else {
            "1h"@
        },
{
}

/// Channels that a form selects come in the order of their numbers.
pub proof fn law_order_of_selected(ids: Seq<i64>)
    ensures
        ascending(ids) <==> forall|i: int, j: int|
            0 <= i < j < ids.len() ==> #[trigger] ids[i] <= #[trigger] ids[j],
{
}

} // verus!
