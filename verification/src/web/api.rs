//! The HTTP API: who may use it, what it takes and gives, and status badges.

use vstd::prelude::*;
use vstd::utf8::*;

use crate::auth;
use crate::config;
use crate::error;
use crate::error::AppError;
use crate::model;
use crate::model::{Check, CheckKind, Status};
use crate::outside;
use crate::schedule;
use crate::store::NewCheck;
use crate::text;
use crate::web;
use crate::web::Reply;

verus! {

/// The header that carries an API key.
pub const API_KEY_HEADER: &'static str = "x-api-key";

// -------------------------------------------------------------------- keys

/// An API key as it is stored: only its hash.
#[derive(Debug)]
pub struct ApiKey {
    pub id: i64,
    pub key_hash: String,
    /// Whether the key may only look.
    pub read_only: bool,
}

/// What a request to the API meets.
#[derive(Debug, Clone, Copy, PartialEq, Eq, Structural)]
pub enum KeyAccess {
    Allowed,
    /// No key, or none that is known.
    Unauthorized,
    /// The key may only look.
    ReadOnly,
    /// The keys cannot be read.
    Failed,
}

/// The first stored key that was presented.
pub open spec fn key_for(rows: Seq<ApiKey>, presented: Seq<char>) -> Option<ApiKey>
    decreases rows.len(),
{
    if rows.len() == 0 {
        None
    } else if rows[0].key_hash@ == auth::secret_hash(presented) {
        Some(rows[0])
    } else {
        key_for(rows.skip(1), presented)
    }
}

/// What a request with a method meets, given the key it presents and the keys
/// that were found for it, if they could be read.
pub open spec fn key_access(
    presented: Option<Seq<char>>,
    rows: Option<Seq<ApiKey>>,
    method: Seq<char>,
) -> KeyAccess {
    match presented {
        None => KeyAccess::Unauthorized,
        Some(presented) => match rows {
            None => KeyAccess::Failed,
            Some(rows) => match key_for(rows, presented) {
                None => KeyAccess::Unauthorized,
                Some(key) => if key.read_only && method != "GET"@ {
                    KeyAccess::ReadOnly
                } else {
                    KeyAccess::Allowed
                },
            },
        },
    }
}

/// The place of the first stored key that was presented.
fn find_key(rows: &Vec<ApiKey>, presented: &str) -> (r: Option<usize>)
    ensures
        r is None == key_for(rows@, presented@) is None,
        r matches Some(i) ==> i < rows@.len() && key_for(rows@, presented@) == Some(
            rows@[i as int],
        ),
{
    let hash = auth::hash_secret(presented);
    let mut i: usize = 0;
    assert(rows@.skip(0) =~= rows@);
    while i < rows.len()
        invariant
            i <= rows@.len(),
            hash@ == auth::secret_hash(presented@),
            key_for(rows@, presented@) == key_for(rows@.skip(i as int), presented@),
        decreases rows@.len() - i,
    {
        assert(rows@.skip(i as int)[0] == rows@[i as int]);
        assert(rows@.skip(i as int).skip(1) =~= rows@.skip(i + 1));
        if text::same(rows[i].key_hash.as_str(), hash.as_str()) {
            return Some(i);
        }
        i = i + 1;
    }
    None
}

/// Authenticate every API request, and refuse writes to read-only keys.
///
/// Read-only keys exist so a status page or a dashboard can poll the API
/// without holding a credential that could delete checks.
pub fn require_api_key(
    presented: Option<&str>,
    rows: Option<&Vec<ApiKey>>,
    method: &str,
) -> (r: KeyAccess)
    ensures
        r == key_access(
            schedule::chars(presented),
            match rows {
                Some(rows) => Some(rows@),
                None => None,
            },
            method@,
        ),
{
    let presented = match presented {
        Some(presented) => presented,
        None => {
            return KeyAccess::Unauthorized;
        },
    };
    let rows = match rows {
        Some(rows) => rows,
        None => {
            return KeyAccess::Failed;
        },
    };
    match find_key(rows, presented) {
        None => KeyAccess::Unauthorized,
        Some(i) => if rows[i].read_only && !text::same(method, "GET") {
            KeyAccess::ReadOnly
        } else {
            KeyAccess::Allowed
        },
    }
}

impl KeyAccess {
    /// What a request is answered that may not pass.
    pub open spec fn answer(self) -> Option<web::Answer> {
        match self {
            KeyAccess::Allowed => None,
            KeyAccess::Unauthorized => Some(AppError::Unauthorized.answer()),
            KeyAccess::ReadOnly => Some(
                web::json(403, error::error_document("this API key is read-only"@)),
            ),
            KeyAccess::Failed => Some(web::bare(500)),
        }
    }

    /// What a request is answered that may not pass.
    pub fn refusal(self) -> (r: Option<Reply>)
        ensures
            r is None == self.answer() is None,
            r matches Some(reply) ==> self.answer() == Some(reply@),
    {
        match self {
            KeyAccess::Allowed => None,
            KeyAccess::Unauthorized => Some(AppError::Unauthorized.reply()),
            KeyAccess::ReadOnly => Some(
                Reply::json(403, error::error_json("this API key is read-only")),
            ),
            KeyAccess::Failed => Some(Reply::bare(500)),
        }
    }
}

// ---------------------------------------------------------------- payloads

/// Payload for create and update. Durations are the same human strings the
/// command line and the web form accept, so all three agree on "5m".
#[derive(Debug)]
pub struct CheckPayload {
    pub name: String,
    pub description: String,
    pub tags: String,
    pub kind: Option<String>,
    pub period: Option<String>,
    pub grace: Option<String>,
    pub cron: Option<String>,
    pub tz: Option<String>,
    /// Channel ids to notify. Omitted means "leave unchanged" on update, and
    /// "none" on create.
    pub channels: Option<Vec<i64>>,
}

/// A text, or what stands in for it.
pub open spec fn or_default(s: Option<String>, default: Seq<char>) -> Seq<char> {
    match s {
        Some(s) => s@,
        None => default,
    }
}

/// A text, or what stands in for it.
fn text_or<'a>(s: &'a Option<String>, default: &'a str) -> (r: &'a str)
    ensures
        r@ == or_default(*s, default@),
{
    match s {
        Some(s) => s.as_str(),
        None => default,
    }
}

impl CheckPayload {
    /// The kind of schedule asked for, if it is one.
    pub open spec fn asked_kind(self) -> Option<CheckKind> {
        match self.kind {
            None => Some(CheckKind::Simple),
            Some(kind) => if kind@ == "cron"@ {
                Some(CheckKind::Cron)
            } else if kind@ == "simple"@ {
                Some(CheckKind::Simple)
            } else {
                None
            },
        }
    }

    /// The period asked for.
    pub open spec fn period_text(self) -> Seq<char> {
        or_default(self.period, "1d"@)
    }

    /// The grace asked for.
    pub open spec fn grace_text(self) -> Seq<char> {
        or_default(self.grace, "1h"@)
    }

    /// Why a payload asks for no check, when it does not.
    pub open spec fn refusal(self) -> Option<Seq<char>> {
        if self.asked_kind() is None {
            Some(
                "unknown kind "@ + outside::debug_text(self.kind->0@)
                    + ", expected \"simple\" or \"cron\""@,
            )
        } else if text::trimmed(self.name@).len() == 0 {
            Some("name is required"@)
        } else {
            match model::duration_of(self.period_text()) {
                Err(e) => Some(e.text(self.period_text())),
                Ok(_) => match model::duration_of(self.grace_text()) {
                    Err(e) => Some(e.text(self.grace_text())),
                    Ok(_) => None,
                },
            }
        }
    }

    /// Whether the durations that are looked at fit 64 bits.
    pub open spec fn durations_fit(self) -> bool {
        self.asked_kind() is Some && text::trimmed(self.name@).len() > 0 ==> {
            &&& model::duration_fits(self.period_text())
            &&& model::duration_of(self.period_text()) is Ok ==> model::duration_fits(
                self.grace_text(),
            )
        }
    }

    /// Whether `new` is the check asked for.
    pub open spec fn asks_for(self, new: NewCheck) -> bool {
        &&& new.name@ == text::trimmed(self.name@)
        &&& new.description@ == self.description@
        &&& new.tags@ == self.tags@
        &&& Some(new.kind) == self.asked_kind()
        &&& model::duration_of(self.period_text()) == Ok::<int, model::DurationError>(
            new.period_s as int,
        )
        &&& model::duration_of(self.grace_text()) == Ok::<int, model::DurationError>(
            new.grace_s as int,
        )
        &&& outside::text_of(new.cron_expr) == outside::text_of(self.cron)
        &&& new.tz@ == or_default(self.tz, "UTC"@)
    }

    /// The kind of schedule asked for, if it is one.
    fn read_kind(&self) -> (r: Option<CheckKind>)
        ensures
            r == self.asked_kind(),
    {
        match &self.kind {
            None => Some(CheckKind::Simple),
            Some(kind) => if text::same(kind.as_str(), "cron") {
                Some(CheckKind::Cron)
            } else if text::same(kind.as_str(), "simple") {
                Some(CheckKind::Simple)
            } else {
                None
            },
        }
    }

    /// Whether the durations that are looked at fit 64 bits.
    pub fn fits(&self) -> (r: bool)
        ensures
            r == self.durations_fit(),
    {
        if self.read_kind().is_none() || text::trim(self.name.as_str()).as_str().unicode_len()
            == 0 {
            return true;
        }
        let period = text_or(&self.period, "1d");
        if !model::fits(period) {
            return false;
        }
        match model::parse_duration(period) {
            Ok(_) => model::fits(text_or(&self.grace, "1h")),
            Err(_) => true,
        }
    }

    /// The check asked for, or why there is none.
    pub fn to_new_check(&self) -> (r: Result<NewCheck, AppError>)
        requires
            self.durations_fit(),
        ensures
            match self.refusal() {
                Some(why) => r matches Err(AppError::BadRequest(said)) && said@ == why,
                None => r matches Ok(new) && self.asks_for(new),
            },
    {
        let kind = match self.read_kind() {
            Some(kind) => kind,
            None => {
                let mut why = "unknown kind ".to_owned();
                why.append(outside::debug_str(text_or(&self.kind, "")).as_str());
                why.append(", expected \"simple\" or \"cron\"");
                return Err(AppError::BadRequest(why));
            },
        };
        let name = text::trim(self.name.as_str());
        if name.as_str().unicode_len() == 0 {
            return Err(AppError::BadRequest("name is required".to_owned()));
        }
        let period = text_or(&self.period, "1d");
        let period_s: i64 = match model::parse_duration(period) {
            Ok(secs) => secs,
            Err(e) => {
                return Err(AppError::BadRequest(e.message(period)));
            },
        };
        let grace = text_or(&self.grace, "1h");
        let grace_s: i64 = match model::parse_duration(grace) {
            Ok(secs) => secs,
            Err(e) => {
                return Err(AppError::BadRequest(e.message(grace)));
            },
        };
        let cron_expr = match &self.cron {
            Some(cron) => Some(cron.clone()),
            None => None,
        };
        Ok(
            NewCheck {
                name,
                description: self.description.clone(),
                tags: self.tags.clone(),
                kind,
                period_s,
                grace_s,
                cron_expr,
                tz: text_or(&self.tz, "UTC").to_owned(),
            },
        )
    }
}

// ------------------------------------------------------------------- views

/// A check as the API shows it; instants in seconds since the epoch.
#[derive(Debug)]
pub struct CheckView {
    pub uuid: String,
    pub name: String,
    pub description: String,
    pub tags: Vec<String>,
    pub kind: String,
    pub period_s: i64,
    pub grace_s: i64,
    pub cron: Option<String>,
    pub tz: String,
    pub status: String,
    pub schedule: String,
    pub last_ping: Option<i64>,
    pub last_duration_ms: Option<i64>,
    pub late_after: Option<i64>,
    pub n_pings: i64,
    pub ping_url: String,
    pub badge_url: String,
    pub created_at: i64,
}

/// Whether `view` is how a check is shown on a site.
pub open spec fn shows(view: CheckView, check: Check, site_url: Seq<char>) -> bool {
    &&& view.uuid@ == check.uuid@
    &&& view.name@ == check.name@
    &&& view.description@ == check.description@
    &&& text::views(view.tags@) == text::words(check.tags@)
    &&& view.kind@ == check.kind.word()
    &&& view.period_s == check.period_s
    &&& view.grace_s == check.grace_s
    &&& outside::text_of(view.cron) == outside::text_of(check.cron_expr)
    &&& view.tz@ == check.tz@
    &&& view.status@ == check.status.word()
    &&& view.schedule@ == check.summary()
    &&& view.last_ping == check.last_ping_at
    &&& view.last_duration_ms == check.last_duration_ms
    &&& view.late_after == check.alert_after
    &&& view.n_pings == check.n_pings
    &&& view.ping_url@ == config::ping_base_of(site_url) + "/"@ + check.uuid@
    &&& view.badge_url@ == config::badge_url_of(site_url, check.badge_token@)
    &&& view.created_at == check.created_at
}

/// A check as the API shows it.
pub fn check_json(check: &Check, site_url: &str) -> (r: CheckView)
    ensures
        shows(r, *check, site_url@),
{
    let cron = match &check.cron_expr {
        Some(expr) => Some(expr.clone()),
        None => None,
    };
    let mut ping_url = config::ping_base(site_url);
    ping_url.append("/");
    ping_url.append(check.uuid.as_str());
    CheckView {
        uuid: check.uuid.clone(),
        name: check.name.clone(),
        description: check.description.clone(),
        tags: text::split_words(check.tags.as_str()),
        kind: check.kind.as_str().to_owned(),
        period_s: check.period_s,
        grace_s: check.grace_s,
        cron,
        tz: check.tz.clone(),
        status: check.status.as_str().to_owned(),
        schedule: check.schedule_summary(),
        last_ping: check.last_ping_at,
        last_duration_ms: check.last_duration_ms,
        late_after: check.alert_after,
        n_pings: check.n_pings,
        ping_url,
        badge_url: config::badge_url(site_url, check.badge_token.as_str()),
        created_at: check.created_at,
    }
}

// ------------------------------------------------------------------ badges

/// The token in the last segment of a badge's address.
pub open spec fn token_of(segment: Seq<char>) -> Seq<char> {
    let n = segment.len() - ".svg"@.len();
    if n >= 0 && segment.skip(n) == ".svg"@ {
        segment.take(n)
    } else {
        segment
    }
}

/// The token in the last segment of a badge's address.
pub fn badge_token(segment: &str) -> (r: String)
    ensures
        r@ == token_of(segment@),
{
    proof {
        reveal_strlit(".svg");
    }
    let v = text::chars_of(segment);
    if v.len() >= 4 {
        let n: usize = v.len() - 4;
        let end = text::text_between(&v, n, v.len());
        assert(end@ =~= segment@.skip(n as int));
        if text::same(end.as_str(), ".svg") {
            let r = text::text_between(&v, 0, n);
            assert(r@ =~= segment@.take(n as int));
            return r;
        }
    }
    segment.to_owned()
}

/// The color of a status.
pub open spec fn color_of(status: Seq<char>) -> Seq<char> {
    if status == "up"@ {
        "#2fb380"@
    } else if status == "grace"@ {
        "#f5b301"@
    } else if status == "down"@ {
        "#e03131"@
    } else if status == "paused"@ {
        "#6b8590"@
    } else {
        "#29a3bd"@
    }
}

/// The color of a status.
pub fn status_color(status: &str) -> (r: &'static str)
    ensures
        r@ == color_of(status@),
{
    if text::same(status, "up") {
        "#2fb380"
    } else if text::same(status, "grace") {
        "#f5b301"
    } else if text::same(status, "down") {
        "#e03131"
    } else if text::same(status, "paused") {
        "#6b8590"
    } else {
        "#29a3bd"
    }
}

/// A label of a sane width: at most 28 characters, the last one an ellipsis
/// when some were left out.
pub open spec fn shortened(label: Seq<char>) -> Seq<char> {
    if label.len() > 28 {
        label.take(27) + "…"@
    } else {
        label
    }
}

/// A text with what has a meaning in markup escaped.
pub open spec fn escaped(s: Seq<char>) -> Seq<char> {
    let s = text::replaced(s, "&"@, "&amp;"@);
    let s = text::replaced(s, "<"@, "&lt;"@);
    let s = text::replaced(s, ">"@, "&gt;"@);
    text::replaced(s, "\""@, "&quot;"@)
}

/// Keep badges a sane width, and escape what goes into the SVG.
pub fn truncate_label(label: &str) -> (r: String)
    ensures
        r@ == escaped(shortened(label@)),
{
    proof {
        reveal_strlit("&");
        reveal_strlit("<");
        reveal_strlit(">");
        reveal_strlit("\"");
    }
    let v = text::chars_of(label);
    let trimmed = if v.len() > 28 {
        let mut cut = text::text_between(&v, 0, 27);
        assert(cut@ =~= label@.take(27));
        cut.append("…");
        cut
    } else {
        label.to_owned()
    };
    let s = text::replace(trimmed.as_str(), "&", "&amp;");
    let s = text::replace(s.as_str(), "<", "&lt;");
    let s = text::replace(s.as_str(), ">", "&gt;");
    text::replace(s.as_str(), "\"", "&quot;")
}

/// The width of a text of `n` characters: 6.5 each, rounded, with padding of 5
/// on each side.
pub open spec fn width_of(n: int) -> int {
    (13 * n + 1) / 2 + 10
}

/// Half of a number, in decimal.
pub open spec fn half_text(n: int) -> Seq<char> {
    if n % 2 == 0 {
        text::decimal(n / 2)
    } else {
        text::decimal(n / 2) + ".5"@
    }
}

/// Appends half of a number, in decimal.
fn push_half(out: &mut String, n: i64)
    requires
        n >= 0,
    ensures
        final(out)@ == old(out)@ + half_text(n as int),
{
    text::push_int(out, n / 2);
    if n % 2 != 0 {
        out.append(".5");
        assert(out@ =~= old(out)@ + half_text(n as int));
    }
}

/// The length of the longest status for which every width is a number that
/// single precision holds exactly.
pub const MAX_STATUS_LEN: usize = 1_290_555;

/// A flat badge. Its width goes by the characters shown, its text is escaped.
pub open spec fn badge_svg(name: Seq<char>, status: Seq<char>) -> Seq<char> {
    let label = escaped(shortened(name));
    let label_width = width_of(shortened(name).len() as int);
    let status_width = width_of(status.len() as int);
    let total = text::decimal(label_width + status_width);
    let label_x = half_text(label_width);
    let status_x = half_text(2 * label_width + status_width);
    "<svg xmlns=\"http://www.w3.org/2000/svg\" width=\""@ + total
        + "\" height=\"20\" role=\"img\" aria-label=\""@ + label + ": "@ + status
        + "\">\n  <title>"@ + label + ": "@ + status
        + "</title>\n  <linearGradient id=\"s\" x2=\"0\" y2=\"100%\">\n    <stop offset=\"0\" stop-color=\"#bbb\" stop-opacity=\".1\"/>\n    <stop offset=\"1\" stop-opacity=\".1\"/>\n  </linearGradient>\n  <clipPath id=\"r\"><rect width=\""@
        + total
        + "\" height=\"20\" rx=\"3\" fill=\"#fff\"/></clipPath>\n  <g clip-path=\"url(#r)\">\n    <rect width=\""@
        + text::decimal(label_width) + "\" height=\"20\" fill=\"#3c4a52\"/>\n    <rect x=\""@
        + text::decimal(label_width) + "\" width=\""@ + text::decimal(status_width)
        + "\" height=\"20\" fill=\""@ + color_of(status) + "\"/>\n    <rect width=\""@ + total
        + "\" height=\"20\" fill=\"url(#s)\"/>\n  </g>\n  <g fill=\"#fff\" text-anchor=\"middle\" font-family=\"Verdana,DejaVu Sans,Geneva,sans-serif\" font-size=\"11\">\n    <text x=\""@
        + label_x + "\" y=\"15\" fill=\"#010101\" fill-opacity=\".3\">"@ + label
        + "</text>\n    <text x=\""@ + label_x + "\" y=\"14\">"@ + label
        + "</text>\n    <text x=\""@ + status_x
        + "\" y=\"15\" fill=\"#010101\" fill-opacity=\".3\">"@ + status
        + "</text>\n    <text x=\""@ + status_x + "\" y=\"14\">"@ + status
        + "</text>\n  </g>\n</svg>\n"@
}

/// Flat badge in the shields.io style, drawn by hand: one small SVG is cheaper
/// than a dependency, and it keeps the binary self-contained.
pub fn render_badge(label: &str, status: &str) -> (r: String)
    requires
        status@.len() <= MAX_STATUS_LEN,
    ensures
        r@ == badge_svg(label@, status@),
{
    proof {
        reveal_strlit("…");
    }
    let len: usize = label.unicode_len();
    let shown: i64 = if len > 28 {
        28
    } else {
        len as i64
    };
    assert(shown == shortened(label@).len());
    let label = truncate_label(label);
    let label = label.as_str();
    let label_width: i64 = (13 * shown + 1) / 2 + 10;
    let status_width: i64 = (13 * status.unicode_len() as i64 + 1) / 2 + 10;
    let total = text::int_text(label_width + status_width);
    let total = total.as_str();
    let label_width_text = text::int_text(label_width);
    let status_width_text = text::int_text(status_width);
    let mut r = "<svg xmlns=\"http://www.w3.org/2000/svg\" width=\"".to_owned();
    r.append(total);
    r.append("\" height=\"20\" role=\"img\" aria-label=\"");
    r.append(label);
    r.append(": ");
    r.append(status);
    r.append("\">\n  <title>");
    r.append(label);
    r.append(": ");
    r.append(status);
    r.append("</title>\n  <linearGradient id=\"s\" x2=\"0\" y2=\"100%\">\n    <stop offset=\"0\" stop-color=\"#bbb\" stop-opacity=\".1\"/>\n    <stop offset=\"1\" stop-opacity=\".1\"/>\n  </linearGradient>\n  <clipPath id=\"r\"><rect width=\"");
    r.append(total);
    r.append("\" height=\"20\" rx=\"3\" fill=\"#fff\"/></clipPath>\n  <g clip-path=\"url(#r)\">\n    <rect width=\"");
    r.append(label_width_text.as_str());
    r.append("\" height=\"20\" fill=\"#3c4a52\"/>\n    <rect x=\"");
    r.append(label_width_text.as_str());
    r.append("\" width=\"");
    r.append(status_width_text.as_str());
    r.append("\" height=\"20\" fill=\"");
    r.append(status_color(status));
    r.append("\"/>\n    <rect width=\"");
    r.append(total);
    r.append("\" height=\"20\" fill=\"url(#s)\"/>\n  </g>\n  <g fill=\"#fff\" text-anchor=\"middle\" font-family=\"Verdana,DejaVu Sans,Geneva,sans-serif\" font-size=\"11\">\n    <text x=\"");
    push_half(&mut r, label_width);
    r.append("\" y=\"15\" fill=\"#010101\" fill-opacity=\".3\">");
    r.append(label);
    r.append("</text>\n    <text x=\"");
    push_half(&mut r, label_width);
    r.append("\" y=\"14\">");
    r.append(label);
    r.append("</text>\n    <text x=\"");
    push_half(&mut r, 2 * label_width + status_width);
    r.append("\" y=\"15\" fill=\"#010101\" fill-opacity=\".3\">");
    r.append(status);
    r.append("</text>\n    <text x=\"");
    push_half(&mut r, 2 * label_width + status_width);
    r.append("\" y=\"14\">");
    r.append(status);
    r.append("</text>\n  </g>\n</svg>\n");
    r
}

/// A status badge. Unauthenticated on purpose, since badges end up in public
/// READMEs, which is why they are addressed by badge token and not by the
/// check's uuid. Short cache: a badge that keeps claiming "up" for an hour
/// after an outage is worse than no badge.
pub fn badge(check: Option<&Check>) -> (r: Reply)
    ensures
        r@ == match check {
            None => AppError::NotFound.answer(),
            Some(check) => (web::Answer {
                content_type: Some("image/svg+xml; charset=utf-8"@),
                cache_control: Some("public, max-age=60"@),
                body: badge_svg(check.name@, check.status.word()),
                ..web::bare(200)
            }),
        },
{
    match check {
        None => AppError::NotFound.reply(),
        Some(check) => {
            proof {
                reveal_strlit("new");
                reveal_strlit("up");
                reveal_strlit("grace");
                reveal_strlit("down");
                reveal_strlit("paused");
            }
            let mut r = Reply::bare(200);
            r.content_type = Some("image/svg+xml; charset=utf-8".to_owned());
            r.cache_control = Some("public, max-age=60".to_owned());
            r.body = render_badge(check.name.as_str(), check.status.as_str());
            r
        },
    }
}

// -------------------------------------------------------------------- laws

/// Nothing of a label can be taken for markup: no tag begins or ends in it,
/// and no attribute ends.
pub proof fn law_label_has_no_markup(label: Seq<char>, i: int)
    requires
        0 <= i < escaped(label).len(),
    ensures
        escaped(label)[i] != '<',
        escaped(label)[i] != '>',
        escaped(label)[i] != '"',
{
    reveal_strlit("&");
    reveal_strlit("<");
    reveal_strlit(">");
    reveal_strlit("\"");
    reveal_strlit("&amp;");
    reveal_strlit("&lt;");
    reveal_strlit("&gt;");
    reveal_strlit("&quot;");
    let s1 = text::replaced(label, "&"@, "&amp;"@);
    let s2 = text::replaced(s1, "<"@, "&lt;"@);
    let s3 = text::replaced(s2, ">"@, "&gt;"@);
    text::lemma_replaced_all(s1, "<"@, "&lt;"@, |c: char| c != '<');
    text::lemma_replaced_all(s2, ">"@, "&gt;"@, |c: char| c != '<' && c != '>');
    let ok = |c: char| c != '<' && c != '>' && c != '"';
    text::lemma_replaced_all(s3, "\""@, "&quot;"@, ok);
    assert(ok(escaped(label)[i]));
}

/// Whatever the name, a label shows at most 28 characters, and the badge of a
/// check stays narrow.
pub proof fn law_badge_is_narrow(name: Seq<char>, status: Status)
    ensures
        shortened(name).len() <= 28,
        width_of(shortened(name).len() as int) <= 192,
        width_of(shortened(name).len() as int) + width_of(status.word().len() as int) < 250,
{
    reveal_strlit("…");
    reveal_strlit("new");
    reveal_strlit("up");
    reveal_strlit("grace");
    reveal_strlit("down");
    reveal_strlit("paused");
}

/// A read-only key is never let through with anything but GET, and a key that
/// is not known never at all.
pub proof fn law_read_only_keys_do_not_write(
    presented: Seq<char>,
    rows: Seq<ApiKey>,
    method: Seq<char>,
)
    requires
        method != "GET"@,
        key_for(rows, presented) matches Some(key) ==> key.read_only,
    ensures
        key_access(Some(presented), Some(rows), method) != KeyAccess::Allowed,
{
}

/// Without a key, or with one that none of the stored ones matches, a request
/// is turned away.
pub proof fn law_unknown_keys_are_turned_away(
    presented: Option<Seq<char>>,
    rows: Seq<ApiKey>,
    method: Seq<char>,
)
    requires
        presented matches Some(key) ==> forall|i: int|
            0 <= i < rows.len() ==> (#[trigger] rows[i]).key_hash@ != auth::secret_hash(key),
    ensures
        key_access(presented, Some(rows), method) == KeyAccess::Unauthorized,
    decreases rows.len(),
{
    if let Some(key) = presented {
        if rows.len() > 0 {
            assert(rows[0].key_hash@ != auth::secret_hash(key));
            let rest = rows.skip(1);
            assert forall|i: int| 0 <= i < rest.len() implies (#[trigger] rest[i]).key_hash@
                != auth::secret_hash(key) by {
                assert(rest[i] == rows[i + 1]);
            }
            law_unknown_keys_are_turned_away(presented, rest, method);
        }
    }
}

/// The key that a request presents is the first stored one with its hash.
pub proof fn law_which_key_is_found(
    before: Seq<ApiKey>,
    key: ApiKey,
    after: Seq<ApiKey>,
    presented: Seq<char>,
)
    requires
        forall|i: int|
            0 <= i < before.len() ==> (#[trigger] before[i]).key_hash@ != outside::base64_url(
                outside::sha256(encode_utf8(presented)),
            ),
        key.key_hash@ == outside::base64_url(outside::sha256(encode_utf8(presented))),
    ensures
        key_for(before + seq![key] + after, presented) == Some(key),
        key_for(before, presented) is None,
    decreases before.len(),
{
    let whole = before + seq![key] + after;
    if before.len() > 0 {
        let rest = before.skip(1);
        assert forall|i: int| 0 <= i < rest.len() implies (#[trigger] rest[i]).key_hash@
            != outside::base64_url(outside::sha256(encode_utf8(presented))) by {
            assert(rest[i] == before[i + 1]);
        }
        law_which_key_is_found(rest, key, after, presented);
        assert(whole[0] == before[0]);
        assert(whole.skip(1) =~= rest + seq![key] + after);
    } else {
        assert(whole[0] == key);
    }
}

/// What a key allows: everything, or where it is read-only, reading. Requests
/// without a known key are turned away, and those that cannot be judged fail.
pub proof fn law_what_a_key_allows(
    presented: Option<Seq<char>>,
    rows: Option<Seq<ApiKey>>,
    method: Seq<char>,
)
    ensures
        presented is None ==> key_access(presented, rows, method) == KeyAccess::Unauthorized,
        presented is Some && rows is None ==> key_access(presented, rows, method)
            == KeyAccess::Failed,
        presented is Some && rows is Some ==> key_access(presented, rows, method) == match key_for(
            rows->0,
            presented->0,
        ) {
            None => KeyAccess::Unauthorized,
            Some(key) => if !key.read_only {
                KeyAccess::Allowed
            } else if method == "GET"@ {
                KeyAccess::Allowed
            } else {
                KeyAccess::ReadOnly
            },
        },
        KeyAccess::Allowed.answer() is None,
        KeyAccess::Unauthorized.answer() is Some && KeyAccess::Unauthorized.answer()->0.status
            == 401,
        KeyAccess::ReadOnly.answer() is Some && KeyAccess::ReadOnly.answer()->0.status == 403
            && KeyAccess::ReadOnly.answer()->0.body == error::error_document(
            "this API key is read-only"@,
        ),
        KeyAccess::Failed.answer() is Some && KeyAccess::Failed.answer()->0.status == 500,
{
}

/// What a request asks for is what it says, with a simple schedule of a day, a
/// grace of an hour and UTC where it says nothing.
pub proof fn law_what_a_request_asks_for(payload: CheckPayload, new: NewCheck)
    requires
        payload.asks_for(new),
    ensures
        new.name@ == text::trimmed(payload.name@),
        new.description@ == payload.description@,
        new.tags@ == payload.tags@,
        payload.kind is None ==> new.kind == CheckKind::Simple,
        payload.kind matches Some(kind) ==> kind@ == "simple"@ && new.kind == CheckKind::Simple
            || kind@ == "cron"@ && new.kind == CheckKind::Cron,
        payload.period is None ==> new.period_s == 86400,
        payload.period matches Some(period) ==> model::duration_of(period@) == Ok::<
            int,
            model::DurationError,
        >(new.period_s as int),
        payload.grace is None ==> new.grace_s == 3600,
        payload.grace matches Some(grace) ==> model::duration_of(grace@) == Ok::<
            int,
            model::DurationError,
        >(new.grace_s as int),
        payload.cron is Some == new.cron_expr is Some,
        payload.cron matches Some(cron) ==> new.cron_expr->0@ == cron@,
        payload.tz is None ==> new.tz@ == "UTC"@,
        payload.tz matches Some(tz) ==> new.tz@ == tz@,
{
    reveal_strlit("simple");
    reveal_strlit("cron");
    assert("simple"@[0] == 's' && "cron"@[0] == 'c');
    lemma_default_durations();
}

/// What the durations that a request leaves out come to.
pub proof fn lemma_default_durations()
    ensures
        model::duration_of("1d"@) == Ok::<int, model::DurationError>(86400),
        model::duration_of("1h"@) == Ok::<int, model::DurationError>(3600),
{
    reveal_strlit("1d");
    reveal_strlit("1h");
    assert("1d"@ =~= model::written(1, 'd'));
    assert("1h"@ =~= model::written(1, 'h'));
    model::law_one_unit(1, 'd');
    model::law_one_unit(1, 'h');
}

/// A request is refused for an unknown kind, for a name that is blank and for
/// durations that cannot be read, and for nothing else.
pub proof fn law_which_requests_are_refused(payload: CheckPayload)
    ensures
        payload.refusal() is None <==> (payload.kind matches Some(kind) ==> kind@ == "simple"@
            || kind@ == "cron"@) && text::trimmed(payload.name@).len() > 0 && (
        payload.period matches Some(period) ==> model::duration_of(period@) is Ok) && (
        payload.grace matches Some(grace) ==> model::duration_of(grace@) is Ok),
        (payload.kind matches Some(kind) ==> kind@ == "simple"@ || kind@ == "cron"@)
            && text::trimmed(payload.name@).len() == 0 ==> payload.refusal() == Some(
            "name is required"@,
        ),
        (payload.kind matches Some(kind) && kind@ != "simple"@ && kind@ != "cron"@)
            ==> payload.refusal() == Some(
            "unknown kind "@ + outside::debug_text(payload.kind->0@)
                + ", expected \"simple\" or \"cron\""@,
        ),
{
    lemma_default_durations();
}

/// What is shown of a check is what is known of it.
pub proof fn law_what_is_shown_of_a_check(view: CheckView, check: Check, site: Seq<char>)
    requires
        shows(view, check, site),
    ensures
        view.uuid@ == check.uuid@,
        view.name@ == check.name@,
        view.description@ == check.description@,
        text::views(view.tags@) == text::words(check.tags@),
        view.kind@ == check.kind.word(),
        view.period_s == check.period_s,
        view.grace_s == check.grace_s,
        view.cron is Some == check.cron_expr is Some,
        check.cron_expr matches Some(expr) ==> view.cron->0@ == expr@,
        view.tz@ == check.tz@,
        view.status@ == check.status.word(),
        view.schedule@ == check.summary(),
        view.last_ping == check.last_ping_at,
        view.last_duration_ms == check.last_duration_ms,
        view.late_after == check.alert_after,
        view.n_pings == check.n_pings,
        view.created_at == check.created_at,
        view.ping_url@ == config::ping_base_of(site) + "/"@ + check.uuid@,
        view.badge_url@ == config::badge_url_of(site, check.badge_token@),
{
}

/// The token of a badge is its address without the ending.
pub proof fn law_token_of_a_badge(token: Seq<char>)
    ensures
        token_of(token + ".svg"@) == token,
        token.len() < 4 || token.skip(token.len() - 4) != ".svg"@ ==> token_of(token) == token,
{
    reveal_strlit(".svg");
    let segment = token + ".svg"@;
    assert(segment.skip(token.len() as int) =~= ".svg"@);
    assert(segment.take(token.len() as int) =~= token);
}

/// Every status has its colour.
pub proof fn law_colours()
    ensures
        color_of(Status::Up.word()) == "#2fb380"@,
        color_of(Status::Grace.word()) == "#f5b301"@,
        color_of(Status::Down.word()) == "#e03131"@,
        color_of(Status::Paused.word()) == "#6b8590"@,
        color_of(Status::New.word()) == "#29a3bd"@,
{
    reveal_strlit("up");
    reveal_strlit("grace");
    reveal_strlit("down");
    reveal_strlit("paused");
    reveal_strlit("new");
    assert("up"@[0] == 'u' && "grace"@[0] == 'g' && "down"@[0] == 'd' && "paused"@[0] == 'p'
        && "new"@[0] == 'n');
}

/// A label is shown whole up to 28 characters, and as 27 and an ellipsis beyond.
pub proof fn law_long_labels_are_cut(label: Seq<char>)
    ensures
        label.len() <= 28 ==> shortened(label) == label,
        label.len() > 28 ==> shortened(label) == label.take(27) + seq!['…'],
{
    reveal_strlit("…");
    assert("…"@ =~= seq!['…']);
}

/// A text of so many characters gets six and a half units for each, rounded up,
/// and ten around it.
pub proof fn law_width_of_a_text(n: int)
    requires
        n >= 0,
    ensures
        13 * n <= 2 * (width_of(n) - 10) < 13 * n + 2,
{
}

/// Escaping goes character by character: four of them are written otherwise, and
/// all others are kept.
pub proof fn law_escaping(c: char, rest: Seq<char>)
    ensures
        escaped(seq![c] + rest) == (if c == '&' {
            "&amp;"@
        } else if c == '<' {
            "&lt;"@
        } else if c == '>' {
            "&gt;"@
        } else if c == '"' {
            "&quot;"@
        } else {
            seq![c]
        }) + escaped(rest),
        escaped(Seq::empty()) == Seq::<char>::empty(),
{
    lemma_escaping_adds_up(seq![c], rest);
    lemma_escaping_one(c);
}

/// Escaping a text escapes its parts.
proof fn lemma_escaping_adds_up(a: Seq<char>, b: Seq<char>)
    ensures
        escaped(a + b) == escaped(a) + escaped(b),
{
    lemma_marks();
    let a1 = text::replaced(a, "&"@, "&amp;"@);
    let b1 = text::replaced(b, "&"@, "&amp;"@);
    let a2 = text::replaced(a1, "<"@, "&lt;"@);
    let b2 = text::replaced(b1, "<"@, "&lt;"@);
    let a3 = text::replaced(a2, ">"@, "&gt;"@);
    let b3 = text::replaced(b2, ">"@, "&gt;"@);
    text::law_replacing_a_character_adds_up(a, b, '&', "&amp;"@);
    text::law_replacing_a_character_adds_up(a1, b1, '<', "&lt;"@);
    text::law_replacing_a_character_adds_up(a2, b2, '>', "&gt;"@);
    text::law_replacing_a_character_adds_up(a3, b3, '"', "&quot;"@);
}

/// The marks that are escaped, and what for, character by character.
proof fn lemma_marks()
    ensures
        "&"@ == seq!['&'],
        "<"@ == seq!['<'],
        ">"@ == seq!['>'],
        "\""@ == seq!['"'],
        "&amp;"@ == seq!['&', 'a', 'm', 'p', ';'],
        "&lt;"@ == seq!['&', 'l', 't', ';'],
        "&gt;"@ == seq!['&', 'g', 't', ';'],
        "&quot;"@ == seq!['&', 'q', 'u', 'o', 't', ';'],
{
    reveal_strlit("&");
    reveal_strlit("<");
    reveal_strlit(">");
    reveal_strlit("\"");
    reveal_strlit("&amp;");
    reveal_strlit("&lt;");
    reveal_strlit("&gt;");
    reveal_strlit("&quot;");
}

/// What one character is escaped as.
proof fn lemma_escaping_one(c: char)
    ensures
        escaped(seq![c]) == if c == '&' {
            "&amp;"@
        } else if c == '<' {
            "&lt;"@
        } else if c == '>' {
            "&gt;"@
        } else if c == '"' {
            "&quot;"@
        } else {
            seq![c]
        },
{
    lemma_marks();
    let none = Seq::<char>::empty();
    text::law_replacing_a_character_adds_up(none, none, c, "&amp;"@);
    text::law_replacing_a_character_adds_up(none, none, c, "&lt;"@);
    text::law_replacing_a_character_adds_up(none, none, c, "&gt;"@);
    text::law_replacing_a_character_adds_up(none, none, c, "&quot;"@);
    let one = seq![c];
    if c != '&' {
        text::lemma_nothing_to_replace(one, "&"@, "&amp;"@);
    } else {
        text::lemma_nothing_to_replace("&amp;"@, "<"@, "&lt;"@);
        text::lemma_nothing_to_replace("&amp;"@, ">"@, "&gt;"@);
        text::lemma_nothing_to_replace("&amp;"@, "\""@, "&quot;"@);
    }
    if c != '<' && c != '&' {
        text::lemma_nothing_to_replace(one, "<"@, "&lt;"@);
    } else if c == '<' {
        text::lemma_nothing_to_replace("&lt;"@, ">"@, "&gt;"@);
        text::lemma_nothing_to_replace("&lt;"@, "\""@, "&quot;"@);
    }
    if c != '<' && c != '&' && c != '>' {
        text::lemma_nothing_to_replace(one, ">"@, "&gt;"@);
    } else if c == '>' {
        text::lemma_nothing_to_replace("&gt;"@, "\""@, "&quot;"@);
    }
    if c != '<' && c != '&' && c != '>' && c != '"' {
        text::lemma_nothing_to_replace(one, "\""@, "&quot;"@);
    }
}

/// A badge shows the name of a check and its status side by side, each as wide as
/// its text, the status on its colour.
pub proof fn law_what_a_badge_shows(name: Seq<char>, status: Seq<char>)
    ensures
        ({
            let label = escaped(shortened(name));
            let label_width: int = (13 * shortened(name).len() as int + 1) / 2 + 10;
            let status_width: int = (13 * status.len() as int + 1) / 2 + 10;
            let total = text::decimal(label_width + status_width);
            let label_x = half_text(label_width);
            let status_x = half_text(2 * label_width + status_width);
            badge_svg(name, status) ==
            "<svg xmlns=\"http://www.w3.org/2000/svg\" width=\""@ + total
                + "\" height=\"20\" role=\"img\" aria-label=\""@ + label + ": "@ + status
                + "\">\n  <title>"@ + label + ": "@ + status
                + "</title>\n  <linearGradient id=\"s\" x2=\"0\" y2=\"100%\">\n    <stop offset=\"0\" stop-color=\"#bbb\" stop-opacity=\".1\"/>\n    <stop offset=\"1\" stop-opacity=\".1\"/>\n  </linearGradient>\n  <clipPath id=\"r\"><rect width=\""@
                + total
                + "\" height=\"20\" rx=\"3\" fill=\"#fff\"/></clipPath>\n  <g clip-path=\"url(#r)\">\n    <rect width=\""@
                + text::decimal(label_width) + "\" height=\"20\" fill=\"#3c4a52\"/>\n    <rect x=\""@
                + text::decimal(label_width) + "\" width=\""@ + text::decimal(status_width)
                + "\" height=\"20\" fill=\""@ + color_of(status) + "\"/>\n    <rect width=\""@ + total
                + "\" height=\"20\" fill=\"url(#s)\"/>\n  </g>\n  <g fill=\"#fff\" text-anchor=\"middle\" font-family=\"Verdana,DejaVu Sans,Geneva,sans-serif\" font-size=\"11\">\n    <text x=\""@
                + label_x + "\" y=\"15\" fill=\"#010101\" fill-opacity=\".3\">"@ + label
                + "</text>\n    <text x=\""@ + label_x + "\" y=\"14\">"@ + label
                + "</text>\n    <text x=\""@ + status_x
                + "\" y=\"15\" fill=\"#010101\" fill-opacity=\".3\">"@ + status
                + "</text>\n    <text x=\""@ + status_x + "\" y=\"14\">"@ + status
                + "</text>\n  </g>\n</svg>\n"@
        }),
{
}

/// Halves are written with a decimal.
pub proof fn law_halves(n: int)
    ensures
        half_text(2 * n) == text::decimal(n),
        half_text(2 * n + 1) == text::decimal(n) + ".5"@,
{
}

/// The durations of a request can be read exactly where they fit 64 bits.
pub proof fn law_which_requests_fit(payload: CheckPayload)
    ensures
        payload.durations_fit() <==> (payload.asked_kind() is Some && text::trimmed(
            payload.name@,
        ).len() > 0 ==> model::duration_fits(payload.period_text()) && (model::duration_of(
            payload.period_text(),
        ) is Ok ==> model::duration_fits(payload.grace_text()))),
        payload.period_text() == if payload.period is Some {
            payload.period->0@
        } else {
            "1d"@
        },
        payload.grace_text() == if payload.grace is Some {
            payload.grace->0@
        } else {
            "1h"@
        },
{
}

/// What is no status has the colour of a check that has not reported yet.
pub proof fn law_colour_of_anything_else(status: Seq<char>)
    requires
        status != "up"@,
        status != "grace"@,
        status != "down"@,
        status != "paused"@,
    ensures
        color_of(status) == "#29a3bd"@,
{
}

} // verus!
