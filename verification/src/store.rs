//! What is stored about checks, and how a ping changes it.

use vstd::prelude::*;
use vstd::utf8::*;

use crate::error;
use crate::error::Error;
use crate::model;
use crate::model::{ChannelKind, Check, CheckKind, PingKind, Status};
use crate::outside;
use crate::schedule;

verus! {

/// Pings kept per check. Old ones are dropped as new ones arrive, so the
/// database stays bounded without a separate cleanup job.
pub const MAX_PINGS_PER_CHECK: usize = 100;

/// Largest ping body retained. Anything longer is truncated rather than
/// rejected: a monitoring endpoint should not fail a client over payload size.
pub const MAX_BODY_BYTES: usize = 102_400;

/// A check as someone asks for it.
#[derive(Debug, Clone)]
pub struct NewCheck {
    pub name: String,
    pub description: String,
    pub tags: String,
    pub kind: CheckKind,
    pub period_s: i64,
    pub grace_s: i64,
    pub cron_expr: Option<String>,
    pub tz: String,
}

/// One row of a check's ping log.
#[derive(Debug, Clone)]
pub struct Ping {
    pub n: i64,
    pub ts: i64,
    pub kind: PingKind,
    pub exit_code: Option<i64>,
    pub duration_ms: Option<i64>,
    pub remote_addr: Option<String>,
    pub user_agent: Option<String>,
    pub method: Option<String>,
    pub body: Option<String>,
}

/// Somewhere notifications are sent.
#[derive(Debug, Clone)]
pub struct Channel {
    pub id: i64,
    pub kind: ChannelKind,
    pub name: String,
    /// The channel's settings, as a JSON document.
    pub config: String,
    pub enabled: bool,
    pub created_at: i64,
}

/// What the client told us about this ping, beyond its kind.
#[derive(Debug, Clone)]
pub struct PingInput {
    pub kind: Option<PingKind>,
    pub exit_code: Option<i64>,
    pub remote_addr: Option<String>,
    pub user_agent: Option<String>,
    pub method: Option<String>,
    pub body: Option<String>,
}

impl Default for PingInput {
    fn default() -> (r: Self)
        ensures
            r.kind is None,
            r.exit_code is None,
            r.remote_addr is None,
            r.user_agent is None,
            r.method is None,
            r.body is None,
    {
        PingInput {
            kind: None,
            exit_code: None,
            remote_addr: None,
            user_agent: None,
            method: None,
            body: None,
        }
    }
}

/// What a ping did to its check.
#[derive(Debug, Clone, Copy, PartialEq, Eq, Structural)]
pub struct PingOutcome {
    /// The status before the ping.
    pub previous: Status,
    /// The status after the ping.
    pub status: Status,
    /// The ping's number, counted from the check's first.
    pub n: i64,
}

/// Everything a recorded ping writes, in one transaction.
#[derive(Debug)]
pub struct Recorded {
    /// The check as it stands after the ping.
    pub check: Check,
    /// The row for the ping log.
    pub ping: Ping,
    pub outcome: PingOutcome,
}

// -------------------------------------------------------------------- body

/// How many leading characters of `s` fit in `limit` bytes of UTF-8.
pub open spec fn fitting(s: Seq<char>, limit: int) -> int
    decreases s.len(),
{
    if s.len() == 0 || encode_utf8(s).len() <= limit {
        s.len() as int
    } else {
        fitting(s.drop_last(), limit)
    }
}

/// The longest beginning of a ping body that is retained.
pub open spec fn kept(body: Seq<char>) -> Seq<char> {
    body.take(fitting(body, MAX_BODY_BYTES as int))
}

/// The encoding of a beginning of a text ends on a character boundary of the
/// whole, and a longer beginning has a longer encoding.
proof fn lemma_prefix_boundary(s: Seq<char>, m: int)
    requires
        0 <= m <= s.len(),
    ensures
        is_char_boundary(encode_utf8(s), encode_utf8(s.take(m)).len() as int),
        encode_utf8(s.take(m)).len() <= encode_utf8(s).len(),
        m < s.len() ==> encode_utf8(s.take(m)).len() < encode_utf8(s).len(),
    decreases m,
{
    encode_utf8_valid_utf8(s);
    if m == 0 {
        assert(s.take(0) =~= Seq::<char>::empty());
        assert(encode_utf8(Seq::<char>::empty()).len() == 0);
        if s.len() > 0 {
            assert(encode_scalar(s[0] as u32).len() > 0);
        }
    } else {
        let rest = s.drop_first();
        lemma_prefix_boundary(rest, m - 1);
        assert(s.take(m).drop_first() =~= rest.take(m - 1));
        assert(s.take(m)[0] == s[0]);
        encode_utf8_first_scalar(s);
        assert(pop_first_scalar(encode_utf8(s)) =~= encode_utf8(rest));
    }
}

/// A beginning that fits, where the next longer one does not, is the longest.
proof fn lemma_fitting(s: Seq<char>, n: int, limit: int)
    requires
        0 <= n <= s.len(),
        encode_utf8(s.take(n)).len() <= limit,
        forall|m: int| n < m <= s.len() ==> encode_utf8(#[trigger] s.take(m)).len() > limit,
    ensures
        fitting(s, limit) == n,
    decreases s.len(),
{
    assert(s.take(s.len() as int) =~= s);
    if n < s.len() {
        let shorter = s.drop_last();
        assert(shorter.take(n) =~= s.take(n));
        assert forall|m: int| n < m <= shorter.len() implies encode_utf8(
            #[trigger] shorter.take(m),
        ).len() > limit by {
            assert(shorter.take(m) =~= s.take(m));
        }
        lemma_fitting(shorter, n, limit);
    }
}

/// The part of a ping body that is retained, cut on a character boundary so
/// that the stored text stays valid UTF-8.
pub fn keep_body(body: String) -> (r: String)
    ensures
        r@ == kept(body@),
{
    let s = body.as_str();
    let bytes = s.as_bytes();
    proof {
        encode_utf8_valid_utf8(s@);
        assert(s@.take(s@.len() as int) =~= s@);
    }
    if bytes.len() <= MAX_BODY_BYTES {
        return body;
    }
    let mut end: usize = MAX_BODY_BYTES;
    while end > 0 && !s.is_char_boundary(end)
        invariant
            end <= MAX_BODY_BYTES,
            forall|k: int|
                end < k <= MAX_BODY_BYTES ==> !#[trigger] is_char_boundary(encode_utf8(s@), k),
        decreases end,
    {
        end = end - 1;
    }
    proof {
        is_char_boundary_start_end_of_seq(encode_utf8(s@));
    }
    let head = s.split_at(end).0;
    proof {
        let whole = encode_utf8(s@);
        let n = head@.len() as int;
        decode_utf8_split(whole, end as int);
        encode_utf8_decode_utf8(s@);
        encode_utf8_decode_utf8(head@);
        assert(head@ =~= s@.take(n));
        assert forall|m: int| n < m <= s@.len() implies encode_utf8(#[trigger] s@.take(m)).len()
            > MAX_BODY_BYTES by {
            lemma_prefix_boundary(s@, m);
            lemma_prefix_boundary(s@.take(m), n);
            assert(s@.take(m).take(n) =~= s@.take(n));
        }
        lemma_fitting(s@, n, MAX_BODY_BYTES as int);
    }
    head.to_owned()
}

// -------------------------------------------------------------- new checks

/// Whether a check can be monitored from an instant on, or why not.
pub open spec fn vetted(new: NewCheck, at: int) -> Result<(), Seq<char>> {
    match schedule::usable(
        new.kind,
        outside::text_of(new.cron_expr),
        new.tz@,
        new.period_s as int,
        at,
    ) {
        Err(why) => Err(why),
        Ok(_) => if new.grace_s <= 0 {
            Err("grace must be positive"@)
        } else {
            Ok(())
        },
    }
}

/// Whether `outcome` is what vetting a check against the clock can give.
pub open spec fn vetted_now(new: NewCheck, outcome: Result<(), Seq<char>>) -> bool {
    exists|at: int| 0 <= at <= schedule::LAST_LOOK && outcome == #[trigger] vetted(new, at)
}

/// Reject a check that cannot be monitored from the instant `at` on.
pub fn vet_check_at(new: &NewCheck, at: i64) -> (r: Result<(), Error>)
    requires
        schedule::clear_of_ends(new.tz@, at as int),
    ensures
        error::told(r) == vetted(*new, at as int),
{
    let expr: Option<&str> = match &new.cron_expr {
        Some(expr) => Some(expr.as_str()),
        None => None,
    };
    match schedule::validate_at(new.kind, expr, new.tz.as_str(), new.period_s, at) {
        Err(e) => Err(e),
        Ok(()) => if new.grace_s <= 0 {
            Err(Error::new("grace must be positive"))
        } else {
            Ok(())
        },
    }
}

/// Reject a check that cannot be monitored from now on, as [`vet_check_at`]
/// does with the current time.
pub fn vet_check(new: &NewCheck) -> (r: Result<(), Error>)
    ensures
        vetted_now(*new, error::told(r)),
{
    let clock = model::now();
    let at: i64 = if clock > schedule::LAST_LOOK {
        schedule::LAST_LOOK
    } else {
        clock
    };
    let r = vet_check_at(new, at);
    assert(error::told(r) == vetted(*new, at as int));
    r
}

/// The row of a check that was just asked for. Its id and its badge token are
/// assigned when it is inserted.
pub open spec fn is_draft(check: Check, new: NewCheck, uuid: Seq<char>, ts: int) -> bool {
    &&& check.id == 0
    &&& check.uuid@ == uuid
    &&& check.name == new.name
    &&& check.description == new.description
    &&& check.tags == new.tags
    &&& check.kind == new.kind
    &&& check.period_s == new.period_s
    &&& check.grace_s == new.grace_s
    &&& check.cron_expr == new.cron_expr
    &&& check.tz == new.tz
    &&& check.status == Status::New
    &&& check.last_ping_at is None
    &&& check.last_start_at is None
    &&& check.last_duration_ms is None
    &&& check.alert_after is None
    &&& check.n_pings == 0
    &&& check.created_at == ts
    &&& check.updated_at == ts
    &&& check.badge_token@.len() == 0
}

/// The row of a check that was just asked for.
pub fn draft_check(new: NewCheck, uuid: String, ts: i64) -> (r: Check)
    ensures
        is_draft(r, new, uuid@, ts as int),
{
    Check {
        id: 0,
        uuid,
        name: new.name,
        description: new.description,
        tags: new.tags,
        kind: new.kind,
        period_s: new.period_s,
        grace_s: new.grace_s,
        cron_expr: new.cron_expr,
        tz: new.tz,
        status: Status::New,
        last_ping_at: None,
        last_start_at: None,
        last_duration_ms: None,
        alert_after: None,
        n_pings: 0,
        created_at: ts,
        updated_at: ts,
        badge_token: String::new(),
    }
}

/// The row to insert for a new check, under a fresh random uuid and dated
/// now, or why the check is refused.
pub fn create_check(new: NewCheck) -> (r: Result<Check, Error>)
    ensures
        r matches Ok(check) ==> vetted_now(new, Ok(())) && is_draft(
            check,
            new,
            check.uuid@,
            check.created_at as int,
        ) && outside::is_uuid(check.uuid@) && check.uuid@.len() == 36 && check.created_at >= 0,
        r matches Err(e) ==> vetted_now(new, Err(e@)),
{
    match vet_check(&new) {
        Err(e) => Err(e),
        Ok(()) => Ok(draft_check(new, outside::random_uuid(), model::now())),
    }
}

// ------------------------------------------------------------------- pings

/// The milliseconds between the start a ping closes and the ping, if a start
/// is open. A clock that was set back counts as no time.
pub open spec fn elapsed_ms(check: Check, ts: int) -> Option<int> {
    match check.last_start_at {
        Some(start) => Some(
            if ts > start {
                1000 * (ts - start)
            } else {
                0
            },
        ),
        None => None,
    }
}

/// Whether a ping of this kind carries a result.
pub open spec fn is_result(kind: PingKind) -> bool {
    kind == PingKind::Success || kind == PingKind::Fail
}

/// The duration that a ping measures: only a result measures one.
pub open spec fn measured(check: Check, kind: PingKind, ts: int) -> Option<int> {
    if is_result(kind) {
        elapsed_ms(check, ts)
    } else {
        None
    }
}

/// An optional 64-bit number, as a number.
pub open spec fn as_int(n: Option<i64>) -> Option<int> {
    match n {
        Some(n) => Some(n as int),
        None => None,
    }
}

/// The status a ping leaves its check in.
pub open spec fn status_after(check: Check, kind: PingKind) -> Status {
    match kind {
        PingKind::Success => Status::Up,
        PingKind::Fail => Status::Down,
        _ => check.status,
    }
}

/// When a check is late after a ping: a success schedules the next deadline,
/// a failure leaves nothing to be late for.
pub open spec fn alert_after_ping(check: Check, kind: PingKind, ts: int) -> Option<int> {
    match kind {
        PingKind::Success => Some(schedule::deadline(check, ts)->Ok_0),
        PingKind::Fail => None,
        _ => as_int(check.alert_after),
    }
}

/// Whether `after` is what a ping makes of `check`.
pub open spec fn pinged(check: Check, kind: PingKind, ts: i64, after: Check) -> bool {
    let duration = measured(check, kind, ts as int);
    &&& after == (Check {
        status: after.status,
        last_ping_at: after.last_ping_at,
        last_start_at: after.last_start_at,
        last_duration_ms: after.last_duration_ms,
        alert_after: after.alert_after,
        n_pings: after.n_pings,
        updated_at: after.updated_at,
        ..check
    })
    &&& after.status == status_after(check, kind)
    &&& after.last_ping_at == if is_result(kind) {
        Some(ts)
    } else {
        check.last_ping_at
    }
    &&& after.last_start_at == if is_result(kind) {
        None
    } else if kind == PingKind::Start {
        Some(ts)
    } else {
        check.last_start_at
    }
    &&& as_int(after.last_duration_ms) == if duration is Some {
        duration
    } else {
        as_int(check.last_duration_ms)
    }
    &&& as_int(after.alert_after) == alert_after_ping(check, kind, ts as int)
    &&& after.n_pings == check.n_pings + 1
    &&& after.updated_at == ts
}

/// Whether `row` is the log entry of a ping.
pub open spec fn logged(check: Check, kind: PingKind, input: PingInput, ts: i64, row: Ping) -> bool {
    &&& row.n == check.n_pings + 1
    &&& row.ts == ts
    &&& row.kind == kind
    &&& row.exit_code == input.exit_code
    &&& as_int(row.duration_ms) == measured(check, kind, ts as int)
    &&& row.remote_addr == input.remote_addr
    &&& row.user_agent == input.user_agent
    &&& row.method == input.method
    &&& outside::text_of(row.body) == match input.body {
        Some(body) => Some(kept(body@)),
        None => None,
    }
}

/// The kind of a ping; one that does not say is a success.
pub open spec fn kind_of(input: PingInput) -> PingKind {
    match input.kind {
        Some(kind) => kind,
        None => PingKind::Success,
    }
}

/// Why a ping cannot be recorded: a success on a check whose schedule has no
/// next deadline.
pub open spec fn ping_refusal(check: Check, kind: PingKind, ts: int) -> Option<Seq<char>> {
    if kind == PingKind::Success {
        match schedule::deadline(check, ts) {
            Ok(_) => None,
            Err(why) => Some(why),
        }
    } else {
        None
    }
}

/// Whether the time a result ping measures fits 64 bits.
pub open spec fn elapsed_fits(check: Check, kind: PingKind, ts: int) -> bool {
    match check.last_start_at {
        Some(start) => is_result(kind) ==> schedule::in_i64(ts - start) && schedule::in_i64(
            1000 * (ts - start),
        ) || ts <= start && schedule::in_i64(ts - start),
        None => true,
    }
}

/// Whether everything a ping adds up fits 64 bits.
pub open spec fn ping_fits(check: Check, kind: PingKind, ts: int) -> bool {
    &&& elapsed_fits(check, kind, ts)
    &&& kind == PingKind::Success ==> schedule::deadline_fits(check, ts)
    &&& ping_refusal(check, kind, ts) is None ==> check.n_pings < i64::MAX
}

/// Record a ping and move the check to its new state.
///
/// A ping on a paused check resumes it: whoever is still running the job
/// clearly expects it to be monitored. A start does not change the schedule:
/// the job is late when its *result* fails to arrive, not its announcement.
///
/// [`checked_record_ping`] is the same where it is not known whether
/// everything fits 64 bits.
pub fn record_ping(check: &Check, input: PingInput, ts: i64) -> (r: Result<Recorded, Error>)
    requires
        ping_fits(*check, kind_of(input), ts as int),
    ensures
        match ping_refusal(*check, kind_of(input), ts as int) {
            Some(why) => r matches Err(e) && e@ == why,
            None => r matches Ok(done) && pinged(*check, kind_of(input), ts, done.check) && logged(
                *check,
                kind_of(input),
                input,
                ts,
                done.ping,
            ) && done.outcome.previous == check.status && done.outcome.status == done.check.status
                && done.outcome.n == done.ping.n,
        },
{
    let kind = match input.kind {
        Some(kind) => kind,
        None => PingKind::Success,
    };
    let mut after = check.clone();
    // Only recorded on the ping that closes a start/finish pair.
    let mut duration_ms: Option<i64> = None;
    match kind {
        PingKind::Success | PingKind::Fail => {
            after.last_ping_at = Some(ts);
            duration_ms = match check.last_start_at {
                Some(start) => Some(
                    if ts > start {
                        (ts - start) * 1000
                    } else {
                        0
                    },
                ),
                None => None,
            };
            if duration_ms.is_some() {
                after.last_duration_ms = duration_ms;
            }
            after.last_start_at = None;
            if kind == PingKind::Success {
                match schedule::next_deadline(check, ts) {
                    Ok(at) => {
                        after.status = Status::Up;
                        after.alert_after = Some(at);
                    },
                    Err(e) => {
                        return Err(e);
                    },
                }
            } else {
                // Already down; nothing left to be late for.
                after.status = Status::Down;
                after.alert_after = None;
            }
        },
        PingKind::Start => {
            after.last_start_at = Some(ts);
        },
        PingKind::Log => {},
    }
    let n: i64 = check.n_pings + 1;
    after.n_pings = n;
    after.updated_at = ts;
    let body: Option<String> = match input.body {
        Some(body) => Some(keep_body(body)),
        None => None,
    };
    let ping = Ping {
        n,
        ts,
        kind,
        exit_code: input.exit_code,
        duration_ms,
        remote_addr: input.remote_addr,
        user_agent: input.user_agent,
        method: input.method,
        body,
    };
    let outcome = PingOutcome { previous: check.status, status: after.status, n };
    Ok(Recorded { check: after, ping, outcome })
}

/// Record a ping, or nothing when what it adds up does not fit 64 bits.
pub fn checked_record_ping(check: &Check, input: PingInput, ts: i64) -> (r: Option<
    Result<Recorded, Error>,
>)
    ensures
        r is Some == ping_fits(*check, kind_of(input), ts as int),
        r matches Some(result) ==> match ping_refusal(*check, kind_of(input), ts as int) {
            Some(why) => result matches Err(e) && e@ == why,
            None => result matches Ok(done) && pinged(
                *check,
                kind_of(input),
                ts,
                done.check,
            ) && logged(*check, kind_of(input), input, ts, done.ping) && done.outcome.previous
                == check.status && done.outcome.status == done.check.status && done.outcome.n
                == done.ping.n,
        },
{
    let kind = match input.kind {
        Some(kind) => kind,
        None => PingKind::Success,
    };
    match kind {
        PingKind::Success | PingKind::Fail => {
            if let Some(start) = check.last_start_at {
                let apart: i128 = ts as i128 - start as i128;
                if apart < i64::MIN as i128 || apart * 1000 > i64::MAX as i128 {
                    return None;
                }
            }
        },
        _ => {},
    }
    let mut refused = false;
    if kind == PingKind::Success {
        match schedule::checked_next_deadline(check, ts) {
            None => {
                return None;
            },
            Some(Ok(_)) => {},
            Some(Err(_)) => {
                refused = true;
            },
        }
    }
    if !refused && check.n_pings == i64::MAX {
        return None;
    }
    Some(record_ping(check, input, ts))
}

/// The pings that no longer fit in a check's log, given all of them, newest
/// first.
pub open spec fn expired(newest_first: Seq<i64>) -> Seq<i64> {
    if newest_first.len() <= MAX_PINGS_PER_CHECK {
        Seq::empty()
    } else {
        newest_first.skip(MAX_PINGS_PER_CHECK as int)
    }
}

/// The pings to drop from a check's log, given all their ids, newest first.
pub fn expired_pings(newest_first: &Vec<i64>) -> (r: Vec<i64>)
    ensures
        r@ == expired(newest_first@),
{
    let mut r: Vec<i64> = Vec::new();
    let mut i: usize = MAX_PINGS_PER_CHECK;
    while i < newest_first.len()
        invariant
            MAX_PINGS_PER_CHECK <= i,
            newest_first@.len() <= MAX_PINGS_PER_CHECK ==> r@.len() == 0,
            newest_first@.len() > MAX_PINGS_PER_CHECK ==> i <= newest_first@.len() && r@
                == newest_first@.subrange(MAX_PINGS_PER_CHECK as int, i as int),
        decreases newest_first@.len() - i,
    {
        r.push(newest_first[i]);
        assert(newest_first@.subrange(MAX_PINGS_PER_CHECK as int, i + 1)
            =~= newest_first@.subrange(MAX_PINGS_PER_CHECK as int, i as int).push(
            newest_first@[i as int],
        ));
        i = i + 1;
    }
    r
}

// --------------------------------------------------------- pause and resume

/// A check with its monitoring suspended: it cannot be late.
pub fn pause_check(check: &Check, ts: i64) -> (r: Check)
    ensures
        r == (Check { status: Status::Paused, alert_after: None, updated_at: ts, ..*check }),
{
    let mut r = check.clone();
    r.status = Status::Paused;
    r.alert_after = None;
    r.updated_at = ts;
    r
}

/// A check monitored again, with a full period to report in; nothing when its
/// deadline does not fit 64 bits.
pub fn resume_check(check: &Check, ts: i64) -> (r: Option<Result<Check, Error>>)
    ensures
        r is Some == schedule::deadline_fits(*check, ts as int),
        r matches Some(result) ==> match schedule::deadline(*check, ts as int) {
            Err(why) => result matches Err(e) && e@ == why,
            Ok(at) => result matches Ok(resumed) && resumed == (Check {
                status: Status::Up,
                alert_after: Some(at as i64),
                updated_at: ts,
                ..*check
            }),
        },
{
    match schedule::checked_next_deadline(check, ts) {
        None => None,
        Some(Err(e)) => Some(Err(e)),
        Some(Ok(at)) => {
            let mut r = check.clone();
            r.status = Status::Up;
            r.alert_after = Some(at);
            r.updated_at = ts;
            Some(Ok(r))
        },
    }
}

// -------------------------------------------------------------------- laws

/// Without what has expired, a ping log holds at most
/// [`MAX_PINGS_PER_CHECK`] pings, and the newest ones are never dropped.
pub proof fn law_log_is_bounded(newest_first: Seq<i64>)
    ensures
        newest_first.len() - expired(newest_first).len() <= MAX_PINGS_PER_CHECK,
        exists|left: Seq<i64>|
            #![trigger left + expired(newest_first)]
            newest_first == left + expired(newest_first) && (expired(newest_first).len() > 0
                ==> left.len() == MAX_PINGS_PER_CHECK),
{
    let n = newest_first.len() - expired(newest_first).len();
    assert(newest_first =~= newest_first.take(n) + expired(newest_first));
}

/// What is kept of a body is a beginning of it that fits the limit, the whole
/// of it when that fits, and otherwise all but at most three bytes of what the
/// limit allows: one character more would not fit.
pub proof fn law_kept_body_fits(body: Seq<char>)
    ensures
        kept(body).is_prefix_of(body),
        encode_utf8(kept(body)).len() <= MAX_BODY_BYTES,
        encode_utf8(body).len() <= MAX_BODY_BYTES ==> kept(body) == body,
        encode_utf8(body).len() > MAX_BODY_BYTES ==> encode_utf8(kept(body)).len() >= MAX_BODY_BYTES
            - 3,
        kept(body).len() < body.len() ==> encode_utf8(
            body.take(kept(body).len() as int + 1),
        ).len() > MAX_BODY_BYTES,
{
    lemma_kept(body, MAX_BODY_BYTES as int);
    if encode_utf8(body).len() <= MAX_BODY_BYTES {
        assert(body.take(body.len() as int) =~= body);
    }
}

/// A character adds at most four bytes to a text.
proof fn lemma_last_is_short(s: Seq<char>)
    requires
        s.len() > 0,
    ensures
        encode_utf8(s).len() <= encode_utf8(s.drop_last()).len() + 4,
    decreases s.len(),
{
    let rest = s.drop_first();
    assert(encode_scalar(s[0] as u32).len() <= 4);
    if s.len() == 1 {
        assert(encode_utf8(rest).len() == 0);
    } else {
        lemma_last_is_short(rest);
        assert(s.drop_last().drop_first() =~= rest.drop_last());
    }
}

proof fn lemma_kept(s: Seq<char>, limit: int)
    requires
        limit >= 0,
    ensures
        0 <= fitting(s, limit) <= s.len(),
        encode_utf8(s.take(fitting(s, limit))).len() <= limit,
        encode_utf8(s).len() > limit ==> encode_utf8(s.take(fitting(s, limit))).len() >= limit - 3,
        fitting(s, limit) < s.len() ==> encode_utf8(s.take(fitting(s, limit) + 1)).len() > limit,
    decreases s.len(),
{
    assert(s.take(s.len() as int) =~= s);
    if s.len() == 0 {
        assert(encode_utf8(s).len() == 0);
    } else if encode_utf8(s).len() > limit {
        let shorter = s.drop_last();
        lemma_kept(shorter, limit);
        lemma_last_is_short(s);
        assert(shorter.take(fitting(s, limit)) =~= s.take(fitting(s, limit)));
        assert(shorter.take(shorter.len() as int) =~= shorter);
        if fitting(s, limit) < shorter.len() {
            assert(shorter.take(fitting(s, limit) + 1) =~= s.take(fitting(s, limit) + 1));
        } else {
            assert(s.take(fitting(s, limit) + 1) =~= s);
        }
    }
}

/// Whether a check went through log entries only, one at each of the times.
pub open spec fn only_logs(history: Seq<Check>, times: Seq<i64>) -> bool {
    &&& history.len() == times.len() + 1
    &&& forall|i: int|
        0 <= i < times.len() ==> pinged(
            #[trigger] history[i],
            PingKind::Log,
            times[i],
            history[i + 1],
        )
}

/// Log entries keep a start open.
proof fn lemma_logs_keep_the_start(history: Seq<Check>, times: Seq<i64>, n: int)
    requires
        only_logs(history, times),
        0 <= n < history.len(),
    ensures
        history[n].last_start_at == history[0].last_start_at,
    decreases n,
{
    if n > 0 {
        lemma_logs_keep_the_start(history, times, n - 1);
    }
}

/// A start and the result after it measure the time between them, whatever is
/// logged in between: in milliseconds, and none when the clock was set back.
pub proof fn law_start_and_result_measure_duration(
    check: Check,
    history: Seq<Check>,
    times: Seq<i64>,
    finished: Check,
    kind: PingKind,
    start: i64,
    end: i64,
)
    requires
        only_logs(history, times),
        pinged(check, PingKind::Start, start, history[0]),
        is_result(kind),
        pinged(history.last(), kind, end, finished),
    ensures
        as_int(finished.last_duration_ms) == Some(
            if end > start {
                1000 * (end - start)
            } else {
                0
            },
        ),
        finished.last_start_at is None,
{
    lemma_logs_keep_the_start(history, times, history.len() - 1);
}

/// A start announces a job and a log entry accompanies one: neither changes
/// the status or the deadline. A start opens a measurement, and a log entry
/// leaves an open one as it is.
pub proof fn law_only_results_change_state(check: Check, kind: PingKind, ts: i64, after: Check)
    requires
        pinged(check, kind, ts, after),
        !is_result(kind),
    ensures
        after.status == check.status,
        after.alert_after == check.alert_after,
        after.last_ping_at == check.last_ping_at,
        after.last_duration_ms == check.last_duration_ms,
        kind == PingKind::Start ==> after.last_start_at == Some(ts),
        kind == PingKind::Log ==> after.last_start_at == check.last_start_at,
{
}

/// A success takes any check up, a paused one included, and sets the deadline
/// that its schedule asks for.
pub proof fn law_success_resumes(check: Check, ts: i64, after: Check)
    requires
        pinged(check, PingKind::Success, ts, after),
    ensures
        after.status == Status::Up,
        after.last_ping_at == Some(ts),
        as_int(after.alert_after) == Some(schedule::deadline(check, ts as int)->Ok_0),
{
}

/// Resuming a paused check gives its job as much time as if it had just
/// reported: with a simple schedule, more than a full period.
pub proof fn law_resumed_job_has_a_full_period(check: Check, paused_at: i64, ts: int)
    requires
        schedule::leaves_time(check),
    ensures
        ({
            let paused = Check {
                status: Status::Paused,
                alert_after: None,
                updated_at: paused_at,
                ..check
            };
            &&& schedule::deadline(paused, ts) == schedule::deadline(check, ts)
            &&& check.kind == CheckKind::Simple ==> schedule::deadline(paused, ts)->Ok_0 > ts
                + check.period_s
        }),
{
}

/// Pings are numbered one after the other.
pub proof fn law_pings_are_counted(check: Check, kind: PingKind, ts: i64, after: Check)
    requires
        pinged(check, kind, ts, after),
    ensures
        after.n_pings == check.n_pings + 1,
        after.id == check.id,
        after.uuid == check.uuid,
{
}

/// A failure takes any check down, whatever it was before, and leaves nothing
/// for the alert loop to wait for.
pub proof fn law_failure_takes_any_check_down(check: Check, ts: i64, after: Check)
    requires
        pinged(check, PingKind::Fail, ts, after),
    ensures
        after.status == Status::Down,
        after.alert_after is None,
        after.last_ping_at == Some(ts),
{
}

/// A success is due again at the ping plus period and grace, or for a cron check
/// at the next occurrence after the ping plus the grace.
pub proof fn law_success_sets_the_deadline(check: Check, ts: i64, after: Check)
    requires
        pinged(check, PingKind::Success, ts, after),
        ping_refusal(check, PingKind::Success, ts as int) is None,
    ensures
        after.alert_after is Some,
        check.kind == CheckKind::Simple ==> after.alert_after->0 == ts + check.period_s
            + check.grace_s,
        check.kind == CheckKind::Cron ==> check.cron_expr is Some && after.alert_after->0
            == schedule::occurrence(check.cron_expr->0@, check.tz@, ts as int)->Ok_0
            + check.grace_s,
{
}

/// A ping leaves alone what was asked for of a check, and dates the change.
pub proof fn law_ping_keeps_the_check(check: Check, kind: PingKind, ts: i64, after: Check)
    requires
        pinged(check, kind, ts, after),
    ensures
        after.id == check.id,
        after.uuid == check.uuid,
        after.name == check.name,
        after.description == check.description,
        after.tags == check.tags,
        after.kind == check.kind,
        after.period_s == check.period_s,
        after.grace_s == check.grace_s,
        after.cron_expr == check.cron_expr,
        after.tz == check.tz,
        after.created_at == check.created_at,
        after.badge_token == check.badge_token,
        after.updated_at == ts,
        after.n_pings == check.n_pings + 1,
{
}

/// A result closes an open start, and without one the last duration that was
/// measured stays.
pub proof fn law_result_closes_a_start(check: Check, kind: PingKind, ts: i64, after: Check)
    requires
        pinged(check, kind, ts, after),
        kind == PingKind::Success || kind == PingKind::Fail,
    ensures
        after.last_start_at is None,
        after.last_ping_at == Some(ts),
        check.last_start_at is None ==> after.last_duration_ms == check.last_duration_ms,
        check.last_start_at matches Some(start) ==> as_int(after.last_duration_ms) == Some(
            if ts > start {
                1000 * (ts - start)
            } else {
                0
            },
        ),
{
}

/// A log entry says what the client said, under the next number, and how long
/// the job took only where it closes a start.
pub proof fn law_log_entry_says_what_came(
    check: Check,
    kind: PingKind,
    input: PingInput,
    ts: i64,
    row: Ping,
)
    requires
        logged(check, kind, input, ts, row),
    ensures
        row.n == check.n_pings + 1,
        row.ts == ts,
        row.kind == kind,
        row.exit_code == input.exit_code,
        row.remote_addr == input.remote_addr,
        row.user_agent == input.user_agent,
        row.method == input.method,
        row.body is Some == input.body is Some,
        input.body matches Some(body) ==> row.body->0@ == kept(body@) && row.body->0@.is_prefix_of(
            body@,
        ) && (encode_utf8(body@).len() <= MAX_BODY_BYTES ==> row.body->0@ == body@),
        row.duration_ms is Some <==> (kind == PingKind::Success || kind == PingKind::Fail)
            && check.last_start_at is Some,
        row.duration_ms matches Some(ms) ==> ms == if ts > check.last_start_at->0 {
            1000 * (ts - check.last_start_at->0)
        } else {
            0
        },
{
    if let Some(body) = input.body {
        law_kept_body_fits(body@);
    }
}

/// A ping that does not say what it is is a success; one that does is that.
pub proof fn law_plain_ping_is_a_success(input: PingInput)
    ensures
        input.kind is None ==> kind_of(input) == PingKind::Success,
        input.kind matches Some(kind) ==> kind_of(input) == kind,
{
}

/// Only a success on a cron check can be refused, and is exactly where its
/// schedule has no next occurrence.
pub proof fn law_pings_are_taken(check: Check, kind: PingKind, ts: int)
    ensures
        kind != PingKind::Success || check.kind == CheckKind::Simple ==> ping_refusal(
            check,
            kind,
            ts,
        ) is None,
        kind == PingKind::Success && check.kind == CheckKind::Cron ==> (ping_refusal(
            check,
            kind,
            ts,
        ) is None <==> (check.cron_expr matches Some(expr) && schedule::occurrence(
            expr@,
            check.tz@,
            ts,
        ) is Ok)),
        ping_refusal(check, kind, ts) matches Some(why) ==> schedule::deadline(check, ts) == Err::<
            int,
            Seq<char>,
        >(why),
{
}

/// A created check keeps what was asked for, its schedule above all: its first
/// success is due as the request says.
pub proof fn law_created_check_keeps_what_was_asked(
    check: Check,
    new: NewCheck,
    uuid: Seq<char>,
    ts: int,
    from: int,
)
    requires
        is_draft(check, new, uuid, ts),
    ensures
        check.name@ == new.name@,
        check.description@ == new.description@,
        check.tags@ == new.tags@,
        check.kind == new.kind,
        check.period_s == new.period_s,
        check.grace_s == new.grace_s,
        outside::text_of(check.cron_expr) == outside::text_of(new.cron_expr),
        check.tz@ == new.tz@,
        new.kind == CheckKind::Simple ==> schedule::deadline(check, from) == Ok::<int, Seq<char>>(
            from + new.period_s + new.grace_s,
        ),
        new.kind == CheckKind::Cron && new.cron_expr is Some ==> schedule::deadline(check, from)
            == match schedule::occurrence(new.cron_expr->0@, new.tz@, from) {
            Ok(next) => Ok::<int, Seq<char>>(next + new.grace_s),
            Err(why) => Err(why),
        },
{
}

/// A created check has never been heard of: it is new, nothing is due, and its
/// first ping is the first.
pub proof fn law_created_check_is_new(
    check: Check,
    new: NewCheck,
    uuid: Seq<char>,
    ts: int,
    kind: PingKind,
    at: i64,
    after: Check,
)
    requires
        is_draft(check, new, uuid, ts),
        pinged(check, kind, at, after),
    ensures
        check.uuid@ == uuid,
        check.created_at == ts,
        check.updated_at == ts,
        check.id == 0,
        check.badge_token@.len() == 0,
        check.status == Status::New,
        check.alert_after is None,
        check.last_ping_at is None,
        check.last_start_at is None,
        check.last_duration_ms is None,
        after.n_pings == 1,
        kind == PingKind::Success ==> after.status == Status::Up,
        kind == PingKind::Start || kind == PingKind::Log ==> after.status == Status::New
            && after.alert_after is None,
{
}

/// A check can be monitored exactly where its grace is positive and its
/// schedule leads somewhere: a positive period, or a cron expression with an
/// occurrence to come. The schedule is judged first.
pub proof fn law_what_can_be_monitored(new: NewCheck, at: int)
    ensures
        vetted(new, at) is Ok <==> new.grace_s > 0 && match new.kind {
            CheckKind::Simple => new.period_s > 0,
            CheckKind::Cron => new.cron_expr matches Some(expr) && schedule::occurrence(
                expr@,
                new.tz@,
                at,
            ) is Ok,
        },
        new.kind == CheckKind::Simple && new.period_s <= 0 ==> vetted(new, at) == Err::<
            (),
            Seq<char>,
        >("period must be positive"@),
        new.kind == CheckKind::Cron && new.cron_expr is None ==> vetted(new, at) == Err::<
            (),
            Seq<char>,
        >("cron check requires a cron expression"@),
        new.kind == CheckKind::Simple && new.period_s > 0 && new.grace_s <= 0 ==> vetted(new, at)
            == Err::<(), Seq<char>>("grace must be positive"@),
        new.kind == CheckKind::Cron && new.cron_expr is Some ==> match schedule::occurrence(
            new.cron_expr->0@,
            new.tz@,
            at,
        ) {
            Err(why) => vetted(new, at) == Err::<(), Seq<char>>(why),
            Ok(_) => new.grace_s <= 0 ==> vetted(new, at) == Err::<(), Seq<char>>(
                "grace must be positive"@,
            ),
        },
        vetted(new, at) is Ok ==> schedule::usable(
            new.kind,
            outside::text_of(new.cron_expr),
            new.tz@,
            new.period_s as int,
            at,
        ) is Ok,
{
}

/// A ping can be counted exactly where what it adds up fits 64 bits: the time
/// since the start that it closes, its deadline and its number.
pub proof fn law_which_pings_fit(check: Check, kind: PingKind, ts: int)
    ensures
        ping_fits(check, kind, ts) <==> {
            &&& (kind == PingKind::Success || kind == PingKind::Fail) && check.last_start_at is Some
                ==> {
                let apart = ts - check.last_start_at->0;
                i64::MIN <= apart && 1000 * apart <= i64::MAX
            }
            &&& kind == PingKind::Success ==> schedule::deadline_fits(check, ts)
            &&& (kind == PingKind::Success && schedule::deadline(check, ts) is Err) || check.n_pings
                < i64::MAX
        },
{
}

/// How much is kept of pings.
pub proof fn law_limits_on_pings()
    ensures
        MAX_PINGS_PER_CHECK == 100,
        MAX_BODY_BYTES == 102_400,
{
}

/// What the clock shows decides on cron schedules only: a simple check is taken
/// exactly where period and grace are positive, and no check is without grace.
pub proof fn law_vetting_by_the_clock(new: NewCheck, outcome: Result<(), Seq<char>>)
    requires
        vetted_now(new, outcome),
    ensures
        new.kind == CheckKind::Simple ==> (outcome is Ok <==> new.period_s > 0 && new.grace_s > 0),
        new.grace_s <= 0 || (new.kind == CheckKind::Cron && new.cron_expr is None) ==> outcome
            is Err,
        exists|at: int| 0 <= at <= schedule::LAST_LOOK && outcome == #[trigger] vetted(new, at),
{
}

} // verus!
