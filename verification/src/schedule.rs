//! When a check is due.

use vstd::prelude::*;

use crate::error;
use crate::error::Error;
use crate::model;
use crate::model::{Check, CheckKind};
use crate::outside;
use crate::text;

verus! {

/// Whether a number of seconds fits 64 bits.
pub open spec fn in_i64(n: int) -> bool {
    i64::MIN <= n <= i64::MAX
}

/// The last instant that schedules are looked at from: a day before the end of
/// the calendar, so that it has a date in every timezone.
pub const LAST_LOOK: i64 = 8_210_266_790_399;

/// An optional text, by its characters.
pub open spec fn chars(s: Option<&str>) -> Option<Seq<char>> {
    match s {
        Some(s) => Some(s@),
        None => None,
    }
}

/// The first instant past `from` that a search for the next occurrence of a
/// cron expression yields, looking from `base` on and then from ever later
/// instants, or why there is none. Looking once is enough unless clocks are
/// being set back at `from`: wall-clock times repeat then, and the search
/// names the earlier of the two.
pub open spec fn first_past(expr: Seq<char>, tz: Seq<char>, from: int, base: int) -> Result<
    i64,
    Seq<char>,
>
    decreases outside::CALENDAR_LAST + 1 - base,
{
    if !outside::has_local_date(tz, base) {
        Err("timestamp out of range"@)
    } else {
        match outside::cron_next(expr, tz, base) {
            Err(why) => Err("no next occurrence for "@ + outside::debug_text(expr) + ": "@ + why),
            Ok(next) => if next > from {
                Ok(next)
            } else {
                first_past(expr, tz, from, base + 1)
            },
        }
    }
}

/// Whether a job is due at an instant: the expression matches, and a job at one
/// fixed time of the day has not been due at the same time of the clock before.
pub open spec fn occurs(expr: Seq<char>, tz: Seq<char>, ts: int) -> bool {
    outside::cron_matches(expr, tz, ts) && !(outside::cron_is_fixed(expr) && outside::second_pass(
        tz,
        ts,
    ))
}

/// The first instant past one and up to another at which a job is due.
pub open spec fn match_within(expr: Seq<char>, tz: Seq<char>, from: int, end: int) -> Option<int>
    decreases end - from,
{
    if from >= end {
        None
    } else if occurs(expr, tz, from + 1) {
        Some(from + 1)
    } else {
        match_within(expr, tz, from + 1, end)
    }
}

/// Whether a search on the wall clock can go wrong after an instant: where
/// clocks are set back, a job that is not at one fixed time of the day is due in
/// both passes of the hours that repeat, and one that is in the first. UTC is
/// never set.
pub open spec fn repeats(tz: Seq<char>, from: int) -> bool {
    tz != "UTC"@ && outside::set_back_near(tz, from)
}

/// The first occurrence of a readable cron expression in a known timezone
/// strictly after an instant, or why there is none. Where a search on the wall
/// clock can go wrong, a day is looked through instant by instant first.
pub open spec fn upcoming(expr: Seq<char>, tz: Seq<char>, from: int) -> Result<i64, Seq<char>>
    decreases outside::CALENDAR_LAST - from,
{
    if repeats(tz, from) {
        match match_within(expr, tz, from, from + 86_400) {
            Some(at) => Ok(at as i64),
            None => upcoming(expr, tz, from + 86_400),
        }
    } else {
        first_past(expr, tz, from, from)
    }
}

/// Whether all matches between two instants are between them on the wall clock
/// too. Where clocks are set back, a match in hours that repeat may not be.
pub open spec fn in_step(expr: Seq<char>, tz: Seq<char>, from: int, to: int) -> bool {
    forall|x: int|
        from < x < to && #[trigger] outside::cron_matches(expr, tz, x) ==> outside::wall_between(
            tz,
            from,
            x,
            to,
        )
}

/// Whether the occurrence found after an instant is bound to be the first
/// match: in UTC, for a job that is not at one fixed time of the day, and for
/// one that is where neither hours that are skipped nor hours that repeat
/// concern it.
pub open spec fn keeps_order(expr: Seq<char>, tz: Seq<char>, from: int, found: int) -> bool {
    ||| tz == "UTC"@
    ||| !outside::cron_is_fixed(expr)
    ||| outside::cron_matches(expr, tz, found) && forall|x: int|
        from < x < found ==> !#[trigger] outside::second_pass(tz, x)
    ||| {
        &&& outside::cron_next(expr, tz, from) == Ok::<i64, Seq<char>>(found as i64)
        &&& outside::cron_matches(expr, tz, found)
        &&& !outside::set_back_near(tz, from) || in_step(expr, tz, from, found)
    }
}

/// The first occurrence of a cron expression in a timezone strictly after an
/// instant, or why there is none.
pub open spec fn occurrence(expr: Seq<char>, tz: Seq<char>, from: int) -> Result<i64, Seq<char>> {
    match outside::cron_refusal(expr) {
        Some(why) => Err("invalid cron expression "@ + outside::debug_text(expr) + ": "@ + why),
        None => if !outside::is_timezone(tz) {
            Err("unknown timezone "@ + outside::debug_text(tz))
        } else if !outside::in_calendar(from) {
            Err("timestamp out of range"@)
        } else {
            upcoming(expr, tz, from)
        },
    }
}

/// Whether an instant is clear of the first and last day of the calendar,
/// where a local date may not exist outside of UTC.
pub open spec fn clear_of_ends(tz: Seq<char>, ts: int) -> bool {
    outside::in_calendar(ts) ==> outside::has_local_date(tz, ts)
}

/// The first instant past `from_ts` that a search yields, away from where clocks
/// are set back.
fn search_past(expr: &str, tz: &str, from_ts: i64) -> (r: Result<i64, Error>)
    requires
        outside::cron_refusal(expr@) is None,
        outside::is_timezone(tz@),
        outside::has_local_date(tz@, from_ts as int),
        !repeats(tz@, from_ts as int),
    ensures
        error::told(r) == first_past(expr@, tz@, from_ts as int, from_ts as int),
        match r {
            Ok(next) => {
                &&& outside::cron_next(expr@, tz@, from_ts as int) == Ok::<i64, Seq<char>>(next)
                &&& next > from_ts
                &&& occurs(expr@, tz@, next as int) || outside::cron_is_fixed(expr@)
                    && outside::set_forward_at(tz@, next as int)
                &&& tz@ == "UTC"@ ==> outside::cron_matches(expr@, tz@, next as int)
                &&& forall|x: int|
                    from_ts < x < next ==> !#[trigger] outside::cron_matches(expr@, tz@, x)
            },
            Err(_) => outside::cron_next(expr@, tz@, from_ts as int) is Err,
        },
{
    match outside::search_cron(expr, tz, from_ts) {
        Ok(next) => Ok(next),
        Err(why) => {
            let mut message = "no next occurrence for ".to_owned();
            message.append(outside::debug_str(expr).as_str());
            message.append(": ");
            message.append(why.as_str());
            Err(Error { message })
        },
    }
}

/// Where a search on the wall clock ends, or the instant it starts from when
/// there is no later end. Nothing matches that it went over.
fn look_ahead(expr: &str, tz: &str, from_ts: i64) -> (r: i64)
    requires
        outside::cron_refusal(expr@) is None,
        outside::is_timezone(tz@),
        outside::in_inner_calendar(from_ts as int),
    ensures
        from_ts <= r <= outside::CALENDAR_LAST,
        forall|x: int|
            from_ts < x < r && outside::wall_between(tz@, from_ts as int, x, r as int)
                ==> !#[trigger] outside::cron_matches(expr@, tz@, x),
        outside::cron_next(expr@, tz@, from_ts as int) matches Ok(n) ==> forall|x: int|
            from_ts < x < n && outside::wall_between(tz@, from_ts as int, x, n as int)
                ==> !#[trigger] outside::cron_matches(expr@, tz@, x),
{
    match outside::search_cron(expr, tz, from_ts) {
        Ok(next) if next > from_ts && next <= outside::CALENDAR_LAST => next,
        _ => from_ts,
    }
}

/// Whether an instant is in the second pass of hours that repeat.
fn is_second_pass(tz: &str, ts: i64) -> (r: bool)
    requires
        outside::is_timezone(tz@),
        outside::in_inner_calendar(ts as int),
    ensures
        r == outside::second_pass(tz@, ts as int),
{
    let before: i64 = outside::offset_at(tz, ts - 86_400);
    let back: i64 = before - outside::offset_at(tz, ts);
    back > 0 && outside::offset_at(tz, ts - back) == before
}

/// The first instant past one and up to another at which a job is due.
///
/// Instants that a search on the wall clock went over are not tested again:
/// what is left are hours that repeat.
fn find_match(expr: &str, tz: &str, from_ts: i64, end: i64) -> (r: Option<i64>)
    requires
        outside::cron_refusal(expr@) is None,
        outside::is_timezone(tz@),
        outside::in_inner_calendar(from_ts as int),
        outside::in_inner_calendar(end as int),
        from_ts <= end,
    ensures
        match match_within(expr@, tz@, from_ts as int, end as int) {
            Some(at) => r matches Some(found) && found == at,
            None => r is None,
        },
        outside::cron_next(expr@, tz@, from_ts as int) matches Ok(n) ==> forall|x: int|
            from_ts < x < n && outside::wall_between(tz@, from_ts as int, x, n as int)
                ==> !#[trigger] outside::cron_matches(expr@, tz@, x),
{
    let fixed = outside::is_fixed_time(expr);
    let mut seen: i64 = from_ts;
    let mut next: i64 = look_ahead(expr, tz, seen);
    let mut low: i64 = seen + outside::offset_at(tz, seen);
    let mut high: i64 = next + outside::offset_at(tz, next);
    let mut at: i64 = from_ts;
    while at < end
        invariant
            outside::cron_refusal(expr@) is None,
            outside::is_timezone(tz@),
            outside::in_inner_calendar(from_ts as int),
            outside::in_inner_calendar(end as int),
            fixed == outside::cron_is_fixed(expr@),
            from_ts <= seen <= at <= end,
            seen <= next,
            outside::cron_next(expr@, tz@, from_ts as int) matches Ok(n) ==> forall|x: int|
                from_ts < x < n && outside::wall_between(tz@, from_ts as int, x, n as int)
                    ==> !#[trigger] outside::cron_matches(expr@, tz@, x),
            low == outside::wall(tz@, seen as int),
            high == outside::wall(tz@, next as int),
            forall|x: int|
                seen < x < next && outside::wall_between(tz@, seen as int, x, next as int)
                    ==> !#[trigger] outside::cron_matches(expr@, tz@, x),
            match_within(expr@, tz@, from_ts as int, end as int) == match_within(
                expr@,
                tz@,
                at as int,
                end as int,
            ),
        decreases end - at,
    {
        if at - seen >= 3600 {
            seen = at;
            next = look_ahead(expr, tz, seen);
            low = seen + outside::offset_at(tz, seen);
            high = next + outside::offset_at(tz, next);
        }
        at = at + 1;
        let shown: i64 = at + outside::offset_at(tz, at);
        let went_over = at < next && low < shown && shown < high;
        if !went_over && !(fixed && is_second_pass(tz, at)) && outside::matches_cron(expr, tz, at) {
            return Some(at);
        }
    }
    None
}

/// What `match_within` finds is the first instant at which the job is due, and
/// where it finds none there is none.
proof fn lemma_match_within(expr: Seq<char>, tz: Seq<char>, from: int, end: int)
    ensures
        match match_within(expr, tz, from, end) {
            Some(at) => {
                &&& from < at <= end
                &&& occurs(expr, tz, at)
                &&& forall|x: int|
                    from < x < at && #[trigger] outside::cron_matches(expr, tz, x)
                        ==> outside::cron_is_fixed(expr) && outside::second_pass(tz, x)
            },
            None => forall|x: int|
                from < x <= end && #[trigger] outside::cron_matches(expr, tz, x)
                    ==> outside::cron_is_fixed(expr) && outside::second_pass(tz, x),
        },
    decreases end - from,
{
    if from < end && !occurs(expr, tz, from + 1) {
        lemma_match_within(expr, tz, from + 1, end);
    }
}

/// Whether a search on the wall clock can go wrong after an instant.
fn may_repeat(tz: &str, from_ts: i64) -> (r: bool)
    requires
        outside::is_timezone(tz@),
    ensures
        r == repeats(tz@, from_ts as int),
{
    !text::same(tz, "UTC") && outside::CALENDAR_FIRST + 32 * 86_400 <= from_ts && from_ts <= outside::CALENDAR_LAST - 33
        * 86_400 && outside::offset_at(tz, from_ts - 86_400) > outside::offset_at(
        tz,
        from_ts + 86_400,
    )
}

/// First occurrence of `expr` strictly after `from_ts`, as a unix timestamp.
///
/// It is the first instant after `from_ts` that matches the expression, but for
/// jobs at one fixed time of the day where clocks are set: such a job occurs
/// once in hours that repeat, in the first pass, and right after hours that are
/// skipped.
pub fn next_cron_occurrence(expr: &str, tz: &str, from_ts: i64) -> (r: Result<i64, Error>)
    requires
        clear_of_ends(tz@, from_ts as int),
    ensures
        error::told(r) == occurrence(expr@, tz@, from_ts as int),
        r matches Ok(next) ==> next > from_ts,
        r matches Ok(next) ==> outside::cron_matches(expr@, tz@, next as int) && !(
        outside::cron_is_fixed(expr@) && outside::second_pass(tz@, next as int))
            || outside::cron_is_fixed(expr@) && outside::set_forward_at(tz@, next as int),
        r matches Ok(next) ==> forall|x: int|
            from_ts < x < next && #[trigger] outside::cron_matches(expr@, tz@, x)
                ==> outside::cron_is_fixed(expr@) && outside::second_pass(tz@, x),
        r matches Ok(next) ==> keeps_order(expr@, tz@, from_ts as int, next as int)
            ==> outside::is_first_match(expr@, tz@, from_ts as int, next as int),
        r is Err ==> outside::cron_refusal(expr@) is Some || !outside::is_timezone(tz@)
            || !outside::in_calendar(from_ts as int) || exists|base: int|
            from_ts <= base && (#[trigger] outside::cron_next(expr@, tz@, base)) is Err,
{
    match outside::refuse_cron(expr) {
        Some(why) => {
            let mut message = "invalid cron expression ".to_owned();
            message.append(outside::debug_str(expr).as_str());
            message.append(": ");
            message.append(why.as_str());
            return Err(Error { message });
        },
        None => {},
    }
    if !outside::knows_timezone(tz) {
        let mut message = "unknown timezone ".to_owned();
        message.append(outside::debug_str(tz).as_str());
        return Err(Error { message });
    }
    if !outside::has_date(from_ts) {
        return Err(Error::new("timestamp out of range"));
    }
    let mut from: i64 = from_ts;
    while may_repeat(tz, from)
        invariant
            outside::cron_refusal(expr@) is None,
            outside::is_timezone(tz@),
            outside::has_local_date(tz@, from as int),
            from_ts <= from,
            upcoming(expr@, tz@, from_ts as int) == upcoming(expr@, tz@, from as int),
            occurrence(expr@, tz@, from_ts as int) == upcoming(expr@, tz@, from_ts as int),
            from > from_ts ==> (outside::cron_next(expr@, tz@, from_ts as int) matches Ok(n)
                ==> forall|x: int|
                from_ts < x < n && outside::wall_between(tz@, from_ts as int, x, n as int)
                    ==> !#[trigger] outside::cron_matches(expr@, tz@, x)),
            from > from_ts ==> repeats(tz@, from_ts as int),
            forall|x: int|
                from_ts < x <= from && #[trigger] outside::cron_matches(expr@, tz@, x)
                    ==> outside::cron_is_fixed(expr@) && outside::second_pass(tz@, x),
        decreases outside::CALENDAR_LAST - from,
    {
        proof {
            lemma_match_within(expr@, tz@, from as int, from + 86_400);
        }
        match find_match(expr, tz, from, from + 86_400) {
            Some(at) => {
                return Ok(at);
            },
            None => {
                from = from + 86_400;
            },
        }
    }
    search_past(expr, tz, from)
}

/// The instant a check becomes late, given the time of its last successful
/// ping, or why its schedule has none.
pub open spec fn deadline(check: Check, from: int) -> Result<int, Seq<char>> {
    match check.kind {
        CheckKind::Simple => Ok(from + check.period_s + check.grace_s),
        CheckKind::Cron => match check.cron_expr {
            None => Err("cron check has no cron expression"@),
            Some(expr) => match occurrence(expr@, check.tz@, from) {
                Ok(next) => Ok(next + check.grace_s),
                Err(why) => Err(why),
            },
        },
    }
}

/// Whether the deadline, and what is added up on the way to it, fits 64 bits.
pub open spec fn deadline_fits(check: Check, from: int) -> bool {
    match check.kind {
        CheckKind::Simple => in_i64(from + check.period_s) && in_i64(
            from + check.period_s + check.grace_s,
        ),
        CheckKind::Cron => match check.cron_expr {
            None => true,
            Some(expr) => clear_of_ends(check.tz@, from) && match occurrence(expr@, check.tz@, from) {
                Ok(next) => in_i64(next + check.grace_s),
                Err(_) => true,
            },
        },
    }
}

/// The result of looking for a deadline, with the words of a refusal.
pub open spec fn as_deadline(r: Result<i64, Error>) -> Result<int, Seq<char>> {
    match r {
        Ok(at) => Ok(at as int),
        Err(e) => Err(e@),
    }
}

/// The instant a check becomes late, given the time of its last successful
/// ping: one grace after its job was due to report. The alert comes a further
/// grace later, so that a simple check is down after its period and twice its
/// grace.
///
/// [`checked_next_deadline`] is the same for a check and an instant of which
/// it is not known whether the sum fits 64 bits.
pub fn next_deadline(check: &Check, from_ts: i64) -> (r: Result<i64, Error>)
    requires
        deadline_fits(*check, from_ts as int),
    ensures
        as_deadline(r) == deadline(*check, from_ts as int),
        check.kind == CheckKind::Simple ==> r == Ok::<i64, Error>(
            (from_ts + check.period_s + check.grace_s) as i64,
        ),
        check.kind == CheckKind::Cron ==> (r matches Ok(at) ==> check.cron_expr matches Some(expr)
            && at - check.grace_s > from_ts && forall|x: int|
            from_ts < x < at - check.grace_s && #[trigger] outside::cron_matches(
                expr@,
                check.tz@,
                x,
            ) ==> outside::cron_is_fixed(expr@) && outside::second_pass(check.tz@, x)),
        check.kind == CheckKind::Cron ==> (r matches Ok(at) ==> check.cron_expr matches Some(expr)
            && (outside::cron_matches(expr@, check.tz@, at - check.grace_s)
            || outside::cron_is_fixed(expr@) && outside::set_forward_at(
            check.tz@,
            at - check.grace_s,
        ))),
{
    match check.kind {
        CheckKind::Simple => Ok(from_ts + check.period_s + check.grace_s),
        CheckKind::Cron => match &check.cron_expr {
            None => Err(Error::new("cron check has no cron expression")),
            Some(expr) => match next_cron_occurrence(expr.as_str(), check.tz.as_str(), from_ts) {
                Ok(next) => Ok(next + check.grace_s),
                Err(e) => Err(e),
            },
        },
    }
}

/// Whether a check's schedule leaves it time: a positive grace and, without a
/// cron expression, a positive period.
pub open spec fn leaves_time(check: Check) -> bool {
    check.grace_s > 0 && (check.kind == CheckKind::Simple ==> check.period_s > 0)
}

/// An occurrence is strictly after the instant it was looked for from.
pub proof fn law_occurrence_is_strictly_after(
    expr: Seq<char>,
    tz: Seq<char>,
    from: int,
)
    ensures
        occurrence(expr, tz, from) matches Ok(next) ==> next > from,
{
    lemma_upcoming(expr, tz, from);
}

proof fn lemma_upcoming(expr: Seq<char>, tz: Seq<char>, from: int)
    ensures
        upcoming(expr, tz, from) matches Ok(next) ==> next > from,
    decreases outside::CALENDAR_LAST - from,
{
    lemma_first_past(expr, tz, from, from);
    if repeats(tz, from) {
        lemma_match_within(expr, tz, from, from + 86_400);
        lemma_upcoming(expr, tz, from + 86_400);
    }
}

/// The first match after an instant is the first match after every instant
/// before it from there on, and there is no other: the answer stays the same
/// until it has come.
pub proof fn law_first_match_is_stable(
    expr: Seq<char>,
    tz: Seq<char>,
    from: int,
    at: int,
    later: int,
    other: int,
)
    requires
        outside::is_first_match(expr, tz, from, at),
        from <= later < at,
    ensures
        outside::is_first_match(expr, tz, later, at),
        outside::is_first_match(expr, tz, later, other) ==> other == at,
{
    if outside::is_first_match(expr, tz, later, other) {
        if other < at {
            assert(!outside::cron_matches(expr, tz, other));
        } else if at < other {
            assert(!outside::cron_matches(expr, tz, at));
        }
    }
}

proof fn lemma_first_past(expr: Seq<char>, tz: Seq<char>, from: int, base: int)
    ensures
        first_past(expr, tz, from, base) matches Ok(next) ==> next > from,
    decreases outside::CALENDAR_LAST + 1 - base,
{
    if outside::has_local_date(tz, base) {
        if let Ok(next) = outside::cron_next(expr, tz, base) {
            if next <= from {
                lemma_first_past(expr, tz, from, base + 1);
            }
        }
    }
}

/// The deadline of a check is still ahead when its ping arrives, by more than
/// the grace.
pub proof fn law_deadline_is_ahead(check: Check, from: int)
    requires
        leaves_time(check),
    ensures
        deadline(check, from) matches Ok(at) ==> at > from + check.grace_s,
{
    if check.kind == CheckKind::Cron {
        if let Some(expr) = check.cron_expr {
            law_occurrence_is_strictly_after(expr@, check.tz@, from);
        }
    }
}

/// A simple check always has a deadline: the ping, plus period, plus grace.
pub proof fn law_simple_deadline_is_period_plus_grace(check: Check, from: int)
    requires
        check.kind == CheckKind::Simple,
    ensures
        deadline(check, from) == Ok::<int, Seq<char>>(from + check.period_s + check.grace_s),
{
}

/// The deadline of a cron check is the next occurrence, later by the grace.
pub proof fn law_cron_deadline_is_occurrence_plus_grace(check: Check, expr: String, from: int)
    requires
        check.kind == CheckKind::Cron,
        check.cron_expr == Some(expr),
        occurrence(expr@, check.tz@, from) is Ok,
    ensures
        deadline(check, from) == Ok::<int, Seq<char>>(
            occurrence(expr@, check.tz@, from)->Ok_0 + check.grace_s,
        ),
{
}

/// Whether an instant is clear of the first and last day of the calendar,
/// where a local date may not exist outside of UTC.
pub fn is_clear_of_ends(tz: &str, ts: i64) -> (r: bool)
    ensures
        r == clear_of_ends(tz@, ts as int),
{
    !outside::has_date(ts) || text::same(tz, "UTC") || (outside::CALENDAR_FIRST + 86_400 <= ts
        && ts <= outside::CALENDAR_LAST - 86_400)
}

/// Whether a sum of two 64-bit numbers fits 64 bits.
fn sum_fits(a: i64, b: i64) -> (r: bool)
    ensures
        r == in_i64(a + b),
{
    let sum: i128 = a as i128 + b as i128;
    i64::MIN as i128 <= sum && sum <= i64::MAX as i128
}

/// The instant a check becomes late, or nothing when it does not fit 64 bits.
pub fn checked_next_deadline(check: &Check, from_ts: i64) -> (r: Option<Result<i64, Error>>)
    ensures
        r is Some == deadline_fits(*check, from_ts as int),
        r matches Some(result) ==> as_deadline(result) == deadline(*check, from_ts as int),
{
    let fits = match check.kind {
        CheckKind::Simple => sum_fits(from_ts, check.period_s) && sum_fits(
            from_ts + check.period_s,
            check.grace_s,
        ),
        CheckKind::Cron => match &check.cron_expr {
            None => true,
            Some(expr) => if !is_clear_of_ends(check.tz.as_str(), from_ts) {
                false
            } else {
                match next_cron_occurrence(expr.as_str(), check.tz.as_str(), from_ts) {
                    Ok(next) => sum_fits(next, check.grace_s),
                    Err(_) => true,
                }
            },
        },
    };
    if fits {
        Some(next_deadline(check, from_ts))
    } else {
        None
    }
}

/// Whether a schedule can be used, looked at from an instant, or why not.
pub open spec fn usable(
    kind: CheckKind,
    cron_expr: Option<Seq<char>>,
    tz: Seq<char>,
    period_s: int,
    at: int,
) -> Result<(), Seq<char>> {
    match kind {
        CheckKind::Simple => if period_s <= 0 {
            Err("period must be positive"@)
        } else {
            Ok(())
        },
        CheckKind::Cron => match cron_expr {
            None => Err("cron check requires a cron expression"@),
            Some(expr) => match occurrence(expr, tz, at) {
                Ok(_) => Ok(()),
                Err(why) => Err(why),
            },
        },
    }
}

/// Reject a schedule that cannot be used from the instant `at` on.
///
/// Resolving one occurrence exercises both the expression and the timezone,
/// and catches patterns that can never match.
pub fn validate_at(
    kind: CheckKind,
    cron_expr: Option<&str>,
    tz: &str,
    period_s: i64,
    at: i64,
) -> (r: Result<(), Error>)
    requires
        clear_of_ends(tz@, at as int),
    ensures
        error::told(r) == usable(kind, chars(cron_expr), tz@, period_s as int, at as int),
{
    match kind {
        CheckKind::Simple => if period_s <= 0 {
            Err(Error::new("period must be positive"))
        } else {
            Ok(())
        },
        CheckKind::Cron => match cron_expr {
            None => Err(Error::new("cron check requires a cron expression")),
            Some(expr) => match next_cron_occurrence(expr, tz, at) {
                Ok(_) => Ok(()),
                Err(e) => Err(e),
            },
        },
    }
}

/// Whether `outcome` is what checking a schedule against the clock can give:
/// the answer for some instant that a clock can show.
pub open spec fn usable_now(
    kind: CheckKind,
    cron_expr: Option<Seq<char>>,
    tz: Seq<char>,
    period_s: int,
    outcome: Result<(), Seq<char>>,
) -> bool {
    exists|at: int|
        0 <= at <= LAST_LOOK && outcome == #[trigger] usable(kind, cron_expr, tz, period_s, at)
}

/// Reject a schedule before it reaches the database, so a broken expression
/// surfaces at creation time rather than on the first ping.
///
/// A simple schedule is judged alike at any time; a cron schedule is judged
/// from the current time on, as [`validate_at`] does.
pub fn validate(kind: CheckKind, cron_expr: Option<&str>, tz: &str, period_s: i64) -> (r: Result<
    (),
    Error,
>)
    ensures
        usable_now(kind, chars(cron_expr), tz@, period_s as int, error::told(r)),
        kind == CheckKind::Simple || cron_expr is None ==> error::told(r) == usable(
            kind,
            chars(cron_expr),
            tz@,
            period_s as int,
            0,
        ),
{
    let clock = model::now();
    let at: i64 = if clock > LAST_LOOK {
        LAST_LOOK
    } else {
        clock
    };
    let r = validate_at(kind, cron_expr, tz, period_s, at);
    assert(error::told(r) == usable(kind, chars(cron_expr), tz@, period_s as int, at as int));
    r
}

/// A cron check without an expression has no deadline, and one whose schedule
/// has no next occurrence has none for the same reason.
pub proof fn law_no_occurrence_no_deadline(check: Check, from: int)
    requires
        check.kind == CheckKind::Cron,
    ensures
        check.cron_expr is None ==> deadline(check, from) == Err::<int, Seq<char>>(
            "cron check has no cron expression"@,
        ),
        check.cron_expr matches Some(expr) ==> (occurrence(expr@, check.tz@, from) matches Err(why)
            ==> deadline(check, from) == Err::<int, Seq<char>>(why)),
{
}

/// What cannot be read is refused in its own words: the expression first, then
/// the timezone, then an instant without a date.
pub proof fn law_unreadable_schedules_are_refused(expr: Seq<char>, tz: Seq<char>, from: int)
    ensures
        outside::cron_refusal(expr) matches Some(why) ==> occurrence(expr, tz, from) == Err::<
            i64,
            Seq<char>,
        >("invalid cron expression "@ + outside::debug_text(expr) + ": "@ + why),
        outside::cron_refusal(expr) is None && !outside::is_timezone(tz) ==> occurrence(
            expr,
            tz,
            from,
        ) == Err::<i64, Seq<char>>("unknown timezone "@ + outside::debug_text(tz)),
        outside::cron_refusal(expr) is None && outside::is_timezone(tz) && !outside::in_calendar(
            from,
        ) ==> occurrence(expr, tz, from) == Err::<i64, Seq<char>>("timestamp out of range"@),
{
}

/// In UTC, and elsewhere away from where clocks are set back, a schedule that
/// can be read has the occurrence that croner's search names, and none where it
/// has none.
pub proof fn law_occurrence_is_what_the_search_names(expr: Seq<char>, tz: Seq<char>, from: int)
    requires
        outside::cron_refusal(expr) is None,
        outside::is_timezone(tz),
        outside::has_local_date(tz, from),
        tz == "UTC"@ || !outside::set_back_near(tz, from),
    ensures
        outside::cron_next(expr, tz, from) matches Ok(next) ==> next > from ==> occurrence(
            expr,
            tz,
            from,
        ) == Ok::<i64, Seq<char>>(next),
        outside::cron_next(expr, tz, from) matches Err(why) ==> occurrence(expr, tz, from) == Err::<
            i64,
            Seq<char>,
        >("no next occurrence for "@ + outside::debug_text(expr) + ": "@ + why),
{
}

/// A schedule can be used exactly where it leads somewhere: a positive period, or
/// a cron expression with an occurrence to come.
pub proof fn law_usable_schedules(
    kind: CheckKind,
    expr: Option<Seq<char>>,
    tz: Seq<char>,
    period: int,
    at: int,
)
    ensures
        kind == CheckKind::Simple ==> usable(kind, expr, tz, period, at) == if period > 0 {
            Ok::<(), Seq<char>>(())
        } else {
            Err("period must be positive"@)
        },
        kind == CheckKind::Cron && expr is None ==> usable(kind, expr, tz, period, at) == Err::<
            (),
            Seq<char>,
        >("cron check requires a cron expression"@),
        kind == CheckKind::Cron && expr is Some ==> match occurrence(expr->0, tz, at) {
            Ok(_) => usable(kind, expr, tz, period, at) is Ok,
            Err(why) => usable(kind, expr, tz, period, at) == Err::<(), Seq<char>>(why),
        },
{
}

/// A deadline can be told exactly where its sums fit 64 bits, and for a cron check
/// where the instant it is looked for from has a date.
pub proof fn law_which_deadlines_fit(check: Check, from: int)
    ensures
        check.kind == CheckKind::Simple ==> (deadline_fits(check, from) <==> i64::MIN <= from
            + check.period_s <= i64::MAX && i64::MIN <= from + check.period_s + check.grace_s
            <= i64::MAX),
        check.kind == CheckKind::Cron && check.cron_expr is None ==> deadline_fits(check, from),
        check.kind == CheckKind::Cron && check.cron_expr is Some ==> (deadline_fits(check, from)
            <==> (outside::in_calendar(from) ==> outside::has_local_date(check.tz@, from)) && (
        occurrence(check.cron_expr->0@, check.tz@, from) matches Ok(next) ==> i64::MIN <= next
            + check.grace_s <= i64::MAX)),
        clear_of_ends(check.tz@, from) <==> (outside::in_calendar(from) ==> outside::has_local_date(
            check.tz@,
            from,
        )),
{
}

/// What the clock shows decides on cron schedules only: a simple one can be used
/// exactly where its period is positive.
pub proof fn law_validating_by_the_clock(
    kind: CheckKind,
    expr: Option<Seq<char>>,
    tz: Seq<char>,
    period: int,
    outcome: Result<(), Seq<char>>,
)
    requires
        usable_now(kind, expr, tz, period, outcome),
    ensures
        kind == CheckKind::Simple ==> (outcome is Ok <==> period > 0),
        kind == CheckKind::Cron && expr is None ==> outcome is Err,
        exists|at: int|
            0 <= at <= LAST_LOOK && outcome == #[trigger] usable(kind, expr, tz, period, at),
{
}

/// Optional texts and deadlines are what they hold.
pub proof fn law_what_options_hold(s: &str, at: i64, error: Error)
    ensures
        chars(None) is None,
        chars(Some(s)) == Some(s@),
        as_deadline(Ok(at)) == Ok::<int, Seq<char>>(at as int),
        as_deadline(Err(error)) == Err::<int, Seq<char>>(error.message@),
{
}

} // verus!
