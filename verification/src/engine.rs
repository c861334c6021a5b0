//! The alert loop: which checks are late, and what that makes of them.

use vstd::prelude::*;

use crate::model::{Check, CheckKind, PingKind, Status};
use crate::notify;
use crate::schedule;
use crate::store;

verus! {

/// How often late checks are looked for, in seconds. A check is found late at
/// most one tick after its deadline, and its alert is raised at most one tick
/// after a further grace has passed.
pub const TICK_S: u64 = 10;

/// A state change the engine decided on, worth notifying about.
#[derive(Debug, Clone, Copy, PartialEq, Eq, Structural)]
pub enum Event {
    /// Past due but still inside the grace period: recorded, not alerted on.
    Late,
    /// Grace exhausted: this is what raises an alert.
    Down,
}

impl Event {
    /// What is notified about the event: only a check that went down raises an
    /// alert.
    pub fn alert(self) -> (r: Option<notify::Event>)
        ensures
            r == match self {
                Event::Late => None::<notify::Event>,
                Event::Down => Some(notify::Event::Down),
            },
    {
        match self {
            Event::Late => None,
            Event::Down => Some(notify::Event::Down),
        }
    }
}

/// A decision on one check, with the row it was made from.
#[derive(Debug)]
pub struct Transition {
    /// The check as it was read.
    pub check: Check,
    /// The status it moves to.
    pub status: Status,
    pub event: Event,
    /// When the decision was made.
    pub ts: i64,
}

/// Whether a check is past its due date. Paused, down and never-pinged checks
/// never are.
pub open spec fn is_late(check: Check, now: int) -> bool {
    (check.status == Status::Up || check.status == Status::Grace) && match check.alert_after {
        Some(due) => due <= now,
        None => false,
    }
}

/// Whether a late check has used up its grace.
pub open spec fn grace_is_spent(check: Check, now: int) -> bool {
    check.alert_after matches Some(due) && now >= due + check.grace_s
}

/// What one pass decides on a check: nothing unless it is late and its status
/// changes. A stalled loop that skipped the grace window takes a check from up
/// to down in one step.
pub open spec fn decided(check: Check, now: i64) -> Option<Transition> {
    if !is_late(check, now as int) {
        None
    } else if grace_is_spent(check, now as int) {
        Some(Transition { check, status: Status::Down, event: Event::Down, ts: now })
    } else if check.status == Status::Up {
        Some(Transition { check, status: Status::Grace, event: Event::Late, ts: now })
    } else {
        None
    }
}

/// What one pass decides on some checks, in their order.
pub open spec fn all_decided(checks: Seq<Check>, now: i64) -> Seq<Transition>
    decreases checks.len(),
{
    if checks.len() == 0 {
        Seq::empty()
    } else {
        let before = all_decided(checks.drop_last(), now);
        match decided(checks.last(), now) {
            Some(transition) => before.push(transition),
            None => before,
        }
    }
}

/// What one pass decides on a check.
fn decide(check: &Check, now_ts: i64) -> (r: Option<Transition>)
    ensures
        r == decided(*check, now_ts),
{
    let due: i64 = match check.alert_after {
        Some(due) => due,
        None => {
            return None;
        },
    };
    if check.status != Status::Up && check.status != Status::Grace {
        return None;
    }
    if due > now_ts {
        return None;
    }
    let (status, event) = if now_ts as i128 >= due as i128 + check.grace_s as i128 {
        // Also covers up to down in one step, when the loop was stalled long
        // enough to skip the grace window entirely.
        (Status::Down, Event::Down)
    } else {
        (Status::Grace, Event::Late)
    };
    if status == check.status {
        return None;
    }
    Some(Transition { check: check.clone(), status, event, ts: now_ts })
}

/// One pass of the alert loop over the checks read, with the clock passed in:
/// the state changes to make.
pub fn tick(checks: &Vec<Check>, now_ts: i64) -> (r: Vec<Transition>)
    ensures
        r@ == all_decided(checks@, now_ts),
{
    let mut r: Vec<Transition> = Vec::new();
    let mut i: usize = 0;
    while i < checks.len()
        invariant
            i <= checks@.len(),
            r@ == all_decided(checks@.take(i as int), now_ts),
        decreases checks@.len() - i,
    {
        assert(checks@.take(i + 1).drop_last() =~= checks@.take(i as int));
        if let Some(transition) = decide(&checks[i], now_ts) {
            r.push(transition);
        }
        i = i + 1;
    }
    assert(checks@.take(i as int) =~= checks@);
    r
}

impl Transition {
    /// Whether a row still holds the values the decision was made from.
    pub open spec fn still_holds(self, row: Check) -> bool {
        row.id == self.check.id && row.status == self.check.status && row.alert_after
            == self.check.alert_after
    }

    /// The row once the decision is carried out.
    pub open spec fn carried_out(self, row: Check) -> Check {
        if self.still_holds(row) {
            Check { status: self.status, updated_at: self.ts, ..row }
        } else {
            row
        }
    }

    /// Compare-and-swap on the values the decision was made from: a ping
    /// landing in between changes the row, so the update matches nothing and no
    /// bogus alert fires. Says how many rows were changed.
    pub fn apply(&self, row: &mut Check) -> (rows_affected: u64)
        ensures
            *final(row) == self.carried_out(*old(row)),
            rows_affected == if self.still_holds(*old(row)) {
                1u64
            } else {
                0u64
            },
    {
        let same_due = match (row.alert_after, self.check.alert_after) {
            (Some(a), Some(b)) => a == b,
            (None, None) => true,
            _ => false,
        };
        if row.id == self.check.id && row.status == self.check.status && same_due {
            row.status = self.status;
            row.updated_at = self.ts;
            1
        } else {
            0
        }
    }

    /// The event to act on, given how many rows the update changed: none
    /// unless it changed exactly the one.
    pub fn confirmed(self, rows_affected: u64) -> (r: Option<(Check, Event)>)
        ensures
            r == if rows_affected == 1 {
                Some((self.check, self.event))
            } else {
                None
            },
    {
        if rows_affected == 1 {
            Some((self.check, self.event))
        } else {
            None
        }
    }
}

// -------------------------------------------------------------------- laws

/// Nothing happens to a check before its due date.
pub proof fn law_nothing_before_due(check: Check, now: i64)
    requires
        check.alert_after matches Some(due) ==> now < due,
    ensures
        decided(check, now) is None,
{
}

/// Paused, down and never-pinged checks are left alone, at any time.
pub proof fn law_only_monitored_checks_move(check: Check, now: i64)
    requires
        check.status == Status::Paused || check.status == Status::Down || check.status
            == Status::New,
    ensures
        decided(check, now) is None,
{
}

/// A check that is up and past due, with grace left, is late: it moves to
/// grace.
pub proof fn law_late_check_enters_grace(check: Check, due: i64, now: i64)
    requires
        check.status == Status::Up,
        check.alert_after == Some(due),
        due <= now < due + check.grace_s,
    ensures
        decided(check, now) == Some(
            Transition { check, status: Status::Grace, event: Event::Late, ts: now },
        ),
{
}

/// Once its grace is spent, a check goes down, from up as from grace: the
/// first pass from then on raises the alert.
pub proof fn law_spent_grace_is_down(check: Check, due: i64, now: i64)
    requires
        check.status == Status::Up || check.status == Status::Grace,
        check.alert_after == Some(due),
        check.grace_s >= 0,
        now >= due + check.grace_s,
    ensures
        decided(check, now) == Some(
            Transition { check, status: Status::Down, event: Event::Down, ts: now },
        ),
{
}

/// A check that a pass took to grace is left there until its grace is spent,
/// and then goes down.
pub proof fn law_grace_ends_in_down(check: Check, now: i64, later: i64)
    requires
        decided(check, now) matches Some(first) && first.event == Event::Late,
        now <= later,
    ensures
        ({
            let row = decided(check, now)->0.carried_out(check);
            let next = decided(row, later);
            &&& row.status == Status::Grace
            &&& next is None <==> !grace_is_spent(check, later as int)
            &&& next matches Some(second) ==> second.event == Event::Down
        }),
{
}

/// A check that went down is out of reach of every later pass: it is notified
/// once.
pub proof fn law_down_is_notified_once(check: Check, now: i64, later: i64)
    requires
        decided(check, now) matches Some(first) && first.event == Event::Down,
    ensures
        decided(decided(check, now)->0.carried_out(check), later) is None,
{
}

/// A decision changes a row at most once: the second time it matches nothing.
pub proof fn law_decision_applies_once(check: Check, now: i64, row: Check)
    requires
        decided(check, now) is Some,
    ensures
        !decided(check, now)->0.still_holds(decided(check, now)->0.carried_out(row)),
{
}

/// A pass leaves nothing to decide at the same instant: carried out, its
/// decision calls for no other.
pub proof fn law_second_pass_is_quiet(check: Check, now: i64)
    ensures
        decided(
            match decided(check, now) {
                Some(transition) => transition.carried_out(check),
                None => check,
            },
            now,
        ) is None,
{
}

/// A result that is recorded between the decision and the update makes the
/// update match nothing, so no bogus alert fires.
pub proof fn law_ping_beats_decision(
    check: Check,
    now: i64,
    kind: PingKind,
    ts: i64,
    after: Check,
)
    requires
        decided(check, now) is Some,
        store::is_result(kind),
        store::pinged(check, kind, ts, after),
        store::ping_refusal(check, kind, ts as int) is None,
        now <= ts,
        schedule::leaves_time(check),
    ensures
        !decided(check, now)->0.still_holds(after),
        decided(check, now)->0.carried_out(after) == after,
{
    schedule::law_deadline_is_ahead(check, ts as int);
}

/// A success clears the late state: the check is up, due again after the ping
/// and not before.
pub proof fn law_success_clears_late_state(check: Check, ts: i64, after: Check, now: i64)
    requires
        store::pinged(check, PingKind::Success, ts, after),
        now < schedule::deadline(check, ts as int)->Ok_0,
    ensures
        after.status == Status::Up,
        decided(after, now) is None,
{
}

/// A job that reports in time is never alerted on: with a simple schedule, a
/// success followed by another within period plus grace leaves nothing for
/// any pass in between.
pub proof fn law_punctual_job_is_never_late(check: Check, ts: i64, after: Check, now: i64)
    requires
        check.kind == CheckKind::Simple,
        store::pinged(check, PingKind::Success, ts, after),
        now < ts + check.period_s + check.grace_s,
    ensures
        decided(after, now) is None,
{
}

/// A job that stops reporting is alerted on: with a simple schedule, any pass
/// once the grace after its deadline is spent takes it down.
pub proof fn law_silent_job_goes_down(check: Check, ts: i64, after: Check, now: i64)
    requires
        check.kind == CheckKind::Simple,
        check.grace_s >= 0,
        store::pinged(check, PingKind::Success, ts, after),
        now >= ts + check.period_s + 2 * check.grace_s,
    ensures
        decided(after, now) matches Some(t) && t.event == Event::Down && t.status == Status::Down,
{
}

/// Whatever its schedule, a check whose last report was a success goes down at
/// the first pass once its deadline has passed by the grace.
pub proof fn law_missed_deadline_goes_down(check: Check, ts: i64, after: Check, now: i64)
    requires
        check.grace_s >= 0,
        store::pinged(check, PingKind::Success, ts, after),
        now >= schedule::deadline(check, ts as int)->Ok_0 + check.grace_s,
    ensures
        decided(after, now) matches Some(t) && t.event == Event::Down && t.status == Status::Down,
{
}

/// The alert comes less than one tick after the grace that follows the deadline
/// is spent: of two passes in a row, one before that and one from then on, the
/// second raises the alert.
pub proof fn law_alert_within_one_tick(check: Check, due: i64, first: i64, second: i64)
    requires
        check.status == Status::Up || check.status == Status::Grace,
        check.alert_after == Some(due),
        check.grace_s >= 0,
        first < due + check.grace_s <= second,
        second - first <= TICK_S,
    ensures
        decided(check, second) matches Some(t) && t.event == Event::Down,
        second - (due + check.grace_s) < TICK_S,
{
}

/// A paused check is never late.
pub proof fn law_paused_is_never_late(check: Check, ts: i64, now: i64)
    ensures
        !is_late(
            Check { status: Status::Paused, alert_after: None, updated_at: ts, ..check },
            now as int,
        ),
{
}

/// A pass yields one decision per late check at most, and only decisions that
/// some check read calls for.
pub proof fn law_pass_decides_on_what_it_read(checks: Seq<Check>, now: i64, i: int)
    requires
        0 <= i < all_decided(checks, now).len(),
    ensures
        all_decided(checks, now).len() <= checks.len(),
        exists|k: int|
            0 <= k < checks.len() && decided(#[trigger] checks[k], now) == Some(
                all_decided(checks, now)[i],
            ),
    decreases checks.len(),
{
    lemma_no_more_than_read(checks, now);
    let before = checks.drop_last();
    if i < all_decided(before, now).len() {
        law_pass_decides_on_what_it_read(before, now, i);
        let k = choose|k: int|
            0 <= k < before.len() && decided(#[trigger] before[k], now) == Some(
                all_decided(before, now)[i],
            );
        assert(checks[k] == before[k]);
    } else {
        assert(checks[checks.len() - 1] == checks.last());
    }
}

proof fn lemma_no_more_than_read(checks: Seq<Check>, now: i64)
    ensures
        all_decided(checks, now).len() <= checks.len(),
    decreases checks.len(),
{
    if checks.len() > 0 {
        lemma_no_more_than_read(checks.drop_last(), now);
    }
}

/// Passes add up: a pass over some checks and then some more decides what a
/// pass over the first and a pass over the others do, in that order. So no check
/// is left out on account of those around it.
pub proof fn law_passes_add_up(checks: Seq<Check>, more: Seq<Check>, now: i64)
    ensures
        all_decided(checks + more, now) == all_decided(checks, now) + all_decided(more, now),
    decreases more.len(),
{
    if more.len() == 0 {
        assert(checks + more =~= checks);
        assert(all_decided(checks, now) + all_decided(more, now) =~= all_decided(checks, now));
    } else {
        law_passes_add_up(checks, more.drop_last(), now);
        assert((checks + more).drop_last() =~= checks + more.drop_last());
        assert((checks + more).last() == more.last());
        assert(all_decided(checks + more, now) =~= all_decided(checks, now) + all_decided(
            more,
            now,
        ));
    }
}

/// What a pass makes of one check: down, with an alert, once the grace after its
/// due date is spent; in grace before that; and nothing when it is not due, not
/// monitored or already where it belongs.
pub proof fn law_pass_over_one_check(check: Check, now: i64)
    ensures
        ({
            let r = all_decided(seq![check], now);
            let monitored = check.status == Status::Up || check.status == Status::Grace;
            match check.alert_after {
                Some(due) => if monitored && due <= now && due + check.grace_s <= now {
                    r == seq![Transition { check, status: Status::Down, event: Event::Down, ts: now }]
                } else if check.status == Status::Up && due <= now {
                    r == seq![
                        Transition { check, status: Status::Grace, event: Event::Late, ts: now },
                    ]
                } else {
                    r.len() == 0
                },
                None => r.len() == 0,
            }
        }),
{
    let one = seq![check];
    assert(one.drop_last() =~= Seq::empty());
    assert(one.last() == check);
    reveal_with_fuel(all_decided, 2);
}

/// A pass is complete: every check read that is due is decided on, by what a
/// pass over it alone decides, between what the checks before it and those after
/// it call for.
pub proof fn law_no_late_check_is_left_out(checks: Seq<Check>, now: i64, k: int)
    requires
        0 <= k < checks.len(),
    ensures
        all_decided(checks, now) == all_decided(checks.take(k), now) + all_decided(
            seq![checks[k]],
            now,
        ) + all_decided(checks.skip(k + 1), now),
        (checks[k].status == Status::Up || checks[k].status == Status::Grace) && (
        checks[k].alert_after matches Some(due) && due <= now && due + checks[k].grace_s <= now)
            ==> exists|i: int|
            0 <= i < all_decided(checks, now).len() && (#[trigger] all_decided(
                checks,
                now,
            )[i]).check == checks[k] && all_decided(checks, now)[i].status == Status::Down
                && all_decided(checks, now)[i].event == Event::Down,
{
    let head = checks.take(k);
    let one = seq![checks[k]];
    let tail = checks.skip(k + 1);
    assert(checks =~= head + one + tail);
    law_passes_add_up(head, one, now);
    law_passes_add_up(head + one, tail, now);
    law_pass_over_one_check(checks[k], now);
    let all = all_decided(checks, now);
    let i = all_decided(head, now).len() as int;
    if all_decided(one, now).len() > 0 {
        assert(all[i] == all_decided(one, now)[0]);
    }
}

/// A decision carried out on the row it was made from changes its status and
/// when it was changed, and nothing else; any other row is left as it is.
pub proof fn law_decision_changes_its_row_only(check: Check, now: i64, row: Check)
    requires
        decided(check, now) is Some,
    ensures
        decided(check, now)->0.ts == now,
        decided(check, now)->0.check == check,
        decided(check, now)->0.carried_out(check) == (Check {
            status: decided(check, now)->0.status,
            updated_at: now,
            ..check
        }),
        row.id != check.id || row.status != check.status || row.alert_after != check.alert_after
            ==> decided(check, now)->0.carried_out(row) == row,
{
}

/// Late checks are looked for every ten seconds.
pub proof fn law_passes_come_every_ten_seconds()
    ensures
        TICK_S == 10,
{
}

} // verus!
