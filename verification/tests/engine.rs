use canari::engine::{tick, Event};
use canari::model::{Check, CheckKind, PingKind, Status};
use canari::notify;
use canari::store::{self, NewCheck, PingInput};

/// A fixed point in the past.
const T0: i64 = 1_700_000_000;

fn check_with(status: Status, alert_after: Option<i64>) -> Check {
    let mut check = store::create_check(NewCheck {
        name: "job".into(),
        description: String::new(),
        tags: String::new(),
        kind: CheckKind::Simple,
        period_s: 3600,
        grace_s: 600,
        cron_expr: None,
        tz: "UTC".into(),
    })
    .unwrap();
    check.status = status;
    check.alert_after = alert_after;
    check
}

/// One pass over a table of checks, every decision carried out.
fn pass(table: &mut Vec<Check>, now_ts: i64) -> Vec<(Check, Event)> {
    let mut events = Vec::new();
    for transition in tick(table, now_ts) {
        let mut affected = 0;
        for row in table.iter_mut() {
            affected += transition.apply(row);
        }
        if let Some(event) = transition.confirmed(affected) {
            events.push(event);
        }
    }
    events
}

#[test]
fn up_becomes_grace_once_due() {
    let mut table = vec![check_with(Status::Up, Some(T0))];

    let events = pass(&mut table, T0 + 1);
    assert_eq!(events.len(), 1);
    assert_eq!(events[0].1, Event::Late);

    assert_eq!(table[0].status, Status::Grace);
}

#[test]
fn grace_becomes_down_once_grace_is_spent() {
    let mut table = vec![check_with(Status::Grace, Some(T0))];

    let events = pass(&mut table, T0 + 600);
    assert_eq!(events.len(), 1);
    assert_eq!(events[0].1, Event::Down);
    assert_eq!(table[0].status, Status::Down);
}

#[test]
fn stalled_loop_goes_straight_to_down() {
    let mut table = vec![check_with(Status::Up, Some(T0))];

    let events = pass(&mut table, T0 + 86_400);
    assert_eq!(events[0].1, Event::Down);
    assert_eq!(table[0].status, Status::Down);
}

#[test]
fn nothing_happens_before_the_due_date() {
    let mut table = vec![check_with(Status::Up, Some(T0))];
    assert!(pass(&mut table, T0 - 1).is_empty());
}

#[test]
fn paused_and_down_checks_are_left_alone() {
    let mut table = vec![
        check_with(Status::Paused, Some(T0)),
        check_with(Status::Down, Some(T0)),
    ];
    assert!(pass(&mut table, T0 + 86_400).is_empty());
}

#[test]
fn a_down_check_is_notified_once() {
    let mut table = vec![check_with(Status::Up, Some(T0))];

    assert_eq!(pass(&mut table, T0 + 600).len(), 1);
    // Second pass: already down, so it is out of the query entirely.
    assert!(pass(&mut table, T0 + 700).is_empty());
}

#[test]
fn a_ping_clears_the_late_state() {
    let check = check_with(Status::Grace, Some(T0));

    let after = store::record_ping(&check, PingInput::default(), canari::model::now())
        .unwrap()
        .check;

    assert_eq!(after.status, Status::Up);
    // Rescheduled one period out from the ping, not from the old due date.
    assert!(after.alert_after.unwrap() > T0);
}

#[test]
fn due_exactly_now_is_late() {
    let mut table = vec![check_with(Status::Up, Some(T0))];
    let events = pass(&mut table, T0);
    assert_eq!(events[0].1, Event::Late);
    assert_eq!(table[0].updated_at, T0);
}

#[test]
fn grace_is_left_alone_until_spent() {
    let mut table = vec![check_with(Status::Grace, Some(T0))];
    assert!(pass(&mut table, T0 + 599).is_empty());
    assert_eq!(table[0].status, Status::Grace);
}

#[test]
fn never_pinged_checks_are_left_alone() {
    let mut table = vec![check_with(Status::New, None), check_with(Status::Up, None)];
    assert!(pass(&mut table, i64::MAX).is_empty());
}

#[test]
fn a_ping_in_between_beats_the_decision() {
    let check = check_with(Status::Up, Some(T0));
    let decisions = tick(&vec![check.clone()], T0 + 5);
    assert_eq!(decisions.len(), 1);

    let mut row = store::record_ping(&check, PingInput::default(), T0 + 5)
        .unwrap()
        .check;
    assert_eq!(decisions[0].apply(&mut row), 0);
    assert_eq!(row.status, Status::Up);
    for decision in decisions {
        assert!(decision.confirmed(0).is_none());
    }
}

#[test]
fn a_failure_in_between_beats_the_decision() {
    let check = check_with(Status::Grace, Some(T0));
    let decisions = tick(&vec![check.clone()], T0 + 600);
    let input = PingInput { kind: Some(PingKind::Fail), ..PingInput::default() };
    let mut row = store::record_ping(&check, input, T0 + 600).unwrap().check;
    assert_eq!(decisions[0].apply(&mut row), 0);
    assert_eq!(row.updated_at, T0 + 600);
}

#[test]
fn a_decision_applies_once() {
    let check = check_with(Status::Up, Some(T0));
    let decisions = tick(&vec![check.clone()], T0 + 1);
    let mut row = check;
    assert_eq!(decisions[0].apply(&mut row), 1);
    assert_eq!(decisions[0].apply(&mut row), 0);
}

#[test]
fn decisions_keep_the_order_of_the_checks() {
    let mut first = check_with(Status::Up, Some(T0));
    first.id = 1;
    let mut second = check_with(Status::Up, Some(T0 + 1_000_000));
    second.id = 2;
    let mut third = check_with(Status::Grace, Some(T0 - 10_000));
    third.id = 3;
    let decisions = tick(&vec![first, second, third], T0 + 10);
    assert_eq!(decisions.len(), 2);
    assert_eq!((decisions[0].check.id, decisions[0].event), (1, Event::Late));
    assert_eq!((decisions[1].check.id, decisions[1].event), (3, Event::Down));
}

#[test]
fn grace_past_the_end_of_time_is_not_spent() {
    let mut check = check_with(Status::Up, Some(T0));
    check.grace_s = i64::MAX;
    let decisions = tick(&vec![check], T0 + 10);
    assert_eq!(decisions[0].event, Event::Late);
}

#[test]
fn a_silent_job_goes_down_after_period_and_twice_its_grace() {
    let check = check_with(Status::New, None);
    let after = store::record_ping(&check, PingInput::default(), T0).unwrap().check;
    let due = T0 + 3600 + 600;
    assert_eq!(after.alert_after, Some(due));
    assert!(tick(&vec![after.clone()], due - 1).is_empty());
    assert_eq!(tick(&vec![after.clone()], due)[0].event, Event::Late);
    assert_eq!(tick(&vec![after], due + 600)[0].event, Event::Down);
}

#[test]
fn only_a_check_that_went_down_raises_an_alert() {
    assert_eq!(Event::Late.alert(), None);
    assert_eq!(Event::Down.alert(), Some(notify::Event::Down));
    assert_eq!(canari::engine::TICK_S, 10);
}

#[test]
fn a_second_pass_at_the_same_time_is_quiet() {
    let mut table = vec![
        check_with(Status::Up, Some(T0)),
        check_with(Status::Up, Some(T0 - 600)),
        check_with(Status::Grace, Some(T0 - 600)),
    ];
    for (i, check) in table.iter_mut().enumerate() {
        check.id = i as i64;
    }
    assert_eq!(pass(&mut table, T0).len(), 3);
    assert!(pass(&mut table, T0).is_empty());
}

#[test]
fn alerts_come_within_one_tick() {
    let check = check_with(Status::Up, Some(T0));
    let spent = T0 + 600;
    assert_eq!(tick(&vec![check.clone()], spent - 1)[0].event, Event::Late);
    assert_eq!(tick(&vec![check], spent - 1 + 10)[0].event, Event::Down);
}
