//! Checks, their states, and the durations and instants people read and write.

use vstd::prelude::*;

use crate::outside;
use crate::text;

verus! {

/// Current time as unix epoch seconds, the representation used everywhere.
///
/// Never before the epoch, and always an instant with a calendar date.
pub fn now() -> (r: i64)
    ensures
        0 <= r,
        outside::in_calendar(r as int),
{
    outside::clock()
}

/// Where a check stands.
#[derive(Debug, Clone, Copy, PartialEq, Eq, Structural)]
pub enum Status {
    /// Created but never pinged: nothing to expect yet.
    New,
    Up,
    /// Late, but still inside the grace period: not yet an alert.
    Grace,
    Down,
    Paused,
}

impl Status {
    /// The word for the status.
    pub open spec fn word(self) -> Seq<char> {
        match self {
            Status::New => "new"@,
            Status::Up => "up"@,
            Status::Grace => "grace"@,
            Status::Down => "down"@,
            Status::Paused => "paused"@,
        }
    }

    /// The word for the status.
    pub fn as_str(self) -> (r: &'static str)
        ensures
            r@ == self.word(),
    {
        match self {
            Status::New => "new",
            Status::Up => "up",
            Status::Grace => "grace",
            Status::Down => "down",
            Status::Paused => "paused",
        }
    }
}

/// How a check's schedule is given.
#[derive(Debug, Clone, Copy, PartialEq, Eq, Structural)]
pub enum CheckKind {
    /// A ping is expected every `period_s` seconds.
    Simple,
    /// A ping is expected after every occurrence of `cron_expr` in `tz`.
    Cron,
}

impl CheckKind {
    /// The word for the kind.
    pub open spec fn word(self) -> Seq<char> {
        match self {
            CheckKind::Simple => "simple"@,
            CheckKind::Cron => "cron"@,
        }
    }

    /// The word for the kind.
    pub fn as_str(self) -> (r: &'static str)
        ensures
            r@ == self.word(),
    {
        match self {
            CheckKind::Simple => "simple",
            CheckKind::Cron => "cron",
        }
    }
}

/// What carries a notification.
#[derive(Debug, Clone, Copy, PartialEq, Eq, Structural)]
pub enum ChannelKind {
    /// Arbitrary HTTP request, with the payload under the user's control.
    Webhook,
    /// ntfy.sh (or a self-hosted instance): push notification to a topic.
    Ntfy,
}

impl ChannelKind {
    /// The word for the kind.
    pub open spec fn word(self) -> Seq<char> {
        match self {
            ChannelKind::Webhook => "webhook"@,
            ChannelKind::Ntfy => "ntfy"@,
        }
    }

    /// The word for the kind.
    pub fn as_str(self) -> (r: &'static str)
        ensures
            r@ == self.word(),
    {
        match self {
            ChannelKind::Webhook => "webhook",
            ChannelKind::Ntfy => "ntfy",
        }
    }
}

/// What a ping reports.
#[derive(Debug, Clone, Copy, PartialEq, Eq, Structural)]
pub enum PingKind {
    Success,
    /// Job started; the matching success or fail ping measures the duration.
    Start,
    Fail,
    /// Recorded in the ping log without touching the check state.
    Log,
}

impl PingKind {
    /// The word for the kind.
    pub open spec fn word(self) -> Seq<char> {
        match self {
            PingKind::Success => "success"@,
            PingKind::Start => "start"@,
            PingKind::Fail => "fail"@,
            PingKind::Log => "log"@,
        }
    }

    /// The word for the kind.
    pub fn as_str(self) -> (r: &'static str)
        ensures
            r@ == self.word(),
    {
        match self {
            PingKind::Success => "success",
            PingKind::Start => "start",
            PingKind::Fail => "fail",
            PingKind::Log => "log",
        }
    }
}

/// A monitored job: what is expected of it and what it last did.
#[derive(Debug)]
pub struct Check {
    pub id: i64,
    pub uuid: String,
    pub name: String,
    pub description: String,
    pub tags: String,
    pub kind: CheckKind,
    pub period_s: i64,
    pub grace_s: i64,
    pub cron_expr: Option<String>,
    pub tz: String,
    pub status: Status,
    pub last_ping_at: Option<i64>,
    pub last_start_at: Option<i64>,
    pub last_duration_ms: Option<i64>,
    /// When the check is late, if it can be.
    pub alert_after: Option<i64>,
    pub n_pings: i64,
    pub created_at: i64,
    pub updated_at: i64,
    /// Names the check in public badge addresses.
    pub badge_token: String,
}

impl Clone for Check {
    fn clone(&self) -> (r: Self)
        ensures
            r == *self,
    {
        Check {
            id: self.id,
            uuid: self.uuid.clone(),
            name: self.name.clone(),
            description: self.description.clone(),
            tags: self.tags.clone(),
            kind: self.kind,
            period_s: self.period_s,
            grace_s: self.grace_s,
            cron_expr: match &self.cron_expr {
                Some(expr) => Some(expr.clone()),
                None => None,
            },
            tz: self.tz.clone(),
            status: self.status,
            last_ping_at: self.last_ping_at,
            last_start_at: self.last_start_at,
            last_duration_ms: self.last_duration_ms,
            alert_after: self.alert_after,
            n_pings: self.n_pings,
            created_at: self.created_at,
            updated_at: self.updated_at,
            badge_token: self.badge_token.clone(),
        }
    }
}

impl Check {
    /// One line on what the check expects.
    pub open spec fn summary(self) -> Seq<char> {
        match self.kind {
            CheckKind::Simple => "every "@ + duration_text(self.period_s as int) + " (grace "@
                + duration_text(self.grace_s as int) + ")"@,
            CheckKind::Cron => (match self.cron_expr {
                Some(expr) => expr@,
                None => "?"@,
            }) + " ["@ + self.tz@ + "] (grace "@ + duration_text(self.grace_s as int) + ")"@,
        }
    }

    /// One-line description of what this check expects, shared by the CLI,
    /// the UI and notification messages.
    pub fn schedule_summary(&self) -> (r: String)
        ensures
            r@ == self.summary(),
    {
        let mut r: String;
        match self.kind {
            CheckKind::Simple => {
                r = "every ".to_owned();
                r.append(format_duration(self.period_s).as_str());
                r.append(" (grace ");
            },
            CheckKind::Cron => {
                r = match &self.cron_expr {
                    Some(expr) => expr.clone(),
                    None => "?".to_owned(),
                };
                r.append(" [");
                r.append(self.tz.as_str());
                r.append("] (grace ");
            },
        }
        r.append(format_duration(self.grace_s).as_str());
        r.append(")");
        r
    }
}

// --------------------------------------------------------------- durations

/// Why a text is not a duration.
#[derive(Debug, Clone, Copy, PartialEq, Eq, Structural)]
pub enum DurationError {
    /// Nothing but white space.
    Empty,
    /// A character that is neither a digit nor a unit.
    Unexpected(char),
    /// A unit without a number, or with one past 64 bits, before it.
    MissingNumber(char),
    /// Trailing seconds past 64 bits.
    TooLarge,
    /// The whole is zero.
    NotPositive,
}

impl DurationError {
    /// What is wrong with `input`, in words.
    pub open spec fn text(self, input: Seq<char>) -> Seq<char> {
        match self {
            DurationError::Empty => "empty duration"@,
            DurationError::Unexpected(c) => "invalid duration "@ + outside::debug_text(input)
                + ": unexpected "@ + outside::debug_char_text(c),
            DurationError::MissingNumber(c) => "invalid duration "@ + outside::debug_text(input)
                + ": missing number before "@ + outside::debug_char_text(c),
            DurationError::TooLarge => "number too large to fit in target type"@,
            DurationError::NotPositive => "duration must be positive"@,
        }
    }

    /// What is wrong with `input`, in words.
    pub fn message(&self, input: &str) -> (r: String)
        ensures
            r@ == self.text(input@),
    {
        match self {
            DurationError::Empty => "empty duration".to_owned(),
            DurationError::Unexpected(c) => {
                let mut r = "invalid duration ".to_owned();
                r.append(outside::debug_str(input).as_str());
                r.append(": unexpected ");
                r.append(outside::debug_char(*c).as_str());
                r
            },
            DurationError::MissingNumber(c) => {
                let mut r = "invalid duration ".to_owned();
                r.append(outside::debug_str(input).as_str());
                r.append(": missing number before ");
                r.append(outside::debug_char(*c).as_str());
                r
            },
            DurationError::TooLarge => "number too large to fit in target type".to_owned(),
            DurationError::NotPositive => "duration must be positive".to_owned(),
        }
    }
}

/// The seconds in one of a unit.
pub open spec fn unit_seconds(c: char) -> Option<int> {
    if c == 's' {
        Some(1)
    } else if c == 'm' {
        Some(60)
    } else if c == 'h' {
        Some(3600)
    } else if c == 'd' {
        Some(86400)
    } else if c == 'w' {
        Some(604800)
    } else {
        None
    }
}

/// The seconds in one of a unit.
fn unit_of(c: char) -> (r: Option<i64>)
    ensures
        r is Some == unit_seconds(c) is Some,
        r matches Some(u) ==> unit_seconds(c) == Some(u as int) && 1 <= u <= 604800,
{
    match c {
        's' => Some(1),
        'm' => Some(60),
        'h' => Some(3600),
        'd' => Some(86400),
        'w' => Some(604800),
        _ => None,
    }
}

/// How many digits `s` starts with.
pub open spec fn digit_run(s: Seq<char>) -> int
    decreases s.len(),
{
    if s.len() == 0 || !text::is_digit(s[0]) {
        0
    } else {
        1 + digit_run(s.skip(1))
    }
}

/// What `digit_run` counts: digits only, up to the first other character.
pub proof fn lemma_digit_run(s: Seq<char>)
    ensures
        0 <= digit_run(s) <= s.len(),
        forall|i: int| 0 <= i < digit_run(s) ==> text::is_digit(#[trigger] s[i]),
        digit_run(s) < s.len() ==> !text::is_digit(s[digit_run(s)]),
    decreases s.len(),
{
    if s.len() > 0 && text::is_digit(s[0]) {
        lemma_digit_run(s.skip(1));
        assert forall|i: int| 0 <= i < digit_run(s) implies text::is_digit(#[trigger] s[i]) by {
            if i > 0 {
                assert(s.skip(1)[i - 1] == s[i]);
            }
        }
    }
}

/// The seconds in a sequence of numbers with units, counted on from `total`;
/// a number at the end without a unit is seconds. Nothing where the sum
/// leaves 64 bits before anything is found wrong.
pub open spec fn counted(s: Seq<char>, total: int) -> Option<Result<int, DurationError>>
    decreases s.len(),
    via counted_shrinks
{
    let run = digit_run(s);
    let number = text::digits_value(s.take(run)) as int;
    if s.len() == 0 {
        Some(Ok(total))
    } else if run == s.len() {
        if number > i64::MAX {
            Some(Err(DurationError::TooLarge))
        } else if total + number > i64::MAX {
            None
        } else {
            Some(Ok(total + number))
        }
    } else {
        match unit_seconds(s[run]) {
            None => Some(Err(DurationError::Unexpected(s[run]))),
            Some(unit) => if run == 0 || number > i64::MAX {
                Some(Err(DurationError::MissingNumber(s[run])))
            } else if total + number * unit > i64::MAX {
                None
            } else {
                counted(s.skip(run + 1), total + number * unit)
            },
        }
    }
}

#[via_fn]
proof fn counted_shrinks(s: Seq<char>, total: int) {
    lemma_digit_run(s);
}

/// Whether reading `input` as a duration stays inside 64 bits.
pub open spec fn duration_fits(input: Seq<char>) -> bool {
    counted(text::trimmed(input), 0) is Some
}

/// What `input` is, read as a duration in seconds. Only for an `input` whose
/// sum stays inside 64 bits.
pub open spec fn duration_of(input: Seq<char>) -> Result<int, DurationError> {
    let s = text::trimmed(input);
    if s.len() == 0 {
        Err(DurationError::Empty)
    } else {
        match counted(s, 0) {
            Some(Ok(total)) => if total <= 0 {
                Err(DurationError::NotPositive)
            } else {
                Ok(total)
            },
            Some(Err(e)) => Err(e),
            None => Err(DurationError::TooLarge),
        }
    }
}

/// A run of digits, found character by character.
proof fn lemma_run_at(s: Seq<char>, n: int)
    requires
        0 <= n <= s.len(),
        forall|i: int| 0 <= i < n ==> text::is_digit(#[trigger] s[i]),
        n < s.len() ==> !text::is_digit(s[n]),
    ensures
        digit_run(s) == n,
{
    lemma_digit_run(s);
    if digit_run(s) < n {
        assert(text::is_digit(s[digit_run(s)]));
    }
    if digit_run(s) > n {
        assert(text::is_digit(s[n]));
    }
}

/// Reads a duration, or tells that its sum leaves 64 bits.
fn count_duration(s: &str) -> (r: Option<Result<i64, DurationError>>)
    ensures
        r is Some == counted(s@, 0) is Some,
        r matches Some(Ok(n)) ==> counted(s@, 0) == Some(Ok::<int, DurationError>(n as int)),
        r matches Some(Err(e)) ==> counted(s@, 0) == Some(Err::<int, DurationError>(e)),
        r matches Some(Ok(n)) ==> n >= 0,
{
    let v = text::chars_of(s);
    let mut total: i64 = 0;
    let mut start: usize = 0;
    let mut i: usize = 0;
    assert(v@.skip(0) =~= v@);
    while i < v.len()
        invariant
            v@ == s@,
            start <= i <= v@.len(),
            total >= 0,
            forall|k: int| start <= k < i ==> text::is_digit(#[trigger] v@[k]),
            counted(s@, 0) == counted(v@.skip(start as int), total as int),
        decreases v@.len() - i,
    {
        let c = v[i];
        if '0' <= c && c <= '9' {
            i = i + 1;
            continue;
        }
        let ghost rest = v@.skip(start as int);
        proof {
            assert forall|k: int| 0 <= k < i - start implies text::is_digit(#[trigger] rest[k]) by {
                assert(rest[k] == v@[start + k]);
            }
            lemma_run_at(rest, i - start);
            assert(rest.take(i - start) =~= v@.subrange(start as int, i as int));
            assert(rest.skip(i - start + 1) =~= v@.skip(i + 1));
        }
        let unit: i64 = match unit_of(c) {
            Some(u) => u,
            None => {
                return Some(Err(DurationError::Unexpected(c)));
            },
        };
        let number: u64 = match text::digits_up_to(&v, start, i, i64::MAX as u64) {
            Some(n) => n,
            None => {
                assert(i == start || !(text::digits_value(rest.take(i - start)) <= i64::MAX));
                return Some(Err(DurationError::MissingNumber(c)));
            },
        };
        proof {
            assert(0 <= number * unit <= i64::MAX * 604800) by (nonlinear_arith)
                requires
                    0 <= number <= i64::MAX,
                    1 <= unit <= 604800,
            ;
        }
        let sum: i128 = total as i128 + number as i128 * unit as i128;
        if sum > i64::MAX as i128 {
            return None;
        }
        total = sum as i64;
        i = i + 1;
        start = i;
    }
    let ghost rest = v@.skip(start as int);
    if start < v.len() {
        proof {
            assert forall|k: int| 0 <= k < i - start implies text::is_digit(#[trigger] rest[k]) by {
                assert(rest[k] == v@[start + k]);
            }
            lemma_run_at(rest, i - start);
            assert(rest.take(i - start) =~= v@.subrange(start as int, i as int));
        }
        match text::digits_up_to(&v, start, i, i64::MAX as u64) {
            Some(n) => {
                let sum: i128 = total as i128 + n as i128;
                if sum > i64::MAX as i128 {
                    None
                } else {
                    Some(Ok(sum as i64))
                }
            },
            None => Some(Err(DurationError::TooLarge)),
        }
    } else {
        Some(Ok(total))
    }
}

/// Parse a human duration into seconds: `30s`, `5m`, `2h`, `1d`, or a
/// combination such as `1h30m`. A bare number is read as seconds.
///
/// [`fits`] tells beforehand whether the sum stays inside 64 bits.
pub fn parse_duration(input: &str) -> (r: Result<i64, DurationError>)
    requires
        duration_fits(input@),
    ensures
        r is Ok == duration_of(input@) is Ok,
        r matches Ok(n) ==> duration_of(input@) == Ok::<int, DurationError>(n as int) && n > 0,
        r matches Err(e) ==> duration_of(input@) == Err::<int, DurationError>(e),
{
    let s = text::trim(input);
    if s.as_str().is_empty() {
        return Err(DurationError::Empty);
    }
    match count_duration(s.as_str()) {
        Some(Ok(total)) => if total <= 0 {
            Err(DurationError::NotPositive)
        } else {
            Ok(total)
        },
        Some(Err(e)) => Err(e),
        None => Err(DurationError::TooLarge),
    }
}

/// Whether reading `input` as a duration stays inside 64 bits.
pub fn fits(input: &str) -> (r: bool)
    ensures
        r == duration_fits(input@),
{
    count_duration(text::trim(input).as_str()).is_some()
}

/// The seconds in the units that durations are shown in, largest first.
pub open spec fn shown_unit(i: int) -> int {
    if i == 0 {
        86400
    } else if i == 1 {
        3600
    } else if i == 2 {
        60
    } else {
        1
    }
}

/// The letters for the units that durations are shown in, largest first.
pub open spec fn shown_letter(i: int) -> char {
    if i == 0 {
        'd'
    } else if i == 1 {
        'h'
    } else if i == 2 {
        'm'
    } else {
        's'
    }
}

/// `secs` in the units from `i` on that it has any of, `room` of them at most.
pub open spec fn shown(secs: int, i: int, room: nat) -> Seq<char>
    decreases 4 - i,
{
    let n = secs / shown_unit(i);
    if i >= 4 || room == 0 {
        Seq::empty()
    } else if n > 0 {
        text::decimal(n) + seq![shown_letter(i)] + shown(
            secs - n * shown_unit(i),
            i + 1,
            (room - 1) as nat,
        )
    } else {
        shown(secs, i + 1, room)
    }
}

/// A duration in its two largest units.
pub open spec fn duration_text(secs: int) -> Seq<char> {
    if secs <= 0 {
        "0s"@
    } else {
        shown(secs, 0, 2)
    }
}

/// Render a duration in seconds compactly, for CLI and UI output.
pub fn format_duration(secs: i64) -> (r: String)
    ensures
        r@ == duration_text(secs as int),
{
    if secs <= 0 {
        return "0s".to_owned();
    }
    let mut left: i64 = secs;
    let mut room: u8 = 2;
    let mut i: usize = 0;
    let mut r: String = String::new();
    assert(r@ + shown(secs as int, 0, 2) =~= shown(secs as int, 0, 2));
    while i < 4 && room > 0
        invariant
            secs > 0,
            left >= 0,
            i <= 4,
            room <= 2,
            r@ + shown(left as int, i as int, room as nat) == duration_text(secs as int),
        decreases 4 - i,
    {
        let unit: i64 = match i {
            0 => 86400,
            1 => 3600,
            2 => 60,
            _ => 1,
        };
        let letter = match i {
            0 => 'd',
            1 => 'h',
            2 => 'm',
            _ => 's',
        };
        let n: i64 = left / unit;
        let ghost before = r@;
        if n > 0 {
            assert(n * unit <= left) by (nonlinear_arith)
                requires
                    n == left / unit,
                    unit > 0,
                    left >= 0,
            ;
            text::push_int(&mut r, n);
            r.push(letter);
            assert(0 <= n * unit) by (nonlinear_arith)
                requires
                    n > 0,
                    unit > 0,
            ;
            left = left - n * unit;
            room = room - 1;
            assert(before + (text::decimal(n as int) + seq![letter] + shown(
                left as int,
                i + 1,
                room as nat,
            )) =~= r@ + shown(left as int, i + 1, room as nat));
        }
        i = i + 1;
    }
    assert(r@ + Seq::<char>::empty() =~= r@);
    r
}

/// An instant as text, in UTC where it has a date.
pub open spec fn ts_text(ts: int) -> Seq<char> {
    if outside::in_calendar(ts) {
        outside::utc_text(ts)
    } else {
        text::decimal(ts)
    }
}

/// Render a timestamp as UTC, for CLI and UI output.
pub fn format_ts(ts: i64) -> (r: String)
    ensures
        r@ == ts_text(ts as int),
{
    if outside::has_date(ts) {
        outside::format_utc(ts)
    } else {
        text::int_text(ts)
    }
}

// -------------------------------------------------------------------- laws

/// `secs` rounded down to what its `room` largest units from `i` on hold.
pub open spec fn rounded(secs: int, i: int, room: nat) -> int
    decreases 4 - i,
{
    let n = secs / shown_unit(i);
    if i >= 4 || room == 0 {
        0
    } else if n > 0 {
        n * shown_unit(i) + rounded(secs - n * shown_unit(i), i + 1, (room - 1) as nat)
    } else {
        rounded(secs, i + 1, room)
    }
}

/// A shown duration, continued from `total`, counts what it shows.
proof fn lemma_shown_counts(secs: int, i: int, room: nat, total: int)
    requires
        0 <= i <= 4,
        0 <= secs,
        0 <= total,
        total + secs <= i64::MAX,
    ensures
        0 <= rounded(secs, i, room) <= secs,
        counted(shown(secs, i, room), total) == Some(
            Ok::<int, DurationError>(total + rounded(secs, i, room)),
        ),
        shown(secs, i, room).len() > 0 ==> text::is_digit(shown(secs, i, room)[0])
            && !text::is_white(shown(secs, i, room).last()),
        shown(secs, i, room).len() > 0 ==> (unit_seconds(shown(secs, i, room).last()) matches Some(
            unit,
        ) && secs - rounded(secs, i, room) < unit),
        i < 4 && room > 0 && secs >= 1 ==> rounded(secs, i, room) >= 1 && shown(
            secs,
            i,
            room,
        ).len() > 0,
    decreases 4 - i,
{
    if i < 4 && room > 0 {
        let unit = shown_unit(i);
        let n = secs / unit;
        if n > 0 {
            let left = secs - n * unit;
            let number = text::decimal_nat(n as nat);
            let rest = shown(left, i + 1, (room - 1) as nat);
            let whole = shown(secs, i, room);
            assert(0 <= left && n * unit <= secs && n <= n * unit) by (nonlinear_arith)
                requires
                    n == secs / unit,
                    left == secs - n * unit,
                    unit > 0,
                    n > 0,
                    secs >= 0,
            ;
            lemma_shown_counts(left, i + 1, (room - 1) as nat, total + n * unit);
            text::lemma_decimal_nat(n as nat);
            assert(whole =~= number + seq![shown_letter(i)] + rest);
            assert forall|k: int| 0 <= k < number.len() implies text::is_digit(
                #[trigger] whole[k],
            ) by {
                assert(whole[k] == number[k]);
            }
            lemma_run_at(whole, number.len() as int);
            assert(whole.take(number.len() as int) =~= number);
            assert(whole.skip(number.len() as int + 1) =~= rest);
            assert(whole[number.len() as int] == shown_letter(i));
            assert(unit_seconds(shown_letter(i)) == Some(unit));
            if rest.len() > 0 {
                assert(whole.last() == rest.last());
            } else {
                assert(whole.last() == shown_letter(i));
            }
        } else {
            lemma_shown_counts(secs, i + 1, room, total);
            assert(i < 3 || n == secs);
        }
    }
}

/// What a duration is shown as can be read back, and reads as the duration
/// rounded down to its two largest units: nothing is ever gained, and what is
/// lost is less than the last unit shown.
pub proof fn law_shown_duration_reads_back(secs: i64)
    requires
        secs > 0,
    ensures
        duration_fits(duration_text(secs as int)),
        duration_of(duration_text(secs as int)) == Ok::<int, DurationError>(
            rounded(secs as int, 0, 2),
        ),
        1 <= rounded(secs as int, 0, 2) <= secs,
        unit_seconds(duration_text(secs as int).last()) matches Some(unit) && secs - rounded(
            secs as int,
            0,
            2,
        ) < unit,
{
    let shown_text = duration_text(secs as int);
    lemma_shown_counts(secs as int, 0, 2, 0);
    assert(text::trim_start(shown_text) == shown_text);
    assert(text::trim_end(shown_text) == shown_text);
}

/// How many of days, hours, minutes and seconds a duration has.
pub open spec fn units_in(secs: int) -> int {
    let days: int = if secs >= 86400 {
        1
    } else {
        0
    };
    let hours: int = if secs % 86400 >= 3600 {
        1
    } else {
        0
    };
    let minutes: int = if secs % 3600 >= 60 {
        1
    } else {
        0
    };
    let seconds: int = if secs % 60 > 0 {
        1
    } else {
        0
    };
    days + hours + minutes + seconds
}

/// A duration of at most two units, neighbouring or not, is shown and read
/// back without loss.
#[verifier::spinoff_prover]
#[verifier::rlimit(60)]
pub proof fn law_two_units_are_exact(secs: i64)
    requires
        secs > 0,
        units_in(secs as int) <= 2,
    ensures
        duration_of(duration_text(secs as int)) == Ok::<int, DurationError>(secs as int),
{
    law_shown_duration_reads_back(secs);
    let all = secs as int;
    let below_days = all - all / 86400 * 86400;
    let below_hours = below_days - below_days / 3600 * 3600;
    let below_minutes = below_hours - below_hours / 60 * 60;
    assert(below_days == all % 86400);
    assert(below_hours == all % 3600);
    assert(below_minutes == all % 60);
    // With room for every unit left, nothing is lost.
    assert(below_minutes / 1 == below_minutes);
    assert(below_minutes * 1 == below_minutes);
    assert(rounded(0, 4, 2) == 0 && rounded(0, 4, 1) == 0 && rounded(0, 4, 0) == 0);
    assert(rounded(below_minutes, 3, 2) == below_minutes);
    assert(rounded(below_minutes, 3, 1) == below_minutes);
    assert(below_minutes == 0 ==> rounded(below_minutes, 3, 0) == below_minutes);
    assert(rounded(below_hours, 2, 2) == below_hours);
    assert(all % 3600 < 60 || all % 60 == 0 ==> rounded(below_hours, 2, 1) == below_hours);
    assert(below_hours == 0 ==> rounded(below_hours, 2, 0) == below_hours);
    assert(units_in(below_days) <= 2 ==> rounded(below_days, 1, 2) == below_days);
    assert(units_in(below_days) <= 1 ==> rounded(below_days, 1, 1) == below_days);
}

/// A bare number is read as seconds.
pub proof fn law_bare_number_is_seconds(n: u64)
    requires
        0 < n <= i64::MAX,
    ensures
        duration_fits(text::decimal(n as int)),
        duration_of(text::decimal(n as int)) == Ok::<int, DurationError>(n as int),
{
    let s = text::decimal(n as int);
    text::lemma_decimal_nat(n as nat);
    lemma_run_at(s, s.len() as int);
    assert(s.take(s.len() as int) =~= s);
    assert(text::is_digit(s[0]) && text::is_digit(s.last()));
    assert(text::trim_start(s) == s);
    assert(text::trim_end(s) == s);
}

/// What is written of a count of a unit.
pub open spec fn written(n: nat, c: char) -> Seq<char> {
    text::decimal_nat(n) + seq![c]
}

/// A duration adds up what it counts, in seconds, minutes, hours, days and weeks,
/// and then goes on with what follows.
pub proof fn law_duration_adds_up(n: nat, c: char, rest: Seq<char>, total: int)
    requires
        0 <= total <= i64::MAX,
        n <= i64::MAX,
    ensures
        ({
            let unit: int = if c == 's' {
                1
            } else if c == 'm' {
                60
            } else if c == 'h' {
                3600
            } else if c == 'd' {
                86400
            } else if c == 'w' {
                604800
            } else {
                0
            };
            &&& unit > 0 && total + n * unit <= i64::MAX ==> counted(written(n, c) + rest, total)
                == counted(rest, total + n * unit)
            &&& unit > 0 && total + n * unit > i64::MAX ==> counted(written(n, c) + rest, total)
                is None
            &&& unit == 0 && !text::is_digit(c) ==> counted(written(n, c) + rest, total) == Some(
                Err::<int, DurationError>(DurationError::Unexpected(c)),
            )
        }),
        counted(Seq::empty(), total) == Some(Ok::<int, DurationError>(total)),
{
    let digits = text::decimal_nat(n);
    let whole = written(n, c) + rest;
    text::lemma_decimal_nat(n);
    if !text::is_digit(c) {
        assert(whole =~= digits + seq![c] + rest);
        assert forall|i: int| 0 <= i < digits.len() implies text::is_digit(#[trigger] whole[i]) by {
            assert(whole[i] == digits[i]);
        }
        assert(whole[digits.len() as int] == c);
        lemma_run_at(whole, digits.len() as int);
        assert(whole.take(digits.len() as int) =~= digits);
        assert(whole.skip(digits.len() as int + 1) =~= rest);
    }
}

/// A duration of one count and one unit is that many seconds, minutes, hours,
/// days or weeks.
pub proof fn law_one_unit(n: nat, c: char)
    requires
        0 < n,
        n * 604800 <= i64::MAX,
    ensures
        c == 's' ==> duration_of(written(n, c)) == Ok::<int, DurationError>(n as int),
        c == 'm' ==> duration_of(written(n, c)) == Ok::<int, DurationError>((n * 60) as int),
        c == 'h' ==> duration_of(written(n, c)) == Ok::<int, DurationError>((n * 3600) as int),
        c == 'd' ==> duration_of(written(n, c)) == Ok::<int, DurationError>((n * 86400) as int),
        c == 'w' ==> duration_of(written(n, c)) == Ok::<int, DurationError>((n * 604800) as int),
{
    let s = written(n, c);
    text::lemma_decimal_nat(n);
    if c == 's' || c == 'm' || c == 'h' || c == 'd' || c == 'w' {
        assert(s[0] == text::decimal_nat(n)[0]);
        assert(s.last() == c);
        assert(text::trim_start(s) == s);
        assert(text::trim_end(s) == s);
        assert(s + Seq::<char>::empty() =~= s);
        law_duration_adds_up(n, c, Seq::empty(), 0);
        assert(n * 60 <= n * 604800 && n * 3600 <= n * 604800 && n * 86400 <= n * 604800 && n <= n
            * 604800);
    }
}

/// A duration without anything in it, and a unit without a count, are refused.
pub proof fn law_durations_need_numbers(c: char, rest: Seq<char>)
    ensures
        duration_of(Seq::empty()) == Err::<int, DurationError>(DurationError::Empty),
        c == 's' || c == 'm' || c == 'h' || c == 'd' || c == 'w' ==> counted(seq![c] + rest, 0)
            == Some(Err::<int, DurationError>(DurationError::MissingNumber(c))),
        duration_of(seq!['0']) == Err::<int, DurationError>(DurationError::NotPositive),
{
    let s = seq![c] + rest;
    assert(s[0] == c);
    assert(s.take(0) =~= Seq::empty());
    let none = Seq::<char>::empty();
    assert(text::trim_start(none) == none);
    let zero = seq!['0'];
    assert(zero =~= text::decimal_nat(0));
    text::lemma_decimal_nat(0);
    lemma_run_at(zero, 1);
    assert(zero.take(1) =~= zero);
    assert(text::trim_start(zero) == zero);
    assert(text::trim_end(zero) == zero);
}

/// A duration is shown by its two largest units of days, hours, minutes and
/// seconds that it has.
#[verifier::spinoff_prover]
#[verifier::rlimit(40)]
pub proof fn law_two_largest_units_are_shown(secs: int)
    requires
        secs > 0,
    ensures
        ({
            let d = secs / 86400;
            let h = secs % 86400 / 3600;
            let m = secs % 3600 / 60;
            let s = secs % 60;
            duration_text(secs) == if d > 0 && h > 0 {
                written(d as nat, 'd') + written(h as nat, 'h')
            } else if d > 0 && m > 0 {
                written(d as nat, 'd') + written(m as nat, 'm')
            } else if d > 0 && s > 0 {
                written(d as nat, 'd') + written(s as nat, 's')
            } else if d > 0 {
                written(d as nat, 'd')
            } else if h > 0 && m > 0 {
                written(h as nat, 'h') + written(m as nat, 'm')
            } else if h > 0 && s > 0 {
                written(h as nat, 'h') + written(s as nat, 's')
            } else if h > 0 {
                written(h as nat, 'h')
            } else if m > 0 && s > 0 {
                written(m as nat, 'm') + written(s as nat, 's')
            } else if m > 0 {
                written(m as nat, 'm')
            } else {
                written(s as nat, 's')
            }
        }),
{
    let below_days = secs - secs / 86400 * 86400;
    let below_hours = below_days - below_days / 3600 * 3600;
    let below_minutes = below_hours - below_hours / 60 * 60;
    assert(below_days == secs % 86400);
    assert(below_hours == secs % 3600);
    assert(below_minutes == secs % 60);
    let h = below_days / 3600;
    let m = below_hours / 60;
    lemma_shown_seconds(below_minutes);
    lemma_shown_from(below_hours, 2);
    let minutes_then_one = if m > 0 {
        written(m as nat, 'm')
    } else if below_minutes > 0 {
        written(below_minutes as nat, 's')
    } else {
        Seq::empty()
    };
    assert(shown(below_hours, 2, 1) =~= minutes_then_one);
    let minutes_then_two = if m > 0 && below_minutes > 0 {
        written(m as nat, 'm') + written(below_minutes as nat, 's')
    } else {
        minutes_then_one
    };
    assert(shown(below_hours, 2, 2) =~= minutes_then_two);
    lemma_shown_from(below_days, 1);
    let hours_then_one = if h > 0 {
        written(h as nat, 'h')
    } else {
        minutes_then_one
    };
    assert(shown(below_days, 1, 1) =~= hours_then_one);
    let hours_then_two = if h > 0 {
        written(h as nat, 'h') + minutes_then_one
    } else {
        minutes_then_two
    };
    assert(shown(below_days, 1, 2) =~= hours_then_two);
    lemma_shown_from(secs, 0);
    let none = Seq::<char>::empty();
    assert(written(h as nat, 'h') + none =~= written(h as nat, 'h'));
    assert(written((secs / 86400) as nat, 'd') + none =~= written((secs / 86400) as nat, 'd'));
}

/// What is shown of less than a minute.
proof fn lemma_shown_seconds(secs: int)
    requires
        0 <= secs,
    ensures
        secs > 0 ==> shown(secs, 3, 2) == written(secs as nat, 's'),
        secs > 0 ==> shown(secs, 3, 1) == written(secs as nat, 's'),
        secs == 0 ==> shown(secs, 3, 2) == Seq::<char>::empty(),
        secs == 0 ==> shown(secs, 3, 1) == Seq::<char>::empty(),
        shown(secs, 3, 0) == Seq::<char>::empty(),
{
    let none = Seq::<char>::empty();
    assert(secs / 1 == secs && secs * 1 == secs);
    assert(shown(secs, 4, 2) == none && shown(secs, 4, 1) == none);
    assert(shown(0, 4, 1) == none && shown(0, 4, 0) == none);
    lemma_shown_from(secs, 3);
    assert(written(secs as nat, 's') + none =~= written(secs as nat, 's'));
}

/// What is shown from one unit on.
proof fn lemma_shown_from(secs: int, i: int)
    requires
        secs >= 0,
        0 <= i < 4,
    ensures
        ({
            let n = secs / shown_unit(i);
            let left = secs - n * shown_unit(i);
            &&& n > 0 ==> shown(secs, i, 2) == written(n as nat, shown_letter(i)) + shown(
                left,
                i + 1,
                1,
            )
            &&& n > 0 ==> shown(secs, i, 1) == written(n as nat, shown_letter(i)) + shown(
                left,
                i + 1,
                0,
            )
            &&& n == 0 ==> shown(secs, i, 2) == shown(secs, i + 1, 2)
            &&& n == 0 ==> shown(secs, i, 1) == shown(secs, i + 1, 1)
            &&& shown(secs, i, 0) == Seq::<char>::empty()
        }),
{
}

/// The words for what a check, a channel or a ping can be.
pub proof fn law_words_for_things()
    ensures
        Status::New.word() == "new"@,
        Status::Up.word() == "up"@,
        Status::Grace.word() == "grace"@,
        Status::Down.word() == "down"@,
        Status::Paused.word() == "paused"@,
        CheckKind::Simple.word() == "simple"@,
        CheckKind::Cron.word() == "cron"@,
        ChannelKind::Webhook.word() == "webhook"@,
        ChannelKind::Ntfy.word() == "ntfy"@,
        PingKind::Success.word() == "success"@,
        PingKind::Start.word() == "start"@,
        PingKind::Fail.word() == "fail"@,
        PingKind::Log.word() == "log"@,
{
}

/// A schedule is told by its period, or by its expression and timezone, and by
/// its grace either way.
pub proof fn law_schedule_is_told(check: Check)
    ensures
        check.kind == CheckKind::Simple ==> check.summary() == "every "@ + duration_text(
            check.period_s as int,
        ) + " (grace "@ + duration_text(check.grace_s as int) + ")"@,
        check.kind == CheckKind::Cron && check.cron_expr is Some ==> check.summary()
            == check.cron_expr->0@ + " ["@ + check.tz@ + "] (grace "@ + duration_text(
            check.grace_s as int,
        ) + ")"@,
{
}

/// An instant is told by its date where it has one, and by its number otherwise.
pub proof fn law_instants_are_told(ts: int)
    ensures
        outside::CALENDAR_FIRST <= ts <= outside::CALENDAR_LAST ==> ts_text(ts)
            == outside::utc_text(ts),
        ts < outside::CALENDAR_FIRST || ts > outside::CALENDAR_LAST ==> ts_text(ts)
            == text::decimal(ts),
{
}

/// Every refusal of a duration has its words.
pub proof fn law_refused_durations_are_told(input: Seq<char>, c: char)
    ensures
        DurationError::Empty.text(input) == "empty duration"@,
        DurationError::Unexpected(c).text(input) == "invalid duration "@ + outside::debug_text(
            input,
        ) + ": unexpected "@ + outside::debug_char_text(c),
        DurationError::MissingNumber(c).text(input) == "invalid duration "@ + outside::debug_text(
            input,
        ) + ": missing number before "@ + outside::debug_char_text(c),
        DurationError::TooLarge.text(input) == "number too large to fit in target type"@,
        DurationError::NotPositive.text(input) == "duration must be positive"@,
{
}

/// A duration is read without the white space around it, and what it counts is
/// what it is, as long as that is positive.
pub proof fn law_durations_are_read(input: Seq<char>)
    ensures
        duration_fits(input) <==> counted(text::trimmed(input), 0) is Some,
        text::trimmed(input).len() > 0 && duration_fits(input) ==> duration_of(input)
            == match counted(text::trimmed(input), 0)->0 {
            Ok(total) => if total > 0 {
                Ok::<int, DurationError>(total)
            } else {
                Err(DurationError::NotPositive)
            },
            Err(e) => Err(e),
        },
        text::trimmed(input).len() == 0 ==> duration_of(input) == Err::<int, DurationError>(
            DurationError::Empty,
        ),
{
}

/// What a duration ends in without a unit is seconds.
pub proof fn law_last_count_is_seconds(n: nat, total: int)
    requires
        0 <= total <= i64::MAX,
    ensures
        n <= i64::MAX && total + n <= i64::MAX ==> counted(text::decimal_nat(n), total) == Some(
            Ok::<int, DurationError>(total + n),
        ),
        n > i64::MAX ==> counted(text::decimal_nat(n), total) == Some(
            Err::<int, DurationError>(DurationError::TooLarge),
        ),
        n <= i64::MAX && total + n > i64::MAX ==> counted(text::decimal_nat(n), total) is None,
{
    let s = text::decimal_nat(n);
    text::lemma_decimal_nat(n);
    lemma_run_at(s, s.len() as int);
    assert(s.take(s.len() as int) =~= s);
}

} // verus!
