//! What the library takes from other crates and from the standard library.
//!
//! Every item here is trusted: its contract is believed, not proved. Each
//! makes one outside call on plain values and says what that call returns.

use argon2::password_hash::{PasswordHasher, PasswordVerifier};
use base64::Engine;
use chrono::Offset;
use sha2::Digest;
use vstd::prelude::*;
use vstd::utf8::*;

verus! {

/// An optional string, by its characters.
pub open spec fn text_of(s: Option<String>) -> Option<Seq<char>> {
    match s {
        Some(s) => Some(s@),
        None => None,
    }
}

/// A result whose error is a string, with the error by its characters.
pub open spec fn with_text<T>(r: Result<T, String>) -> Result<T, Seq<char>> {
    match r {
        Ok(t) => Ok(t),
        Err(e) => Err(e@),
    }
}

// ------------------------------------------------------------------- clock

/// The first instant of the supported calendar, in seconds since the epoch:
/// the start of the year -262143.
pub const CALENDAR_FIRST: i64 = -8_334_601_228_800;

/// The last instant of the supported calendar: the end of the year 262142.
pub const CALENDAR_LAST: i64 = 8_210_266_876_799;

/// Whether an instant has a date in the supported calendar.
pub open spec fn in_calendar(ts: int) -> bool {
    CALENDAR_FIRST <= ts <= CALENDAR_LAST
}

/// Whether an instant has a date in the supported calendar whatever the
/// timezone it is looked at from: no offset from UTC reaches a day.
pub open spec fn in_every_calendar(ts: int) -> bool {
    CALENDAR_FIRST + 86_400 <= ts <= CALENDAR_LAST - 86_400
}

/// Whether an instant is outside of the calendar's first and last month whatever
/// the timezone it is looked at from.
pub open spec fn in_inner_calendar(ts: int) -> bool {
    CALENDAR_FIRST + 32 * 86_400 <= ts <= CALENDAR_LAST - 32 * 86_400
}

/// Whether an instant has a date in a timezone: in UTC all of the supported
/// calendar does.
pub open spec fn has_local_date(tz: Seq<char>, ts: int) -> bool {
    in_every_calendar(ts) || tz == "UTC"@ && in_calendar(ts)
}

/// `chrono::Utc::now` followed by `timestamp`: the system clock in seconds
/// since the epoch. What comes back is never before the epoch, and always a
/// date that chrono can represent; nothing else is known of it. chrono panics
/// on a clock set outside of that.
#[verifier::external_body]
pub(crate) fn clock() -> (r: i64)
    ensures
        0 <= r <= CALENDAR_LAST,
{
    chrono::Utc::now().timestamp()
}

/// `chrono::DateTime::from_timestamp` has a value exactly for the instants
/// between chrono's first and last representable dates.
#[verifier::external_body]
pub(crate) fn has_date(ts: i64) -> (r: bool)
    ensures
        r == in_calendar(ts as int),
{
    chrono::DateTime::from_timestamp(ts, 0).is_some()
}

/// The text of an instant as chrono formats it with `%Y-%m-%d %H:%M:%SZ`.
pub uninterp spec fn utc_text(ts: int) -> Seq<char>;

/// `chrono::DateTime::format` with `%Y-%m-%d %H:%M:%SZ`: a function of the
/// instant alone.
#[verifier::external_body]
pub(crate) fn format_utc(ts: i64) -> (r: String)
    requires
        in_calendar(ts as int),
    ensures
        r@ == utc_text(ts as int),
{
    chrono::DateTime::from_timestamp(ts, 0).unwrap().format("%Y-%m-%d %H:%M:%SZ").to_string()
}

// -------------------------------------------------------------------- cron

/// Why croner refuses a cron expression, when it does.
pub uninterp spec fn cron_refusal(expr: Seq<char>) -> Option<Seq<char>>;

/// `croner::Cron::from_str`: the text of its error, a function of the
/// expression alone, or nothing when the expression is read.
#[verifier::external_body]
pub(crate) fn refuse_cron(expr: &str) -> (r: Option<String>)
    ensures
        text_of(r) == cron_refusal(expr@),
{
    match expr.parse::<croner::Cron>() {
        Ok(_) => None,
        Err(e) => Some(e.to_string()),
    }
}

/// Whether a name is in chrono-tz's timezone database.
pub uninterp spec fn is_timezone(name: Seq<char>) -> bool;

/// `chrono_tz::Tz::from_str`: whether it knows the name.
#[verifier::external_body]
pub(crate) fn knows_timezone(name: &str) -> (r: bool)
    ensures
        r == is_timezone(name@),
{
    name.parse::<chrono_tz::Tz>().is_ok()
}

/// How far a timezone is ahead of UTC at an instant, in seconds.
pub uninterp spec fn utc_offset(tz: Seq<char>, ts: int) -> int;

/// `chrono::TimeZone::offset_from_utc_datetime` on a chrono-tz timezone: a
/// function of the two, of less than a day either way.
#[verifier::external_body]
pub(crate) fn offset_at(tz: &str, ts: i64) -> (r: i64)
    requires
        is_timezone(tz@),
        in_calendar(ts as int),
    ensures
        r == utc_offset(tz@, ts as int),
        -86_400 < r < 86_400,
{
    let zone: chrono_tz::Tz = tz.parse().unwrap();
    let at = chrono::DateTime::from_timestamp(ts, 0).unwrap().naive_utc();
    chrono::TimeZone::offset_from_utc_datetime(&zone, &at).fix().local_minus_utc() as i64
}

/// What the wall clock of a timezone shows at an instant, counted as if it
/// were UTC.
pub open spec fn wall(tz: Seq<char>, ts: int) -> int {
    ts + utc_offset(tz, ts)
}

/// Whether croner takes the wall-clock time of an instant in a timezone for a
/// match of an expression.
pub uninterp spec fn cron_matches(expr: Seq<char>, tz: Seq<char>, ts: int) -> bool;

/// `croner::Cron::is_time_matching` on an instant in a timezone: whether it
/// says so, a function of the three. It steps to neighbouring days and months,
/// and panics where the calendar has none: the instant stays clear of the first
/// and last month.
#[verifier::external_body]
pub(crate) fn matches_cron(expr: &str, tz: &str, ts: i64) -> (r: bool)
    requires
        cron_refusal(expr@) is None,
        is_timezone(tz@),
        in_inner_calendar(ts as int),
    ensures
        r == cron_matches(expr@, tz@, ts as int),
{
    let cron: croner::Cron = expr.parse().unwrap();
    let zone: chrono_tz::Tz = tz.parse().unwrap();
    let at = chrono::DateTime::from_timestamp(ts, 0).unwrap().with_timezone(&zone);
    cron.is_time_matching(&at).unwrap_or(false)
}

/// Whether croner takes an expression for a job at one fixed time of the day.
pub uninterp spec fn cron_is_fixed(expr: Seq<char>) -> bool;

/// `croner::Cron::determine_job_type`: whether it is `FixedTime`, a function of
/// the expression.
#[verifier::external_body]
pub(crate) fn is_fixed_time(expr: &str) -> (r: bool)
    requires
        cron_refusal(expr@) is None,
    ensures
        r == cron_is_fixed(expr@),
{
    let cron: croner::Cron = expr.parse().unwrap();
    match cron.determine_job_type() {
        croner::JobType::FixedTime => true,
        croner::JobType::IntervalWildcard => false,
    }
}

/// Whether an instant is the first match of an expression after another.
pub open spec fn is_first_match(expr: Seq<char>, tz: Seq<char>, from: int, at: int) -> bool {
    &&& at > from
    &&& cron_matches(expr, tz, at)
    &&& forall|x: int| from < x < at ==> !#[trigger] cron_matches(expr, tz, x)
}

/// Whether the wall clock shows at an instant what it shows between two others.
pub open spec fn wall_between(tz: Seq<char>, from: int, x: int, to: int) -> bool {
    wall(tz, from) < wall(tz, x) < wall(tz, to)
}

/// Whether clocks in a timezone are set back within a day of an instant. In the
/// calendar's first and last months no clock is.
pub open spec fn set_back_near(tz: Seq<char>, ts: int) -> bool {
    &&& in_inner_calendar(ts)
    &&& in_inner_calendar(ts + 86_400)
    &&& utc_offset(tz, ts - 86_400) > utc_offset(tz, ts + 86_400)
}

/// Whether an instant is in the second pass of hours that repeat: clocks were
/// set back within the day before it, by so much that they already showed the
/// same before that.
pub open spec fn second_pass(tz: Seq<char>, ts: int) -> bool {
    let back = utc_offset(tz, ts - 86_400) - utc_offset(tz, ts);
    back > 0 && utc_offset(tz, ts - back) == utc_offset(tz, ts - 86_400)
}

/// Whether clocks are set forward at an instant.
pub open spec fn set_forward_at(tz: Seq<char>, ts: int) -> bool {
    utc_offset(tz, ts - 1) < utc_offset(tz, ts)
}

/// What croner's search for the next occurrence of an expression, in a
/// timezone, after an instant, yields: an instant or the text of an error.
pub uninterp spec fn cron_next(expr: Seq<char>, tz: Seq<char>, from: int) -> Result<i64, Seq<char>>;

/// `croner::Cron::find_next_occurrence`, not inclusive, from an instant in a
/// timezone: a function of the three. The search moves forward on the wall
/// clock, second by second but for stretches that cannot match, and ends at the
/// first time that matches, in its first pass where it repeats and the job is at
/// a fixed time of the day. So nothing that the wall clock shows between start
/// and end matches, and the end does; only a job at a fixed time of the day that
/// falls into hours which are skipped ends right after them. In UTC the end is
/// the first match after `from_ts`. Elsewhere, where no clock is set back within
/// a day of `from_ts`, the end is later and nothing matches before it: chrono-tz
/// knows of no clock that is set back by more than a day. Near that, a match
/// whose wall-clock time is not ahead can be missed, and an instant before
/// `from_ts` can come out.
#[verifier::external_body]
pub(crate) fn search_cron(expr: &str, tz: &str, from_ts: i64) -> (r: Result<i64, String>)
    requires
        cron_refusal(expr@) is None,
        is_timezone(tz@),
        has_local_date(tz@, from_ts as int),
    ensures
        with_text(r) == cron_next(expr@, tz@, from_ts as int),
        r matches Ok(n) ==> tz@ == "UTC"@ ==> is_first_match(expr@, tz@, from_ts as int, n as int),
        r matches Ok(n) ==> cron_matches(expr@, tz@, n as int) && !(cron_is_fixed(expr@)
            && second_pass(tz@, n as int)) || cron_is_fixed(expr@) && set_forward_at(
            tz@,
            n as int,
        ),
        r matches Ok(n) ==> forall|x: int|
            from_ts < x < n && wall_between(tz@, from_ts as int, x, n as int)
                ==> !#[trigger] cron_matches(expr@, tz@, x),
        r matches Ok(n) ==> !set_back_near(tz@, from_ts as int) ==> n > from_ts && forall|x: int|
            from_ts < x < n ==> !#[trigger] cron_matches(expr@, tz@, x),
{
    let cron: croner::Cron = expr.parse().unwrap();
    let zone: chrono_tz::Tz = tz.parse().unwrap();
    let from = chrono::DateTime::from_timestamp(from_ts, 0).unwrap().with_timezone(&zone);
    match cron.find_next_occurrence(&from, false) {
        Ok(next) => Ok(next.timestamp()),
        Err(e) => Err(e.to_string()),
    }
}

// ---------------------------------------------------------------- accounts

/// `rand::random`: as many bytes as asked for, about which nothing is known.
#[verifier::external_body]
pub(crate) fn random_bytes<const N: usize>() -> (r: [u8; N]) {
    rand::random()
}

/// What argon2 makes of a password and a salt: the hash in PHC format, or the
/// text of an error.
pub uninterp spec fn phc_hash(plain: Seq<u8>, salt: Seq<u8>) -> Result<Seq<char>, Seq<char>>;

/// Whether a text is a hash in PHC format.
pub uninterp spec fn is_phc(hash: Seq<char>) -> bool;

/// Whether argon2 accepts a password for a hash in PHC format.
pub uninterp spec fn phc_accepts(hash: Seq<char>, plain: Seq<u8>) -> bool;

/// `argon2::Argon2::hash_password` with the default parameters: a function of
/// password and salt. It succeeds for every password that argon2 takes, up to
/// 4 GiB; what it yields can be read back, and accepts that password.
#[verifier::external_body]
pub(crate) fn hash_phc(plain: &[u8], salt: &[u8; 16]) -> (r: Result<String, String>)
    ensures
        r is Ok == phc_hash(plain@, salt@) is Ok,
        r matches Ok(h) ==> phc_hash(plain@, salt@)->Ok_0 == h@,
        r matches Err(e) ==> phc_hash(plain@, salt@)->Err_0 == e@,
        plain@.len() <= 0xffff_ffff ==> r is Ok,
        r matches Ok(h) ==> is_phc(h@) && phc_accepts(h@, plain@),
{
    let salt = argon2::password_hash::SaltString::encode_b64(salt).unwrap();
    match argon2::Argon2::default().hash_password(plain, &salt) {
        Ok(h) => Ok(h.to_string()),
        Err(e) => Err(e.to_string()),
    }
}

/// `argon2::PasswordHash::new`: whether it can read the hash.
#[verifier::external_body]
pub(crate) fn reads_phc(hash: &str) -> (r: bool)
    ensures
        r == is_phc(hash@),
{
    argon2::PasswordHash::new(hash).is_ok()
}

/// `argon2::Argon2::verify_password`: whether it accepts the password, a
/// function of hash and password.
#[verifier::external_body]
pub(crate) fn verify_phc(hash: &str, plain: &[u8]) -> (r: bool)
    requires
        is_phc(hash@),
    ensures
        r == phc_accepts(hash@, plain@),
{
    let parsed = argon2::PasswordHash::new(hash).unwrap();
    argon2::Argon2::default().verify_password(plain, &parsed).is_ok()
}

/// The SHA-256 digest of some bytes.
pub uninterp spec fn sha256(data: Seq<u8>) -> Seq<u8>;

/// `sha2::Sha256::digest`: thirty-two bytes, a function of the data.
#[verifier::external_body]
pub(crate) fn digest_sha256(data: &[u8]) -> (r: Vec<u8>)
    ensures
        r@ == sha256(data@),
        r@.len() == 32,
{
    sha2::Sha256::digest(data).to_vec()
}

// ------------------------------------------------------------------ base64

/// The six bits of `data` that start at bit `6 * i`; bits past the end are 0.
pub open spec fn sextet(data: Seq<u8>, i: int) -> int {
    let at = 6 * i / 8;
    let next: int = if at + 1 < data.len() {
        data[at + 1] as int
    } else {
        0
    };
    let window = 256 * data[at] + next;
    let skipped = 6 * i % 8;
    if skipped == 0 {
        window / 1024 % 64
    } else if skipped == 2 {
        window / 256 % 64
    } else if skipped == 4 {
        window / 64 % 64
    } else {
        window / 16 % 64
    }
}

/// The base64 character for a number below 64; `c62` and `c63` stand for the
/// last two.
pub open spec fn base64_char(n: int, c62: char, c63: char) -> char {
    if n < 26 {
        ('A' as int + n) as char
    } else if n < 52 {
        ('a' as int + (n - 26)) as char
    } else if n < 62 {
        ('0' as int + (n - 52)) as char
    } else if n == 62 {
        c62
    } else {
        c63
    }
}

/// `data` in base64, without padding.
pub open spec fn base64_unpadded(data: Seq<u8>, c62: char, c63: char) -> Seq<char> {
    Seq::new(
        (8 * data.len() + 5) / 6,
        |i: int| base64_char(sextet(data, i), c62, c63),
    )
}

/// `data` in the URL-safe base64 alphabet, without padding.
pub open spec fn base64_url(data: Seq<u8>) -> Seq<char> {
    base64_unpadded(data, '-', '_')
}

/// `data` in the standard base64 alphabet, padded with `=` to a multiple of
/// four characters.
pub open spec fn base64_standard(data: Seq<u8>) -> Seq<char> {
    let body = base64_unpadded(data, '+', '/');
    body + Seq::new((3 * body.len()) % 4, |i: int| '=')
}

/// `base64`'s `URL_SAFE_NO_PAD` engine: each six bits as one character of the
/// URL-safe alphabet, without padding.
#[verifier::external_body]
pub(crate) fn encode_base64_url(data: &[u8]) -> (r: String)
    ensures
        r@ == base64_url(data@),
{
    base64::engine::general_purpose::URL_SAFE_NO_PAD.encode(data)
}

/// `base64`'s `STANDARD` engine: each six bits as one character of the
/// standard alphabet, padded with `=` to a multiple of four characters.
#[verifier::external_body]
pub(crate) fn encode_base64_standard(data: &[u8]) -> (r: String)
    ensures
        r@ == base64_standard(data@),
{
    base64::engine::general_purpose::STANDARD.encode(data)
}

// -------------------------------------------------------------------- JSON

/// The lower-case hexadecimal digit for a number below sixteen.
pub open spec fn hex_lower(n: int) -> char {
    if n < 10 {
        ('0' as int + n) as char
    } else {
        ('a' as int + (n - 10)) as char
    }
}

/// One character inside a JSON string.
pub open spec fn json_char(c: char) -> Seq<char> {
    if c == '"' {
        seq!['\\', '"']
    } else if c == '\\' {
        seq!['\\', '\\']
    } else if c == '\u{8}' {
        seq!['\\', 'b']
    } else if c == '\t' {
        seq!['\\', 't']
    } else if c == '\n' {
        seq!['\\', 'n']
    } else if c == '\u{c}' {
        seq!['\\', 'f']
    } else if c == '\r' {
        seq!['\\', 'r']
    } else if c as int <= 31 {
        seq!['\\', 'u', '0', '0', hex_lower(c as int / 16), hex_lower(c as int % 16)]
    } else {
        seq![c]
    }
}

/// The characters of `s` inside a JSON string.
pub open spec fn json_chars(s: Seq<char>) -> Seq<char>
    decreases s.len(),
{
    if s.len() == 0 {
        Seq::empty()
    } else {
        json_chars(s.drop_last()) + json_char(s.last())
    }
}

/// `s` as a JSON string, quotes included.
pub open spec fn json_string(s: Seq<char>) -> Seq<char> {
    seq!['"'] + json_chars(s) + seq!['"']
}

/// `serde_json::to_string` on a string: quotes around it, with quote, reverse
/// solidus and the control characters below U+0020 escaped and every other
/// character as it is.
#[verifier::external_body]
pub(crate) fn quote_json(s: &str) -> (r: String)
    ensures
        r@ == json_string(s@),
{
    serde_json::to_string(s).unwrap()
}

/// The string that a JSON document holds under a key, when the document is an
/// object that has one there.
pub uninterp spec fn json_text_field(document: Seq<char>, key: Seq<char>) -> Option<Seq<char>>;

/// `serde_json::from_str` into a `Value`, indexed by the key: the string found
/// there, a function of document and key. A text that is no JSON, a document
/// that is no object and a member that is no string all have none.
#[verifier::external_body]
pub(crate) fn read_json_text(document: &str, key: &str) -> (r: Option<String>)
    ensures
        text_of(r) == json_text_field(document@, key@),
{
    match serde_json::from_str::<serde_json::Value>(document) {
        Ok(value) => match value.get(key).and_then(serde_json::Value::as_str) {
            Some(s) => Some(s.to_string()),
            None => None,
        },
        Err(_) => None,
    }
}

// -------------------------------------------------------------------- HTTP

/// Whether `c` may stand in an HTTP method.
pub open spec fn is_method_char(c: char) -> bool {
    ||| 'A' <= c <= 'Z'
    ||| 'a' <= c <= 'z'
    ||| '0' <= c <= '9'
    ||| c == '!' || c == '#' || c == '$' || c == '%' || c == '&' || c == '\''
    ||| c == '*' || c == '+' || c == '-' || c == '.' || c == '^' || c == '_'
    ||| c == '`' || c == '|' || c == '~'
}

/// Whether `s` is an HTTP method: a non-empty run of method characters.
pub open spec fn is_method(s: Seq<char>) -> bool {
    s.len() > 0 && forall|i: int| 0 <= i < s.len() ==> is_method_char(#[trigger] s[i])
}

/// `reqwest::Method::from_bytes`: it accepts the non-empty runs of token
/// characters.
#[verifier::external_body]
pub(crate) fn reads_method(s: &str) -> (r: bool)
    ensures
        r == is_method(s@),
{
    reqwest::Method::from_bytes(s.as_bytes()).is_ok()
}

/// An HTTP status as text: its number and its reason phrase.
pub uninterp spec fn status_text(code: int) -> Seq<char>;

/// `reqwest::StatusCode` as text, a function of the number. Status codes have
/// three digits.
#[verifier::external_body]
pub(crate) fn show_status(code: u16) -> (r: String)
    requires
        100 <= code <= 999,
    ensures
        r@ == status_text(code as int),
{
    reqwest::StatusCode::from_u16(code).unwrap().to_string()
}

/// Whether a byte stands for itself in a percent-encoded text.
pub open spec fn is_unreserved(b: u8) -> bool {
    ||| 48 <= b <= 57
    ||| 65 <= b <= 90
    ||| 97 <= b <= 122
    ||| b == 45 || b == 46 || b == 95 || b == 126
}

/// The upper-case hexadecimal digit for a number below sixteen.
pub open spec fn hex_upper(n: int) -> char {
    if n < 10 {
        ('0' as int + n) as char
    } else {
        ('A' as int + (n - 10)) as char
    }
}

/// Bytes, percent-encoded.
pub open spec fn percent_bytes(bytes: Seq<u8>) -> Seq<char>
    decreases bytes.len(),
{
    if bytes.len() == 0 {
        Seq::empty()
    } else {
        let b = bytes.last();
        percent_bytes(bytes.drop_last()) + if is_unreserved(b) {
            seq![b as char]
        } else {
            seq!['%', hex_upper(b as int / 16), hex_upper(b as int % 16)]
        }
    }
}

/// `urlencoding::encode`: the UTF-8 bytes of the text, each a letter, a digit,
/// one of `-`, `.`, `_`, `~`, or else `%` and two upper-case digits.
#[verifier::external_body]
pub(crate) fn encode_percent(s: &str) -> (r: String)
    ensures
        r@ == percent_bytes(encode_utf8(s@)),
{
    urlencoding::encode(s).into_owned()
}

// ------------------------------------------------------------------- UUIDs

/// Whether a text is a UUID in one of the forms that are read.
pub uninterp spec fn is_uuid(s: Seq<char>) -> bool;

/// `uuid::Uuid::parse_str`: whether it reads the text.
#[verifier::external_body]
pub(crate) fn reads_uuid(s: &str) -> (r: bool)
    ensures
        r == is_uuid(s@),
{
    uuid::Uuid::parse_str(s).is_ok()
}

/// `uuid::Uuid::new_v4` as text: a random UUID in the hyphenated form, which
/// can be read back.
#[verifier::external_body]
pub(crate) fn random_uuid() -> (r: String)
    ensures
        r@.len() == 36,
        is_uuid(r@),
{
    uuid::Uuid::new_v4().to_string()
}

// -------------------------------------------------------- standard library

/// `String::push` appends the given character to the end of the string.
pub assume_specification[ String::push ](s: &mut String, c: char)
    ensures
        final(s)@ == old(s)@.push(c),
;

/// The text of a string as `{:?}` shows it.
pub uninterp spec fn debug_text(s: Seq<char>) -> Seq<char>;

/// `str` formatted with `{:?}`: a function of the string.
#[verifier::external_body]
pub(crate) fn debug_str(s: &str) -> (r: String)
    ensures
        r@ == debug_text(s@),
{
    format!("{:?}", s)
}

/// The text of a character as `{:?}` shows it.
pub uninterp spec fn debug_char_text(c: char) -> Seq<char>;

/// `char` formatted with `{:?}`: a function of the character.
#[verifier::external_body]
pub(crate) fn debug_char(c: char) -> (r: String)
    ensures
        r@ == debug_char_text(c),
{
    format!("{:?}", c)
}

/// Bytes read as UTF-8, with a replacement character for what is not.
pub uninterp spec fn lossy_text(bytes: Seq<u8>) -> Seq<char>;

/// `String::from_utf8_lossy`: a function of the bytes, and their plain
/// decoding when they are valid UTF-8.
#[verifier::external_body]
pub(crate) fn read_lossy(bytes: &[u8]) -> (r: String)
    ensures
        r@ == lossy_text(bytes@),
        valid_utf8(bytes@) ==> r@ == decode_utf8(bytes@),
{
    String::from_utf8_lossy(bytes).into_owned()
}

} // verus!
