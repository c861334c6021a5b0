//! The ping endpoints: what a request reports.

use vstd::prelude::*;

use crate::model::PingKind;
use crate::outside;
use crate::schedule;
use crate::store::PingInput;
use crate::text;
use crate::web;
use crate::web::Reply;

verus! {

/// Request bodies above this are rejected outright; what is kept is truncated
/// further when the ping is recorded.
pub const MAX_REQUEST_BODY: usize = 1_048_576;

/// What the end of a ping address reports: `start`, `fail`, `log`, or an exit
/// code. 0 is a success, anything else a failure carrying the code.
pub open spec fn reported(suffix: Seq<char>) -> Option<(PingKind, Option<i64>)> {
    if suffix == "start"@ {
        Some((PingKind::Start, None))
    } else if suffix == "fail"@ {
        Some((PingKind::Fail, None))
    } else if suffix == "log"@ {
        Some((PingKind::Log, None))
    } else {
        match text::parsed_uint(suffix, 255) {
            Some(code) => if code == 0 {
                Some((PingKind::Success, Some(0)))
            } else {
                Some((PingKind::Fail, Some(code as i64)))
            },
            None => None,
        }
    }
}

/// What the end of a ping address reports.
pub fn parse_suffix(suffix: &str) -> (r: Option<(PingKind, Option<i64>)>)
    ensures
        r == reported(suffix@),
{
    if text::same(suffix, "start") {
        Some((PingKind::Start, None))
    } else if text::same(suffix, "fail") {
        Some((PingKind::Fail, None))
    } else if text::same(suffix, "log") {
        Some((PingKind::Log, None))
    } else {
        match text::parse_uint(suffix, 255) {
            Some(0) => Some((PingKind::Success, Some(0))),
            Some(code) => Some((PingKind::Fail, Some(code as i64))),
            None => None,
        }
    }
}

/// The first address that was forwarded, if it is not blank.
pub open spec fn forwarded(forwarded_for: Option<Seq<char>>) -> Option<Seq<char>> {
    match forwarded_for {
        Some(list) => {
            let first = text::trimmed(text::pieces(list, ',')[0]);
            if first.len() == 0 {
                None
            } else {
                Some(first)
            }
        },
        None => None,
    }
}

/// The address that a request is said to come from.
pub open spec fn client(forwarded_for: Option<Seq<char>>, peer: Seq<char>) -> Seq<char> {
    match forwarded(forwarded_for) {
        Some(first) => first,
        None => peer,
    }
}

/// Reported client address. `X-Forwarded-For` wins when present, since the
/// common deployment is behind a reverse proxy. It is display-only metadata,
/// never used for authorization.
pub fn client_ip(forwarded_for: Option<&str>, peer: &str) -> (r: String)
    ensures
        r@ == client(schedule::chars(forwarded_for), peer@),
{
    if let Some(list) = forwarded_for {
        let pieces = text::split_on(list, ',');
        assert(text::views(pieces@).len() == pieces@.len());
        assert(text::views(pieces@)[0] == pieces@[0]@);
        let first = text::trim(pieces[0].as_str());
        if first.as_str().unicode_len() > 0 {
            return first;
        }
    }
    peer.to_owned()
}

/// A ping request, in plain values.
#[derive(Debug)]
pub struct Request<'a> {
    pub uuid: &'a str,
    pub suffix: Option<&'a str>,
    /// The address of whoever made the connection.
    pub peer: &'a str,
    pub forwarded_for: Option<&'a str>,
    pub user_agent: Option<&'a str>,
    pub method: &'a str,
    pub body: &'a [u8],
}

/// What a request reports.
pub open spec fn report_of(suffix: Option<Seq<char>>) -> Option<(PingKind, Option<i64>)> {
    match suffix {
        None => Some((PingKind::Success, None)),
        Some(suffix) => reported(suffix),
    }
}

/// What a request is answered for a check that is not there.
pub open spec fn not_found_answer() -> web::Answer {
    web::plain(404, "not found\n"@)
}

/// What a request is answered that cannot be a ping, whatever is stored.
pub open spec fn refusal(uuid: Seq<char>, suffix: Option<Seq<char>>) -> Option<web::Answer> {
    if report_of(suffix) is None {
        Some(web::plain(400, "unrecognized ping suffix\n"@))
    } else if !outside::is_uuid(uuid) {
        Some(not_found_answer())
    } else {
        None
    }
}

/// What a request is answered, once it is known whether the check is there.
pub open spec fn answer(
    uuid: Seq<char>,
    suffix: Option<Seq<char>>,
    found: bool,
) -> web::Answer {
    match refusal(uuid, suffix) {
        Some(answer) => answer,
        None => if found {
            web::plain(200, "OK\n"@)
        } else {
            not_found_answer()
        },
    }
}

/// Whether `input` is what a request has to say.
pub open spec fn is_input(input: PingInput, request: Request) -> bool {
    let report = report_of(schedule::chars(request.suffix))->0;
    &&& input.kind == Some(report.0)
    &&& input.exit_code == report.1
    &&& outside::text_of(input.remote_addr) == Some(
        client(schedule::chars(request.forwarded_for), request.peer@),
    )
    &&& outside::text_of(input.user_agent) == schedule::chars(request.user_agent)
    &&& outside::text_of(input.method) == Some(request.method@)
    &&& outside::text_of(input.body) == if request.body@.len() == 0 {
        None
    } else {
        Some(outside::lossy_text(request.body@))
    }
}

/// What a request has to say, or what it is answered when it cannot be a ping.
/// Malformed uuids are rejected before anything is looked up.
pub fn read_request(request: &Request) -> (r: Result<PingInput, Reply>)
    ensures
        match refusal(request.uuid@, schedule::chars(request.suffix)) {
            Some(answer) => r matches Err(reply) && reply@ == answer,
            None => r matches Ok(input) && is_input(input, *request),
        },
{
    let (kind, exit_code) = match request.suffix {
        None => (PingKind::Success, None),
        Some(suffix) => match parse_suffix(suffix) {
            Some(report) => report,
            None => {
                return Err(Reply::plain(400, "unrecognized ping suffix\n"));
            },
        },
    };
    if !outside::reads_uuid(request.uuid) {
        return Err(not_found());
    }
    let user_agent = match request.user_agent {
        Some(agent) => Some(agent.to_owned()),
        None => None,
    };
    let body = if request.body.len() == 0 {
        None
    } else {
        Some(outside::read_lossy(request.body))
    };
    Ok(
        PingInput {
            kind: Some(kind),
            exit_code,
            remote_addr: Some(client_ip(request.forwarded_for, request.peer)),
            user_agent,
            method: Some(request.method.to_owned()),
            body,
        },
    )
}

/// What a request is answered for a check that is not there.
pub fn not_found() -> (r: Reply)
    ensures
        r@ == not_found_answer(),
{
    Reply::plain(404, "not found\n")
}

/// What a ping is answered, given whether its check was found.
pub fn acknowledge(found: bool) -> (r: Reply)
    ensures
        r@ == if found {
            web::plain(200, "OK\n"@)
        } else {
            not_found_answer()
        },
{
    if found {
        Reply::plain(200, "OK\n")
    } else {
        not_found()
    }
}

// -------------------------------------------------------------------- laws

/// A uuid that no check carries and one that none can carry are answered
/// alike: nothing leaks on which uuids ever existed.
pub proof fn law_unknown_is_answered_like_malformed(
    known: Seq<char>,
    malformed: Seq<char>,
    suffix: Option<Seq<char>>,
    found: bool,
)
    requires
        !outside::is_uuid(malformed),
    ensures
        answer(known, suffix, false) == answer(malformed, suffix, found),
{
}

/// An exit code in decimal reports a success when it is 0, and otherwise a
/// failure that carries it; codes past 255 are none.
pub proof fn law_exit_codes(code: nat)
    ensures
        reported(text::decimal_nat(code)) == if code == 0 {
            Some((PingKind::Success, Some(0i64)))
        } else if code <= 255 {
            Some((PingKind::Fail, Some(code as i64)))
        } else {
            None
        },
{
    reveal_strlit("start");
    reveal_strlit("fail");
    reveal_strlit("log");
    text::lemma_decimal_nat(code);
    let digits = text::decimal_nat(code);
    assert(text::is_digit(digits[0]));
    assert("start"@[0] == 's' && "fail"@[0] == 'f' && "log"@[0] == 'l');
}

/// What the suffix of a ping reports: a start, a failure or a log entry by its
/// word, an exit code by its number, a success without one. Anything else is not
/// recognized.
pub proof fn law_what_a_suffix_reports(code: int, suffix: Seq<char>)
    ensures
        report_of(None) == Some((PingKind::Success, None::<i64>)),
        report_of(Some("start"@)) == Some((PingKind::Start, None::<i64>)),
        report_of(Some("fail"@)) == Some((PingKind::Fail, None::<i64>)),
        report_of(Some("log"@)) == Some((PingKind::Log, None::<i64>)),
        report_of(Some(text::decimal(0))) == Some((PingKind::Success, Some(0i64))),
        0 < code <= 255 ==> report_of(Some(text::decimal(code))) == Some(
            (PingKind::Fail, Some(code as i64)),
        ),
        code > 255 ==> report_of(Some(text::decimal(code))) is None,
        suffix != "start"@ && suffix != "fail"@ && suffix != "log"@ && text::parsed_uint(
            suffix,
            255,
        ) is None ==> report_of(Some(suffix)) is None,
{
    reveal_strlit("start");
    reveal_strlit("fail");
    reveal_strlit("log");
    assert("start"@[0] == 's' && "fail"@[0] == 'f' && "log"@[0] == 'l');
    text::law_numbers_read_back(0, 255);
    text::lemma_decimal_nat(0);
    assert(text::is_digit(text::decimal_nat(0)[0]));
    if code > 0 {
        text::law_numbers_read_back(code, 255);
        text::lemma_decimal_nat(code as nat);
        assert(text::is_digit(text::decimal_nat(code as nat)[0]));
    }
}

/// The client of a ping is the first that a proxy forwarded it for, without the
/// white space around it, and the peer where no proxy names one.
pub proof fn law_who_pinged(first: Seq<char>, others: Seq<char>, peer: Seq<char>)
    requires
        forall|i: int| 0 <= i < first.len() ==> #[trigger] first[i] != ',',
    ensures
        client(None, peer) == peer,
        client(Some(first), peer) == if text::trimmed(first).len() == 0 {
            peer
        } else {
            text::trimmed(first)
        },
        client(Some(first + seq![','] + others), peer) == client(Some(first), peer),
{
    text::lemma_index_of(first, ',');
    assert(text::pieces(first, ',') =~= seq![first]);
    text::lemma_pieces_of_both(first, others, ',');
    assert(text::pieces(first + seq![','] + others, ',')[0] == first);
}

/// How a ping is answered: a suffix that is not recognized is a bad request,
/// whatever it is for; a check that is not known is not found; and the rest is
/// fine.
pub proof fn law_how_pings_are_answered(uuid: Seq<char>, suffix: Option<Seq<char>>, found: bool)
    ensures
        report_of(suffix) is None ==> answer(uuid, suffix, found) == web::plain(
            400,
            "unrecognized ping suffix\n"@,
        ),
        report_of(suffix) is Some && (!outside::is_uuid(uuid) || !found) ==> answer(
            uuid,
            suffix,
            found,
        ) == web::plain(404, "not found\n"@),
        report_of(suffix) is Some && outside::is_uuid(uuid) && found ==> answer(uuid, suffix, found)
            == web::plain(200, "OK\n"@),
        refusal(uuid, suffix) is None <==> report_of(suffix) is Some && outside::is_uuid(uuid),
{
}

/// What is taken from a request: what its suffix reports, who sent it, how, and
/// with which body.
pub proof fn law_what_is_taken_from_a_request(input: PingInput, request: Request)
    requires
        is_input(input, request),
        refusal(request.uuid@, schedule::chars(request.suffix)) is None,
    ensures
        request.suffix is None ==> input.kind == Some(PingKind::Success) && input.exit_code is None,
        request.suffix matches Some(suffix) ==> report_of(Some(suffix@)) == Some(
            (input.kind->0, input.exit_code),
        ) && input.kind is Some,
        request.forwarded_for is None ==> input.remote_addr is Some && input.remote_addr->0@
            == request.peer@,
        request.user_agent is Some == input.user_agent is Some,
        request.user_agent matches Some(agent) ==> input.user_agent->0@ == agent@,
        input.method is Some && input.method->0@ == request.method@,
        request.body@.len() == 0 ==> input.body is None,
        request.body@.len() > 0 ==> input.body is Some && input.body->0@ == outside::lossy_text(
            request.body@,
        ),
{
}

} // verus!
