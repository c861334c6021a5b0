//! What requests are answered.

use vstd::prelude::*;

pub mod api;
pub mod ping;
pub mod ui;

verus! {

/// An answer to a request, in plain values.
#[derive(Debug)]
pub struct Reply {
    pub status: u16,
    pub content_type: Option<String>,
    /// Where to go instead.
    pub location: Option<String>,
    /// A cookie to set.
    pub cookie: Option<String>,
    /// How long the answer may be kept.
    pub cache_control: Option<String>,
    pub body: String,
}

/// What an answer says.
pub struct Answer {
    pub status: int,
    pub content_type: Option<Seq<char>>,
    pub location: Option<Seq<char>>,
    pub cookie: Option<Seq<char>>,
    pub cache_control: Option<Seq<char>>,
    pub body: Seq<char>,
}

/// An optional string, by its characters.
pub open spec fn chars_in(s: Option<String>) -> Option<Seq<char>> {
    match s {
        Some(s) => Some(s@),
        None => None,
    }
}

impl View for Reply {
    type V = Answer;

    open spec fn view(&self) -> Answer {
        Answer {
            status: self.status as int,
            content_type: chars_in(self.content_type),
            location: chars_in(self.location),
            cookie: chars_in(self.cookie),
            cache_control: chars_in(self.cache_control),
            body: self.body@,
        }
    }
}

/// Nothing but a status.
pub open spec fn bare(status: int) -> Answer {
    Answer {
        status,
        content_type: None,
        location: None,
        cookie: None,
        cache_control: None,
        body: Seq::empty(),
    }
}

/// A status and some text.
pub open spec fn plain(status: int, body: Seq<char>) -> Answer {
    Answer { content_type: Some("text/plain; charset=utf-8"@), body, ..bare(status) }
}

/// A status and a JSON document.
pub open spec fn json(status: int, body: Seq<char>) -> Answer {
    Answer { content_type: Some("application/json"@), body, ..bare(status) }
}

/// Somewhere else to look.
pub open spec fn see_other(location: Seq<char>) -> Answer {
    Answer { location: Some(location), ..bare(303) }
}

impl Reply {
    /// Nothing but a status.
    pub fn bare(status: u16) -> (r: Reply)
        ensures
            r@ == bare(status as int),
    {
        Reply {
            status,
            content_type: None,
            location: None,
            cookie: None,
            cache_control: None,
            body: String::new(),
        }
    }

    /// A status and some text.
    pub fn plain(status: u16, body: &str) -> (r: Reply)
        ensures
            r@ == plain(status as int, body@),
    {
        let mut r = Reply::bare(status);
        r.content_type = Some("text/plain; charset=utf-8".to_owned());
        r.body = body.to_owned();
        r
    }

    /// A status and a JSON document.
    pub fn json(status: u16, body: String) -> (r: Reply)
        ensures
            r@ == json(status as int, body@),
    {
        let mut r = Reply::bare(status);
        r.content_type = Some("application/json".to_owned());
        r.body = body;
        r
    }

    /// Somewhere else to look.
    pub fn see_other(location: String) -> (r: Reply)
        ensures
            r@ == see_other(location@),
    {
        let mut r = Reply::bare(303);
        r.location = Some(location);
        r
    }
}

/// What the plain kinds of answers hold, and that they hold nothing else.
pub proof fn law_plain_answers(status: int, body: Seq<char>, location: Seq<char>)
    ensures
        bare(status) == (Answer {
            status,
            content_type: None,
            location: None,
            cookie: None,
            cache_control: None,
            body: Seq::empty(),
        }),
        plain(status, body) == (Answer {
            status,
            content_type: Some("text/plain; charset=utf-8"@),
            location: None,
            cookie: None,
            cache_control: None,
            body,
        }),
        json(status, body) == (Answer {
            status,
            content_type: Some("application/json"@),
            location: None,
            cookie: None,
            cache_control: None,
            body,
        }),
        see_other(location) == (Answer {
            status: 303,
            content_type: None,
            location: Some(location),
            cookie: None,
            cache_control: None,
            body: Seq::empty(),
        }),
{
}

/// A reply is answered as it stands.
pub proof fn law_replies_are_answered(reply: Reply)
    ensures
        reply@.status == reply.status,
        reply@.body == reply.body@,
        reply@.content_type is Some == reply.content_type is Some,
        reply.content_type matches Some(s) ==> reply@.content_type->0 == s@,
        reply@.location is Some == reply.location is Some,
        reply.location matches Some(s) ==> reply@.location->0 == s@,
        reply@.cookie is Some == reply.cookie is Some,
        reply.cookie matches Some(s) ==> reply@.cookie->0 == s@,
        reply@.cache_control is Some == reply.cache_control is Some,
        reply.cache_control matches Some(s) ==> reply@.cache_control->0 == s@,
{
}

} // verus!
