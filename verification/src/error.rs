//! What the library answers when it refuses something.

use vstd::prelude::*;

use crate::outside;
use crate::web;
use crate::web::Reply;

verus! {

/// A refusal, in words meant for the person who asked.
#[derive(Debug, Clone)]
pub struct Error {
    pub message: String,
}

impl View for Error {
    type V = Seq<char>;

    open spec fn view(&self) -> Seq<char> {
        self.message@
    }
}

impl Error {
    /// A refusal with the given words.
    pub fn new(message: &str) -> (r: Error)
        ensures
            r@ == message@,
    {
        Error { message: message.to_owned() }
    }

    /// The words of the refusal.
    pub fn message(&self) -> (r: &str)
        ensures
            r@ == self@,
    {
        self.message.as_str()
    }
}

/// A result with the words of its refusal.
pub open spec fn told<T>(r: Result<T, Error>) -> Result<T, Seq<char>> {
    match r {
        Ok(t) => Ok(t),
        Err(e) => Err(e@),
    }
}

/// Why a request failed.
#[derive(Debug)]
pub enum AppError {
    /// No key, or none that is known.
    Unauthorized,
    NotFound,
    /// The request cannot be served as it is, for this reason.
    BadRequest(String),
    /// The database failed.
    Db(String),
    /// Anything else.
    Other(String),
}

/// A JSON document that tells what went wrong.
pub open spec fn error_document(message: Seq<char>) -> Seq<char> {
    "{\"error\":"@ + outside::json_string(message) + "}"@
}

/// A JSON document that tells what went wrong.
pub fn error_json(message: &str) -> (r: String)
    ensures
        r@ == error_document(message@),
{
    let mut r = "{\"error\":".to_owned();
    r.append(outside::quote_json(message).as_str());
    r.append("}");
    r
}

impl AppError {
    /// What a request that failed is answered.
    pub open spec fn answer(self) -> web::Answer {
        match self {
            AppError::Unauthorized => web::json(401, error_document("unauthorized"@)),
            AppError::NotFound => web::json(404, error_document("not found"@)),
            AppError::BadRequest(why) => web::json(400, error_document(why@)),
            _ => web::json(500, error_document("internal server error"@)),
        }
    }

    /// What a request that failed is answered. Internal failures are reported
    /// to the caller as a bare 500: error text can carry database contents.
    pub fn reply(&self) -> (r: Reply)
        ensures
            r@ == self.answer(),
    {
        match self {
            AppError::Unauthorized => Reply::json(401, error_json("unauthorized")),
            AppError::NotFound => Reply::json(404, error_json("not found")),
            AppError::BadRequest(why) => Reply::json(400, error_json(why.as_str())),
            _ => Reply::json(500, error_json("internal server error")),
        }
    }
}

/// Two internal failures are answered alike: nothing of them gets out.
pub proof fn law_internal_failures_are_answered_alike(a: String, b: String)
    ensures
        AppError::Db(a).answer() == AppError::Other(b).answer(),
        AppError::Db(a).answer() == AppError::Db(b).answer(),
        AppError::Other(a).answer() == AppError::Other(b).answer(),
{
}

/// What each failure is answered: its status, and a document that says why.
pub proof fn law_failures_are_answered(why: String)
    ensures
        AppError::Unauthorized.answer().status == 401,
        AppError::Unauthorized.answer().body == error_document("unauthorized"@),
        AppError::NotFound.answer().status == 404,
        AppError::NotFound.answer().body == error_document("not found"@),
        AppError::BadRequest(why).answer().status == 400,
        AppError::BadRequest(why).answer().body == error_document(why@),
        AppError::BadRequest(why).answer().content_type == Some("application/json"@),
        error_document(why@) == "{\"error\":"@ + outside::json_string(why@) + "}"@,
{
}

/// A refusal is told in its own words.
pub proof fn law_refusals_are_told<T>(value: T, error: Error)
    ensures
        told::<T>(Ok(value)) == Ok::<T, Seq<char>>(value),
        told::<T>(Err(error)) == Err::<T, Seq<char>>(error.message@),
        error@ == error.message@,
{
}

} // verus!
