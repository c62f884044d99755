//! What a handler answers, and how the answer stands on the wire.

use vstd::prelude::*;
use vstd::string::StringExecFns;
use crate::decimal::{decimal_string, decimal_text};

verus! {

/// A handler's answer: a status and an optional body.
#[derive(Debug)]
pub struct HttpResponse {
    pub status: HttpStatus,
    pub body: Option<String>,
}

/// The statuses the engine knows.
#[derive(Debug, Clone, Copy, PartialEq, Eq, Structural)]
pub enum HttpStatus {
    Okay,
    BadRequest,
    NotFound,
    InternalServerError,
}

/// A status as it is written: its code and its reason phrase.
#[derive(Debug)]
pub struct HttpStatusDescription {
    pub status_code: usize,
    pub status_text: String,
}

/// The code of a status.
pub open spec fn spec_status_code(status: HttpStatus) -> nat {
    match status {
        HttpStatus::Okay => 200,
        HttpStatus::BadRequest => 400,
        HttpStatus::NotFound => 404,
        HttpStatus::InternalServerError => 500,
    }
}

/// The reason phrase of a status.
pub open spec fn spec_status_text(status: HttpStatus) -> Seq<char> {
    match status {
        HttpStatus::Okay => "OK"@,
        HttpStatus::BadRequest => "Bad Request"@,
        HttpStatus::NotFound => "Not Found"@,
        HttpStatus::InternalServerError => "Internal Server Error"@,
    }
}

/// The text of an optional body: nothing where there is none.
pub open spec fn body_text(body: Option<String>) -> Seq<char> {
    match body {
        Some(text) => text@,
        None => Seq::empty(),
    }
}

/// A response on the wire: the status line, an empty line, then the body.
/// Lines end in a bare line feed.
pub open spec fn spec_response_message(status: HttpStatus, body: Seq<char>) -> Seq<char> {
    "HTTP/1.1 "@ + decimal_text(spec_status_code(status)) + " "@ + spec_status_text(status)
        + "\n\n"@ + body
}

impl HttpResponse {
    /// A response with status `Okay` and the given body.
    pub fn ok(body: Option<String>) -> (response: HttpResponse)
        ensures
            response.status == HttpStatus::Okay,
            response.body == body,
    {
        HttpResponse { status: HttpStatus::Okay, body }
    }

    /// The bodiless response that answers a request that could not be parsed.
    pub fn bad_request() -> (response: HttpResponse)
        ensures
            response.status == HttpStatus::BadRequest,
            response.body.is_none(),
    {
        HttpResponse { status: HttpStatus::BadRequest, body: None }
    }

    /// The bodiless response that answers a request that no route matches.
    pub fn not_found() -> (response: HttpResponse)
        ensures
            response.status == HttpStatus::NotFound,
            response.body.is_none(),
    {
        HttpResponse { status: HttpStatus::NotFound, body: None }
    }

    /// The bytes to send for this response, as text.
    pub fn to_message(&self) -> (message: String)
        ensures
            message@ == spec_response_message(self.status, body_text(self.body)),
    {
        let description = self.status.get_status_info();
        let mut message = String::from_str("HTTP/1.1 ");
        let code = decimal_string(description.status_code);
        message.append(code.as_str());
        message.append(" ");
        message.append(description.status_text.as_str());
        message.append("\n\n");
        match &self.body {
            Some(body) => {
                message.append(body.as_str());
            },
            None => {
                assert(message@ + Seq::<char>::empty() =~= message@);
            },
        }
        message
    }
}

impl HttpStatus {
    /// The code and the reason phrase of this status.
    pub fn get_status_info(&self) -> (description: HttpStatusDescription)
        ensures
            description.status_code == spec_status_code(*self),
            description.status_text@ == spec_status_text(*self),
    {
        match self {
            HttpStatus::Okay => HttpStatusDescription {
                status_code: 200,
                status_text: String::from_str("OK"),
            },
            HttpStatus::BadRequest => HttpStatusDescription {
                status_code: 400,
                status_text: String::from_str("Bad Request"),
            },
            HttpStatus::NotFound => HttpStatusDescription {
                status_code: 404,
                status_text: String::from_str("Not Found"),
            },
            HttpStatus::InternalServerError => HttpStatusDescription {
                status_code: 500,
                status_text: String::from_str("Internal Server Error"),
            },
        }
    }
}

} // verus!
