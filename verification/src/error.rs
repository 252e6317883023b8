//! Errors of the gateway and how HTTP clients see them. Errors of the transport are
//! answered in plain text, errors of the application with a JSON-RPC error.

use vstd::prelude::*;
use vstd::string::*;

use crate::child::{child_error_text, ChildError};
use crate::jsonrpc::{error_message, message_text, RawMessage};
use crate::session::SessionError;

verus! {

/// The request is no valid JSON-RPC.
pub const INVALID_REQUEST: i32 = -32600;

/// The session is closing, or the method is not allowed.
pub const SERVER_ERROR: i32 = -32000;

/// The child is dead, the initialization took too long, or an operation failed.
pub const INTERNAL_ERROR: i32 = -32603;

#[derive(Debug)]
pub enum GatewayError {
    BadRequest(String),
    NotAcceptable(String),
    UnsupportedMediaType(String),
    SessionNotFound,
    Conflict(String),
    PayloadTooLarge,
    HeaderTooLarge,
    ServiceUnavailable(String),
    /// The request is JSON but no JSON-RPC: the transport has nothing to complain of.
    InvalidRequest(String),
    MethodNotAllowed,
    SessionClosing,
    ChildDead,
    AutoInitTimeout,
    Internal(String),
    Child(ChildError),
    Io(String),
}

impl GatewayError {
    /// The error in words.
    pub open spec fn text(self) -> Seq<char> {
        match self {
            GatewayError::BadRequest(d) => "bad request: "@ + d@,
            GatewayError::NotAcceptable(d) => "not acceptable: "@ + d@,
            GatewayError::UnsupportedMediaType(d) => "unsupported media type: "@ + d@,
            GatewayError::SessionNotFound => "Invalid or missing session ID"@,
            GatewayError::Conflict(d) => "conflict: "@ + d@,
            GatewayError::PayloadTooLarge => "payload too large"@,
            GatewayError::HeaderTooLarge => "request header fields too large"@,
            GatewayError::ServiceUnavailable(d) => "service unavailable: "@ + d@,
            GatewayError::InvalidRequest(d) => "invalid request: "@ + d@,
            GatewayError::MethodNotAllowed => "Method not allowed."@,
            GatewayError::SessionClosing => "session closing"@,
            GatewayError::ChildDead => "child process dead"@,
            GatewayError::AutoInitTimeout => "auto-init timeout"@,
            GatewayError::Internal(d) => "internal error: "@ + d@,
            GatewayError::Child(e) => "child error: "@ + child_error_text(e),
            GatewayError::Io(e) => "I/O error: "@ + e@,
        }
    }

    pub open spec fn status(self) -> u16 {
        match self {
            GatewayError::BadRequest(_) => 400,
            GatewayError::SessionNotFound => 404,
            GatewayError::MethodNotAllowed => 405,
            GatewayError::NotAcceptable(_) => 406,
            GatewayError::Conflict(_) => 409,
            GatewayError::PayloadTooLarge => 413,
            GatewayError::UnsupportedMediaType(_) => 415,
            GatewayError::HeaderTooLarge => 431,
            GatewayError::InvalidRequest(_) => 200,
            GatewayError::SessionClosing => 503,
            GatewayError::ServiceUnavailable(_) => 503,
            GatewayError::ChildDead => 502,
            GatewayError::AutoInitTimeout => 502,
            GatewayError::Child(_) => 502,
            GatewayError::Internal(_) => 500,
            GatewayError::Io(_) => 500,
        }
    }

    /// The JSON-RPC error code; errors of the transport have none.
    pub open spec fn code(self) -> Option<i32> {
        match self {
            GatewayError::InvalidRequest(_) => Some(INVALID_REQUEST),
            GatewayError::MethodNotAllowed => Some(SERVER_ERROR),
            GatewayError::SessionClosing => Some(SERVER_ERROR),
            GatewayError::ChildDead => Some(INTERNAL_ERROR),
            GatewayError::AutoInitTimeout => Some(INTERNAL_ERROR),
            GatewayError::Internal(_) => Some(INTERNAL_ERROR),
            GatewayError::Child(_) => Some(INTERNAL_ERROR),
            GatewayError::Io(_) => Some(INTERNAL_ERROR),
            _ => None,
        }
    }

    /// The message of the JSON-RPC error.
    pub open spec fn rpc_text(self) -> Seq<char> {
        match self {
            GatewayError::InvalidRequest(d) => "Invalid request: "@ + d@,
            GatewayError::MethodNotAllowed => "Method not allowed."@,
            GatewayError::SessionClosing => "Session closing"@,
            GatewayError::ChildDead => "Child process dead"@,
            GatewayError::AutoInitTimeout => "Auto-init timeout"@,
            GatewayError::Internal(d) => "Internal error: "@ + d@,
            GatewayError::Child(e) => "Child error: "@ + child_error_text(e),
            GatewayError::Io(e) => "I/O error: "@ + e@,
            _ => self.text(),
        }
    }

    pub open spec fn type_text(self) -> Seq<char> {
        if self.code() is Some {
            "application/json"@
        } else {
            "text/plain"@
        }
    }

    /// What an HTTP client reads: a JSON-RPC error that answers `null`, or the words.
    pub open spec fn body_text(self) -> Seq<char> {
        match self.code() {
            Some(code) => message_text(error_message(None, code as int, self.rpc_text())),
            None => self.text(),
        }
    }

    /// The error in words.
    pub fn to_string(&self) -> (r: String)
        ensures
            r@ == self.text(),
    {
        match self {
            GatewayError::BadRequest(d) => "bad request: ".to_owned().concat(d.as_str()),
            GatewayError::NotAcceptable(d) => "not acceptable: ".to_owned().concat(d.as_str()),
            GatewayError::UnsupportedMediaType(d) => "unsupported media type: ".to_owned().concat(
                d.as_str(),
            ),
            GatewayError::SessionNotFound => "Invalid or missing session ID".to_owned(),
            GatewayError::Conflict(d) => "conflict: ".to_owned().concat(d.as_str()),
            GatewayError::PayloadTooLarge => "payload too large".to_owned(),
            GatewayError::HeaderTooLarge => "request header fields too large".to_owned(),
            GatewayError::ServiceUnavailable(d) => "service unavailable: ".to_owned().concat(
                d.as_str(),
            ),
            GatewayError::InvalidRequest(d) => "invalid request: ".to_owned().concat(d.as_str()),
            GatewayError::MethodNotAllowed => "Method not allowed.".to_owned(),
            GatewayError::SessionClosing => "session closing".to_owned(),
            GatewayError::ChildDead => "child process dead".to_owned(),
            GatewayError::AutoInitTimeout => "auto-init timeout".to_owned(),
            GatewayError::Internal(d) => "internal error: ".to_owned().concat(d.as_str()),
            GatewayError::Child(e) => {
                let t = e.to_string();
                "child error: ".to_owned().concat(t.as_str())
            },
            GatewayError::Io(e) => "I/O error: ".to_owned().concat(e.as_str()),
        }
    }

    /// The HTTP status of the answer.
    pub fn status_code(&self) -> (r: u16)
        ensures
            r == self.status(),
    {
        match self {
            GatewayError::BadRequest(_) => 400,
            GatewayError::SessionNotFound => 404,
            GatewayError::MethodNotAllowed => 405,
            GatewayError::NotAcceptable(_) => 406,
            GatewayError::Conflict(_) => 409,
            GatewayError::PayloadTooLarge => 413,
            GatewayError::UnsupportedMediaType(_) => 415,
            GatewayError::HeaderTooLarge => 431,
            GatewayError::InvalidRequest(_) => 200,
            GatewayError::SessionClosing => 503,
            GatewayError::ServiceUnavailable(_) => 503,
            GatewayError::ChildDead => 502,
            GatewayError::AutoInitTimeout => 502,
            GatewayError::Child(_) => 502,
            GatewayError::Internal(_) => 500,
            GatewayError::Io(_) => 500,
        }
    }

    /// The JSON-RPC error code, or nothing for errors of the transport.
    pub fn json_rpc_code(&self) -> (r: Option<i32>)
        ensures
            r == self.code(),
    {
        match self {
            GatewayError::InvalidRequest(_) => Some(INVALID_REQUEST),
            GatewayError::MethodNotAllowed => Some(SERVER_ERROR),
            GatewayError::SessionClosing => Some(SERVER_ERROR),
            GatewayError::ChildDead => Some(INTERNAL_ERROR),
            GatewayError::AutoInitTimeout => Some(INTERNAL_ERROR),
            GatewayError::Internal(_) => Some(INTERNAL_ERROR),
            GatewayError::Child(_) => Some(INTERNAL_ERROR),
            GatewayError::Io(_) => Some(INTERNAL_ERROR),
            _ => None,
        }
    }

    /// The content type of the answer.
    pub fn content_type(&self) -> (r: &'static str)
        ensures
            r@ == self.type_text(),
    {
        if self.json_rpc_code().is_some() {
            "application/json"
        } else {
            "text/plain"
        }
    }

    /// The body of the answer.
    pub fn body(&self) -> (r: String)
        ensures
            r@ == self.body_text(),
    {
        match self.json_rpc_code() {
            Some(code) => {
                let words = self.json_rpc_message();
                let msg = RawMessage::error_response(None, code, words.as_str());
                msg.to_json()
            },
            None => self.to_string(),
        }
    }

    fn json_rpc_message(&self) -> (r: String)
        ensures
            r@ == self.rpc_text(),
    {
        match self {
            GatewayError::InvalidRequest(d) => "Invalid request: ".to_owned().concat(d.as_str()),
            GatewayError::MethodNotAllowed => "Method not allowed.".to_owned(),
            GatewayError::SessionClosing => "Session closing".to_owned(),
            GatewayError::ChildDead => "Child process dead".to_owned(),
            GatewayError::AutoInitTimeout => "Auto-init timeout".to_owned(),
            GatewayError::Internal(d) => "Internal error: ".to_owned().concat(d.as_str()),
            GatewayError::Child(e) => {
                let t = e.to_string();
                "Child error: ".to_owned().concat(t.as_str())
            },
            GatewayError::Io(e) => "I/O error: ".to_owned().concat(e.as_str()),
            _ => self.to_string(),
        }
    }

    pub fn bad_request(detail: &str) -> (r: GatewayError)
        ensures
            r matches GatewayError::BadRequest(d) && d@ == detail@,
    {
        GatewayError::BadRequest(detail.to_owned())
    }

    pub fn invalid_request(msg: &str) -> (r: GatewayError)
        ensures
            r matches GatewayError::InvalidRequest(d) && d@ == msg@,
    {
        GatewayError::InvalidRequest(msg.to_owned())
    }

    pub fn invalid_session() -> (r: GatewayError)
        ensures
            r == GatewayError::SessionNotFound,
    {
        GatewayError::SessionNotFound
    }

    pub fn session_closing() -> (r: GatewayError)
        ensures
            r == GatewayError::SessionClosing,
    {
        GatewayError::SessionClosing
    }

    pub fn child_dead() -> (r: GatewayError)
        ensures
            r == GatewayError::ChildDead,
    {
        GatewayError::ChildDead
    }

    pub fn max_sessions() -> (r: GatewayError)
        ensures
            r matches GatewayError::ServiceUnavailable(d) && d@ == "max sessions reached"@,
    {
        GatewayError::ServiceUnavailable("max sessions reached".to_owned())
    }

    pub fn not_ready() -> (r: GatewayError)
        ensures
            r matches GatewayError::ServiceUnavailable(d) && d@ == "not ready"@,
    {
        GatewayError::ServiceUnavailable("not ready".to_owned())
    }

    pub fn missing_accept() -> (r: GatewayError)
        ensures
            r matches GatewayError::NotAcceptable(d) && d@ == "missing required Accept header"@,
    {
        GatewayError::NotAcceptable("missing required Accept header".to_owned())
    }

    pub fn wrong_content_type(expected: &str, got: &str) -> (r: GatewayError)
        ensures
            r matches GatewayError::UnsupportedMediaType(d) && d@ == "expected "@ + expected@
                + ", got "@ + got@,
    {
        GatewayError::UnsupportedMediaType(
            "expected ".to_owned().concat(expected).concat(", got ").concat(got),
        )
    }

    pub fn payload_too_large() -> (r: GatewayError)
        ensures
            r == GatewayError::PayloadTooLarge,
    {
        GatewayError::PayloadTooLarge
    }

    pub fn header_too_large() -> (r: GatewayError)
        ensures
            r == GatewayError::HeaderTooLarge,
    {
        GatewayError::HeaderTooLarge
    }

    pub fn method_not_allowed() -> (r: GatewayError)
        ensures
            r == GatewayError::MethodNotAllowed,
    {
        GatewayError::MethodNotAllowed
    }

    pub fn sse_stream_conflict() -> (r: GatewayError)
        ensures
            r matches GatewayError::Conflict(d) && d@
                == "SSE stream already open for this session"@,
    {
        GatewayError::Conflict("SSE stream already open for this session".to_owned())
    }

    pub fn auto_init_timeout() -> (r: GatewayError)
        ensures
            r == GatewayError::AutoInitTimeout,
    {
        GatewayError::AutoInitTimeout
    }

    /// How an unusable session is reported.
    pub fn of_session(err: SessionError) -> (r: GatewayError)
        ensures
            match err {
                SessionError::NotFound => r == GatewayError::SessionNotFound,
                SessionError::Closing => r == GatewayError::SessionClosing,
                SessionError::MaxSessionsReached => r matches GatewayError::ServiceUnavailable(d)
                    && d@ == "max sessions reached"@,
            },
    {
        match err {
            SessionError::NotFound => GatewayError::SessionNotFound,
            SessionError::Closing => GatewayError::SessionClosing,
            SessionError::MaxSessionsReached => GatewayError::max_sessions(),
        }
    }
}

impl From<SessionError> for GatewayError {
    fn from(err: SessionError) -> (r: GatewayError)
        ensures
            match err {
                SessionError::NotFound => r == GatewayError::SessionNotFound,
                SessionError::Closing => r == GatewayError::SessionClosing,
                SessionError::MaxSessionsReached => r matches GatewayError::ServiceUnavailable(d)
                    && d@ == "max sessions reached"@,
            },
    {
        GatewayError::of_session(err)
    }
}

impl vstd::std_specs::convert::FromSpecImpl<SessionError> for GatewayError {
    open spec fn obeys_from_spec() -> bool {
        false
    }

    open spec fn from_spec(err: SessionError) -> GatewayError {
        GatewayError::SessionNotFound
    }
}

impl From<ChildError> for GatewayError {
    fn from(err: ChildError) -> (r: GatewayError)
        ensures
            r == GatewayError::Child(err),
    {
        GatewayError::Child(err)
    }
}

impl vstd::std_specs::convert::FromSpecImpl<ChildError> for GatewayError {
    open spec fn obeys_from_spec() -> bool {
        true
    }

    open spec fn from_spec(err: ChildError) -> GatewayError {
        GatewayError::Child(err)
    }
}

/// An error is answered in plain text exactly when it is one of the transport, that is,
/// when it has no JSON-RPC code; its body is then its words.
pub proof fn law_plain_text_iff_no_code(e: GatewayError)
    ensures
        e.type_text() == "text/plain"@ <==> e.code() is None,
        e.code() is None ==> e.body_text() == e.text(),
{
    reveal_strlit("text/plain");
    reveal_strlit("application/json");
    assert("text/plain"@.len() == 10 && "application/json"@.len() == 16);
}

/// Every error but an invalid request is answered with an error status.
pub proof fn law_errors_have_error_status(e: GatewayError)
    ensures
        !(e is InvalidRequest) ==> 400 <= e.status() < 600,
        e is InvalidRequest ==> e.status() == 200 && e.code() == Some(INVALID_REQUEST),
{
}

/// The status of an answer says whose fault it is: 4xx where the request is at fault, 5xx
/// where the gateway or the child is.
pub proof fn law_status_tells_whose_fault_it_is(e: GatewayError)
    ensures
        e is BadRequest ==> e.status() == 400,
        e is SessionNotFound ==> e.status() == 404,
        e is MethodNotAllowed ==> e.status() == 405,
        e is NotAcceptable ==> e.status() == 406,
        e is Conflict ==> e.status() == 409,
        e is PayloadTooLarge ==> e.status() == 413,
        e is UnsupportedMediaType ==> e.status() == 415,
        e is HeaderTooLarge ==> e.status() == 431,
        e is Internal || e is Io ==> e.status() == 500,
        e is ChildDead || e is AutoInitTimeout || e is Child ==> e.status() == 502,
        e is ServiceUnavailable || e is SessionClosing ==> e.status() == 503,
{
}

/// The body of an error that a JSON-RPC client is to read holds its code and its words, and no
/// id; the body of another holds its words.
pub proof fn law_error_body_holds_code_and_words(e: GatewayError)
    ensures
        ({
            let m = error_message(None, e.code()->Some_0 as int, e.rpc_text());
            &&& e.code() is Some ==> e.body_text() == message_text(m) && e.type_text()
                == "application/json"@
            &&& e.code() is None ==> e.body_text() == e.text() && e.type_text() == "text/plain"@
            &&& e is InvalidRequest ==> e.code() == Some(-32600i32)
            &&& e is MethodNotAllowed || e is SessionClosing ==> e.code() == Some(-32000i32)
            &&& e is ChildDead || e is AutoInitTimeout || e is Internal || e is Child || e is Io
                ==> e.code() == Some(-32603i32)
        }),
{
}

/// The details of an error are in its words.
pub proof fn law_error_words_hold_the_details(e: GatewayError, d: String)
    ensures
        e == GatewayError::BadRequest(d) ==> e.text() == "bad request: "@ + d@,
        e == GatewayError::NotAcceptable(d) ==> e.text() == "not acceptable: "@ + d@,
        e == GatewayError::UnsupportedMediaType(d) ==> e.text() == "unsupported media type: "@ + d@,
        e == GatewayError::Conflict(d) ==> e.text() == "conflict: "@ + d@,
        e == GatewayError::ServiceUnavailable(d) ==> e.text() == "service unavailable: "@ + d@,
        e == GatewayError::InvalidRequest(d) ==> e.rpc_text() == "Invalid request: "@ + d@,
        e == GatewayError::Internal(d) ==> e.rpc_text() == "Internal error: "@ + d@,
        e == GatewayError::Io(d) ==> e.rpc_text() == "I/O error: "@ + d@,
{
}

} // verus!
