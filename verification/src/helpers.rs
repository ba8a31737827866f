//! Helper constructors for common response and error patterns, and a
//! builder for responses with headers and cookies.

use vstd::prelude::*;
use crate::json::emit;
use crate::json::json_emit;
use crate::json::Json;
use crate::meta::spec_insert;
use crate::meta::MetaMap;
use crate::meta::META_RESP_CONTENT_TYPE;
use crate::meta::META_RESP_COOKIE_PREFIX;
use crate::meta::META_RESP_HEADER_PREFIX;
use crate::meta::META_RESP_STATUS;
use crate::text::spec_dec_str;
use crate::text::str_concat;
use crate::text::u64_to_string;
use crate::types::Action;
use crate::types::Message;
use crate::types::Response;
use crate::types::Result_;
use crate::types::WaferError;
use vstd::utf8::encode_utf8;

verus! {

/// Machine-readable codes for the standard failure classes.
#[derive(Debug, Clone, Copy, PartialEq, Eq, Structural)]
pub enum ErrorCode {
    NotFound,
    PermissionDenied,
    AlreadyExists,
    InvalidArgument,
    Internal,
    Unauthenticated,
}

/// The token for each error code.
pub open spec fn error_code_str(c: ErrorCode) -> Seq<char> {
    match c {
        ErrorCode::NotFound => "not_found"@,
        ErrorCode::PermissionDenied => "permission_denied"@,
        ErrorCode::AlreadyExists => "already_exists"@,
        ErrorCode::InvalidArgument => "invalid_argument"@,
        ErrorCode::Internal => "internal"@,
        ErrorCode::Unauthenticated => "unauthenticated"@,
    }
}

impl ErrorCode {
    /// The token of this error code.
    pub fn as_str(&self) -> (r: &'static str)
        ensures
            r@ == error_code_str(*self),
    {
        match self {
            ErrorCode::NotFound => "not_found",
            ErrorCode::PermissionDenied => "permission_denied",
            ErrorCode::AlreadyExists => "already_exists",
            ErrorCode::InvalidArgument => "invalid_argument",
            ErrorCode::Internal => "internal",
            ErrorCode::Unauthenticated => "unauthenticated",
        }
    }
}

/// The response metadata a plain response carries: the status, and the
/// content type when one is given.
pub open spec fn spec_respond_meta(status: u16, content_type: Seq<char>) -> Seq<
    (Seq<char>, Seq<char>),
> {
    let base = seq![(META_RESP_STATUS@, spec_dec_str(status as int))];
    if content_type.len() == 0 {
        base
    } else {
        base.push((META_RESP_CONTENT_TYPE@, content_type))
    }
}

/// The metadata an error outcome carries: the status alone.
pub open spec fn spec_status_meta(status: u16) -> Seq<(Seq<char>, Seq<char>)> {
    seq![(META_RESP_STATUS@, spec_dec_str(status as int))]
}

/// Build a respond outcome with a status code, body, and content type.
pub fn respond(msg: Message, status: u16, data: Vec<u8>, content_type: &str) -> (r: Result_)
    ensures
        r.action == Action::Respond,
        r.message == Some(msg),
        r.error is None,
        r.response matches Some(p) && p.data == data && p.meta@ == spec_respond_meta(
            status,
            content_type@,
        ),
{
    let mut meta = MetaMap::new();
    meta.insert(String::from_str(META_RESP_STATUS), u64_to_string(status as u64));
    proof {
        assert(meta@ =~= seq![(META_RESP_STATUS@, spec_dec_str(status as int))]);
    }
    if content_type.unicode_len() > 0 {
        let ghost pre = meta@;
        meta.insert(String::from_str(META_RESP_CONTENT_TYPE), String::from_str(content_type));
        proof {
            reveal_strlit("resp.status");
            reveal_strlit("resp.content_type");
            assert(META_RESP_STATUS@.len() == 11 && META_RESP_CONTENT_TYPE@.len() == 17);
            assert(META_RESP_STATUS@ != META_RESP_CONTENT_TYPE@);
            crate::meta::lemma_insert_is_push(pre, META_RESP_CONTENT_TYPE@, content_type@);
            assert(meta@ =~= spec_respond_meta(status, content_type@));
        }
    }
    msg.respond(Response { data, meta })
}

/// Build an error outcome with a status code, error code, and message.
pub fn error(msg: Message, status: u16, err_code: ErrorCode, err_message: &str) -> (r: Result_)
    ensures
        r.action == Action::Error,
        r.message == Some(msg),
        r.response is None,
        r.error matches Some(e) && e.code@ == error_code_str(err_code) && e.message@
            == err_message@ && e.meta@ == spec_status_meta(status),
{
    let mut meta = MetaMap::new();
    meta.insert(String::from_str(META_RESP_STATUS), u64_to_string(status as u64));
    proof {
        assert(meta@ =~= spec_status_meta(status));
    }
    let e = WaferError {
        code: String::from_str(err_code.as_str()),
        message: String::from_str(err_message),
        meta,
    };
    msg.err(e)
}

/// A 400 bad-request error.
pub fn err_bad_request(msg: Message, message: &str) -> (r: Result_)
    ensures
        r.action == Action::Error,
        r.message == Some(msg),
        r.response is None,
        r.error matches Some(e) && e.code@ == error_code_str(ErrorCode::InvalidArgument)
            && e.message@ == message@ && e.meta@ == spec_status_meta(400),
{
    error(msg, 400, ErrorCode::InvalidArgument, message)
}

/// A 401 unauthorized error.
pub fn err_unauthorized(msg: Message, message: &str) -> (r: Result_)
    ensures
        r.action == Action::Error,
        r.message == Some(msg),
        r.response is None,
        r.error matches Some(e) && e.code@ == error_code_str(ErrorCode::Unauthenticated)
            && e.message@ == message@ && e.meta@ == spec_status_meta(401),
{
    error(msg, 401, ErrorCode::Unauthenticated, message)
}

/// A 403 forbidden error.
pub fn err_forbidden(msg: Message, message: &str) -> (r: Result_)
    ensures
        r.action == Action::Error,
        r.message == Some(msg),
        r.response is None,
        r.error matches Some(e) && e.code@ == error_code_str(ErrorCode::PermissionDenied)
            && e.message@ == message@ && e.meta@ == spec_status_meta(403),
{
    error(msg, 403, ErrorCode::PermissionDenied, message)
}

/// A 404 not-found error.
pub fn err_not_found(msg: Message, message: &str) -> (r: Result_)
    ensures
        r.action == Action::Error,
        r.message == Some(msg),
        r.response is None,
        r.error matches Some(e) && e.code@ == error_code_str(ErrorCode::NotFound) && e.message@
            == message@ && e.meta@ == spec_status_meta(404),
{
    error(msg, 404, ErrorCode::NotFound, message)
}

/// A 409 conflict error.
pub fn err_conflict(msg: Message, message: &str) -> (r: Result_)
    ensures
        r.action == Action::Error,
        r.message == Some(msg),
        r.response is None,
        r.error matches Some(e) && e.code@ == error_code_str(ErrorCode::AlreadyExists)
            && e.message@ == message@ && e.meta@ == spec_status_meta(409),
{
    error(msg, 409, ErrorCode::AlreadyExists, message)
}

/// A 422 validation error.
pub fn err_validation(msg: Message, message: &str) -> (r: Result_)
    ensures
        r.action == Action::Error,
        r.message == Some(msg),
        r.response is None,
        r.error matches Some(e) && e.code@ == error_code_str(ErrorCode::InvalidArgument)
            && e.message@ == message@ && e.meta@ == spec_status_meta(422),
{
    error(msg, 422, ErrorCode::InvalidArgument, message)
}

/// A 500 internal error.
pub fn err_internal(msg: Message, message: &str) -> (r: Result_)
    ensures
        r.action == Action::Error,
        r.message == Some(msg),
        r.response is None,
        r.error matches Some(e) && e.code@ == error_code_str(ErrorCode::Internal) && e.message@
            == message@ && e.meta@ == spec_status_meta(500),
{
    error(msg, 500, ErrorCode::Internal, message)
}

/// Serialize a JSON value as the body of a respond outcome with the
/// given status.
pub fn json_respond(msg: Message, status: u16, data: &Json) -> (r: Result_)
    ensures
        r.action == Action::Respond,
        r.message == Some(msg),
        r.error is None,
        r.response matches Some(p) && p.data@ == encode_utf8(emit(data@)) && p.meta@
            == spec_respond_meta(status, "application/json"@),
{
    let body = json_emit(data);
    respond(msg, status, body.as_str().as_bytes_vec(), "application/json")
}

/// A builder for responses with headers, cookies, and a status code.
pub struct ResponseBuilder {
    pub msg: Message,
    pub status: u16,
    pub meta: MetaMap,
    pub cookie_count: usize,
}

impl ResponseBuilder {
    /// Start a response with the given message and status.
    pub fn new(msg: Message, status: u16) -> (b: ResponseBuilder)
        ensures
            b.msg == msg,
            b.status == status,
            b.cookie_count == 0,
            b.meta@ == spec_status_meta(status),
    {
        let mut meta = MetaMap::new();
        meta.insert(String::from_str(META_RESP_STATUS), u64_to_string(status as u64));
        proof {
            assert(meta@ =~= spec_status_meta(status));
        }
        ResponseBuilder { msg, status, meta, cookie_count: 0 }
    }

    /// Add a cookie to set on the response; each cookie gets the next
    /// numbered key.
    pub fn set_cookie(self, cookie: &str) -> (b: ResponseBuilder)
        requires
            self.cookie_count < usize::MAX,
        ensures
            b.msg == self.msg,
            b.status == self.status,
            b.cookie_count == self.cookie_count + 1,
            b.meta@ == spec_insert(
                self.meta@,
                META_RESP_COOKIE_PREFIX@ + spec_dec_str(self.cookie_count as int),
                cookie@,
            ),
    {
        let mut b = self;
        let num = u64_to_string(b.cookie_count as u64);
        let key = str_concat(META_RESP_COOKIE_PREFIX, num.as_str());
        b.meta.insert(key, String::from_str(cookie));
        b.cookie_count = b.cookie_count + 1;
        b
    }

    /// Add a response header.
    pub fn set_header(self, key: &str, value: &str) -> (b: ResponseBuilder)
        ensures
            b.msg == self.msg,
            b.status == self.status,
            b.cookie_count == self.cookie_count,
            b.meta@ == spec_insert(self.meta@, META_RESP_HEADER_PREFIX@ + key@, value@),
    {
        let mut b = self;
        let k = str_concat(META_RESP_HEADER_PREFIX, key);
        b.meta.insert(k, String::from_str(value));
        b
    }

    /// Serialize a JSON value as the body and finish the response.
    pub fn json(self, data: &Json) -> (r: Result_)
        ensures
            r.action == Action::Respond,
            r.message == Some(self.msg),
            r.error is None,
            r.response matches Some(p) && p.data@ == encode_utf8(emit(data@)) && p.meta@
                == spec_insert(self.meta@, META_RESP_CONTENT_TYPE@, "application/json"@),
    {
        let mut b = self;
        b.meta.insert(
            String::from_str(META_RESP_CONTENT_TYPE),
            String::from_str("application/json"),
        );
        let body = json_emit(data);
        b.msg.respond(Response { data: body.as_str().as_bytes_vec(), meta: b.meta })
    }

    /// Set a raw body with the given content type and finish the
    /// response.
    pub fn body(self, data: Vec<u8>, content_type: &str) -> (r: Result_)
        ensures
            r.action == Action::Respond,
            r.message == Some(self.msg),
            r.error is None,
            r.response matches Some(p) && p.data == data && p.meta@ == if content_type@.len() == 0 {
                self.meta@
            } else {
                spec_insert(self.meta@, META_RESP_CONTENT_TYPE@, content_type@)
            },
    {
        let mut b = self;
        if content_type.unicode_len() > 0 {
            b.meta.insert(String::from_str(META_RESP_CONTENT_TYPE), String::from_str(content_type));
        }
        b.msg.respond(Response { data, meta: b.meta })
    }
}

/// Start a response builder; a shorthand for `ResponseBuilder::new`.
pub fn new_response(msg: Message, status: u16) -> (b: ResponseBuilder)
    ensures
        b.msg == msg,
        b.status == status,
        b.cookie_count == 0,
        b.meta@ == spec_status_meta(status),
{
    ResponseBuilder::new(msg, status)
}

} // verus!
