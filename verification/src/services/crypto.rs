//! Crypto service client for hashing, token signing, and verification.

use vstd::prelude::*;
use crate::context::Context;
use crate::json::json_parse;
use crate::json::sp_json;
use crate::json::Json;
use crate::text::bytes_chars;
use crate::text::bytes_to_string_lossy;
use crate::text::str_from_utf8;
use crate::text::u64_to_string;
use crate::types::Action;
use crate::types::Message;
use crate::types::Result_;
use crate::types::WaferError;

verus! {

/// A signed token as the host returns it.
#[derive(Debug)]
pub struct TokenResponse {
    pub token: String,
}

/// Verified token claims as the host returns them: named claim values.
#[derive(Debug)]
pub struct TokenClaims {
    pub claims: Vec<(String, Json)>,
}

/// What an operation expecting a text reply makes of a host outcome: the
/// reply's error if it failed, a `no_response` error when the reply
/// carries no payload, otherwise the payload as text.
pub fn interpret_text_reply(result: Result_, fallback: &str) -> (r: Result<String, WaferError>)
    ensures
        result.action == Action::Error ==> (r matches Err(e) && (match result.error {
            Some(e0) => e.code@ == e0.code@ && e.message@ == e0.message@ && e.meta@ == e0.meta@,
            None => e.code@ == "unknown"@ && e.message@ == fallback@,
        })),
        result.action != Action::Error && result.response is None ==> (r matches Err(e) && e.code@
            == "no_response"@),
        match result.response {
            Some(p) => result.action != Action::Error ==> (r matches Ok(s) && (
            vstd::utf8::valid_utf8(p.data@) ==> s@ == vstd::utf8::decode_utf8(p.data@))),
            None => true,
        },
{
    if result.action == Action::Error {
        return Err(
            match result.error {
                Some(e) => e,
                None => WaferError::new("unknown", fallback),
            },
        );
    }
    match result.response {
        Some(p) => Ok(bytes_to_string_lossy(p.data.as_slice())),
        None => Err(WaferError::new("no_response", "host returned no response data")),
    }
}

/// What an acknowledgement-only operation makes of a host outcome.
pub fn interpret_ack_reply(result: Result_, fallback: &str) -> (r: Result<(), WaferError>)
    ensures
        r is Err <==> result.action == Action::Error,
        result.action == Action::Error ==> (r matches Err(e) && (match result.error {
            Some(e0) => e.code@ == e0.code@ && e.message@ == e0.message@ && e.meta@ == e0.meta@,
            None => e.code@ == "unknown"@ && e.message@ == fallback@,
        })),
{
    if result.action == Action::Error {
        return Err(
            match result.error {
                Some(e) => e,
                None => WaferError::new("unknown", fallback),
            },
        );
    }
    Ok(())
}

/// What a claims-verification call makes of a host outcome: the error,
/// `no_response`, or the reply payload parsed as a JSON value.
pub fn interpret_claims_reply(result: Result_) -> (r: Result<Json, WaferError>)
    ensures
        result.action == Action::Error ==> r is Err,
        result.action != Action::Error && result.response is None ==> (r matches Err(e) && e.code@
            == "no_response"@),
        match result.response {
            Some(p) => result.action != Action::Error ==> (match bytes_chars(p.data@) {
                Some(cs) => (r matches Ok(j) ==> sp_json(cs) == Some(j@)) && (r matches Err(e)
                    ==> e.code@ == "decode_error"@ && sp_json(cs) is None),
                None => r matches Err(e) && e.code@ == "decode_error"@,
            }),
            None => true,
        },
{
    if result.action == Action::Error {
        return Err(
            match result.error {
                Some(e) => e,
                None => WaferError::new("unknown", "crypto verify failed"),
            },
        );
    }
    let p = match result.response {
        Some(p) => p,
        None => {
            return Err(WaferError::new("no_response", "host returned no response data"));
        },
    };
    let s = match str_from_utf8(p.data.as_slice()) {
        Some(s) => s,
        None => {
            return Err(WaferError::new("decode_error", "claims are not valid text"));
        },
    };
    match json_parse(s) {
        Ok(j) => Ok(j),
        Err(e) => Err(WaferError::new("decode_error", e.message.as_str())),
    }
}

/// Client for the host crypto service.
pub struct CryptoClient<'a> {
    ctx: &'a Context,
}

impl<'a> CryptoClient<'a> {
    /// Create a new crypto client bound to the given context.
    pub fn new(ctx: &'a Context) -> (c: Self) {
        CryptoClient { ctx }
    }

    /// Produce a one-way hash of the given password.  With no host
    /// attached the reply carries no payload, so this reports
    /// `no_response`.
    pub fn hash(&self, password: &str) -> (r: Result<String, WaferError>)
        ensures
            r matches Err(e) && e.code@ == "no_response"@,
    {
        let msg = Message::new("svc.crypto.hash", password.as_bytes_vec());
        let result = self.ctx.send(&msg);
        interpret_text_reply(result, "crypto hash failed")
    }

    /// Compare a password against a previously computed hash.
    pub fn compare_hash(&self, password: &str, hash: &str) -> (r: Result<(), WaferError>)
        ensures
            r is Ok,
    {
        let mut msg = Message::new("svc.crypto.compare_hash", password.as_bytes_vec());
        msg.set_meta("hash", hash);
        let result = self.ctx.send(&msg);
        interpret_ack_reply(result, "crypto compare_hash failed")
    }

    /// Create a signed token from a claims value with the given expiry
    /// in seconds.
    pub fn sign(&self, claims: &Json, expiry_secs: u64) -> (r: Result<String, WaferError>)
        ensures
            r matches Err(e) && e.code@ == "no_response"@,
    {
        let body = crate::json::json_emit(claims);
        let mut msg = Message::new("svc.crypto.sign", body.as_str().as_bytes_vec());
        let expiry = u64_to_string(expiry_secs);
        msg.set_meta("expiry", expiry.as_str());
        let result = self.ctx.send(&msg);
        interpret_text_reply(result, "crypto sign failed")
    }

    /// Verify a token and return its claims.
    pub fn verify(&self, token: &str) -> (r: Result<Json, WaferError>)
        ensures
            r matches Err(e) && e.code@ == "no_response"@,
    {
        let msg = Message::new("svc.crypto.verify", token.as_bytes_vec());
        let result = self.ctx.send(&msg);
        interpret_claims_reply(result)
    }
}

} // verus!
