//! Config service client for key-value configuration access.

use vstd::prelude::*;
use crate::context::Context;
use crate::text::bytes_to_string_lossy;
use crate::types::Action;
use crate::types::Message;
use crate::types::Result_;
use crate::types::WaferError;

verus! {

/// What a config lookup makes of a host reply: nothing on an error or
/// missing response, otherwise the response payload as text.
pub fn interpret_config_get(result: Result_) -> (r: Option<String>)
    ensures
        r is None <==> (result.action == Action::Error || result.response is None),
        match result.response {
            Some(p) => result.action != Action::Error ==> (r matches Some(s) && (
            vstd::utf8::valid_utf8(p.data@) ==> s@ == vstd::utf8::decode_utf8(p.data@))),
            None => true,
        },
{
    if result.action == Action::Error {
        return None;
    }
    match result.response {
        Some(p) => Some(bytes_to_string_lossy(p.data.as_slice())),
        None => None,
    }
}

/// What a config store makes of a host reply: the reply's error if it
/// carries one, a generic failure on an error without detail, success
/// otherwise.
pub fn interpret_config_set(result: Result_) -> (r: Result<(), WaferError>)
    ensures
        r is Err <==> result.action == Action::Error,
        result.action == Action::Error ==> (r matches Err(e) && (match result.error {
            Some(e0) => e.code@ == e0.code@ && e.message@ == e0.message@ && e.meta@ == e0.meta@,
            None => e.code@ == "unknown"@,
        })),
{
    if result.action == Action::Error {
        return Err(
            match result.error {
                Some(e) => e,
                None => WaferError::new("unknown", "config set failed"),
            },
        );
    }
    Ok(())
}

/// Client for the host config service.
pub struct ConfigClient<'a> {
    ctx: &'a Context,
}

impl<'a> ConfigClient<'a> {
    /// Create a new config client bound to the given context.
    pub fn new(ctx: &'a Context) -> (c: Self) {
        ConfigClient { ctx }
    }

    /// Retrieve a config value by key.  With no host attached the
    /// context's reply carries no response, so the lookup yields
    /// nothing.
    pub fn get(&self, key: &str) -> (r: Option<String>)
        ensures
            r is None,
    {
        let mut msg = Message::new("svc.config.get", Vec::new());
        msg.set_meta("key", key);
        let result = self.ctx.send(&msg);
        interpret_config_get(result)
    }

    /// Retrieve a config value, falling back to `default_value` when the
    /// key is absent.
    pub fn get_default(&self, key: &str, default_value: &str) -> (r: String)
        ensures
            r@ == default_value@,
    {
        match self.get(key) {
            Some(v) => v,
            None => String::from_str(default_value),
        }
    }

    /// Store a config key-value pair.  With no host attached the
    /// context's reply is a plain continue, so this succeeds.
    pub fn set(&self, key: &str, value: &str) -> (r: Result<(), WaferError>)
        ensures
            r is Ok,
    {
        let mut msg = Message::new("svc.config.set", value.as_bytes_vec());
        msg.set_meta("key", key);
        let result = self.ctx.send(&msg);
        interpret_config_set(result)
    }
}

} // verus!
