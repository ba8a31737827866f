//! Logger service client for structured logging.

use vstd::prelude::*;
use crate::context::Context;
use crate::json::Json;
use crate::text::str_concat;
use crate::types::Message;

verus! {

/// Client for the host logger service.  Logging is fire-and-forget: a
/// failed boundary call never fails the block.
pub struct LoggerClient<'a> {
    ctx: &'a Context,
}

impl<'a> LoggerClient<'a> {
    /// Create a new logger client bound to the given context.
    pub fn new(ctx: &'a Context) -> (c: Self) {
        LoggerClient { ctx }
    }

    /// Log a message at the debug level.
    pub fn debug(&self, message: &str) {
        self.log("debug", message, None);
    }

    /// Log a message at the debug level with structured fields.
    pub fn debug_with(&self, message: &str, fields: Json) {
        self.log("debug", message, Some(fields));
    }

    /// Log a message at the info level.
    pub fn info(&self, message: &str) {
        self.log("info", message, None);
    }

    /// Log a message at the info level with structured fields.
    pub fn info_with(&self, message: &str, fields: Json) {
        self.log("info", message, Some(fields));
    }

    /// Log a message at the warn level.
    pub fn warn(&self, message: &str) {
        self.log("warn", message, None);
    }

    /// Log a message at the warn level with structured fields.
    pub fn warn_with(&self, message: &str, fields: Json) {
        self.log("warn", message, Some(fields));
    }

    /// Log a message at the error level.
    pub fn error(&self, message: &str) {
        self.log("error", message, None);
    }

    /// Log a message at the error level with structured fields.
    pub fn error_with(&self, message: &str, fields: Json) {
        self.log("error", message, Some(fields));
    }

    /// Build and send one structured log entry: a record holding the
    /// message text and, when given, the structured fields.
    pub fn log(&self, level: &str, message: &str, fields: Option<Json>) {
        let mut members: Vec<(String, Json)> = Vec::new();
        members.push((String::from_str("message"), Json::Str(String::from_str(message))));
        match fields {
            Some(f) => {
                members.push((String::from_str("fields"), f));
            },
            None => {},
        }
        let entry = Json::Obj(members);
        let body = crate::json::json_emit(&entry);
        let kind = str_concat("svc.logger.", level);
        let mut msg = Message::new(kind.as_str(), body.as_str().as_bytes_vec());
        msg.set_meta("level", level);
        let _ = self.ctx.send(&msg);
    }
}

} // verus!
