//! Storage service client for object storage operations.

use vstd::prelude::*;
use crate::context::Context;
use crate::meta::seq_lookup;
use crate::types::Action;
use crate::types::Message;
use crate::types::Result_;
use crate::types::WaferError;

verus! {

/// Metadata about a stored object.
#[derive(Debug)]
pub struct ObjectInfo {
    pub key: String,
    pub size: i64,
    pub content_type: String,
}

/// A stored object: its content bytes together with metadata.
#[derive(Debug)]
pub struct Object {
    pub data: Vec<u8>,
    pub info: ObjectInfo,
}

/// What an object fetch makes of a host outcome: the error, a
/// `no_response` failure, or the object with its size and the reply's
/// `content_type` metadata.
pub fn interpret_storage_get(result: Result_, key: &str) -> (r: Result<Object, WaferError>)
    ensures
        result.action == Action::Error ==> r is Err,
        result.action != Action::Error && result.response is None ==> (r matches Err(e) && e.code@
            == "no_response"@),
        match result.response {
            Some(p) => result.action != Action::Error ==> (r matches Ok(o) && o.data@ == p.data@
                && o.info.key@ == key@ && o.info.size == p.data@.len() as i64
                && o.info.content_type@
                == (match seq_lookup(p.meta@, "content_type"@) {
                Some(v) => v,
                None => Seq::<char>::empty(),
            })),
            None => true,
        },
{
    if result.action == Action::Error {
        return Err(
            match result.error {
                Some(e) => e,
                None => WaferError::new("unknown", "storage get failed"),
            },
        );
    }
    let p = match result.response {
        Some(p) => p,
        None => {
            return Err(WaferError::new("no_response", "host returned no response data"));
        },
    };
    let ct = match p.meta.get("content_type") {
        Some(v) => v.clone(),
        None => {
            proof {
                reveal_strlit("");
            }
            String::from_str("")
        },
    };
    let size = #[verifier::truncate] (p.data.len() as i64);
    Ok(
        Object {
            info: ObjectInfo { key: String::from_str(key), size, content_type: ct },
            data: p.data,
        },
    )
}

/// Client for the host storage service.
pub struct StorageClient<'a> {
    ctx: &'a Context,
}

impl<'a> StorageClient<'a> {
    /// Create a new storage client bound to the given context.
    pub fn new(ctx: &'a Context) -> (c: Self) {
        StorageClient { ctx }
    }

    /// Store an object in the given bucket under the given key.
    pub fn put(&self, bucket: &str, key: &str, data: &[u8], content_type: &str) -> (r: Result<
        (),
        WaferError,
    >)
        ensures
            r is Ok,
    {
        let mut msg = Message::new("svc.storage.put", vstd::slice::slice_to_vec(data));
        msg.set_meta("bucket", bucket);
        msg.set_meta("key", key);
        if content_type.unicode_len() > 0 {
            msg.set_meta("content_type", content_type);
        }
        let result = self.ctx.send(&msg);
        crate::services::crypto::interpret_ack_reply(result, "storage put failed")
    }

    /// Retrieve an object from the given bucket and key.  With no host
    /// attached the reply carries no payload, so this reports
    /// `no_response`.
    pub fn get(&self, bucket: &str, key: &str) -> (r: Result<Object, WaferError>)
        ensures
            r matches Err(e) && e.code@ == "no_response"@,
    {
        let mut msg = Message::new("svc.storage.get", Vec::new());
        msg.set_meta("bucket", bucket);
        msg.set_meta("key", key);
        let result = self.ctx.send(&msg);
        interpret_storage_get(result, key)
    }

    /// Delete an object from the given bucket and key.
    pub fn delete(&self, bucket: &str, key: &str) -> (r: Result<(), WaferError>)
        ensures
            r is Ok,
    {
        let mut msg = Message::new("svc.storage.delete", Vec::new());
        msg.set_meta("bucket", bucket);
        msg.set_meta("key", key);
        let result = self.ctx.send(&msg);
        crate::services::crypto::interpret_ack_reply(result, "storage delete failed")
    }
}

} // verus!
