//! The dispatch entry points the host invokes, written over byte
//! buffers: decode the inbound record, run the block, encode the
//! outcome.  A decode failure never escapes as a crash — the reply is
//! always a validly encoded outcome, an `Error` with code `decode_error`
//! when the inbound bytes were malformed.  An unrecognized lifecycle
//! event type is acknowledged as success, mirroring the codec's
//! forward-compatibility fallback for action tags.

use vstd::prelude::*;
use crate::block::Block;
use crate::codec::decode_lifecycle;
use crate::codec::decode_message;
use crate::codec::encode_info;
use crate::codec::encode_result;
use crate::codec::info_jval;
use crate::codec::modes_strs;
use crate::codec::norm_err;
use crate::codec::norm_resp;
use crate::codec::outcome_jval;
use crate::codec::spec_decode_lifecycle;
use crate::codec::spec_decode_message;
use crate::context::Context;
use crate::json::emit;
use crate::text::bytes_chars;
use crate::text::str_from_utf8;
use crate::types::action_str;
use crate::types::instance_mode_str;
use crate::types::spec_parse_lifecycle_type;
use crate::types::Action;
use crate::types::LifecycleEvent;
use crate::types::Result_;
use crate::types::WaferError;
use vstd::utf8::encode_utf8;

verus! {

/// The reply sent for undecodable inbound bytes: an `Error` outcome with
/// the code `decode_error` and the given diagnostic.
pub open spec fn decode_error_reply(diagnostic: Seq<char>) -> Seq<char> {
    emit(
        outcome_jval(
            action_str(Action::Error),
            None,
            Some(("decode_error"@, diagnostic, Seq::<(Seq<char>, Seq<char>)>::empty())),
        ),
    )
}

/// The reply that acknowledges success with no payload: a bare
/// `Continue` outcome.
pub open spec fn ack_reply() -> Seq<char> {
    emit(outcome_jval(action_str(Action::Continue), None, None))
}

/// Encoding a nonempty text gives nonempty bytes.
proof fn lemma_reply_nonempty(s: Seq<char>)
    requires
        s.len() > 0,
    ensures
        encode_utf8(s).len() > 0,
{
    assert(encode_utf8(s) == vstd::utf8::encode_scalar(s[0] as u32) + encode_utf8(s.drop_first()));
    assert(vstd::utf8::encode_scalar(s[0] as u32).len() >= 1);
}

/// Every outcome record's text is nonempty.
proof fn lemma_outcome_reply_nonempty(
    action: Seq<char>,
    resp: Option<(Seq<u8>, Seq<(Seq<char>, Seq<char>)>)>,
    err: Option<(Seq<char>, Seq<char>, Seq<(Seq<char>, Seq<char>)>)>,
)
    ensures
        encode_utf8(emit(outcome_jval(action, resp, err))).len() > 0,
{
    assert(emit(outcome_jval(action, resp, err)).len() >= 2);
    lemma_reply_nonempty(emit(outcome_jval(action, resp, err)));
}

/// Encode an `Error` outcome carrying `decode_error` and a diagnostic.
fn encode_decode_error(diagnostic: &str) -> (out: Vec<u8>)
    ensures
        out@ == encode_utf8(decode_error_reply(diagnostic@)),
        out@.len() > 0,
{
    proof {
        lemma_outcome_reply_nonempty(
            action_str(Action::Error),
            None,
            Some(("decode_error"@, diagnostic@, Seq::<(Seq<char>, Seq<char>)>::empty())),
        );
    }
    let e = WaferError::new("decode_error", diagnostic);
    let r = Result_::error(e);
    let t = encode_result(&r);
    t.as_str().as_bytes_vec()
}

/// Encode the bare success acknowledgement.
fn encode_ack() -> (out: Vec<u8>)
    ensures
        out@ == encode_utf8(ack_reply()),
        out@.len() > 0,
{
    proof {
        lemma_outcome_reply_nonempty(action_str(Action::Continue), None, None);
    }
    let r = Result_ { action: Action::Continue, response: None, error: None, message: None };
    let t = encode_result(&r);
    t.as_str().as_bytes_vec()
}

/// Report the block's identity as an encoded record.
pub fn describe<B: Block>(block: &B) -> (out: Vec<u8>)
    ensures
        exists|bi: crate::types::BlockInfo|
            out@ == encode_utf8(
                emit(
                    #[trigger] info_jval(
                        bi.name@,
                        bi.version@,
                        bi.interface@,
                        bi.summary@,
                        instance_mode_str(bi.instance_mode),
                        modes_strs(bi.allowed_modes@),
                    ),
                ),
            ),
{
    let bi = block.info();
    let t = encode_info(&bi);
    let out = t.as_str().as_bytes_vec();
    proof {
        assert(out@ == encode_utf8(
            emit(
                info_jval(
                    bi.name@,
                    bi.version@,
                    bi.interface@,
                    bi.summary@,
                    instance_mode_str(bi.instance_mode),
                    modes_strs(bi.allowed_modes@),
                ),
            ),
        ));
    }
    out
}

/// Handle one inbound message: decode it, run the block, encode the
/// outcome.  Malformed bytes yield a well-formed `Error` reply with the
/// code `decode_error`, never a crash or an empty return; a decoded
/// message reaches the block, and the reply is the encoding of the
/// block's outcome with only the auxiliary field matching its action
/// tag.
pub fn handle<B: Block>(block: &B, ctx: &Context, input: &[u8]) -> (out: Vec<u8>)
    ensures
        out@.len() > 0,
        ({
            let decoded = match bytes_chars(input@) {
                Some(chars) => spec_decode_message(chars),
                None => None,
            };
            match decoded {
                Some(f) => exists|r2: Result_|
                    out@ == encode_utf8(
                        emit(
                            #[trigger] outcome_jval(
                                action_str(r2.action),
                                norm_resp(r2),
                                norm_err(r2),
                            ),
                        ),
                    ),
                None => exists|m: Seq<char>| out@ == encode_utf8(#[trigger] decode_error_reply(m)),
            }
        }),
{
    let s = match str_from_utf8(input) {
        Some(s) => s,
        None => {
            let out = encode_decode_error("inbound bytes are not valid text");
            proof {
                assert(out@ == encode_utf8(
                    decode_error_reply("inbound bytes are not valid text"@),
                ));
            }
            return out;
        },
    };
    let mut msg = match decode_message(s) {
        Ok(m) => m,
        Err(e) => {
            let out = encode_decode_error(e.message.as_str());
            proof {
                assert(out@ == encode_utf8(decode_error_reply(e.message@)));
            }
            return out;
        },
    };
    let result = block.handle(ctx, &mut msg);
    let t = encode_result(&result);
    let out = t.as_str().as_bytes_vec();
    proof {
        assert(out@ == encode_utf8(
            emit(outcome_jval(action_str(result.action), norm_resp(result), norm_err(result))),
        ));
        lemma_outcome_reply_nonempty(
            action_str(result.action),
            norm_resp(result),
            norm_err(result),
        );
    }
    out
}

/// Handle one lifecycle event: decode it, run the block's lifecycle
/// capability, encode a success acknowledgement or the block's error.
/// Malformed bytes yield a `decode_error` reply; an unrecognized event
/// type is acknowledged as success unconditionally.
pub fn lifecycle<B: Block>(block: &B, ctx: &Context, input: &[u8]) -> (out: Vec<u8>)
    ensures
        out@.len() > 0,
        ({
            let decoded = match bytes_chars(input@) {
                Some(chars) => spec_decode_lifecycle(chars),
                None => None,
            };
            match decoded {
                Some(f) => (spec_parse_lifecycle_type(f.0) is None ==> out@ == encode_utf8(
                    ack_reply(),
                )) && (out@ == encode_utf8(ack_reply()) || exists|
                    e: (Seq<char>, Seq<char>, Seq<(Seq<char>, Seq<char>)>),
                |
                    out@ == encode_utf8(
                        emit(
                            #[trigger] outcome_jval(action_str(Action::Error), None, Some(e)),
                        ),
                    )),
                None => exists|m: Seq<char>| out@ == encode_utf8(#[trigger] decode_error_reply(m)),
            }
        }),
{
    let s = match str_from_utf8(input) {
        Some(s) => s,
        None => {
            let out = encode_decode_error("inbound bytes are not valid text");
            proof {
                assert(out@ == encode_utf8(
                    decode_error_reply("inbound bytes are not valid text"@),
                ));
            }
            return out;
        },
    };
    let wle = match decode_lifecycle(s) {
        Ok(w) => w,
        Err(e) => {
            let out = encode_decode_error(e.message.as_str());
            proof {
                assert(out@ == encode_utf8(decode_error_reply(e.message@)));
            }
            return out;
        },
    };
    let event = match LifecycleEvent::from_wasm(wle) {
        Some(e) => e,
        None => {
            return encode_ack();
        },
    };
    match block.lifecycle(ctx, event) {
        Ok(()) => encode_ack(),
        Err(e) => {
            let r = Result_::error(e);
            let t = encode_result(&r);
            let out = t.as_str().as_bytes_vec();
            proof {
                let ghost ef = (r.error->Some_0.code@, r.error->Some_0.message@, r.error->Some_0.meta@);
                assert(out@ == encode_utf8(
                    emit(outcome_jval(action_str(Action::Error), None, Some(ef))),
                ));
                lemma_outcome_reply_nonempty(action_str(Action::Error), None, Some(ef));
            }
            out
        },
    }
}

} // verus!
