//! The memory bridge: the packed pointer/length calling convention used on
//! the isolation boundary, and the guest-side context through which a block
//! reaches the host's capabilities.
//!
//! Values that carry data across the boundary encode a `(pointer, length)`
//! pair in one 64-bit word: the pointer in the high 32 bits, the length in
//! the low 32 bits.  The word is treated as an unsigned bit pattern even
//! though the carrier type is signed, so packing and unpacking are exact
//! inverses over the full 32-bit range.

use vstd::prelude::*;

verus! {

/// The packed word, as a function of the unsigned pointer and length bit
/// patterns: pointer in the high 32 bits, length in the low 32 bits.
pub open spec fn spec_pack(ptr: u32, len: u32) -> u64 {
    ((ptr as u64) << 32) | (len as u64)
}

/// The pointer half of a packed word: its high 32 bits.
pub open spec fn spec_unpack_ptr(packed: u64) -> u32 {
    (packed >> 32) as u32
}

/// The length half of a packed word: its low 32 bits.
pub open spec fn spec_unpack_len(packed: u64) -> u32 {
    packed as u32
}

/// Unpacking recovers exactly the pointer and length that were packed,
/// for every 32-bit pointer and length value.
pub proof fn lemma_pack_unpack(ptr: u32, len: u32)
    ensures
        spec_unpack_ptr(spec_pack(ptr, len)) == ptr,
        spec_unpack_len(spec_pack(ptr, len)) == len,
{
    assert((((ptr as u64) << 32 | (len as u64)) >> 32) as u32 == ptr) by (bit_vector);
    assert((((ptr as u64) << 32 | (len as u64))) as u32 == len) by (bit_vector);
}

/// Packing is injective: distinct pairs give distinct words.
pub proof fn lemma_pack_injective(p1: u32, l1: u32, p2: u32, l2: u32)
    requires
        spec_pack(p1, l1) == spec_pack(p2, l2),
    ensures
        p1 == p2 && l1 == l2,
{
    lemma_pack_unpack(p1, l1);
    lemma_pack_unpack(p2, l2);
}

/// Pack a pointer and length into a single 64-bit word.
pub fn pack_ptr_len(ptr: i32, len: i32) -> (packed: i64)
    ensures
        packed as u64 == spec_pack(ptr as u32, len as u32),
{
    let pu: u32 = ptr as u32;
    let lu: u32 = len as u32;
    let word: u64 = ((pu as u64) << 32) | (lu as u64);
    let packed = word as i64;
    proof {
        assert(word as i64 as u64 == word) by (bit_vector);
    }
    packed
}

/// Unpack a packed 64-bit word into its `(pointer, length)` halves.
pub fn unpack_ptr_len(packed: i64) -> (r: (i32, i32))
    ensures
        r.0 as u32 == spec_unpack_ptr(packed as u64),
        r.1 as u32 == spec_unpack_len(packed as u64),
{
    let word: u64 = packed as u64;
    let ptr = (word >> 32) as i32;
    let len = word as i32;
    proof {
        assert((word >> 32) as i32 as u32 == (word >> 32) as u32) by (bit_vector);
        assert(word as i32 as u32 == word as u32) by (bit_vector);
    }
    (ptr, len)
}

/// Reserve a zeroed reply buffer of the given size inside the guest's
/// own memory.  Ownership of the bytes transfers to whoever writes the
/// reply; the buffer models the region the host writes response bytes
/// into.
pub fn allocate_buffer(size: usize) -> (v: Vec<u8>)
    ensures
        v@.len() == size,
        forall|i: int| 0 <= i < size ==> v@[i] == 0u8,
{
    let mut v: Vec<u8> = Vec::new();
    let mut i: usize = 0;
    while i < size
        invariant
            i <= size,
            v@.len() == i,
            forall|w: int| 0 <= w < i ==> v@[w] == 0u8,
        decreases size - i,
    {
        v.push(0);
        i += 1;
    }
    v
}

/// Interpret the buffer a host call handed back as an outcome.
///
/// A null pointer/length pair means "no data", never a zero-length
/// buffer at address zero: it becomes an `Error` outcome with the code
/// `host_error`.  Otherwise the borrowed bytes must decode as an
/// outcome record; undecodable bytes become an `Error` outcome with the
/// code `decode_error`, and a decoded record is normalized as the
/// outcome codec prescribes.  The result always satisfies the outcome
/// invariant.
pub fn interpret_send_reply(ptr: i32, len: i32, bytes: &[u8]) -> (r: crate::types::Result_)
    ensures
        crate::types::outcome_wf(r),
        r.message is None,
        (ptr == 0 && len == 0) ==> (r.action == crate::types::Action::Error && (
        r.error matches Some(e) && e.code@ == "host_error"@)),
        !(ptr == 0 && len == 0) ==> match crate::text::bytes_chars(bytes@) {
            Some(cs) => match crate::codec::spec_decode_outcome(cs) {
                Some(f) => (crate::codec::consistent_wire(
                    crate::types::spec_parse_action(f.0),
                    f.1 is Some,
                    f.2 is Some,
                ) ==> r.action == crate::types::spec_parse_action(f.0)) && (
                !crate::codec::consistent_wire(
                    crate::types::spec_parse_action(f.0),
                    f.1 is Some,
                    f.2 is Some,
                ) ==> (r.action == crate::types::Action::Error && (r.error matches Some(e)
                    && e.code@ == "invalid_outcome"@))),
                None => r.action == crate::types::Action::Error && (r.error matches Some(e)
                    && e.code@ == "decode_error"@),
            },
            None => r.action == crate::types::Action::Error && (r.error matches Some(e) && e.code@
                == "decode_error"@),
        },
{
    if ptr == 0 && len == 0 {
        return crate::types::Result_::error(
            crate::types::WaferError::new("host_error", "host returned null"),
        );
    }
    let s = match crate::text::str_from_utf8(bytes) {
        Some(s) => s,
        None => {
            return crate::types::Result_::error(
                crate::types::WaferError::new("decode_error", "reply is not valid text"),
            );
        },
    };
    match crate::codec::decode_outcome(s) {
        Ok(r) => r,
        Err(e) => crate::types::Result_::error(
            crate::types::WaferError::new("decode_error", e.message.as_str()),
        ),
    }
}

/// The guest-side context through which a block reaches the host.
///
/// Inside the sandboxed module the three host imports (send a message,
/// list capabilities, query cancellation) sit behind this type.  Outside
/// it there is no host to call, so the context is inert: sending yields
/// an empty `Continue` outcome, the capability list is the empty array,
/// and nothing is ever cancelled.  Code that interprets real host
/// replies is written over arbitrary outcome values, so it is verified
/// for every reply a host could give.
pub struct Context;

impl Context {
    /// Create a new guest context; it holds no state of its own.
    pub fn new() -> (c: Context) {
        Context
    }

    /// Deliver a message to the host.  With no host present this is a
    /// no-op that yields an empty `Continue` outcome.
    pub fn send(&self, _msg: &crate::types::Message) -> (r: crate::types::Result_)
        ensures
            r.action == crate::types::Action::Continue,
            r.response is None,
            r.error is None,
            r.message is None,
    {
        crate::types::Result_ {
            action: crate::types::Action::Continue,
            response: None,
            error: None,
            message: None,
        }
    }

    /// The host's advertised capabilities as raw JSON bytes.  With no
    /// host present the list is empty.
    pub fn capabilities_raw(&self) -> (r: Vec<u8>)
        ensures
            r@ == seq![91u8, 93u8],
    {
        let mut v: Vec<u8> = Vec::new();
        v.push(91);
        v.push(93);
        proof {
            assert(v@ =~= seq![91u8, 93u8]);
        }
        v
    }

    /// Whether the host has cancelled the current execution.  With no
    /// host present, never.
    pub fn is_cancelled(&self) -> (r: bool)
        ensures
            !r,
    {
        false
    }
}

impl Default for Context {
    /// The default context is a fresh one.
    fn default() -> Self {
        Context::new()
    }
}

} // verus!
