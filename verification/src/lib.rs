//! Guest-side runtime adapter for sandboxed message-processing blocks.
//!
//! A *block* is a unit of message-processing logic that runs inside an
//! isolated module and talks to a trusted host runtime across a hard
//! memory-isolation boundary.  This crate provides:
//!
//! - the message / outcome / block-info / lifecycle data model,
//! - the wire codec that marshals those entities to and from the
//!   JSON-shaped byte encoding used on the boundary (binary payloads are
//!   embedded with a reversible base64 text encoding),
//! - the pointer/length packing discipline of the boundary's calling
//!   convention,
//! - the `Block` capability trait a guest author implements, and
//! - the dispatch entry points the host invokes, written as explicit
//!   adapter functions over byte buffers so they can be exercised
//!   without the sandbox's real linear memory.
//!
//! The library's functions carry `requires`/`ensures` contracts and are
//! verified; the round-trip and fallback policies of the wire protocol
//! are stated and proved as lemmas next to the code that implements
//! them.

pub mod base64;
pub mod block;
pub mod codec;
pub mod context;
pub mod dispatch;
pub mod helpers;
pub mod json;
pub mod meta;
pub mod services;
pub mod types;
pub mod text;

pub use block::Block;
pub use context::pack_ptr_len;
pub use context::unpack_ptr_len;
pub use context::Context;
pub use json::DecodeError;
pub use json::Json;
pub use meta::MetaMap;
pub use types::Action;
pub use types::BlockInfo;
pub use types::InstanceMode;
pub use types::LifecycleEvent;
pub use types::LifecycleType;
pub use types::Message;
pub use types::RequestAction;
pub use types::Response;
pub use types::Result_;
pub use types::WaferError;
