//! Service clients for the host's platform capabilities.
//!
//! Each client is a stateless adapter: it builds a request message with
//! a well-known operation kind, asks the context to perform a boundary
//! call, and reads the reply.  The reply-reading logic of each client is
//! a public function over an arbitrary outcome, so it is verified for
//! every reply a host could give.

pub mod config;
pub mod crypto;
pub mod database;
pub mod logger;
pub mod network;
pub mod storage;
