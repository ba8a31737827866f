//! The capability set a guest block author implements.

use vstd::prelude::*;
use crate::context::Context;
use crate::types::BlockInfo;
use crate::types::Message;
use crate::types::Result_;
use crate::types::WaferError;

verus! {

/// The interface every guest block implements.
///
/// The host runtime calls `info` to learn the block's identity, `handle`
/// for each inbound message, and `lifecycle` at phase transitions.  The
/// dispatch entry points wire an implementation of this trait to the
/// byte-level boundary protocol.
pub trait Block {
    /// The block's static identity; pure, and stable for the life of an
    /// instance.
    fn info(&self) -> BlockInfo;

    /// Process one inbound message and choose the pipeline's next step:
    /// continue, respond, drop, or error.
    fn handle(&self, ctx: &Context, msg: &mut Message) -> Result_;

    /// React to a lifecycle transition.  The default is a no-op
    /// success; events may arrive repeated or out of order, and an
    /// implementation fails only on conditions it can itself detect.
    fn lifecycle(&self, _ctx: &Context, _event: crate::types::LifecycleEvent) -> Result<
        (),
        WaferError,
    > {
        Ok(())
    }
}

} // verus!
