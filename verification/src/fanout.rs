//! Broadcast fan-out planning.
//!
//! The broadcast engine's verified half: given a message and its originating
//! connection, compute exactly which connections must receive it — every
//! registered connection except the origin, in insertion order. The embedding
//! program performs the writes; a failure at one recipient must not abort
//! delivery to the rest, and is reported back to the owning state machine as
//! that connection's disconnection.

use crate::registry::Registry;
use vstd::prelude::*;

verus! {

/// One planned broadcast: the framed bytes and the connections owed them.
/// The payload is owned by the job and never mutated after creation; every
/// recipient is written the same bytes.
pub struct Delivery {
    /// The complete, terminator-ended frame to write.
    pub payload: Vec<u8>,
    /// The identifiers to write it to, in registry insertion order.
    pub recipients: Vec<u64>,
}

/// Plans the fan-out of `payload` from `origin`: the recipients are exactly
/// the registered connections other than the origin, in insertion order.
pub fn plan_broadcast<H>(registry: &Registry<H>, origin: u64, payload: Vec<u8>) -> (job: Delivery)
    ensures
        job.payload == payload,
        job.recipients@ == registry.recipients_of(origin),
{
    let recipients = registry.snapshot_except(origin);
    Delivery { payload, recipients }
}

} // verus!
