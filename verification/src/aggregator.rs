//! Execution model A: the aggregator.
//!
//! One worker per connection reads its socket and forwards decoded frames;
//! a single serializing aggregator owns the registry and the broadcast
//! engine exclusively and consumes the workers' notices strictly in arrival
//! order. Because every worker sends its start notice before any chat or end
//! notice for the same identifier, each chat notice is processed while its
//! origin is registered, and the end notice is the last one seen for an
//! identifier.
//!
//! The aggregator here is the decision half: it consumes one notice and
//! returns the effect the embedding program must perform (write a payload to
//! recipients, or shut a released handle down).

use crate::fanout::{plan_broadcast, Delivery};
use crate::registry::Registry;
use vstd::prelude::*;

verus! {

/// What a worker or the accept loop tells the aggregator. The tag is matched
/// exhaustively; there is no runtime type inspection.
pub enum Notice<H> {
    /// A connection was accepted: register its write handle under `id`.
    /// Issued by the accept loop before the connection's worker is spawned,
    /// so a brand-new connection is broadcast-eligible before its first read.
    ClientStart { id: u64, handle: H },
    /// A complete frame decoded from `origin`'s byte stream: broadcast it.
    ChatMessage { origin: u64, payload: Vec<u8> },
    /// `id`'s read side ended (orderly close or read error): deregister it.
    ClientEnd { id: u64 },
}

/// What the embedding program must do after the aggregator consumed a notice.
pub enum Effect<H> {
    /// The connection is registered. `fresh` is false only when the
    /// identifier was already present — an internal invariant violation
    /// under unique identifier assignment, not a recoverable condition.
    Accepted { fresh: bool },
    /// Write `job.payload` to each handle in `job.recipients`, isolating
    /// per-recipient write failures from one another.
    Deliver { job: Delivery },
    /// Shut this handle down; `None` when the identifier was already
    /// cleaned up, which makes duplicate cleanup attempts harmless.
    Release { handle: Option<H> },
}

/// The single serialized owner of the registry in execution model A.
pub struct Aggregator<H> {
    registry: Registry<H>,
}

impl<H> Aggregator<H> {
    /// The registry this aggregator owns.
    pub closed spec fn registry(&self) -> Registry<H> {
        self.registry
    }

    /// The aggregator is well-formed when its registry is.
    pub open spec fn wf(&self) -> bool {
        self.registry().wf()
    }

    /// A fresh aggregator with no connections.
    pub fn new() -> (a: Aggregator<H>)
        ensures
            a.wf(),
            a.registry()@ == Seq::<(u64, H)>::empty(),
    {
        Aggregator { registry: Registry::new() }
    }

    /// Read access to the owned registry, for handle lookups during fan-out.
    pub fn registry_ref(&self) -> (r: &Registry<H>)
        ensures
            *r == self.registry(),
    {
        &self.registry
    }

    /// Consumes one notice, in arrival order, and returns the effect to
    /// perform: registration on start, a fan-out plan excluding the origin
    /// on a chat message, and the released handle on end.
    pub fn apply(&mut self, notice: Notice<H>) -> (effect: Effect<H>)
        requires
            old(self).wf(),
        ensures
            final(self).wf(),
            match notice {
                Notice::ClientStart { id, handle } => {
                    &&& (effect matches Effect::Accepted { fresh } && fresh == !old(self).registry().is_registered(id))
                    &&& !old(self).registry().is_registered(id)
                        ==> final(self).registry()@ == old(self).registry()@.push((id, handle))
                    &&& old(self).registry().is_registered(id)
                        ==> final(self).registry()@ == old(self).registry()@
                    &&& final(self).registry().is_registered(id)
                },
                Notice::ChatMessage { origin, payload } => {
                    &&& final(self).registry()@ == old(self).registry()@
                    &&& (effect matches Effect::Deliver { job } && job.payload == payload
                        && job.recipients@ == old(self).registry().recipients_of(origin))
                },
                Notice::ClientEnd { id } => {
                    &&& (effect matches Effect::Release { handle } && {
                        &&& old(self).registry().is_registered(id) ==> {
                            &&& (handle matches Some(h) && h == old(self).registry().handle_of(id))
                            &&& final(self).registry()@ == old(self).registry()@.remove(old(self).registry().idx_of(id))
                        }
                        &&& !old(self).registry().is_registered(id) ==> {
                            &&& handle is None
                            &&& final(self).registry()@ == old(self).registry()@
                        }
                    })
                    &&& !final(self).registry().is_registered(id)
                },
            },
    {
        match notice {
            Notice::ClientStart { id, handle } => {
                let fresh = self.registry.register(id, handle);
                Effect::Accepted { fresh }
            },
            Notice::ChatMessage { origin, payload } => {
                let job = plan_broadcast(&self.registry, origin, payload);
                Effect::Deliver { job }
            },
            Notice::ClientEnd { id } => {
                let handle = self.registry.deregister(id);
                Effect::Release { handle }
            },
        }
    }
}

} // verus!
