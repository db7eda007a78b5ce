//! Execution model B: the reactor.
//!
//! A single control thread owns the registry and the broadcast engine
//! directly. A kernel readiness or completion facility reports which socket
//! is ready; the embedding program accepts, reads and writes, and drives this
//! state machine, which owns all bookkeeping: identifier assignment, the
//! registry, the per-connection read buffers, and the per-connection interest
//! discipline. Consumed notifications deliver no further events, so interest
//! must be re-armed on every branch that keeps the connection; the
//! `Interest` state machine makes that step explicit.

use crate::fanout::{plan_broadcast, Delivery};
use crate::framer::{
    feed_acc, feed_frames, label, labeled, lemma_frames_well_formed, wf_frame, Framer,
};
use crate::registry::{lemma_unregistered_never_targeted, Registry};
use vstd::prelude::*;

verus! {

/// The identifier the embedding program gives the listener itself in the
/// readiness or completion facility. The reactor never assigns it to a
/// connection, so an event carrying it always means "accept".
pub const LISTENER_TOKEN: u64 = 0;

/// Interest bookkeeping for one connection: `Armed` while a readiness
/// notification is outstanding, `Readable` from the moment one is consumed
/// until the connection is re-armed or removed.
#[derive(Clone, Copy)]
pub enum Interest {
    Armed,
    Readable,
}

struct Conn {
    id: u64,
    framer: Framer,
    interest: Interest,
}

/// The reactor's entire mutable state: the registry of write handles, the
/// per-connection read buffers and interest states (kept in the same order
/// as the registry), and the next identifier to assign.
pub struct Reactor<H> {
    registry: Registry<H>,
    conns: Vec<Conn>,
    next_id: u64,
}

impl<H> Reactor<H> {
    /// The registry of currently connected, broadcast-eligible peers.
    pub closed spec fn registry(&self) -> Registry<H> {
        self.registry
    }

    /// The identifier the next accepted connection will get. Identifiers are
    /// assigned monotonically and never reused while the reactor lives.
    pub closed spec fn next_id(&self) -> u64 {
        self.next_id
    }

    /// The per-connection bookkeeping beside each registry entry: the
    /// identifier, the read accumulator, and the interest state.
    pub closed spec fn buffers(&self) -> Seq<(u64, Seq<u8>, Interest)> {
        self.conns@.map_values(|c: Conn| (c.id, c.framer.acc(), c.interest))
    }

    /// Well-formedness: unique identifiers, the buffer table parallel to the
    /// registry, every read accumulator carrying the display label, and every
    /// assigned identifier below `next_id` and above the listener token.
    pub open spec fn wf(&self) -> bool {
        &&& self.registry().wf()
        &&& self.buffers().len() == self.registry()@.len()
        &&& forall|i: int|
            0 <= i < self.buffers().len() ==> (#[trigger] self.buffers()[i]).0
                == self.registry()@[i].0
        &&& forall|i: int| 0 <= i < self.buffers().len() ==> labeled((#[trigger] self.buffers()[i]).1)
        &&& forall|i: int|
            0 <= i < self.registry()@.len() ==> (#[trigger] self.registry()@[i]).0
                < self.next_id()
        &&& self.next_id() >= 1
    }

    /// The read accumulator of connection `id` (meaningful when registered).
    pub open spec fn acc_of(&self, id: u64) -> Seq<u8> {
        self.buffers()[self.registry().idx_of(id)].1
    }

    /// The interest state of connection `id` (meaningful when registered).
    pub open spec fn interest_of(&self, id: u64) -> Interest {
        self.buffers()[self.registry().idx_of(id)].2
    }

    /// A fresh reactor: nothing registered, identifiers start just above the
    /// listener token.
    pub fn new() -> (r: Reactor<H>)
        ensures
            r.wf(),
            r.registry()@ == Seq::<(u64, H)>::empty(),
            r.buffers() == Seq::<(u64, Seq<u8>, Interest)>::empty(),
            r.next_id() == 1,
    {
        let r = Reactor { registry: Registry::new(), conns: Vec::new(), next_id: 1 };
        proof {
            assert(r.buffers() =~= Seq::<(u64, Seq<u8>, Interest)>::empty());
        }
        r
    }

    /// Read access to the owned registry, for handle lookups during fan-out.
    pub fn registry_ref(&self) -> (r: &Registry<H>)
        ensures
            *r == self.registry(),
    {
        &self.registry
    }

    /// The identifier the next accepted connection would get; lets the
    /// embedding program refuse further connections once the identifier
    /// space is exhausted.
    pub fn peek_next_id(&self) -> (id: u64)
        ensures
            id == self.next_id(),
    {
        self.next_id
    }

    /// The listener was ready and the embedding program accepted a new
    /// connection: assign it a fresh identifier, register it — before any
    /// read, so it is broadcast-eligible the moment it exists — and seed its
    /// read buffer with the label. The caller must arm read interest for the
    /// returned identifier and re-arm the listener.
    pub fn on_accept(&mut self, handle: H) -> (id: u64)
        requires
            old(self).wf(),
            old(self).next_id() < u64::MAX,
        ensures
            final(self).wf(),
            id == old(self).next_id(),
            id != LISTENER_TOKEN,
            !old(self).registry().is_registered(id),
            final(self).next_id() == old(self).next_id() + 1,
            final(self).registry()@ == old(self).registry()@.push((id, handle)),
            final(self).buffers() == old(self).buffers().push((id, label(), Interest::Armed)),
    {
        let ghost bufs0 = self.buffers();
        let id = self.next_id;
        proof {
            assert forall|k: int|
                0 <= k < self.registry().ids().len() implies self.registry().ids()[k] != id by {
                assert(self.registry().ids()[k] == self.registry()@[k].0);
            }
            assert(!self.registry().ids().contains(id));
        }
        let _ = self.registry.register(id, handle);
        self.conns.push(Conn { id, framer: Framer::new(), interest: Interest::Armed });
        self.next_id = self.next_id + 1;
        proof {
            assert(self.buffers() =~= bufs0.push((id, label(), Interest::Armed)));
            assert(labeled(label())) by {
                assert(label().take(label().len() as int) =~= label());
            }
        }
        id
    }

    /// A readiness or completion notification for connection `id` was
    /// consumed: the connection is now `Readable` and must be drained.
    pub fn on_ready(&mut self, id: u64)
        requires
            old(self).wf(),
            old(self).registry().is_registered(id),
            old(self).interest_of(id) matches Interest::Armed,
        ensures
            final(self).wf(),
            final(self).registry()@ == old(self).registry()@,
            final(self).next_id() == old(self).next_id(),
            final(self).buffers() == old(self).buffers().update(
                old(self).registry().idx_of(id),
                (id, old(self).acc_of(id), Interest::Readable),
            ),
    {
        self.set_interest(id, Interest::Readable);
    }

    /// Reads on `id` would block after the drain: interest must be re-armed,
    /// or the facility will never report this connection again.
    pub fn on_rearm(&mut self, id: u64)
        requires
            old(self).wf(),
            old(self).registry().is_registered(id),
            old(self).interest_of(id) matches Interest::Readable,
        ensures
            final(self).wf(),
            final(self).registry()@ == old(self).registry()@,
            final(self).next_id() == old(self).next_id(),
            final(self).buffers() == old(self).buffers().update(
                old(self).registry().idx_of(id),
                (id, old(self).acc_of(id), Interest::Armed),
            ),
    {
        self.set_interest(id, Interest::Armed);
    }

    /// Flips the interest state of a registered connection.
    fn set_interest(&mut self, id: u64, to: Interest)
        requires
            old(self).wf(),
            old(self).registry().is_registered(id),
        ensures
            final(self).wf(),
            final(self).registry()@ == old(self).registry()@,
            final(self).next_id() == old(self).next_id(),
            final(self).buffers() == old(self).buffers().update(
                old(self).registry().idx_of(id),
                (id, old(self).acc_of(id), to),
            ),
    {
        let ghost bufs0 = self.buffers();
        let ghost j = self.registry().idx_of(id);
        let i = self.find_conn(id);
        let c = &mut self.conns[i];
        c.interest = to;
        proof {
            assert(self.buffers() =~= bufs0.update(j, (id, bufs0[j].1, to)));
        }
    }

    /// One non-blocking read on `id` returned `data`: feed it to the
    /// connection's framer and plan one broadcast per completed frame, each
    /// fanning out to every registered connection except `id` itself.
    pub fn on_data(&mut self, id: u64, data: &[u8]) -> (jobs: Vec<Delivery>)
        requires
            old(self).wf(),
            old(self).registry().is_registered(id),
            old(self).interest_of(id) matches Interest::Readable,
        ensures
            final(self).wf(),
            final(self).registry()@ == old(self).registry()@,
            final(self).next_id() == old(self).next_id(),
            final(self).buffers() == old(self).buffers().update(
                old(self).registry().idx_of(id),
                (id, feed_acc(old(self).acc_of(id), data@), Interest::Readable),
            ),
            jobs@.len() == feed_frames(old(self).acc_of(id), data@).len(),
            forall|i: int|
                0 <= i < jobs@.len() ==> (#[trigger] jobs@[i]).payload@ == feed_frames(
                    old(self).acc_of(id),
                    data@,
                )[i] && jobs@[i].recipients@ == old(self).registry().recipients_of(id),
            forall|i: int| 0 <= i < jobs@.len() ==> wf_frame((#[trigger] jobs@[i]).payload@),
    {
        let ghost bufs0 = self.buffers();
        let ghost acc0 = self.acc_of(id);
        let ghost j = self.registry().idx_of(id);
        let i = self.find_conn(id);
        proof {
            assert(bufs0[j].1 == acc0);
            lemma_frames_well_formed(acc0, data@);
        }
        let frames = {
            let c = &mut self.conns[i];
            c.framer.feed(data)
        };
        proof {
            assert(self.buffers() =~= bufs0.update(j, (id, feed_acc(acc0, data@), Interest::Readable)));
        }
        self.plan_frames(id, frames, Ghost(acc0), Ghost(data@))
    }

    /// Plans one broadcast per frame, all originating from `id`, against the
    /// current registry.
    fn plan_frames(
        &self,
        id: u64,
        frames: Vec<Vec<u8>>,
        Ghost(acc0): Ghost<Seq<u8>>,
        Ghost(data): Ghost<Seq<u8>>,
    ) -> (jobs: Vec<Delivery>)
        requires
            frames.deep_view() == feed_frames(acc0, data),
        ensures
            jobs@.len() == feed_frames(acc0, data).len(),
            forall|i: int|
                0 <= i < jobs@.len() ==> (#[trigger] jobs@[i]).payload@ == feed_frames(
                    acc0,
                    data,
                )[i] && jobs@[i].recipients@ == self.registry().recipients_of(id),
    {
        let ghost all = feed_frames(acc0, data);
        let mut rest = frames;
        let mut jobs: Vec<Delivery> = Vec::new();
        proof {
            assert(rest.deep_view() =~~= all.skip(0));
        }
        while rest.len() > 0
            invariant
                jobs@.len() + rest@.len() == all.len(),
                rest.deep_view() == all.skip(jobs@.len() as int),
                forall|i: int|
                    0 <= i < jobs@.len() ==> (#[trigger] jobs@[i]).payload@ == all[i]
                        && jobs@[i].recipients@ == self.registry().recipients_of(id),
            decreases rest@.len(),
        {
            let ghost k = jobs@.len() as int;
            let ghost dv = rest.deep_view();
            let ghost before = rest@;
            let f = rest.remove(0);
            proof {
                assert(f@ =~= dv[0]);
                assert forall|t: int|
                    0 <= t < rest.deep_view().len() implies rest.deep_view()[t] == all.skip(
                    k + 1,
                )[t] by {
                    assert(rest@[t] == before[t + 1]);
                    assert(rest.deep_view()[t] == rest@[t].deep_view());
                    assert(dv[t + 1] == before[t + 1].deep_view());
                }
                assert(rest.deep_view() =~= all.skip(k + 1));
            }
            let job = plan_broadcast(&self.registry, id, f);
            jobs.push(job);
        }
        jobs
    }

    /// Connection `id` is gone — an orderly zero-byte read, a read error, or
    /// a write failure discovered during fan-out, all treated alike: remove
    /// it from the registry, drop its buffer, and hand back the write handle
    /// for the final socket shutdown. Idempotent: a second cleanup attempt
    /// for the same identifier finds nothing and changes nothing.
    pub fn disconnect(&mut self, id: u64) -> (handle: Option<H>)
        requires
            old(self).wf(),
        ensures
            final(self).wf(),
            final(self).next_id() == old(self).next_id(),
            old(self).registry().is_registered(id) ==> {
                &&& (handle matches Some(h) && h == old(self).registry().handle_of(id))
                &&& final(self).registry()@ == old(self).registry()@.remove(
                    old(self).registry().idx_of(id),
                )
                &&& final(self).buffers() == old(self).buffers().remove(
                    old(self).registry().idx_of(id),
                )
            },
            !old(self).registry().is_registered(id) ==> {
                &&& handle is None
                &&& final(self).registry()@ == old(self).registry()@
                &&& final(self).buffers() == old(self).buffers()
            },
            !final(self).registry().is_registered(id),
    {
        let ghost bufs0 = self.buffers();
        let ghost j = self.registry().idx_of(id);
        if !self.registry.contains(id) {
            return None;
        }
        let i = self.find_conn(id);
        let handle = self.registry.deregister(id);
        self.conns.remove(i);
        proof {
            assert(self.buffers() =~= bufs0.remove(j));
            assert forall|k: int|
                0 <= k < self.buffers().len() implies (#[trigger] self.buffers()[k]).0
                == self.registry()@[k].0 by {
                if k < j {
                    assert(bufs0.remove(j)[k] == bufs0[k]);
                } else {
                    assert(bufs0.remove(j)[k] == bufs0[k + 1]);
                }
            }
            assert forall|k: int|
                0 <= k < self.registry()@.len() implies (#[trigger] self.registry()@[k]).0
                < self.next_id() by {
                if k < j {
                    assert(self.registry()@[k] == old(self).registry()@[k]);
                } else {
                    assert(self.registry()@[k] == old(self).registry()@[k + 1]);
                }
            }
        }
        handle
    }

    /// Finds the buffer-table position of a registered connection.
    fn find_conn(&self, id: u64) -> (i: usize)
        requires
            self.wf(),
            self.registry().is_registered(id),
        ensures
            0 <= i < self.buffers().len(),
            self.buffers()[i as int].0 == id,
            i as int == self.registry().idx_of(id),
    {
        let n = self.conns.len();
        let mut i: usize = 0;
        while i < n
            invariant
                0 <= i <= n,
                n == self.conns@.len(),
                self.wf(),
                self.registry().is_registered(id),
                forall|k: int| 0 <= k < i ==> (#[trigger] self.conns@[k]).id != id,
            decreases n - i,
        {
            if self.conns[i].id == id {
                proof {
                    assert(self.buffers()[i as int].0 == id);
                    assert(self.registry()@[i as int].0 == id);
                    lemma_idx_of_unique(self.registry(), id, i as int);
                }
                return i;
            }
            i = i + 1;
        }
        proof {
            lemma_idx_of_registered(self.registry(), id);
            let j = self.registry().idx_of(id);
            assert(self.buffers()[j].0 == id);
            assert(self.conns@[j].id == id);
            assert(false);
        }
        0
    }
}

/// Under unique identifiers, any position holding `id` is `idx_of(id)`.
proof fn lemma_idx_of_unique<H>(r: Registry<H>, id: u64, i: int)
    requires
        r.wf(),
        0 <= i < r@.len(),
        r@[i].0 == id,
    ensures
        r.idx_of(id) == i,
{
    let j = r.idx_of(id);
    assert(0 <= j < r@.len() && r@[j].0 == id);
}

/// A registered identifier's `idx_of` is a real position holding it.
proof fn lemma_idx_of_registered<H>(r: Registry<H>, id: u64)
    requires
        r.is_registered(id),
    ensures
        0 <= r.idx_of(id) < r@.len(),
        r@[r.idx_of(id)].0 == id,
{
    let w = choose|k: int| 0 <= k < r.ids().len() && r.ids()[k] == id;
    assert(r@[w].0 == id);
    let j = r.idx_of(id);
    assert(0 <= j < r@.len() && r@[j].0 == id);
}

/// Late-joiner exclusion: every identifier this reactor will ever assign is
/// at least `next_id()`, so a connection accepted after a broadcast was
/// planned never stands among that broadcast's recipients.
pub proof fn lemma_late_joiner_excluded<H>(r: Reactor<H>, origin: u64, id: u64)
    requires
        r.wf(),
        id >= r.next_id(),
    ensures
        !r.registry().recipients_of(origin).contains(id),
{
    assert forall|k: int|
        0 <= k < r.registry().ids().len() implies r.registry().ids()[k] != id by {
        assert(r.registry().ids()[k] == r.registry()@[k].0);
    }
    assert(!r.registry().ids().contains(id));
    lemma_unregistered_never_targeted(r.registry(), origin, id);
}

} // verus!
