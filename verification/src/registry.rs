//! The connection registry: the authoritative mapping from connection
//! identifier to the open, writable peer handle, and the single source of
//! truth for who is currently eligible to receive broadcasts.
//!
//! Entries are kept in insertion order, with identifiers unique. The handle
//! type is generic: the embedding program instantiates it with its socket
//! write handle, which the library never touches beyond owning and returning
//! it.

use vstd::prelude::*;

verus! {

/// Keeping everyone but the broadcast's origin.
pub open spec fn not_origin(origin: u64) -> spec_fn(u64) -> bool {
    |x: u64| x != origin
}

/// Mapping `id -> write handle`, in insertion order.
pub struct Registry<H> {
    entries: Vec<(u64, H)>,
}

impl<H> View for Registry<H> {
    type V = Seq<(u64, H)>;

    closed spec fn view(&self) -> Seq<(u64, H)> {
        self.entries@
    }
}

impl<H> Registry<H> {
    /// The registered identifiers, in insertion order.
    pub open spec fn ids(&self) -> Seq<u64> {
        self@.map_values(|e: (u64, H)| e.0)
    }

    /// Whether `id` currently has an entry.
    pub open spec fn is_registered(&self, id: u64) -> bool {
        self.ids().contains(id)
    }

    /// Identifiers are unique: at most one entry per connection.
    pub open spec fn wf(&self) -> bool {
        forall|i: int, j: int|
            0 <= i < j < self@.len() ==> (#[trigger] self@[i]).0 != (#[trigger] self@[j]).0
    }

    /// The position of `id`'s entry (meaningful only when registered; unique
    /// under `wf`).
    pub open spec fn idx_of(&self, id: u64) -> int {
        choose|i: int| 0 <= i < self@.len() && self@[i].0 == id
    }

    /// The handle registered for `id` (meaningful only when registered).
    pub open spec fn handle_of(&self, id: u64) -> H {
        self@[self.idx_of(id)].1
    }

    /// The identifiers a broadcast from `origin` is delivered to: every
    /// registered identifier except the origin, in insertion order.
    pub open spec fn recipients_of(&self, origin: u64) -> Seq<u64> {
        self.ids().filter(not_origin(origin))
    }

    /// An empty registry.
    pub fn new() -> (r: Registry<H>)
        ensures
            r.wf(),
            r@ == Seq::<(u64, H)>::empty(),
    {
        Registry { entries: Vec::new() }
    }

    /// How many connections are registered.
    pub fn len(&self) -> (n: usize)
        ensures
            n == self@.len(),
    {
        self.entries.len()
    }

    /// Whether `id` currently has an entry.
    pub fn contains(&self, id: u64) -> (found: bool)
        ensures
            found == self.is_registered(id),
    {
        let n = self.entries.len();
        let mut i: usize = 0;
        while i < n
            invariant
                0 <= i <= n,
                n == self@.len(),
                forall|k: int| 0 <= k < i ==> (#[trigger] self@[k]).0 != id,
            decreases n - i,
        {
            if self.entries[i].0 == id {
                proof {
                    assert(self.ids()[i as int] == id);
                }
                return true;
            }
            i = i + 1;
        }
        proof {
            assert(forall|k: int| 0 <= k < self.ids().len() ==> self.ids()[k] != id);
        }
        false
    }

    /// Inserts `id -> handle`. Fails, changing nothing, exactly when `id` is
    /// already present — which the id-uniqueness invariant rules out, so a
    /// `false` here reports an internal invariant violation, not a
    /// recoverable condition.
    pub fn register(&mut self, id: u64, handle: H) -> (fresh: bool)
        requires
            old(self).wf(),
        ensures
            final(self).wf(),
            fresh == !old(self).is_registered(id),
            fresh ==> final(self)@ == old(self)@.push((id, handle)),
            !fresh ==> final(self)@ == old(self)@,
            final(self).is_registered(id),
    {
        if self.contains(id) {
            proof {
                assert(self.is_registered(id));
            }
            false
        } else {
            let ghost before = self@;
            proof {
                assert forall|k: int| 0 <= k < before.len() implies (#[trigger] before[k]).0
                    != id by {
                    assert(self.ids()[k] == before[k].0);
                }
            }
            self.entries.push((id, handle));
            proof {
                assert forall|i: int, j: int| 0 <= i < j < self@.len() implies (
                #[trigger] self@[i]).0 != (#[trigger] self@[j]).0 by {
                    if j == self@.len() - 1 {
                        assert(self@[i] == before[i]);
                    }
                }
                assert(self.ids()[self.ids().len() - 1] == id);
            }
            true
        }
    }

    /// Removes `id`'s entry and returns its handle for final cleanup.
    /// Returns `None` if already removed, so duplicate cleanup attempts are
    /// harmless.
    pub fn deregister(&mut self, id: u64) -> (handle: Option<H>)
        requires
            old(self).wf(),
        ensures
            final(self).wf(),
            old(self).is_registered(id) ==> {
                &&& handle matches Some(h) && h == old(self).handle_of(id)
                &&& final(self)@ == old(self)@.remove(old(self).idx_of(id))
            },
            !old(self).is_registered(id) ==> handle is None && final(self)@ == old(self)@,
            !final(self).is_registered(id),
    {
        let ghost before = self@;
        let n = self.entries.len();
        let mut i: usize = 0;
        while i < n
            invariant
                0 <= i <= n,
                n == self@.len(),
                self@ == before,
                old(self).wf(),
                self@ == old(self)@,
                forall|k: int| 0 <= k < i ==> (#[trigger] self@[k]).0 != id,
            decreases n - i,
        {
            if self.entries[i].0 == id {
                proof {
                    assert(self.ids()[i as int] == id);
                    assert(self.idx_of(id) == i as int) by {
                        let j = self.idx_of(id);
                        assert(0 <= j < self@.len() && self@[j].0 == id);
                    }
                }
                let entry = self.entries.remove(i);
                proof {
                    lemma_remove_keeps_uniqueness(before, i as int);
                    lemma_remove_drops_id(before, i as int);
                    assert forall|k: int| 0 <= k < self.ids().len() implies self.ids()[k]
                        != id by {
                        assert(self.ids()[k] == self@[k].0);
                    }
                    assert(!self.ids().contains(id));
                }
                return Some(entry.1);
            }
            i = i + 1;
        }
        proof {
            assert(forall|k: int| 0 <= k < self.ids().len() ==> self.ids()[k] != id);
        }
        None
    }

    /// The handle registered for `id`, if any.
    pub fn get(&self, id: u64) -> (handle: Option<&H>)
        requires
            self.wf(),
        ensures
            self.is_registered(id) ==> (handle matches Some(h) && *h == self.handle_of(id)),
            !self.is_registered(id) ==> handle is None,
    {
        let n = self.entries.len();
        let mut i: usize = 0;
        while i < n
            invariant
                0 <= i <= n,
                n == self@.len(),
                self.wf(),
                forall|k: int| 0 <= k < i ==> (#[trigger] self@[k]).0 != id,
            decreases n - i,
        {
            if self.entries[i].0 == id {
                proof {
                    assert(self.ids()[i as int] == id);
                    assert(self.idx_of(id) == i as int) by {
                        let j = self.idx_of(id);
                        assert(0 <= j < self@.len() && self@[j].0 == id);
                    }
                }
                return Some(&self.entries[i].1);
            }
            i = i + 1;
        }
        proof {
            assert(forall|k: int| 0 <= k < self.ids().len() ==> self.ids()[k] != id);
        }
        None
    }

    /// The ordered snapshot a broadcast fans out over: every registered
    /// identifier except `origin`, in insertion order of the remaining
    /// entries.
    pub fn snapshot_except(&self, origin: u64) -> (others: Vec<u64>)
        ensures
            others@ == self.recipients_of(origin),
    {
        let n = self.entries.len();
        let mut others: Vec<u64> = Vec::new();
        let mut i: usize = 0;
        proof {
            reveal(Seq::filter);
            assert(self.ids().take(0) =~= Seq::<u64>::empty());
        }
        while i < n
            invariant
                0 <= i <= n,
                n == self@.len(),
                others@ == self.ids().take(i as int).filter(not_origin(origin)),
            decreases n - i,
        {
            let ghost taken = self.ids().take(i as int);
            proof {
                reveal(Seq::filter);
                assert(self.ids().take(i + 1 as int).drop_last() =~= taken);
                assert(self.ids().take(i + 1 as int).last() == self.ids()[i as int]);
            }
            let entry_id = self.entries[i].0;
            proof {
                assert(entry_id == self.ids()[i as int]);
            }
            if entry_id != origin {
                others.push(entry_id);
            }
            i = i + 1;
        }
        proof {
            assert(self.ids().take(n as int) =~= self.ids());
        }
        others
    }
}

/// No self-echo: the snapshot a broadcast from `origin` fans out over never
/// includes `origin` itself, so a connection never receives its own message
/// back.
pub proof fn lemma_no_self_echo<H>(r: Registry<H>, origin: u64)
    ensures
        !r.recipients_of(origin).contains(origin),
{
    let rec = r.recipients_of(origin);
    assert forall|k: int| 0 <= k < rec.len() implies rec[k] != origin by {
        r.ids().lemma_filter_pred(not_origin(origin), k);
    }
    assert(!rec.contains(origin));
}

/// All-others delivery: every registered connection other than the origin
/// stands in the broadcast snapshot, and exactly once.
pub proof fn lemma_all_others_exactly_once<H>(r: Registry<H>, origin: u64, other: u64)
    requires
        r.wf(),
        r.is_registered(other),
        other != origin,
    ensures
        r.recipients_of(origin).contains(other),
        r.recipients_of(origin).to_multiset().count(other) == 1,
{
    broadcast use vstd::seq_lib::group_to_multiset_ensures;

    let rec = r.recipients_of(origin);
    assert(r.ids().no_duplicates()) by {
        assert forall|i: int, j: int|
            0 <= i < r.ids().len() && 0 <= j < r.ids().len() && i != j implies r.ids()[i]
            != r.ids()[j] by {
            assert(r.ids()[i] == r@[i].0);
            assert(r.ids()[j] == r@[j].0);
        }
    }
    let w = choose|i: int| 0 <= i < r.ids().len() && r.ids()[i] == other;
    r.ids().lemma_filter_contains(not_origin(origin), w);
    lemma_filter_keeps_no_dup(r.ids(), not_origin(origin));
    rec.lemma_multiset_has_no_duplicates();
    assert(rec.to_multiset().count(other) > 0);
}

/// Departed or late-joining connections are never targeted: an identifier
/// with no current registry entry — deregistered already, or never yet
/// registered — never stands in any broadcast snapshot.
pub proof fn lemma_unregistered_never_targeted<H>(r: Registry<H>, origin: u64, id: u64)
    requires
        !r.is_registered(id),
    ensures
        !r.recipients_of(origin).contains(id),
{
    if r.recipients_of(origin).contains(id) {
        r.ids().lemma_filter_contains_rev(not_origin(origin), id);
    }
}

/// Filtering a duplicate-free sequence leaves it duplicate-free.
proof fn lemma_filter_keeps_no_dup<A>(s: Seq<A>, pred: spec_fn(A) -> bool)
    requires
        s.no_duplicates(),
    ensures
        s.filter(pred).no_duplicates(),
    decreases s.len(),
{
    reveal(Seq::filter);
    if s.len() != 0 {
        let rest = s.drop_last();
        assert(rest.no_duplicates());
        lemma_filter_keeps_no_dup(rest, pred);
        if pred(s.last()) {
            assert(s.filter(pred) == rest.filter(pred).push(s.last()));
            assert(!rest.contains(s.last())) by {
                assert forall|k: int| 0 <= k < rest.len() implies rest[k] != s.last() by {
                    assert(rest[k] == s[k]);
                    assert(s.last() == s[s.len() - 1]);
                }
            }
            if rest.filter(pred).contains(s.last()) {
                rest.lemma_filter_contains_rev(pred, s.last());
            }
            let out = rest.filter(pred).push(s.last());
            assert forall|i: int, j: int|
                0 <= i < out.len() && 0 <= j < out.len() && i != j implies out[i] != out[j] by {
                if i == out.len() - 1 {
                    assert(out[j] == rest.filter(pred)[j]);
                    assert(rest.filter(pred).contains(rest.filter(pred)[j]));
                } else if j == out.len() - 1 {
                    assert(out[i] == rest.filter(pred)[i]);
                    assert(rest.filter(pred).contains(rest.filter(pred)[i]));
                }
            }
        }
    }
}

/// Removing an entry keeps the remaining identifiers unique.
proof fn lemma_remove_keeps_uniqueness<H>(s: Seq<(u64, H)>, at: int)
    requires
        0 <= at < s.len(),
        forall|i: int, j: int| 0 <= i < j < s.len() ==> (#[trigger] s[i]).0 != (#[trigger] s[j]).0,
    ensures
        forall|i: int, j: int|
            0 <= i < j < s.remove(at).len() ==> (#[trigger] s.remove(at)[i]).0 != (
            #[trigger] s.remove(at)[j]).0,
{
    assert forall|i: int, j: int| 0 <= i < j < s.remove(at).len() implies (#[trigger] s.remove(
        at,
    )[i]).0 != (#[trigger] s.remove(at)[j]).0 by {
        let oi = if i < at {
            i
        } else {
            i + 1
        };
        let oj = if j < at {
            j
        } else {
            j + 1
        };
        assert(s.remove(at)[i] == s[oi]);
        assert(s.remove(at)[j] == s[oj]);
    }
}

/// After removing the only entry whose identifier is `s[at].0`, no entry
/// carries that identifier any more.
proof fn lemma_remove_drops_id<H>(s: Seq<(u64, H)>, at: int)
    requires
        0 <= at < s.len(),
        forall|i: int, j: int| 0 <= i < j < s.len() ==> (#[trigger] s[i]).0 != (#[trigger] s[j]).0,
    ensures
        forall|k: int| 0 <= k < s.remove(at).len() ==> (#[trigger] s.remove(at)[k]).0 != s[at].0,
{
    assert forall|k: int| 0 <= k < s.remove(at).len() implies (#[trigger] s.remove(at)[k]).0
        != s[at].0 by {
        let ok = if k < at {
            k
        } else {
            k + 1
        };
        assert(s.remove(at)[k] == s[ok]);
    }
}

} // verus!
