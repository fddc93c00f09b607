//! The connection registry behind reload fan-out: open client connections
//! tracked by unique id, inserted on connect and removed on disconnect. A
//! broadcast targets a snapshot of exactly the connections registered at
//! that moment; a signal is never stored, so a connection registered
//! later sees no backlog.
use vstd::prelude::*;

verus! {

/// The ids of the reload listeners currently connected, each unique.
pub struct ConnectionRegistry {
    next_id: u64,
    conns: Vec<u64>,
}

/// `s` with every occurrence of `id` removed, order kept.
pub open spec fn without_id(s: Seq<u64>, id: u64) -> Seq<u64>
    decreases s.len(),
{
    if s.len() == 0 {
        Seq::empty()
    } else if s.last() == id {
        without_id(s.drop_last(), id)
    } else {
        without_id(s.drop_last(), id).push(s.last())
    }
}

proof fn lemma_without_membership(s: Seq<u64>, id: u64)
    ensures
        forall|x: u64| #[trigger] without_id(s, id).contains(x) ==> s.contains(x) && x != id,
    decreases s.len(),
{
    if s.len() > 0 {
        lemma_without_membership(s.drop_last(), id);
        assert forall|x: u64| #[trigger]
            without_id(s, id).contains(x) implies s.contains(x) && x != id by {
            let w = without_id(s, id);
            let k = choose|k: int| 0 <= k < w.len() && w[k] == x;
            if s.last() != id && k == w.len() - 1 {
                assert(s[s.len() - 1] == x);
            } else {
                assert(without_id(s.drop_last(), id)[k] == x);
                assert(without_id(s.drop_last(), id).contains(x));
                let m = choose|m: int| 0 <= m < s.drop_last().len() && s.drop_last()[m] == x;
                assert(s[m] == x);
            }
        }
    }
}

proof fn lemma_without_distinct(s: Seq<u64>, id: u64)
    requires
        forall|i: int, j: int| 0 <= i < j < s.len() ==> s[i] != s[j],
    ensures
        forall|i: int, j: int|
            0 <= i < j < without_id(s, id).len() ==> without_id(s, id)[i] != without_id(s, id)[j],
    decreases s.len(),
{
    if s.len() > 0 {
        assert(forall|i: int, j: int|
            0 <= i < j < s.drop_last().len() ==> s.drop_last()[i] != s.drop_last()[j]);
        lemma_without_distinct(s.drop_last(), id);
        lemma_without_membership(s.drop_last(), id);
        if s.last() != id {
            let w0 = without_id(s.drop_last(), id);
            assert forall|i: int, j: int|
                0 <= i < j < without_id(s, id).len() implies without_id(s, id)[i] != without_id(
                s,
                id,
            )[j] by {
                if j == w0.len() {
                    assert(without_id(s, id)[j] == s.last());
                    assert(without_id(s, id)[i] == w0[i]);
                    if w0[i] == s.last() {
                        assert(w0.contains(w0[i]));
                        assert(s.drop_last().contains(s.last()));
                        let m = choose|m: int|
                            0 <= m < s.drop_last().len() && s.drop_last()[m] == s.last();
                        assert(s[m] == s[s.len() - 1]);
                    }
                } else {
                    assert(without_id(s, id)[i] == w0[i]);
                    assert(without_id(s, id)[j] == w0[j]);
                }
            }
        }
    }
}

impl ConnectionRegistry {
    /// The registered connection ids, in registration order.
    pub closed spec fn ids(&self) -> Seq<u64> {
        self.conns@
    }

    /// Every id handed out so far lies below this bound, so an id at or
    /// above it is one no current connection holds.
    pub closed spec fn id_bound(&self) -> int {
        self.next_id as int
    }

    /// Well-formed: ids are unique and below the freshness bound.
    pub open spec fn wf(&self) -> bool {
        &&& forall|i: int, j: int| 0 <= i < j < self.ids().len() ==> self.ids()[i] != self.ids()[j]
        &&& forall|i: int| 0 <= i < self.ids().len() ==> (#[trigger] self.ids()[i]) < self.id_bound()
    }

    /// An empty registry: no connections, nothing to deliver to.
    pub fn new() -> (r: ConnectionRegistry)
        ensures
            r.wf(),
            r.ids() == Seq::<u64>::empty(),
    {
        ConnectionRegistry { next_id: 0, conns: Vec::new() }
    }

    /// Number of connected clients.
    pub fn len(&self) -> (r: usize)
        ensures
            r == self.ids().len(),
    {
        self.conns.len()
    }

    /// Registers a new connection under a fresh id: the id differs from
    /// every registered one, and the registry grows by exactly that id.
    /// `None` only when the id space is exhausted, which leaves the
    /// registry unchanged.
    pub fn register(&mut self) -> (r: Option<u64>)
        requires
            old(self).wf(),
        ensures
            final(self).wf(),
            r matches Some(id) ==> !old(self).ids().contains(id) && final(self).ids() == old(
                self,
            ).ids().push(id) && final(self).id_bound() > old(self).id_bound(),
            r is None <==> old(self).id_bound() == u64::MAX as int,
            r is None ==> final(self).ids() == old(self).ids() && final(self).id_bound() == old(
                self,
            ).id_bound(),
    {
        if self.next_id == u64::MAX {
            return None;
        }
        let id = self.next_id;
        self.next_id = self.next_id + 1;
        self.conns.push(id);
        proof {
            if old(self).ids().contains(id) {
                let k = choose|k: int|
                    0 <= k < old(self).ids().len() && old(self).ids()[k] == id;
                assert(old(self).ids()[k] < id);
            }
        }
        Some(id)
    }

    /// Removes a connection after its disconnect or a failed send; ids of
    /// the others, and their order, are untouched.
    pub fn deregister(&mut self, id: u64)
        requires
            old(self).wf(),
        ensures
            final(self).wf(),
            final(self).ids() == without_id(old(self).ids(), id),
            final(self).id_bound() == old(self).id_bound(),
    {
        let ghost orig = self.conns@;
        let mut kept: Vec<u64> = Vec::new();
        let mut i: usize = 0;
        proof {
            assert(orig.subrange(0, 0) =~= Seq::<u64>::empty());
        }
        while i < self.conns.len()
            invariant
                i <= orig.len(),
                self.conns@ == orig,
                kept@ == without_id(orig.subrange(0, i as int), id),
            decreases orig.len() - i,
        {
            let c = self.conns[i];
            proof {
                assert(orig.subrange(0, (i + 1) as int).drop_last() =~= orig.subrange(0, i as int));
                assert(orig.subrange(0, (i + 1) as int).last() == c);
            }
            if c != id {
                kept.push(c);
            }
            i += 1;
        }
        proof {
            assert(orig.subrange(0, orig.len() as int) =~= orig);
            assert(old(self).ids() == orig);
            assert(forall|i: int, j: int| 0 <= i < j < orig.len() ==> orig[i] != orig[j]);
            lemma_without_membership(orig, id);
            lemma_without_distinct(orig, id);
            assert forall|k: int|
                0 <= k < without_id(orig, id).len() implies (#[trigger] without_id(orig, id)[k])
                < old(self).id_bound() by {
                let w = without_id(orig, id);
                assert(w.contains(w[k]));
                assert(orig.contains(w[k]));
                let m = choose|m: int| 0 <= m < orig.len() && orig[m] == w[k];
                assert(old(self).ids()[m] == w[k]);
            }
        }
        self.conns = kept;
    }

    /// The fan-out targets of one broadcast: a snapshot of exactly the
    /// connections registered at this moment. A signal sent to these
    /// targets reaches every current listener and no other; with no
    /// listeners the snapshot is empty and the signal is dropped.
    pub fn broadcast_targets(&self) -> (r: Vec<u64>)
        ensures
            r@ == self.ids(),
    {
        let mut out: Vec<u64> = Vec::new();
        let mut i: usize = 0;
        while i < self.conns.len()
            invariant
                i <= self.conns@.len(),
                out@ == self.conns@.subrange(0, i as int),
            decreases self.conns@.len() - i,
        {
            let c = self.conns[i];
            out.push(c);
            proof {
                assert(self.conns@.subrange(0, (i + 1) as int) =~= self.conns@.subrange(
                    0,
                    i as int,
                ).push(c));
            }
            i += 1;
        }
        proof {
            assert(self.conns@.subrange(0, self.conns@.len() as int) =~= self.conns@);
        }
        out
    }
}

/// Signals are never replayed: a broadcast's targets are the connections
/// registered at that moment, and an id not yet handed out — any id at or
/// above the freshness bound, as every later registration's is — is not
/// among them. A client connecting after a broadcast therefore receives
/// no backlog; in particular a signal broadcast to an empty registry
/// reaches nobody, then or later.
pub proof fn lemma_no_replay(reg: ConnectionRegistry, future_id: u64)
    requires
        reg.wf(),
        future_id as int >= reg.id_bound(),
    ensures
        !reg.ids().contains(future_id),
{
    if reg.ids().contains(future_id) {
        let k = choose|k: int| 0 <= k < reg.ids().len() && reg.ids()[k] == future_id;
        assert(reg.ids()[k] < reg.id_bound());
    }
}

} // verus!
