//! The set of peer addresses that this node knows of.
use vstd::prelude::*;

use crate::text::views;

verus! {

/// Merging one address twice leaves the same set as merging it once, and
/// so does merging a whole registry twice.
pub proof fn merging_twice_equals_once(registry: PeerRegistry, addr: Seq<char>, other: PeerRegistry)
    ensures
        registry@.insert(addr).insert(addr) == registry@.insert(addr),
        registry@.union(other@).union(other@) == registry@.union(other@),
{
    assert(registry@.insert(addr).insert(addr) =~= registry@.insert(addr));
    assert(registry@.union(other@).union(other@) =~= registry@.union(other@));
}

/// The known peers: a set of addresses, kept in order of first arrival and
/// without duplicates. It only grows.
pub struct PeerRegistry {
    addrs: Vec<String>,
}

impl View for PeerRegistry {
    type V = Set<Seq<char>>;

    open spec fn view(&self) -> Set<Seq<char>> {
        self.entries().to_set()
    }
}

impl PeerRegistry {
    /// The addresses in the order they were first recorded.
    pub closed spec fn entries(&self) -> Seq<Seq<char>> {
        views(self.addrs@)
    }

    /// No address is held twice.
    pub open spec fn wf(&self) -> bool {
        self.entries().no_duplicates()
    }

    pub fn new() -> (r: PeerRegistry)
        ensures
            r.wf(),
            r.entries() == Seq::<Seq<char>>::empty(),
            r@ == Set::<Seq<char>>::empty(),
    {
        let r = PeerRegistry { addrs: Vec::new() };
        assert(r.entries() =~= Seq::<Seq<char>>::empty());
        r
    }

    pub fn len(&self) -> (r: usize)
        requires
            self.wf(),
        ensures
            r == self.entries().len(),
            r == self@.len(),
    {
        proof {
            self.entries().unique_seq_to_set();
        }
        self.addrs.len()
    }

    pub fn contains(&self, addr: &String) -> (r: bool)
        ensures
            r == self@.contains(addr@),
    {
        let mut i: usize = 0;
        while i < self.addrs.len()
            invariant
                i <= self.addrs.len(),
                forall|k: int| 0 <= k < i ==> self.entries()[k] != addr@,
            decreases self.addrs.len() - i,
        {
            if self.addrs[i] == *addr {
                assert(self.entries()[i as int] == addr@);
                return true;
            }
            i += 1;
        }
        false
    }

    /// Records `addr`; returns whether it was new.
    pub fn insert(&mut self, addr: String) -> (r: bool)
        requires
            old(self).wf(),
        ensures
            final(self).wf(),
            final(self)@ == old(self)@.insert(addr@),
            r == !old(self)@.contains(addr@),
            r ==> final(self).entries() == old(self).entries().push(addr@),
            !r ==> final(self).entries() == old(self).entries(),
    {
        if self.contains(&addr) {
            assert(self@.insert(addr@) =~= self@);
            false
        } else {
            let ghost before = self.entries();
            self.addrs.push(addr);
            assert(self.entries() =~= before.push(addr@));
            proof {
                before.lemma_push_to_set_commute(addr@);
            }
            true
        }
    }

    /// Inserts every address of `other`; never removes any.
    pub fn merge(&mut self, other: &PeerRegistry)
        requires
            old(self).wf(),
        ensures
            final(self).wf(),
            final(self)@ == old(self)@.union(other@),
    {
        let ghost start = self@;
        let mut i: usize = 0;
        while i < other.addrs.len()
            invariant
                self.wf(),
                i <= other.addrs.len(),
                self@ == start.union(other.entries().take(i as int).to_set()),
            decreases other.addrs.len() - i,
        {
            let a = other.addrs[i].clone();
            self.insert(a);
            proof {
                assert(other.entries().take(i + 1) =~= other.entries().take(i as int).push(
                    other.entries()[i as int],
                ));
                other.entries().take(i as int).lemma_push_to_set_commute(other.entries()[i as int]);
            }
            i += 1;
        }
        assert(other.entries().take(other.addrs.len() as int) =~= other.entries());
        assert(self@ =~= start.union(other@));
    }

    /// A copy of the registry as it stands.
    pub fn snapshot(&self) -> (r: PeerRegistry)
        ensures
            r.entries() == self.entries(),
            r@ == self@,
            self.wf() ==> r.wf(),
    {
        PeerRegistry { addrs: self.addresses() }
    }

    /// The addresses, in the order of `entries`.
    pub fn addresses(&self) -> (r: Vec<String>)
        ensures
            views(r@) == self.entries(),
    {
        let mut out: Vec<String> = Vec::new();
        let mut i: usize = 0;
        while i < self.addrs.len()
            invariant
                i <= self.addrs.len(),
                views(out@) == self.entries().take(i as int),
            decreases self.addrs.len() - i,
        {
            let ghost before = out@;
            let a = self.addrs[i].clone();
            assert(a@ == self.entries()[i as int]);
            out.push(a);
            assert(views(out@) =~= views(before).push(a@));
            assert(self.entries().take(i + 1) =~= self.entries().take(i as int).push(a@));
            i += 1;
        }
        assert(self.entries().take(self.addrs.len() as int) =~= self.entries());
        out
    }

    /// Answers a greeting from `remote`: takes the snapshot first, then
    /// records `remote`, and returns the snapshot, so that the reply never
    /// names the greeting peer unless it was already known.
    pub fn record_greeting(&mut self, remote: String) -> (r: PeerRegistry)
        requires
            old(self).wf(),
        ensures
            r.wf(),
            r.entries() == old(self).entries(),
            final(self).wf(),
            final(self)@ == old(self)@.insert(remote@),
    {
        let r = self.snapshot();
        self.insert(remote);
        r
    }
}

} // verus!
