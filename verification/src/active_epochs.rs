//! The epochs of the range deletes that hold at one point of a sweep over
//! the keys: an ordered multiset, smallest first.

use crate::key::{HummockEpoch, MAX_EPOCH};
use vstd::multiset::Multiset;
use vstd::prelude::*;

verus! {

/// An ordered multiset of epochs, kept as a vector in ascending order. Two
/// range deletes of one epoch may hold at the same point, so an epoch is
/// counted as often as it was put in, which an ordered set would not do;
/// the smallest epoch, which is asked for at every step, stands first.
pub struct ActiveEpochs {
    epochs: Vec<HummockEpoch>,
}

/// The smallest epoch in `m`, or `MAX_EPOCH` where `m` is empty.
pub open spec fn spec_min_epoch(m: Multiset<u64>) -> u64 {
    if m.len() == 0 {
        MAX_EPOCH
    } else {
        choose|e: u64| m.count(e) > 0 && forall|x: u64| m.count(x) > 0 ==> e <= x
    }
}

/// An epoch that is in `m` and no larger than any other is the smallest.
pub proof fn lemma_min_epoch_is(m: Multiset<u64>, e: u64)
    requires
        m.count(e) > 0,
        forall|x: u64| m.count(x) > 0 ==> e <= x,
    ensures
        spec_min_epoch(m) == e,
{
    broadcast use vstd::multiset::group_multiset_axioms;

    assert(m.len() != 0) by {
        if m.len() == 0 {
            assert(m =~= Multiset::empty());
        }
    }
    let c = spec_min_epoch(m);
    assert(m.count(c) > 0 && forall|x: u64| m.count(x) > 0 ==> c <= x);
}

/// Whether `s` ascends.
pub open spec fn spec_ascending(s: Seq<u64>) -> bool {
    forall|i: int, j: int| 0 <= i <= j < s.len() ==> s[i] <= s[j]
}

/// The empty sequence holds nothing.
pub proof fn lemma_empty_to_multiset<A>()
    ensures
        Seq::<A>::empty().to_multiset() == Multiset::<A>::empty(),
{
    broadcast use vstd::multiset::group_multiset_axioms;

    let s = Seq::<A>::empty();
    s.to_multiset_ensures();
    assert(s.to_multiset().len() == 0);
    assert(s.to_multiset() =~= Multiset::<A>::empty());
}

/// Inserting into a sequence adds one occurrence to its multiset.
pub proof fn lemma_insert_to_multiset<A>(s: Seq<A>, i: int, e: A)
    requires
        0 <= i <= s.len(),
    ensures
        s.insert(i, e).to_multiset() == s.to_multiset().insert(e),
{
    broadcast use vstd::multiset::group_multiset_axioms;

    let t = s.insert(i, e);
    assert(t.remove(i) =~= s);
    vstd::seq_lib::to_multiset_remove(t, i);
    t.to_multiset_ensures();
    assert(t.contains(e)) by {
        assert(t[i] == e);
    }
    assert(t.to_multiset() =~= s.to_multiset().insert(e));
}

impl ActiveEpochs {
    /// The epochs held, each as often as it was inserted and not removed.
    pub closed spec fn view(&self) -> Multiset<u64> {
        self.epochs@.to_multiset()
    }

    /// The representation invariant.
    pub closed spec fn wf(&self) -> bool {
        spec_ascending(self.epochs@)
    }

    /// The empty multiset.
    pub fn new() -> (r: Self)
        ensures
            r.wf(),
            r@ == Multiset::<u64>::empty(),
    {
        let r = ActiveEpochs { epochs: Vec::new() };
        proof {
            r.epochs@.to_multiset_ensures();
            assert(r@.len() == 0);
            assert(r@ =~= Multiset::<u64>::empty()) by {
                broadcast use vstd::multiset::group_multiset_axioms;

            }
        }
        r
    }

    /// Number of epochs held, counting repeats.
    pub fn len(&self) -> (r: usize)
        ensures
            r == self@.len(),
    {
        proof {
            self.epochs@.to_multiset_ensures();
        }
        self.epochs.len()
    }

    /// Adds one occurrence of `epoch`.
    pub fn insert(&mut self, epoch: HummockEpoch)
        requires
            old(self).wf(),
        ensures
            final(self).wf(),
            final(self)@ == old(self)@.insert(epoch),
    {
        let mut i: usize = 0;
        while i < self.epochs.len() && self.epochs[i] < epoch
            invariant
                i <= self.epochs@.len(),
                self.epochs@ == old(self).epochs@,
                forall|k: int| 0 <= k < i ==> self.epochs@[k] < epoch,
            decreases self.epochs@.len() - i,
        {
            i += 1;
        }
        proof {
            lemma_insert_to_multiset(self.epochs@, i as int, epoch);
        }
        self.epochs.insert(i, epoch);
    }

    /// Takes out one occurrence of `epoch`, if there is one.
    pub fn remove(&mut self, epoch: HummockEpoch)
        requires
            old(self).wf(),
        ensures
            final(self).wf(),
            final(self)@ == old(self)@.remove(epoch),
    {
        broadcast use vstd::multiset::group_multiset_axioms;

        let mut i: usize = 0;
        while i < self.epochs.len() && self.epochs[i] != epoch
            invariant
                i <= self.epochs@.len(),
                self.epochs@ == old(self).epochs@,
                forall|k: int| 0 <= k < i ==> self.epochs@[k] != epoch,
            decreases self.epochs@.len() - i,
        {
            i += 1;
        }
        if i < self.epochs.len() {
            proof {
                vstd::seq_lib::to_multiset_remove(self.epochs@, i as int);
            }
            self.epochs.remove(i);
        } else {
            proof {
                self.epochs@.to_multiset_ensures();
                assert(!self.epochs@.contains(epoch));
                assert(self@.count(epoch) == 0);
                assert(self@.remove(epoch) =~= self@);
            }
        }
    }

    /// The smallest epoch held, or `None` where none is held.
    pub fn first(&self) -> (r: Option<HummockEpoch>)
        requires
            self.wf(),
        ensures
            r is None <==> self@.len() == 0,
            r matches Some(e) ==> e == spec_min_epoch(self@),
    {
        proof {
            self.epochs@.to_multiset_ensures();
        }
        if self.epochs.len() == 0 {
            None
        } else {
            let e = self.epochs[0];
            proof {
                assert(self.epochs@.contains(e));
                assert forall|x: u64| self@.count(x) > 0 implies e <= x by {
                    assert(self.epochs@.contains(x));
                    let k = choose|k: int| 0 <= k < self.epochs@.len() && self.epochs@[k] == x;
                    assert(self.epochs@[0] <= self.epochs@[k]);
                }
                lemma_min_epoch_is(self@, e);
            }
            Some(e)
        }
    }

    /// The smallest epoch held, or `MAX_EPOCH` where none is held.
    pub fn min_epoch(&self) -> (r: HummockEpoch)
        requires
            self.wf(),
        ensures
            r == spec_min_epoch(self@),
    {
        match self.first() {
            Some(e) => e,
            None => MAX_EPOCH,
        }
    }
}

} // verus!
