//! An ordered set of epochs.

use vstd::prelude::*;
use crate::epoch::{HummockEpoch, MAX_EPOCH};

verus! {

/// The least member of `s` that is at least `bound`; `MAX_EPOCH` where
/// `s` has none.
pub open spec fn least_at_least(s: Set<HummockEpoch>, bound: HummockEpoch) -> HummockEpoch {
    if exists|e: HummockEpoch| s.contains(e) && e >= bound {
        choose|r: HummockEpoch|
            s.contains(r) && r >= bound && forall|e: HummockEpoch|
                s.contains(e) && e >= bound ==> r <= e
    } else {
        MAX_EPOCH
    }
}

/// The greatest member of `s` that is at most `bound`; 0 where `s` has
/// none.
pub open spec fn greatest_at_most(s: Set<HummockEpoch>, bound: HummockEpoch) -> HummockEpoch {
    if exists|e: HummockEpoch| s.contains(e) && e <= bound {
        choose|r: HummockEpoch|
            s.contains(r) && r <= bound && forall|e: HummockEpoch|
                s.contains(e) && e <= bound ==> e <= r
    } else {
        0
    }
}

/// `r` is `least_at_least(s, bound)` if it is a member of `s`, at least
/// `bound`, and no such member is smaller.
pub proof fn lemma_least_at_least_is(s: Set<HummockEpoch>, bound: HummockEpoch, r: HummockEpoch)
    requires
        s.contains(r),
        r >= bound,
        forall|e: HummockEpoch| s.contains(e) && e >= bound ==> r <= e,
    ensures
        least_at_least(s, bound) == r,
{
    let c = least_at_least(s, bound);
    assert(s.contains(c) && c >= bound && forall|e: HummockEpoch|
        s.contains(e) && e >= bound ==> c <= e);
}

/// `r` is `greatest_at_most(s, bound)` if it is a member of `s`, at most
/// `bound`, and no such member is greater.
pub proof fn lemma_greatest_at_most_is(s: Set<HummockEpoch>, bound: HummockEpoch, r: HummockEpoch)
    requires
        s.contains(r),
        r <= bound,
        forall|e: HummockEpoch| s.contains(e) && e <= bound ==> e <= r,
    ensures
        greatest_at_most(s, bound) == r,
{
    let c = greatest_at_most(s, bound);
    assert(s.contains(c) && c <= bound && forall|e: HummockEpoch|
        s.contains(e) && e <= bound ==> e <= c);
}

/// A set of epochs, kept in increasing order.
#[derive(Debug)]
pub struct EpochSet {
    epochs: Vec<HummockEpoch>,
}

impl View for EpochSet {
    type V = Set<HummockEpoch>;

    closed spec fn view(&self) -> Set<HummockEpoch> {
        self.epochs@.to_set()
    }
}

impl EpochSet {
    /// The members are held in strictly increasing order.
    pub closed spec fn wf(&self) -> bool {
        forall|i: int, j: int| 0 <= i < j < self.epochs.len() ==> self.epochs[i] < self.epochs[j]
    }

    /// The empty set.
    pub fn new() -> (r: Self)
        ensures
            r.wf(),
            r@ == Set::<HummockEpoch>::empty(),
    {
        let r = EpochSet { epochs: Vec::new() };
        assert(r.epochs@.to_set() =~= Set::<HummockEpoch>::empty());
        r
    }

    /// Empties the set.
    pub fn clear(&mut self)
        ensures
            final(self).wf(),
            final(self)@ == Set::<HummockEpoch>::empty(),
    {
        self.epochs.clear();
        assert(self.epochs@.to_set() =~= Set::<HummockEpoch>::empty());
    }

    /// How many members lie below `bound`.
    fn lower_bound(&self, bound: HummockEpoch) -> (idx: usize)
        requires
            self.wf(),
        ensures
            idx <= self.epochs.len(),
            forall|i: int| 0 <= i < idx ==> self.epochs[i] < bound,
            forall|i: int| idx <= i < self.epochs.len() ==> self.epochs[i] >= bound,
    {
        let mut lo: usize = 0;
        let mut hi: usize = self.epochs.len();
        while lo < hi
            invariant
                lo <= hi <= self.epochs.len(),
                forall|i: int, j: int|
                    0 <= i < j < self.epochs.len() ==> self.epochs[i] < self.epochs[j],
                forall|i: int| 0 <= i < lo ==> self.epochs[i] < bound,
                forall|i: int| hi <= i < self.epochs.len() ==> self.epochs[i] >= bound,
            decreases hi - lo,
        {
            let mid: usize = lo + (hi - lo) / 2;
            if self.epochs[mid] < bound {
                lo = mid + 1;
            } else {
                hi = mid;
            }
        }
        lo
    }

    /// Whether `epoch` is a member.
    pub fn contains(&self, epoch: HummockEpoch) -> (r: bool)
        requires
            self.wf(),
        ensures
            r == self@.contains(epoch),
    {
        let idx = self.lower_bound(epoch);
        idx < self.epochs.len() && self.epochs[idx] == epoch
    }

    /// Adds `epoch`; says whether it was new.
    pub fn insert(&mut self, epoch: HummockEpoch) -> (r: bool)
        requires
            old(self).wf(),
        ensures
            final(self).wf(),
            final(self)@ == old(self)@.insert(epoch),
            r == !old(self)@.contains(epoch),
    {
        let idx = self.lower_bound(epoch);
        if idx < self.epochs.len() && self.epochs[idx] == epoch {
            assert(self.epochs@.to_set().insert(epoch) =~= self.epochs@.to_set());
            false
        } else {
            let ghost before = self.epochs@;
            self.epochs.insert(idx, epoch);
            proof {
                let after = self.epochs@;
                assert forall|e: HummockEpoch|
                    after.to_set().contains(e) == before.to_set().insert(epoch).contains(e) by {
                    if after.contains(e) {
                        let k = choose|k: int| 0 <= k < after.len() && after[k] == e;
                        if k < idx {
                            assert(before[k] == e);
                        } else if k > idx {
                            assert(before[k - 1] == e);
                        }
                    }
                    if before.contains(e) {
                        let k = choose|k: int| 0 <= k < before.len() && before[k] == e;
                        if k < idx {
                            assert(after[k] == e);
                        } else {
                            assert(after[k + 1] == e);
                        }
                    }
                    if e == epoch {
                        assert(after[idx as int] == e);
                    }
                }
                assert(after.to_set() =~= before.to_set().insert(epoch));
                assert(!before.contains(epoch));
            }
            true
        }
    }

    /// Takes `epoch` out; says whether it was a member.
    pub fn remove(&mut self, epoch: HummockEpoch) -> (r: bool)
        requires
            old(self).wf(),
        ensures
            final(self).wf(),
            final(self)@ == old(self)@.remove(epoch),
            r == old(self)@.contains(epoch),
    {
        let idx = self.lower_bound(epoch);
        if idx < self.epochs.len() && self.epochs[idx] == epoch {
            let ghost before = self.epochs@;
            self.epochs.remove(idx);
            proof {
                let after = self.epochs@;
                assert forall|e: HummockEpoch|
                    after.to_set().contains(e) == before.to_set().remove(epoch).contains(e) by {
                    if after.contains(e) {
                        let k = choose|k: int| 0 <= k < after.len() && after[k] == e;
                        if k < idx {
                            assert(before[k] == e);
                        } else {
                            assert(before[k + 1] == e);
                        }
                    }
                    if before.contains(e) && e != epoch {
                        let k = choose|k: int| 0 <= k < before.len() && before[k] == e;
                        if k < idx {
                            assert(after[k] == e);
                        } else {
                            assert(after[k - 1] == e);
                        }
                    }
                }
                assert(after.to_set() =~= before.to_set().remove(epoch));
                assert(before[idx as int] == epoch);
            }
            true
        } else {
            assert(!self.epochs@.contains(epoch));
            assert(self.epochs@.to_set().remove(epoch) =~= self.epochs@.to_set());
            false
        }
    }

    /// The least member that is at least `bound`; `MAX_EPOCH` where there
    /// is none.
    pub fn first_at_least(&self, bound: HummockEpoch) -> (r: HummockEpoch)
        requires
            self.wf(),
        ensures
            r == least_at_least(self@, bound),
    {
        let idx = self.lower_bound(bound);
        if idx < self.epochs.len() {
            let r = self.epochs[idx];
            proof {
                assert(self.epochs@.contains(r));
                assert forall|e: HummockEpoch| self@.contains(e) && e >= bound implies r <= e by {
                    let k = choose|k: int| 0 <= k < self.epochs@.len() && self.epochs@[k] == e;
                    assert(k >= idx);
                }
                lemma_least_at_least_is(self@, bound, r);
            }
            r
        } else {
            proof {
                assert forall|e: HummockEpoch| self@.contains(e) implies e < bound by {
                    let k = choose|k: int| 0 <= k < self.epochs@.len() && self.epochs@[k] == e;
                }
            }
            MAX_EPOCH
        }
    }

    /// The greatest member that is at most `bound`; 0 where there is none.
    pub fn last_at_most(&self, bound: HummockEpoch) -> (r: HummockEpoch)
        requires
            self.wf(),
        ensures
            r == greatest_at_most(self@, bound),
    {
        let idx = if bound == MAX_EPOCH {
            self.epochs.len()
        } else {
            self.lower_bound(bound + 1)
        };
        if idx > 0 {
            let r = self.epochs[idx - 1];
            proof {
                assert(self.epochs@.contains(r));
                assert forall|e: HummockEpoch| self@.contains(e) && e <= bound implies e <= r by {
                    let k = choose|k: int| 0 <= k < self.epochs@.len() && self.epochs@[k] == e;
                    assert(k < idx);
                }
                lemma_greatest_at_most_is(self@, bound, r);
            }
            r
        } else {
            proof {
                assert forall|e: HummockEpoch| self@.contains(e) implies e > bound by {
                    let k = choose|k: int| 0 <= k < self.epochs@.len() && self.epochs@[k] == e;
                }
            }
            0
        }
    }
}

} // verus!
