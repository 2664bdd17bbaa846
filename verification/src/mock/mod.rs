//! Mock devices for exercising strategies in tests and simulations.
//!
//! Each device holds its slots as byte vectors, one byte per logical
//! page, and tracks how often each page has been erased, so tests can
//! check both the final contents and the wear a strategy causes.
use vstd::prelude::*;

use crate::{MemoryLocation, Slot};


pub mod multi_scratch;
pub mod single_scratch;
pub mod tri_slot;

verus! {

/// How many entries of the log equal `loc`.
pub open spec fn count_of(log: Seq<MemoryLocation>, loc: MemoryLocation) -> int
    decreases log.len(),
{
    if log.len() == 0 {
        0
    } else {
        (if log[0] == loc {
            1int
        } else {
            0int
        }) + count_of(log.skip(1), loc)
    }
}

/// Appending one entry raises exactly that location's count by one.
proof fn lemma_count_push(log: Seq<MemoryLocation>, x: MemoryLocation, loc: MemoryLocation)
    ensures
        count_of(log.push(x), loc) == count_of(log, loc) + if x == loc {
            1int
        } else {
            0int
        },
    decreases log.len(),
{
    if log.len() == 0 {
        assert(log.push(x)[0] == x);
        assert(log.push(x).skip(1) =~= Seq::<MemoryLocation>::empty());
        assert(count_of(Seq::<MemoryLocation>::empty(), loc) == 0);
    } else {
        assert(log.push(x).skip(1) =~= log.skip(1).push(x));
        lemma_count_push(log.skip(1), x, loc);
    }
}

/// A location with a positive count occurs in the log.
proof fn lemma_count_pos(log: Seq<MemoryLocation>, loc: MemoryLocation)
    requires
        count_of(log, loc) > 0,
    ensures
        exists|i: int| 0 <= i < log.len() && log[i] == loc,
    decreases log.len(),
{
    if log[0] == loc {
        assert(0 <= 0 < log.len() && log[0] == loc);
    } else {
        lemma_count_pos(log.skip(1), loc);
        let i = choose|i: int| 0 <= i < log.skip(1).len() && log.skip(1)[i] == loc;
        assert(log[i + 1] == loc);
    }
}

/// Counts are never negative.
proof fn lemma_count_nonneg(log: Seq<MemoryLocation>, loc: MemoryLocation)
    ensures
        count_of(log, loc) >= 0,
    decreases log.len(),
{
    if log.len() > 0 {
        lemma_count_nonneg(log.skip(1), loc);
    }
}

/// Tracks how often each memory location has been erased, as a log of
/// erase events.
pub struct WearTracker {
    erases: Vec<MemoryLocation>,
}

impl WearTracker {
    /// How many erases have been recorded for a location.
    pub closed spec fn spec_wear(&self, loc: MemoryLocation) -> int {
        count_of(self.erases@, loc)
    }

    /// A fresh tracker with no erase recorded anywhere.
    pub fn new() -> (r: WearTracker)
        ensures
            forall|loc: MemoryLocation| #[trigger] r.spec_wear(loc) == 0,
    {
        WearTracker { erases: Vec::new() }
    }

    /// Record one erase of `addr`.
    pub fn increase(&mut self, addr: MemoryLocation)
        ensures
            final(self).spec_wear(addr) == old(self).spec_wear(addr) + 1,
            forall|loc: MemoryLocation|
                loc != addr ==> #[trigger] final(self).spec_wear(loc) == old(self).spec_wear(loc),
    {
        self.erases.push(addr);
        proof {
            assert(self.erases@ == old(self).erases@.push(addr));
            assert forall|loc: MemoryLocation| #[trigger]
                self.spec_wear(loc) == old(self).spec_wear(loc) + (if loc == addr {
                    1int
                } else {
                    0int
                }) by {
                lemma_count_push(old(self).erases@, addr, loc);
            }
        }
    }

    /// How many erases have been recorded for a location.
    pub fn wear(&self, loc: MemoryLocation) -> (r: usize)
        ensures
            r == self.spec_wear(loc),
    {
        let mut n: usize = 0;
        let mut i: usize = 0;
        proof {
            assert(self.erases@.take(0) =~= Seq::empty());
        }
        while i < self.erases.len()
            invariant
                i <= self.erases@.len(),
                n == count_of(self.erases@.take(i as int), loc),
                n <= i,
            decreases self.erases@.len() - i,
        {
            proof {
                assert(self.erases@.take(i + 1) =~= self.erases@.take(i as int).push(
                    self.erases@[i as int],
                ));
                lemma_count_push(self.erases@.take(i as int), self.erases@[i as int], loc);
                lemma_count_nonneg(self.erases@.take(i as int), loc);
            }
            if self.erases[i] == loc {
                n += 1;
            }
            i += 1;
        }
        proof {
            assert(self.erases@.take(self.erases@.len() as int) =~= self.erases@);
        }
        n
    }

    /// Check the wear on all pages of a slot for worst wear: true when no
    /// page of the slot has endured more erases than `wear_level`.
    pub fn check_slot(&self, slot: Slot, wear_level: usize) -> (r: bool)
        ensures
            r <==> forall|loc: MemoryLocation|
                loc.slot == slot ==> #[trigger] self.spec_wear(loc) <= wear_level,
    {
        let mut i: usize = 0;
        while i < self.erases.len()
            invariant
                i <= self.erases@.len(),
                forall|j: int|
                    0 <= j < i && (#[trigger] self.erases@[j]).slot == slot ==> self.spec_wear(
                        self.erases@[j],
                    ) <= wear_level,
            decreases self.erases@.len() - i,
        {
            let entry = self.erases[i];
            if entry.slot == slot {
                let w = self.wear(entry);
                if w > wear_level {
                    return false;
                }
            }
            i += 1;
        }
        proof {
            assert forall|loc: MemoryLocation|
                loc.slot == slot implies #[trigger] self.spec_wear(loc) <= wear_level by {
                lemma_count_nonneg(self.erases@, loc);
                if self.spec_wear(loc) > 0 {
                    lemma_count_pos(self.erases@, loc);
                }
            }
        }
        true
    }
}

} // verus!
