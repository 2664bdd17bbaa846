//! Strategy to copy a slot from a source to the primary slot, completely
//! forgetting what is in the primary slot.
//!
//! This is useful if you have sufficient memory on the board to keep all
//! versions around, but only one type of memory from which the
//! application can be executed (for example: MCU flash and an on-pcb NOR
//! flash module with plenty of space left).
//!
//! Another advantage is that it does not require a scratch page.
use vstd::prelude::*;

use crate::model;
use crate::strategies::Strategy;
use crate::{CopyOperation, Device, DeviceWithPrimarySlot, MemoryLocation, Page, Slot, Step};

verus! {

/// Request to boot a secondary image, with an optional backup if the
/// secondary image is invalid.
///
/// * Note that if the backup is not provided, the device might brick
///   itself.
/// * Note that the backup should have run successfully previously to
///   ensure successful operation.
#[derive(Clone, Copy, PartialEq, Eq, Structural, Debug)]
pub struct Request {
    /// The image to copy to the primary slot.
    pub slot_secondary: Slot,
    /// The image to copy to the primary slot when the secondary image
    /// fails to boot.
    pub slot_backup: Option<Slot>,
}

/// One-way copy of a source slot over the primary slot.
pub struct Copy {
    pub request: Request,
    pub num_pages: u16,
    pub slot_primary: Slot,
}

impl Copy {
    pub fn new(device: &(impl Device + DeviceWithPrimarySlot), request: Request) -> (r: Copy)
        requires
            request.slot_secondary != device.spec_primary(),
            request.slot_backup matches Some(b) ==> b != device.spec_primary(),
        ensures
            r.wf(),
            r.request == request,
            r.num_pages == device.spec_page_count(),
            r.slot_primary == device.spec_primary(),
    {
        Copy { request, num_pages: device.page_count(), slot_primary: device.get_primary() }
    }
}

impl Strategy for Copy {
    /// The source never coincides with the primary slot it overwrites,
    /// nor does the backup that a reverted copy would read from.
    open spec fn wf(&self) -> bool {
        &&& self.num_pages >= 1
        &&& self.request.slot_secondary != self.slot_primary
        &&& self.request.slot_backup matches Some(b) ==> b != self.slot_primary
    }

    /// One step copies everything over; a second step boots. More steps
    /// are not necessary because on resume the copy can start over.
    open spec fn spec_last_step(&self) -> int {
        1
    }

    /// The single work step copies every page of the source slot to the
    /// same page of the primary slot.
    open spec fn spec_plan(&self, step: int) -> Seq<CopyOperation> {
        Seq::new(
            self.num_pages as nat,
            |p: int|
                CopyOperation {
                    from: MemoryLocation {
                        slot: self.request.slot_secondary,
                        page: Page(p as u16),
                    },
                    to: MemoryLocation { slot: self.slot_primary, page: Page(p as u16) },
                },
        )
    }

    /// Reverting copies the backup over the primary slot, if a backup
    /// was provided.
    open spec fn spec_revert(&self) -> Option<Copy> {
        match self.request.slot_backup {
            Some(slot_backup) => Some(
                Copy {
                    request: Request { slot_secondary: slot_backup, slot_backup: None },
                    num_pages: self.num_pages,
                    slot_primary: self.slot_primary,
                },
            ),
            None => None,
        }
    }

    proof fn lemma_last_step_bounds(&self) {
    }

    proof fn lemma_plan_parallel(&self, step: int) {
        let ops = self.spec_plan(step);
        assert forall|i: int, j: int| 0 <= i < ops.len() && 0 <= j < ops.len() implies (
        #[trigger] ops[i]).to != (#[trigger] ops[j]).from by {
            assert(ops[i].to.slot == self.slot_primary);
            assert(ops[j].from.slot == self.request.slot_secondary);
        }
    }

    fn last_step(&self) -> (r: Step) {
        Step(1)
    }

    #[verifier::loop_isolation(false)]
    fn plan(&self, step: Step) -> (r: Vec<CopyOperation>) {
        let mut r: Vec<CopyOperation> = Vec::new();
        let mut p: u16 = 0;
        while p < self.num_pages
            invariant
                p <= self.num_pages,
                r@.len() == p as int,
                forall|i: int| 0 <= i < p ==> r@[i] == self.spec_plan(step.0 as int)[i],
            decreases self.num_pages - p,
        {
            r.push(
                CopyOperation {
                    from: MemoryLocation { slot: self.request.slot_secondary, page: Page(p) },
                    to: MemoryLocation { slot: self.slot_primary, page: Page(p) },
                },
            );
            p += 1;
        }
        proof {
            assert(r@ =~= self.spec_plan(step.0 as int));
        }
        r
    }

    fn revert(self) -> (r: Option<Copy>) {
        if let Some(slot_backup) = self.request.slot_backup {
            Some(
                Copy {
                    request: Request { slot_secondary: slot_backup, slot_backup: None },
                    num_pages: self.num_pages,
                    slot_primary: self.slot_primary,
                },
            )
        } else {
            None
        }
    }
}

impl Copy {
    /// The location of primary page `j`.
    pub open spec fn primary_loc(&self, j: int) -> MemoryLocation {
        MemoryLocation { slot: self.slot_primary, page: Page(j as u16) }
    }

    /// The location of page `j` of the source slot.
    pub open spec fn source_loc(&self, j: int) -> MemoryLocation {
        MemoryLocation { slot: self.request.slot_secondary, page: Page(j as u16) }
    }

    /// A full execution copies every page of the source slot over the
    /// corresponding primary page and changes nothing else; the source is
    /// left intact.
    pub proof fn lemma_copy_run<V>(&self, m: Map<MemoryLocation, V>)
        requires
            self.wf(),
        ensures
            forall|p: int|
                0 <= p < self.num_pages ==> #[trigger] model::run(m, self)[self.primary_loc(p)]
                    == m[self.source_loc(p)],
            forall|loc: MemoryLocation|
                !(loc.slot == self.slot_primary && loc.page.0 < self.num_pages)
                    ==> #[trigger] model::run(m, self)[loc] == m[loc],
    {
        let ops = self.spec_plan(0);
        let m1 = model::apply_ops(m, ops);
        assert(model::run_plan(m, self, 0, 1) == model::run_plan(m1, self, 1, 1));
        assert(model::run_plan(m1, self, 1, 1) == m1);
        self.lemma_plan_parallel(0);
        model::lemma_apply_ops_parallel(m, ops);
        assert forall|p: int| 0 <= p < self.num_pages implies #[trigger] model::run(
            m,
            self,
        )[self.primary_loc(p)] == m[self.source_loc(p)] by {
            assert(ops[p].to == self.primary_loc(p) && ops[p].from == self.source_loc(p));
        }
        assert forall|loc: MemoryLocation|
            !(loc.slot == self.slot_primary && loc.page.0 < self.num_pages)
            implies #[trigger] model::run(m, self)[loc] == m[loc] by {
            assert(forall|i: int| 0 <= i < ops.len() ==> (#[trigger] ops[i]).to != loc);
            model::lemma_apply_ops_unchanged(m, ops, loc);
        }
    }

    /// Over a full execution, each primary page in range is erased
    /// exactly once, and nothing else is erased: the source is untouched.
    pub proof fn lemma_copy_wear(&self, loc: MemoryLocation)
        requires
            self.wf(),
        ensures
            model::wear(self, loc) == if loc.slot == self.slot_primary && loc.page.0
                < self.num_pages {
                1nat
            } else {
                0nat
            },
    {
        let ops = self.spec_plan(0);
        assert(model::wear_between(self, 1, 1, loc) == 0);
        assert(model::wear(self, loc) == model::writes_to(ops, loc));
        if loc.slot == self.slot_primary && loc.page.0 < self.num_pages {
            let p = loc.page.0 as int;
            assert(ops[p].to == loc);
            model::lemma_writes_to_once(ops, loc, p);
        } else {
            assert(forall|i: int| 0 <= i < ops.len() ==> (#[trigger] ops[i]).to != loc);
            model::lemma_writes_to_none(ops, loc);
        }
    }

    /// Copy-then-revert round trip: when a backup slot was provided and
    /// holds the same contents as the primary slot, executing the copy in
    /// full and then its reversion in full restores every location.
    pub proof fn lemma_revert_round_trip<V>(&self, m: Map<MemoryLocation, V>)
        requires
            self.wf(),
            self.request.slot_backup is Some,
            forall|p: int|
                0 <= p < self.num_pages ==> m[MemoryLocation {
                    slot: self.request.slot_backup.unwrap(),
                    page: Page(p as u16),
                }] == m[#[trigger] self.primary_loc(p)],
        ensures
            self.spec_revert() is Some,
            forall|loc: MemoryLocation| #[trigger] model::run(
                model::run(m, self),
                &self.spec_revert().unwrap(),
            )[loc] == m[loc],
    {
        let back = self.spec_revert().unwrap();
        let r1 = model::run(m, self);
        self.lemma_copy_run(m);
        back.lemma_copy_run(r1);
        assert forall|loc: MemoryLocation| #[trigger] model::run(r1, &back)[loc] == m[loc] by {
            if loc.slot == self.slot_primary && loc.page.0 < self.num_pages {
                let p = loc.page.0 as int;
                assert(loc == back.primary_loc(p));
                assert(model::run(r1, &back)[back.primary_loc(p)] == r1[back.source_loc(p)]);
                assert(back.source_loc(p) == MemoryLocation {
                    slot: self.request.slot_backup.unwrap(),
                    page: Page(p as u16),
                });
                assert(r1[back.source_loc(p)] == m[back.source_loc(p)]);
                assert(m[back.source_loc(p)] == m[self.primary_loc(p)]);
            } else {
                assert(model::run(r1, &back)[loc] == r1[loc]);
                assert(r1[loc] == m[loc]);
            }
        }
    }
}

} // verus!
