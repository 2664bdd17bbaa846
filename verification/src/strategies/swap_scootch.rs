//! Strategy to swap two slots using 'scootch', leaving both intact after
//! finalizing.
//!
//! In other bootloaders also called 'swap move'. It employs a 'scratch'
//! partition as a temporary buffer for one of the pages. In order to
//! limit the wear on this specific partition, the primary slot is first
//! scootched over by one page, before copying the secondary slot over.
//!
//! This results in the primary slot enduring two erasures on every page
//! for this strategy, and the secondary slot enduring a single erasure,
//! while the scratch page is erased once regardless of the image size.
//! Hence it is beneficial to select the slot with the better wear
//! resistance as the primary slot.
use vstd::arithmetic::div_mod::{
    lemma_fundamental_div_mod, lemma_fundamental_div_mod_converse, lemma_mod_bound,
};
use vstd::prelude::*;

use crate::model;
use crate::strategies::Strategy;
use crate::{
    CopyOperation, Device, DeviceWithPrimarySlot, DeviceWithScratch, MemoryLocation, Page, Slot,
    Step,
};

verus! {

/// Request to boot a secondary image.
///
/// When the secondary image fails to boot, will perform the swap again,
/// restoring the original situation.
#[derive(Clone, Copy, PartialEq, Eq, Structural, Debug)]
pub struct Request {
    pub slot_secondary: Slot,
}

/// Swap of the primary and a secondary slot using a single scratch page.
pub struct SwapScootch {
    pub request: Request,
    pub num_pages: u16,
    pub slot_primary: Slot,
    pub slot_scratch: Slot,
}

/// Logical phases for the strategy to execute, to decouple raw steps from
/// behaviour in a logical manner.
#[derive(Clone, Copy, PartialEq, Eq, Structural, Debug)]
pub enum Phase {
    /// Scootch primary down one page, the first being scootched to the
    /// scratch.
    Scootch(Page),
    /// Copy from secondary to primary.
    ToPrimary(Page),
    /// Copy to secondary from either primary or scratch, considering that
    /// the primary has been scootched.
    ToSecondary(Page),
}

impl Phase {
    /// The phase a step performs: the first `num_pages` steps scootch the
    /// primary pages down one by one; the remaining steps pair up, in
    /// reverse page order, a copy into primary and a copy into secondary.
    pub open spec fn spec_from_step(step: int, num_pages: int) -> Phase {
        if step < num_pages {
            Phase::Scootch(Page(step as u16))
        } else {
            let r = step - num_pages;
            let page = num_pages - (r / 2) - 1;
            if r % 2 == 0 {
                Phase::ToPrimary(Page(page as u16))
            } else {
                Phase::ToSecondary(Page(page as u16))
            }
        }
    }

    pub fn from_step(step: Step, num_pages: u16) -> (r: Phase)
        requires
            num_pages >= 1,
            step.0 < 3 * num_pages as int,
        ensures
            r == Phase::spec_from_step(step.0 as int, num_pages as int),
    {
        if step.0 < num_pages {
            return Phase::Scootch(Page(step.0));
        }

        let rest = step.0 - num_pages;

        // Copy the other pages in reverse order.
        let page = Page(num_pages - (rest / 2) - 1);
        if rest % 2 == 0 {
            Phase::ToPrimary(page)
        } else {
            Phase::ToSecondary(page)
        }
    }
}

impl SwapScootch {
    pub fn new(
        device: &(impl Device + DeviceWithScratch + DeviceWithPrimarySlot),
        request: Request,
    ) -> (r: SwapScootch)
        requires
            request.slot_secondary != device.spec_primary(),
            request.slot_secondary != device.spec_scratch(),
            device.spec_primary() != device.spec_scratch(),
            3 * device.spec_page_count() as int <= u16::MAX,
        ensures
            r.wf(),
            r.request == request,
            r.num_pages == device.spec_page_count(),
            r.slot_primary == device.spec_primary(),
            r.slot_scratch == device.spec_scratch(),
    {
        SwapScootch {
            num_pages: device.page_count(),
            request,
            slot_primary: device.get_primary(),
            slot_scratch: device.get_scratch(),
        }
    }

    /// The single scratch page used to buffer the first primary page.
    pub open spec fn spec_scratch_location(&self) -> MemoryLocation {
        MemoryLocation { slot: self.slot_scratch, page: Page(0) }
    }

    pub fn scratch_location(&self) -> (r: MemoryLocation)
        ensures
            r == self.spec_scratch_location(),
    {
        MemoryLocation { slot: self.slot_scratch, page: Page(0) }
    }

    /// The one copy operation a step performs.
    pub open spec fn spec_op(&self, step: int) -> CopyOperation {
        match Phase::spec_from_step(step, self.num_pages as int) {
            Phase::Scootch(page) => CopyOperation {
                from: MemoryLocation { slot: self.slot_primary, page },
                to: if page.0 == 0 {
                    self.spec_scratch_location()
                } else {
                    MemoryLocation { slot: self.slot_primary, page: Page((page.0 - 1) as u16) }
                },
            },
            // To primary slot is copied 1:1, meaning the same page is
            // copied from secondary.
            Phase::ToPrimary(page) => CopyOperation {
                from: MemoryLocation { slot: self.request.slot_secondary, page },
                to: MemoryLocation { slot: self.slot_primary, page },
            },
            // To secondary the page is located in the previous page on the
            // primary, of which page 0 is located in scratch.
            Phase::ToSecondary(page) => CopyOperation {
                from: if page.0 == 0 {
                    self.spec_scratch_location()
                } else {
                    MemoryLocation { slot: self.slot_primary, page: Page((page.0 - 1) as u16) }
                },
                to: MemoryLocation { slot: self.request.slot_secondary, page },
            },
        }
    }
}

impl Strategy for SwapScootch {
    /// The three slots taking part are pairwise distinct, there is at
    /// least one page to move, and the step count fits a [`Step`].
    open spec fn wf(&self) -> bool {
        &&& self.num_pages >= 1
        &&& self.request.slot_secondary != self.slot_primary
        &&& self.request.slot_secondary != self.slot_scratch
        &&& self.slot_primary != self.slot_scratch
        &&& 3 * self.num_pages as int <= u16::MAX
    }

    /// A single move for each scootch, and two copies per page for the
    /// swap.
    open spec fn spec_last_step(&self) -> int {
        3 * self.num_pages as int
    }

    /// Every step performs exactly one copy operation.
    open spec fn spec_plan(&self, step: int) -> Seq<CopyOperation> {
        seq![self.spec_op(step)]
    }

    /// Reversion of swapping is the same operation.
    open spec fn spec_revert(&self) -> Option<SwapScootch> {
        Some(
            SwapScootch {
                request: self.request,
                num_pages: self.num_pages,
                slot_primary: self.slot_primary,
                slot_scratch: self.slot_scratch,
            },
        )
    }

    proof fn lemma_last_step_bounds(&self) {
    }

    proof fn lemma_plan_parallel(&self, step: int) {
        let op = self.spec_op(step);
        assert(op.to != op.from) by {
            match Phase::spec_from_step(step, self.num_pages as int) {
                Phase::Scootch(page) => {
                    if page.0 == 0 {
                        assert(op.to.slot != op.from.slot);
                    } else {
                        assert(op.to.page != op.from.page);
                    }
                },
                Phase::ToPrimary(page) => {
                    assert(op.to.slot != op.from.slot);
                },
                Phase::ToSecondary(page) => {
                    assert(op.to.slot != op.from.slot);
                },
            }
        }
        assert(self.spec_plan(step)[0] == op);
    }

    fn last_step(&self) -> (r: Step) {
        // A single move for scootch, and two copies for swap.
        Step(self.num_pages * 3)
    }

    fn plan(&self, step: Step) -> (r: Vec<CopyOperation>) {
        let phase = Phase::from_step(step, self.num_pages);

        // Convert a logical phase into a raw copy operation.
        let op = match phase {
            Phase::Scootch(page) => CopyOperation {
                from: MemoryLocation { slot: self.slot_primary, page },
                to: if page.0 == 0 {
                    self.scratch_location()
                } else {
                    MemoryLocation { slot: self.slot_primary, page: Page(page.0 - 1) }
                },
            },
            // To primary slot is copied 1:1, meaning the same page is
            // copied from secondary.
            Phase::ToPrimary(page) => CopyOperation {
                from: MemoryLocation { slot: self.request.slot_secondary, page },
                to: MemoryLocation { slot: self.slot_primary, page },
            },
            // To secondary the page is located in the previous page on the
            // primary, of which page 0 is located in scratch.
            Phase::ToSecondary(page) => CopyOperation {
                from: if page.0 == 0 {
                    self.scratch_location()
                } else {
                    MemoryLocation { slot: self.slot_primary, page: Page(page.0 - 1) }
                },
                to: MemoryLocation { slot: self.request.slot_secondary, page },
            },
        };

        let mut r: Vec<CopyOperation> = Vec::new();
        r.push(op);
        proof {
            assert(r@ =~= self.spec_plan(step.0 as int));
        }
        r
    }

    fn revert(self) -> (r: Option<SwapScootch>) {
        // Reversion of swapping is the same operation.
        Some(self)
    }
}

impl SwapScootch {
    /// The location of primary page `j`.
    pub open spec fn primary_loc(&self, j: int) -> MemoryLocation {
        MemoryLocation { slot: self.slot_primary, page: Page(j as u16) }
    }

    /// The location of secondary page `j`.
    pub open spec fn secondary_loc(&self, j: int) -> MemoryLocation {
        MemoryLocation { slot: self.request.slot_secondary, page: Page(j as u16) }
    }

    /// A step erases a location at most once: exactly once when it is the
    /// step's destination.
    proof fn lemma_plan_writes(&self, k: int, loc: MemoryLocation)
        requires
            self.wf(),
        ensures
            model::writes_to(self.spec_plan(k), loc) == if self.spec_op(k).to == loc {
                1nat
            } else {
                0nat
            },
    {
        let ops = self.spec_plan(k);
        assert(ops.len() == 1 && ops[0] == self.spec_op(k));
        assert(ops.skip(1).len() == 0);
        assert(model::writes_to(ops.skip(1), loc) == 0);
    }

    /// For a pairwise-phase step, which page it works on and whether it
    /// copies into the primary or the secondary slot.
    proof fn lemma_pairwise_step(&self, t: int)
        requires
            self.wf(),
            1 <= t <= self.num_pages,
        ensures
            Phase::spec_from_step(3 * (self.num_pages as int) - 2 * t, self.num_pages as int)
                == Phase::ToPrimary(Page((t - 1) as u16)),
            Phase::spec_from_step(3 * (self.num_pages as int) - 2 * t + 1, self.num_pages as int)
                == Phase::ToSecondary(Page((t - 1) as u16)),
    {
        let n = self.num_pages as int;
        let r0 = (3 * n - 2 * t) - n;
        let r1 = r0 + 1;
        lemma_fundamental_div_mod_converse(r0, 2, n - t, 0);
        lemma_fundamental_div_mod_converse(r1, 2, n - t, 1);
    }

    /// Over a full execution, a primary-slot page in range is erased
    /// twice — once by the scootch phase, once by the pairwise phase —
    /// except the last page, which the scootch phase does not write.
    pub proof fn lemma_wear_primary(&self, q: int)
        requires
            self.wf(),
            0 <= q < self.num_pages,
        ensures
            model::wear(self, self.primary_loc(q)) == if q < self.num_pages - 1 {
                2nat
            } else {
                1nat
            },
    {
        let n = self.num_pages as int;
        let loc = self.primary_loc(q);
        let last = self.spec_last_step();
        let kp = 3 * n - 2 * (q + 1);
        self.lemma_pairwise_step(q + 1);
        self.lemma_plan_writes(kp, loc);
        assert(self.spec_op(kp).to == loc);
        assert forall|k: int|
            n <= k < last && k != kp implies model::writes_to(#[trigger] self.spec_plan(k), loc)
                == 0 by {
            self.lemma_plan_writes(k, loc);
            if self.spec_op(k).to == loc {
                let r = k - n;
                lemma_fundamental_div_mod(r, 2);
                lemma_mod_bound(r, 2);
                match Phase::spec_from_step(k, n) {
                    Phase::Scootch(page) => {
                        assert(false);
                    },
                    Phase::ToPrimary(page) => {
                        assert(page.0 == n - r / 2 - 1);
                        assert(r / 2 == n - q - 1);
                        assert(r == 2 * (n - q - 1));
                        assert(r % 2 == 0);
                        assert(k == kp);
                        assert(false);
                    },
                    Phase::ToSecondary(page) => {
                        assert(loc.slot != self.request.slot_secondary);
                        assert(false);
                    },
                }
            }
        }
        model::lemma_wear_between_split(self, 0, n, last, loc);
        model::lemma_wear_between_single(self, n, last, kp, loc);
        assert forall|k: int|
            0 <= k < n && k != q + 1 implies model::writes_to(#[trigger] self.spec_plan(k), loc)
                == 0 by {
            self.lemma_plan_writes(k, loc);
            if self.spec_op(k).to == loc {
                if k == 0 {
                    assert(loc.slot != self.slot_scratch);
                } else {
                    assert(k - 1 == q);
                }
                assert(false);
            }
        }
        if q < n - 1 {
            self.lemma_plan_writes(q + 1, loc);
            assert(self.spec_op(q + 1).to == loc);
            model::lemma_wear_between_single(self, 0, n, q + 1, loc);
        } else {
            model::lemma_wear_between_none(self, 0, n, loc);
        }
    }

    /// Over a full execution, a secondary-slot page in range is erased
    /// exactly once, by the pairwise phase.
    pub proof fn lemma_wear_secondary(&self, q: int)
        requires
            self.wf(),
            0 <= q < self.num_pages,
        ensures
            model::wear(self, self.secondary_loc(q)) == 1,
    {
        let n = self.num_pages as int;
        let loc = self.secondary_loc(q);
        let last = self.spec_last_step();
        let ks = 3 * n - 2 * (q + 1) + 1;
        self.lemma_pairwise_step(q + 1);
        self.lemma_plan_writes(ks, loc);
        assert(self.spec_op(ks).to == loc);
        assert forall|k: int|
            0 <= k < last && k != ks implies model::writes_to(#[trigger] self.spec_plan(k), loc)
                == 0 by {
            self.lemma_plan_writes(k, loc);
            if self.spec_op(k).to == loc {
                if k < n {
                    assert(loc.slot != self.slot_primary && loc.slot != self.slot_scratch);
                } else {
                    let r = k - n;
                    lemma_fundamental_div_mod(r, 2);
                    lemma_mod_bound(r, 2);
                    match Phase::spec_from_step(k, n) {
                        Phase::Scootch(page) => {
                            assert(false);
                        },
                        Phase::ToPrimary(page) => {
                            assert(loc.slot != self.slot_primary);
                        },
                        Phase::ToSecondary(page) => {
                            assert(page.0 == n - r / 2 - 1);
                            assert(r / 2 == n - q - 1);
                            assert(r == 2 * (n - q - 1) + 1);
                            assert(r % 2 == 1);
                            assert(k == ks);
                        },
                    }
                }
                assert(false);
            }
        }
        model::lemma_wear_between_single(self, 0, last, ks, loc);
    }

    /// Over a full execution, the scratch page is erased exactly once,
    /// whatever the image size: by the very first scootch step.
    pub proof fn lemma_wear_scratch(&self)
        requires
            self.wf(),
        ensures
            model::wear(self, self.spec_scratch_location()) == 1,
    {
        let n = self.num_pages as int;
        let loc = self.spec_scratch_location();
        let last = self.spec_last_step();
        self.lemma_plan_writes(0, loc);
        assert(self.spec_op(0).to == loc);
        assert forall|k: int|
            0 <= k < last && k != 0 implies model::writes_to(#[trigger] self.spec_plan(k), loc)
                == 0 by {
            self.lemma_plan_writes(k, loc);
            if self.spec_op(k).to == loc {
                assert(loc.slot != self.slot_primary && loc.slot != self.request.slot_secondary);
                assert(false);
            }
        }
        model::lemma_wear_between_single(self, 0, last, 0, loc);
    }

    /// Locations the scootch phase from step `k` on may write: primary
    /// pages shifted into, and (from the very first step) the scratch
    /// page.
    pub open spec fn spec_phase1_touched(&self, k: int, loc: MemoryLocation) -> bool {
        ||| (k == 0 && loc == self.spec_scratch_location())
        ||| (loc.slot == self.slot_primary && loc.page.0 < self.num_pages - 1 && loc.page.0 >= (
        if k == 0 {
            0
        } else {
            k - 1
        }))
    }

    /// Locations the pairwise steps for the last `t` pages may write.
    pub open spec fn spec_phase2_touched(&self, t: int, loc: MemoryLocation) -> bool {
        (loc.slot == self.slot_primary || loc.slot == self.request.slot_secondary) && loc.page.0
            < t
    }

    /// Effect of the scootch phase from step `k` on: every primary page
    /// above the phase's progress is shifted down one, the first primary
    /// page lands in scratch, and nothing else moves.
    proof fn lemma_scootch_phase1<V>(&self, m: Map<MemoryLocation, V>, k: int)
        requires
            self.wf(),
            0 <= k <= self.num_pages,
        ensures
            ({
                let n = self.num_pages as int;
                let r = model::run_plan(m, self, k, n);
                &&& k == 0 ==> r[self.spec_scratch_location()] == m[self.primary_loc(0)]
                &&& forall|j: int|
                    k <= j < n && 1 <= j ==> #[trigger] r[self.primary_loc(j - 1)]
                        == m[self.primary_loc(j)]
                &&& forall|loc: MemoryLocation|
                    !self.spec_phase1_touched(k, loc) ==> #[trigger] r[loc] == m[loc]
            }),
        decreases self.num_pages - k,
    {
        let n = self.num_pages as int;
        if k == n {
            assert(model::run_plan(m, self, k, n) == m);
        } else {
            let ops = self.spec_plan(k);
            let op = self.spec_op(k);
            assert(ops.len() == 1 && ops[0] == op);
            assert(ops.skip(1).len() == 0);
            let m1 = model::apply_ops(m, ops);
            assert(model::apply_ops(model::apply_op(m, op), ops.skip(1)) == model::apply_op(
                m,
                op,
            ));
            assert(m1 == model::apply_op(m, op));
            assert(model::run_plan(m, self, k, n) == model::run_plan(m1, self, k + 1, n));
            self.lemma_scootch_phase1(m1, k + 1);
            let r = model::run_plan(m, self, k, n);
            let r2 = model::run_plan(m1, self, k + 1, n);
            assert(r == r2);
            assert(op.from == self.primary_loc(k));
            let to = op.to;
            if k == 0 {
                assert(to == self.spec_scratch_location());
                assert(!self.spec_phase1_touched(k + 1, self.spec_scratch_location()));
                assert(r2[self.spec_scratch_location()] == m1[self.spec_scratch_location()]);
                assert(m1[self.spec_scratch_location()] == m[self.primary_loc(0)]);
            } else {
                assert(to == self.primary_loc(k - 1));
            }
            assert forall|j: int| k <= j < n && 1 <= j implies #[trigger] r[self.primary_loc(
                j - 1,
            )] == m[self.primary_loc(j)] by {
                if j == k {
                    assert(!self.spec_phase1_touched(k + 1, self.primary_loc(k - 1)));
                    assert(r2[self.primary_loc(k - 1)] == m1[self.primary_loc(k - 1)]);
                    assert(m1[self.primary_loc(k - 1)] == m[self.primary_loc(k)]);
                } else {
                    assert(r2[self.primary_loc(j - 1)] == m1[self.primary_loc(j)]);
                    assert(to != self.primary_loc(j));
                    assert(m1[self.primary_loc(j)] == m[self.primary_loc(j)]);
                }
            }
            assert forall|loc: MemoryLocation|
                !self.spec_phase1_touched(k, loc) implies #[trigger] r[loc] == m[loc] by {
                assert(!self.spec_phase1_touched(k + 1, loc));
                assert(loc != to);
                assert(r2[loc] == m1[loc]);
                assert(m1[loc] == m[loc]);
            }
        }
    }

    /// Effect of the pairwise phase over its last `t` pages: each of
    /// those primary pages takes the secondary page, each secondary page
    /// takes the shifted-down primary page (page 0 from scratch), and
    /// nothing else moves.
    proof fn lemma_scootch_phase2<V>(&self, m: Map<MemoryLocation, V>, t: int)
        requires
            self.wf(),
            0 <= t <= self.num_pages,
        ensures
            ({
                let n = self.num_pages as int;
                let r = model::run_plan(m, self, 3 * n - 2 * t, 3 * n);
                &&& forall|p: int|
                    0 <= p < t ==> #[trigger] r[self.primary_loc(p)] == m[self.secondary_loc(p)]
                &&& forall|p: int|
                    1 <= p < t ==> #[trigger] r[self.secondary_loc(p)] == m[self.primary_loc(
                        p - 1,
                    )]
                &&& t >= 1 ==> r[self.secondary_loc(0)] == m[self.spec_scratch_location()]
                &&& forall|loc: MemoryLocation|
                    !self.spec_phase2_touched(t, loc) ==> #[trigger] r[loc] == m[loc]
            }),
        decreases t,
    {
        let n = self.num_pages as int;
        if t == 0 {
            assert(model::run_plan(m, self, 3 * n - 2 * t, 3 * n) == m);
        } else {
            let k0 = 3 * n - 2 * t;
            self.lemma_pairwise_step(t);
            let op0 = self.spec_op(k0);
            let op1 = self.spec_op(k0 + 1);
            let ops0 = self.spec_plan(k0);
            let ops1 = self.spec_plan(k0 + 1);
            assert(ops0.len() == 1 && ops0[0] == op0 && ops0.skip(1).len() == 0);
            assert(ops1.len() == 1 && ops1[0] == op1 && ops1.skip(1).len() == 0);
            let m1 = model::apply_ops(m, ops0);
            assert(model::apply_ops(model::apply_op(m, op0), ops0.skip(1)) == model::apply_op(
                m,
                op0,
            ));
            assert(m1 == model::apply_op(m, op0));
            let m2 = model::apply_ops(m1, ops1);
            assert(model::apply_ops(model::apply_op(m1, op1), ops1.skip(1)) == model::apply_op(
                m1,
                op1,
            ));
            assert(m2 == model::apply_op(m1, op1));
            assert(model::run_plan(m, self, k0, 3 * n) == model::run_plan(m1, self, k0 + 1, 3 * n));
            assert(model::run_plan(m1, self, k0 + 1, 3 * n) == model::run_plan(
                m2,
                self,
                k0 + 2,
                3 * n,
            ));
            self.lemma_scootch_phase2(m2, t - 1);
            let r = model::run_plan(m, self, k0, 3 * n);
            let r2 = model::run_plan(m2, self, 3 * n - 2 * (t - 1), 3 * n);
            assert(3 * n - 2 * (t - 1) == k0 + 2);
            assert(r == r2);
            assert(op0.to == self.primary_loc(t - 1) && op0.from == self.secondary_loc(t - 1));
            let from1 = if t - 1 == 0 {
                self.spec_scratch_location()
            } else {
                self.primary_loc(t - 2)
            };
            assert(op1.to == self.secondary_loc(t - 1) && op1.from == from1);
            assert(m1[self.primary_loc(t - 1)] == m[self.secondary_loc(t - 1)]);
            assert(from1 != op0.to);
            assert(m2[self.secondary_loc(t - 1)] == m1[from1]);
            assert(m1[from1] == m[from1]);
            assert forall|p: int| 0 <= p < t implies #[trigger] r[self.primary_loc(p)]
                == m[self.secondary_loc(p)] by {
                if p == t - 1 {
                    assert(!self.spec_phase2_touched(t - 1, self.primary_loc(t - 1)));
                    assert(r2[self.primary_loc(t - 1)] == m2[self.primary_loc(t - 1)]);
                    assert(m2[self.primary_loc(t - 1)] == m1[self.primary_loc(t - 1)]);
                } else {
                    assert(r2[self.primary_loc(p)] == m2[self.secondary_loc(p)]);
                    assert(op1.to != self.secondary_loc(p));
                    assert(op0.to != self.secondary_loc(p));
                    assert(m2[self.secondary_loc(p)] == m[self.secondary_loc(p)]);
                }
            }
            assert forall|p: int| 1 <= p < t implies #[trigger] r[self.secondary_loc(p)]
                == m[self.primary_loc(p - 1)] by {
                if p == t - 1 {
                    assert(!self.spec_phase2_touched(t - 1, self.secondary_loc(t - 1)));
                    assert(r2[self.secondary_loc(t - 1)] == m2[self.secondary_loc(t - 1)]);
                } else {
                    assert(r2[self.secondary_loc(p)] == m2[self.primary_loc(p - 1)]);
                    assert(op0.to != self.primary_loc(p - 1));
                    assert(op1.to != self.primary_loc(p - 1));
                    assert(m2[self.primary_loc(p - 1)] == m[self.primary_loc(p - 1)]);
                }
            }
            if t >= 1 {
                if t == 1 {
                    assert(!self.spec_phase2_touched(t - 1, self.secondary_loc(0)));
                    assert(r2[self.secondary_loc(0)] == m2[self.secondary_loc(0)]);
                } else {
                    assert(r2[self.secondary_loc(0)] == m2[self.spec_scratch_location()]);
                    assert(op0.to != self.spec_scratch_location());
                    assert(op1.to != self.spec_scratch_location());
                    assert(m2[self.spec_scratch_location()] == m[self.spec_scratch_location()]);
                }
            }
            assert forall|loc: MemoryLocation|
                !self.spec_phase2_touched(t, loc) implies #[trigger] r[loc] == m[loc] by {
                assert(!self.spec_phase2_touched(t - 1, loc));
                assert(loc != op0.to && loc != op1.to);
                assert(r2[loc] == m2[loc]);
                assert(m2[loc] == m1[loc] && m1[loc] == m[loc]);
            }
        }
    }

    /// A full execution swaps the primary and secondary images page for
    /// page, leaves the original first primary page in the scratch page,
    /// and changes nothing else.
    pub proof fn lemma_scootch_swap<V>(&self, m: Map<MemoryLocation, V>)
        requires
            self.wf(),
        ensures
            forall|p: int|
                0 <= p < self.num_pages ==> #[trigger] model::run(m, self)[self.primary_loc(p)]
                    == m[self.secondary_loc(p)],
            forall|p: int|
                0 <= p < self.num_pages ==> #[trigger] model::run(m, self)[self.secondary_loc(p)]
                    == m[self.primary_loc(p)],
            model::run(m, self)[self.spec_scratch_location()] == m[self.primary_loc(0)],
            forall|loc: MemoryLocation|
                !self.spec_phase2_touched(self.num_pages as int, loc) && loc
                    != self.spec_scratch_location() ==> #[trigger] model::run(m, self)[loc]
                    == m[loc],
    {
        let n = self.num_pages as int;
        model::lemma_run_plan_split(m, self, 0, n, 3 * n);
        let mmid = model::run_plan(m, self, 0, n);
        self.lemma_scootch_phase1(m, 0);
        self.lemma_scootch_phase2(mmid, n);
        let r = model::run(m, self);
        let r2 = model::run_plan(mmid, self, 3 * n - 2 * n, 3 * n);
        assert(3 * n - 2 * n == n);
        assert(r == r2);
        assert forall|p: int| 0 <= p < n implies #[trigger] r[self.primary_loc(p)]
            == m[self.secondary_loc(p)] by {
            assert(r2[self.primary_loc(p)] == mmid[self.secondary_loc(p)]);
            assert(!self.spec_phase1_touched(0, self.secondary_loc(p)));
            assert(mmid[self.secondary_loc(p)] == m[self.secondary_loc(p)]);
        }
        assert forall|p: int| 0 <= p < n implies #[trigger] r[self.secondary_loc(p)]
            == m[self.primary_loc(p)] by {
            if p == 0 {
                assert(r2[self.secondary_loc(0)] == mmid[self.spec_scratch_location()]);
                assert(mmid[self.spec_scratch_location()] == m[self.primary_loc(0)]);
            } else {
                assert(r2[self.secondary_loc(p)] == mmid[self.primary_loc(p - 1)]);
                assert(mmid[self.primary_loc(p - 1)] == m[self.primary_loc(p)]);
            }
        }
        assert(!self.spec_phase2_touched(n, self.spec_scratch_location()));
        assert(r2[self.spec_scratch_location()] == mmid[self.spec_scratch_location()]);
        assert(mmid[self.spec_scratch_location()] == m[self.primary_loc(0)]);
        assert forall|loc: MemoryLocation|
            !self.spec_phase2_touched(n, loc) && loc != self.spec_scratch_location()
            implies #[trigger] r[loc] == m[loc] by {
            assert(!self.spec_phase1_touched(0, loc));
            assert(r2[loc] == mmid[loc]);
            assert(mmid[loc] == m[loc]);
        }
    }

    /// The swap is its own reversion: executing the strategy in full and
    /// then its reverted strategy in full restores every location other
    /// than the scratch page to its original contents.
    pub proof fn lemma_revert_round_trip<V>(&self, m: Map<MemoryLocation, V>)
        requires
            self.wf(),
        ensures
            self.spec_revert() == Some(*self),
            forall|loc: MemoryLocation|
                loc != self.spec_scratch_location() ==> #[trigger] model::run(
                    model::run(m, self),
                    self,
                )[loc] == m[loc],
    {
        let r1 = model::run(m, self);
        self.lemma_scootch_swap(m);
        self.lemma_scootch_swap(r1);
        assert forall|loc: MemoryLocation|
            loc != self.spec_scratch_location() implies #[trigger] model::run(r1, self)[loc]
            == m[loc] by {
            if loc.slot == self.slot_primary && loc.page.0 < self.num_pages {
                let p = loc.page.0 as int;
                assert(loc == self.primary_loc(p));
                assert(model::run(r1, self)[self.primary_loc(p)] == r1[self.secondary_loc(p)]);
                assert(r1[self.secondary_loc(p)] == m[self.primary_loc(p)]);
            } else if loc.slot == self.request.slot_secondary && loc.page.0 < self.num_pages {
                let p = loc.page.0 as int;
                assert(loc == self.secondary_loc(p));
                assert(model::run(r1, self)[self.secondary_loc(p)] == r1[self.primary_loc(p)]);
                assert(r1[self.primary_loc(p)] == m[self.secondary_loc(p)]);
            } else {
                assert(!self.spec_phase2_touched(self.num_pages as int, loc));
                assert(model::run(r1, self)[loc] == r1[loc]);
                assert(r1[loc] == m[loc]);
            }
        }
    }

    /// A location outside the two images' page ranges and the scratch
    /// page is never erased.
    pub proof fn lemma_wear_untouched(&self, loc: MemoryLocation)
        requires
            self.wf(),
            !(loc.slot == self.slot_primary && loc.page.0 < self.num_pages),
            !(loc.slot == self.request.slot_secondary && loc.page.0 < self.num_pages),
            loc != self.spec_scratch_location(),
        ensures
            model::wear(self, loc) == 0,
    {
        let n = self.num_pages as int;
        assert forall|k: int|
            0 <= k < self.spec_last_step() implies model::writes_to(
            #[trigger] self.spec_plan(k),
            loc,
        ) == 0 by {
            self.lemma_plan_writes(k, loc);
            if self.spec_op(k).to == loc {
                if k >= n {
                    let r = k - n;
                    lemma_fundamental_div_mod(r, 2);
                    lemma_mod_bound(r, 2);
                }
                assert(false);
            }
        }
        model::lemma_wear_between_none(self, 0, self.spec_last_step(), loc);
    }
}

} // verus!
