//! Strategy to swap two slots using 'S <- A <- B <- S', leaving both
//! intact after finalizing.
//!
//! In other bootloaders also called 'swap scratch'. It employs a
//! 'scratch' partition as a temporary buffer for a block of pages. This
//! is an especially useful strategy if a memory type is available that is
//! very wear resistant, like FRAM.
//!
//! The primary (A) slot pages of a block are first copied over to the
//! scratch memory (S), before writing the secondary (B) slot pages to the
//! primary (A) slot pages. Finally the scratch (S) memory pages are
//! written to the secondary (B) memory pages.
//!
//! This results in the primary and secondary slots enduring a single
//! erasure on every page for this strategy, whilst each scratch page
//! endures at most one erasure per block.
use vstd::arithmetic::div_mod::{
    lemma_fundamental_div_mod, lemma_fundamental_div_mod_converse, lemma_mod_bound,
};
use vstd::arithmetic::mul::lemma_mul_inequality;
use vstd::prelude::*;

use crate::model;
use crate::strategies::Strategy;
use crate::{
    CopyOperation, Device, DeviceWithPrimarySlot, DeviceWithScratch, MemoryLocation, Page, Slot,
    Step,
};

verus! {

/// Request to boot a secondary image.
///
/// When the secondary image fails to boot, will perform the swap again,
/// restoring the original situation.
#[derive(Clone, Copy, PartialEq, Eq, Structural, Debug)]
pub struct Request {
    pub slot_secondary: Slot,
}

/// Swap of the primary and a secondary slot through the scratch region,
/// one block of `scratch_pages` pages at a time.
pub struct SwapSABS {
    pub request: Request,
    pub num_pages: u16,
    pub scratch_pages: u16,
    pub slot_primary: Slot,
    pub slot_scratch: Slot,
}

/// Logical phases for the strategy to execute, to decouple raw steps from
/// behaviour in a logical manner.
#[derive(Clone, Copy, PartialEq, Eq, Structural, Debug)]
pub enum Phase {
    A2S,
    B2A,
    S2B,
}

impl Phase {
    /// The phase a step performs: blocks of three steps cycle through
    /// copying primary to scratch, secondary to primary, and scratch back
    /// to secondary.
    pub open spec fn spec_phase(step: int) -> Phase {
        if step % 3 == 0 {
            Phase::A2S
        } else if step % 3 == 1 {
            Phase::B2A
        } else {
            Phase::S2B
        }
    }

    /// The first primary (or secondary) page of the block a step works on.
    pub open spec fn spec_start(step: int, scratch_pages: int) -> int {
        (step / 3) * scratch_pages
    }

    /// Get the current phase and starting page from the step number.
    pub fn from_step(step: Step, scratch_pages: u16) -> (r: (Phase, Page))
        requires
            (step.0 as int / 3) * scratch_pages <= u16::MAX,
        ensures
            r.0 == Phase::spec_phase(step.0 as int),
            r.1.0 == Phase::spec_start(step.0 as int, scratch_pages as int),
    {
        let destination = match step.0 % 3 {
            0 => Phase::A2S,
            1 => Phase::B2A,
            _ => Phase::S2B,
        };

        let start = Page((step.0 / 3) * scratch_pages);

        (destination, start)
    }
}

impl SwapSABS {
    /// How many blocks of `scratch_pages` pages cover the image: the
    /// final block may be partial if `num_pages` is not a neat multiple.
    pub open spec fn spec_blocks(&self) -> int {
        (self.num_pages + self.scratch_pages - 1) as int / self.scratch_pages as int
    }

    /// How many pages the block beginning at `start` transfers: a full
    /// scratch's worth, except for a shorter tail in the final block.
    pub open spec fn spec_block_len(&self, start: int) -> int {
        if self.num_pages - start >= self.scratch_pages {
            self.scratch_pages as int
        } else {
            self.num_pages - start
        }
    }

    pub fn new(
        device: &(impl Device + DeviceWithScratch + DeviceWithPrimarySlot),
        request: Request,
    ) -> (r: SwapSABS)
        requires
            request.slot_secondary != device.spec_primary(),
            request.slot_secondary != device.spec_scratch(),
            device.spec_primary() != device.spec_scratch(),
            3 * ((device.spec_page_count() + device.spec_scratch_page_count() - 1) as int
                / device.spec_scratch_page_count() as int) <= u16::MAX,
        ensures
            r.wf(),
            r.request == request,
            r.num_pages == device.spec_page_count(),
            r.scratch_pages == device.spec_scratch_page_count(),
            r.slot_primary == device.spec_primary(),
            r.slot_scratch == device.spec_scratch(),
    {
        SwapSABS {
            request,
            num_pages: device.page_count(),
            scratch_pages: device.scratch_page_count(),
            slot_primary: device.get_primary(),
            slot_scratch: device.get_scratch(),
        }
    }

    /// A step below the last one works on a block that still has pages to
    /// transfer: its start page lies below `num_pages`.
    proof fn lemma_step_start_in_range(&self, step: int)
        requires
            self.wf(),
            0 <= step < self.spec_last_step(),
        ensures
            0 <= step / 3 <= self.spec_blocks() - 1,
            (step / 3) * self.scratch_pages <= (self.spec_blocks() - 1) * self.scratch_pages,
            (self.spec_blocks() - 1) * self.scratch_pages <= self.num_pages - 1,
            1 <= self.spec_block_len(Phase::spec_start(step, self.scratch_pages as int))
                <= self.scratch_pages,
    {
        let n = self.num_pages as int;
        let w = self.scratch_pages as int;
        let blocks = self.spec_blocks();
        let b = step / 3;
        lemma_fundamental_div_mod(step, 3);
        lemma_mod_bound(step, 3);
        assert(3 * b < 3 * blocks);
        lemma_mul_inequality(b, blocks - 1, w);
        lemma_fundamental_div_mod(n + w - 1, w);
        lemma_mod_bound(n + w - 1, w);
        assert(w * blocks >= n && w * blocks <= n + w - 1);
        assert((blocks - 1) * w == blocks * w - w) by (nonlinear_arith);
    }
}

impl Strategy for SwapSABS {
    /// The three slots taking part are pairwise distinct, there is at
    /// least one page to move and one scratch page to buffer with, and
    /// the step count fits a [`Step`].
    open spec fn wf(&self) -> bool {
        &&& self.num_pages >= 1
        &&& self.scratch_pages >= 1
        &&& self.request.slot_secondary != self.slot_primary
        &&& self.request.slot_secondary != self.slot_scratch
        &&& self.slot_primary != self.slot_scratch
        &&& 3 * self.spec_blocks() <= u16::MAX
    }

    /// A step for each A2S, B2A and S2B phase of every block.
    open spec fn spec_last_step(&self) -> int {
        3 * self.spec_blocks()
    }

    /// The operations of one step: the block's pages move between the
    /// slots the step's phase names, scratch pages counted from 0 and
    /// image pages counted from the block's start.
    open spec fn spec_plan(&self, step: int) -> Seq<CopyOperation> {
        let start = Phase::spec_start(step, self.scratch_pages as int);
        let cnt = self.spec_block_len(start);
        if cnt <= 0 {
            Seq::empty()
        } else {
            Seq::new(
                cnt as nat,
                |i: int|
                    match Phase::spec_phase(step) {
                        Phase::A2S => CopyOperation {
                            from: MemoryLocation {
                                slot: self.slot_primary,
                                page: Page((start + i) as u16),
                            },
                            to: MemoryLocation { slot: self.slot_scratch, page: Page(i as u16) },
                        },
                        Phase::B2A => CopyOperation {
                            from: MemoryLocation {
                                slot: self.request.slot_secondary,
                                page: Page((start + i) as u16),
                            },
                            to: MemoryLocation {
                                slot: self.slot_primary,
                                page: Page((start + i) as u16),
                            },
                        },
                        Phase::S2B => CopyOperation {
                            from: MemoryLocation { slot: self.slot_scratch, page: Page(i as u16) },
                            to: MemoryLocation {
                                slot: self.request.slot_secondary,
                                page: Page((start + i) as u16),
                            },
                        },
                    },
            )
        }
    }

    /// Reversion of swapping is the same operation.
    open spec fn spec_revert(&self) -> Option<SwapSABS> {
        Some(
            SwapSABS {
                request: self.request,
                num_pages: self.num_pages,
                scratch_pages: self.scratch_pages,
                slot_primary: self.slot_primary,
                slot_scratch: self.slot_scratch,
            },
        )
    }

    proof fn lemma_last_step_bounds(&self) {
        let n = self.num_pages as int;
        let w = self.scratch_pages as int;
        lemma_fundamental_div_mod(n + w - 1, w);
        lemma_mod_bound(n + w - 1, w);
        if self.spec_blocks() < 1 {
            lemma_mul_inequality(self.spec_blocks(), 0, w);
            assert(false);
        }
    }

    proof fn lemma_plan_parallel(&self, step: int) {
        self.lemma_step_start_in_range(step);
        let ops = self.spec_plan(step);
        assert forall|i: int, j: int|
            0 <= i < ops.len() && 0 <= j < ops.len() implies (#[trigger] ops[i]).to != (
        #[trigger] ops[j]).from by {
            assert(ops[i].to.slot != ops[j].from.slot);
        }
    }

    fn last_step(&self) -> (r: Step) {
        // Note(div_ceil): we might need to partially use the scratch pages
        // for the final segment, if it is not a neat multiple.
        let blocks = ((self.num_pages as u32 + self.scratch_pages as u32 - 1)
            / self.scratch_pages as u32) as u16;

        // A step for each A2S, B2A and S2B phase, where scratch is fully
        // filled.
        Step(blocks * 3)
    }

    #[verifier::loop_isolation(false)]
    fn plan(&self, step: Step) -> (r: Vec<CopyOperation>) {
        proof {
            self.lemma_step_start_in_range(step.0 as int);
        }
        let (phase, start) = Phase::from_step(step, self.scratch_pages);

        let (from, to) = match phase {
            Phase::A2S => (
                MemoryLocation { slot: self.slot_primary, page: start },
                MemoryLocation { slot: self.slot_scratch, page: Page(0) },
            ),
            Phase::B2A => (
                MemoryLocation { slot: self.request.slot_secondary, page: start },
                MemoryLocation { slot: self.slot_primary, page: start },
            ),
            Phase::S2B => (
                MemoryLocation { slot: self.slot_scratch, page: Page(0) },
                MemoryLocation { slot: self.request.slot_secondary, page: start },
            ),
        };

        // How many pages do we have left to move in order to finish?
        let pages_left = self.num_pages - start.0;

        // How many pages are we doing in this step?
        let pages_now = if pages_left < self.scratch_pages {
            pages_left
        } else {
            self.scratch_pages
        };

        let mut r: Vec<CopyOperation> = Vec::new();
        let mut i: u16 = 0;
        while i < pages_now
            invariant
                i <= pages_now,
                r@.len() == i as int,
                forall|j: int| 0 <= j < i ==> r@[j] == self.spec_plan(step.0 as int)[j],
            decreases pages_now - i,
        {
            r.push(
                CopyOperation {
                    from: MemoryLocation { slot: from.slot, page: Page(from.page.0 + i) },
                    to: MemoryLocation { slot: to.slot, page: Page(to.page.0 + i) },
                },
            );
            i += 1;
        }
        proof {
            assert(r@ =~= self.spec_plan(step.0 as int));
        }
        r
    }

    fn revert(self) -> (r: Option<SwapSABS>) {
        // Reversion of swapping is the same operation.
        Some(self)
    }
}

/// Steps decompose uniquely into a block and a phase.
proof fn lemma_step_decompose(b: int, ph: int)
    requires
        0 <= b,
        0 <= ph < 3,
    ensures
        (3 * b + ph) / 3 == b,
        (3 * b + ph) % 3 == ph,
{
    lemma_fundamental_div_mod_converse(3 * b + ph, 3, b, ph);
}

impl SwapSABS {
    /// Whether the operations of step `step` write (and so erase) `loc`.
    pub open spec fn spec_writes(&self, step: int, loc: MemoryLocation) -> bool {
        let start = Phase::spec_start(step, self.scratch_pages as int);
        let cnt = self.spec_block_len(start);
        match Phase::spec_phase(step) {
            Phase::A2S => loc.slot == self.slot_scratch && loc.page.0 < cnt,
            Phase::B2A => loc.slot == self.slot_primary && start <= loc.page.0 < start + cnt,
            Phase::S2B => loc.slot == self.request.slot_secondary && start <= loc.page.0 < start
                + cnt,
        }
    }

    /// A step erases a location at most once: exactly once when the
    /// step's phase writes it.
    proof fn lemma_plan_writes(&self, step: int, loc: MemoryLocation)
        requires
            self.wf(),
            0 <= step < self.spec_last_step(),
        ensures
            model::writes_to(self.spec_plan(step), loc) == if self.spec_writes(step, loc) {
                1nat
            } else {
                0nat
            },
    {
        self.lemma_step_start_in_range(step);
        let ops = self.spec_plan(step);
        let start = Phase::spec_start(step, self.scratch_pages as int);
        let cnt = self.spec_block_len(start);
        if self.spec_writes(step, loc) {
            let i0 = match Phase::spec_phase(step) {
                Phase::A2S => loc.page.0 as int,
                Phase::B2A => loc.page.0 - start,
                Phase::S2B => loc.page.0 - start,
            };
            assert(ops[i0].to == loc);
            model::lemma_writes_to_once(ops, loc, i0);
        } else {
            assert forall|i: int| 0 <= i < ops.len() implies (#[trigger] ops[i]).to != loc by {
                if ops[i].to.slot == loc.slot {
                    assert(ops[i].to.page.0 != loc.page.0);
                }
            }
            model::lemma_writes_to_none(ops, loc);
        }
    }

    /// The block that transfers page `p` of the primary or secondary
    /// slot: its start lies at or below `p`, its length reaches past it,
    /// and it is a real block of the plan.
    proof fn lemma_page_block(&self, p: int)
        requires
            self.wf(),
            0 <= p < self.num_pages,
        ensures
            ({
                let w = self.scratch_pages as int;
                let b = p / w;
                &&& 0 <= b < self.spec_blocks()
                &&& b * w <= p < b * w + self.spec_block_len(b * w)
                &&& forall|b2: int|
                    0 <= b2 < self.spec_blocks() && b2 != b ==> !(#[trigger] (b2 * w) <= p < b2 * w
                        + self.spec_block_len(b2 * w))
            }),
    {
        let n = self.num_pages as int;
        let w = self.scratch_pages as int;
        let blocks = self.spec_blocks();
        let b = p / w;
        lemma_fundamental_div_mod(p, w);
        lemma_mod_bound(p, w);
        lemma_fundamental_div_mod(n + w - 1, w);
        lemma_mod_bound(n + w - 1, w);
        assert(w * blocks >= n);
        if b >= blocks {
            lemma_mul_inequality(blocks, b, w);
            assert(false);
        }
        assert forall|b2: int|
            0 <= b2 < blocks && b2 != b implies !(#[trigger] (b2 * w) <= p < b2 * w
                + self.spec_block_len(b2 * w)) by {
            if b2 * w <= p < b2 * w + self.spec_block_len(b2 * w) {
                assert(self.spec_block_len(b2 * w) <= w);
                lemma_fundamental_div_mod_converse(p, w, b2, p - b2 * w);
            }
        }
    }

    /// Over a full execution, a primary-slot page in range is erased
    /// exactly once: by the B2A phase of its block.
    pub proof fn lemma_wear_primary(&self, p: int)
        requires
            self.wf(),
            0 <= p < self.num_pages,
        ensures
            model::wear(
                self,
                MemoryLocation { slot: self.slot_primary, page: Page(p as u16) },
            ) == 1,
    {
        let loc = MemoryLocation { slot: self.slot_primary, page: Page(p as u16) };
        let w = self.scratch_pages as int;
        let b = p / w;
        let k0 = 3 * b + 1;
        self.lemma_page_block(p);
        lemma_step_decompose(b, 1);
        self.lemma_plan_writes(k0, loc);
        assert(self.spec_writes(k0, loc));
        assert forall|k: int|
            0 <= k < self.spec_last_step() && k != k0 implies model::writes_to(
            #[trigger] self.spec_plan(k),
            loc,
        ) == 0 by {
            self.lemma_plan_writes(k, loc);
            if self.spec_writes(k, loc) {
                let b2 = k / 3;
                lemma_fundamental_div_mod(k, 3);
                lemma_mod_bound(k, 3);
                assert(Phase::spec_phase(k) is B2A);
                assert(k == 3 * b2 + 1);
                assert(b2 != b ==> !(b2 * w <= p < b2 * w + self.spec_block_len(b2 * w)));
                assert(false);
            }
        }
        model::lemma_wear_between_single(self, 0, self.spec_last_step(), k0, loc);
    }

    /// Over a full execution, a secondary-slot page in range is erased
    /// exactly once: by the S2B phase of its block.
    pub proof fn lemma_wear_secondary(&self, p: int)
        requires
            self.wf(),
            0 <= p < self.num_pages,
        ensures
            model::wear(
                self,
                MemoryLocation { slot: self.request.slot_secondary, page: Page(p as u16) },
            ) == 1,
    {
        let loc = MemoryLocation { slot: self.request.slot_secondary, page: Page(p as u16) };
        let w = self.scratch_pages as int;
        let b = p / w;
        let k0 = 3 * b + 2;
        self.lemma_page_block(p);
        lemma_step_decompose(b, 2);
        self.lemma_plan_writes(k0, loc);
        assert(self.spec_writes(k0, loc));
        assert forall|k: int|
            0 <= k < self.spec_last_step() && k != k0 implies model::writes_to(
            #[trigger] self.spec_plan(k),
            loc,
        ) == 0 by {
            self.lemma_plan_writes(k, loc);
            if self.spec_writes(k, loc) {
                let b2 = k / 3;
                lemma_fundamental_div_mod(k, 3);
                lemma_mod_bound(k, 3);
                assert(Phase::spec_phase(k) is S2B);
                assert(k == 3 * b2 + 2);
                assert(b2 != b ==> !(b2 * w <= p < b2 * w + self.spec_block_len(b2 * w)));
                assert(false);
            }
        }
        model::lemma_wear_between_single(self, 0, self.spec_last_step(), k0, loc);
    }

    /// Over the blocks from `b` on, scratch page `i` is erased at most
    /// once per block, and the first scratch page exactly once per block.
    proof fn lemma_wear_scratch_from(&self, b: int, i: int)
        requires
            self.wf(),
            0 <= b <= self.spec_blocks(),
            0 <= i < self.scratch_pages,
        ensures
            model::wear_between(
                self,
                3 * b,
                self.spec_last_step(),
                MemoryLocation { slot: self.slot_scratch, page: Page(i as u16) },
            ) <= self.spec_blocks() - b,
            i == 0 ==> model::wear_between(
                self,
                3 * b,
                self.spec_last_step(),
                MemoryLocation { slot: self.slot_scratch, page: Page(i as u16) },
            ) == self.spec_blocks() - b,
        decreases self.spec_blocks() - b,
    {
        let loc = MemoryLocation { slot: self.slot_scratch, page: Page(i as u16) };
        let last = self.spec_last_step();
        if b == self.spec_blocks() {
            assert(model::wear_between(self, 3 * b, last, loc) == 0);
        } else {
            lemma_step_decompose(b, 0);
            lemma_step_decompose(b, 1);
            lemma_step_decompose(b, 2);
            self.lemma_step_start_in_range(3 * b);
            self.lemma_plan_writes(3 * b, loc);
            self.lemma_plan_writes(3 * b + 1, loc);
            self.lemma_plan_writes(3 * b + 2, loc);
            assert(model::wear_between(self, 3 * b, last, loc) == model::writes_to(
                self.spec_plan(3 * b),
                loc,
            ) + model::wear_between(self, 3 * b + 1, last, loc));
            assert(model::wear_between(self, 3 * b + 1, last, loc) == model::writes_to(
                self.spec_plan(3 * b + 1),
                loc,
            ) + model::wear_between(self, 3 * b + 2, last, loc));
            assert(model::wear_between(self, 3 * b + 2, last, loc) == model::writes_to(
                self.spec_plan(3 * b + 2),
                loc,
            ) + model::wear_between(self, 3 * b + 3, last, loc));
            assert(3 * (b + 1) == 3 * b + 3);
            self.lemma_wear_scratch_from(b + 1, i);
        }
    }

    /// Over a full execution, the first scratch page is erased exactly
    /// once per block, and every other scratch page at most that often.
    pub proof fn lemma_wear_scratch(&self, i: int)
        requires
            self.wf(),
            0 <= i < self.scratch_pages,
        ensures
            model::wear(
                self,
                MemoryLocation { slot: self.slot_scratch, page: Page(i as u16) },
            ) <= self.spec_blocks(),
            i == 0 ==> model::wear(
                self,
                MemoryLocation { slot: self.slot_scratch, page: Page(0u16) },
            ) == self.spec_blocks(),
    {
        self.lemma_wear_scratch_from(0, i);
    }

    /// Locations the block `b` may write: the block's page range of the
    /// primary and secondary slots, and the scratch pages it buffers in.
    pub open spec fn spec_block_touched(&self, b: int, loc: MemoryLocation) -> bool {
        let start = b * (self.scratch_pages as int);
        let cnt = self.spec_block_len(start);
        ||| ((loc.slot == self.slot_primary || loc.slot == self.request.slot_secondary) && start
            <= loc.page.0 < start + cnt)
        ||| (loc.slot == self.slot_scratch && loc.page.0 < cnt)
    }

    /// Locations the blocks from `b` on may write.
    pub open spec fn spec_tail_touched(&self, b: int, loc: MemoryLocation) -> bool {
        ||| ((loc.slot == self.slot_primary || loc.slot == self.request.slot_secondary) && b * (
        self.scratch_pages as int) <= loc.page.0 < self.num_pages)
        ||| (loc.slot == self.slot_scratch && loc.page.0 < self.scratch_pages)
    }

    /// The three steps of block `b` swap the block's pages between the
    /// primary and secondary slots (via the scratch pages) and touch
    /// nothing else.
    proof fn lemma_block_effect<V>(&self, m: Map<MemoryLocation, V>, b: int)
        requires
            self.wf(),
            0 <= b < self.spec_blocks(),
        ensures
            ({
                let start = b * (self.scratch_pages as int);
                let cnt = self.spec_block_len(start);
                let r = model::run_plan(m, self, 3 * b, 3 * b + 3);
                &&& forall|j: int|
                    start <= j < start + cnt ==> #[trigger] r[MemoryLocation {
                        slot: self.slot_primary,
                        page: Page(j as u16),
                    }] == m[MemoryLocation {
                        slot: self.request.slot_secondary,
                        page: Page(j as u16),
                    }]
                &&& forall|j: int|
                    start <= j < start + cnt ==> #[trigger] r[MemoryLocation {
                        slot: self.request.slot_secondary,
                        page: Page(j as u16),
                    }] == m[MemoryLocation { slot: self.slot_primary, page: Page(j as u16) }]
                &&& forall|loc: MemoryLocation|
                    !self.spec_block_touched(b, loc) ==> #[trigger] r[loc] == m[loc]
            }),
    {
        let w = self.scratch_pages as int;
        let start = b * w;
        let cnt = self.spec_block_len(start);
        lemma_step_decompose(b, 0);
        lemma_step_decompose(b, 1);
        lemma_step_decompose(b, 2);
        self.lemma_step_start_in_range(3 * b);
        let ops0 = self.spec_plan(3 * b);
        let ops1 = self.spec_plan(3 * b + 1);
        let ops2 = self.spec_plan(3 * b + 2);
        let m1 = model::apply_ops(m, ops0);
        let m2 = model::apply_ops(m1, ops1);
        let m3 = model::apply_ops(m2, ops2);
        let r = model::run_plan(m, self, 3 * b, 3 * b + 3);
        assert(model::run_plan(m, self, 3 * b, 3 * b + 3) == model::run_plan(
            m1,
            self,
            3 * b + 1,
            3 * b + 3,
        ));
        assert(model::run_plan(m1, self, 3 * b + 1, 3 * b + 3) == model::run_plan(
            m2,
            self,
            3 * b + 2,
            3 * b + 3,
        ));
        assert(model::run_plan(m2, self, 3 * b + 2, 3 * b + 3) == model::run_plan(
            m3,
            self,
            3 * b + 3,
            3 * b + 3,
        ));
        assert(model::run_plan(m3, self, 3 * b + 3, 3 * b + 3) == m3);
        self.lemma_plan_parallel(3 * b);
        self.lemma_plan_parallel(3 * b + 1);
        self.lemma_plan_parallel(3 * b + 2);
        model::lemma_apply_ops_parallel(m, ops0);
        model::lemma_apply_ops_parallel(m1, ops1);
        model::lemma_apply_ops_parallel(m2, ops2);
        assert forall|j: int| start <= j < start + cnt implies #[trigger] r[MemoryLocation {
            slot: self.slot_primary,
            page: Page(j as u16),
        }] == m[MemoryLocation { slot: self.request.slot_secondary, page: Page(j as u16) }] by {
            let i = j - start;
            let locp = MemoryLocation { slot: self.slot_primary, page: Page(j as u16) };
            let locb = MemoryLocation { slot: self.request.slot_secondary, page: Page(j as u16) };
            assert(ops1[i].to == locp && ops1[i].from == locb);
            assert(m2[locp] == m1[locb]);
            assert(forall|t: int| 0 <= t < ops0.len() ==> (#[trigger] ops0[t]).to != locb);
            model::lemma_apply_ops_unchanged(m, ops0, locb);
            assert(forall|t: int| 0 <= t < ops2.len() ==> (#[trigger] ops2[t]).to != locp);
            model::lemma_apply_ops_unchanged(m2, ops2, locp);
        }
        assert forall|j: int| start <= j < start + cnt implies #[trigger] r[MemoryLocation {
            slot: self.request.slot_secondary,
            page: Page(j as u16),
        }] == m[MemoryLocation { slot: self.slot_primary, page: Page(j as u16) }] by {
            let i = j - start;
            let locp = MemoryLocation { slot: self.slot_primary, page: Page(j as u16) };
            let locb = MemoryLocation { slot: self.request.slot_secondary, page: Page(j as u16) };
            let locs = MemoryLocation { slot: self.slot_scratch, page: Page(i as u16) };
            assert(ops2[i].to == locb && ops2[i].from == locs);
            assert(m3[locb] == m2[locs]);
            assert(forall|t: int| 0 <= t < ops1.len() ==> (#[trigger] ops1[t]).to != locs);
            model::lemma_apply_ops_unchanged(m1, ops1, locs);
            assert(ops0[i].to == locs && ops0[i].from == locp);
            assert(m1[locs] == m[locp]);
        }
        assert forall|loc: MemoryLocation|
            !self.spec_block_touched(b, loc) implies #[trigger] r[loc] == m[loc] by {
            assert(forall|t: int| 0 <= t < ops0.len() ==> (#[trigger] ops0[t]).to != loc);
            assert(forall|t: int| 0 <= t < ops1.len() ==> (#[trigger] ops1[t]).to != loc);
            assert(forall|t: int| 0 <= t < ops2.len() ==> (#[trigger] ops2[t]).to != loc);
            model::lemma_apply_ops_unchanged(m, ops0, loc);
            model::lemma_apply_ops_unchanged(m1, ops1, loc);
            model::lemma_apply_ops_unchanged(m2, ops2, loc);
        }
    }

    /// Running the blocks from `b` on swaps every primary and secondary
    /// page from the tail's start up, and touches nothing outside the
    /// tail's ranges.
    proof fn lemma_swap_from<V>(&self, m: Map<MemoryLocation, V>, b: int)
        requires
            self.wf(),
            0 <= b <= self.spec_blocks(),
        ensures
            ({
                let r = model::run_plan(m, self, 3 * b, self.spec_last_step());
                &&& forall|j: int|
                    b * (self.scratch_pages as int) <= j < self.num_pages
                        ==> #[trigger] r[MemoryLocation {
                        slot: self.slot_primary,
                        page: Page(j as u16),
                    }] == m[MemoryLocation {
                        slot: self.request.slot_secondary,
                        page: Page(j as u16),
                    }]
                &&& forall|j: int|
                    b * (self.scratch_pages as int) <= j < self.num_pages
                        ==> #[trigger] r[MemoryLocation {
                        slot: self.request.slot_secondary,
                        page: Page(j as u16),
                    }] == m[MemoryLocation { slot: self.slot_primary, page: Page(j as u16) }]
                &&& forall|loc: MemoryLocation|
                    !self.spec_tail_touched(b, loc) ==> #[trigger] r[loc] == m[loc]
            }),
        decreases self.spec_blocks() - b,
    {
        let n = self.num_pages as int;
        let w = self.scratch_pages as int;
        let blocks = self.spec_blocks();
        let last = self.spec_last_step();
        if b == blocks {
            lemma_fundamental_div_mod(n + w - 1, w);
            lemma_mod_bound(n + w - 1, w);
            assert(w * blocks >= n);
            assert(b * w == w * blocks) by (nonlinear_arith)
                requires
                    b == blocks,
            ;
            assert(model::run_plan(m, self, 3 * b, last) == m);
        } else {
            let start = b * w;
            let cnt = self.spec_block_len(start);
            lemma_step_decompose(b, 0);
            self.lemma_step_start_in_range(3 * b);
            assert((b + 1) * w == b * w + w) by (nonlinear_arith);
            lemma_mul_inequality(b, b + 1, w);
            let m1 = model::run_plan(m, self, 3 * b, 3 * b + 3);
            model::lemma_run_plan_split(m, self, 3 * b, 3 * b + 3, last);
            self.lemma_block_effect(m, b);
            self.lemma_swap_from(m1, b + 1);
            let r = model::run_plan(m, self, 3 * b, last);
            assert forall|j: int| start <= j < n implies #[trigger] r[MemoryLocation {
                slot: self.slot_primary,
                page: Page(j as u16),
            }] == m[MemoryLocation {
                slot: self.request.slot_secondary,
                page: Page(j as u16),
            }] by {
                let locp = MemoryLocation { slot: self.slot_primary, page: Page(j as u16) };
                let locb = MemoryLocation {
                    slot: self.request.slot_secondary,
                    page: Page(j as u16),
                };
                let r2 = model::run_plan(m1, self, 3 * (b + 1), last);
                assert(r == r2);
                if j < start + cnt {
                    assert(!self.spec_tail_touched(b + 1, locp));
                    assert(r2[locp] == m1[locp]);
                    assert(m1[locp] == m[locb]);
                } else {
                    assert(cnt == w && j >= (b + 1) * w);
                    assert(r2[locp] == m1[locb]);
                    assert(!self.spec_block_touched(b, locb));
                    assert(m1[locb] == m[locb]);
                }
            }
            assert forall|j: int| start <= j < n implies #[trigger] r[MemoryLocation {
                slot: self.request.slot_secondary,
                page: Page(j as u16),
            }] == m[MemoryLocation { slot: self.slot_primary, page: Page(j as u16) }] by {
                let locp = MemoryLocation { slot: self.slot_primary, page: Page(j as u16) };
                let locb = MemoryLocation {
                    slot: self.request.slot_secondary,
                    page: Page(j as u16),
                };
                let r2 = model::run_plan(m1, self, 3 * (b + 1), last);
                assert(r == r2);
                if j < start + cnt {
                    assert(!self.spec_tail_touched(b + 1, locb));
                    assert(r2[locb] == m1[locb]);
                    assert(m1[locb] == m[locp]);
                } else {
                    assert(cnt == w && j >= (b + 1) * w);
                    assert(r2[locb] == m1[locp]);
                    assert(!self.spec_block_touched(b, locp));
                    assert(m1[locp] == m[locp]);
                }
            }
            assert forall|loc: MemoryLocation|
                !self.spec_tail_touched(b, loc) implies #[trigger] r[loc] == m[loc] by {
                let r2 = model::run_plan(m1, self, 3 * (b + 1), last);
                assert(r == r2);
                assert(!self.spec_block_touched(b, loc));
                assert(!self.spec_tail_touched(b + 1, loc));
                assert(m1[loc] == m[loc]);
                assert(r2[loc] == m1[loc]);
            }
        }
    }

    /// A full execution swaps the primary and secondary images page for
    /// page, and changes nothing outside those images and the scratch
    /// pages.
    pub proof fn lemma_sabs_swap<V>(&self, m: Map<MemoryLocation, V>)
        requires
            self.wf(),
        ensures
            forall|j: int|
                0 <= j < self.num_pages ==> #[trigger] model::run(m, self)[MemoryLocation {
                    slot: self.slot_primary,
                    page: Page(j as u16),
                }] == m[MemoryLocation { slot: self.request.slot_secondary, page: Page(j as u16) }],
            forall|j: int|
                0 <= j < self.num_pages ==> #[trigger] model::run(m, self)[MemoryLocation {
                    slot: self.request.slot_secondary,
                    page: Page(j as u16),
                }] == m[MemoryLocation { slot: self.slot_primary, page: Page(j as u16) }],
            forall|loc: MemoryLocation|
                !self.spec_tail_touched(0, loc) ==> #[trigger] model::run(m, self)[loc] == m[loc],
    {
        self.lemma_swap_from(m, 0);
        let last = self.spec_last_step();
        let r0 = model::run_plan(m, self, 3 * 0int, last);
        assert(r0 == model::run(m, self));
        assert forall|j: int| 0 <= j < self.num_pages implies #[trigger] model::run(
            m,
            self,
        )[MemoryLocation { slot: self.slot_primary, page: Page(j as u16) }] == m[MemoryLocation {
            slot: self.request.slot_secondary,
            page: Page(j as u16),
        }] by {
            assert(0 * (self.scratch_pages as int) <= j);
            assert(r0[MemoryLocation { slot: self.slot_primary, page: Page(j as u16) }]
                == m[MemoryLocation { slot: self.request.slot_secondary, page: Page(j as u16) }]);
        }
        assert forall|j: int| 0 <= j < self.num_pages implies #[trigger] model::run(
            m,
            self,
        )[MemoryLocation { slot: self.request.slot_secondary, page: Page(j as u16) }]
            == m[MemoryLocation { slot: self.slot_primary, page: Page(j as u16) }] by {
            assert(0 * (self.scratch_pages as int) <= j);
            assert(r0[MemoryLocation { slot: self.request.slot_secondary, page: Page(j as u16) }]
                == m[MemoryLocation { slot: self.slot_primary, page: Page(j as u16) }]);
        }
        assert forall|loc: MemoryLocation|
            !self.spec_tail_touched(0, loc) implies #[trigger] model::run(m, self)[loc]
            == m[loc] by {
            assert(r0[loc] == m[loc]);
        }
    }

    /// The swap is its own reversion: executing the strategy in full and
    /// then its reverted strategy in full restores every location outside
    /// the scratch slot to its original contents.
    pub proof fn lemma_revert_round_trip<V>(&self, m: Map<MemoryLocation, V>)
        requires
            self.wf(),
        ensures
            self.spec_revert() == Some(*self),
            forall|loc: MemoryLocation|
                loc.slot != self.slot_scratch ==> #[trigger] model::run(
                    model::run(m, self),
                    self,
                )[loc] == m[loc],
    {
        let r1 = model::run(m, self);
        self.lemma_sabs_swap(m);
        self.lemma_sabs_swap(r1);
        assert forall|loc: MemoryLocation|
            loc.slot != self.slot_scratch implies #[trigger] model::run(r1, self)[loc]
            == m[loc] by {
            if loc.slot == self.slot_primary && loc.page.0 < self.num_pages {
                let j = loc.page.0 as int;
                assert(loc == MemoryLocation { slot: self.slot_primary, page: Page(j as u16) });
            } else if loc.slot == self.request.slot_secondary && loc.page.0 < self.num_pages {
                let j = loc.page.0 as int;
                assert(loc == MemoryLocation {
                    slot: self.request.slot_secondary,
                    page: Page(j as u16),
                });
            } else {
                assert(!self.spec_tail_touched(0, loc));
            }
        }
    }

    /// A location outside the three slots' working ranges is never
    /// erased.
    pub proof fn lemma_wear_untouched(&self, loc: MemoryLocation)
        requires
            self.wf(),
            !(loc.slot == self.slot_primary && loc.page.0 < self.num_pages),
            !(loc.slot == self.request.slot_secondary && loc.page.0 < self.num_pages),
            !(loc.slot == self.slot_scratch && loc.page.0 < self.scratch_pages),
        ensures
            model::wear(self, loc) == 0,
    {
        assert forall|k: int|
            0 <= k < self.spec_last_step() implies model::writes_to(
            #[trigger] self.spec_plan(k),
            loc,
        ) == 0 by {
            self.lemma_step_start_in_range(k);
            self.lemma_plan_writes(k, loc);
        }
        model::lemma_wear_between_none(self, 0, self.spec_last_step(), loc);
    }
}

} // verus!
