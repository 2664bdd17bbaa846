//! A device with three image slots of three pages each and no scratch
//! region.
//!
//! Slot 0 is the primary slot; slots 1 (alpha) and 2 (beta) hold the
//! images that can be copied over it. Each logical page holds one byte.
use vstd::prelude::*;

use crate::mock::WearTracker;
use crate::model;
use crate::{CopyOperation, Device, DeviceWithPrimarySlot, Error, MemoryLocation, Slot};

verus! {

/// An in-memory device with three image slots `primary`, `alpha` and
/// `beta`, tracking wear per page.
pub struct MockDevice {
    pub primary: Vec<u8>,
    pub alpha: Vec<u8>,
    pub beta: Vec<u8>,
    pub wear: WearTracker,
}

impl MockDevice {
    /// The bytes of the page at a location.
    pub open spec fn spec_page(&self, loc: MemoryLocation) -> Seq<u8> {
        if loc.slot == Slot(0u8) {
            seq![self.primary@[loc.page.0 as int]]
        } else if loc.slot == Slot(1u8) {
            seq![self.alpha@[loc.page.0 as int]]
        } else {
            seq![self.beta@[loc.page.0 as int]]
        }
    }

    /// A fresh device: image A in the primary and alpha slots, image B in
    /// the beta slot, and no wear recorded.
    pub fn new() -> (r: MockDevice)
        ensures
            r.primary@ == seq![0x01u8, 0x02u8, 0x03u8],
            r.alpha@ == seq![0x01u8, 0x02u8, 0x03u8],
            r.beta@ == seq![0x04u8, 0x05u8, 0x06u8],
            forall|loc: MemoryLocation| #[trigger] r.wear.spec_wear(loc) == 0,
    {
        let mut primary: Vec<u8> = Vec::new();
        primary.push(0x01);
        primary.push(0x02);
        primary.push(0x03);
        let mut alpha: Vec<u8> = Vec::new();
        alpha.push(0x01);
        alpha.push(0x02);
        alpha.push(0x03);
        let mut beta: Vec<u8> = Vec::new();
        beta.push(0x04);
        beta.push(0x05);
        beta.push(0x06);
        proof {
            assert(primary@ =~= seq![0x01u8, 0x02u8, 0x03u8]);
            assert(alpha@ =~= seq![0x01u8, 0x02u8, 0x03u8]);
            assert(beta@ =~= seq![0x04u8, 0x05u8, 0x06u8]);
        }
        MockDevice { primary, alpha, beta, wear: WearTracker::new() }
    }

    fn read_page(&self, loc: MemoryLocation) -> (r: u8)
        requires
            self.valid_location(loc),
        ensures
            self.spec_page(loc) == seq![r],
    {
        if loc.slot.0 == 0 {
            self.primary[loc.page.0 as usize]
        } else if loc.slot.0 == 1 {
            self.alpha[loc.page.0 as usize]
        } else {
            self.beta[loc.page.0 as usize]
        }
    }

    fn write_page(&mut self, loc: MemoryLocation, value: u8)
        requires
            old(self).valid_location(loc),
        ensures
            final(self).wear == old(self).wear,
            forall|l: MemoryLocation|
                #[trigger] final(self).valid_location(l) == old(self).valid_location(l),
            final(self).spec_page(loc) == seq![value],
            forall|l: MemoryLocation|
                l != loc && old(self).valid_location(l) ==> #[trigger] final(self).spec_page(l)
                    == old(self).spec_page(l),
    {
        if loc.slot.0 == 0 {
            self.primary.set(loc.page.0 as usize, value);
        } else if loc.slot.0 == 1 {
            self.alpha.set(loc.page.0 as usize, value);
        } else {
            self.beta.set(loc.page.0 as usize, value);
        }
    }
}

impl Device for MockDevice {
    open spec fn contents(&self) -> Map<MemoryLocation, Seq<u8>> {
        Map::new(
            |loc: MemoryLocation| self.valid_location(loc),
            |loc: MemoryLocation| self.spec_page(loc),
        )
    }

    open spec fn spec_page_count(&self) -> u16 {
        3
    }

    open spec fn valid_location(&self, loc: MemoryLocation) -> bool {
        ||| (loc.slot == Slot(0u8) && (loc.page.0 as int) < self.primary@.len())
        ||| (loc.slot == Slot(1u8) && (loc.page.0 as int) < self.alpha@.len())
        ||| (loc.slot == Slot(2u8) && (loc.page.0 as int) < self.beta@.len())
    }

    fn copy(&mut self, operation: CopyOperation) -> (r: Result<(), Error>) {
        let value = self.read_page(operation.from);
        self.write_page(operation.to, value);
        let ghost mid = *self;
        self.wear.increase(operation.to);
        proof {
            let before = old(self).contents();
            let after = self.contents();
            assert(self.primary@ == mid.primary@ && self.alpha@ == mid.alpha@
                && self.beta@ == mid.beta@);
            assert forall|l: MemoryLocation| #[trigger]
                self.valid_location(l) == old(self).valid_location(l) by {
                assert(self.valid_location(l) == mid.valid_location(l));
            }
            assert forall|l: MemoryLocation| #[trigger] self.spec_page(l) == mid.spec_page(l) by {}
            assert forall|loc: MemoryLocation| #[trigger]
                after.dom().contains(loc) <==> model::apply_op(
                    before,
                    operation,
                ).dom().contains(loc) by {
                assert(after.dom().contains(loc) <==> self.valid_location(loc));
                assert(before.dom().contains(loc) <==> old(self).valid_location(loc));
            }
            assert forall|loc: MemoryLocation|
                after.dom().contains(loc) implies #[trigger] after[loc] == model::apply_op(
                before,
                operation,
            )[loc] by {
                assert(after[loc] == self.spec_page(loc));
                if loc == operation.to {
                    assert(old(self).spec_page(operation.from) == seq![value]);
                    assert(mid.spec_page(loc) == seq![value]);
                    assert(before[operation.from] == old(self).spec_page(operation.from));
                    assert(after[loc] == before[operation.from]);
                } else {
                    assert(mid.spec_page(loc) == old(self).spec_page(loc));
                    assert(before[loc] == old(self).spec_page(loc));
                    assert(after[loc] == before[loc]);
                }
            }
            assert(after =~= model::apply_op(before, operation));
        }
        Ok(())
    }

    fn page_count(&self) -> (r: u16) {
        3
    }
}

impl DeviceWithPrimarySlot for MockDevice {
    open spec fn spec_primary(&self) -> Slot {
        Slot(0u8)
    }

    fn get_primary(&self) -> (r: Slot) {
        Slot(0)
    }
}

} // verus!
