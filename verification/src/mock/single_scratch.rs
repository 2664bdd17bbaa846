//! A device with a primary and a secondary image slot of three pages
//! each, and a single-page scratch region.
//!
//! Slot 0 is the primary slot, slot 1 the secondary, slot 2 the scratch.
//! Each logical page holds one byte.
use vstd::prelude::*;

use crate::mock::WearTracker;
use crate::model;
use crate::{
    CopyOperation, Device, DeviceWithPrimarySlot, DeviceWithScratch, Error, MemoryLocation, Slot,
};

verus! {

/// An in-memory device with slots `primary`, `secondary` and a one-page
/// `scratch`, tracking wear per page.
pub struct MockDevice {
    pub primary: Vec<u8>,
    pub secondary: Vec<u8>,
    pub scratch: Vec<u8>,
    pub wear: WearTracker,
}

impl MockDevice {
    /// The bytes of the page at a location.
    pub open spec fn spec_page(&self, loc: MemoryLocation) -> Seq<u8> {
        if loc.slot == Slot(0u8) {
            seq![self.primary@[loc.page.0 as int]]
        } else if loc.slot == Slot(1u8) {
            seq![self.secondary@[loc.page.0 as int]]
        } else {
            seq![self.scratch@[loc.page.0 as int]]
        }
    }

    /// A fresh device: image A in the primary slot, image B in the
    /// secondary, an erased scratch page, and no wear recorded.
    pub fn new() -> (r: MockDevice)
        ensures
            r.primary@ == seq![0x01u8, 0x02u8, 0x03u8],
            r.secondary@ == seq![0x04u8, 0x05u8, 0x06u8],
            r.scratch@ == seq![0xffu8],
            forall|loc: MemoryLocation| #[trigger] r.wear.spec_wear(loc) == 0,
    {
        let mut primary: Vec<u8> = Vec::new();
        primary.push(0x01);
        primary.push(0x02);
        primary.push(0x03);
        let mut secondary: Vec<u8> = Vec::new();
        secondary.push(0x04);
        secondary.push(0x05);
        secondary.push(0x06);
        let mut scratch: Vec<u8> = Vec::new();
        scratch.push(0xff);
        proof {
            assert(primary@ =~= seq![0x01u8, 0x02u8, 0x03u8]);
            assert(secondary@ =~= seq![0x04u8, 0x05u8, 0x06u8]);
            assert(scratch@ =~= seq![0xffu8]);
        }
        MockDevice { primary, secondary, scratch, wear: WearTracker::new() }
    }

    fn read_page(&self, loc: MemoryLocation) -> (r: u8)
        requires
            self.valid_location(loc),
        ensures
            self.spec_page(loc) == seq![r],
    {
        if loc.slot.0 == 0 {
            self.primary[loc.page.0 as usize]
        } else if loc.slot.0 == 1 {
            self.secondary[loc.page.0 as usize]
        } else {
            self.scratch[loc.page.0 as usize]
        }
    }

    fn write_page(&mut self, loc: MemoryLocation, value: u8)
        requires
            old(self).valid_location(loc),
        ensures
            final(self).wear == old(self).wear,
            forall|l: MemoryLocation|
                #[trigger] final(self).valid_location(l) == old(self).valid_location(l),
            final(self).spec_page(loc) == seq![value],
            forall|l: MemoryLocation|
                l != loc && old(self).valid_location(l) ==> #[trigger] final(self).spec_page(l)
                    == old(self).spec_page(l),
    {
        if loc.slot.0 == 0 {
            self.primary.set(loc.page.0 as usize, value);
        } else if loc.slot.0 == 1 {
            self.secondary.set(loc.page.0 as usize, value);
        } else {
            self.scratch.set(loc.page.0 as usize, value);
        }
    }
}

impl Device for MockDevice {
    open spec fn contents(&self) -> Map<MemoryLocation, Seq<u8>> {
        Map::new(
            |loc: MemoryLocation| self.valid_location(loc),
            |loc: MemoryLocation| self.spec_page(loc),
        )
    }

    open spec fn spec_page_count(&self) -> u16 {
        3
    }

    open spec fn valid_location(&self, loc: MemoryLocation) -> bool {
        ||| (loc.slot == Slot(0u8) && (loc.page.0 as int) < self.primary@.len())
        ||| (loc.slot == Slot(1u8) && (loc.page.0 as int) < self.secondary@.len())
        ||| (loc.slot == Slot(2u8) && (loc.page.0 as int) < self.scratch@.len())
    }

    fn copy(&mut self, operation: CopyOperation) -> (r: Result<(), Error>) {
        let value = self.read_page(operation.from);
        self.write_page(operation.to, value);
        let ghost mid = *self;
        self.wear.increase(operation.to);
        proof {
            let before = old(self).contents();
            let after = self.contents();
            assert(self.primary@ == mid.primary@ && self.secondary@ == mid.secondary@
                && self.scratch@ == mid.scratch@);
            assert forall|l: MemoryLocation| #[trigger]
                self.valid_location(l) == old(self).valid_location(l) by {
                assert(self.valid_location(l) == mid.valid_location(l));
            }
            assert forall|l: MemoryLocation| #[trigger] self.spec_page(l) == mid.spec_page(l) by {}
            assert forall|loc: MemoryLocation| #[trigger]
                after.dom().contains(loc) <==> model::apply_op(
                    before,
                    operation,
                ).dom().contains(loc) by {
                assert(after.dom().contains(loc) <==> self.valid_location(loc));
                assert(before.dom().contains(loc) <==> old(self).valid_location(loc));
            }
            assert forall|loc: MemoryLocation|
                after.dom().contains(loc) implies #[trigger] after[loc] == model::apply_op(
                before,
                operation,
            )[loc] by {
                assert(after[loc] == self.spec_page(loc));
                if loc == operation.to {
                    assert(old(self).spec_page(operation.from) == seq![value]);
                    assert(mid.spec_page(loc) == seq![value]);
                    assert(before[operation.from] == old(self).spec_page(operation.from));
                    assert(after[loc] == before[operation.from]);
                } else {
                    assert(mid.spec_page(loc) == old(self).spec_page(loc));
                    assert(before[loc] == old(self).spec_page(loc));
                    assert(after[loc] == before[loc]);
                }
            }
            assert(after =~= model::apply_op(before, operation));
        }
        Ok(())
    }

    fn page_count(&self) -> (r: u16) {
        3
    }
}

impl DeviceWithScratch for MockDevice {
    open spec fn spec_scratch_page_count(&self) -> u16 {
        1
    }

    open spec fn spec_scratch(&self) -> Slot {
        Slot(2u8)
    }

    fn scratch_page_count(&self) -> (r: u16) {
        1
    }

    fn get_scratch(&self) -> (r: Slot) {
        Slot(2)
    }
}

impl DeviceWithPrimarySlot for MockDevice {
    open spec fn spec_primary(&self) -> Slot {
        Slot(0u8)
    }

    fn get_primary(&self) -> (r: Slot) {
        Slot(0)
    }
}

} // verus!
