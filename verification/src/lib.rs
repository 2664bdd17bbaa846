//! Toolkit for building power-loss-safe firmware bootloaders for devices
//! with A/B (or A/B/scratch) flash layouts.
//!
//! A device boots, consults a small persistent state record, and either
//! boots an image directly or advances a multi-step image update one
//! atomic step at a time, recording progress between steps so that a
//! power cut at any moment leaves the system recoverable on next boot.
//!
//! The crate provides:
//! * the page-copy [`Device`] abstraction and its role queries,
//! * the [`strategies`] that plan an update as a finite sequence of
//!   page copies,
//! * the persistent [`state`] record with its on-flash codec,
//! * the [`orchestrator`] that decides one transition per reset,
//! * a [`model`] of flash contents over which the strategies' effects
//!   and wear are proved, and
//! * [`mock`] devices for exercising strategies in tests.
use vstd::prelude::*;

pub mod mock;
pub mod model;
pub mod orchestrator;
pub mod state;
pub mod strategies;

verus! {

/// Error raised by a device when a page copy fails.
#[derive(Clone, Copy, Debug)]
pub struct Error;

/// Image slot identifier.
///
/// Slot numbers are opaque to the strategies: meaning is assigned only by
/// the role queries (`get_primary`, `get_scratch`) on the device.
#[derive(Clone, Copy, PartialEq, Eq, Structural, Debug, Hash)]
pub struct Slot(pub u8);

/// Page number within a slot.
///
/// If the underlying memories have disparate erase sizes, the largest one
/// is chosen as the page size, so a page must be a multiple of every
/// underlying erase size involved. Page 0 is the lowest address in a slot.
#[derive(Clone, Copy, PartialEq, Eq, Structural, Debug, Hash)]
pub struct Page(pub u16);

/// Step number of a strategy that has to be or has been executed.
///
/// Step numbers are strictly monotonic. Every step can be interrupted at
/// any time; after a step has been executed this has to be recorded in
/// the persistent state. If a step was executed but not yet recorded, it
/// must be valid to execute the step again.
#[derive(Clone, Copy, PartialEq, Eq, Structural, Debug, Hash)]
pub struct Step(pub u16);

/// A (slot, page) address of one logical page.
#[derive(Clone, Copy, PartialEq, Eq, Structural, Debug, Hash)]
pub struct MemoryLocation {
    pub slot: Slot,
    pub page: Page,
}

/// Perform an erase of `to` (if necessary) and copy `from` to `to`,
/// leaving `from` intact.
#[derive(Clone, Copy, PartialEq, Eq, Structural, Debug, Hash)]
pub struct CopyOperation {
    pub from: MemoryLocation,
    pub to: MemoryLocation,
}

/// Representation of a concrete device with image slots, supporting
/// copying of pages.
///
/// The model of the device is the map `contents`, giving the bytes of
/// each page. A successful `copy` replaces the destination page by the
/// source page and changes nothing else; this is what makes a step
/// re-executable after a power cut, and the strategy proofs rest on it.
pub trait Device: Sized {
    /// The bytes held by each page, as a model of the flash.
    spec fn contents(&self) -> Map<MemoryLocation, Seq<u8>>;

    /// Number of logical pages per full image slot.
    spec fn spec_page_count(&self) -> u16;

    /// Whether a location addresses a real page of this device.
    spec fn valid_location(&self, loc: MemoryLocation) -> bool;

    /// Copy a page from one memory location to another.
    ///
    /// The copy may fail transiently; on failure the page contents are
    /// not specified (the write may have been interrupted), but the
    /// geometry of the device never changes.
    fn copy(&mut self, operation: CopyOperation) -> (r: Result<(), Error>)
        requires
            old(self).valid_location(operation.from),
            old(self).valid_location(operation.to),
        ensures
            final(self).spec_page_count() == old(self).spec_page_count(),
            forall|l: MemoryLocation|
                #[trigger] final(self).valid_location(l) == old(self).valid_location(l),
            r is Ok ==> final(self).contents()
                == crate::model::apply_op(old(self).contents(), operation),
    ;

    /// All image slots have the same page count, and it is never zero.
    fn page_count(&self) -> (r: u16)
        ensures
            r == self.spec_page_count(),
            r >= 1,
    ;
}

/// A device that also offers a scratch region usable as a swap buffer.
pub trait DeviceWithScratch: Device {
    /// Number of pages available in the scratch memory.
    spec fn spec_scratch_page_count(&self) -> u16;

    /// The slot playing the scratch role.
    spec fn spec_scratch(&self) -> Slot;

    /// Number of pages available in the scratch memory. May be smaller
    /// than `page_count`, and is never zero.
    fn scratch_page_count(&self) -> (r: u16)
        ensures
            r == self.spec_scratch_page_count(),
            r >= 1,
    ;

    fn get_scratch(&self) -> (r: Slot)
        ensures
            r == self.spec_scratch(),
    ;
}

/// A device that knows which slot the CPU boots from.
pub trait DeviceWithPrimarySlot: Device {
    /// The slot playing the primary role.
    spec fn spec_primary(&self) -> Slot;

    fn get_primary(&self) -> (r: Slot)
        ensures
            r == self.spec_primary(),
    ;
}

} // verus!
