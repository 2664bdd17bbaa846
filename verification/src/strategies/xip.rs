//! Strategy for selecting a slot using eXecute In Place.
use vstd::prelude::*;

use crate::model;
use crate::strategies::Strategy;
use crate::{CopyOperation, Device, MemoryLocation, Slot, Step};

verus! {

/// Request to boot a target image.
///
/// When the target image fails to boot, will boot the backup.
///
/// * Note that if the backup is not provided, the device might brick
///   itself.
/// * Note that the backup should have run successfully previously to
///   ensure successful operation.
#[derive(Clone, Copy, PartialEq, Eq, Structural, Debug)]
pub struct Request {
    pub slot_target: Slot,
    pub slot_backup: Option<Slot>,
}

/// Strategy for selecting a slot using eXecute In Place.
///
/// This strategy does not copy any memory around, but directly jumps to
/// the code in-memory. A requirement however is that the device allows
/// executing code from the relevant memory: either the memory is already
/// internal flash, or the device can execute code from an external
/// device over for example QSPI.
///
/// Good to note is that with XIP execution the signature is not
/// continuously verified, so a man-in-the-middle might be possible when
/// using external flash.
pub struct Xip {
    pub request: Request,
}

impl Xip {
    pub fn new(_device: &impl Device, request: Request) -> (r: Xip)
        ensures
            r.wf(),
            r.request == request,
    {
        Xip { request }
    }
}

impl Strategy for Xip {
    open spec fn wf(&self) -> bool {
        true
    }

    /// Nothing is copied: the boot step is the first step.
    open spec fn spec_last_step(&self) -> int {
        0
    }

    /// No step plans any operation.
    open spec fn spec_plan(&self, step: int) -> Seq<CopyOperation> {
        Seq::empty()
    }

    /// Reverting boots the backup instead of the target, if a backup was
    /// provided.
    open spec fn spec_revert(&self) -> Option<Xip> {
        match self.request.slot_backup {
            Some(slot_backup) => Some(
                Xip { request: Request { slot_target: slot_backup, slot_backup: None } },
            ),
            None => None,
        }
    }

    proof fn lemma_last_step_bounds(&self) {
    }

    proof fn lemma_plan_parallel(&self, step: int) {
    }

    fn last_step(&self) -> (r: Step) {
        Step(0)
    }

    fn plan(&self, step: Step) -> (r: Vec<CopyOperation>) {
        Vec::new()
    }

    fn revert(self) -> (r: Option<Xip>) {
        match self.request.slot_backup {
            Some(slot_backup) => Some(
                Xip { request: Request { slot_target: slot_backup, slot_backup: None } },
            ),
            None => None,
        }
    }
}

impl Xip {
    /// Executing the strategy in full changes no flash contents: there
    /// are no steps to run. In particular executing it and then its
    /// reversion returns every location to its original contents.
    pub proof fn lemma_xip_run<V>(&self, m: Map<MemoryLocation, V>)
        ensures
            model::run(m, self) == m,
    {
    }
}

} // verus!
