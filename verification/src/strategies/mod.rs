//! Slot activation strategies like moving, copying or executing in place.
//!
//! A strategy is a pure planner: a value built from a request and the
//! device's geometry, which maps every step index below its last step to
//! the finite sequence of page copies that realises that step. The
//! executable `plan` returns exactly the mathematical plan `spec_plan`,
//! so planning is deterministic by construction, and every proof about a
//! strategy's effect is a statement about `spec_plan` alone.
use vstd::prelude::*;

use crate::model;
use crate::{CopyOperation, Device, Error, Step};

pub mod copy;
pub mod swap_sabs;
pub mod swap_scootch;
pub mod xip;

verus! {

/// A slot activation strategy.
pub trait Strategy: Sized {
    /// The strategy's geometry is usable: the slots it addresses are
    /// distinct where they must be, and its step count fits a [`Step`].
    /// Constructors establish this; every other method assumes it.
    spec fn wf(&self) -> bool;

    /// The mathematical number of steps of the strategy.
    spec fn spec_last_step(&self) -> int;

    /// The mathematical plan: the operations that realise step `step`.
    spec fn spec_plan(&self, step: int) -> Seq<CopyOperation>;

    /// What `revert` returns: the planner of the reversing plan, if any.
    spec fn spec_revert(&self) -> Option<Self>;

    /// A well-formed strategy's step count fits the persistent record.
    proof fn lemma_last_step_bounds(&self)
        requires
            self.wf(),
        ensures
            0 <= self.spec_last_step() <= u16::MAX,
    ;

    /// Every step is a parallel assignment: no destination within a step
    /// is also one of its sources, and no two operations of a step write
    /// the same page. In particular no operation copies a page onto
    /// itself, each step is idempotent, and an interrupted step is
    /// recovered by re-executing it in full (see [`crate::model`]).
    proof fn lemma_plan_parallel(&self, step: int)
        requires
            self.wf(),
            0 <= step < self.spec_last_step(),
        ensures
            model::parallel_step(self.spec_plan(step)),
    ;

    /// The step which denotes that the swap has been completed, and that
    /// boot should occur.
    ///
    /// Planning a copy for this step or any later one is forbidden.
    fn last_step(&self) -> (r: Step)
        requires
            self.wf(),
        ensures
            r.0 == self.spec_last_step(),
    ;

    /// Plan the operations to be executed for a given step.
    fn plan(&self, step: Step) -> (r: Vec<CopyOperation>)
        requires
            self.wf(),
            step.0 < self.spec_last_step(),
        ensures
            r@ == self.spec_plan(step.0 as int),
    ;

    /// A planner for the reversing plan, if the update is reversible.
    fn revert(self) -> (r: Option<Self>)
        requires
            self.wf(),
        ensures
            r == self.spec_revert(),
            r matches Some(back) ==> back.wf(),
    ;
}

/// Planning is deterministic: the plan of a step is a function of the
/// strategy value and the step index alone, so planning the same step
/// twice yields equal operation sequences.
pub proof fn lemma_plan_deterministic<S: Strategy>(s: &S, step: int)
    ensures
        s.spec_plan(step) == s.spec_plan(step),
{
}

/// Executing one step of any strategy twice in a row leaves the same
/// flash contents as executing it once.
pub proof fn lemma_step_idempotent<V, S: Strategy>(
    m: Map<crate::MemoryLocation, V>,
    s: &S,
    step: int,
)
    requires
        s.wf(),
        0 <= step < s.spec_last_step(),
    ensures
        model::apply_ops(model::apply_ops(m, s.spec_plan(step)), s.spec_plan(step)) =~= model::apply_ops(
            m,
            s.spec_plan(step),
        ),
{
    s.lemma_plan_parallel(step);
    model::lemma_parallel_step_idempotent(m, s.spec_plan(step));
}

/// Execute one planned step of a strategy on a device: the step's page
/// copies, in order. A copy may fail transiently; the device's geometry
/// is preserved either way, and on success the device holds exactly the
/// step's effect on its previous contents.
pub fn execute_step<D: Device, S: Strategy>(device: &mut D, strategy: &S, step: Step) -> (r:
    Result<(), Error>)
    requires
        strategy.wf(),
        step.0 < strategy.spec_last_step(),
        forall|i: int|
            0 <= i < strategy.spec_plan(step.0 as int).len() ==> old(device).valid_location(
                (#[trigger] strategy.spec_plan(step.0 as int)[i]).from,
            ) && old(device).valid_location(strategy.spec_plan(step.0 as int)[i].to),
    ensures
        final(device).spec_page_count() == old(device).spec_page_count(),
        forall|l: crate::MemoryLocation|
            #[trigger] final(device).valid_location(l) == old(device).valid_location(l),
        r is Ok ==> final(device).contents() == model::apply_ops(
            old(device).contents(),
            strategy.spec_plan(step.0 as int),
        ),
{
    let ops = strategy.plan(step);
    let ghost plan = strategy.spec_plan(step.0 as int);
    let mut i: usize = 0;
    proof {
        assert(plan.take(0) =~= Seq::<CopyOperation>::empty());
    }
    while i < ops.len()
        invariant
            ops@ == plan,
            i <= plan.len(),
            strategy.wf(),
            forall|j: int|
                0 <= j < plan.len() ==> old(device).valid_location((#[trigger] plan[j]).from)
                    && old(device).valid_location(plan[j].to),
            device.spec_page_count() == old(device).spec_page_count(),
            forall|l: crate::MemoryLocation|
                #[trigger] device.valid_location(l) == old(device).valid_location(l),
            device.contents() == model::apply_ops(old(device).contents(), plan.take(i as int)),
        decreases plan.len() - i,
    {
        let operation = ops[i];
        match device.copy(operation) {
            Ok(()) => {},
            Err(e) => {
                return Err(e);
            },
        }
        proof {
            assert(plan.take(i + 1) =~= plan.take(i as int).push(plan[i as int]));
            model::lemma_apply_ops_snoc(old(device).contents(), plan.take(i as int), plan[i as int]);
        }
        i += 1;
    }
    proof {
        assert(plan.take(plan.len() as int) =~= plan);
    }
    Ok(())
}

/// Execute every step of a strategy on a device, first to last. On
/// success the device holds exactly the strategy's full effect on its
/// previous contents — for the swap strategies, the swapped images.
#[verifier::loop_isolation(false)]
pub fn execute<D: Device, S: Strategy>(device: &mut D, strategy: &S) -> (r: Result<(), Error>)
    requires
        strategy.wf(),
        forall|k: int, i: int|
            0 <= k < strategy.spec_last_step() && 0 <= i < strategy.spec_plan(k).len() ==> old(
                device,
            ).valid_location((#[trigger] strategy.spec_plan(k)[i]).from) && old(
                device,
            ).valid_location(strategy.spec_plan(k)[i].to),
    ensures
        final(device).spec_page_count() == old(device).spec_page_count(),
        forall|l: crate::MemoryLocation|
            #[trigger] final(device).valid_location(l) == old(device).valid_location(l),
        r is Ok ==> final(device).contents() == model::run(old(device).contents(), strategy),
{
    let last = strategy.last_step();
    let mut k: u16 = 0;
    while k < last.0
        invariant
            k <= last.0,
            device.spec_page_count() == old(device).spec_page_count(),
            forall|l: crate::MemoryLocation|
                #[trigger] device.valid_location(l) == old(device).valid_location(l),
            device.contents() == model::run_plan(old(device).contents(), strategy, 0, k as int),
        decreases last.0 - k,
    {
        let ghost before = device.contents();
        match execute_step(device, strategy, Step(k)) {
            Ok(()) => {},
            Err(e) => {
                return Err(e);
            },
        }
        proof {
            model::lemma_run_plan_split(old(device).contents(), strategy, 0, k as int, k + 1);
            assert(model::run_plan(before, strategy, k as int, k + 1) == model::run_plan(
                model::apply_ops(before, strategy.spec_plan(k as int)),
                strategy,
                k + 1,
                k + 1,
            ));
        }
        k += 1;
    }
    Ok(())
}

/// A step of any strategy interrupted after any number of its operations
/// and then re-executed in full reaches the contents of an uninterrupted
/// execution.
pub proof fn lemma_step_restartable<V, S: Strategy>(
    m: Map<crate::MemoryLocation, V>,
    s: &S,
    step: int,
    cut: int,
)
    requires
        s.wf(),
        0 <= step < s.spec_last_step(),
        0 <= cut <= s.spec_plan(step).len(),
    ensures
        model::apply_ops(model::apply_ops(m, s.spec_plan(step).take(cut)), s.spec_plan(step))
            =~= model::apply_ops(m, s.spec_plan(step)),
{
    s.lemma_plan_parallel(step);
    model::lemma_parallel_step_restartable(m, s.spec_plan(step), cut);
}

/// A power cut in the middle of a step is harmless. The committed state
/// says step `k` is next, so the flash holds the full run up to `k` plus
/// whatever prefix of step `k`'s operations had executed before the cut;
/// recovery re-enters at step `k` and executes it in full, reaching
/// exactly the state of an uninterrupted run up to `k + 1` — whatever the
/// prefix was.
pub proof fn lemma_step_crash_recovery<V, S: Strategy>(
    m: Map<crate::MemoryLocation, V>,
    s: &S,
    step: int,
    cut: int,
)
    requires
        s.wf(),
        0 <= step < s.spec_last_step(),
        0 <= cut <= s.spec_plan(step).len(),
    ensures
        model::apply_ops(
            model::apply_ops(model::run_plan(m, s, 0, step), s.spec_plan(step).take(cut)),
            s.spec_plan(step),
        ) =~= model::run_plan(m, s, 0, step + 1),
{
    let done = model::run_plan(m, s, 0, step);
    lemma_step_restartable(done, s, step, cut);
    model::lemma_run_plan_split(m, s, 0, step, step + 1);
    assert(model::run_plan(done, s, step, step + 1) == model::run_plan(
        model::apply_ops(done, s.spec_plan(step)),
        s,
        step + 1,
        step + 1,
    ));
}

} // verus!
