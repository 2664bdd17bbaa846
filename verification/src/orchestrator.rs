//! The decision core of the bootloader's top-level loop.
//!
//! At reset the loop reads the committed [`State`], asks [`decide`] for
//! the one transition to perform, executes at most one step of work,
//! persists the next state, and possibly boots. A crash at any point
//! re-enters the loop at the top with the last committed state, so every
//! decision here must make progress towards a booting state; the
//! [`rank`] function and its lemmas prove that it does.
//!
//! The step execution and the persisting are the caller's: it performs
//! the outcome's actions in order (execute the planned step, store the
//! next state, boot the named slot), and the state it must write is
//! spelled out in the outcome, so the crash-recovery argument rests only
//! on "persist after the step's effects are durable".
use vstd::prelude::*;

use crate::state::State;
use crate::{Slot, Step};

verus! {

/// What the bootloader has to do for one loop iteration.
#[derive(Clone, Copy, PartialEq, Eq, Structural, Debug)]
pub enum Outcome {
    /// Boot this slot; the update machinery has nothing left to do.
    Boot { slot: Slot },
    /// Persist `next` and re-enter the loop; no device work.
    Commit { next: State },
    /// Execute step `step` of the forward (or, when `reverting`, the
    /// reverse) strategy, then persist `next` and re-enter the loop.
    Step { reverting: bool, step: Step, next: State },
    /// Execute step `step` as in `Step`, persist `next`, then boot `slot`.
    StepThenBoot { reverting: bool, step: Step, next: State, slot: Slot },
    /// Persist `next`, then boot `slot`; no device work (a strategy with
    /// no steps finishes the moment it starts).
    CommitThenBoot { next: State, slot: Slot },
}

/// A state is well formed for the given strategy sizes when its progress
/// counter addresses a real step: below the respective last step, or step
/// zero for a strategy with no steps at all.
pub open spec fn wf_state(s: State, last_fwd: int, last_rev: int) -> bool {
    match s {
        State::Swapping { step, .. } => step.0 < last_fwd || (step.0 == 0 && last_fwd == 0),
        State::Returning { step, .. } => step.0 < last_rev || (step.0 == 0 && last_rev == 0),
        _ => true,
    }
}

/// The transition table: what the bootloader does when it wakes up in
/// each state.
///
/// * `Initial` boots the primary slot, `Confirmed` its target, `Failed`
///   its (restored) current image.
/// * `Request` commits the start of the forward swap.
/// * `Swapping` executes one forward step; when that step was the final
///   one, it commits `Trialing` and boots the target, whose application
///   must confirm the trial before the next reset.
/// * `Trialing` reached at reset means the trial failed: commit the
///   start of the reverse swap.
/// * `Returning` executes one reverse step; when that step was the final
///   one, it commits `Failed` and boots the old image.
pub open spec fn spec_decide(s: State, last_fwd: int, last_rev: int, primary: Slot) -> Outcome {
    match s {
        State::Initial => Outcome::Boot { slot: primary },
        State::Confirmed { target } => Outcome::Boot { slot: target },
        State::Failed { current, failed } => Outcome::Boot { slot: current },
        State::Request { current, target } => Outcome::Commit {
            next: State::Swapping { target, old: current, step: Step(0) },
        },
        State::Swapping { target, old, step } => {
            if step.0 + 1 < last_fwd {
                Outcome::Step {
                    reverting: false,
                    step,
                    next: State::Swapping { target, old, step: Step((step.0 + 1) as u16) },
                }
            } else if step.0 < last_fwd {
                Outcome::StepThenBoot {
                    reverting: false,
                    step,
                    next: State::Trialing { target, old },
                    slot: target,
                }
            } else {
                Outcome::CommitThenBoot { next: State::Trialing { target, old }, slot: target }
            }
        },
        State::Trialing { target, old } => Outcome::Commit {
            next: State::Returning { failed: target, old, step: Step(0) },
        },
        State::Returning { failed, old, step } => {
            if step.0 + 1 < last_rev {
                Outcome::Step {
                    reverting: true,
                    step,
                    next: State::Returning { failed, old, step: Step((step.0 + 1) as u16) },
                }
            } else if step.0 < last_rev {
                Outcome::StepThenBoot {
                    reverting: true,
                    step,
                    next: State::Failed { current: old, failed },
                    slot: old,
                }
            } else {
                Outcome::CommitThenBoot { next: State::Failed { current: old, failed }, slot: old }
            }
        },
    }
}

/// The state the outcome asks the caller to persist, if any.
pub open spec fn outcome_next(o: Outcome) -> Option<State> {
    match o {
        Outcome::Boot { .. } => None,
        Outcome::Commit { next } => Some(next),
        Outcome::Step { next, .. } => Some(next),
        Outcome::StepThenBoot { next, .. } => Some(next),
        Outcome::CommitThenBoot { next, .. } => Some(next),
    }
}

/// Decide the one transition to perform for the current state.
///
/// `last_step_forward` and `last_step_revert` are the last steps of the
/// forward and the reverse strategy of the active request.
pub fn decide(state: State, last_step_forward: Step, last_step_revert: Step, primary: Slot) -> (r:
    Outcome)
    requires
        wf_state(state, last_step_forward.0 as int, last_step_revert.0 as int),
    ensures
        r == spec_decide(state, last_step_forward.0 as int, last_step_revert.0 as int, primary),
{
    match state {
        State::Initial => Outcome::Boot { slot: primary },
        State::Confirmed { target } => Outcome::Boot { slot: target },
        State::Failed { current, failed: _ } => Outcome::Boot { slot: current },
        State::Request { current, target } => Outcome::Commit {
            next: State::Swapping { target, old: current, step: Step(0) },
        },
        State::Swapping { target, old, step } => {
            if step.0 + 1 < last_step_forward.0 {
                Outcome::Step {
                    reverting: false,
                    step,
                    next: State::Swapping { target, old, step: Step(step.0 + 1) },
                }
            } else if step.0 < last_step_forward.0 {
                Outcome::StepThenBoot {
                    reverting: false,
                    step,
                    next: State::Trialing { target, old },
                    slot: target,
                }
            } else {
                Outcome::CommitThenBoot { next: State::Trialing { target, old }, slot: target }
            }
        },
        State::Trialing { target, old } => Outcome::Commit {
            next: State::Returning { failed: target, old, step: Step(0) },
        },
        State::Returning { failed, old, step } => {
            if step.0 + 1 < last_step_revert.0 {
                Outcome::Step {
                    reverting: true,
                    step,
                    next: State::Returning { failed, old, step: Step(step.0 + 1) },
                }
            } else if step.0 < last_step_revert.0 {
                Outcome::StepThenBoot {
                    reverting: true,
                    step,
                    next: State::Failed { current: old, failed },
                    slot: old,
                }
            } else {
                Outcome::CommitThenBoot { next: State::Failed { current: old, failed }, slot: old }
            }
        },
    }
}

/// How far a state is from a booting decision: an upper bound on the
/// number of committed transitions before the orchestrator boots.
pub open spec fn rank(s: State, last_fwd: int, last_rev: int) -> int {
    match s {
        State::Initial => 0,
        State::Confirmed { .. } => 0,
        State::Failed { .. } => 0,
        State::Returning { step, .. } => last_rev - step.0 + 1,
        State::Trialing { .. } => last_rev + 2,
        State::Swapping { step, .. } => (last_fwd - step.0) + last_rev + 3,
        State::Request { .. } => last_fwd + last_rev + 4,
    }
}

/// Starting from any committed state, the system converges: every
/// transition the table commits strictly decreases the state's rank, the
/// rank is bounded by `last_fwd + last_rev + 4` and never negative, and
/// the states without a committed successor are exactly the booting ones
/// (`Initial`, `Confirmed`, `Failed`). An arbitrary reset between
/// operations re-enters the table at the last committed state, so after
/// at most `rank` transitions — however many resets interleave — the
/// system reaches one of those three states and boots.
pub proof fn lemma_decide_converges(s: State, last_fwd: int, last_rev: int, primary: Slot)
    requires
        wf_state(s, last_fwd, last_rev),
        0 <= last_fwd <= u16::MAX,
        0 <= last_rev <= u16::MAX,
    ensures
        0 <= rank(s, last_fwd, last_rev) <= last_fwd + last_rev + 4,
        match outcome_next(spec_decide(s, last_fwd, last_rev, primary)) {
            Some(next) => {
                &&& wf_state(next, last_fwd, last_rev)
                &&& rank(next, last_fwd, last_rev) < rank(s, last_fwd, last_rev)
            },
            None => s is Initial || s is Confirmed || s is Failed,
        },
{
}

/// Transition discipline for the in-progress states: a committed
/// transition out of `Swapping` or `Returning` either advances the step
/// counter by exactly one, keeping the tag and every other field, or
/// changes the tag — never both.
pub proof fn lemma_transition_discipline(s: State, last_fwd: int, last_rev: int, primary: Slot)
    requires
        wf_state(s, last_fwd, last_rev),
        0 <= last_fwd <= u16::MAX,
        0 <= last_rev <= u16::MAX,
    ensures
        match (s, outcome_next(spec_decide(s, last_fwd, last_rev, primary))) {
            (State::Swapping { target, old, step }, Some(next)) => next == State::Swapping {
                target,
                old,
                step: Step((step.0 + 1) as u16),
            } || !(next is Swapping),
            (State::Returning { failed, old, step }, Some(next)) => next == State::Returning {
                failed,
                old,
                step: Step((step.0 + 1) as u16),
            } || !(next is Returning),
            _ => true,
        },
{
}

} // verus!
