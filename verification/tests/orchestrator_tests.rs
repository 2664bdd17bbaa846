use bootlick::mock::single_scratch;
use bootlick::orchestrator::{decide, Outcome};
use bootlick::state::State;
use bootlick::strategies::swap_scootch::{Request as ScootchRequest, SwapScootch};
use bootlick::strategies::Strategy;
use bootlick::{Device, Slot, Step};

const PRIMARY: u8 = 0;
const SECONDARY: u8 = 1;

fn last_steps(device: &single_scratch::MockDevice) -> (Step, Step) {
    let strategy = SwapScootch::new(device, ScootchRequest { slot_secondary: Slot(SECONDARY) });
    let forward = strategy.last_step();
    let reverse = strategy.revert().unwrap().last_step();
    (forward, reverse)
}

#[test]
fn terminal_states_boot() {
    let device = single_scratch::MockDevice::new();
    let (fwd, rev) = last_steps(&device);
    assert_eq!(
        decide(State::Initial, fwd, rev, Slot(PRIMARY)),
        Outcome::Boot { slot: Slot(PRIMARY) }
    );
    assert_eq!(
        decide(State::Confirmed { target: Slot(SECONDARY) }, fwd, rev, Slot(PRIMARY)),
        Outcome::Boot { slot: Slot(SECONDARY) }
    );
    assert_eq!(
        decide(
            State::Failed { current: Slot(PRIMARY), failed: Slot(SECONDARY) },
            fwd,
            rev,
            Slot(PRIMARY),
        ),
        Outcome::Boot { slot: Slot(PRIMARY) }
    );
}

#[test]
fn request_commits_swap_start() {
    let device = single_scratch::MockDevice::new();
    let (fwd, rev) = last_steps(&device);
    assert_eq!(
        decide(
            State::Request { current: Slot(PRIMARY), target: Slot(SECONDARY) },
            fwd,
            rev,
            Slot(PRIMARY),
        ),
        Outcome::Commit {
            next: State::Swapping { target: Slot(SECONDARY), old: Slot(PRIMARY), step: Step(0) },
        }
    );
}

#[test]
fn trialing_at_reset_means_failed_trial() {
    let device = single_scratch::MockDevice::new();
    let (fwd, rev) = last_steps(&device);
    assert_eq!(
        decide(
            State::Trialing { target: Slot(SECONDARY), old: Slot(PRIMARY) },
            fwd,
            rev,
            Slot(PRIMARY),
        ),
        Outcome::Commit {
            next: State::Returning { failed: Slot(SECONDARY), old: Slot(PRIMARY), step: Step(0) },
        }
    );
}

#[test]
fn swapping_advances_step_by_one_then_trials() {
    let device = single_scratch::MockDevice::new();
    let (fwd, rev) = last_steps(&device);
    let mid = decide(
        State::Swapping { target: Slot(SECONDARY), old: Slot(PRIMARY), step: Step(0) },
        fwd,
        rev,
        Slot(PRIMARY),
    );
    assert_eq!(
        mid,
        Outcome::Step {
            reverting: false,
            step: Step(0),
            next: State::Swapping { target: Slot(SECONDARY), old: Slot(PRIMARY), step: Step(1) },
        }
    );
    let end = decide(
        State::Swapping { target: Slot(SECONDARY), old: Slot(PRIMARY), step: Step(fwd.0 - 1) },
        fwd,
        rev,
        Slot(PRIMARY),
    );
    assert_eq!(
        end,
        Outcome::StepThenBoot {
            reverting: false,
            step: Step(fwd.0 - 1),
            next: State::Trialing { target: Slot(SECONDARY), old: Slot(PRIMARY) },
            slot: Slot(SECONDARY),
        }
    );
}

#[test]
fn returning_ends_in_failed_and_boots_old() {
    let device = single_scratch::MockDevice::new();
    let (fwd, rev) = last_steps(&device);
    let end = decide(
        State::Returning { failed: Slot(SECONDARY), old: Slot(PRIMARY), step: Step(rev.0 - 1) },
        fwd,
        rev,
        Slot(PRIMARY),
    );
    assert_eq!(
        end,
        Outcome::StepThenBoot {
            reverting: true,
            step: Step(rev.0 - 1),
            next: State::Failed { current: Slot(PRIMARY), failed: Slot(SECONDARY) },
            slot: Slot(PRIMARY),
        }
    );
}

#[test]
fn zero_step_strategy_trials_immediately() {
    // A strategy with no steps (such as execute-in-place) finishes the
    // moment it starts: the swap commits the trial and boots at once.
    assert_eq!(
        decide(
            State::Swapping { target: Slot(SECONDARY), old: Slot(PRIMARY), step: Step(0) },
            Step(0),
            Step(0),
            Slot(PRIMARY),
        ),
        Outcome::CommitThenBoot {
            next: State::Trialing { target: Slot(SECONDARY), old: Slot(PRIMARY) },
            slot: Slot(SECONDARY),
        }
    );
}

/// Drive the full update lifecycle on a mock device, taking the
/// trial-failed path: the system converges to `Failed` within the rank
/// bound, the images end up back in place, and every committed state is
/// reached exactly once per transition.
#[test]
fn full_cycle_converges_and_restores_images() {
    let mut device = single_scratch::MockDevice::new();
    let forward = SwapScootch::new(&device, ScootchRequest { slot_secondary: Slot(SECONDARY) });
    let reverse = SwapScootch::new(&device, ScootchRequest { slot_secondary: Slot(SECONDARY) })
        .revert()
        .unwrap();
    let (fwd, rev) = (forward.last_step(), reverse.last_step());

    let mut state = State::Request { current: Slot(PRIMARY), target: Slot(SECONDARY) };
    let bound = fwd.0 as usize + rev.0 as usize + 4;
    let mut transitions = 0usize;
    let mut booted: Vec<Slot> = Vec::new();

    loop {
        assert!(transitions <= bound, "the orchestrator failed to converge");
        match decide(state, fwd, rev, Slot(PRIMARY)) {
            Outcome::Boot { slot } => {
                booted.push(slot);
                break;
            }
            Outcome::Commit { next } => {
                state = next;
            }
            Outcome::Step { reverting, step, next } => {
                let plan = if reverting { reverse.plan(step) } else { forward.plan(step) };
                for operation in plan {
                    device.copy(operation).unwrap();
                }
                state = next;
            }
            Outcome::StepThenBoot { reverting, step, next, slot } => {
                let plan = if reverting { reverse.plan(step) } else { forward.plan(step) };
                for operation in plan {
                    device.copy(operation).unwrap();
                }
                state = next;
                // The booted image never confirms its trial in this
                // scenario; the next reset re-enters the loop.
                booted.push(slot);
            }
            Outcome::CommitThenBoot { next, slot } => {
                state = next;
                booted.push(slot);
            }
        }
        transitions += 1;
    }

    // The target was trialed once, then the old image was booted after the
    // return, and again from the terminal Failed state.
    assert_eq!(booted, vec![Slot(SECONDARY), Slot(PRIMARY), Slot(PRIMARY)]);
    assert_eq!(
        state,
        State::Failed { current: Slot(PRIMARY), failed: Slot(SECONDARY) }
    );
    // Swapping forward and back restored both images.
    assert_eq!(device.primary, vec![0x01, 0x02, 0x03]);
    assert_eq!(device.secondary, vec![0x04, 0x05, 0x06]);
}
