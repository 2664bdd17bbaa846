use bootlick::mock::{multi_scratch, single_scratch, tri_slot};
use bootlick::strategies::copy::Request as CopyRequest;
use bootlick::strategies::swap_sabs::{Request as SabsRequest, SwapSABS};
use bootlick::strategies::swap_scootch::{Request as ScootchRequest, SwapScootch};
use bootlick::strategies::xip::{Request as XipRequest, Xip};
use bootlick::strategies::Strategy;
use bootlick::{Device, Slot, Step};

fn image_a() -> Vec<u8> {
    vec![0x01, 0x02, 0x03]
}

fn image_b() -> Vec<u8> {
    vec![0x04, 0x05, 0x06]
}

fn perform<D: Device, S: Strategy>(device: &mut D, strategy: &S) {
    for step_i in 0..strategy.last_step().0 {
        let step = Step(step_i);
        for operation in strategy.plan(step) {
            device.copy(operation).unwrap();
        }
    }
}

#[test]
fn test() {
    let mut device = tri_slot::MockDevice::new();
    let strategy = bootlick::strategies::copy::Copy::new(
        &device,
        CopyRequest { slot_secondary: Slot(2), slot_backup: Some(Slot(1)) },
    );

    assert_eq!(device.primary, image_a());
    assert_eq!(device.alpha, image_a());
    assert_eq!(device.beta, image_b());

    perform(&mut device, &strategy);

    assert_eq!(device.primary, image_b());
    assert_eq!(device.alpha, image_a());
    assert_eq!(device.beta, image_b());

    assert!(device.wear.check_slot(Slot(0), 1));
    assert!(device.wear.check_slot(Slot(1), 0));
    assert!(device.wear.check_slot(Slot(2), 0));

    let strategy = strategy.revert().unwrap();

    perform(&mut device, &strategy);

    assert_eq!(device.primary, image_a());
    assert_eq!(device.alpha, image_a());
    assert_eq!(device.beta, image_b());
}

#[test]
fn copy_without_backup() {
    let mut device = tri_slot::MockDevice::new();
    let strategy = bootlick::strategies::copy::Copy::new(
        &device,
        CopyRequest { slot_secondary: Slot(2), slot_backup: None },
    );

    assert_eq!(strategy.last_step(), Step(1));

    perform(&mut device, &strategy);

    assert_eq!(device.primary, image_b());
    assert_eq!(device.beta, image_b());

    assert!(strategy.revert().is_none());
}

#[test]
fn swap_sabs_single_scratch() {
    let mut device = single_scratch::MockDevice::new();
    let strategy = SwapSABS::new(&device, SabsRequest { slot_secondary: Slot(1) });

    assert_eq!(device.primary, image_a());
    assert_eq!(device.secondary, image_b());

    perform(&mut device, &strategy);

    assert_eq!(device.primary, image_b());
    assert_eq!(device.secondary, image_a());

    assert!(device.wear.check_slot(Slot(0), 1));
    assert!(device.wear.check_slot(Slot(1), 1));
    assert!(device
        .wear
        .check_slot(Slot(2), device.page_count() as usize));

    let strategy = strategy.revert().unwrap();

    perform(&mut device, &strategy);

    assert_eq!(device.primary, image_a());
    assert_eq!(device.secondary, image_b());
}

#[test]
fn multi_scratch() {
    let mut device = multi_scratch::MockDevice::new();
    let strategy = SwapSABS::new(&device, SabsRequest { slot_secondary: Slot(1) });

    assert_eq!(device.primary, image_a());
    assert_eq!(device.secondary, image_b());

    perform(&mut device, &strategy);

    assert_eq!(device.primary, image_b());
    assert_eq!(device.secondary, image_a());

    assert!(device.wear.check_slot(Slot(0), 1));
    assert!(device.wear.check_slot(Slot(1), 1));
    assert!(device.wear.check_slot(
        Slot(2),
        (device.page_count() as usize).div_ceil(2),
    ));

    let strategy = strategy.revert().unwrap();

    perform(&mut device, &strategy);

    assert_eq!(device.primary, image_a());
    assert_eq!(device.secondary, image_b());
}

#[test]
fn sabs_multi_scratch_step_count() {
    // With three pages and a two-page scratch, the tail block is partial:
    // two blocks of three phases each.
    let device = multi_scratch::MockDevice::new();
    let strategy = SwapSABS::new(&device, SabsRequest { slot_secondary: Slot(1) });
    assert_eq!(strategy.last_step(), Step(6));
}

#[test]
fn swap_scootch_single_scratch() {
    let mut device = single_scratch::MockDevice::new();

    let strategy = SwapScootch::new(&device, ScootchRequest { slot_secondary: Slot(1) });

    assert_eq!(device.primary, image_a());
    assert_eq!(device.secondary, image_b());

    for step_i in 0..strategy.last_step().0 {
        let step = Step(step_i);
        for operation in strategy.plan(step) {
            device.copy(operation).unwrap();
        }
    }

    assert_eq!(device.primary, image_b());
    assert_eq!(device.secondary, image_a());

    assert!(device.wear.check_slot(Slot(0), 2));
    assert!(device.wear.check_slot(Slot(1), 1));
    assert!(device.wear.check_slot(Slot(2), 1));
}

#[test]
fn scootch_revert_restores_images() {
    let mut device = single_scratch::MockDevice::new();
    let strategy = SwapScootch::new(&device, ScootchRequest { slot_secondary: Slot(1) });

    perform(&mut device, &strategy);
    let strategy = strategy.revert().unwrap();
    perform(&mut device, &strategy);

    assert_eq!(device.primary, image_a());
    assert_eq!(device.secondary, image_b());
}

#[test]
fn scootch_power_loss_sweep() {
    // For every step index of a scootch plan over three pages, simulate a
    // power cut around that step: the recovery re-enters at the step whose
    // completion was never persisted and re-executes it in full. Whether
    // the interrupted attempt had executed none of the step's copies or
    // all of them, the final contents equal those of an uninterrupted run.
    let reference = {
        let mut device = single_scratch::MockDevice::new();
        let strategy = SwapScootch::new(&device, ScootchRequest { slot_secondary: Slot(1) });
        perform(&mut device, &strategy);
        (device.primary.clone(), device.secondary.clone())
    };

    let device = single_scratch::MockDevice::new();
    let last = SwapScootch::new(&device, ScootchRequest { slot_secondary: Slot(1) })
        .last_step()
        .0;

    for cut in 0..last {
        // The interrupted attempt executed none of step `cut`'s copies.
        let mut device = single_scratch::MockDevice::new();
        let strategy = SwapScootch::new(&device, ScootchRequest { slot_secondary: Slot(1) });
        for step_i in 0..cut {
            for operation in strategy.plan(Step(step_i)) {
                device.copy(operation).unwrap();
            }
        }
        for step_i in cut..last {
            for operation in strategy.plan(Step(step_i)) {
                device.copy(operation).unwrap();
            }
        }
        assert_eq!((device.primary, device.secondary), reference.clone());

        // The interrupted attempt executed all of step `cut`'s copies, but
        // the progress was not persisted before the reset.
        let mut device = single_scratch::MockDevice::new();
        let strategy = SwapScootch::new(&device, ScootchRequest { slot_secondary: Slot(1) });
        for step_i in 0..=cut {
            for operation in strategy.plan(Step(step_i)) {
                device.copy(operation).unwrap();
            }
        }
        for step_i in cut..last {
            for operation in strategy.plan(Step(step_i)) {
                device.copy(operation).unwrap();
            }
        }
        assert_eq!((device.primary, device.secondary), reference.clone());
    }
}

#[test]
fn xip_plans_nothing() {
    let device = single_scratch::MockDevice::new();
    let strategy = Xip::new(
        &device,
        XipRequest { slot_target: Slot(1), slot_backup: Some(Slot(0)) },
    );
    assert_eq!(strategy.last_step(), Step(0));

    let reverted = strategy.revert().unwrap();
    assert_eq!(reverted.request.slot_target, Slot(0));
    assert_eq!(reverted.request.slot_backup, None);
}

#[test]
fn xip_without_backup_has_no_revert() {
    let device = single_scratch::MockDevice::new();
    let strategy = Xip::new(
        &device,
        XipRequest { slot_target: Slot(1), slot_backup: None },
    );
    assert!(strategy.revert().is_none());
}

#[test]
fn plan_is_deterministic() {
    let device = single_scratch::MockDevice::new();
    let strategy = SwapScootch::new(&device, ScootchRequest { slot_secondary: Slot(1) });
    for step_i in 0..strategy.last_step().0 {
        assert_eq!(strategy.plan(Step(step_i)), strategy.plan(Step(step_i)));
    }
    let sabs = SwapSABS::new(&device, SabsRequest { slot_secondary: Slot(1) });
    for step_i in 0..sabs.last_step().0 {
        assert_eq!(sabs.plan(Step(step_i)), sabs.plan(Step(step_i)));
    }
}

#[test]
fn execute_runs_the_whole_plan() {
    let mut device = single_scratch::MockDevice::new();
    let strategy = SwapSABS::new(&device, SabsRequest { slot_secondary: Slot(1) });
    bootlick::strategies::execute(&mut device, &strategy).unwrap();
    assert_eq!(device.primary, image_b());
    assert_eq!(device.secondary, image_a());

    let strategy = strategy.revert().unwrap();
    bootlick::strategies::execute(&mut device, &strategy).unwrap();
    assert_eq!(device.primary, image_a());
    assert_eq!(device.secondary, image_b());
}
