use alloy_primitives::Address;
use forgery::boot::{Boot, BootAction, BootEvent, BootStage};

fn run(libraries: usize, events: Vec<BootEvent>) -> Boot {
    let mut b = Boot::new(libraries, vec![0u8; 20]);
    for e in events {
        b.step(e);
    }
    b
}

#[test]
fn boot_runs_in_order() {
    let target = vec![0x42u8; 20];
    let mut b = Boot::new(2, vec![0u8; 20]);
    assert!(matches!(b.action(), BootAction::SetNonce(a, 0) if a == vec![0u8; 20]));
    b.step(BootEvent::Succeeded);
    assert!(matches!(b.action(), BootAction::FundMax(a) if a == vec![0u8; 20]));
    b.step(BootEvent::Succeeded);
    assert!(matches!(b.action(), BootAction::DeployLibrary(0)));
    b.step(BootEvent::Succeeded);
    assert!(matches!(b.action(), BootAction::DeployLibrary(1)));
    b.step(BootEvent::Succeeded);
    let expected = Address::ZERO.create(2).to_vec();
    assert!(matches!(b.action(), BootAction::FundMax(a) if a == expected));
    b.step(BootEvent::Succeeded);
    assert!(matches!(b.action(), BootAction::DeployTarget));
    b.step(BootEvent::TargetDeployed(target.clone()));
    assert!(matches!(b.action(), BootAction::MarkPersistent(a) if a == target));
    b.step(BootEvent::Succeeded);
    assert!(matches!(b.action(), BootAction::CallInitializer(a, d) if a == target && d == vec![0xbe, 0x9a, 0x65, 0x55]));
    b.step(BootEvent::Succeeded);
    assert_eq!(b.stage, BootStage::Serving);
    assert!(matches!(b.action(), BootAction::Serve(a) if a == target));
}

#[test]
fn boot_without_libraries_funds_target_next() {
    let b = run(0, vec![BootEvent::Succeeded, BootEvent::Succeeded]);
    assert_eq!(b.stage, BootStage::FundTarget);
}

#[test]
fn initializer_revert_never_serves() {
    let b = run(
        0,
        vec![
            BootEvent::Succeeded,
            BootEvent::Succeeded,
            BootEvent::Succeeded,
            BootEvent::TargetDeployed(vec![1u8; 20]),
            BootEvent::Succeeded,
            BootEvent::Reverted,
            BootEvent::Succeeded,
        ],
    );
    assert_eq!(b.stage, BootStage::Aborted);
    assert!(matches!(b.action(), BootAction::Abort));
}

#[test]
fn constructor_failure_aborts() {
    let b = run(0, vec![BootEvent::Succeeded, BootEvent::Succeeded, BootEvent::Succeeded, BootEvent::Reverted]);
    assert_eq!(b.stage, BootStage::Aborted);
    let b = run(0, vec![BootEvent::Succeeded, BootEvent::Succeeded, BootEvent::Succeeded, BootEvent::Succeeded]);
    assert_eq!(b.stage, BootStage::Aborted);
}

#[test]
fn library_failure_aborts() {
    let b = run(3, vec![BootEvent::Succeeded, BootEvent::Succeeded, BootEvent::Succeeded, BootEvent::Failed]);
    assert_eq!(b.stage, BootStage::Aborted);
}
