//! The update orchestration state machine.

use eto::update::{step, ApplyCommand, UpdateAction, UpdateEvent, UpdateState};

fn command(wait_for: Option<u32>, on_complete: Option<&str>) -> ApplyCommand {
    ApplyCommand {
        package: "update.etopack".to_owned(),
        target: ".".to_owned(),
        wait_for,
        on_complete: on_complete.map(|s| s.to_owned()),
    }
}

#[test]
fn full_run_waits_patches_launches_and_removes() {
    let cmd = command(Some(42), Some("app"));
    let (st, act) = step(&cmd, &UpdateState::Idle, &UpdateEvent::Begin);
    assert!(matches!(act, UpdateAction::WaitForProcess(42)));
    let (st, act) = step(&cmd, &st, &UpdateEvent::ProcessExited);
    assert!(matches!(act, UpdateAction::ApplyPatch));
    let (st, act) = step(&cmd, &st, &UpdateEvent::PatchSucceeded);
    match &act {
        UpdateAction::Launch(successor) => assert_eq!(successor, "app"),
        _ => panic!("expected a launch"),
    }
    let (st, act) = step(&cmd, &st, &UpdateEvent::LaunchSucceeded);
    assert!(matches!(act, UpdateAction::RemovePackage));
    assert!(matches!(st, UpdateState::Done));
}

#[test]
fn run_without_wait_or_successor_patches_directly() {
    let cmd = command(None, None);
    let (st, act) = step(&cmd, &UpdateState::Idle, &UpdateEvent::Begin);
    assert!(matches!(act, UpdateAction::ApplyPatch));
    let (st, act) = step(&cmd, &st, &UpdateEvent::PatchSucceeded);
    assert!(matches!(act, UpdateAction::RemovePackage));
    assert!(matches!(st, UpdateState::Done));
}

#[test]
fn missing_process_is_not_fatal() {
    let cmd = command(Some(7), None);
    let (st, _) = step(&cmd, &UpdateState::Idle, &UpdateEvent::Begin);
    let (_, act) = step(&cmd, &st, &UpdateEvent::ProcessNotFound);
    assert!(matches!(act, UpdateAction::ApplyPatch));
}

#[test]
fn failed_patch_keeps_the_package() {
    let cmd = command(None, Some("app"));
    let (st, _) = step(&cmd, &UpdateState::Idle, &UpdateEvent::Begin);
    let (st, act) = step(&cmd, &st, &UpdateEvent::PatchFailed);
    assert!(matches!(act, UpdateAction::Stop));
    assert!(matches!(st, UpdateState::Failed));
}

#[test]
fn failed_launch_still_confirms_the_patch() {
    let cmd = command(None, Some("app"));
    let (st, _) = step(&cmd, &UpdateState::Idle, &UpdateEvent::Begin);
    let (st, _) = step(&cmd, &st, &UpdateEvent::PatchSucceeded);
    let (st, act) = step(&cmd, &st, &UpdateEvent::LaunchFailed);
    assert!(matches!(act, UpdateAction::RemovePackage));
    assert!(matches!(st, UpdateState::Done));
}
