//! Sequencing a patch around a live process.
//!
//! A self-update must wait for the running program to exit, apply the
//! package, optionally start a successor, and remove the consumed package
//! file only once success is certain. The decisions of that sequence live
//! here as a state machine over plain events; the caller performs each
//! returned action (the waiting, the patching, the launching, the file
//! removal) and feeds the outcome back in as the next event.

use vstd::prelude::*;

verus! {

/// What the caller asks an update run to do.
///
/// The package locator must name one package file; resolving a pattern to a
/// single path is the caller's job, and several candidates are its error.
pub struct ApplyCommand {
    /// Path of the package file to apply.
    pub package: String,
    /// Target directory to apply the package to.
    pub target: String,
    /// If given, wait for the process with this identifier to exit first.
    pub wait_for: Option<u32>,
    /// If given, run this command after the patch is applied.
    pub on_complete: Option<String>,
}

/// Patch the working directory: an `ApplyCommand` whose target is fixed.
pub struct PatchCommand {
    /// Path of the package file to apply.
    pub package: String,
    /// If given, wait for the process with this identifier to exit first.
    pub wait_for: Option<u32>,
    /// If given, run this command after the patch is applied.
    pub on_complete: Option<String>,
}

/// Find a package next to the working directory and apply it, then remove
/// the consumed package file.
pub struct AutoPatchCommand {}

/// List the manifest of a package.
pub struct ListCommand {
    /// Path of the package file to list.
    pub package: String,
}

/// Build a package from two directory states.
pub struct PackageCommand {
    /// Path of the directory holding the old state.
    pub a: String,
    /// Path of the directory holding the new state.
    pub b: String,
    /// Output path for the package file.
    pub package: String,
}

/// Where an update run stands.
pub enum UpdateState {
    /// Nothing has happened yet.
    Idle,
    /// Waiting for the watched process to exit.
    Waiting,
    /// The patch is being applied.
    Patching,
    /// The successor process is being started.
    Launching,
    /// The run is over and the patch is applied.
    Done,
    /// The run is over and the patch is not applied.
    Failed,
}

/// What the caller reports back to the machine.
pub enum UpdateEvent {
    /// The run begins.
    Begin,
    /// The watched process has exited.
    ProcessExited,
    /// No process with the given identifier was found; non-fatal.
    ProcessNotFound,
    /// The patch was applied in full.
    PatchSucceeded,
    /// The patch failed; the directory may hold a mixed state.
    PatchFailed,
    /// The successor process started.
    LaunchSucceeded,
    /// The successor process could not be started; the patch stands.
    LaunchFailed,
}

/// What the caller must do next.
pub enum UpdateAction {
    /// Block until the process with this identifier exits.
    WaitForProcess(u32),
    /// Apply the package to the target directory.
    ApplyPatch,
    /// Start this command as the successor process.
    Launch(String),
    /// Remove the consumed package file: the patch is applied for certain.
    RemovePackage,
    /// Do nothing further.
    Stop,
}

/// The transition table of an update run. The package file is removed only
/// on the way into `Done`, which is reachable only after `PatchSucceeded`;
/// on `PatchFailed` the run stops with the package left in place for
/// diagnosis. A missing process to wait for is non-fatal. A successor that
/// fails to start does not invalidate the applied patch: the run still ends
/// in `Done` and consumes the package, and the caller — which produced the
/// `LaunchFailed` event and so holds the underlying error — reports that
/// failure as the run's outcome.
pub open spec fn spec_step(cmd: ApplyCommand, st: UpdateState, ev: UpdateEvent) -> (
    UpdateState,
    UpdateAction,
) {
    match (st, ev) {
        (UpdateState::Idle, UpdateEvent::Begin) => match cmd.wait_for {
            Some(pid) => (UpdateState::Waiting, UpdateAction::WaitForProcess(pid)),
            None => (UpdateState::Patching, UpdateAction::ApplyPatch),
        },
        (UpdateState::Waiting, UpdateEvent::ProcessExited) => (
            UpdateState::Patching,
            UpdateAction::ApplyPatch,
        ),
        (UpdateState::Waiting, UpdateEvent::ProcessNotFound) => (
            UpdateState::Patching,
            UpdateAction::ApplyPatch,
        ),
        (UpdateState::Patching, UpdateEvent::PatchSucceeded) => match cmd.on_complete {
            Some(successor) => (UpdateState::Launching, UpdateAction::Launch(successor)),
            None => (UpdateState::Done, UpdateAction::RemovePackage),
        },
        (UpdateState::Patching, UpdateEvent::PatchFailed) => (
            UpdateState::Failed,
            UpdateAction::Stop,
        ),
        (UpdateState::Launching, UpdateEvent::LaunchSucceeded) => (
            UpdateState::Done,
            UpdateAction::RemovePackage,
        ),
        (UpdateState::Launching, UpdateEvent::LaunchFailed) => (
            UpdateState::Done,
            UpdateAction::RemovePackage,
        ),
        (_, _) => (UpdateState::Failed, UpdateAction::Stop),
    }
}

/// Takes one step of an update run.
pub fn step(cmd: &ApplyCommand, st: &UpdateState, ev: &UpdateEvent) -> (r: (
    UpdateState,
    UpdateAction,
))
    ensures
        r == spec_step(*cmd, *st, *ev),
{
    match (st, ev) {
        (UpdateState::Idle, UpdateEvent::Begin) => match &cmd.wait_for {
            Some(pid) => (UpdateState::Waiting, UpdateAction::WaitForProcess(*pid)),
            None => (UpdateState::Patching, UpdateAction::ApplyPatch),
        },
        (UpdateState::Waiting, UpdateEvent::ProcessExited) => (
            UpdateState::Patching,
            UpdateAction::ApplyPatch,
        ),
        (UpdateState::Waiting, UpdateEvent::ProcessNotFound) => (
            UpdateState::Patching,
            UpdateAction::ApplyPatch,
        ),
        (UpdateState::Patching, UpdateEvent::PatchSucceeded) => match &cmd.on_complete {
            Some(successor) => (UpdateState::Launching, UpdateAction::Launch(successor.clone())),
            None => (UpdateState::Done, UpdateAction::RemovePackage),
        },
        (UpdateState::Patching, UpdateEvent::PatchFailed) => (
            UpdateState::Failed,
            UpdateAction::Stop,
        ),
        (UpdateState::Launching, UpdateEvent::LaunchSucceeded) => (
            UpdateState::Done,
            UpdateAction::RemovePackage,
        ),
        (UpdateState::Launching, UpdateEvent::LaunchFailed) => (
            UpdateState::Done,
            UpdateAction::RemovePackage,
        ),
        (_, _) => (UpdateState::Failed, UpdateAction::Stop),
    }
}

/// The state after feeding the first `k` events of a run to the machine.
pub open spec fn run_state(cmd: ApplyCommand, evs: Seq<UpdateEvent>, k: int) -> UpdateState
    decreases k,
{
    if k <= 0 {
        UpdateState::Idle
    } else {
        spec_step(cmd, run_state(cmd, evs, k - 1), evs[k - 1]).0
    }
}

/// The idle state exists only before the first event.
proof fn lemma_idle_only_at_start(cmd: ApplyCommand, evs: Seq<UpdateEvent>, i: int)
    requires
        0 <= i,
        run_state(cmd, evs, i) == UpdateState::Idle,
    ensures
        i == 0,
{
    if i > 0 {
        assert(run_state(cmd, evs, i) == spec_step(
            cmd,
            run_state(cmd, evs, i - 1),
            evs[i - 1],
        ).0);
    }
}

/// The waiting state exists only right after the first event, and only
/// when a process to wait for was given.
proof fn lemma_waiting_only_second(cmd: ApplyCommand, evs: Seq<UpdateEvent>, i: int)
    requires
        0 <= i,
        run_state(cmd, evs, i) == UpdateState::Waiting,
    ensures
        i == 1,
        cmd.wait_for is Some,
{
    if i > 0 {
        assert(run_state(cmd, evs, i) == spec_step(
            cmd,
            run_state(cmd, evs, i - 1),
            evs[i - 1],
        ).0);
        lemma_idle_only_at_start(cmd, evs, i - 1);
    }
}

/// A run asks for the patch at most once: after the step that emits
/// `ApplyPatch`, no later step of the same run emits it again.
pub proof fn lemma_patch_attempted_once(cmd: ApplyCommand, evs: Seq<UpdateEvent>, j: int, k: int)
    requires
        0 <= j < k < evs.len(),
        spec_step(cmd, run_state(cmd, evs, j), evs[j]).1 == UpdateAction::ApplyPatch,
    ensures
        spec_step(cmd, run_state(cmd, evs, k), evs[k]).1 != UpdateAction::ApplyPatch,
{
    let sj = run_state(cmd, evs, j);
    let sk = run_state(cmd, evs, k);
    assert(sj == UpdateState::Idle || sj == UpdateState::Waiting);
    if spec_step(cmd, sk, evs[k]).1 == UpdateAction::ApplyPatch {
        assert(sk == UpdateState::Idle || sk == UpdateState::Waiting);
        if sk == UpdateState::Idle {
            lemma_idle_only_at_start(cmd, evs, k);
        } else {
            lemma_waiting_only_second(cmd, evs, k);
            assert(k == 1 && j == 0);
            assert(sj == UpdateState::Idle);
            assert(cmd.wait_for is None);
        }
    }
}

/// The package file is removed only after the patch has succeeded: whenever
/// a run's step emits `RemovePackage`, some earlier event of the run was
/// `PatchSucceeded`, delivered while the machine was patching.
pub proof fn lemma_removal_needs_success(cmd: ApplyCommand, evs: Seq<UpdateEvent>, k: int)
    requires
        0 <= k < evs.len(),
        spec_step(cmd, run_state(cmd, evs, k), evs[k]).1 == UpdateAction::RemovePackage,
    ensures
        exists|j: int|
            0 <= j <= k && evs[j] == UpdateEvent::PatchSucceeded && #[trigger] run_state(cmd, evs, j)
                == UpdateState::Patching,
    decreases k,
{
    let st = run_state(cmd, evs, k);
    if st == UpdateState::Patching {
        assert(evs[k] == UpdateEvent::PatchSucceeded);
        assert(run_state(cmd, evs, k) == UpdateState::Patching);
    } else {
        assert(st == UpdateState::Launching);
        assert(k > 0);
        let prev = run_state(cmd, evs, k - 1);
        assert(prev == UpdateState::Patching && evs[k - 1] == UpdateEvent::PatchSucceeded);
    }
}

} // verus!
