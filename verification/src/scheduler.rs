//! The backup scheduler's state machine.
//!
//! The scheduler is a long-lived loop with two states: Idle, blocked on the
//! dirty signal, and Backing-Up, running snapshot production and upload.  The
//! loop's outside work — blocking, uploading — belongs to the surrounding
//! process; what the library owns is the decision: from the current phase and
//! the event just observed, the next phase and the action to perform.
//! Failure at either step is recoverable by design: the scheduler returns to
//! waiting, and the next mutation's mark re-arms it.

use vstd::prelude::*;

use crate::errors::{PublishError, SnapshotError};

verus! {

/// The two phases of the scheduler loop.
#[derive(Clone, Copy, Debug, PartialEq, Eq, Structural)]
pub enum SchedulerPhase {
    /// Blocked on the dirty signal.
    Idle,
    /// Running a snapshot-and-upload cycle.
    BackingUp,
}

/// What the loop observed since its last decision.
pub enum BackupEvent {
    /// The dirty signal handed out a permit.
    Woken,
    /// The snapshot producer returned these bytes.
    SnapshotDone(Vec<u8>),
    /// The snapshot producer exhausted its retry budget.
    SnapshotFailed(SnapshotError),
    /// The remote backend acknowledged the upload.
    UploadDone,
    /// The upload did not complete.
    UploadFailed(PublishError),
}

/// What the loop must do next.
pub enum BackupAction {
    /// Block on the dirty signal; the cycle, if any, is over.
    AwaitDirty,
    /// Run the snapshot producer.
    ProduceSnapshot,
    /// Hand these bytes to the remote publisher.
    Upload(Vec<u8>),
}

/// An event's shape, without its payload.
#[derive(Clone, Copy, Debug, PartialEq, Eq, Structural)]
pub enum BackupEventKind {
    Woken,
    SnapshotDone,
    SnapshotFailed,
    UploadDone,
    UploadFailed,
}

/// An action's shape, without its payload.
#[derive(Clone, Copy, Debug, PartialEq, Eq, Structural)]
pub enum BackupActionKind {
    AwaitDirty,
    ProduceSnapshot,
    Upload,
}

/// The shape of an event.
pub open spec fn event_kind(e: BackupEvent) -> BackupEventKind {
    match e {
        BackupEvent::Woken => BackupEventKind::Woken,
        BackupEvent::SnapshotDone(_) => BackupEventKind::SnapshotDone,
        BackupEvent::SnapshotFailed(_) => BackupEventKind::SnapshotFailed,
        BackupEvent::UploadDone => BackupEventKind::UploadDone,
        BackupEvent::UploadFailed(_) => BackupEventKind::UploadFailed,
    }
}

/// The shape of an action.
pub open spec fn action_kind(a: BackupAction) -> BackupActionKind {
    match a {
        BackupAction::AwaitDirty => BackupActionKind::AwaitDirty,
        BackupAction::ProduceSnapshot => BackupActionKind::ProduceSnapshot,
        BackupAction::Upload(_) => BackupActionKind::Upload,
    }
}

/// The transition function of the scheduler.  A wake in Idle starts a cycle;
/// produced bytes are uploaded; a failure at either step, or a completed
/// upload, ends the cycle and returns to waiting.  An event that does not
/// belong to the phase ends any cycle and returns to waiting too — the loop
/// never produces one.
pub open spec fn step_spec(p: SchedulerPhase, e: BackupEventKind) -> (
    SchedulerPhase,
    BackupActionKind,
) {
    match (p, e) {
        (SchedulerPhase::Idle, BackupEventKind::Woken) => (
            SchedulerPhase::BackingUp,
            BackupActionKind::ProduceSnapshot,
        ),
        (SchedulerPhase::BackingUp, BackupEventKind::SnapshotDone) => (
            SchedulerPhase::BackingUp,
            BackupActionKind::Upload,
        ),
        (SchedulerPhase::BackingUp, BackupEventKind::SnapshotFailed) => (
            SchedulerPhase::Idle,
            BackupActionKind::AwaitDirty,
        ),
        (SchedulerPhase::BackingUp, BackupEventKind::UploadDone) => (
            SchedulerPhase::Idle,
            BackupActionKind::AwaitDirty,
        ),
        (SchedulerPhase::BackingUp, BackupEventKind::UploadFailed) => (
            SchedulerPhase::Idle,
            BackupActionKind::AwaitDirty,
        ),
        _ => (SchedulerPhase::Idle, BackupActionKind::AwaitDirty),
    }
}

/// One decision of the scheduler loop: the next phase and the action to
/// perform, as `step_spec` says; an `Upload` action carries exactly the
/// bytes the snapshot event delivered.
pub fn scheduler_step(phase: SchedulerPhase, event: BackupEvent) -> (r: (
    SchedulerPhase,
    BackupAction,
))
    ensures
        (r.0, action_kind(r.1)) == step_spec(phase, event_kind(event)),
        match r.1 {
            BackupAction::Upload(b) => event matches BackupEvent::SnapshotDone(c) && b@ == c@,
            _ => true,
        },
{
    match (phase, event) {
        (SchedulerPhase::Idle, BackupEvent::Woken) => (
            SchedulerPhase::BackingUp,
            BackupAction::ProduceSnapshot,
        ),
        (SchedulerPhase::BackingUp, BackupEvent::SnapshotDone(bytes)) => (
            SchedulerPhase::BackingUp,
            BackupAction::Upload(bytes),
        ),
        (SchedulerPhase::BackingUp, BackupEvent::SnapshotFailed(_)) => (
            SchedulerPhase::Idle,
            BackupAction::AwaitDirty,
        ),
        (SchedulerPhase::BackingUp, BackupEvent::UploadDone) => (
            SchedulerPhase::Idle,
            BackupAction::AwaitDirty,
        ),
        (SchedulerPhase::BackingUp, BackupEvent::UploadFailed(_)) => (
            SchedulerPhase::Idle,
            BackupAction::AwaitDirty,
        ),
        (_, _) => (SchedulerPhase::Idle, BackupAction::AwaitDirty),
    }
}

/// No permanent failure state: a failed upload returns the scheduler to
/// Idle, waiting on the dirty signal, and the next wake — armed by any
/// subsequent write — starts a fresh snapshot-and-upload attempt.
pub proof fn lemma_retry_after_publish_failure()
    ensures
        step_spec(SchedulerPhase::BackingUp, BackupEventKind::UploadFailed) == (
            SchedulerPhase::Idle,
            BackupActionKind::AwaitDirty,
        ),
        step_spec(
            step_spec(SchedulerPhase::BackingUp, BackupEventKind::UploadFailed).0,
            BackupEventKind::Woken,
        ) == (SchedulerPhase::BackingUp, BackupActionKind::ProduceSnapshot),
{
}

/// The same recovery holds when the snapshot itself could not be produced.
pub proof fn lemma_retry_after_snapshot_failure()
    ensures
        step_spec(SchedulerPhase::BackingUp, BackupEventKind::SnapshotFailed) == (
            SchedulerPhase::Idle,
            BackupActionKind::AwaitDirty,
        ),
        step_spec(
            step_spec(SchedulerPhase::BackingUp, BackupEventKind::SnapshotFailed).0,
            BackupEventKind::Woken,
        ) == (SchedulerPhase::BackingUp, BackupActionKind::ProduceSnapshot),
{
}

} // verus!
