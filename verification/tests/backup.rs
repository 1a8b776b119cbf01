//! Durability path: the dirty signal, the snapshot codec and producer, the
//! scheduler's state machine, and the startup restore.

use flylinks::bootstrap::{bootstrap, FetchOutcome};
use flylinks::errors::{BootstrapError, PublishError, SnapshotError, StoreError};
use flylinks::link::Link;
use flylinks::persistence::Persistence;
use flylinks::scheduler::{scheduler_step, BackupAction, BackupEvent, SchedulerPhase};
use flylinks::signal::DirtySignal;
use flylinks::snapshot::{decode_store, encode_store};
use flylinks::store::Store;

fn fresh() -> Persistence {
    Persistence::from_store(Store::new())
}

fn mklink(short_form: &str, long_form: &str, created_at: &str) -> Link {
    Link {
        short_form: short_form.to_string(),
        long_form: long_form.to_string(),
        created_at: created_at.to_string(),
    }
}

#[test]
fn dirty_signal_coalesces_a_burst_into_one_permit() {
    let mut s = DirtySignal::new();
    for _ in 0..17 {
        s.mark();
    }
    assert!(s.try_drain());
    assert!(!s.try_drain());
}

#[test]
fn dirty_signal_never_misses_a_wake() {
    let mut s = DirtySignal::new();
    assert!(!s.try_drain());
    s.mark();
    assert!(s.try_drain());
    assert!(!s.try_drain());
}

#[test]
fn every_successful_create_marks_the_signal_once() {
    let mut p = fresh();
    assert!(!p.take_pending());
    p.create_link("a".to_string(), mklink("x", "http://one", "t1"));
    assert!(p.take_pending());
    assert!(!p.take_pending());
    p.create_link("a".to_string(), mklink("x", "http://two", "t2"));
    p.create_link("a".to_string(), mklink("y", "http://three", "t3"));
    assert!(p.take_pending());
    assert!(!p.take_pending());
}

#[test]
fn snapshot_restores_three_records() {
    let mut p = fresh();
    p.create_link("a".to_string(), mklink("x", "http://one", "t1"));
    p.create_link("a".to_string(), mklink("y", "http://two", "t2"));
    p.create_link("b".to_string(), mklink("z", "http://three", "t3"));

    let bytes = p.stage_backup(&Vec::new()).expect("snapshot must succeed");
    let restored = bootstrap(FetchOutcome::Fetched(bytes)).expect("restore must succeed");

    for ns in ["a", "b"] {
        let live = p.list_links(ns.to_string());
        let back = restored.list_links(ns.to_string());
        assert_eq!(live.len(), back.len());
        for (l, r) in live.iter().zip(back.iter()) {
            assert_eq!(l.short_form, r.short_form);
            assert_eq!(l.long_form, r.long_form);
            assert_eq!(l.created_at, r.created_at);
        }
    }
}

#[test]
fn snapshot_preserves_multibyte_text() {
    let mut p = fresh();
    p.create_link(
        "espacio único".to_string(),
        mklink("enlace-✓", "http://例え.jp/µ?q=ß", "2024-01-01T00:00:00+09:00"),
    );

    let bytes = p.stage_backup(&Vec::new()).unwrap();
    let restored = bootstrap(FetchOutcome::Fetched(bytes)).unwrap();
    let got = restored
        .get_link("espacio único".to_string(), "enlace-✓".to_string())
        .unwrap();
    assert_eq!(got.long_form, "http://例え.jp/µ?q=ß");
    assert_eq!(got.created_at, "2024-01-01T00:00:00+09:00");
}

#[test]
fn empty_table_round_trips() {
    let store = Store::new();
    let bytes = encode_store(&store);
    assert_eq!(bytes, vec![0u8; 8]);
    let decoded = decode_store(&bytes).expect("empty snapshot must decode");
    assert_eq!(decoded.len(), 0);
}

#[test]
fn snapshot_attempts_respect_the_retry_budget() {
    let mut p = fresh();
    p.create_link("a".to_string(), mklink("x", "http://one", "t1"));

    let exhausted = p.stage_backup(&vec![true, true, true, true, true]);
    assert_eq!(exhausted.unwrap_err(), SnapshotError::Busy);

    let eventually_free = p.stage_backup(&vec![true, true, false]);
    assert!(eventually_free.is_ok());

    let beyond_schedule = p.stage_backup(&vec![true, true, true, true, true, false]);
    assert_eq!(beyond_schedule.unwrap_err(), SnapshotError::Busy);
}

#[test]
fn garbage_bytes_are_malformed() {
    let garbage = vec![1u8, 2, 3];
    assert_eq!(decode_store(&garbage).unwrap_err(), StoreError::Malformed);

    let mut truncated = (3u64).to_le_bytes().to_vec();
    truncated.extend_from_slice(&[0, 0]);
    assert_eq!(decode_store(&truncated).unwrap_err(), StoreError::Malformed);
}

fn append_field(out: &mut Vec<u8>, field: &str) {
    out.extend_from_slice(&(field.len() as u64).to_le_bytes());
    out.extend_from_slice(field.as_bytes());
}

#[test]
fn trailing_bytes_are_malformed() {
    let store = Store::new();
    let mut bytes = encode_store(&store);
    bytes.push(0);
    assert_eq!(decode_store(&bytes).unwrap_err(), StoreError::Malformed);
}

#[test]
fn duplicate_keys_are_rejected() {
    let mut bytes = (2u64).to_le_bytes().to_vec();
    for long_form in ["http://one", "http://two"] {
        append_field(&mut bytes, "a");
        append_field(&mut bytes, "x");
        append_field(&mut bytes, long_form);
        append_field(&mut bytes, "t");
    }
    assert_eq!(decode_store(&bytes).unwrap_err(), StoreError::DuplicateKey);
}

#[test]
fn bootstrap_failures_keep_their_kind() {
    assert_eq!(
        bootstrap(FetchOutcome::NotFound).unwrap_err(),
        BootstrapError::MissingSnapshot
    );
    assert_eq!(
        bootstrap(FetchOutcome::Unreachable).unwrap_err(),
        BootstrapError::FetchFailed
    );
    assert_eq!(
        bootstrap(FetchOutcome::Fetched(vec![9, 9])).unwrap_err(),
        BootstrapError::CorruptSnapshot(StoreError::Malformed)
    );

    let mut dup = (2u64).to_le_bytes().to_vec();
    for _ in 0..2 {
        append_field(&mut dup, "a");
        append_field(&mut dup, "x");
        append_field(&mut dup, "http://one");
        append_field(&mut dup, "t");
    }
    assert_eq!(
        bootstrap(FetchOutcome::Fetched(dup)).unwrap_err(),
        BootstrapError::CorruptSnapshot(StoreError::DuplicateKey)
    );
}

#[test]
fn transient_publish_failure_recovers_on_next_write() {
    let mut p = fresh();
    p.create_link("a".to_string(), mklink("x", "http://one", "t1"));

    // First cycle: wake, snapshot, and a transient upload failure.
    assert!(p.take_pending());
    let (phase, action) = scheduler_step(SchedulerPhase::Idle, BackupEvent::Woken);
    assert_eq!(phase, SchedulerPhase::BackingUp);
    assert!(matches!(action, BackupAction::ProduceSnapshot));

    let first = p.stage_backup(&Vec::new()).unwrap();
    let (phase, action) = scheduler_step(phase, BackupEvent::SnapshotDone(first.clone()));
    assert_eq!(phase, SchedulerPhase::BackingUp);
    let uploaded = match action {
        BackupAction::Upload(b) => b,
        _ => panic!("snapshot bytes must be uploaded"),
    };
    assert_eq!(uploaded, first);

    let (phase, action) = scheduler_step(
        phase,
        BackupEvent::UploadFailed(PublishError::Unavailable),
    );
    assert_eq!(phase, SchedulerPhase::Idle);
    assert!(matches!(action, BackupAction::AwaitDirty));
    assert!(!p.take_pending());

    // A new write re-arms the signal; the second cycle succeeds.
    p.create_link("a".to_string(), mklink("y", "http://two", "t2"));
    assert!(p.take_pending());
    let (phase, action) = scheduler_step(phase, BackupEvent::Woken);
    assert_eq!(phase, SchedulerPhase::BackingUp);
    assert!(matches!(action, BackupAction::ProduceSnapshot));

    let second = p.stage_backup(&Vec::new()).unwrap();
    let (phase, action) = scheduler_step(phase, BackupEvent::SnapshotDone(second.clone()));
    let uploaded = match action {
        BackupAction::Upload(b) => b,
        _ => panic!("snapshot bytes must be uploaded"),
    };
    assert_eq!(uploaded, second);

    let (phase, action) = scheduler_step(phase, BackupEvent::UploadDone);
    assert_eq!(phase, SchedulerPhase::Idle);
    assert!(matches!(action, BackupAction::AwaitDirty));

    // What the second cycle captured includes both writes.
    let restored = bootstrap(FetchOutcome::Fetched(second)).unwrap();
    assert_eq!(restored.list_links("a".to_string()).len(), 2);
}

#[test]
fn failed_snapshot_ends_the_cycle_and_recovers() {
    let mut p = fresh();
    p.create_link("a".to_string(), mklink("x", "http://one", "t1"));
    assert!(p.take_pending());

    let (phase, _) = scheduler_step(SchedulerPhase::Idle, BackupEvent::Woken);
    let attempt = p.stage_backup(&vec![true; 5]);
    let err = attempt.unwrap_err();
    let (phase, action) = scheduler_step(phase, BackupEvent::SnapshotFailed(err));
    assert_eq!(phase, SchedulerPhase::Idle);
    assert!(matches!(action, BackupAction::AwaitDirty));

    p.create_link("a".to_string(), mklink("y", "http://two", "t2"));
    assert!(p.take_pending());
    let (phase, action) = scheduler_step(phase, BackupEvent::Woken);
    assert_eq!(phase, SchedulerPhase::BackingUp);
    assert!(matches!(action, BackupAction::ProduceSnapshot));
    assert!(p.stage_backup(&Vec::new()).is_ok());
}
