//! Tests of the scheduler's state words and conversions.

use rzbackup::state::{
    Config, DiskSnapshot, Global, JobConfig, JobState, Snapshot, SnapshotState,
};
use rzbackup::times::Timespec;

#[test]
fn job_state_words_round_trip() {
    for (word, state) in [
        ("idle", JobState::Idle),
        ("syncing", JobState::Syncing),
        ("snapshotting", JobState::Snapshotting),
        ("sending", JobState::Sending),
        ("exporting", JobState::Exporting),
    ] {
        assert_eq!(JobState::from_string(word), state);
        assert_eq!(state.to_string(), word);
    }
}

#[test]
fn snapshot_state_words_round_trip() {
    for (word, state) in [
        ("snapshotting", SnapshotState::Snapshotting),
        ("snapshotted", SnapshotState::Snapshotted),
        ("sending", SnapshotState::Sending),
        ("sent", SnapshotState::Sent),
    ] {
        assert_eq!(SnapshotState::from_string(word), state);
        assert_eq!(state.to_string(), word);
    }
}

#[test]
fn new_state_starts_every_job_idle() {
    let config = Config {
        state: "state.json".to_string(),
        lock: "lock".to_string(),
        jobs: vec![
            JobConfig {
                name: "alpha".to_string(),
                sync_script: None,
                sync_log: None,
                snapshot_script: None,
                snapshot_log: None,
                send_script: None,
                send_log: None,
            },
            JobConfig {
                name: "beta".to_string(),
                sync_script: Some("/bin/sync-beta".to_string()),
                sync_log: Some("/log/beta".to_string()),
                snapshot_script: None,
                snapshot_log: None,
                send_script: None,
                send_log: None,
            },
        ],
    };
    let global = Global::new_state(&config);
    assert_eq!(global.jobs.len(), 2);
    assert_eq!(global.jobs[0].name, "alpha");
    assert_eq!(global.jobs[1].name, "beta");
    assert_eq!(global.jobs[0].state, JobState::Idle);
    assert!(global.jobs[1].last_sync.is_none());
    assert!(global.jobs[1].snapshots.is_empty());
}

#[test]
fn snapshot_record_round_trip() {
    let snapshot = Snapshot {
        state: SnapshotState::Snapshotted,
        snapshot_time: Timespec { sec: 86400, nsec: 0 },
        send_time: None,
    };
    let disk = Global::write_snapshot(&snapshot);
    assert_eq!(disk.state, "snapshotted");
    assert_eq!(disk.snapshot_time, "1970-01-02 00:00:00");
    assert!(disk.send_time.is_none());
    let back = Global::read_snapshot(&disk);
    assert_eq!(back.state, SnapshotState::Snapshotted);
    assert_eq!(back.snapshot_time, snapshot.snapshot_time);
    assert!(back.send_time.is_none());
}

#[test]
fn snapshot_record_with_send_time() {
    let disk = DiskSnapshot {
        state: "sent".to_string(),
        snapshot_time: "2001-02-03 04:05:06".to_string(),
        send_time: Some("2001-02-04 00:00:00".to_string()),
    };
    let snapshot = Global::read_snapshot(&disk);
    assert_eq!(snapshot.state, SnapshotState::Sent);
    let round = Global::write_snapshot(&snapshot);
    assert_eq!(round.snapshot_time, "2001-02-03 04:05:06");
    assert_eq!(round.send_time.as_deref(), Some("2001-02-04 00:00:00"));
}

#[test]
fn io_result_passes_values_and_reports_errors() {
    let ok: Result<u32, std::io::Error> = Ok(7);
    assert_eq!(rzbackup::errors::io_result(ok), Ok(7));
    let err: Result<u32, std::io::Error> =
        Err(std::io::Error::new(std::io::ErrorKind::NotFound, "nothing here"));
    let message = rzbackup::errors::io_result(err).unwrap_err();
    assert!(message.contains("nothing here"));
}
