//! The backup scheduler's state: what each job is doing, its snapshots,
//! and the conversion between the in-memory state and the plain textual
//! records its state file carries.

use vstd::prelude::*;
use vstd::string::StringSliceAdditionalSpecFns;

use crate::times::{
    spec_is_datetime, spec_parse_datetime, time_parse, time_parse_opt, Timespec,
};

verus! {

/// One job's configuration: its name and the scripts that sync, snapshot
/// and send it, each with its log path.
pub struct JobConfig {
    pub name: String,
    pub sync_script: Option<String>,
    pub sync_log: Option<String>,
    pub snapshot_script: Option<String>,
    pub snapshot_log: Option<String>,
    pub send_script: Option<String>,
    pub send_log: Option<String>,
}

/// The whole configuration: the state file, the lock file, and the jobs.
pub struct Config {
    pub state: String,
    pub lock: String,
    pub jobs: Vec<JobConfig>,
}

/// What a job is doing right now.
#[derive(Clone, Copy, Debug, PartialEq, Eq, Structural)]
pub enum JobState {
    Idle,
    Syncing,
    Snapshotting,
    Sending,
    Exporting,
}

/// How far one snapshot has come.
#[derive(Clone, Copy, Debug, PartialEq, Eq, Structural)]
pub enum SnapshotState {
    Snapshotting,
    Snapshotted,
    Sending,
    Sent,
}

/// One snapshot: its progress and when it was taken and sent.
pub struct Snapshot {
    pub state: SnapshotState,
    pub snapshot_time: Timespec,
    pub send_time: Option<Timespec>,
}

/// One job: its name, what it is doing, when it last ran each step, and its
/// snapshots.
pub struct Job {
    pub name: String,
    pub state: JobState,
    pub last_sync: Option<Timespec>,
    pub last_snapshot: Option<Timespec>,
    pub last_send: Option<Timespec>,
    pub snapshots: Vec<Snapshot>,
}

/// The whole in-memory state: every job.
pub struct Global {
    pub jobs: Vec<Job>,
}

impl JobState {
    /// The textual names the state file uses for each job state.
    pub open spec fn spec_names() -> Seq<Seq<u8>> {
        seq![
            "idle".spec_bytes(),
            "syncing".spec_bytes(),
            "snapshotting".spec_bytes(),
            "sending".spec_bytes(),
            "exporting".spec_bytes(),
        ]
    }

    /// The state a textual name denotes.
    pub open spec fn spec_of_name(s: Seq<u8>) -> JobState {
        if s == "idle".spec_bytes() {
            JobState::Idle
        } else if s == "syncing".spec_bytes() {
            JobState::Syncing
        } else if s == "snapshotting".spec_bytes() {
            JobState::Snapshotting
        } else if s == "sending".spec_bytes() {
            JobState::Sending
        } else {
            JobState::Exporting
        }
    }

    /// The state a state file's word denotes; only the five known words are
    /// accepted.
    pub fn from_string(text: &str) -> (r: JobState)
        requires
            Self::spec_names().contains(text.spec_bytes()),
        ensures
            r == Self::spec_of_name(text.spec_bytes()),
    {
        let b = text.as_bytes();
        if crate::bytemap::bytes_eq(b, "idle".as_bytes()) {
            JobState::Idle
        } else if crate::bytemap::bytes_eq(b, "syncing".as_bytes()) {
            JobState::Syncing
        } else if crate::bytemap::bytes_eq(b, "snapshotting".as_bytes()) {
            JobState::Snapshotting
        } else if crate::bytemap::bytes_eq(b, "sending".as_bytes()) {
            JobState::Sending
        } else {
            proof {
                assert(Self::spec_names()[4] == "exporting".spec_bytes());
            }
            JobState::Exporting
        }
    }

    /// The state file's word for this state.
    pub fn to_string(&self) -> (r: String)
        ensures
            vstd::utf8::encode_utf8(r@) == match self {
                JobState::Idle => "idle".spec_bytes(),
                JobState::Syncing => "syncing".spec_bytes(),
                JobState::Snapshotting => "snapshotting".spec_bytes(),
                JobState::Sending => "sending".spec_bytes(),
                JobState::Exporting => "exporting".spec_bytes(),
            },
    {
        match self {
            JobState::Idle => <String as vstd::string::StringExecFns>::from_str("idle"),
            JobState::Syncing => <String as vstd::string::StringExecFns>::from_str("syncing"),
            JobState::Snapshotting => <String as vstd::string::StringExecFns>::from_str(
                "snapshotting",
            ),
            JobState::Sending => <String as vstd::string::StringExecFns>::from_str("sending"),
            JobState::Exporting => <String as vstd::string::StringExecFns>::from_str("exporting"),
        }
    }
}

impl SnapshotState {
    /// The textual names the state file uses for each snapshot state.
    pub open spec fn spec_names() -> Seq<Seq<u8>> {
        seq![
            "snapshotting".spec_bytes(),
            "snapshotted".spec_bytes(),
            "sending".spec_bytes(),
            "sent".spec_bytes(),
        ]
    }

    /// The state a textual name denotes.
    pub open spec fn spec_of_name(s: Seq<u8>) -> SnapshotState {
        if s == "snapshotting".spec_bytes() {
            SnapshotState::Snapshotting
        } else if s == "snapshotted".spec_bytes() {
            SnapshotState::Snapshotted
        } else if s == "sending".spec_bytes() {
            SnapshotState::Sending
        } else {
            SnapshotState::Sent
        }
    }

    /// The state a state file's word denotes; only the four known words are
    /// accepted.
    pub fn from_string(text: &str) -> (r: SnapshotState)
        requires
            Self::spec_names().contains(text.spec_bytes()),
        ensures
            r == Self::spec_of_name(text.spec_bytes()),
    {
        let b = text.as_bytes();
        if crate::bytemap::bytes_eq(b, "snapshotting".as_bytes()) {
            SnapshotState::Snapshotting
        } else if crate::bytemap::bytes_eq(b, "snapshotted".as_bytes()) {
            SnapshotState::Snapshotted
        } else if crate::bytemap::bytes_eq(b, "sending".as_bytes()) {
            SnapshotState::Sending
        } else {
            proof {
                assert(Self::spec_names()[3] == "sent".spec_bytes());
            }
            SnapshotState::Sent
        }
    }

    /// The state file's word for this state.
    pub fn to_string(&self) -> (r: String)
        ensures
            vstd::utf8::encode_utf8(r@) == match self {
                SnapshotState::Snapshotting => "snapshotting".spec_bytes(),
                SnapshotState::Snapshotted => "snapshotted".spec_bytes(),
                SnapshotState::Sending => "sending".spec_bytes(),
                SnapshotState::Sent => "sent".spec_bytes(),
            },
    {
        match self {
            SnapshotState::Snapshotting => <String as vstd::string::StringExecFns>::from_str(
                "snapshotting",
            ),
            SnapshotState::Snapshotted => <String as vstd::string::StringExecFns>::from_str(
                "snapshotted",
            ),
            SnapshotState::Sending => <String as vstd::string::StringExecFns>::from_str("sending"),
            SnapshotState::Sent => <String as vstd::string::StringExecFns>::from_str("sent"),
        }
    }
}

/// One snapshot as the state file records it: each time as text.
pub struct DiskSnapshot {
    pub state: String,
    pub snapshot_time: String,
    pub send_time: Option<String>,
}

/// One job as the state file records it.
pub struct DiskJob {
    pub name: String,
    pub state: String,
    pub last_sync: Option<String>,
    pub last_snapshot: Option<String>,
    pub last_send: Option<String>,
    pub snapshots: Option<Vec<DiskSnapshot>>,
}

/// The whole state file.
pub struct DiskState {
    pub jobs: Vec<DiskJob>,
}

impl Global {
    /// A fresh state for a configuration: every job idle with no history.
    pub fn new_state(config: &Config) -> (r: Global)
        ensures
            r.jobs@.len() == config.jobs@.len(),
            forall|i: int|
                0 <= i < r.jobs@.len() ==> (#[trigger] r.jobs@[i]).name@ == config.jobs@[i].name@
                    && r.jobs@[i].state == JobState::Idle && r.jobs@[i].last_sync is None
                    && r.jobs@[i].last_snapshot is None && r.jobs@[i].last_send is None
                    && r.jobs@[i].snapshots@.len() == 0,
    {
        let mut jobs: Vec<Job> = Vec::new();
        let n = config.jobs.len();
        let mut i: usize = 0;
        while i < n
            invariant
                i <= n,
                n == config.jobs@.len(),
                jobs@.len() == i,
                forall|j: int|
                    0 <= j < i ==> (#[trigger] jobs@[j]).name@ == config.jobs@[j].name@
                        && jobs@[j].state == JobState::Idle && jobs@[j].last_sync is None
                        && jobs@[j].last_snapshot is None && jobs@[j].last_send is None
                        && jobs@[j].snapshots@.len() == 0,
            decreases n - i,
        {
            let name = clone_string(&config.jobs[i].name);
            jobs.push(
                Job {
                    name,
                    state: JobState::Idle,
                    last_sync: None,
                    last_snapshot: None,
                    last_send: None,
                    snapshots: Vec::new(),
                },
            );
            i = i + 1;
        }
        Global { jobs }
    }

    /// One recorded snapshot read back into memory.
    pub fn read_snapshot(disk_snapshot: &DiskSnapshot) -> (r: Snapshot)
        requires
            SnapshotState::spec_names().contains(vstd::utf8::encode_utf8(disk_snapshot.state@)),
            spec_is_datetime(vstd::utf8::encode_utf8(disk_snapshot.snapshot_time@)),
            match disk_snapshot.send_time {
                Some(t) => spec_is_datetime(vstd::utf8::encode_utf8(t@)),
                None => true,
            },
        ensures
            r.state == SnapshotState::spec_of_name(vstd::utf8::encode_utf8(disk_snapshot.state@)),
            r.snapshot_time.sec == spec_parse_datetime(
                vstd::utf8::encode_utf8(disk_snapshot.snapshot_time@),
            ),
            match (disk_snapshot.send_time, r.send_time) {
                (Some(t), Some(v)) => v.sec == spec_parse_datetime(vstd::utf8::encode_utf8(t@)),
                (None, None) => true,
                _ => false,
            },
    {
        Snapshot {
            state: SnapshotState::from_string(disk_snapshot.state.as_str()),
            snapshot_time: time_parse(disk_snapshot.snapshot_time.as_str()),
            send_time: time_parse_opt(&disk_snapshot.send_time),
        }
    }

    /// One snapshot written out as the state file records it.
    pub fn write_snapshot(snapshot: &Snapshot) -> (r: DiskSnapshot)
        requires
            crate::times::MIN_FORMAT_SEC <= snapshot.snapshot_time.sec
                < crate::times::MAX_FORMAT_SEC,
            match snapshot.send_time {
                Some(t) => crate::times::MIN_FORMAT_SEC <= t.sec < crate::times::MAX_FORMAT_SEC,
                None => true,
            },
        ensures
            vstd::utf8::encode_utf8(r.state@) == match snapshot.state {
                SnapshotState::Snapshotting => "snapshotting".spec_bytes(),
                SnapshotState::Snapshotted => "snapshotted".spec_bytes(),
                SnapshotState::Sending => "sending".spec_bytes(),
                SnapshotState::Sent => "sent".spec_bytes(),
            },
            snapshot.send_time is Some <==> r.send_time is Some,
    {
        DiskSnapshot {
            state: snapshot.state.to_string(),
            snapshot_time: crate::times::time_format_pretty(snapshot.snapshot_time),
            send_time: crate::times::time_format_pretty_opt(snapshot.send_time),
        }
    }
}

/// An owned copy of a string.
pub fn clone_string(s: &String) -> (r: String)
    ensures
        r@ == s@,
{
    <String as vstd::string::StringExecFns>::from_str(s.as_str())
}

} // verus!
