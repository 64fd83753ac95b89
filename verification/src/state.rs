//! Observed runtime state: the rows that are shown, the liveness of the daemon, and the schema
//! versions of the database.

use crate::config;
use crate::paths;
use crate::paths::path_join;
use crate::text;
use crate::text::same;
use crate::zone;
use vstd::prelude::*;
use vstd::string::*;

verus! {

/// The projection of a job that `jobs list` and `jobs status` show.
#[derive(Debug)]
pub struct JobStateRow {
    pub job_id: String,
    pub state: String,
    pub schedule_kind: String,
    pub next_run_at: Option<String>,
    pub config_hash: String,
    pub updated_at: String,
}

/// A [`JobStateRow`] with its texts taken as characters.
pub struct JobRowView {
    pub job_id: Seq<char>,
    pub state: Seq<char>,
    pub schedule_kind: Seq<char>,
    pub next_run_at: Option<Seq<char>>,
    pub config_hash: Seq<char>,
    pub updated_at: Seq<char>,
}

impl View for JobStateRow {
    type V = JobRowView;

    open spec fn view(&self) -> JobRowView {
        JobRowView {
            job_id: self.job_id@,
            state: self.state@,
            schedule_kind: self.schedule_kind@,
            next_run_at: text::opt_view(self.next_run_at),
            config_hash: self.config_hash@,
            updated_at: self.updated_at@,
        }
    }
}

pub open spec fn row_views(v: Seq<JobStateRow>) -> Seq<JobRowView> {
    v.map_values(|j: JobStateRow| j@)
}

/// The health of the state database: its schema version, where it exists, and the one that
/// this build expects.
#[derive(Debug)]
pub struct DbHealth {
    pub path: String,
    pub schema_version: Option<i64>,
    pub expected_version: i64,
}

/// An instant in UTC: seconds since 1970-01-01T00:00:00 and the fraction of the second.
#[derive(Debug, Clone, Copy, PartialEq, Eq, Structural)]
pub struct Stamp {
    pub secs: i64,
    pub nanos: u32,
}

impl Stamp {
    /// An instant that a date can be given for, and a fraction of less than a second.
    pub open spec fn valid(self) -> bool {
        zone::representable(self.secs as int) && self.nanos < 1000000000
    }

    /// The instant in nanoseconds.
    pub open spec fn total(self) -> int {
        self.secs * 1000000000 + self.nanos
    }

    /// The instant in whole microseconds.
    pub open spec fn in_micros(self) -> int {
        self.secs * 1000000 + (self.nanos as int) / 1000
    }

    /// The instant in whole microseconds.
    pub fn micros(self) -> (r: i64)
        requires
            self.valid(),
        ensures
            r == self.in_micros(),
    {
        self.secs * 1000000 + (self.nanos / 1000) as i64
    }
}

/// The recorded liveness of the daemon.
#[derive(Debug)]
pub struct DaemonStatus {
    pub pid: i32,
    pub state: String,
    pub heartbeat: Stamp,
}

/// A daemon is taken for crashed when its last heartbeat is longer ago than this, in seconds.
pub const DAEMON_STALE_AFTER_SECS: i64 = 90;

/// Whether the last heartbeat is longer ago than the limit.
pub open spec fn is_stale(heartbeat: Stamp, now: Stamp) -> bool {
    now.total() - heartbeat.total() > DAEMON_STALE_AFTER_SECS * 1000000000
}

/// Whether a daemon is running: it says so, and its heartbeat is recent.
pub open spec fn is_live(status: DaemonStatus, now: Stamp) -> bool {
    status.state@ == "running"@ && !is_stale(status.heartbeat, now)
}

/// Whether a daemon's last heartbeat is too long ago.
pub fn daemon_is_stale(status: &DaemonStatus, now: Stamp) -> (r: bool)
    requires
        status.heartbeat.valid(),
        now.valid(),
    ensures
        r == is_stale(status.heartbeat, now),
{
    let limit: i64 = DAEMON_STALE_AFTER_SECS;
    let gap: i64 = now.secs - status.heartbeat.secs;
    gap > limit || (gap == limit && now.nanos > status.heartbeat.nanos)
}

/// Whether a daemon is running.
pub fn daemon_is_live(status: &DaemonStatus, now: Stamp) -> (r: bool)
    requires
        status.heartbeat.valid(),
        now.valid(),
    ensures
        r == is_live(*status, now),
{
    same(status.state.as_str(), "running") && !daemon_is_stale(status, now)
}

/// The database's path under the home directory; without a home, relative to the current one.
pub fn default_db_path(home: Option<&str>) -> (r: String)
    ensures
        r@ == paths::joined_path(
            paths::home_or_empty(config::opt_str_view(home)),
            ".local/state/periodic/periodic.db"@,
        ),
{
    path_join(paths::home_or(home), ".local/state/periodic/periodic.db")
}

/// Whether a database at version `current` has yet to be brought to version `v` of `count`.
pub open spec fn is_pending(v: int, current: int, count: int) -> bool {
    1 <= v <= count && current < v
}

/// The versions that a database has yet to be brought through, in order.
pub fn pending_migrations(current: i64, count: usize) -> (r: Vec<usize>)
    ensures
        forall|i: int, j: int| 0 <= i < j < r@.len() ==> r@[i] < r@[j],
        forall|v: usize| #[trigger]
            r@.contains(v) <==> is_pending(v as int, current as int, count as int),
{
    let mut r: Vec<usize> = Vec::new();
    let mut done: usize = 0;
    while done < count
        invariant
            done <= count,
            forall|i: int, j: int| 0 <= i < j < r@.len() ==> r@[i] < r@[j],
            forall|i: int| 0 <= i < r@.len() ==> 1 <= r@[i] <= done && current < r@[i],
            forall|v: usize| 1 <= v <= done && current < v ==> #[trigger] r@.contains(v),
        decreases count - done,
    {
        let version: usize = done + 1;
        let ghost before = r@;
        if current < 0 || (current as u64) < version as u64 {
            r.push(version);
            assert(r@[r@.len() - 1] == version);
            assert forall|v: usize| 1 <= v <= version && current < v implies #[trigger] r@.contains(
                v,
            ) by {
                if v < version {
                    assert(before.contains(v));
                    let k = before.index_of(v);
                    assert(r@[k] == v);
                }
            }
        }
        done = version;
    }
    r
}

/// A database at the latest version, or a later one, has nothing left to be brought through.
pub proof fn lemma_migrated_database_is_left_alone(current: int, count: int)
    requires
        current >= count,
    ensures
        forall|v: int| !#[trigger] is_pending(v, current, count),
{
}

} // verus!
