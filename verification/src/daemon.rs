//! The rules of the daemon: how long it sleeps, what it does with a due run, how its liveness
//! is shown, how it answers requests, and when it may be started and stopped.

use crate::config;
use crate::config::EffectiveJob;
use crate::config_hash;
use crate::config_hash::job_config_hash;
use crate::config_mutation;
use crate::config_mutation::{request_to_mutation, Mutation};
use crate::executor;
use crate::executor::new_run_id;
use crate::ipc::{Request, Response};
use crate::json;
use crate::json::{field, object, to_pretty, Field, Json};
use crate::scheduler::contains_text;
use crate::state;
use crate::state::{daemon_is_live, daemon_is_stale, DaemonStatus, Stamp};
use crate::text;
use crate::text::{same, signed_decimal_text};
use vstd::prelude::*;
use vstd::string::*;

verus! {

/// The longest that the daemon sleeps, so that its heartbeat stays fresh, in milliseconds.
pub const HEARTBEAT_INTERVAL_MS: u64 = 30000;

/// How long runs under way are given to finish when the daemon stops, in milliseconds.
pub const SHUTDOWN_GRACE_MS: u64 = 10000;

// ------------------------------------------------------------------------------- sleep

/// How long to sleep until the next wake, in milliseconds: never longer than the heartbeat
/// interval, and not at all where the wake has passed.
pub open spec fn sleep_ms(next_wake: Option<Stamp>, now: Stamp) -> int {
    match next_wake {
        Some(wake) => {
            let ms = (wake.total() - now.total()) / 1000000;
            if ms <= 0 {
                0
            } else if ms < HEARTBEAT_INTERVAL_MS {
                ms
            } else {
                HEARTBEAT_INTERVAL_MS as int
            }
        },
        None => HEARTBEAT_INTERVAL_MS as int,
    }
}

/// How long to sleep until the next wake, in milliseconds.
pub fn sleep_until(next_wake: Option<Stamp>, now: Stamp) -> (r: u64)
    requires
        now.valid(),
        next_wake matches Some(wake) ==> wake.valid(),
    ensures
        r == sleep_ms(next_wake, now),
        r <= HEARTBEAT_INTERVAL_MS,
{
    match next_wake {
        None => HEARTBEAT_INTERVAL_MS,
        Some(wake) => {
            let secs: i64 = wake.secs - now.secs;
            if secs > 31 {
                return HEARTBEAT_INTERVAL_MS;
            }
            if secs < -1 {
                return 0;
            }
            let nanos: i64 = secs * 1000000000 + wake.nanos as i64 - now.nanos as i64;
            if nanos <= 0 {
                return 0;
            }
            let ms: u64 = (nanos / 1000000) as u64;
            if ms < HEARTBEAT_INTERVAL_MS {
                ms
            } else {
                HEARTBEAT_INTERVAL_MS
            }
        },
    }
}

/// The daemon wakes in time: by the end of the sleep the wake is less than a millisecond away,
/// unless the heartbeat comes first.
pub proof fn lemma_sleep_ends_in_time(wake: Stamp, now: Stamp)
    ensures
        sleep_ms(Some(wake), now) < HEARTBEAT_INTERVAL_MS ==> wake.total() < now.total() + (sleep_ms(
            Some(wake),
            now,
        ) + 1) * 1000000,
        wake.total() >= now.total() ==> now.total() + sleep_ms(Some(wake), now) * 1000000
            <= wake.total(),
{
}

// ----------------------------------------------------------------------------- dispatch

/// The row by which an occurrence is claimed for a run.
#[derive(Debug)]
pub struct Claim {
    pub run_id: String,
    pub job_id: String,
    pub config_hash: String,
    pub trigger: &'static str,
    pub occurrence_key: String,
}

/// What came of an attempt to claim an occurrence.
#[derive(Debug, Clone, Copy, PartialEq, Eq, Structural)]
pub enum ClaimOutcome {
    /// It is claimed now.
    Claimed,
    /// It was claimed before.
    Duplicate,
    /// The claim could not be recorded.
    Failed,
}

/// What to do with a due run.
#[derive(Debug, Clone, Copy, PartialEq, Eq, Structural)]
pub enum DispatchAction {
    /// Nothing.
    Skip,
    /// Record the run as skipped: the job's previous run is still under way.
    SkipOverlap,
    /// Start the run.
    Start,
}

impl DispatchAction {
    /// The status that the claimed run is recorded with right away, where it does not start.
    pub open spec fn recorded(self) -> Option<Seq<char>> {
        match self {
            DispatchAction::SkipOverlap => Some("skipped_overlap"@),
            _ => None,
        }
    }

    /// The status that the claimed run is recorded with right away, where it does not start.
    pub fn recorded_status(self) -> (r: Option<&'static str>)
        ensures
            config::opt_str_view(r) == self.recorded(),
    {
        match self {
            DispatchAction::SkipOverlap => Some(overlap_status()),
            _ => None,
        }
    }
}

/// The status of a run that was skipped because the job's previous run was under way.
pub fn overlap_status() -> (r: &'static str)
    ensures
        r@ == "skipped_overlap"@,
{
    "skipped_overlap"
}

/// The claim for an occurrence of a job that is due; a job without an id is never run.
pub fn dispatch_due(job: &EffectiveJob, occurrence_key: &str, now: Stamp) -> (r: Option<Claim>)
    requires
        now.valid(),
    ensures
        (match r {
            Some(c) => {
                &&& job@.id == Some(c.job_id@)
                &&& c.run_id@ == executor::run_id_text(c.job_id@, now)
                &&& c.config_hash@ == config_hash::config_hash(job@)
                &&& c.trigger@ == "scheduled"@
                &&& c.occurrence_key@ == occurrence_key@
            },
            None => job@.id is None,
        }),
{
    match &job.id {
        None => None,
        Some(id) => Some(
            Claim {
                run_id: new_run_id(id.as_str(), now),
                job_id: id.clone(),
                config_hash: job_config_hash(job),
                trigger: "scheduled",
                occurrence_key: occurrence_key.to_owned(),
            },
        ),
    }
}

/// What to do with a due run, given its claim and the jobs that are under way: it starts only
/// where the occurrence is newly claimed and no run of the job is under way.
pub fn dispatch_claimed(claim: &Claim, outcome: ClaimOutcome, active: &Vec<String>) -> (r:
    DispatchAction)
    ensures
        r == (match outcome {
            ClaimOutcome::Claimed => if text::views(active@).contains(claim.job_id@) {
                DispatchAction::SkipOverlap
            } else {
                DispatchAction::Start
            },
            _ => DispatchAction::Skip,
        }),
        r.recorded() == (if outcome == ClaimOutcome::Claimed && text::views(active@).contains(
            claim.job_id@,
        ) {
            Some("skipped_overlap"@)
        } else {
            None
        }),
{
    match outcome {
        ClaimOutcome::Claimed => if contains_text(active, claim.job_id.as_str()) {
            DispatchAction::SkipOverlap
        } else {
            DispatchAction::Start
        },
        _ => DispatchAction::Skip,
    }
}

/// What woke the daemon from its sleep.
#[derive(Debug, Clone, Copy, PartialEq, Eq, Structural)]
pub enum LoopEvent {
    /// A reload of the configuration was asked for.
    Reload,
    /// The daemon is to look whether it should stop.
    Wake,
    /// The sleep is over.
    Timeout,
    /// Nobody is left who could wake it.
    Disconnected,
}

/// How the daemon goes on after its sleep.
#[derive(Debug, Clone, Copy, PartialEq, Eq, Structural)]
pub enum LoopAction {
    /// Reload the configuration first, keeping the schedule where that fails.
    Reload,
    /// Take the next turn.
    Turn,
    /// Stop.
    Leave,
}

/// How the daemon goes on after its sleep: `stopping` says whether it was told to stop.
pub fn scheduler_loop(event: LoopEvent, stopping: bool) -> (r: LoopAction)
    ensures
        r == (match event {
            LoopEvent::Reload => LoopAction::Reload,
            LoopEvent::Disconnected => LoopAction::Leave,
            _ => if stopping {
                LoopAction::Leave
            } else {
                LoopAction::Turn
            },
        }),
{
    match event {
        LoopEvent::Reload => LoopAction::Reload,
        LoopEvent::Disconnected => LoopAction::Leave,
        _ => if stopping {
            LoopAction::Leave
        } else {
            LoopAction::Turn
        },
    }
}

/// What to do about runs under way while the daemon stops.
#[derive(Debug, Clone, Copy, PartialEq, Eq, Structural)]
pub enum DrainAction {
    /// Wait a little longer.
    Wait,
    /// Cancel those that have not finished, and wait for all.
    Finish,
}

/// Whether all runs have finished.
pub open spec fn all_finished(finished: Seq<bool>) -> bool {
    forall|i: int| 0 <= i < finished.len() ==> #[trigger] finished[i]
}

/// While the daemon stops, runs are waited for until all have finished or the grace period is
/// over.
pub fn drain_runs(finished: &Vec<bool>, grace_over: bool) -> (r: DrainAction)
    ensures
        r == (if grace_over || all_finished(finished@) {
            DrainAction::Finish
        } else {
            DrainAction::Wait
        }),
{
    if grace_over {
        return DrainAction::Finish;
    }
    let mut i: usize = 0;
    while i < finished.len()
        invariant
            !grace_over,
            i <= finished.len(),
            forall|k: int| 0 <= k < i ==> #[trigger] finished@[k],
        decreases finished.len() - i,
    {
        if !finished[i] {
            assert(!finished@[i as int]);
            return DrainAction::Wait;
        }
        i += 1;
    }
    DrainAction::Finish
}

// ------------------------------------------------------------------------------- status

/// What is shown of the daemon's liveness.
#[derive(Debug)]
pub struct DaemonView {
    pub state: String,
    pub pid: Option<i32>,
    pub running: bool,
}

/// What is shown of a daemon: its state, its process, and whether it is running.
pub open spec fn shown_status(status: Option<DaemonStatus>, now: Stamp) -> (
    Seq<char>,
    Option<i32>,
    bool,
) {
    match status {
        None => ("not running"@, None, false),
        Some(s) => if s.state@ == "running"@ {
            if state::is_stale(s.heartbeat, now) {
                ("not responding"@, Some(s.pid), false)
            } else {
                ("running"@, Some(s.pid), true)
            }
        } else {
            (s.state@, Some(s.pid), false)
        },
    }
}

/// A daemon is shown as running exactly where it is live.
pub proof fn lemma_shown_running_is_live(status: DaemonStatus, now: Stamp)
    ensures
        shown_status(Some(status), now).2 <==> state::is_live(status, now),
        !shown_status(None, now).2,
{
}

pub open spec fn deref_status(o: Option<&DaemonStatus>) -> Option<DaemonStatus> {
    match o {
        Some(s) => Some(*s),
        None => None,
    }
}

impl DaemonView {
    pub fn from_status(status: Option<&DaemonStatus>, now: Stamp) -> (r: DaemonView)
        requires
            now.valid(),
            status matches Some(s) ==> s.heartbeat.valid(),
        ensures
            (r.state@, r.pid, r.running) == shown_status(deref_status(status), now),
    {
        match status {
            None => DaemonView { state: "not running".to_owned(), pid: None, running: false },
            Some(s) => {
                if same(s.state.as_str(), "running") {
                    if daemon_is_stale(s, now) {
                        DaemonView {
                            state: "not responding".to_owned(),
                            pid: Some(s.pid),
                            running: false,
                        }
                    } else {
                        DaemonView {
                            state: "running".to_owned(),
                            pid: Some(s.pid),
                            running: true,
                        }
                    }
                } else {
                    DaemonView { state: s.state.clone(), pid: Some(s.pid), running: false }
                }
            },
        }
    }

    pub fn render_human(&self) -> (r: String)
        ensures
            r@ == "daemon: "@ + self.state@ + (match self.pid {
                Some(pid) => " (pid "@ + text::signed_decimal(pid as int) + ")\n"@,
                None => "\n"@,
            }),
    {
        let mut r = "daemon: ".to_owned();
        r.append(self.state.as_str());
        let ghost head = r@;
        match self.pid {
            Some(pid) => {
                r.append(" (pid ");
                r.append(signed_decimal_text(pid as i64).as_str());
                r.append(")\n");
                assert(r@ =~= head + (" (pid "@ + text::signed_decimal(pid as int) + ")\n"@));
            },
            None => {
                r.append("\n");
            },
        }
        r
    }

    pub open spec fn inner_shape(&self) -> json::JsonView {
        json::JsonView::Object(
            seq![
                ("state"@, json::JsonView::Text(self.state@)),
                (
                    "pid"@,
                    match self.pid {
                        Some(pid) => json::JsonView::Int(pid as i64),
                        None => json::JsonView::Null,
                    },
                ),
                ("running"@, json::JsonView::Bool(self.running)),
            ],
        )
    }

    /// The JSON shape of the daemon's liveness.
    pub open spec fn shape(&self) -> json::JsonView {
        json::JsonView::Object(seq![("daemon"@, self.inner_shape())])
    }

    pub fn value(&self) -> (r: Json)
        ensures
            r@ == self.shape(),
    {
        let pid = match self.pid {
            Some(pid) => Json::Int(pid as i64),
            None => Json::Null,
        };
        let ghost pid_view = pid@;
        assert(pid_view == match self.pid {
            Some(pid) => json::JsonView::Int(pid as i64),
            None => json::JsonView::Null,
        });
        let mut inner: Vec<Field> = Vec::new();
        inner.push(field("state", json::text(self.state.as_str())));
        inner.push(field("pid", pid));
        inner.push(field("running", Json::Bool(self.running)));
        assert(json::field_views(inner@) =~= self.inner_shape()->Object_0);
        let daemon = object(inner);
        let ghost daemon_view = daemon@;
        let mut fields: Vec<Field> = Vec::new();
        fields.push(field("daemon", daemon));
        assert(json::field_views(fields@) =~= seq![("daemon"@, daemon_view)]);
        let r = object(fields);
        assert(r@ == json::JsonView::Object(seq![("daemon"@, daemon_view)]));
        assert(self.inner_shape() == daemon_view);
        r
    }

    pub fn render_json(&self) -> (r: String)
        ensures
            r@ == json::pretty_text(json::value_of(self.shape())) + "\n"@,
    {
        let mut r = to_pretty(&self.value());
        r.append("\n");
        r
    }
}

// -------------------------------------------------------------------- start, stop, requests

/// Whether the daemon may be started: the message says why not.
pub fn start_refusal(status: Option<&DaemonStatus>, now: Stamp) -> (r: Option<String>)
    requires
        now.valid(),
        status matches Some(s) ==> s.heartbeat.valid(),
    ensures
        (match status {
            Some(s) => if state::is_live(*s, now) {
                text::opt_view(r) == Some(
                    "error: daemon already running (pid "@ + text::signed_decimal(s.pid as int)
                        + ")\n"@,
                )
            } else {
                r is None
            },
            None => r is None,
        }),
{
    match status {
        Some(s) => {
            if daemon_is_live(s, now) {
                let mut m = "error: daemon already running (pid ".to_owned();
                m.append(signed_decimal_text(s.pid as i64).as_str());
                m.append(")\n");
                Some(m)
            } else {
                None
            }
        },
        None => None,
    }
}

/// Which process to signal to stop the daemon: none where it is not running.
pub fn stop_target(status: Option<&DaemonStatus>, now: Stamp) -> (r: Option<i32>)
    requires
        now.valid(),
        status matches Some(s) ==> s.heartbeat.valid(),
    ensures
        r == (match status {
            Some(s) => if state::is_live(*s, now) {
                Some(s.pid)
            } else {
                None
            },
            None => None,
        }),
{
    match status {
        Some(s) => if daemon_is_live(s, now) {
            Some(s.pid)
        } else {
            None
        },
        None => None,
    }
}

/// What came of signalling a process.
#[derive(Debug)]
pub enum SignalOutcome {
    Delivered,
    /// There is no such process.
    NoProcess,
    /// It could not be signalled: the message says why.
    Failed(String),
}

/// What `daemon stop` prints, and its exit code. The flag says whether the text is an error.
#[derive(Debug)]
pub struct StopReport {
    pub text: String,
    pub is_error: bool,
    pub code: u8,
}

/// What `daemon stop` reports: a daemon that is not running, or gone, is no error.
pub fn stop(target: Option<i32>, force: bool, outcome: &SignalOutcome) -> (r: StopReport)
    ensures
        (match target {
            None => r.text@ == "daemon not running\n"@ && !r.is_error && r.code == 0,
            Some(pid) => match *outcome {
                SignalOutcome::Delivered => r.text@ == "daemon "@ + (if force {
                    "killed"@
                } else {
                    "signalled to stop"@
                }) + " (pid "@ + text::signed_decimal(pid as int) + ")\n"@ && !r.is_error && r.code
                    == 0,
                SignalOutcome::NoProcess => r.text@ == "daemon not running\n"@ && !r.is_error
                    && r.code == 0,
                SignalOutcome::Failed(e) => r.text@ == "error: failed to signal daemon (pid "@
                    + text::signed_decimal(pid as int) + "): "@ + e@ + "\n"@ && r.is_error && r.code
                    == 1,
            },
        }),
{
    let pid = match target {
        Some(pid) => pid,
        None => {
            return StopReport {
                text: "daemon not running\n".to_owned(),
                is_error: false,
                code: 0,
            };
        },
    };
    let shown = signed_decimal_text(pid as i64);
    match outcome {
        SignalOutcome::Delivered => {
            let mut text = "daemon ".to_owned();
            text.append(
                if force {
                    "killed"
                } else {
                    "signalled to stop"
                },
            );
            text.append(" (pid ");
            text.append(shown.as_str());
            text.append(")\n");
            StopReport { text, is_error: false, code: 0 }
        },
        SignalOutcome::NoProcess => StopReport {
            text: "daemon not running\n".to_owned(),
            is_error: false,
            code: 0,
        },
        SignalOutcome::Failed(e) => {
            let mut text = "error: failed to signal daemon (pid ".to_owned();
            text.append(shown.as_str());
            text.append("): ");
            text.append(e.as_str());
            text.append("\n");
            StopReport { text, is_error: true, code: 1 }
        },
    }
}

/// How the daemon deals with a request.
#[derive(Debug)]
pub enum IpcAnswer {
    /// Answer so.
    Reply(Response),
    /// Queue a reload, and answer as [`reload_reply`] says.
    QueueReload { id: String },
    /// Make the change, queue a reload, and answer with what came of it.
    Change { id: String, mutation: Mutation },
}

/// The JSON shape of the status that the daemon answers with.
pub open spec fn status_json(pid: i32) -> json::JsonView {
    json::JsonView::Object(
        seq![
            ("state"@, json::JsonView::Text("running"@)),
            ("pid"@, json::JsonView::Int(pid as i64)),
        ],
    )
}

/// How the daemon with process `pid` deals with a request.
pub fn ipc_handler(req: Request, pid: i32) -> (r: IpcAnswer)
    ensures
        (if req.method@ == "daemon.status"@ {
            r matches IpcAnswer::Reply(Response::Success { id, result }) && id@ == req.id@ && result@
                == status_json(pid)
        } else if req.method@ == "daemon.reload"@ {
            r matches IpcAnswer::QueueReload { id } && id@ == req.id@
        } else if config_mutation::asked_for(req.method@, req.params@) is Some {
            r matches IpcAnswer::Change { id, mutation } && id@ == req.id@ && Some(mutation@)
                == config_mutation::asked_for(req.method@, req.params@)
        } else {
            r matches IpcAnswer::Reply(Response::Failure { id, error }) && id@ == req.id@
                && error.code@ == "unknown_method"@ && error.message@ == "unknown method: "@
                + req.method@
        }),
{
    if same(req.method.as_str(), "daemon.status") {
        let mut fields: Vec<Field> = Vec::new();
        fields.push(field("state", json::text("running")));
        fields.push(field("pid", Json::Int(pid as i64)));
        assert(json::field_views(fields@) =~= seq![
            ("state"@, json::JsonView::Text("running"@)),
            ("pid"@, json::JsonView::Int(pid as i64)),
        ]);
        IpcAnswer::Reply(Response::ok(req.id, object(fields)))
    } else if same(req.method.as_str(), "daemon.reload") {
        IpcAnswer::QueueReload { id: req.id }
    } else if let Some(mutation) = request_to_mutation(&req) {
        IpcAnswer::Change { id: req.id, mutation }
    } else {
        let mut message = "unknown method: ".to_owned();
        message.append(req.method.as_str());
        IpcAnswer::Reply(Response::err(req.id, "unknown_method".to_owned(), message))
    }
}

/// The answer to a reload request, given whether the reload could be queued.
pub fn reload_reply(id: String, queued: bool) -> (r: Response)
    ensures
        (if queued {
            r matches Response::Success { id: i, result } && i@ == id@ && result@
                == json::JsonView::Object(seq![("reloading"@, json::JsonView::Bool(true))])
        } else {
            r matches Response::Failure { id: i, error } && i@ == id@ && error.code@
                == "shutting_down"@ && error.message@ == "daemon is shutting down"@
        }),
{
    if queued {
        let mut fields: Vec<Field> = Vec::new();
        fields.push(field("reloading", Json::Bool(true)));
        assert(json::field_views(fields@) =~= seq![
            ("reloading"@, json::JsonView::Bool(true)),
        ]);
        Response::ok(id, object(fields))
    } else {
        Response::err(
            id,
            "shutting_down".to_owned(),
            "daemon is shutting down".to_owned(),
        )
    }
}

} // verus!
