//! What holds of every turn of the daemon: when it wakes, which due runs it starts, when it is
//! taken for dead, and how requests are answered.

use crate::config;
use crate::config::EffectiveJob;
use crate::config_edit;
use crate::config_mutation;
use crate::config_mutation::{Mutation, Outcome};
use crate::daemon;
use crate::daemon::{
    Claim, ClaimOutcome, DaemonView, DispatchAction, DrainAction, IpcAnswer, LoopAction, LoopEvent,
    SignalOutcome, StopReport,
};
use crate::events;
use crate::events::{EventKind, EventRow};
use crate::firing;
use crate::ipc;
use crate::ipc::{Request, Response};
use crate::json;
use crate::missed;
use crate::occurrence::Occurrence;
use crate::schedule_table;
use crate::schedule_table::{Armed, DueRun, ScheduleTable};
use crate::scheduler;
use crate::state;
use crate::state::{DaemonStatus, JobStateRow, Stamp};
use crate::text;
use crate::zone;
use vstd::prelude::*;

verus! {

// ----------------------------------------------------------------------------- the sleep

/// The daemon sleeps for as many whole milliseconds as are left before the next firing, but for
/// half a minute at most, and not at all once that is due; without a firing it sleeps half a
/// minute.
pub proof fn lemma_sleep_is_measured(next_wake: Option<Stamp>, now: Stamp, r: u64)
    requires
        call_ensures(daemon::sleep_until, (next_wake, now), r),
    ensures
        r <= 30000,
        next_wake is None ==> r == 30000,
        next_wake matches Some(wake) ==> {
            let left = (wake.secs * 1000000000 + wake.nanos) - (now.secs * 1000000000 + now.nanos);
            &&& left <= 0 ==> r == 0
            &&& left > 0 ==> r * 1000000 <= left
            &&& left > 0 && r < 30000 ==> left < (r + 1) * 1000000
        },
{
}

// --------------------------------------------------------------------------- the due runs

/// A due run starts exactly where its occurrence is newly claimed and no run of the job is under
/// way; where one is, it is recorded as skipped for that; and an occurrence that was claimed
/// before, or could not be claimed, is passed over without a word.
pub proof fn lemma_one_run_at_a_time(
    claim: &Claim,
    outcome: ClaimOutcome,
    active: &Vec<String>,
    r: DispatchAction,
    recorded: Option<&'static str>,
)
    requires
        call_ensures(daemon::dispatch_claimed, (claim, outcome, active), r),
        call_ensures(DispatchAction::recorded_status, (r,), recorded),
    ensures
        ({
            let busy = exists|i: int|
                0 <= i < active@.len() && (#[trigger] active@[i])@ == claim.job_id@;
            &&& (r == DispatchAction::Start) <==> outcome == ClaimOutcome::Claimed && !busy
            &&& (r == DispatchAction::SkipOverlap) <==> outcome == ClaimOutcome::Claimed && busy
            &&& (r == DispatchAction::Skip) <==> outcome != ClaimOutcome::Claimed
            &&& (recorded is Some) <==> outcome == ClaimOutcome::Claimed && busy
            &&& recorded matches Some(word) ==> word@ == "skipped_overlap"@
        }),
{
    let names = text::views(active@);
    if names.contains(claim.job_id@) {
        let i = choose|i: int| 0 <= i < names.len() && names[i] == claim.job_id@;
        assert(active@[i]@ == claim.job_id@);
    }
    if exists|i: int| 0 <= i < active@.len() && (#[trigger] active@[i])@ == claim.job_id@ {
        let i = choose|i: int|
            0 <= i < active@.len() && (#[trigger] active@[i])@ == claim.job_id@;
        assert(names[i] == claim.job_id@);
    }
}

/// A due run is claimed under the job's id, for the occurrence that is due, as a scheduled one; a
/// job without an id is never run.
pub proof fn lemma_due_run_is_claimed(
    job: &EffectiveJob,
    key: &str,
    now: Stamp,
    r: Option<Claim>,
)
    requires
        call_ensures(daemon::dispatch_due, (job, key, now), r),
    ensures
        r is Some <==> job.id is Some,
        r matches Some(c) ==> {
            &&& job.id matches Some(id) && c.job_id@ == id@
            &&& c.occurrence_key@ == key@
            &&& c.trigger@ == "scheduled"@
            &&& c.run_id@ == c.job_id@ + "-"@ + text::signed_decimal(
                (now.secs * 1000000000 + now.nanos) / 1000,
            )
        },
{
}

/// The runs that are due are those of all the entries whose instant has come, in their order.
pub proof fn lemma_due_runs_are_all(entries: Seq<Armed>, now: Stamp)
    ensures
        schedule_table::due_runs(entries, now) == entries.filter(
            |e: Armed|
                e.next.scheduled_for.secs * 1000000000 + e.next.scheduled_for.nanos <= now.secs
                    * 1000000000 + now.nanos,
        ).map_values(
            |e: Armed|
                (
                    e.job,
                    e.next.key@,
                    Stamp { secs: e.next.scheduled_for.secs, nanos: e.next.scheduled_for.nanos },
                ),
        ),
    decreases entries.len(),
{
    reveal(Seq::filter);
    let due = |e: Armed|
        e.next.scheduled_for.secs * 1000000000 + e.next.scheduled_for.nanos <= now.secs * 1000000000
            + now.nanos;
    let told = |e: Armed|
        (
            e.job,
            e.next.key@,
            Stamp { secs: e.next.scheduled_for.secs, nanos: e.next.scheduled_for.nanos },
        );
    if entries.len() == 0 {
        assert(entries.filter(due).map_values(told) =~= Seq::empty());
    } else {
        lemma_due_runs_are_all(entries.drop_last(), now);
        let head = entries.drop_last().filter(due);
        if due(entries.last()) {
            assert(entries.filter(due) == head.push(entries.last()));
            assert(head.push(entries.last()).map_values(told) =~= head.map_values(told).push(
                told(entries.last()),
            ));
        } else {
            assert(entries.filter(due) == head);
        }
    }
}

/// The table wakes the daemon at the earliest instant that it holds, and not at all where it is
/// empty.
pub proof fn lemma_wakes_for_the_earliest(table: &ScheduleTable, r: Option<Stamp>, i: int)
    requires
        call_ensures(ScheduleTable::next_wake, (table,), r),
    ensures
        r is None <==> table.entries@.len() == 0,
        r matches Some(t) ==> (0 <= i < table.entries@.len() ==> {
            let e = table.entries@[i].next.scheduled_for;
            t.secs < e.secs || (t.secs == e.secs && t.nanos <= e.nanos)
        }),
        r matches Some(t) ==> exists|k: int|
            0 <= k < table.entries@.len() && (#[trigger] table.entries@[k]).next.scheduled_for.secs
                == t.secs && table.entries@[k].next.scheduled_for.nanos == t.nanos,
{
}

/// A job that is enabled and has an id is armed with the next occurrence of its schedule, in its
/// own zone, else the machine's; any other job never is.
pub proof fn lemma_armed_with_next_occurrence(
    job: &EffectiveJob,
    machine: &Option<String>,
    after: Stamp,
    r: Option<Occurrence>,
    id: &str,
    zone: String,
    next: Option<Occurrence>,
    zone_text: &str,
)
    requires
        call_ensures(schedule_table::arm, (job, machine, after), r),
        after.nanos < 1000000000,
        job.id matches Some(own) ==> own@ == id@,
        zone_text@ == scheduler::zone_for(text::opt_view(job.timezone), text::opt_view(*machine)),
        zone::zone_known(zone_text@),
        call_ensures(
            firing::next_occurrence,
            (id, &job.schedule, zone_text, after.secs, after.nanos),
            next,
        ),
    ensures
        !job.enabled ==> r is None,
        job.id is None ==> r is None,
        job.enabled && job.id is Some ==> ((r is Some) <==> (next is Some)),
        r matches Some(o) ==> (next matches Some(n) && o.key@ == n.key@ && o.scheduled_for.secs
            == n.scheduled_for.secs && o.scheduled_for.nanos == n.scheduled_for.nanos),
{
    if let Some(o) = r {
        if let Some(n) = next {
            firing::lemma_next_firing_unique(
                job@.schedule,
                zone_text@,
                after.secs as int,
                after.nanos as int,
                (o.scheduled_for.secs, o.scheduled_for.nanos),
                (n.scheduled_for.secs, n.scheduled_for.nanos),
            );
        }
    }
}

/// A table holds an entry for each job that will fire and for no other, in the order of the
/// config, each with the next occurrence of its job.
pub proof fn lemma_table_holds_all_jobs(
    jobs: &Vec<EffectiveJob>,
    machine: &Option<String>,
    now: Stamp,
    r: ScheduleTable,
    j: int,
)
    requires
        call_ensures(ScheduleTable::build, (jobs, machine, now), r),
        0 <= j < jobs@.len(),
    ensures
        (exists|i: int| 0 <= i < r.entries@.len() && (#[trigger] r.entries@[i]).job == j)
            <==> schedule_table::will_fire(jobs@[j]@, text::opt_view(*machine), now),
        !jobs@[j].enabled ==> !schedule_table::will_fire(jobs@[j]@, text::opt_view(*machine), now),
        forall|i: int, k: int|
            0 <= i < k < r.entries@.len() ==> (#[trigger] r.entries@[i]).job < (
            #[trigger] r.entries@[k]).job,
        forall|i: int|
            0 <= i < r.entries@.len() ==> schedule_table::is_next(
                jobs@[(#[trigger] r.entries@[i]).job as int]@,
                text::opt_view(*machine),
                now,
                r.entries@[i].next,
            ),
{
    let m = text::opt_view(*machine);
    if schedule_table::will_fire(jobs@[j]@, m, now) {
        assert(schedule_table::has_entry(r.entries@, j));
    }
}

/// The row that is shown of a job tells whether it is enabled, the kind of its schedule, and its
/// next run where it has one; a job without an id has no row.
pub proof fn lemma_job_row_tells(
    job: &EffectiveJob,
    machine: &Option<String>,
    now: Stamp,
    r: Option<JobStateRow>,
)
    requires
        call_ensures(schedule_table::project, (job, machine, now), r),
    ensures
        r is Some <==> job.id is Some,
        r matches Some(row) ==> {
            &&& job.id matches Some(id) && row.job_id@ == id@
            &&& job.enabled ==> row.state@ == "active"@
            &&& !job.enabled ==> row.state@ == "disabled"@ && row.next_run_at is None
            &&& row.schedule_kind@ == (match job.schedule {
                config::NormalizedSchedule::MinuteAligned { .. } => "minute"@,
                config::NormalizedSchedule::HourAligned { .. } => "hour"@,
                config::NormalizedSchedule::Calendar { .. } => "calendar"@,
                config::NormalizedSchedule::Cron { .. } => "cron"@,
            })
            &&& row.updated_at@ == zone::rfc3339_text(now.secs as int, now.nanos as int, 0)
        },
{
}

// ------------------------------------------------------------------------------ the loop

/// A reload is carried out even while the daemon stops; it leaves where it is to stop, or nobody
/// is left to wake it; otherwise it takes a turn.
pub proof fn lemma_loop_steps(event: LoopEvent, stopping: bool, r: LoopAction)
    requires
        call_ensures(daemon::scheduler_loop, (event, stopping), r),
    ensures
        (r == LoopAction::Reload) <==> event == LoopEvent::Reload,
        (r == LoopAction::Leave) <==> event == LoopEvent::Disconnected || (stopping && (event
            == LoopEvent::Wake || event == LoopEvent::Timeout)),
        (r == LoopAction::Turn) <==> !stopping && (event == LoopEvent::Wake || event
            == LoopEvent::Timeout),
{
}

/// While the daemon stops it waits exactly as long as a run is under way and the grace period
/// lasts, which is ten seconds.
pub proof fn lemma_stop_waits_for_runs(finished: &Vec<bool>, grace_over: bool, r: DrainAction)
    requires
        call_ensures(daemon::drain_runs, (finished, grace_over), r),
    ensures
        (r == DrainAction::Wait) <==> !grace_over && exists|i: int|
            0 <= i < finished@.len() && !#[trigger] finished@[i],
        r == DrainAction::Wait || r == DrainAction::Finish,
        daemon::SHUTDOWN_GRACE_MS == 10000,
        daemon::HEARTBEAT_INTERVAL_MS == 30000,
{
}

// ----------------------------------------------------------------------------- liveness

/// A daemon is taken for dead where its last heartbeat is more than ninety seconds ago. One that
/// says it runs and is not taken for dead is shown as running, may not be started again, and is
/// the one that is stopped; no other is any of these.
pub proof fn lemma_live_daemon(
    status: &DaemonStatus,
    now: Stamp,
    stale: bool,
    live: bool,
    shown: DaemonView,
    refusal: Option<String>,
    target: Option<i32>,
)
    requires
        call_ensures(state::daemon_is_stale, (status, now), stale),
        call_ensures(state::daemon_is_live, (status, now), live),
        call_ensures(DaemonView::from_status, (Some(status), now), shown),
        call_ensures(daemon::start_refusal, (Some(status), now), refusal),
        call_ensures(daemon::stop_target, (Some(status), now), target),
    ensures
        stale <==> (now.secs * 1000000000 + now.nanos) - (status.heartbeat.secs * 1000000000
            + status.heartbeat.nanos) > 90 * 1000000000,
        live <==> status.state@ == "running"@ && !stale,
        shown.running <==> live,
        live ==> shown.state@ == "running"@,
        status.state@ == "running"@ && stale ==> shown.state@ == "not responding"@,
        status.state@ != "running"@ ==> shown.state@ == status.state@,
        shown.pid == Some(status.pid),
        refusal is Some <==> live,
        live ==> target == Some(status.pid),
        !live ==> target is None,
{
}

/// Without a recorded daemon none is shown as running, one may be started, and none is stopped.
pub proof fn lemma_no_daemon(
    now: Stamp,
    shown: DaemonView,
    refusal: Option<String>,
    target: Option<i32>,
)
    requires
        call_ensures(DaemonView::from_status, (None::<&DaemonStatus>, now), shown),
        call_ensures(daemon::start_refusal, (None::<&DaemonStatus>, now), refusal),
        call_ensures(daemon::stop_target, (None::<&DaemonStatus>, now), target),
    ensures
        !shown.running,
        shown.state@ == "not running"@,
        shown.pid is None,
        refusal is None,
        target is None,
{
}

/// Stopping the daemon fails only where it could not be signalled; that there is none is no
/// error.
pub proof fn lemma_stop_fails_only_on_signal(
    target: Option<i32>,
    force: bool,
    outcome: &SignalOutcome,
    r: StopReport,
)
    requires
        call_ensures(daemon::stop, (target, force, outcome), r),
    ensures
        r.is_error <==> target is Some && outcome is Failed,
        (r.code == 0) <==> !r.is_error,
        r.code <= 1,
        target is None || outcome is NoProcess ==> r.text@ == "daemon not running\n"@,
{
}

// ----------------------------------------------------------------------------- requests

/// Every request is answered under its own id: for the status with the process, a reload by
/// queueing it, a change by making it, and any other with an error that names the method.
pub proof fn lemma_requests_are_answered(req: Request, pid: i32, r: IpcAnswer)
    requires
        call_ensures(daemon::ipc_handler, (req, pid), r),
    ensures
        req.method@ == "daemon.status"@ ==> (r matches IpcAnswer::Reply(
            Response::Success { id, result },
        ) && id@ == req.id@ && result@ == json::JsonView::Object(
            seq![
                ("state"@, json::JsonView::Text("running"@)),
                ("pid"@, json::JsonView::Int(pid as i64)),
            ],
        )),
        req.method@ == "daemon.reload"@ ==> (r matches IpcAnswer::QueueReload { id } && id@
            == req.id@),
        r matches IpcAnswer::Change { id, mutation } ==> id@ == req.id@ && (req.method@
            == "jobs.add"@ || req.method@ == "jobs.pause"@ || req.method@ == "jobs.resume"@
            || req.method@ == "jobs.remove"@),
        r matches IpcAnswer::Reply(Response::Failure { id, error }) ==> id@ == req.id@
            && error.code@ == "unknown_method"@ && error.message@ == "unknown method: "@
            + req.method@,
        r matches IpcAnswer::Reply(Response::Success { .. }) ==> req.method@ == "daemon.status"@,
        r is QueueReload ==> req.method@ == "daemon.reload"@,
{
    reveal_strlit("daemon.status");
    reveal_strlit("daemon.reload");
    assert("daemon.status"@[7] != "daemon.reload"@[7]);
}

/// The four changes are asked for by their own methods: a request for one is understood as that
/// change and answered by making it.
pub proof fn lemma_change_requests_are_understood(
    mutation: &Mutation,
    req: Request,
    pid: i32,
    r: IpcAnswer,
)
    requires
        call_ensures(config_mutation::mutation_to_request, (mutation,), req),
        call_ensures(daemon::ipc_handler, (req, pid), r),
    ensures
        mutation is Add ==> req.method@ == "jobs.add"@,
        mutation is Pause ==> req.method@ == "jobs.pause"@,
        mutation is Resume ==> req.method@ == "jobs.resume"@,
        mutation is Remove ==> req.method@ == "jobs.remove"@,
        r matches IpcAnswer::Change { id, mutation: m } && id@ == req.id@ && m@ == mutation@,
{
    config_mutation::lemma_request_round_trips(mutation@);
    reveal_strlit("daemon.status");
    reveal_strlit("daemon.reload");
    reveal_strlit("jobs.add");
    reveal_strlit("jobs.pause");
    reveal_strlit("jobs.resume");
    reveal_strlit("jobs.remove");
    assert("daemon.status"@[0] == 'd' && "daemon.reload"@[0] == 'd');
    assert("jobs.add"@[0] == 'j' && "jobs.pause"@[0] == 'j' && "jobs.resume"@[0] == 'j'
        && "jobs.remove"@[0] == 'j');
}

/// Pausing a job is setting its flag to false, and resuming it is setting it to true.
pub proof fn lemma_pause_clears_the_flag(
    source: &str,
    pause: &Mutation,
    resume: &Mutation,
    id: &str,
    paused: Result<String, String>,
    resumed: Result<String, String>,
    off: Result<String, String>,
    on: Result<String, String>,
)
    requires
        pause matches Mutation::Pause(i) && i@ == id@,
        resume matches Mutation::Resume(i) && i@ == id@,
        call_ensures(config_mutation::apply, (source, pause), paused),
        call_ensures(config_mutation::apply, (source, resume), resumed),
        call_ensures(config_edit::set_enabled, (source, id, false), off),
        call_ensures(config_edit::set_enabled, (source, id, true), on),
    ensures
        config_edit::result_view(paused) == config_edit::result_view(off),
        config_edit::result_view(resumed) == config_edit::result_view(on),
{
    lemma_toggled_once(
        source@,
        id@,
        false,
        config_edit::result_view(paused),
        config_edit::result_view(off),
    );
    lemma_toggled_once(
        source@,
        id@,
        true,
        config_edit::result_view(resumed),
        config_edit::result_view(on),
    );
}

proof fn lemma_toggled_once(
    source: Seq<char>,
    id: Seq<char>,
    enabled: bool,
    a: Result<Seq<char>, Seq<char>>,
    b: Result<Seq<char>, Seq<char>>,
)
    requires
        config_edit::toggled(source, id, enabled, a),
        config_edit::toggled(source, id, enabled, b),
    ensures
        a == b,
{
    if a is Ok && b is Ok {
        text::lemma_encode_injective(a->Ok_0, b->Ok_0);
    }
}

/// The answer to a change tells what came of it: a change that was made is told as made, and one
/// that was refused with the reason.
pub proof fn lemma_change_is_reported_back(
    id: String,
    outcome: Outcome,
    answer: Response,
    told: Outcome,
)
    requires
        call_ensures(config_mutation::change_reply, (id, outcome), answer),
        call_ensures(config_mutation::mutation_outcome, (answer,), told),
    ensures
        outcome is Applied <==> told is Applied,
        outcome matches Outcome::Refused(m) ==> (told matches Outcome::Refused(n) && n@ == m@),
{
}

/// A reload is accepted under the id that it was asked under, and refused only while the daemon
/// stops.
pub proof fn lemma_reload_is_answered(id: String, queued: bool, r: Response)
    requires
        call_ensures(daemon::reload_reply, (id, queued), r),
    ensures
        queued ==> (r matches Response::Success { id: i, .. } && i@ == id@),
        !queued ==> (r matches Response::Failure { id: i, error } && i@ == id@ && error.code@
            == "shutting_down"@ && error.message@ == "daemon is shutting down"@),
{
}

/// The daemon is shown by its state and, where there is one, its process.
pub proof fn lemma_daemon_is_shown(view: &DaemonView, r: String, j: json::Json)
    requires
        call_ensures(DaemonView::render_human, (view,), r),
        call_ensures(DaemonView::value, (view,), j),
    ensures
        view.pid matches Some(pid) ==> r@ == "daemon: "@ + view.state@ + (" (pid "@
            + text::signed_decimal(pid as int) + ")\n"@),
        view.pid is None ==> r@ == "daemon: "@ + view.state@ + "\n"@,
        j@ matches json::JsonView::Object(outer) && outer.len() == 1 && outer[0].0 == "daemon"@ && (
        outer[0].1 matches json::JsonView::Object(fields) && {
            &&& fields.len() == 3
            &&& fields[0] == ("state"@, json::JsonView::Text(view.state@))
            &&& fields[1].0 == "pid"@
            &&& view.pid matches Some(pid) ==> fields[1].1 == json::JsonView::Int(pid as i64)
            &&& view.pid is None ==> fields[1].1 == json::JsonView::Null
            &&& fields[2] == ("running"@, json::JsonView::Bool(view.running))
        }),
{
}

// ------------------------------------------------------------------------------- events

/// An event is named after what happened, and is an error exactly where an attempt or a run did
/// not succeed.
pub proof fn lemma_event_is_named(kind: EventKind, name: &'static str, level: &'static str)
    requires
        call_ensures(EventKind::as_str, (kind,), name),
        call_ensures(EventKind::level, (kind,), level),
    ensures
        kind == EventKind::RunStarted ==> name@ == "run_started"@ && level@ == "info"@,
        kind == EventKind::AttemptStarted ==> name@ == "attempt_started"@ && level@ == "info"@,
        kind == EventKind::AttemptSucceeded ==> name@ == "attempt_succeeded"@ && level@ == "info"@,
        kind == EventKind::AttemptFailed ==> name@ == "attempt_failed"@ && level@ == "error"@,
        kind == EventKind::RunSucceeded ==> name@ == "run_succeeded"@ && level@ == "info"@,
        kind == EventKind::RunFailed ==> name@ == "run_failed"@ && level@ == "error"@,
        kind == EventKind::RunTimeout ==> name@ == "run_timeout"@ && level@ == "error"@,
        kind == EventKind::RunCancelled ==> name@ == "run_cancelled"@ && level@ == "error"@,
{
}

/// An event is recorded under its job, run and attempt, with its message, its name and level, and
/// the time at which it came.
pub proof fn lemma_event_is_recorded(
    kind: EventKind,
    job_id: &str,
    run_id: &str,
    attempt_id: Option<&str>,
    message: &str,
    at: Stamp,
    r: EventRow,
    name: &'static str,
    level: &'static str,
)
    requires
        call_ensures(events::emit, (kind, job_id, run_id, attempt_id, message, at), r),
        call_ensures(EventKind::as_str, (kind,), name),
        call_ensures(EventKind::level, (kind,), level),
    ensures
        r.job_id@ == job_id@,
        r.run_id@ == run_id@,
        attempt_id matches Some(a) ==> (r.attempt_id matches Some(b) && b@ == a@),
        attempt_id is None ==> r.attempt_id is None,
        r.message@ == message@,
        r.event_type@ == name@,
        r.level@ == level@,
        r.created_at@ == zone::rfc3339_text(at.secs as int, at.nanos as int, 0),
        at.nanos < 1000000000 ==> r.id@ == "ev-"@ + (match attempt_id {
            Some(a) => a@,
            None => run_id@,
        }) + "-"@ + name@ + "-"@ + text::signed_decimal(
            (at.secs * 1000000000 + at.nanos) / 1000,
        ),
{
    assert((at.secs * 1000000000 + at.nanos) / 1000 == at.secs * 1000000 + (at.nanos as int) / 1000);
}

// ------------------------------------------------------------------------- after the runs

/// Once the due runs are taken, an entry that was not due is there as it was, and one that was due
/// has the next occurrence of its job after now.
pub proof fn lemma_entries_are_carried(
    before: Seq<Armed>,
    jobs: Seq<EffectiveJob>,
    machine: Option<Seq<char>>,
    now: Stamp,
    e: Armed,
    i: int,
)
    requires
        schedule_table::is_carried(before, jobs, machine, now, e),
        0 <= i < before.len(),
        before[i].job == e.job,
        forall|a: int, b: int|
            0 <= a < b < before.len() ==> (#[trigger] before[a]).job < (#[trigger] before[b]).job,
    ensures
        ({
            let was = before[i].next.scheduled_for;
            let due = was.secs * 1000000000 + was.nanos <= now.secs * 1000000000 + now.nanos;
            &&& !due ==> e.next.key@ == before[i].next.key@ && e.next.scheduled_for.secs
                == was.secs && e.next.scheduled_for.nanos == was.nanos
            &&& due ==> jobs[e.job as int].enabled && schedule_table::is_next(
                jobs[e.job as int]@,
                machine,
                now,
                e.next,
            )
        }),
{
    let k = choose|k: int|
        0 <= k < before.len() && (#[trigger] before[k]).job == e.job && (if schedule_table::is_due(
            before[k],
            now,
        ) {
            schedule_table::will_fire(jobs[e.job as int]@, machine, now) && schedule_table::is_next(
                jobs[e.job as int]@,
                machine,
                now,
                e.next,
            )
        } else {
            schedule_table::same_occurrence(before[k].next, e.next)
        });
    if k < i {
        assert(before[k].job < before[i].job);
    } else if i < k {
        assert(before[i].job < before[k].job);
    }
}

// ------------------------------------------------------------------------------ wording

/// A daemon that runs already is told with its process, and stopping one tells what was done.
pub proof fn lemma_daemon_commands_are_worded(
    status: &DaemonStatus,
    now: Stamp,
    refusal: Option<String>,
    pid: i32,
    force: bool,
    outcome: &SignalOutcome,
    r: StopReport,
)
    requires
        call_ensures(daemon::start_refusal, (Some(status), now), refusal),
        call_ensures(daemon::stop, (Some(pid), force, outcome), r),
    ensures
        refusal matches Some(text) ==> text@ == "error: daemon already running (pid "@
            + text::signed_decimal(status.pid as int) + ")\n"@,
        outcome is Delivered && force ==> r.text@ == "daemon "@ + "killed"@ + " (pid "@
            + text::signed_decimal(pid as int) + ")\n"@,
        outcome is Delivered && !force ==> r.text@ == "daemon "@ + "signalled to stop"@ + " (pid "@
            + text::signed_decimal(pid as int) + ")\n"@,
        outcome matches SignalOutcome::Failed(e) ==> r.text@
            == "error: failed to signal daemon (pid "@ + text::signed_decimal(pid as int) + "): "@
            + e@ + "\n"@,
{
}

/// An answer to a change carries the code and the reason of a refusal, and says of a change that
/// it was made.
pub proof fn lemma_change_reply_is_worded(id: String, outcome: Outcome, r: Response)
    requires
        call_ensures(config_mutation::change_reply, (id, outcome), r),
    ensures
        outcome is Applied ==> (r matches Response::Success { id: i, result } && i@ == id@
            && result@ == json::JsonView::Object(
            seq![("applied"@, json::JsonView::Bool(true))],
        )),
        outcome matches Outcome::Refused(m) ==> (r matches Response::Failure { id: i, error } && i@
            == id@ && error.code@ == "refused"@ && error.message@ == m@),
{
}

/// A request and its answer are sent with their fields under their names.
pub proof fn lemma_messages_have_their_fields(
    req: Request,
    sent: json::Json,
    resp: Response,
    answered: json::Json,
)
    requires
        call_ensures(ipc::request_value, (req,), sent),
        call_ensures(ipc::response_value, (resp,), answered),
    ensures
        sent@ == json::JsonView::Object(
            seq![
                ("id"@, json::JsonView::Text(req.id@)),
                ("method"@, json::JsonView::Text(req.method@)),
                ("params"@, req.params@),
            ],
        ),
        resp matches Response::Success { id, result } ==> answered@ == json::JsonView::Object(
            seq![
                ("id"@, json::JsonView::Text(id@)),
                ("ok"@, json::JsonView::Bool(true)),
                ("result"@, result@),
            ],
        ),
        resp matches Response::Failure { id, error } ==> (answered@ matches json::JsonView::Object(
            fields,
        ) && fields.len() == 3 && fields[0] == ("id"@, json::JsonView::Text(id@)) && fields[1] == (
            "ok"@,
            json::JsonView::Bool(false),
        ) && fields[2].0 == "error"@ && fields[2].1 == json::JsonView::Object(
            seq![
                ("code"@, json::JsonView::Text(error.code@)),
                ("message"@, json::JsonView::Text(error.message@)),
            ],
        )),
{
}

/// A message is sent as one line, and the first line of what came is the message that was sent.
pub proof fn lemma_message_is_one_line(
    message: &json::Json,
    sent: String,
    line: Seq<char>,
    rest: Seq<char>,
    stream: &str,
    r: Option<(&str, &str)>,
)
    requires
        call_ensures(ipc::write_message, (message,), sent),
        call_ensures(ipc::read_message, (stream,), r),
        !line.contains('\n'),
        stream@ == line + seq!['\n'] + rest,
    ensures
        sent@ == json::compact_text(json::value_of(message@)) + seq!['\n'],
        r matches Some(m) && m.0@ == line && m.1@ == rest,
{
    reveal_strlit("\n");
    assert("\n"@ =~= seq!['\n']);
    text::lemma_find(stream@, '\n');
    assert(stream@[line.len() as int] == '\n');
    let k = text::find(stream@, '\n')->0 as int;
    assert(k == line.len()) by {
        if k < line.len() {
            assert(stream@[k] == line[k]);
            assert(line.contains('\n'));
        }
    }
    assert(stream@.take(k) =~= line);
    assert(stream@.skip(k + 1) =~= rest);
}

/// A change is asked for with the id of its job, or with the block of a new one.
pub proof fn lemma_change_request_has_its_fields(mutation: &Mutation, req: Request)
    requires
        call_ensures(config_mutation::mutation_to_request, (mutation,), req),
    ensures
        mutation matches Mutation::Add(block) ==> req.params@ == json::JsonView::Object(
            seq![("block"@, json::JsonView::Text(block@))],
        ),
        mutation matches Mutation::Pause(id) ==> req.params@ == json::JsonView::Object(
            seq![("id"@, json::JsonView::Text(id@))],
        ),
        mutation matches Mutation::Resume(id) ==> req.params@ == json::JsonView::Object(
            seq![("id"@, json::JsonView::Text(id@))],
        ),
        mutation matches Mutation::Remove(id) ==> req.params@ == json::JsonView::Object(
            seq![("id"@, json::JsonView::Text(id@))],
        ),
{
}

/// What is not run is recorded as skipped, for the overlap where that was the reason.
pub proof fn lemma_skips_are_recorded(overlap: &'static str, missed_run: &'static str)
    requires
        call_ensures(daemon::overlap_status, (), overlap),
        call_ensures(missed::skipped_status, (), missed_run),
    ensures
        overlap@ == "skipped_overlap"@,
        missed_run@ == "skipped"@,
{
}

/// The runs that are taken from the table are those of all the entries whose instant has come, in
/// their order, each under the key of its occurrence and at its instant.
pub proof fn lemma_all_due_runs_are_taken(
    table: &mut ScheduleTable,
    jobs: &Vec<EffectiveJob>,
    machine: &Option<String>,
    now: Stamp,
    r: Vec<DueRun>,
)
    requires
        call_ensures(ScheduleTable::pop_due, (table, jobs, machine, now), r),
    ensures
        schedule_table::run_views(r@) == old(table).entries@.filter(
            |e: Armed|
                e.next.scheduled_for.secs * 1000000000 + e.next.scheduled_for.nanos <= now.secs
                    * 1000000000 + now.nanos,
        ).map_values(
            |e: Armed|
                (
                    e.job,
                    e.next.key@,
                    Stamp { secs: e.next.scheduled_for.secs, nanos: e.next.scheduled_for.nanos },
                ),
        ),
{
    lemma_due_runs_are_all(old(table).entries@, now);
}

} // verus!
