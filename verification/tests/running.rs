use periodic::cli::OutputFormat;
use periodic::commands::{
    dispatch_mutation, finish_reload, run_jobs_history, run_logs, run_reload, Owner, ReloadStep,
};
use periodic::config::{EffectiveJob, MissedRunPolicy, NormalizedSchedule, OverlapPolicy};
use periodic::config_hash::job_config_hash;
use periodic::config_mutation::Mutation;
use periodic::daemon::{
    dispatch_claimed, dispatch_due, drain_runs, ipc_handler, overlap_status, reload_reply,
    scheduler_loop,
    sleep_until, start_refusal, stop, stop_target, ClaimOutcome, DaemonView, DispatchAction,
    DrainAction, IpcAnswer, LoopAction, LoopEvent, SignalOutcome, HEARTBEAT_INTERVAL_MS,
};
use periodic::executor::{
    drain_after_kill, execute_run, finalize, run_attempt, run_job, wait_loop, AttemptEvent,
    AttemptResult, Received, RunAction, RunOutcome, RunStatus, WaitAction, Watch,
};
use periodic::ipc::{
    read_message, request_value, response_value, socket_path, write_message, Request, Response,
};
use periodic::json::{list, object, to_compact, Field, Json};
use periodic::logs::{append, date_of, log_files, read_logs, LogRecord};
use periodic::missed::{
    missed_occurrences, plan_missed, skipped_status, MissedAction, LOOKBACK_SECS,
};
use periodic::run_report::{render_logs_human, render_logs_json};
use periodic::schedule_table::{arm, project, ScheduleTable};
use periodic::state::{DaemonStatus, Stamp};

fn at(s: i64) -> Stamp {
    Stamp { secs: s, nanos: 0 }
}

fn daemon_status(state: &str, heartbeat: Stamp, pid: i32) -> DaemonStatus {
    DaemonStatus {
        pid,
        state: state.to_owned(),
        heartbeat,
    }
}

// ---------------------------------------------------------------------- the daemon's view

#[test]
fn view_none_is_not_running() {
    let v = DaemonView::from_status(None, at(1000));
    assert!(!v.running);
    assert_eq!(v.pid, None);
    assert!(v.render_human().contains("not running"));
    assert!(v.render_json().contains("\"running\": false"));
}

#[test]
fn view_fresh_running_reports_pid() {
    let s = daemon_status("running", at(1000), 4242);
    let v = DaemonView::from_status(Some(&s), at(1030));
    assert!(v.running);
    assert_eq!(v.pid, Some(4242));
    assert!(v.render_human().contains("running (pid 4242)"));
    assert!(v.render_json().contains("\"running\": true"));
    assert!(v.render_json().contains("\"pid\": 4242"));
}

#[test]
fn view_stale_running_is_not_responding_and_not_running() {
    let s = daemon_status("running", at(1000), 7);
    let v = DaemonView::from_status(Some(&s), at(1091));
    assert!(!v.running, "a stale daemon is reported as not running");
    assert!(v.render_human().contains("not responding"));
    assert!(v.render_json().contains("\"running\": false"));
}

#[test]
fn view_stopped_is_not_running() {
    let s = daemon_status("stopped", at(1000), 9);
    let v = DaemonView::from_status(Some(&s), at(9999));
    assert!(!v.running);
    assert!(v.render_human().contains("stopped"));
    assert_eq!(v.pid, Some(9));
}

#[test]
fn status_reports_not_running_before_start() {
    assert_eq!(DaemonView::from_status(None, at(0)).render_human(), "daemon: not running\n");
}

#[test]
fn a_heartbeat_of_exactly_the_limit_is_fresh() {
    let s = daemon_status("running", at(1000), 7);
    assert!(DaemonView::from_status(Some(&s), at(1090)).running);
    let later = Stamp { secs: 1090, nanos: 1 };
    assert!(!DaemonView::from_status(Some(&s), later).running);
}

// -------------------------------------------------------------------------------- sleeping

#[test]
fn sleep_until_clamps_far_wake_to_heartbeat_interval() {
    assert_eq!(sleep_until(Some(at(1000 + 600)), at(1000)), HEARTBEAT_INTERVAL_MS);
}

#[test]
fn sleep_until_none_is_heartbeat_interval() {
    assert_eq!(sleep_until(None, at(1000)), HEARTBEAT_INTERVAL_MS);
}

#[test]
fn sleep_until_past_wake_is_zero() {
    assert_eq!(sleep_until(Some(at(1000)), at(2000)), 0);
}

#[test]
fn sleep_until_near_wake_is_the_delta() {
    assert_eq!(sleep_until(Some(at(1005)), at(1000)), 5000);
    let wake = Stamp { secs: 1001, nanos: 1_999_999 };
    assert_eq!(sleep_until(Some(wake), at(1000)), 1001);
}

// ----------------------------------------------------------------------------- dispatching

fn minute_job(id: &str) -> EffectiveJob {
    EffectiveJob {
        id: Some(id.into()),
        title: None,
        enabled: true,
        schedule: NormalizedSchedule::MinuteAligned { every_minutes: 15 },
        command: "true".into(),
        args: vec![],
        cwd: None,
        timeout_secs: None,
        timezone: Some("UTC".into()),
        overlap_policy: OverlapPolicy::Skip,
        missed_run_policy: MissedRunPolicy::Skip,
        max_retries: 0,
        tags: vec![],
    }
}

#[test]
fn fresh_occurrence_claims_and_dispatches() {
    let job = minute_job("a");
    let claim = dispatch_due(&job, "a:minute:t", at(1000)).unwrap();
    assert_eq!(claim.run_id, "a-1000000000");
    assert_eq!(claim.trigger, "scheduled");
    assert_eq!(claim.occurrence_key, "a:minute:t");
    assert_eq!(claim.config_hash, job_config_hash(&job));
    assert_eq!(
        dispatch_claimed(&claim, ClaimOutcome::Claimed, &vec![]),
        DispatchAction::Start
    );
}

#[test]
fn duplicate_occurrence_does_not_dispatch() {
    let claim = dispatch_due(&minute_job("a"), "a:minute:t", at(1000)).unwrap();
    assert_eq!(
        dispatch_claimed(&claim, ClaimOutcome::Duplicate, &vec![]),
        DispatchAction::Skip
    );
    assert_eq!(
        dispatch_claimed(&claim, ClaimOutcome::Failed, &vec![]),
        DispatchAction::Skip
    );
}

#[test]
fn active_job_occurrence_is_recorded_skipped_overlap() {
    let claim = dispatch_due(&minute_job("a"), "a:minute:t2", at(2000)).unwrap();
    let active = vec!["b".to_string(), "a".to_string()];
    assert_eq!(
        dispatch_claimed(&claim, ClaimOutcome::Claimed, &active),
        DispatchAction::SkipOverlap
    );
}

#[test]
fn skipped_runs_have_their_statuses() {
    assert_eq!(DispatchAction::SkipOverlap.recorded_status(), Some("skipped_overlap"));
    assert_eq!(DispatchAction::Start.recorded_status(), None);
    assert_eq!(overlap_status(), "skipped_overlap");
    assert_eq!(skipped_status(), "skipped");
}

#[test]
fn a_job_without_an_id_is_never_dispatched() {
    let mut job = minute_job("a");
    job.id = None;
    assert!(dispatch_due(&job, "k", at(1000)).is_none());
}

#[test]
fn the_loop_goes_on_until_it_is_told_to_stop() {
    assert_eq!(scheduler_loop(LoopEvent::Timeout, false), LoopAction::Turn);
    assert_eq!(scheduler_loop(LoopEvent::Wake, true), LoopAction::Leave);
    assert_eq!(scheduler_loop(LoopEvent::Reload, false), LoopAction::Reload);
    assert_eq!(scheduler_loop(LoopEvent::Disconnected, false), LoopAction::Leave);
    assert_eq!(drain_runs(&vec![true, false], false), DrainAction::Wait);
    assert_eq!(drain_runs(&vec![true, true], false), DrainAction::Finish);
    assert_eq!(drain_runs(&vec![false], true), DrainAction::Finish);
    assert_eq!(drain_runs(&vec![], false), DrainAction::Finish);
}

// ------------------------------------------------------------------------------- the table

#[test]
fn the_table_holds_what_comes_next() {
    let mut hourly = minute_job("h");
    hourly.schedule = NormalizedSchedule::HourAligned { every_hours: 1 };
    let mut off = minute_job("off");
    off.enabled = false;
    let jobs = vec![hourly, off, minute_job("m")];
    let table = ScheduleTable::build(&jobs, &None, at(0));
    assert_eq!(table.entries.len(), 2);
    assert_eq!(table.entries[0].job, 0);
    assert_eq!(table.entries[1].job, 2);
    assert_eq!(table.next_wake(), Some(at(900)));
    assert!(arm(&jobs[1], &None, at(0)).is_none());
}

#[test]
fn what_is_due_is_taken_and_armed_anew() {
    let mut hourly = minute_job("h");
    hourly.schedule = NormalizedSchedule::HourAligned { every_hours: 1 };
    let jobs = vec![hourly, minute_job("m")];
    let mut table = ScheduleTable::build(&jobs, &None, at(0));
    assert!(table.pop_due(&jobs, &None, at(899)).is_empty());
    let due = table.pop_due(&jobs, &None, at(900));
    assert_eq!(due.len(), 1);
    assert_eq!(due[0].job, 1);
    assert_eq!(due[0].occurrence_key, "m:minute:1970-01-01T00:15:00+00:00");
    assert_eq!(due[0].scheduled_for, at(900));
    assert_eq!(table.next_wake(), Some(at(1800)));
    assert_eq!(table.entries.len(), 2);
    assert_eq!(ScheduleTable { entries: vec![] }.next_wake(), None);
}

// ---------------------------------------------------------------------------- missed runs

#[test]
fn what_came_due_meanwhile_was_missed() {
    let job = minute_job("j");
    let now = 1_704_067_200;
    let step = missed_occurrences(&job, &None, at(now - 86_000), at(now));
    let secs: Vec<i64> = step.iter().map(|o| o.scheduled_for.secs).collect();
    assert!(!secs.is_empty());
    assert!(secs.windows(2).all(|w| w[0] < w[1]));
    assert_eq!(secs.last(), Some(&now));
    assert!(missed_occurrences(&job, &None, at(now), at(now)).is_empty());
    assert!(missed_occurrences(&job, &None, at(now + 5), at(now)).is_empty());
}

#[test]
fn the_lookback_is_a_day() {
    let job = minute_job("j");
    let now = 1_704_067_200;
    let all = missed_occurrences(&job, &None, at(now - 10 * LOOKBACK_SECS), at(now));
    let day = missed_occurrences(&job, &None, at(now - LOOKBACK_SECS), at(now));
    assert_eq!(all.len(), day.len());
    assert!(all[0].scheduled_for.secs > now - LOOKBACK_SECS);
    let gap = all[1].scheduled_for.secs - all[0].scheduled_for.secs;
    assert_eq!(all.len() as i64, LOOKBACK_SECS / gap);
}

#[test]
fn the_policy_says_what_becomes_of_missed_runs() {
    assert!(plan_missed(MissedRunPolicy::Skip, 0).is_empty());
    assert!(plan_missed(MissedRunPolicy::RunAll, 0).is_empty());
    assert_eq!(
        plan_missed(MissedRunPolicy::Skip, 3),
        vec![MissedAction::RecordSkipped(2)]
    );
    assert_eq!(plan_missed(MissedRunPolicy::RunOnce, 3), vec![MissedAction::Run(2)]);
    assert_eq!(
        plan_missed(MissedRunPolicy::RunAll, 3),
        vec![MissedAction::Run(0), MissedAction::Run(1), MissedAction::Run(2)]
    );
}

#[test]
fn a_job_is_shown_with_its_next_run() {
    let row = project(&minute_job("m"), &None, at(0)).unwrap();
    assert_eq!(row.job_id, "m");
    assert_eq!(row.state, "active");
    assert_eq!(row.schedule_kind, "minute");
    assert_eq!(row.next_run_at.as_deref(), Some("1970-01-01T00:15:00+00:00"));
    assert_eq!(row.config_hash, job_config_hash(&minute_job("m")));
    assert_eq!(row.updated_at, "1970-01-01T00:00:00+00:00");
    let mut off = minute_job("off");
    off.enabled = false;
    let row = project(&off, &None, at(0)).unwrap();
    assert_eq!((row.state.as_str(), row.next_run_at), ("disabled", None));
    off.id = None;
    assert!(project(&off, &None, at(0)).is_none());
    let mut local = minute_job("local");
    local.timezone = None;
    let row = project(&local, &Some("Asia/Kolkata".to_owned()), at(0)).unwrap();
    assert_eq!(row.next_run_at.as_deref(), Some("1970-01-01T05:45:00+05:30"));
}

// -------------------------------------------------------------------------- start and stop

#[test]
fn start_detached_then_status_then_stop() {
    assert!(start_refusal(None, at(1000)).is_none());
    let running = daemon_status("running", at(1000), 42);
    assert_eq!(
        start_refusal(Some(&running), at(1010)).as_deref(),
        Some("error: daemon already running (pid 42)\n")
    );
    let target = stop_target(Some(&running), at(1010));
    assert_eq!(target, Some(42));
    let r = stop(target, false, &SignalOutcome::Delivered);
    assert_eq!(r.text, "daemon signalled to stop (pid 42)\n");
    assert_eq!(r.code, 0);
    let r = stop(target, true, &SignalOutcome::Delivered);
    assert_eq!(r.text, "daemon killed (pid 42)\n");
    let stopped = daemon_status("stopped", at(1000), 42);
    assert_eq!(stop_target(Some(&stopped), at(1010)), None);
    assert!(start_refusal(Some(&stopped), at(1010)).is_none());
    assert!(start_refusal(Some(&running), at(5000)).is_none());
}

#[test]
fn stop_is_idempotent_when_never_started() {
    assert_eq!(stop_target(None, at(0)), None);
    let r = stop(None, false, &SignalOutcome::NoProcess);
    assert_eq!((r.text.as_str(), r.is_error, r.code), ("daemon not running\n", false, 0));
    let r = stop(Some(7), false, &SignalOutcome::NoProcess);
    assert_eq!((r.text.as_str(), r.code), ("daemon not running\n", 0));
    let r = stop(Some(7), false, &SignalOutcome::Failed("EPERM".to_owned()));
    assert_eq!(r.text, "error: failed to signal daemon (pid 7): EPERM\n");
    assert_eq!((r.is_error, r.code), (true, 1));
}

#[test]
fn a_running_daemon_is_asked_to_reload() {
    let running = daemon_status("running", at(0), 42);
    match run_reload(None, Some(&running)) {
        ReloadStep::Ask(req) => {
            assert_eq!(req.method, "daemon.reload");
            assert_eq!(to_compact(&req.params), "{}");
        }
        ReloadStep::Done(p) => panic!("expected a request, got {p:?}"),
    }
    assert_eq!(dispatch_mutation(Some(&running)), Owner::Daemon);
    assert_eq!(dispatch_mutation(None), Owner::Disk);
    let ok = Response::ok("reload".to_owned(), Json::Null);
    assert_eq!(finish_reload(&ok).out, "reload requested\n");
    let no = Response::err("reload".to_owned(), "c".to_owned(), "busy".to_owned());
    assert_eq!(finish_reload(&no).err, "error: daemon refused reload: busy\n");
    assert_eq!(finish_reload(&no).code, 1);
}

#[test]
fn history_unknown_job_exits_one() {
    let p = run_jobs_history("ghost", false, &vec![], OutputFormat::Human);
    assert_eq!((p.code, p.err.as_str()), (1, "error: no such job: ghost\n"));
    let p = run_jobs_history("known", true, &vec![], OutputFormat::Human);
    assert_eq!((p.code, p.out.as_str()), (0, "\n0 run(s)\n"));
}

#[test]
fn logs_of_an_unknown_job_are_an_error() {
    let p = run_logs("ghost", false, &vec![], OutputFormat::Json);
    assert_eq!((p.code, p.err.as_str()), (1, "error: no such job: ghost\n"));
    let p = run_logs("known", true, &vec![], OutputFormat::Human);
    assert_eq!((p.code, p.out.as_str()), (0, "no output\n"));
    let p = run_logs("known", true, &vec![], OutputFormat::Json);
    assert_eq!(p.out, "{\n  \"logs\": []\n}\n");
}

// --------------------------------------------------------------------------------- requests

fn request(id: &str, method: &str, params: Json) -> Request {
    Request {
        id: id.to_owned(),
        method: method.to_owned(),
        params,
    }
}

fn field(name: &str, value: Json) -> Field {
    Field {
        name: name.to_owned(),
        value,
    }
}

fn parsed(j: &Json) -> serde_json::Value {
    serde_json::from_str(&to_compact(j)).unwrap()
}

fn value(text: &str) -> serde_json::Value {
    serde_json::from_str(text).unwrap()
}

#[test]
fn request_serializes_to_wire_shape() {
    let req = request("1", "jobs.list", object(vec![field("all", Json::Bool(true))]));
    assert_eq!(
        parsed(&request_value(req)),
        value(r#"{"id": "1", "method": "jobs.list", "params": {"all": true}}"#)
    );
}

#[test]
fn ok_response_serializes_to_wire_shape() {
    let resp = Response::ok("1".to_owned(), object(vec![field("count", Json::Int(3))]));
    assert_eq!(
        parsed(&response_value(resp)),
        value(r#"{"id": "1", "ok": true, "result": {"count": 3}}"#)
    );
}

#[test]
fn err_response_serializes_to_wire_shape() {
    let resp = Response::err(
        "1".to_owned(),
        "not_found".to_owned(),
        "no such job: x".to_owned(),
    );
    assert_eq!(
        parsed(&response_value(resp)),
        value(
            r#"{"id": "1", "ok": false, "error": {"code": "not_found", "message": "no such job: x"}}"#
        )
    );
}

#[test]
fn response_round_trips_both_variants() {
    let ok = response_value(Response::ok(
        "a".to_owned(),
        list(vec![Json::Int(1), Json::Int(2)]),
    ));
    let line = write_message(&ok);
    let (message, rest) = read_message(&line).unwrap();
    assert_eq!(value(message), parsed(&ok));
    assert_eq!(rest, "");

    let err = response_value(Response::err("b".to_owned(), "bad".to_owned(), "boom".to_owned()));
    let line = write_message(&err);
    assert_eq!(value(read_message(&line).unwrap().0), parsed(&err));
}

#[test]
fn write_then_read_round_trips_one_message() {
    let req = request_value(request("7", "ping", Json::Null));
    let buf = write_message(&req);
    assert_eq!(buf.as_bytes().last(), Some(&b'\n'));
    let (got, rest) = read_message(&buf).unwrap();
    assert_eq!(got, to_compact(&req));
    assert_eq!(rest, "");
}

#[test]
fn two_messages_read_back_in_order() {
    let a = request_value(request("1", "m1", Json::Int(1)));
    let b = request_value(request("2", "m2", Json::Int(2)));
    let mut buf = write_message(&a);
    buf.push_str(&write_message(&b));
    let (r1, rest) = read_message(&buf).unwrap();
    let (r2, rest) = read_message(rest).unwrap();
    assert_eq!(r1, to_compact(&a));
    assert_eq!(r2, to_compact(&b));
    assert!(read_message(rest).is_none());
}

#[test]
fn read_message_returns_none_at_eof() {
    assert!(read_message("").is_none());
}

#[test]
fn a_last_line_without_its_end_is_still_a_message() {
    assert_eq!(read_message("{}"), Some(("{}", "")));
    assert_eq!(read_message("\nx"), Some(("", "x")));
}

#[test]
fn socket_path_prefers_xdg_runtime_dir() {
    assert_eq!(
        socket_path(Some("/run/user/1000"), Some("/home/u")),
        "/run/user/1000/periodic/periodic.sock"
    );
}

#[test]
fn socket_path_falls_back_to_home_when_runtime_unset() {
    assert!(socket_path(None, Some("/home/u")).ends_with(".config/periodic/run/periodic.sock"));
    assert_eq!(
        socket_path(Some(""), Some("/home/u")),
        "/home/u/.config/periodic/run/periodic.sock"
    );
    assert_eq!(socket_path(None, None), ".config/periodic/run/periodic.sock");
}

#[test]
fn the_daemon_answers_requests() {
    match ipc_handler(request("1", "daemon.status", Json::Null), 42) {
        IpcAnswer::Reply(r) => assert_eq!(
            parsed(&response_value(r)),
            value(r#"{"id": "1", "ok": true, "result": {"state": "running", "pid": 42}}"#)
        ),
        other => panic!("got {other:?}"),
    }
    assert!(matches!(
        ipc_handler(request("2", "daemon.reload", Json::Null), 42),
        IpcAnswer::QueueReload { id } if id == "2"
    ));
    let params = object(vec![field("id", Json::Text("cleanup".to_owned()))]);
    assert!(matches!(
        ipc_handler(request("6", "jobs.pause", params), 42),
        IpcAnswer::Change { id, mutation: Mutation::Pause(job) } if id == "6" && job == "cleanup"
    ));
    assert!(matches!(
        ipc_handler(request("7", "jobs.pause", Json::Null), 42),
        IpcAnswer::Reply(Response::Failure { .. })
    ));
    match ipc_handler(request("3", "x.y", Json::Null), 42) {
        IpcAnswer::Reply(Response::Failure { id, error }) => {
            assert_eq!(id, "3");
            assert_eq!(error.code, "unknown_method");
            assert_eq!(error.message, "unknown method: x.y");
        }
        other => panic!("got {other:?}"),
    }
    assert_eq!(
        parsed(&response_value(reload_reply("4".to_owned(), true))),
        value(r#"{"id": "4", "ok": true, "result": {"reloading": true}}"#)
    );
    assert_eq!(
        parsed(&response_value(reload_reply("5".to_owned(), false))),
        value(
            r#"{"id": "5", "ok": false, "error": {"code": "shutting_down", "message": "daemon is shutting down"}}"#
        )
    );
}

// ------------------------------------------------------------------------------------- logs

fn rec(ts: &str, job: &str, run: &str, stream: &str, text: &str) -> LogRecord {
    LogRecord {
        ts: ts.to_owned(),
        job_id: job.to_owned(),
        run_id: run.to_owned(),
        attempt: 1,
        stream: stream.to_owned(),
        text: text.to_owned(),
    }
}

fn read_back(line: &str) -> Option<LogRecord> {
    let v: serde_json::Value = serde_json::from_str(line).ok()?;
    Some(LogRecord {
        ts: v["ts"].as_str()?.to_owned(),
        job_id: v["job_id"].as_str()?.to_owned(),
        run_id: v["run_id"].as_str()?.to_owned(),
        attempt: v["attempt"].as_u64()? as u32,
        stream: v["stream"].as_str()?.to_owned(),
        text: v["text"].as_str()?.to_owned(),
    })
}

const DAY: &str = "2026-06-20T12:00:00+00:00";

fn lines(records: &[LogRecord]) -> Vec<Option<LogRecord>> {
    let mut file = String::new();
    for r in records {
        file.push_str(&append(Some("2026-06-20"), r).line);
    }
    file.lines().map(read_back).collect()
}

#[test]
fn append_then_read_filters_by_job_and_run() {
    let written = [
        rec(DAY, "cleanup", "r1", "stdout", "hello"),
        rec(DAY, "cleanup", "r2", "stderr", "other"),
        rec(DAY, "backup", "r9", "stdout", "nope"),
    ];
    assert_eq!(read_logs(lines(&written), "cleanup", None).len(), 2);
    let r1 = read_logs(lines(&written), "cleanup", Some("r1"));
    assert_eq!(r1.len(), 1);
    assert_eq!(r1[0].text, "hello");
}

#[test]
fn lines_land_in_file_for_their_own_day() {
    let a = append(None, &rec("2026-06-20T23:59:00+00:00", "j", "r", "stdout", "a"));
    assert_eq!(a.open.as_deref(), Some("2026-06-20.jsonl"));
    let same_day = append(Some(&a.date), &rec("2026-06-20T23:59:30+00:00", "j", "r", "stdout", "a"));
    assert_eq!(same_day.open, None);
    let b = append(Some(&a.date), &rec("2026-06-21T00:01:00+00:00", "j", "r", "stdout", "b"));
    assert_eq!(b.open.as_deref(), Some("2026-06-21.jsonl"));
    assert!(b.line.ends_with("\"text\":\"b\"}\n"), "got {}", b.line);
}

#[test]
fn read_logs_on_missing_dir_is_empty() {
    assert!(log_files(&vec![]).is_empty());
    assert!(read_logs(vec![], "x", None).is_empty());
}

#[test]
fn log_files_are_read_in_the_order_of_their_days() {
    let names: Vec<String> = [
        "2026-06-21.jsonl",
        "notes.txt",
        ".jsonl",
        "2025-12-31.jsonl",
        "2026-06-20.jsonl",
        "jsonl",
    ]
    .iter()
    .map(|s| s.to_string())
    .collect();
    assert_eq!(
        log_files(&names),
        vec!["2025-12-31.jsonl", "2026-06-20.jsonl", "2026-06-21.jsonl"]
    );
}

#[test]
fn lines_that_cannot_be_read_are_passed_over() {
    let parsed = vec![None, Some(rec(DAY, "j", "r", "stdout", "a")), None];
    assert_eq!(read_logs(parsed, "j", None).len(), 1);
}

#[test]
fn a_timestamp_that_is_short_is_its_own_day() {
    assert_eq!(date_of("2026"), "2026");
    assert_eq!(date_of("2026-06-20T1"), "2026-06-20");
    assert_eq!(date_of("2026-06-2\u{e9}x"), "2026-06-2\u{e9}x");
}

#[test]
fn logs_show_captured_stdout() {
    let records = vec![rec(DAY, "echoer", "r", "stdout", "hello-logs")];
    assert!(render_logs_human(&records).contains("hello-logs"));
    assert!(render_logs_json(&records).contains("\"text\": \"hello-logs\""));
}

// --------------------------------------------------------------------------------- executor

fn retrying(retries: u32) -> EffectiveJob {
    let mut job = minute_job("retry");
    job.max_retries = retries;
    job
}

/// Runs a job whose attempts end as given; returns the outcome and everything that was to be
/// carried out.
fn drive(job: &EffectiveJob, results: &[AttemptResult]) -> (RunOutcome, Vec<RunAction>) {
    let (mut state, mut todo) = run_job(job, at(1_700_000_000));
    let mut done: Vec<RunAction> = Vec::new();
    let mut next = 0;
    loop {
        let mut following: Vec<RunAction> = Vec::new();
        for action in todo {
            match &action {
                RunAction::Wait => {
                    let event = AttemptEvent::Ended {
                        result: results[next],
                        at: at(1_700_000_100),
                    };
                    next += 1;
                    let (s, a) = run_attempt(state, event);
                    state = s;
                    following.extend(a);
                }
                RunAction::Spawn { .. } => {
                    let (s, a) = run_attempt(state, AttemptEvent::Spawned { pid: 77 });
                    state = s;
                    following.extend(a);
                }
                RunAction::Close => following.extend(finalize(&state, at(1_700_000_200))),
                _ => {}
            }
            match action {
                RunAction::Report(outcome) => return (outcome, done),
                other => done.push(other),
            }
        }
        todo = following;
    }
}

fn count_attempts(done: &[RunAction]) -> usize {
    done.iter().filter(|a| matches!(a, RunAction::StartAttempt { .. })).count()
}

#[test]
fn successful_command_records_success_run() {
    let (out, done) = drive(&minute_job("ok"), &[AttemptResult::Exited(0)]);
    assert!(matches!(out.status, RunStatus::Success));
    assert_eq!(out.exit_code, Some(0));
    assert!(done.iter().any(|a| matches!(a, RunAction::FinishRun { status: "success", .. })));
}

#[test]
fn failing_command_records_failed_run_and_increments_failures() {
    let (out, done) = drive(&minute_job("bad"), &[AttemptResult::Exited(1)]);
    assert!(matches!(out.status, RunStatus::Failed));
    assert_eq!(out.exit_code, Some(1));
    assert!(done
        .iter()
        .any(|a| matches!(a, RunAction::UpdateOutcome { job_id, success: false, .. } if job_id == "bad")));
}

#[test]
fn spawn_failure_records_failed_run_and_attempt() {
    let (state, _) = run_job(&minute_job("nosuchbin"), at(1_700_000_000));
    let event = AttemptEvent::SpawnFailed {
        error: "not found".to_owned(),
        at: at(1_700_000_001),
    };
    let (state, actions) = run_attempt(state, event);
    assert!(actions.iter().any(|a| matches!(
        a,
        RunAction::FinishAttempt { status: "failed", error: Some(e), .. } if e == "not found"
    )));
    let closing = finalize(&state, at(1_700_000_002));
    assert!(closing
        .iter()
        .any(|a| matches!(a, RunAction::Report(o) if o.status == RunStatus::Failed)));
}

#[test]
fn timeout_terminates_and_marks_timeout() {
    assert_eq!(
        wait_loop(Watch::Running, Received::Nothing, false, true),
        WaitAction::Terminate(AttemptResult::Timeout)
    );
    let (out, done) = drive(&minute_job("slow"), &[AttemptResult::Timeout]);
    assert!(matches!(out.status, RunStatus::Timeout));
    assert!(done
        .iter()
        .any(|a| matches!(a, RunAction::FinishAttempt { signal: Some(15), exit_code: None, .. })));
}

#[test]
fn retries_on_failure_then_records_attempts() {
    let (out, done) = drive(&retrying(2), &[AttemptResult::Exited(1); 3]);
    assert!(matches!(out.status, RunStatus::Failed));
    assert_eq!(out.attempts, 3);
    assert_eq!(count_attempts(&done), 3);
}

#[test]
fn a_success_ends_the_retries() {
    let (out, _) = drive(
        &retrying(5),
        &[AttemptResult::Exited(3), AttemptResult::Exited(0)],
    );
    assert!(matches!(out.status, RunStatus::Success));
    assert_eq!(out.attempts, 2);
}

#[test]
fn timeout_is_not_retried() {
    let (out, done) = drive(&retrying(3), &[AttemptResult::Timeout]);
    assert!(matches!(out.status, RunStatus::Timeout));
    assert_eq!(out.attempts, 1, "timeout is terminal, not retried");
    assert_eq!(count_attempts(&done), 1);
}

#[test]
fn injected_cancel_flag_terminates_the_run() {
    assert_eq!(
        wait_loop(Watch::Running, Received::Nothing, true, true),
        WaitAction::Terminate(AttemptResult::Cancelled)
    );
    let (out, _) = drive(&minute_job("cancelme"), &[AttemptResult::Cancelled]);
    assert!(matches!(out.status, RunStatus::Cancelled));
}

#[test]
fn terminal_event_stamps_real_finish_time_not_injected_start() {
    let (out, done) = drive(&minute_job("stamp"), &[AttemptResult::Exited(0)]);
    let created = done
        .iter()
        .find_map(|a| match a {
            RunAction::Record(row) if row.event_type == "run_succeeded" => {
                Some(row.created_at.clone())
            }
            _ => None,
        })
        .unwrap();
    assert_ne!(created, out.started_at);
    assert_eq!(created, out.finished_at);
}

#[test]
fn a_group_that_does_not_stop_is_killed() {
    let stopping = Watch::Stopping(AttemptResult::Timeout);
    assert_eq!(
        wait_loop(stopping, Received::Nothing, false, true),
        WaitAction::Kill(AttemptResult::Timeout)
    );
    assert_eq!(
        drain_after_kill(Received::Exit(Some(0)), AttemptResult::Timeout),
        WaitAction::Done(AttemptResult::Timeout)
    );
    assert_eq!(
        wait_loop(Watch::Running, Received::Exit(None), false, false),
        WaitAction::Done(AttemptResult::Exited(-1))
    );
    assert_eq!(
        wait_loop(Watch::Running, Received::Nothing, false, false),
        WaitAction::Wait
    );
}

#[test]
fn a_claimed_run_keeps_its_id() {
    let (state, actions) = execute_run(&minute_job("a"), "a-1", at(5));
    assert_eq!(state.run_id, "a-1");
    assert!(!actions.iter().any(|a| matches!(a, RunAction::CreateRun { .. })));
}
