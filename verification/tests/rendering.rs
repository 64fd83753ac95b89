use periodic::commands::{completion_shell, fail, init_logging, Shell};
use periodic::diagnostics::Diagnostic;
use periodic::doctor::{daemon_report, report, run as doctor_run};
use periodic::error::AppError;
use periodic::events::{emit, utc, EventKind};
use periodic::executor::{RunOutcome, RunStatus};
use periodic::json::{list, object, to_compact, to_pretty, Field, Json};
use periodic::output::{
    build_report, diagnostic_json, render_human, render_job_human, render_job_json, render_json,
    render_jobs_human, render_jobs_json,
};
use periodic::run_report::{
    render_logs_human, render_run_human, render_run_json, render_runs_human, render_runs_json,
    RunRow,
};
use periodic::self_update::{outcome_text, requested, Release};
use periodic::service::{
    plist_contents, plist_path, status, unit_contents, unit_path, LaunchctlStatus, LAUNCHD_LABEL,
};
use periodic::state::{pending_migrations, DaemonStatus, DbHealth, JobStateRow, Stamp};

// --------------------------------------------------------------------------- diagnostics

#[test]
fn error_serializes_to_frozen_shape() {
    let d = Diagnostic::error(
        "schedule.non_divisor",
        "every: 45m is not a divisor of 60".to_owned(),
        "jobs[0].schedule.every".to_owned(),
    )
    .with_job("cleanup".to_owned());
    let v: serde_json::Value = serde_json::from_str(&to_compact(&diagnostic_json(&d))).unwrap();
    assert_eq!(v["severity"], "error");
    assert_eq!(v["code"], "schedule.non_divisor");
    assert_eq!(v["job"], "cleanup");
    assert_eq!(v["path"], "jobs[0].schedule.every");
    assert!(v.get("line").is_none(), "line omitted when absent");
}

#[test]
fn a_place_is_given_as_line_and_col() {
    let d = Diagnostic::error("yaml.syntax", "m".to_owned(), ".".to_owned()).with_location(3, 5);
    let findings = vec![d];
    let report = build_report("p", 0, &findings);
    let v: serde_json::Value = serde_json::from_str(&render_json(&report)).unwrap();
    let expected: serde_json::Value = serde_json::from_str(
        r#"{"ok": false, "config_path": "p", "summary": {"jobs": 0, "errors": 1, "warnings": 0}, "diagnostics": [{"severity": "error", "code": "yaml.syntax", "message": "m", "path": ".", "line": 3, "col": 5}]}"#,
    )
    .unwrap();
    assert_eq!(v, expected);
}

#[test]
fn json_matches_golden() {
    let diags = vec![Diagnostic::error(
        "schedule.non_divisor",
        "every: 45m is not a divisor of 60".to_owned(),
        "jobs[0].schedule.every".to_owned(),
    )
    .with_job("cleanup".to_owned())];
    let report = build_report("~/.config/periodic/periodic.config.yaml", 1, &diags);
    let expected = r#"{
  "ok": false,
  "config_path": "~/.config/periodic/periodic.config.yaml",
  "summary": {
    "jobs": 1,
    "errors": 1,
    "warnings": 0
  },
  "diagnostics": [
    {
      "severity": "error",
      "code": "schedule.non_divisor",
      "message": "every: 45m is not a divisor of 60",
      "path": "jobs[0].schedule.every",
      "job": "cleanup"
    }
  ]
}"#;
    let got: serde_json::Value = serde_json::from_str(&render_json(&report)).unwrap();
    let want: serde_json::Value = serde_json::from_str(expected).unwrap();
    assert_eq!(got, want);
}

#[test]
fn ok_true_when_only_warnings() {
    let diags = vec![Diagnostic::warning(
        "timeout.very_long",
        "x".to_owned(),
        "jobs[0].timeout".to_owned(),
    )];
    let report = build_report("p", 1, &diags);
    assert!(report.ok, "warnings do not flip ok to false");
    assert_eq!(report.summary.warnings, 1);
}

#[test]
fn the_report_for_people_lists_the_findings() {
    let diags = vec![
        Diagnostic::error("a.b", "went wrong".to_owned(), "jobs[0]".to_owned()),
        Diagnostic::warning("c.d", "looks odd".to_owned(), "jobs[1]".to_owned()),
    ];
    let out = render_human(&build_report("p", 2, &diags));
    assert!(out.contains("went wrong"), "got {out}");
    assert!(out.contains("looks odd"), "got {out}");
}

// ---------------------------------------------------------------------------------- jobs

fn row(id: &str, state: &str, kind: &str, next: Option<&str>, hash: &str) -> JobStateRow {
    JobStateRow {
        job_id: id.to_owned(),
        state: state.to_owned(),
        schedule_kind: kind.to_owned(),
        next_run_at: next.map(str::to_owned),
        config_hash: hash.to_owned(),
        updated_at: "2026-06-20T09:00:00+00:00".to_owned(),
    }
}

#[test]
fn jobs_json_matches_golden() {
    let jobs = vec![
        row("alpha", "disabled", "calendar", None, "hash-a"),
        row(
            "beta",
            "active",
            "minute",
            Some("2026-06-20T09:15:00+00:00"),
            "hash-b",
        ),
    ];
    let v: serde_json::Value = serde_json::from_str(&render_jobs_json(&jobs)).unwrap();
    assert_eq!(v["jobs"].as_array().unwrap().len(), 2);
    assert_eq!(v["jobs"][0]["id"], "alpha");
    assert_eq!(v["jobs"][0]["state"], "disabled");
    assert!(v["jobs"][0]["next_run_at"].is_null());
    assert_eq!(v["jobs"][1]["next_run_at"], "2026-06-20T09:15:00+00:00");
    assert_eq!(v["jobs"][1]["config_hash"], "hash-b");
}

#[test]
fn job_json_wraps_in_job_key() {
    let json = render_job_json(&row("alpha", "active", "minute", None, "h"));
    assert!(json.contains("\"job\""), "got {json}");
    assert!(json.contains("\"id\": \"alpha\""), "got {json}");
}

#[test]
fn jobs_human_lists_ids_and_count() {
    let jobs = vec![
        row("alpha", "disabled", "calendar", None, "h"),
        row(
            "beta",
            "active",
            "minute",
            Some("2026-06-20T09:15:00+00:00"),
            "h",
        ),
    ];
    let out = render_jobs_human(&jobs);
    assert!(out.contains("alpha"));
    assert!(out.contains("beta"));
    assert!(out.contains("2 job(s)"));
    assert!(out.contains("—"), "missing next_run renders as em dash");
}

#[test]
fn jobs_human_handles_empty() {
    assert!(render_jobs_human(&vec![]).contains("no jobs configured"));
}

#[test]
fn job_human_shows_detail_fields() {
    let out = render_job_human(&row("alpha", "disabled", "calendar", None, "abc"));
    assert!(out.contains("alpha"));
    assert!(out.contains("disabled"));
    assert!(out.contains("—"));
}

// ---------------------------------------------------------------------------------- runs

fn outcome() -> RunOutcome {
    RunOutcome {
        id: "ok-1".to_owned(),
        job_id: "ok".to_owned(),
        status: RunStatus::Success,
        started_at: "s".to_owned(),
        finished_at: "f".to_owned(),
        exit_code: Some(0),
        attempts: 1,
    }
}

#[test]
fn run_json_has_run_envelope() {
    let json = render_run_json(&outcome());
    assert!(json.contains("\"run\""));
    assert!(json.contains("\"status\": \"success\""));
    assert!(render_run_human(&outcome()).contains("success"));
}

fn run_row() -> RunRow {
    RunRow {
        id: "ok-1".to_owned(),
        status: "success".to_owned(),
        trigger: "manual".to_owned(),
        started_at: None,
        finished_at: None,
        exit_code: Some(0),
    }
}

#[test]
fn history_after_run_lists_the_run() {
    let out = render_runs_human(&vec![run_row()]);
    assert_eq!(out, "ok-1  success  manual  \u{2014}\n\n1 run(s)\n");
}

#[test]
fn history_json_has_runs_array() {
    let v: serde_json::Value = serde_json::from_str(&render_runs_json(&vec![run_row()])).unwrap();
    assert_eq!(v["runs"][0]["exit_code"], 0);
}

#[test]
fn logs_empty_for_unrun_job() {
    assert!(render_logs_human(&vec![]).contains("no output"));
}

// ---------------------------------------------------------------------------------- json

#[test]
fn json_is_written_compact_and_pretty() {
    let j = object(vec![
        Field { name: "b".to_owned(), value: Json::Int(-1) },
        Field { name: "a".to_owned(), value: list(vec![Json::Count(2), Json::Null]) },
        Field { name: "c".to_owned(), value: Json::Text("x\"y\n".to_owned()) },
    ]);
    assert_eq!(to_compact(&j), "{\"b\":-1,\"a\":[2,null],\"c\":\"x\\\"y\\n\"}");
    assert_eq!(
        to_pretty(&object(vec![Field { name: "ok".to_owned(), value: Json::Bool(true) }])),
        "{\n  \"ok\": true\n}"
    );
}

// -------------------------------------------------------------------------------- doctor

const MORNING: Stamp = Stamp { secs: 1_700_000_000, nanos: 0 };

fn health(version: Option<i64>, expected: i64) -> DbHealth {
    DbHealth {
        path: "/tmp/periodic.db".to_owned(),
        schema_version: version,
        expected_version: expected,
    }
}

#[test]
fn not_created_is_informational_and_ok() {
    let (text, ok) = report(&health(None, 1));
    assert!(ok);
    assert!(text.contains("not yet created"), "got {text}");
}

#[test]
fn matching_schema_is_healthy() {
    let (text, ok) = report(&health(Some(1), 1));
    assert!(ok);
    assert!(text.contains("healthy"), "got {text}");
}

#[test]
fn older_schema_will_upgrade_and_is_ok() {
    let (text, ok) = report(&health(Some(1), 2));
    assert!(ok, "an older schema auto-migrates and is not a failure");
    assert!(
        text.contains("upgrade") || text.contains("migrate"),
        "got {text}"
    );
}

#[test]
fn newer_schema_is_a_problem() {
    let (text, ok) = report(&health(Some(3), 2));
    assert!(!ok, "a db newer than this build should fail the check");
    assert!(text.contains("newer"), "got {text}");
    assert_eq!(doctor_run(&health(Some(3), 2), &None, MORNING).1, 1);
}

#[test]
fn report_always_shows_the_path() {
    let (text, _) = report(&health(Some(1), 1));
    assert!(text.contains("/tmp/periodic.db"));
}

#[test]
fn doctor_reports_db_not_yet_created() {
    assert!(report(&health(None, 2)).0.contains("not yet created"));
    assert_eq!(doctor_run(&health(None, 2), &None, MORNING).1, 0);
}

#[test]
fn doctor_reports_healthy_after_db_is_created() {
    assert!(report(&health(Some(2), 2)).0.contains("healthy"));
    assert_eq!(doctor_run(&health(Some(2), 2), &None, MORNING).1, 0);
}

fn seen(state: &str, ago: i64) -> Option<DaemonStatus> {
    Some(DaemonStatus {
        pid: 77,
        state: state.to_owned(),
        heartbeat: Stamp { secs: MORNING.secs - ago, nanos: 0 },
    })
}

#[test]
fn doctor_reports_on_the_daemon() {
    assert_eq!(daemon_report(&None, MORNING), ("daemon: not running\n".to_owned(), true));
    assert_eq!(
        daemon_report(&seen("running", 1), MORNING),
        ("daemon: running (pid 77)\n".to_owned(), true)
    );
    assert_eq!(
        daemon_report(&seen("stopped", 10_000), MORNING),
        ("daemon: stopped\n".to_owned(), true)
    );
    let stale = "daemon: not responding (stale heartbeat; possible crash)\n";
    assert_eq!(
        daemon_report(&seen("running", 10_000), MORNING),
        (stale.to_owned(), false)
    );
    let (text, code) = doctor_run(&health(Some(2), 2), &seen("running", 10_000), MORNING);
    assert_eq!(
        text,
        format!("state database: healthy at /tmp/periodic.db (schema v2)\n{stale}")
    );
    assert_eq!(code, 1);
    assert_eq!(doctor_run(&health(Some(2), 2), &seen("running", 1), MORNING).1, 0);
}

#[test]
fn migrations_are_run_once_and_in_order() {
    assert_eq!(pending_migrations(0, 3), vec![1, 2, 3]);
    assert_eq!(pending_migrations(2, 3), vec![3]);
    assert!(pending_migrations(3, 3).is_empty());
    assert!(pending_migrations(9, 3).is_empty());
}

// -------------------------------------------------------------------------------- events

#[test]
fn emit_writes_event_row_with_type_and_ids() {
    let now = Stamp { secs: 1000, nanos: 0 };
    let row = emit(EventKind::RunStarted, "cleanup", "r1", None, "run started", now);
    assert_eq!(row.event_type, "run_started");
    assert_eq!(row.job_id, "cleanup");
    assert_eq!(row.run_id, "r1");
    assert_eq!(row.id, "ev-r1-run_started-1000000000");
    assert_eq!(row.created_at, "1970-01-01T00:16:40+00:00");
    assert_eq!(row.level, "info");
}

#[test]
fn event_kind_as_str_is_stable() {
    assert_eq!(EventKind::AttemptFailed.as_str(), "attempt_failed");
    assert_eq!(EventKind::RunTimeout.as_str(), "run_timeout");
}

#[test]
fn failures_are_recorded_as_errors() {
    let now = Stamp { secs: 1000, nanos: 2500 };
    let row = emit(EventKind::AttemptFailed, "j", "r1", Some("r1-1"), "exit 1", now);
    assert_eq!(row.level, "error");
    assert_eq!(row.id, "ev-r1-1-attempt_failed-1000000002");
    assert_eq!(row.attempt_id.as_deref(), Some("r1-1"));
    assert_eq!(utc(Stamp { secs: 0, nanos: 5_000_000 }), "1970-01-01T00:00:00.005+00:00");
}

// ------------------------------------------------------------------------------- service

#[test]
fn plist_path_is_under_launch_agents() {
    assert_eq!(
        plist_path("/Users/alice"),
        "/Users/alice/Library/LaunchAgents/com.dbtlr.periodic.daemon.plist"
    );
}

#[test]
fn unit_path_is_under_config_systemd_user() {
    assert_eq!(
        unit_path("/home/bob"),
        "/home/bob/.config/systemd/user/periodic.service"
    );
}

#[test]
fn plist_contains_label_exe_and_daemon_args() {
    let plist = plist_contents("/usr/local/bin/periodic", "/Users/alice/.local/state/periodic");
    assert!(plist.contains("com.dbtlr.periodic.daemon"));
    assert!(plist.contains("/usr/local/bin/periodic"));
    assert!(plist.contains("<string>daemon</string>"));
    assert!(plist.contains("<string>start</string>"));
    assert!(plist.contains("<string>--foreground</string>"));
}

#[test]
fn plist_sets_run_at_load_and_keep_alive() {
    let plist = plist_contents("/bin/periodic", "/tmp/logs");
    assert!(plist.contains("<key>RunAtLoad</key>"));
    assert!(plist.contains("<key>KeepAlive</key>"));
    assert!(plist.contains("/tmp/logs/daemon.out.log"));
    assert!(plist.contains("/tmp/logs/daemon.err.log"));
}

#[test]
fn unit_contains_execstart_args_restart_and_wantedby() {
    let unit = unit_contents("/usr/bin/periodic");
    assert!(unit.contains("ExecStart=/usr/bin/periodic daemon start --foreground"));
    assert!(unit.contains("Restart=on-failure"));
    assert!(unit.contains("WantedBy=default.target"));
}

#[test]
fn launchctl_status_parses_running_pid() {
    let blob = "{\n\t\"PID\" = 4242;\n\t\"Label\" = \"com.dbtlr.periodic.daemon\";\n}";
    let s = LaunchctlStatus::parse(blob);
    assert_eq!(s.pid, Some(4242));
    assert!(s.render(LAUNCHD_LABEL).contains("running (pid 4242"));
}

#[test]
fn launchctl_status_without_pid_is_loaded_not_running() {
    let blob = "{\n\t\"Label\" = \"com.dbtlr.periodic.daemon\";\n}";
    let s = LaunchctlStatus::parse(blob);
    assert_eq!(s.pid, None);
    assert!(s.render(LAUNCHD_LABEL).contains("loaded, not running"));
}

#[test]
fn launchctl_pids_that_are_no_numbers_are_passed_over() {
    assert_eq!(LaunchctlStatus::parse("\"PID\" = -;\n\"PID\" = -7;;").pid, Some(-7));
    assert_eq!(LaunchctlStatus::parse("\"PID\" = -+7;").pid, None);
    assert_eq!(LaunchctlStatus::parse("\"PID\" = 9223372036854775808;").pid, None);
    assert_eq!(
        LaunchctlStatus::parse("\"PID\" = -9223372036854775808;").pid,
        Some(i64::MIN)
    );
}

#[test]
fn systemctl_exit_codes_are_passed_on() {
    assert_eq!(status(Some(0)), 0);
    assert_eq!(status(Some(3)), 3);
    assert_eq!(status(Some(259)), 3);
    assert_eq!(status(Some(-1)), 255);
    assert_eq!(status(None), 1);
}

// --------------------------------------------------------------------------- odds and ends

#[test]
fn updates_ask_for_the_right_release() {
    assert!(matches!(requested(true, Some("v1".to_owned())), Release::Tag(t) if t == "v1"));
    assert!(matches!(requested(true, None), Release::LatestMaybePrerelease));
    assert!(matches!(requested(false, None), Release::Latest));
    assert_eq!(outcome_text(Some("1.2.3".to_owned())), "updated periodic to 1.2.3\n");
    assert_eq!(outcome_text(None), "periodic is already up to date\n");
}

#[test]
fn the_log_level_follows_the_flags() {
    assert_eq!(init_logging(true, true), "debug");
    assert_eq!(init_logging(false, true), "warn");
    assert_eq!(init_logging(false, false), "info");
}

#[test]
fn errors_read_as_sentences() {
    let logging = AppError::Logging("twice".to_owned());
    assert_eq!(logging.message(), "failed to initialize logging: twice");
    let dir = AppError::StateDir { path: "/x".to_owned(), source: "denied".to_owned() };
    assert_eq!(dir.message(), "failed to prepare state directory /x: denied");
    assert_eq!(AppError::Sqlite("locked".to_owned()).message(), "state database error: locked");
    assert_eq!(AppError::Io("gone".to_owned()).message(), "log I/O error: gone");
    let p = fail("bad", 2);
    assert_eq!((p.out.as_str(), p.err.as_str(), p.code), ("", "error: bad\n", 2));
}

#[test]
fn completion_requires_a_shell() {
    assert_eq!(completion_shell(None).unwrap_err().code, 2);
}

#[test]
fn completion_rejects_unknown_shell() {
    let p = completion_shell(Some("tcsh")).unwrap_err();
    assert_eq!(p.code, 2);
    assert!(p.err.contains("\"tcsh\""), "got {}", p.err);
}

#[test]
fn completion_knows_its_shells() {
    assert_eq!(completion_shell(Some("bash")).unwrap(), Shell::Bash);
    assert_eq!(completion_shell(Some("fish")).unwrap(), Shell::Fish);
    assert_eq!(completion_shell(Some("zsh")).unwrap(), Shell::Zsh);
}
