//! What holds of every answer that the commands give: the exit codes, which side makes a change,
//! and how the health of the machine is told.

use crate::block_laws;
use crate::cli;
use crate::cli::{JobsAddArgs, OutputFormat};
use crate::commands;
use crate::commands::{Owner, Printed, ReloadStep, Shell};
use crate::config::{EffectiveConfig, EffectiveJob, RawConfig};
use crate::config_mutation;
use crate::config_mutation::{Mutation, Outcome};
use crate::diagnostics::{Diagnostic, DiagnosticView, Severity};
use crate::doctor;
use crate::ipc;
use crate::ipc::Response;
use crate::job_block;
use crate::jobs_edit;
use crate::jobs_edit::EditResult;
use crate::json;
use crate::lines;
use crate::output;
use crate::paths;
use crate::self_update;
use crate::self_update::Release;
use crate::service;
use crate::service::LaunchctlStatus;
use crate::state;
use crate::state::{DaemonStatus, DbHealth, JobStateRow, Stamp};
use crate::text;
use crate::text_laws;
use crate::validation;
use crate::validation::CommandProbe;
use vstd::prelude::*;

verus! {

// ----------------------------------------------------------------------------- changes

/// A change of a job is answered with exit code 0 where it was made and with 1 and the reason
/// where it was refused; in words it names what became of the job and which job it was.
pub proof fn lemma_change_decides_exit_code(
    id: &str,
    outcome: &Outcome,
    format: OutputFormat,
    paused: Printed,
    resumed: Printed,
    removed: Printed,
    added: Printed,
)
    requires
        call_ensures(commands::run_jobs_set_enabled, (id, false, outcome, format), paused),
        call_ensures(commands::run_jobs_set_enabled, (id, true, outcome, format), resumed),
        call_ensures(commands::run_jobs_remove, (id, outcome, format), removed),
        call_ensures(commands::run_jobs_add, (id, outcome, format), added),
    ensures
        outcome is Applied ==> paused.code == 0 && resumed.code == 0 && removed.code == 0
            && added.code == 0 && paused.err@.len() == 0 && resumed.err@.len() == 0
            && removed.err@.len() == 0 && added.err@.len() == 0,
        outcome matches Outcome::Refused(m) ==> {
            let told = "error: "@ + m@ + "\n"@;
            &&& paused.code == 1 && paused.err@ == told && paused.out@.len() == 0
            &&& resumed.code == 1 && resumed.err@ == told && resumed.out@.len() == 0
            &&& removed.code == 1 && removed.err@ == told && removed.out@.len() == 0
            &&& added.code == 1 && added.err@ == told && added.out@.len() == 0
        },
        outcome is Applied && format == OutputFormat::Human ==> {
            &&& paused.out@ == "Paused"@ + ": "@ + id@ + "\n"@
            &&& resumed.out@ == "Resumed"@ + ": "@ + id@ + "\n"@
            &&& removed.out@ == "Removed"@ + ": "@ + id@ + "\n"@
            &&& added.out@ == "Added"@ + ": "@ + id@ + "\n"@
        },
        outcome is Applied && format == OutputFormat::Json ==> {
            let named = ("id"@, json::JsonView::Text(id@));
            &&& paused.out@ == json::pretty_text(
                json::value_of(
                    json::JsonView::Object(
                        seq![named, ("state"@, json::JsonView::Text("disabled"@))],
                    ),
                ),
            ) + "\n"@
            &&& resumed.out@ == json::pretty_text(
                json::value_of(
                    json::JsonView::Object(
                        seq![named, ("state"@, json::JsonView::Text("active"@))],
                    ),
                ),
            ) + "\n"@
            &&& removed.out@ == json::pretty_text(
                json::value_of(
                    json::JsonView::Object(seq![named, ("removed"@, json::JsonView::Bool(true))]),
                ),
            ) + "\n"@
            &&& added.out@ == json::pretty_text(
                json::value_of(
                    json::JsonView::Object(seq![named, ("added"@, json::JsonView::Bool(true))]),
                ),
            ) + "\n"@
        },
{
}

/// To enable a job is to resume it, and to disable it is to pause it.
pub proof fn lemma_enabling_resumes(id: &str, enable: bool, r: Mutation)
    requires
        call_ensures(config_mutation::set_enabled_mutation, (id, enable), r),
    ensures
        enable ==> (r matches Mutation::Resume(i) && i@ == id@),
        !enable ==> (r matches Mutation::Pause(i) && i@ == id@),
{
}

/// The daemon makes a change exactly where it is recorded as running; otherwise the file is
/// changed in place.
pub proof fn lemma_running_daemon_owns_config(status: Option<&DaemonStatus>, r: Owner)
    requires
        call_ensures(commands::dispatch_mutation, (status,), r),
    ensures
        (r == Owner::Daemon) <==> (status matches Some(s) && s.state@ == "running"@),
        r == Owner::Daemon || r == Owner::Disk,
{
}

/// Edited text replaces the file only where the file still holds the text that was edited.
pub proof fn lemma_no_edit_is_lost(
    base: &str,
    now: &str,
    edited: String,
    r: Result<String, String>,
)
    requires
        call_ensures(config_mutation::replace_unless_changed, (base, now, edited), r),
    ensures
        r is Ok <==> now@ == base@,
        r matches Ok(out) ==> out@ == edited@,
        r matches Err(m) ==> m@
            == "the config changed on disk while it was being edited; nothing was saved"@,
{
}

/// A config may be saved exactly where it may be used, and is used exactly where it may be saved.
pub proof fn lemma_saved_is_used(
    parsed: Result<RawConfig, Diagnostic>,
    found: &Vec<bool>,
    refusal: Option<String>,
    loaded: Result<EffectiveConfig, String>,
)
    requires
        call_ensures(config_mutation::save_refusal, (parsed, found), refusal),
        call_ensures(commands::load_validated_config, (&parsed, found), loaded),
    ensures
        refusal is None <==> loaded is Ok,
{
    if let Ok(config) = parsed {
        let findings = validation::config_findings(config, found@);
        let errors = jobs_edit::errors_of(findings);
        if errors.len() == 0 {
            commands::lemma_saved_edit_can_be_used(config, found@);
        } else {
            let is_error = |d: DiagnosticView| d.severity == Severity::Error;
            assert(errors == findings.filter(is_error));
            assert(errors.contains(errors[0]));
            findings.lemma_filter_contains_rev(is_error, errors[0]);
            let k = choose|k: int| 0 <= k < findings.len() && findings[k] == errors[0];
            assert(findings[k].severity == Severity::Error);
        }
    }
}

// ------------------------------------------------------------------------------ a reload

/// A broken config is never handed to the daemon; a valid one is where the daemon runs, and where
/// it does not, that it is valid is success.
pub proof fn lemma_reload_needs_valid_config(
    problem: Option<&str>,
    status: Option<&DaemonStatus>,
    r: ReloadStep,
)
    requires
        call_ensures(commands::run_reload, (problem, status), r),
    ensures
        r is Ask <==> problem is None && (status matches Some(s) && s.state@ == "running"@),
        r matches ReloadStep::Ask(req) ==> req.method@ == "daemon.reload"@,
        problem matches Some(p) ==> (r matches ReloadStep::Done(d) && d.code == 1 && d.err@
            == "error: "@ + p@ + "\n"@ && d.out@.len() == 0),
        r matches ReloadStep::Done(d) ==> (problem is None ==> d.code == 0 && d.err@.len() == 0),
{
}

/// A reload fails exactly where the daemon refuses it.
pub proof fn lemma_refused_reload_fails(answer: &Response, r: Printed)
    requires
        call_ensures(commands::finish_reload, (answer,), r),
    ensures
        answer is Success ==> r.code == 0 && r.out@ == "reload requested"@ + "\n"@ && r.err@.len()
            == 0,
        answer matches Response::Failure { error, .. } ==> r.code == 1 && r.out@.len() == 0
            && r.err@ == "error: "@ + ("daemon refused reload: "@ + error.message@) + "\n"@,
{
}

// ------------------------------------------------------------------------------ a new job

/// A job is planned from the command line exactly where it has a command, a schedule, and an id
/// of lower-case letters, digits and hyphens, given or derived; else that is told and the exit
/// code is 1.
pub proof fn lemma_new_job_is_complete(args: &JobsAddArgs, r: Result<(String, String), Printed>)
    requires
        call_ensures(commands::plan_add, (args,), r),
    ensures
        args.command is None ==> r is Err,
        args.every is None && args.cron is None ==> r is Err,
        r matches Ok(planned) ==> (args.id matches Some(id) ==> planned.0@ == id@),
        r matches Ok(planned) ==> planned.0@.len() > 0 && forall|i: int|
            0 <= i < planned.0@.len() ==> {
                let c = #[trigger] planned.0@[i];
                'a' <= c <= 'z' || '0' <= c <= '9' || c == '-'
            },
        r matches Err(p) ==> p.code == 1 && p.out@.len() == 0,
        args.command is Some && (args.every is Some || args.cron is Some) && (args.id matches Some(
            id,
        ) && (id@.len() > 0 && forall|i: int|
            0 <= i < id@.len() ==> {
                let c = #[trigger] id@[i];
                'a' <= c <= 'z' || '0' <= c <= '9'
            })) ==> r is Ok,
{
}

/// An edit fails exactly where it was given up.
pub proof fn lemma_aborted_edit_fails(result: &EditResult, r: Printed)
    requires
        call_ensures(commands::finish_edit, (result,), r),
    ensures
        result is Aborted ==> r.code == 1 && r.out@.len() == 0 && r.err@ == "error: "@
            + "edit aborted; config unchanged"@ + "\n"@,
        result is NoChange ==> r.code == 0 && r.err@.len() == 0 && r.out@ == "No changes"@ + "\n"@,
        result is Edited ==> r.code == 0 && r.err@.len() == 0 && r.out@ == "Config updated"@
            + "\n"@,
{
}

/// The job that is run is the first of the config with the id; a config without one, or one that
/// is broken, is answered with exit code 2.
pub proof fn lemma_named_job_is_run(
    parsed: &Result<RawConfig, Diagnostic>,
    found: &Vec<bool>,
    id: &str,
    r: Result<(EffectiveConfig, usize), Printed>,
)
    requires
        call_ensures(commands::plan_run, (parsed, found, id), r),
    ensures
        r matches Ok(planned) ==> (*parsed matches Ok(config) && planned.1 < config.jobs@.len()
            && (config.jobs@[planned.1 as int].id matches Some(own) && own@ == id@) && forall|k: int|
            0 <= k < planned.1 ==> ((#[trigger] config.jobs@[k]).id matches Some(other) ==> other@
                != id@)),
        r matches Err(p) ==> p.code == 2 && p.out@.len() == 0,
        *parsed is Err ==> r is Err,
{
    if let Ok(planned) = r {
        if let Ok(config) = *parsed {
            let at = planned.1 as int;
            assert(text::opt_view(config.jobs@[at].id) == Some(id@));
        }
    }
}

// ------------------------------------------------------------------------------ switches

/// Being verbose goes before being quiet.
pub proof fn lemma_verbose_goes_first(verbose: bool, quiet: bool, r: &'static str)
    requires
        call_ensures(commands::init_logging, (verbose, quiet), r),
    ensures
        verbose ==> r@ == "debug"@,
        !verbose && quiet ==> r@ == "warn"@,
        !verbose && !quiet ==> r@ == "info"@,
{
}

/// A shell is chosen by its own name, and any other name is refused with exit code 2.
pub proof fn lemma_shell_has_its_name(name: &str, r: Result<Shell, Printed>)
    requires
        call_ensures(commands::completion_shell, (Some(name),), r),
    ensures
        r matches Ok(Shell::Bash) <==> name@ == "bash"@,
        r matches Ok(Shell::Fish) <==> name@ == "fish"@,
        r matches Ok(Shell::Zsh) <==> name@ == "zsh"@,
        r matches Err(p) ==> p.code == 2 && p.out@.len() == 0,
{
    reveal_strlit("bash");
    reveal_strlit("fish");
    reveal_strlit("zsh");
    assert("bash"@[0] == 'b' && "fish"@[0] == 'f' && "zsh"@[0] == 'z');
}

/// A release that is named goes before any other; without a name the latest is taken, and a
/// prerelease only where it was asked for.
pub proof fn lemma_named_release_goes_first(next: bool, tag: Option<String>, r: Release)
    requires
        call_ensures(self_update::requested, (next, tag), r),
    ensures
        tag matches Some(t) ==> (r matches Release::Tag(s) && s@ == t@),
        tag is None ==> (r is LatestMaybePrerelease <==> next),
        tag is None ==> (r is Latest <==> !next),
{
}

/// An update tells the new version, and none tells that nothing was to be done.
pub proof fn lemma_update_tells_version(new_version: Option<String>, r: String)
    requires
        call_ensures(self_update::outcome_text, (new_version,), r),
    ensures
        new_version matches Some(v) ==> r@ == "updated periodic to "@ + v@ + "\n"@,
        new_version is None ==> r@ == "periodic is already up to date\n"@,
{
}

// -------------------------------------------------------------------------------- health

/// The machine is unhealthy exactly where its database is newer than the program, or a daemon
/// that says it runs has been silent for more than ninety seconds.
pub proof fn lemma_health_decides_exit_code(
    health: &DbHealth,
    status: &Option<DaemonStatus>,
    now: Stamp,
    r: (String, u8),
)
    requires
        call_ensures(doctor::run, (health, status, now), r),
    ensures
        ({
            let newer = health.schema_version matches Some(v) && v > health.expected_version;
            let silent = *status matches Some(s) && s.state@ == "running"@ && (now.secs * 1000000000
                + now.nanos) - (s.heartbeat.secs * 1000000000 + s.heartbeat.nanos) > 90
                * 1000000000;
            &&& (r.1 == 1) <==> newer || silent
            &&& (r.1 == 0) <==> !newer && !silent
        }),
{
}

/// The report tells of the database that it is missing, current, older or newer, with the
/// versions, and of the daemon that it is missing, running, silent, or in the state that it gave.
pub proof fn lemma_health_is_told(
    health: &DbHealth,
    status: &Option<DaemonStatus>,
    now: Stamp,
    db: (String, bool),
    daemon: (String, bool),
    both: (String, u8),
)
    requires
        call_ensures(doctor::report, (health,), db),
        call_ensures(doctor::daemon_report, (status, now), daemon),
        call_ensures(doctor::run, (health, status, now), both),
    ensures
        both.0@ == db.0@ + daemon.0@,
        both.1 == 0 <==> db.1 && daemon.1,
        health.schema_version is None ==> db.0@ == "state database: not yet created at "@
            + health.path@ + " (created on first use)\n"@,
        health.schema_version matches Some(v) ==> {
            let shown = text::signed_decimal(v as int);
            let wanted = text::signed_decimal(health.expected_version as int);
            &&& v == health.expected_version ==> db.0@ == "state database: healthy at "@
                + health.path@ + " (schema v"@ + shown + ")\n"@
            &&& v < health.expected_version ==> db.0@ == "state database: at "@ + health.path@
                + ", schema v"@ + shown + " will upgrade to v"@ + wanted + " on next use\n"@
            &&& v > health.expected_version ==> db.0@ == "state database: at "@ + health.path@
                + ", schema v"@ + shown + " is newer than this build (expected v"@ + wanted
                + "); upgrade periodic\n"@
        },
        *status is None ==> daemon.0@ == "daemon: not running\n"@,
        *status matches Some(s) ==> {
            let silent = (now.secs * 1000000000 + now.nanos) - (s.heartbeat.secs * 1000000000
                + s.heartbeat.nanos) > 90 * 1000000000;
            &&& s.state@ != "running"@ ==> daemon.0@ == "daemon: "@ + s.state@ + "\n"@
            &&& s.state@ == "running"@ && silent ==> daemon.0@
                == "daemon: not responding (stale heartbeat; possible crash)\n"@
            &&& s.state@ == "running"@ && !silent ==> daemon.0@ == "daemon: running (pid "@
                + text::signed_decimal(s.pid as int) + ")\n"@
        },
{
}

/// The steps that bring a database up to date are those after its version, up to the last, each
/// once and in order.
pub proof fn lemma_migrations_follow_version(current: i64, count: usize, r: Vec<usize>)
    requires
        call_ensures(state::pending_migrations, (current, count), r),
        0 <= current,
        count < usize::MAX,
    ensures
        current >= count ==> r@.len() == 0,
        current <= count ==> r@.len() == count - current && forall|i: int|
            0 <= i < r@.len() ==> #[trigger] r@[i] == current + 1 + i,
{
    if current >= count {
        if r@.len() > 0 {
            assert(r@.contains(r@[0]));
        }
    } else {
        lemma_rising_block(r@, current as int, count as int);
    }
}

proof fn lemma_rising_block(s: Seq<usize>, low: int, high: int)
    requires
        0 <= low <= high < usize::MAX,
        forall|i: int, j: int| 0 <= i < j < s.len() ==> s[i] < s[j],
        forall|v: usize| #[trigger] s.contains(v) <==> low < v <= high,
    ensures
        s.len() == high - low,
        forall|i: int| 0 <= i < s.len() ==> #[trigger] s[i] == low + 1 + i,
    decreases high - low,
{
    if low == high {
        if s.len() > 0 {
            assert(s.contains(s[0]));
        }
    } else {
        let top = high as usize;
        assert(s.contains(top));
        let k = choose|k: int| 0 <= k < s.len() && s[k] == top;
        if k < s.len() - 1 {
            assert(s.contains(s[s.len() - 1]));
        }
        let head = s.drop_last();
        assert forall|v: usize| #[trigger] head.contains(v) <==> low < v <= high - 1 by {
            if head.contains(v) {
                let i = choose|i: int| 0 <= i < head.len() && head[i] == v;
                assert(s[i] == v);
                assert(s.contains(v));
            }
            if low < v <= high - 1 {
                assert(s.contains(v));
                let i = choose|i: int| 0 <= i < s.len() && s[i] == v;
                assert(head[i] == v);
            }
        }
        lemma_rising_block(head, low, high - 1);
        assert forall|i: int| 0 <= i < s.len() implies #[trigger] s[i] == low + 1 + i by {
            if i < s.len() - 1 {
                assert(head[i] == s[i]);
            }
        }
    }
}

/// Microseconds are counted from the epoch: a million for each second.
pub proof fn lemma_micros_count(at: Stamp, r: i64)
    requires
        call_ensures(Stamp::micros, (at,), r),
    ensures
        r == (at.secs * 1000000000 + at.nanos) / 1000,
{
}

// ------------------------------------------------------------------------------- service

/// The pid that is told is that of the first line which gives it in quotes and digits, with an
/// equals sign between and a semicolon after them; the lines before it, which do not begin with
/// that name, change nothing, and where no line begins with it there is no pid.
pub proof fn lemma_pid_is_read(
    before: Seq<Seq<char>>,
    indent: Seq<char>,
    n: nat,
    after: Seq<Seq<char>>,
    text: &str,
    r: LaunchctlStatus,
)
    requires
        n <= i64::MAX,
        text_laws::is_blank(indent),
        forall|i: int|
            0 <= i < before.len() ==> !seq!['"', 'P', 'I', 'D', '"'].is_prefix_of(
                text::trimmed(#[trigger] before[i]),
            ),
        lines::lines_of(text@) == before + seq![
            indent + seq!['"', 'P', 'I', 'D', '"', ' ', '=', ' '] + text::decimal(n) + seq![';'],
        ] + after || lines::lines_of(text@) == before,
        call_ensures(LaunchctlStatus::parse, (text,), r),
    ensures
        lines::lines_of(text@) == before ==> r.pid is None,
        lines::lines_of(text@) != before ==> r.pid == Some(n as i64),
{
    reveal_strlit("\"PID\"");
    assert("\"PID\""@ =~= seq!['"', 'P', 'I', 'D', '"']);
    let line = indent + seq!['"', 'P', 'I', 'D', '"', ' ', '=', ' '] + text::decimal(n) + seq![';'];
    lemma_pid_line(indent, n);
    if lines::lines_of(text@) == before {
        lemma_no_pid_before(before, Seq::empty());
        assert(before + Seq::<Seq<char>>::empty() =~= before);
    } else {
        lemma_no_pid_before(before, seq![line] + after);
        assert(before + (seq![line] + after) =~= before + seq![line] + after);
        assert((seq![line] + after)[0] == line);
    }
}

proof fn lemma_no_pid_before(before: Seq<Seq<char>>, rest: Seq<Seq<char>>)
    requires
        forall|i: int|
            0 <= i < before.len() ==> !("\"PID\""@.is_prefix_of(
                text::trimmed(#[trigger] before[i]),
            )),
    ensures
        service::pid_in_lines(before + rest) == service::pid_in_lines(rest),
    decreases before.len(),
{
    if before.len() == 0 {
        assert(before + rest =~= rest);
    } else {
        lemma_no_pid_before(before.drop_first(), rest);
        assert((before + rest).drop_first() =~= before.drop_first() + rest);
        assert((before + rest)[0] == before[0]);
    }
}

proof fn lemma_pid_line(indent: Seq<char>, n: nat)
    requires
        n <= i64::MAX,
        text_laws::is_blank(indent),
    ensures
        service::pid_in_line(
            indent + seq!['"', 'P', 'I', 'D', '"', ' ', '=', ' '] + text::decimal(n) + seq![';'],
        ) == Some(n as int),
{
    reveal_strlit("\"PID\"");
    let digits = text::decimal(n);
    let body = seq!['"', 'P', 'I', 'D', '"', ' ', '=', ' '] + digits + seq![';'];
    text::lemma_decimal_number(n);
    text_laws::lemma_white_space('"');
    text_laws::lemma_white_space(';');
    text_laws::lemma_trim_keeps_bare(body);
    text_laws::lemma_trim_ignores_blanks(indent, body, Seq::empty());
    assert(indent + body + Seq::<char>::empty() =~= indent + seq![
        '"', 'P', 'I', 'D', '"', ' ', '=', ' ',
    ] + digits + seq![';']);
    assert("\"PID\""@.is_prefix_of(body));
    let tail = body.skip(5);
    assert(tail =~= seq![' ', '=', ' '] + digits + seq![';']);
    assert(tail.drop_first() =~= seq!['=', ' '] + digits + seq![';']);
    assert(tail.drop_first().drop_first() =~= seq![' '] + digits + seq![';']);
    assert(tail.drop_first().drop_first().drop_first() =~= digits + seq![';']);
    reveal_with_fuel(service::after_equals, 4);
    assert(service::after_equals(tail) == digits + seq![';']);
    assert((digits + seq![';']).drop_last() =~= digits);
    reveal_with_fuel(service::before_semicolons, 2);
    text_laws::lemma_white_space(digits[0]);
    text_laws::lemma_white_space(digits.last());
    text_laws::lemma_trim_keeps_bare(digits);
    text_laws::lemma_signed_is_read(n as i64);
}

/// A service with a pid is told to run, under that pid, and one without is told to be loaded.
pub proof fn lemma_service_is_told(status: &LaunchctlStatus, label: &str, r: String)
    requires
        call_ensures(LaunchctlStatus::render, (status, label), r),
    ensures
        status.pid matches Some(pid) ==> r@ == "service: running (pid "@ + text::signed_decimal(
            pid as int,
        ) + ", "@ + label@ + ")\n"@,
        status.pid is None ==> r@ == "service: loaded, not running ("@ + label@ + ")\n"@,
{
}

/// The exit code of the service manager is passed on as it is, and a death by signal is told as
/// 1.
pub proof fn lemma_service_code_is_passed_on(code: Option<i32>, r: u8)
    requires
        call_ensures(service::status, (code,), r),
    ensures
        code matches Some(c) ==> (0 <= c < 256 ==> r == c),
        code is None ==> r == 1,
        code matches Some(c) ==> (c - r) % 256 == 0,
{
}

/// The service starts the program that it was installed with, as a daemon in the foreground.
pub proof fn lemma_service_starts_daemon(exe: &str, unit: String)
    requires
        call_ensures(service::unit_contents, (exe,), unit),
    ensures
        exists|a: Seq<char>, b: Seq<char>|
            unit@ == a + ("ExecStart="@ + exe@ + " daemon start --foreground\n"@) + b,
{
    let whole_a =
        "[Unit]\nDescription=periodic user-space job scheduler daemon\n\n[Service]\nExecStart="@;
    let whole_b =
        " daemon start --foreground\nRestart=on-failure\n\n[Install]\nWantedBy=default.target\n"@;
    reveal_strlit(
        "[Unit]\nDescription=periodic user-space job scheduler daemon\n\n[Service]\nExecStart=",
    );
    reveal_strlit(
        " daemon start --foreground\nRestart=on-failure\n\n[Install]\nWantedBy=default.target\n",
    );
    reveal_strlit("ExecStart=");
    reveal_strlit(" daemon start --foreground\n");
    let a = whole_a.take(whole_a.len() - 10);
    let b = whole_b.skip(27);
    assert(whole_a =~= a + "ExecStart="@);
    assert(whole_b =~= " daemon start --foreground\n"@ + b);
    assert(unit@ =~= a + ("ExecStart="@ + exe@ + " daemon start --foreground\n"@) + b);
}

// --------------------------------------------------------------------------------- paths

/// A path is joined with one slash between its parts where the first has none at its end, and
/// with none added where it is empty or has one.
pub proof fn lemma_path_is_joined(base: &str, rest: &str, r: String)
    requires
        call_ensures(paths::path_join, (base, rest), r),
    ensures
        base@.len() == 0 || base@.last() == '/' ==> r@ == base@ + rest@,
        base@.len() > 0 && base@.last() != '/' ==> r@ == base@ + seq!['/'] + rest@,
{
    reveal_strlit("/");
    assert("/"@ =~= seq!['/']);
}

/// The socket lies in the runtime directory where there is one, else under the home directory.
pub proof fn lemma_socket_lies_in_runtime(
    runtime: Option<&str>,
    home: Option<&str>,
    r: String,
    joined: String,
    base: &str,
    rest: &str,
)
    requires
        call_ensures(ipc::socket_path, (runtime, home), r),
        call_ensures(paths::path_join, (base, rest), joined),
        (match runtime {
            Some(dir) if dir@.len() > 0 => base@ == dir@ && rest@ == "periodic/periodic.sock"@,
            _ => (home matches Some(h) && base@ == h@) && rest@
                == ".config/periodic/run/periodic.sock"@,
        }),
    ensures
        r@ == joined@,
{
}

// ---------------------------------------------------------------------------- job status

/// The status of a job that is not known fails with exit code 1, and that of a known one is
/// success.
pub proof fn lemma_unknown_job_has_no_status(
    id: &str,
    job: &Option<JobStateRow>,
    format: OutputFormat,
    r: Printed,
)
    requires
        call_ensures(commands::run_jobs_status, (id, job, format), r),
    ensures
        *job is Some ==> r.code == 0 && r.err@.len() == 0,
        *job is None ==> r.code == 1 && r.out@.len() == 0 && r.err@ == "error: "@ + (
        "no such job: "@ + id@) + "\n"@,
{
}

// ------------------------------------------------------------------------ finding commands

/// A tilde and a slash at the front stand for the home directory, and nothing else does.
pub proof fn lemma_tilde_is_home(s: &str, home: Option<&str>, rest: Seq<char>, r: String)
    requires
        call_ensures(validation::shellexpand_tilde, (s, home), r),
    ensures
        s@ == seq!['~', '/'] + rest ==> (home matches Some(h) ==> r@ == h@ + seq!['/'] + rest),
        home is None ==> r@ == s@,
        s@.len() < 2 || s@[0] != '~' || s@[1] != '/' ==> r@ == s@,
{
    reveal_strlit("~/");
    reveal_strlit("/");
    assert("/"@ =~= seq!['/']);
    if s@ == seq!['~', '/'] + rest {
        assert("~/"@ =~= s@.take(2));
        assert("~/"@.is_prefix_of(s@));
        assert(s@.skip(2) =~= rest);
    }
    if "~/"@.is_prefix_of(s@) {
        assert(s@[0] == "~/"@[0] && s@[1] == "~/"@[1]);
    }
}

/// A command with a slash in its first word is looked for as a file, and any other by its name.
pub proof fn lemma_command_is_looked_for(
    word: Seq<char>,
    rest: Seq<char>,
    cmd: &str,
    home: Option<&str>,
    r: CommandProbe,
)
    requires
        call_ensures(validation::command_probe, (cmd, home), r),
        word.len() > 0,
        word[0] != '~',
        forall|i: int| 0 <= i < word.len() ==> !text::is_space(#[trigger] word[i]),
        cmd@ == word || cmd@ == word + seq![' '] + rest,
    ensures
        word.contains('/') ==> (r matches CommandProbe::File(p) && p@ == word),
        !word.contains('/') ==> (r matches CommandProbe::OnSearchPath(p) && p@ == word),
{
    reveal_strlit("~/");
    text_laws::lemma_white_space(' ');
    assert(cmd@[0] == word[0]);
    assert(text::trim_start(cmd@) == cmd@);
    if cmd@ == word {
        assert(word + Seq::<char>::empty() =~= word);
        block_laws::lemma_word_ends(word, Seq::empty());
    } else {
        assert(cmd@ =~= word + (seq![' '] + rest));
        block_laws::lemma_word_ends(word, seq![' '] + rest);
    }
    assert(cmd@.take(word.len() as int) =~= word);
    if "~/"@.is_prefix_of(word) {
        assert(word[0] == "~/"@[0]);
    }
}

// ------------------------------------------------------------------------------- places

/// The files of the program lie at fixed places under the home directory.
pub proof fn lemma_files_have_their_places(
    home: &str,
    config: String,
    db: String,
    logs: String,
    plist: String,
    unit: String,
)
    requires
        home@.len() > 0,
        home@.last() != '/',
        call_ensures(cli::default_config_path, (Some(home),), config),
        call_ensures(state::default_db_path, (Some(home),), db),
        call_ensures(service::log_dir, (home,), logs),
        call_ensures(service::plist_path, (home,), plist),
        call_ensures(service::unit_path, (home,), unit),
    ensures
        config@ == home@ + "/"@ + ".config/periodic/periodic.config.yaml"@,
        db@ == home@ + "/"@ + ".local/state/periodic/periodic.db"@,
        logs@ == home@ + "/"@ + ".local/state/periodic"@,
        plist@ == home@ + "/"@ + "Library/LaunchAgents"@ + "/"@ + ("com.dbtlr.periodic.daemon"@
            + ".plist"@),
        unit@ == home@ + "/"@ + ".config/systemd/user"@ + "/"@ + ("periodic"@ + ".service"@),
{
    reveal_strlit("Library/LaunchAgents");
    reveal_strlit(".config/systemd/user");
    let a = home@ + "/"@ + "Library/LaunchAgents"@;
    let b = home@ + "/"@ + ".config/systemd/user"@;
    assert(a.last() == "Library/LaunchAgents"@[19]);
    assert(b.last() == ".config/systemd/user"@[19]);
}

/// The socket and its directory are open to their owner alone.
pub proof fn lemma_socket_is_private()
    ensures
        ipc::DIR_MODE == 448,
        ipc::SOCK_MODE == 384,
{
}

/// The first field of an object with a name gives the text of that name.
pub proof fn lemma_first_field_counts(
    before: Seq<(Seq<char>, json::JsonView)>,
    name: Seq<char>,
    value: Seq<char>,
    after: Seq<(Seq<char>, json::JsonView)>,
)
    requires
        forall|i: int| 0 <= i < before.len() ==> (#[trigger] before[i]).0 != name,
    ensures
        json::text_field(
            json::JsonView::Object(before + seq![(name, json::JsonView::Text(value))] + after),
            name,
        ) == Some(value),
        json::text_field(json::JsonView::Object(before), name) is None,
    decreases before.len(),
{
    let all = before + seq![(name, json::JsonView::Text(value))] + after;
    if before.len() > 0 {
        lemma_first_field_counts(before.drop_first(), name, value, after);
        assert(all.drop_first() =~= before.drop_first() + seq![(name, json::JsonView::Text(value))]
            + after);
        assert(all[0] == before[0]);
    } else {
        assert(all[0] == (name, json::JsonView::Text(value)));
    }
}

// ------------------------------------------------------------------------------ wording

/// A config that cannot be used is refused with what is wrong with it where it cannot be read, and
/// otherwise with where to look.
pub proof fn lemma_unusable_config_is_told(
    parsed: &Result<RawConfig, Diagnostic>,
    found: &Vec<bool>,
    r: Result<EffectiveConfig, String>,
    id: &str,
    planned: Result<(EffectiveConfig, usize), Printed>,
)
    requires
        call_ensures(commands::load_validated_config, (parsed, found), r),
        call_ensures(commands::plan_run, (parsed, found, id), planned),
    ensures
        *parsed matches Err(d) ==> (r matches Err(m) && m@ == "config invalid: "@ + d.message@
            + " ("@ + d.path@ + ")"@),
        *parsed is Ok ==> (r matches Err(m) ==> m@
            == "config invalid; run `periodic validate` for details"@),
        r matches Err(m) ==> (planned matches Err(p) && p.err@ == "error: "@ + m@ + "\n"@),
        r is Ok ==> (planned matches Err(p) ==> p.err@ == "error: "@ + ("no such job: "@ + id@)
            + "\n"@),
{
}

/// What keeps a new job from being added is told in its own words: first that the command is
/// missing, next the schedule, next the id, and last that the id is no valid one.
pub proof fn lemma_incomplete_job_is_told(args: &JobsAddArgs, r: Result<(String, String), Printed>)
    requires
        call_ensures(commands::plan_add, (args,), r),
    ensures
        args.command is None ==> (r matches Err(p) && p.err@ == "error: "@
            + "--command is required (scaffolding into $EDITOR is not yet available; use `jobs edit`)"@
            + "\n"@),
        args.command is Some && args.every is None && args.cron is None ==> (r matches Err(p)
            && p.err@ == "error: "@
            + "a schedule is required: pass --every (e.g. 15m, day) or --cron"@ + "\n"@),
        args.command is Some && (args.every is Some || args.cron is Some) && args.id is None ==> (
        r matches Err(p) ==> p.err@ == "error: "@
            + "could not derive a job id from --title or --command; pass --id"@ + "\n"@),
        args.command is Some && (args.every is Some || args.cron is Some) ==> (args.id matches Some(
            id,
        ) ==> (r matches Err(p) ==> p.err@ == "error: "@ + ("invalid job id "@ + text::debug_text(
            id@,
        ) + ": job ids must be kebab-case (a-z, 0-9, -)"@) + "\n"@)),
{
    if args.id is None {
        job_block::lemma_derived_id_is_kebab(
            text::opt_view(args.title),
            text::opt_view(args.command),
        );
    }
}

/// A shell that is missing or not known is told with those that there are.
pub proof fn lemma_unknown_shell_is_told(name: Option<&str>, r: Result<Shell, Printed>)
    requires
        call_ensures(commands::completion_shell, (name,), r),
    ensures
        name is None ==> (r matches Err(p) && p.code == 2 && p.err@ == "error: "@
            + "<SHELL> is required: bash, fish or zsh"@ + "\n"@),
        name matches Some(n) ==> (r matches Err(p) ==> p.err@ == "error: "@ + ("invalid value "@
            + text::debug_text(n@) + " for <SHELL>: possible values are bash, fish, zsh"@) + "\n"@),
{
}

/// A valid config that no daemon runs on is told so.
pub proof fn lemma_reload_without_daemon_is_told(status: Option<&DaemonStatus>, r: ReloadStep)
    requires
        call_ensures(commands::run_reload, (None::<&str>, status), r),
        status matches Some(s) ==> s.state@ != "running"@,
    ensures
        r matches ReloadStep::Done(d) && d.out@
            == "config valid; daemon not running (applied on next start)"@ + "\n"@,
{
}

/// The list of jobs is printed as the table or as JSON, and is success.
pub proof fn lemma_job_list_is_printed(
    jobs: &Vec<JobStateRow>,
    human: Printed,
    json_printed: Printed,
    table: String,
    value: String,
)
    requires
        call_ensures(commands::run_jobs_list, (jobs, OutputFormat::Human), human),
        call_ensures(commands::run_jobs_list, (jobs, OutputFormat::Json), json_printed),
        call_ensures(output::render_jobs_human, (jobs,), table),
        call_ensures(output::render_jobs_json, (jobs,), value),
    ensures
        human.out@ == table@ + "\n"@ && human.err@.len() == 0 && human.code == 0,
        json_printed.out@ == value@ + "\n"@ && json_printed.err@.len() == 0 && json_printed.code
            == 0,
{
}

/// A job is found under its id: the first with it, and none only where no job has it.
pub proof fn lemma_first_job_is_found(config: &EffectiveConfig, id: &str, r: Option<usize>)
    requires
        call_ensures(commands::find_job, (config, id), r),
    ensures
        r matches Some(i) ==> i < config.jobs@.len() && (config.jobs@[i as int].id matches Some(own)
            && own@ == id@) && forall|k: int|
            0 <= k < i ==> ((#[trigger] config.jobs@[k]).id matches Some(other) ==> other@ != id@),
        r is None ==> forall|k: int|
            0 <= k < config.jobs@.len() ==> ((#[trigger] config.jobs@[k]).id matches Some(other)
                ==> other@ != id@),
{
    lemma_first_job(config.jobs@, id@);
}

proof fn lemma_first_job(jobs: Seq<EffectiveJob>, id: Seq<char>)
    ensures
        commands::first_job(jobs, id) matches Some(i) ==> 0 <= i < jobs.len() && (
        jobs[i].id matches Some(own) && own@ == id) && forall|k: int|
            0 <= k < i ==> ((#[trigger] jobs[k]).id matches Some(other) ==> other@ != id),
        commands::first_job(jobs, id) is None ==> forall|k: int|
            0 <= k < jobs.len() ==> ((#[trigger] jobs[k]).id matches Some(other) ==> other@ != id),
    decreases jobs.len(),
{
    if jobs.len() > 0 {
        let head = jobs.drop_last();
        lemma_first_job(head, id);
        match commands::first_job(head, id) {
            Some(i) => {
                assert(jobs[i] == head[i]);
                assert forall|k: int| 0 <= k < i implies ((#[trigger] jobs[k]).id matches Some(other)
                    ==> other@ != id) by {
                    assert(jobs[k] == head[k]);
                }
            },
            None => {
                assert forall|k: int| 0 <= k < jobs.len() - 1 implies (
                (#[trigger] jobs[k]).id matches Some(other) ==> other@ != id) by {
                    assert(jobs[k] == head[k]);
                }
            },
        }
    }
}

/// The service of macOS is started at login, kept alive, and runs the program as a daemon in the
/// foreground, with its output in the directory of the logs.
pub proof fn lemma_service_is_described(
    exe: &str,
    log_dir: &str,
    r: String,
    out_log: String,
    err_log: String,
)
    requires
        call_ensures(service::plist_contents, (exe, log_dir), r),
        call_ensures(paths::path_join, (log_dir, "daemon.out.log"), out_log),
        call_ensures(paths::path_join, (log_dir, "daemon.err.log"), err_log),
    ensures
        is_service_of(r@, exe@, out_log@, err_log@),
{
    let head =
        "<?xml version=\"1.0\" encoding=\"UTF-8\"?>\n<!DOCTYPE plist PUBLIC \"-//Apple//DTD PLIST 1.0//EN\" \"http://www.apple.com/DTDs/PropertyList-1.0.dtd\">\n<plist version=\"1.0\">\n<dict>\n"@;
    let tail = "</dict>\n</plist>\n"@;
    assert(r@ =~= head + service_entries(exe@, out_log@, err_log@) + tail);
}

/// The entries of a description: the label, the arguments, the two switches and the two logs.
pub open spec fn service_entries(
    exe: Seq<char>,
    out_log: Seq<char>,
    err_log: Seq<char>,
) -> Seq<char> {
    ("    <key>"@ + "Label"@ + "</key>\n    <string>"@ + "com.dbtlr.periodic.daemon"@
        + "</string>\n"@) + ("    <key>ProgramArguments</key>\n    <array>\n        <string>"@ + exe
        + "</string>\n        <string>daemon</string>\n        <string>start</string>\n        <string>--foreground</string>\n    </array>\n"@)
        + ("    <key>"@ + "RunAtLoad"@ + "</key>\n    <true/>\n"@) + ("    <key>"@ + "KeepAlive"@
        + "</key>\n    <true/>\n"@) + ("    <key>"@ + "StandardOutPath"@
        + "</key>\n    <string>"@ + out_log + "</string>\n"@) + ("    <key>"@ + "StandardErrorPath"@
        + "</key>\n    <string>"@ + err_log + "</string>\n"@)
}

/// Whether a text describes the service of a program, with its output in the two files.
pub open spec fn is_service_of(
    s: Seq<char>,
    exe: Seq<char>,
    out_log: Seq<char>,
    err_log: Seq<char>,
) -> bool {
    exists|head: Seq<char>, tail: Seq<char>|
        s == #[trigger] (head + service_entries(exe, out_log, err_log) + tail)
}

} // verus!
