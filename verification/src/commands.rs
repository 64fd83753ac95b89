//! The decisions of the commands: what they print, which exit code they end with, and what
//! they ask of the daemon.

use crate::cli::{JobsAddArgs, OutputFormat};
use crate::config;
use crate::config::{normalize, EffectiveConfig, RawConfig};
use crate::config_mutation::Outcome;
use crate::diagnostics;
use crate::diagnostics::{Diagnostic, Severity};
use crate::executor::{RunOutcome, RunStatus};
use crate::ipc::{Request, Response};
use crate::job_block;
use crate::job_block::{build_block, derive_id};
use crate::json;
use crate::json::{field, object, to_pretty, Field, Json};
use crate::jobs_edit;
use crate::jobs_edit::EditResult;
use crate::logs::LogRecord;
use crate::output;
use crate::output::{
    build_report, render_human, render_job_human, render_job_json, render_jobs_human,
    render_jobs_json, render_json, Report,
};
use crate::run_report;
use crate::run_report::{
    render_logs_human, render_logs_json, render_run_human, render_run_json, render_runs_human,
    render_runs_json, RunRow,
};
use crate::state;
use crate::state::{DaemonStatus, JobStateRow};
use crate::text;
use crate::text::{quoted, same};
use crate::validation;
use crate::validation::{is_kebab, validate_config};
use vstd::prelude::*;
use vstd::string::*;

verus! {

/// What a command prints, on its output and for errors, and the exit code that it ends with.
#[derive(Debug)]
pub struct Printed {
    pub out: String,
    pub err: String,
    pub code: u8,
}

/// A [`Printed`] with its texts taken as characters.
#[verifier::ext_equal]
pub struct PrintedView {
    pub out: Seq<char>,
    pub err: Seq<char>,
    pub code: u8,
}

impl View for Printed {
    type V = PrintedView;

    open spec fn view(&self) -> PrintedView {
        PrintedView { out: self.out@, err: self.err@, code: self.code }
    }
}

/// A line on the output of a command that succeeded.
pub open spec fn success(line: Seq<char>) -> PrintedView {
    PrintedView { out: line + "\n"@, err: Seq::empty(), code: 0 }
}

/// An error, and the exit code for it.
pub open spec fn failure(message: Seq<char>, code: u8) -> PrintedView {
    PrintedView { out: Seq::empty(), err: "error: "@ + message + "\n"@, code }
}

fn succeed(line: String) -> (r: Printed)
    ensures
        r@ == success(line@),
{
    let mut out = line;
    out.append("\n");
    Printed { out, err: String::new(), code: 0 }
}

/// Prints an error, and ends with the exit code for it.
pub fn fail(message: &str, code: u8) -> (r: Printed)
    ensures
        r@ == failure(message@, code),
{
    let mut err = "error: ".to_owned();
    err.append(message);
    err.append("\n");
    Printed { out: String::new(), err, code }
}

/// The level to log at where the environment sets none.
pub fn init_logging(verbose: bool, quiet: bool) -> (r: &'static str)
    ensures
        r@ == (if verbose {
            "debug"@
        } else if quiet {
            "warn"@
        } else {
            "info"@
        }),
{
    if verbose {
        "debug"
    } else if quiet {
        "warn"
    } else {
        "info"
    }
}

// ----------------------------------------------------------------------------- validate

/// The findings of a config, or why it could not be read.
pub open spec fn findings_of(parsed: Result<RawConfig, Diagnostic>, found: Seq<bool>) -> Seq<
    diagnostics::DiagnosticView,
> {
    match parsed {
        Ok(config) => validation::config_findings(config, found),
        Err(d) => seq![d@],
    }
}

/// How many jobs were read.
pub open spec fn jobs_read(parsed: Result<RawConfig, Diagnostic>) -> nat {
    match parsed {
        Ok(config) => config.jobs@.len(),
        Err(_) => 0,
    }
}

/// Whether none of the findings is an error.
pub open spec fn free_of_errors(findings: Seq<diagnostics::DiagnosticView>) -> bool {
    forall|i: int|
        0 <= i < findings.len() ==> (#[trigger] findings[i]).severity != Severity::Error
}

/// Whether a report tells of the findings.
pub open spec fn is_report(
    report: Report,
    path: Seq<char>,
    jobs: nat,
    findings: Seq<diagnostics::DiagnosticView>,
) -> bool {
    &&& report.ok == free_of_errors(findings)
    &&& report.config_path@ == path
    &&& report.summary.jobs == jobs
    &&& report.summary.errors == output::error_count(findings)
    &&& report.summary.errors + report.summary.warnings == findings.len()
    &&& diagnostics::diagnostic_views(report.diagnostics@) == findings
}

/// The text of a report in a format.
pub open spec fn report_in(report: Report, format: OutputFormat) -> Seq<char> {
    match format {
        OutputFormat::Json => json::pretty_text(json::value_of(output::report_json(report))),
        OutputFormat::Human => output::report_text(report),
    }
}

/// Whether a config can be validated: of each job it is said whether its command was found.
pub open spec fn can_validate(parsed: Result<RawConfig, Diagnostic>, found: Seq<bool>) -> bool {
    parsed matches Ok(config) ==> found.len() == config.jobs@.len()
}

fn diagnose(parsed: &Result<RawConfig, Diagnostic>, found: &Vec<bool>) -> (r: Vec<Diagnostic>)
    requires
        can_validate(*parsed, found@),
    ensures
        diagnostics::diagnostic_views(r@) == findings_of(*parsed, found@),
{
    match parsed {
        Ok(config) => validate_config(config, found),
        Err(d) => {
            let mut v: Vec<Diagnostic> = Vec::new();
            v.push(d.duplicate());
            assert(diagnostics::diagnostic_views(v@) =~= seq![d@]);
            v
        },
    }
}

/// `validate`: prints a report of the findings, and fails where one of them is an error.
pub fn run_validate(
    path: &str,
    parsed: &Result<RawConfig, Diagnostic>,
    found: &Vec<bool>,
    format: OutputFormat,
) -> (r: Printed)
    requires
        can_validate(*parsed, found@),
    ensures
        r.err@.len() == 0,
        r.code == (if free_of_errors(findings_of(*parsed, found@)) {
            0u8
        } else {
            1
        }),
        exists|report: Report|
            is_report(report, path@, jobs_read(*parsed), findings_of(*parsed, found@)) && r.out@
                == #[trigger] report_in(report, format) + "\n"@,
{
    let jobs = match parsed {
        Ok(config) => config.jobs.len(),
        Err(_) => 0,
    };
    let findings = diagnose(parsed, found);
    let report = build_report(path, jobs, &findings);
    proof {
        let views = diagnostics::diagnostic_views(findings@);
        assert(views.len() == findings@.len());
        assert(report.ok == free_of_errors(views)) by {
            assert(forall|i: int| 0 <= i < views.len() ==> #[trigger] views[i] == findings@[i]@);
            if report.ok {
            } else {
                let i = choose|i: int|
                    0 <= i < findings@.len() && (#[trigger] findings@[i])@.severity
                        == Severity::Error;
                assert(views[i].severity == Severity::Error);
            }
        }
        assert(is_report(report, path@, jobs_read(*parsed), views));
    }
    let mut out = match format {
        OutputFormat::Json => render_json(&report),
        OutputFormat::Human => render_human(&report),
    };
    assert(out@ == report_in(report, format));
    out.append("\n");
    let code = if report.ok {
        0
    } else {
        1
    };
    Printed { out, err: String::new(), code }
}

// ------------------------------------------------------------------------ the valid config

/// Why a config cannot be used: it could not be read, or it has errors.
pub open spec fn config_problem(parsed: Result<RawConfig, Diagnostic>, found: Seq<bool>) -> Option<
    Seq<char>,
> {
    match parsed {
        Err(d) => Some("config invalid: "@ + d@.message + " ("@ + d@.path + ")"@),
        Ok(config) => if free_of_errors(validation::config_findings(config, found)) {
            None
        } else {
            Some("config invalid; run `periodic validate` for details"@)
        },
    }
}

/// Whether a config is the given one with every optional field resolved.
pub open spec fn is_resolved(config: RawConfig, resolved: EffectiveConfig) -> bool {
    &&& resolved.version == config.version
    &&& resolved.jobs@.len() == config.jobs@.len()
    &&& forall|i: int|
        0 <= i < resolved.jobs@.len() ==> (#[trigger] resolved.jobs@[i])@ == config::normalized_job(
            config.jobs@[i],
            config.defaults,
        )
}

/// The config, resolved, where it is valid; else why it cannot be used.
pub fn load_validated_config(parsed: &Result<RawConfig, Diagnostic>, found: &Vec<bool>) -> (r:
    Result<EffectiveConfig, String>)
    requires
        can_validate(*parsed, found@),
    ensures
        (match r {
            Ok(resolved) => config_problem(*parsed, found@) is None && (parsed matches Ok(config)
                && is_resolved(*config, resolved)),
            Err(problem) => config_problem(*parsed, found@) == Some(problem@),
        }),
{
    match parsed {
        Err(d) => {
            let mut problem = "config invalid: ".to_owned();
            problem.append(d.message.as_str());
            problem.append(" (");
            problem.append(d.path.as_str());
            problem.append(")");
            Err(problem)
        },
        Ok(config) => {
            let findings = validate_config(config, found);
            let ghost views = diagnostics::diagnostic_views(findings@);
            let mut i: usize = 0;
            while i < findings.len()
                invariant
                    i <= findings@.len(),
                    *parsed == Ok::<RawConfig, Diagnostic>(*config),
                    views == diagnostics::diagnostic_views(findings@),
                    views == validation::config_findings(*config, found@),
                    forall|k: int|
                        0 <= k < i ==> (#[trigger] views[k]).severity != Severity::Error,
                decreases findings.len() - i,
            {
                assert(views[i as int] == findings@[i as int]@);
                if findings[i].is_error() {
                    return Err("config invalid; run `periodic validate` for details".to_owned());
                }
                i += 1;
            }
            Ok(normalize(config))
        },
    }
}

/// Where the first job with an id stands.
pub open spec fn first_job(jobs: Seq<config::EffectiveJob>, id: Seq<char>) -> Option<int>
    decreases jobs.len(),
{
    if jobs.len() == 0 {
        None
    } else {
        match first_job(jobs.drop_last(), id) {
            Some(i) => Some(i),
            None => if text::opt_view(jobs.last().id) == Some(id) {
                Some(jobs.len() - 1)
            } else {
                None
            },
        }
    }
}

/// Where the first job with an id stands in the config.
pub fn find_job(config: &EffectiveConfig, id: &str) -> (r: Option<usize>)
    ensures
        (match r {
            Some(i) => i < config.jobs@.len() && first_job(config.jobs@, id@) == Some(i as int),
            None => first_job(config.jobs@, id@) is None,
        }),
{
    let mut i: usize = 0;
    let ghost jobs = config.jobs@;
    assert(first_job(jobs.take(0), id@) is None);
    while i < config.jobs.len()
        invariant
            i <= jobs.len(),
            jobs == config.jobs@,
            first_job(jobs.take(i as int), id@) is None,
        decreases config.jobs.len() - i,
    {
        proof {
            assert(jobs.take(i as int + 1).drop_last() =~= jobs.take(i as int));
            assert(jobs.take(i as int + 1).last() == jobs[i as int]);
        }
        let here = match &config.jobs[i].id {
            Some(own) => same(own.as_str(), id),
            None => false,
        };
        if here {
            proof {
                lemma_first_job_stays(jobs, id@, i as int + 1);
            }
            return Some(i);
        }
        i += 1;
    }
    assert(jobs.take(i as int) =~= jobs);
    None
}

proof fn lemma_first_job_stays(jobs: Seq<config::EffectiveJob>, id: Seq<char>, k: int)
    requires
        0 <= k <= jobs.len(),
        first_job(jobs.take(k), id) is Some,
    ensures
        first_job(jobs, id) == first_job(jobs.take(k), id),
    decreases jobs.len(),
{
    if k == jobs.len() {
        assert(jobs.take(k) =~= jobs);
    } else {
        assert(jobs.drop_last().take(k) =~= jobs.take(k));
        lemma_first_job_stays(jobs.drop_last(), id, k);
    }
}

/// Whether a job is the first one with the id.
pub open spec fn is_first_with_id(jobs: Seq<config::RawJob>, id: Seq<char>, at: int) -> bool {
    &&& 0 <= at < jobs.len()
    &&& text::opt_view(jobs[at].id) == Some(id)
    &&& forall|k: int| 0 <= k < at ==> text::opt_view((#[trigger] jobs[k]).id) != Some(id)
}

proof fn lemma_first_job(jobs: Seq<config::EffectiveJob>, id: Seq<char>)
    ensures
        (match first_job(jobs, id) {
            Some(at) => {
                &&& 0 <= at < jobs.len()
                &&& text::opt_view(jobs[at].id) == Some(id)
                &&& forall|k: int|
                    0 <= k < at ==> text::opt_view((#[trigger] jobs[k]).id) != Some(id)
            },
            None => forall|k: int|
                0 <= k < jobs.len() ==> text::opt_view((#[trigger] jobs[k]).id) != Some(id),
        }),
    decreases jobs.len(),
{
    if jobs.len() > 0 {
        let head = jobs.drop_last();
        lemma_first_job(head, id);
        match first_job(head, id) {
            Some(at) => {
                assert(jobs[at] == head[at]);
                assert forall|k: int| 0 <= k < at implies text::opt_view((#[trigger] jobs[k]).id)
                    != Some(id) by {
                    assert(jobs[k] == head[k]);
                }
            },
            None => {
                assert forall|k: int| 0 <= k < jobs.len() - 1 implies text::opt_view(
                    (#[trigger] jobs[k]).id,
                ) != Some(id) by {
                    assert(jobs[k] == head[k]);
                }
            },
        }
    }
}

/// `jobs run`: the resolved config and the place of the job in it, or why there is nothing to
/// run. Whether the job is enabled does not matter.
pub fn plan_run(parsed: &Result<RawConfig, Diagnostic>, found: &Vec<bool>, id: &str) -> (r: Result<
    (EffectiveConfig, usize),
    Printed,
>)
    requires
        can_validate(*parsed, found@),
    ensures
        (match config_problem(*parsed, found@) {
            Some(problem) => r matches Err(p) && p@ == failure(problem, 2),
            None => parsed matches Ok(config) && (match r {
                Ok((resolved, at)) => is_resolved(*config, resolved) && is_first_with_id(
                    config.jobs@,
                    id@,
                    at as int,
                ),
                Err(p) => p@ == failure("no such job: "@ + id@, 2) && forall|k: int|
                    0 <= k < config.jobs@.len() ==> text::opt_view(
                        (#[trigger] config.jobs@[k]).id,
                    ) != Some(id@),
            }),
        }),
{
    let resolved = match load_validated_config(parsed, found) {
        Ok(resolved) => resolved,
        Err(problem) => {
            return Err(fail(problem.as_str(), 2));
        },
    };
    proof {
        lemma_first_job(resolved.jobs@, id@);
        let config = parsed->Ok_0;
        assert forall|k: int| 0 <= k < config.jobs@.len() implies text::opt_view(
            (#[trigger] config.jobs@[k]).id,
        ) == text::opt_view(resolved.jobs@[k].id) by {
            assert(resolved.jobs@[k]@.id == text::opt_view(resolved.jobs@[k].id));
        }
    }
    match find_job(&resolved, id) {
        Some(at) => Ok((resolved, at)),
        None => Err(no_such_job(id, 2)),
    }
}

/// The error for a job that does not exist.
pub fn no_such_job(id: &str, code: u8) -> (r: Printed)
    ensures
        r@ == failure("no such job: "@ + id@, code),
{
    let mut message = "no such job: ".to_owned();
    message.append(id);
    fail(message.as_str(), code)
}

/// What a command prints of what it looked up: the text, or that there is no such job.
pub open spec fn looked_up(
    id: Seq<char>,
    known: bool,
    format: OutputFormat,
    human: Seq<char>,
    json: Seq<char>,
) -> PrintedView {
    if !known {
        failure("no such job: "@ + id, 1)
    } else {
        match format {
            OutputFormat::Human => PrintedView { out: human, err: Seq::empty(), code: 0 },
            OutputFormat::Json => PrintedView { out: json, err: Seq::empty(), code: 0 },
        }
    }
}

fn show(out: String) -> (r: Printed)
    ensures
        r@ == (PrintedView { out: out@, err: Seq::empty(), code: 0 }),
{
    Printed { out, err: String::new(), code: 0 }
}

/// `jobs run`: what is printed of a run that ended. The exit code is 0 only where it succeeded.
pub fn run_jobs_run(outcome: &RunOutcome, format: OutputFormat) -> (r: Printed)
    ensures
        r.out@ == (match format {
            OutputFormat::Human => run_report::outcome_text(*outcome),
            OutputFormat::Json => run_report::run_json_text(*outcome),
        }),
        r.err@ == Seq::<char>::empty(),
        r.code == (if outcome.status == RunStatus::Success {
            0u8
        } else {
            1
        }),
{
    let out = match format {
        OutputFormat::Human => render_run_human(outcome),
        OutputFormat::Json => render_run_json(outcome),
    };
    let code: u8 = match outcome.status {
        RunStatus::Success => 0,
        _ => 1,
    };
    Printed { out, err: String::new(), code }
}

/// `jobs list`: what is printed of the jobs.
pub fn run_jobs_list(jobs: &Vec<JobStateRow>, format: OutputFormat) -> (r: Printed)
    ensures
        r@ == success(
            match format {
                OutputFormat::Human => output::jobs_text(state::row_views(jobs@)),
                OutputFormat::Json => json::pretty_text(
                    json::value_of(output::jobs_json(state::row_views(jobs@))),
                ),
            },
        ),
{
    match format {
        OutputFormat::Human => succeed(render_jobs_human(jobs)),
        OutputFormat::Json => succeed(render_jobs_json(jobs)),
    }
}

/// `jobs status`: what is printed of one job.
pub fn run_jobs_status(id: &str, job: &Option<JobStateRow>, format: OutputFormat) -> (r: Printed)
    ensures
        r@ == (match *job {
            None => failure("no such job: "@ + id@, 1),
            Some(row) => match format {
                OutputFormat::Human => success(output::job_text(row@)),
                OutputFormat::Json => success(output::job_json_text(row@)),
            },
        }),
{
    match job {
        None => no_such_job(id, 1),
        Some(row) => match format {
            OutputFormat::Human => succeed(render_job_human(row)),
            OutputFormat::Json => succeed(render_job_json(row)),
        },
    }
}

/// `jobs history`: what is printed of a job's runs.
pub fn run_jobs_history(
    id: &str,
    known: bool,
    runs: &Vec<RunRow>,
    format: OutputFormat,
) -> (r: Printed)
    ensures
        r@ == looked_up(
            id@,
            known,
            format,
            run_report::runs_text(runs@),
            run_report::runs_json_text(runs@),
        ),
{
    if !known {
        return no_such_job(id, 1);
    }
    match format {
        OutputFormat::Human => show(render_runs_human(runs)),
        OutputFormat::Json => show(render_runs_json(runs)),
    }
}

/// `logs`: what is printed of a job's captured output. A known job without output is no error.
pub fn run_logs(
    id: &str,
    known: bool,
    records: &Vec<LogRecord>,
    format: OutputFormat,
) -> (r: Printed)
    ensures
        r@ == looked_up(
            id@,
            known,
            format,
            run_report::logs_text(records@),
            run_report::logs_json_text(records@),
        ),
{
    if !known {
        return no_such_job(id, 1);
    }
    match format {
        OutputFormat::Human => show(render_logs_human(records)),
        OutputFormat::Json => show(render_logs_json(records)),
    }
}

// --------------------------------------------------------------------------- completion

/// A shell that completions are written for.
#[derive(Debug, Clone, Copy, PartialEq, Eq, Structural)]
pub enum Shell {
    Bash,
    Fish,
    Zsh,
}

/// The shell with a name.
pub open spec fn shell_named(name: Seq<char>) -> Option<Shell> {
    if name == "bash"@ {
        Some(Shell::Bash)
    } else if name == "fish"@ {
        Some(Shell::Fish)
    } else if name == "zsh"@ {
        Some(Shell::Zsh)
    } else {
        None
    }
}

/// Why `completion` cannot tell which shell is meant.
pub open spec fn shell_problem(name: Option<Seq<char>>) -> Seq<char> {
    match name {
        Some(n) => "invalid value "@ + text::debug_text(n)
            + " for <SHELL>: possible values are bash, fish, zsh"@,
        None => "<SHELL> is required: bash, fish or zsh"@,
    }
}

/// The shell that `completion` is asked for. A name that is missing or not known is a usage
/// error.
pub fn completion_shell(name: Option<&str>) -> (r: Result<Shell, Printed>)
    ensures
        (match r {
            Ok(shell) => name matches Some(n) && shell_named(n@) == Some(shell),
            Err(p) => (name matches Some(n) ==> shell_named(n@) is None) && p@ == failure(
                shell_problem(config::opt_str_view(name)),
                2,
            ),
        }),
{
    match name {
        None => Err(fail("<SHELL> is required: bash, fish or zsh", 2)),
        Some(n) => {
            if same(n, "bash") {
                Ok(Shell::Bash)
            } else if same(n, "fish") {
                Ok(Shell::Fish)
            } else if same(n, "zsh") {
                Ok(Shell::Zsh)
            } else {
                let mut message = "invalid value ".to_owned();
                message.append(quoted(n).as_str());
                message.append(" for <SHELL>: possible values are bash, fish, zsh");
                Err(fail(message.as_str(), 2))
            }
        },
    }
}

// ------------------------------------------------------------------------------- reload

/// What `reload` does next.
#[derive(Debug)]
pub enum ReloadStep {
    /// End so.
    Done(Printed),
    /// Ask the daemon.
    Ask(Request),
}

/// `reload` with a valid config: a daemon that runs is asked to reload; without one the config
/// is read at the next start. An invalid config never gets that far.
pub fn run_reload(problem: Option<&str>, status: Option<&DaemonStatus>) -> (r: ReloadStep)
    ensures
        (match config::opt_str_view(problem) {
            Some(p) => r matches ReloadStep::Done(d) && d@ == failure(p, 1),
            None => if says_running(status) {
                r matches ReloadStep::Ask(req) && req.id@ == "reload"@ && req.method@
                    == "daemon.reload"@ && req.params@ == json::JsonView::Object(
                    Seq::<(Seq<char>, json::JsonView)>::empty(),
                )
            } else {
                r matches ReloadStep::Done(d) && d@ == success(
                    "config valid; daemon not running (applied on next start)"@,
                )
            },
        }),
{
    if let Some(p) = problem {
        return ReloadStep::Done(fail(p, 1));
    }
    if !is_running(status) {
        return ReloadStep::Done(
            succeed("config valid; daemon not running (applied on next start)".to_owned()),
        );
    }
    let fields: Vec<Field> = Vec::new();
    assert(json::field_views(fields@) =~= Seq::<(Seq<char>, json::JsonView)>::empty());
    ReloadStep::Ask(
        Request {
            id: "reload".to_owned(),
            method: "daemon.reload".to_owned(),
            params: object(fields),
        },
    )
}

/// Whether the daemon says that it is running.
pub open spec fn says_running(status: Option<&DaemonStatus>) -> bool {
    status matches Some(s) && s.state@ == "running"@
}

/// Whether the daemon says that it is running.
pub fn is_running(status: Option<&DaemonStatus>) -> (r: bool)
    ensures
        r == says_running(status),
{
    match status {
        Some(s) => same(s.state.as_str(), "running"),
        None => false,
    }
}

/// What `reload` prints of the daemon's answer.
pub fn finish_reload(answer: &Response) -> (r: Printed)
    ensures
        r@ == (match *answer {
            Response::Success { .. } => success("reload requested"@),
            Response::Failure { error, .. } => failure(
                "daemon refused reload: "@ + error.message@,
                1,
            ),
        }),
{
    match answer {
        Response::Success { .. } => succeed("reload requested".to_owned()),
        Response::Failure { error, .. } => {
            let mut message = "daemon refused reload: ".to_owned();
            message.append(error.message.as_str());
            fail(message.as_str(), 1)
        },
    }
}

// ---------------------------------------------------------------------------- mutations

/// Who makes a change: a running daemon owns the config; without one it is written directly.
#[derive(Debug, Clone, Copy, PartialEq, Eq, Structural)]
pub enum Owner {
    Daemon,
    Disk,
}

/// Who makes a change of the config.
pub fn dispatch_mutation(status: Option<&DaemonStatus>) -> (r: Owner)
    ensures
        r == (if says_running(status) {
            Owner::Daemon
        } else {
            Owner::Disk
        }),
{
    if is_running(status) {
        Owner::Daemon
    } else {
        Owner::Disk
    }
}

/// What is printed of a change: `line` for people, the object with `id` and `second` for
/// programs, or why it was refused.
pub open spec fn change_report(
    outcome: Outcome,
    format: OutputFormat,
    verb: Seq<char>,
    id: Seq<char>,
    second: (Seq<char>, json::JsonView),
) -> PrintedView {
    match outcome {
        Outcome::Refused(message) => failure(message@, 1),
        Outcome::Applied => match format {
            OutputFormat::Human => success(verb + ": "@ + id),
            OutputFormat::Json => success(
                json::pretty_text(
                    json::value_of(
                        json::JsonView::Object(seq![("id"@, json::JsonView::Text(id)), second]),
                    ),
                ),
            ),
        },
    }
}

fn report_change(
    outcome: &Outcome,
    format: OutputFormat,
    verb: &str,
    id: &str,
    name: &str,
    value: Json,
) -> (r: Printed)
    ensures
        r@ == change_report(*outcome, format, verb@, id@, (name@, value@)),
{
    match outcome {
        Outcome::Refused(message) => fail(message.as_str(), 1),
        Outcome::Applied => match format {
            OutputFormat::Human => {
                let mut line = verb.to_owned();
                line.append(": ");
                line.append(id);
                succeed(line)
            },
            OutputFormat::Json => {
                let ghost second = (name@, value@);
                let mut fields: Vec<Field> = Vec::new();
                fields.push(field("id", json::text(id)));
                fields.push(field(name, value));
                assert(json::field_views(fields@) =~= seq![
                    ("id"@, json::JsonView::Text(id@)),
                    second,
                ]);
                succeed(to_pretty(&object(fields)))
            },
        },
    }
}

/// What `jobs pause` and `jobs resume` print.
pub fn run_jobs_set_enabled(
    id: &str,
    enable: bool,
    outcome: &Outcome,
    format: OutputFormat,
) -> (r: Printed)
    ensures
        r@ == (if enable {
            change_report(
                *outcome,
                format,
                "Resumed"@,
                id@,
                ("state"@, json::JsonView::Text("active"@)),
            )
        } else {
            change_report(
                *outcome,
                format,
                "Paused"@,
                id@,
                ("state"@, json::JsonView::Text("disabled"@)),
            )
        }),
{
    if enable {
        report_change(outcome, format, "Resumed", id, "state", json::text("active"))
    } else {
        report_change(outcome, format, "Paused", id, "state", json::text("disabled"))
    }
}

/// What `jobs remove` prints.
pub fn run_jobs_remove(id: &str, outcome: &Outcome, format: OutputFormat) -> (r: Printed)
    ensures
        r@ == change_report(
            *outcome,
            format,
            "Removed"@,
            id@,
            ("removed"@, json::JsonView::Bool(true)),
        ),
{
    report_change(outcome, format, "Removed", id, "removed", Json::Bool(true))
}

/// Why `jobs add` makes no job of its arguments.
pub open spec fn add_problem(args: JobsAddArgs) -> Option<Seq<char>> {
    if args.command is None {
        Some(
            "--command is required (scaffolding into $EDITOR is not yet available; use `jobs edit`)"@,
        )
    } else if args.every is None && args.cron is None {
        Some("a schedule is required: pass --every (e.g. 15m, day) or --cron"@)
    } else {
        match job_block::id_for(
            text::opt_view(args.id),
            text::opt_view(args.title),
            text::opt_view(args.command),
        ) {
            None => Some("could not derive a job id from --title or --command; pass --id"@),
            Some(id) => if validation::kebab(id) {
                None
            } else {
                Some(
                    "invalid job id "@ + text::debug_text(id)
                        + ": job ids must be kebab-case (a-z, 0-9, -)"@,
                )
            },
        }
    }
}

/// `jobs add`: the id and the block of the job that the arguments make, or why they make none.
pub fn plan_add(args: &JobsAddArgs) -> (r: Result<(String, String), Printed>)
    ensures
        (match r {
            Ok((id, block)) => add_problem(*args) is None && job_block::id_for(
                text::opt_view(args.id),
                text::opt_view(args.title),
                text::opt_view(args.command),
            ) == Some(id@) && block@ == job_block::block_text(id@, *args),
            Err(p) => add_problem(*args) is Some && p@ == failure(add_problem(*args)->0, 1),
        }),
{
    if args.command.is_none() {
        return Err(
            fail(
                "--command is required (scaffolding into $EDITOR is not yet available; use `jobs edit`)",
                1,
            ),
        );
    }
    if args.every.is_none() && args.cron.is_none() {
        return Err(
            fail("a schedule is required: pass --every (e.g. 15m, day) or --cron", 1),
        );
    }
    match derive_id(args) {
        None => Err(
            fail("could not derive a job id from --title or --command; pass --id", 1),
        ),
        Some(id) => {
            if !is_kebab(id.as_str()) {
                let mut message = "invalid job id ".to_owned();
                message.append(quoted(id.as_str()).as_str());
                message.append(": job ids must be kebab-case (a-z, 0-9, -)");
                return Err(fail(message.as_str(), 1));
            }
            let block = build_block(id.as_str(), args);
            Ok((id, block))
        },
    }
}

/// What `jobs add` prints of the change.
pub fn run_jobs_add(id: &str, outcome: &Outcome, format: OutputFormat) -> (r: Printed)
    ensures
        r@ == change_report(
            *outcome,
            format,
            "Added"@,
            id@,
            ("added"@, json::JsonView::Bool(true)),
        ),
{
    report_change(outcome, format, "Added", id, "added", Json::Bool(true))
}

/// What `jobs edit` prints of how the edit loop ended; of an edit, once it has been saved.
pub fn finish_edit(result: &EditResult) -> (r: Printed)
    ensures
        r@ == (match *result {
            EditResult::NoChange => success("No changes"@),
            EditResult::Aborted => failure("edit aborted; config unchanged"@, 1),
            EditResult::Edited(_) => success("Config updated"@),
        }),
{
    match result {
        EditResult::NoChange => succeed("No changes".to_owned()),
        EditResult::Aborted => fail("edit aborted; config unchanged", 1),
        EditResult::Edited(_) => succeed("Config updated".to_owned()),
    }
}

// -------------------------------------------------------------------------------- laws

/// A valid config is one that `validate` ends with 0 for, and that can be used: the two agree
/// on what is valid.
pub proof fn lemma_validate_agrees_with_use(config: RawConfig, found: Seq<bool>)
    ensures
        free_of_errors(findings_of(Ok(config), found)) <==> config_problem(Ok(config), found)
            is None,
{
}

/// A config that an edit is saved with is one that can be used.
pub proof fn lemma_saved_edit_can_be_used(config: RawConfig, found: Seq<bool>)
    requires
        jobs_edit::errors_of(validation::config_findings(config, found)).len() == 0,
    ensures
        config_problem(Ok(config), found) is None,
{
    let findings = validation::config_findings(config, found);
    assert forall|i: int| 0 <= i < findings.len() implies (#[trigger] findings[i]).severity
        != Severity::Error by {
        let errors = jobs_edit::errors_of(findings);
        if findings[i].severity == Severity::Error {
            let is_error = |d: diagnostics::DiagnosticView| d.severity == Severity::Error;
            assert(is_error(findings[i]));
            findings.lemma_filter_contains(is_error, i);
            assert(errors =~= findings.filter(is_error));
        }
    }
}

/// A job that is added has a kebab-case id.
pub proof fn lemma_added_job_has_kebab_id(args: JobsAddArgs, id: Seq<char>)
    requires
        add_problem(args) is None,
        job_block::id_for(
            text::opt_view(args.id),
            text::opt_view(args.title),
            text::opt_view(args.command),
        ) == Some(id),
    ensures
        validation::kebab(id),
{
}

} // verus!
