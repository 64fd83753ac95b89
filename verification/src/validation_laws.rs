//! What holds of every config that is checked: which schedules, times, ids, commands, timeouts and
//! retries are found fault with, how gravely, and where.

use crate::cli::OutputFormat;
use crate::commands;
use crate::commands::Printed;
use crate::config;
use crate::config::{EffectiveConfig, IntervalView, RawConfig, RawJob};
use crate::cron;
use crate::diagnostics;
use crate::diagnostics::{Diagnostic, DiagnosticView, Severity};
use crate::output;
use crate::schedule_laws;
use crate::text;
use crate::text_laws;
use crate::validation;
use crate::zone;
use vstd::prelude::*;

verus! {

// ------------------------------------------------------------------------------ the parts

/// A job id is in order where it is not empty and holds small letters, digits and dashes alone.
pub proof fn lemma_ids_in_order(s: &str, r: bool)
    requires
        call_ensures(validation::is_kebab, (s,), r),
    ensures
        r <==> (s@.len() > 0 && forall|i: int|
            0 <= i < s@.len() ==> ('a' <= #[trigger] s@[i] <= 'z' || '0' <= s@[i] <= '9' || s@[i]
                == '-')),
{
    if r {
        assert forall|i: int| 0 <= i < s@.len() implies ('a' <= #[trigger] s@[i] <= 'z' || '0'
            <= s@[i] <= '9' || s@[i] == '-') by {
            assert(validation::kebab_char(s@[i]));
        }
    } else if s@.len() > 0 {
        let i = choose|i: int| 0 <= i < s@.len() && !validation::kebab_char(#[trigger] s@[i]);
        assert(!('a' <= s@[i] <= 'z' || '0' <= s@[i] <= '9' || s@[i] == '-'));
    }
}

/// A time of day is in order exactly where a day has the hour and the hour the minute.
pub proof fn lemma_times_in_order(s: &str, h: nat, m: nat, r: bool)
    requires
        call_ensures(validation::is_valid_hhmm, (s,), r),
    ensures
        s@ == text::decimal(h) + seq![':'] + text::decimal(m) ==> (r <==> h < 24 && m < 60),
        !s@.contains(':') ==> !r,
{
    if s@ == text::decimal(h) + seq![':'] + text::decimal(m) {
        schedule_laws::lemma_colon(text::decimal(h), text::decimal(m), h);
        text_laws::lemma_number_is_read(h, u32::MAX as nat);
        text_laws::lemma_number_is_read(m, u32::MAX as nat);
    }
    text::lemma_find(s@, ':');
}

/// A token of `every` is in order where it is a name, or counts minutes that divide the hour or
/// hours that divide the day; else there is one error about it.
pub proof fn lemma_tokens_in_order(base: Seq<char>, id: Option<Seq<char>>, token: Seq<char>)
    ensures
        ({
            let found = validation::token_findings(base, id, token);
            let divides = match config::every_interval(token) {
                Some(IntervalView::Minutes(n)) => n > 0 && 60int % (n as int) == 0,
                Some(IntervalView::Hours(n)) => n > 0 && 24int % (n as int) == 0,
                Some(IntervalView::Named(_)) => true,
                None => false,
            };
            &&& divides ==> found.len() == 0
            &&& !divides ==> found.len() == 1 && found[0].severity == Severity::Error
                && found[0].code == (if config::every_interval(token) is None {
                "schedule.invalid"@
            } else {
                "schedule.non_divisor"@
            }) && found[0].path == base + ".every"@ && found[0].job == id
        }),
{
}

/// Every token of a list is checked, in order.
pub proof fn lemma_each_token_is_checked(
    base: Seq<char>,
    id: Option<Seq<char>>,
    tokens: Seq<Seq<char>>,
    token: Seq<char>,
)
    ensures
        validation::tokens_findings(base, id, tokens.push(token)) == validation::tokens_findings(
            base,
            id,
            tokens,
        ) + validation::token_findings(base, id, token),
        validation::tokens_findings(base, id, Seq::empty()).len() == 0,
{
    assert(tokens.push(token).drop_last() =~= tokens);
}

proof fn lemma_no_token_findings(base: Seq<char>, id: Option<Seq<char>>, tokens: Seq<Seq<char>>)
    ensures
        validation::tokens_findings(base, id, tokens).len() == 0 <==> forall|i: int|
            0 <= i < tokens.len() ==> validation::token_findings(
                base,
                id,
                #[trigger] tokens[i],
            ).len() == 0,
    decreases tokens.len(),
{
    if tokens.len() > 0 {
        let front = tokens.drop_last();
        lemma_no_token_findings(base, id, front);
        if validation::tokens_findings(base, id, tokens).len() == 0 {
            assert forall|i: int| 0 <= i < tokens.len() implies validation::token_findings(
                base,
                id,
                #[trigger] tokens[i],
            ).len() == 0 by {
                if i < front.len() {
                    assert(front[i] == tokens[i]);
                }
            }
        } else if forall|i: int|
            0 <= i < tokens.len() ==> validation::token_findings(
                base,
                id,
                #[trigger] tokens[i],
            ).len() == 0 {
            assert forall|i: int| 0 <= i < front.len() implies validation::token_findings(
                base,
                id,
                #[trigger] front[i],
            ).len() == 0 by {
                assert(front[i] == tokens[i]);
            }
            assert(validation::token_findings(base, id, tokens[tokens.len() - 1]).len() == 0);
        }
    }
}

// --------------------------------------------------------------------------- the schedule

/// Whether a token of `every` counts what divides the hour or the day, or is a name.
pub open spec fn is_sound_token(token: Seq<char>) -> bool {
    match config::every_interval(token) {
        Some(IntervalView::Minutes(n)) => n > 0 && 60int % (n as int) == 0,
        Some(IntervalView::Hours(n)) => n > 0 && 24int % (n as int) == 0,
        Some(IntervalView::Named(_)) => true,
        None => false,
    }
}

/// Nothing is found with a schedule exactly where it has one of `every` and `cron`, not both the
/// day of the month and the last day, a day of the month that there is, tokens, a time and an
/// expression that are in order, and a zone that is known or the machine's. All that is found is
/// an error, about the job.
pub proof fn lemma_schedule_in_order(idx: int, job: RawJob)
    ensures
        ({
            let s = job.schedule;
            validation::schedule_findings(idx, job).len() == 0 <==> {
                &&& (s.every is Some) != (s.cron is Some)
                &&& !(s.on_day is Some && s.last_day == Some(true))
                &&& s.on_day matches Some(d) ==> 1 <= d <= 31
                &&& s.every matches Some(e) ==> forall|i: int|
                    0 <= i < config::every_tokens(e).len() ==> is_sound_token(
                        #[trigger] config::every_tokens(e)[i],
                    )
                &&& s.at matches Some(t) ==> validation::valid_hhmm(t@)
                &&& s.cron matches Some(c) ==> cron::cron_valid(c@)
                &&& s.timezone matches Some(z) ==> z@ == "local"@ || zone::zone_known(z@)
            }
        }),
{
    let base = validation::job_path(idx, ".schedule"@);
    let id = text::opt_view(job.id);
    let s = job.schedule;
    if let Some(e) = s.every {
        let tokens = config::every_tokens(e);
        lemma_no_token_findings(base, id, tokens);
        if validation::tokens_findings(base, id, tokens).len() == 0 {
            assert forall|i: int| 0 <= i < tokens.len() implies is_sound_token(
                #[trigger] tokens[i],
            ) by {
                lemma_tokens_in_order(base, id, tokens[i]);
                assert(validation::token_findings(base, id, tokens[i]).len() == 0);
            }
        } else {
            let i = choose|i: int|
                0 <= i < tokens.len() && validation::token_findings(
                    base,
                    id,
                    #[trigger] tokens[i],
                ).len() != 0;
            lemma_tokens_in_order(base, id, tokens[i]);
            assert(!is_sound_token(tokens[i]));
        }
    }
    lemma_seven(
        validation::shape_findings(base, id, s),
        validation::on_day_findings(base, id, s.on_day),
        validation::every_findings(base, id, s.every),
        validation::at_findings(base, id, text::opt_view(s.at)),
        validation::cron_findings(base, id, text::opt_view(s.cron)),
        validation::timezone_findings(base, id, text::opt_view(s.timezone)),
    );
    assert(validation::shape_findings(base, id, s).len() == 0 <==> ((s.every is Some) != (
    s.cron is Some) && !(s.on_day is Some && s.last_day == Some(true))));
}

proof fn lemma_seven(
    a: Seq<DiagnosticView>,
    b: Seq<DiagnosticView>,
    c: Seq<DiagnosticView>,
    d: Seq<DiagnosticView>,
    e: Seq<DiagnosticView>,
    f: Seq<DiagnosticView>,
)
    ensures
        (a + b + c + d + e + f).len() == a.len() + b.len() + c.len() + d.len() + e.len() + f.len(),
{
}

// -------------------------------------------------------------------------------- the job

/// What is found with a job beside its schedule: an id that is not in order, a command that is
/// missing or blank, or that the machine does not have (which is only a warning), a timeout that
/// is none, or longer than a day (which is only a warning), and a negative count of retries.
#[verifier::rlimit(40)]
pub proof fn lemma_job_in_order(idx: int, job: RawJob, found: bool)
    ensures
        ({
            let blank = job.execution.command matches Some(c) ==> text::trimmed(c@).len() == 0;
            let secs = match job.timeout {
                Some(t) => config::duration_seconds(t@),
                None => Some(0u64),
            };
            let all = validation::job_findings(idx, job, found);
            let errors = all.filter(|d: DiagnosticView| d.severity == Severity::Error);
            &&& all.len() == 0 <==> {
                &&& job.id matches Some(id) ==> validation::kebab(id@)
                &&& !blank && found
                &&& secs matches Some(n) && n <= 86400
                &&& job.retry matches Some(r) ==> (r.max_retries matches Some(n) ==> n >= 0)
            }
            &&& errors.len() == 0 <==> {
                &&& job.id matches Some(id) ==> validation::kebab(id@)
                &&& !blank
                &&& secs is Some
                &&& job.retry matches Some(r) ==> (r.max_retries matches Some(n) ==> n >= 0)
            }
        }),
{
    let id = text::opt_view(job.id);
    let a = validation::id_findings(idx, id);
    let b = validation::command_findings(idx, id, text::opt_view(job.execution.command), found);
    let c = validation::timeout_findings(idx, id, text::opt_view(job.timeout));
    let d = validation::retry_findings(idx, id, config::retries_of(job.retry));
    let grave = |d: DiagnosticView| d.severity == Severity::Error;
    lemma_filter_concat(a + b + c, d);
    lemma_filter_concat(a + b, c);
    lemma_filter_concat(a, b);
    lemma_filter_short(a);
    lemma_filter_short(b);
    lemma_filter_short(c);
    lemma_filter_short(d);
}

proof fn lemma_filter_short(s: Seq<DiagnosticView>)
    ensures
        s.len() == 0 ==> s.filter(|d: DiagnosticView| d.severity == Severity::Error).len() == 0,
        s.len() == 1 ==> s.filter(|d: DiagnosticView| d.severity == Severity::Error).len() == (
        if s[0].severity == Severity::Error {
            1int
        } else {
            0
        }),
{
    reveal_with_fuel(Seq::filter, 3);
    let grave = |d: DiagnosticView| d.severity == Severity::Error;
    if s.len() == 1 {
        assert(s.drop_last() =~= Seq::empty());
        assert(s.drop_last().filter(grave).len() == 0);
    }
}

proof fn lemma_filter_concat(a: Seq<DiagnosticView>, b: Seq<DiagnosticView>)
    ensures
        (a + b).filter(|d: DiagnosticView| d.severity == Severity::Error).len() == a.filter(
            |d: DiagnosticView| d.severity == Severity::Error,
        ).len() + b.filter(|d: DiagnosticView| d.severity == Severity::Error).len(),
    decreases b.len(),
{
    reveal(Seq::filter);
    let grave = |d: DiagnosticView| d.severity == Severity::Error;
    if b.len() == 0 {
        assert(a + b =~= a);
    } else {
        assert((a + b).drop_last() =~= a + b.drop_last());
        assert((a + b).last() == b.last());
        lemma_filter_concat(a, b.drop_last());
    }
}

/// Where each fault of a job is found, under which code, and how grave it is.
pub proof fn lemma_faults_of_a_job(
    idx: int,
    id: Option<Seq<char>>,
    command: Option<Seq<char>>,
    found: bool,
    timeout: Option<Seq<char>>,
    max_retries: Option<i64>,
    i: int,
)
    ensures
        ({
            let at = "jobs["@ + text::decimal(idx as nat) + "]"@;
            let named = validation::id_findings(idx, id);
            let run = validation::command_findings(idx, id, command, found);
            let limit = validation::timeout_findings(idx, id, timeout);
            let again = validation::retry_findings(idx, id, max_retries);
            &&& named.len() <= 1 && run.len() <= 1 && limit.len() <= 1 && again.len() <= 1
            &&& 0 <= i < named.len() ==> named[i].code == "job.id_invalid"@ && named[i].path == at
                + ".id"@ && named[i].severity == Severity::Error && named[i].job == id
            &&& 0 <= i < run.len() ==> run[i].path == at + ".execution.command"@ && run[i].job == id
                && ((run[i].severity == Severity::Warning) <==> (command matches Some(c)
                && text::trimmed(c).len() > 0)) && run[i].code == (if run[i].severity
                == Severity::Warning {
                "execution.not_found"@
            } else {
                "execution.command_missing"@
            })
            &&& 0 <= i < limit.len() ==> limit[i].path == at + ".timeout"@ && limit[i].job == id && ((
            limit[i].severity == Severity::Error) <==> (timeout matches Some(t)
                && config::duration_seconds(t) is None)) && limit[i].code == (if limit[i].severity
                == Severity::Warning {
                "timeout.very_long"@
            } else {
                "duration.invalid"@
            })
            &&& 0 <= i < again.len() ==> again[i].path == at + ".retry.max_retries"@
                && again[i].severity == Severity::Error && again[i].code == "field.type"@
        }),
{
}

/// A job whose id another one before it has is an error, and only such a one; a config of another
/// version than 1 is one, too.
pub proof fn lemma_duplicates_and_version(jobs: Seq<RawJob>, idx: int, version: u32)
    requires
        0 <= idx < jobs.len(),
    ensures
        ({
            let found = validation::duplicate_findings(jobs, idx);
            let repeated = jobs[idx].id matches Some(id) && exists|j: int|
                0 <= j < idx && ((#[trigger] jobs[j]).id matches Some(other) && other@ == id@);
            &&& (found.len() == 1) <==> repeated
            &&& (found.len() == 0) <==> !repeated
            &&& repeated ==> found[0].severity == Severity::Error && found[0].code
                == "job.id_duplicate"@ && found[0].path == "jobs["@ + text::decimal(idx as nat)
                + "]"@ + ".id"@
        }),
        (validation::version_findings(version).len() == 0) <==> version == 1,
        version != 1 ==> validation::version_findings(version)[0].severity == Severity::Error,
{
    if let Some(id) = jobs[idx].id {
        if exists|j: int|
            0 <= j < idx && ((#[trigger] jobs[j]).id matches Some(other) && other@ == id@) {
            let j = choose|j: int|
                0 <= j < idx && ((#[trigger] jobs[j]).id matches Some(other) && other@ == id@);
            assert(text::opt_view(jobs[j].id) == text::opt_view(jobs[idx].id));
        }
        if validation::repeats_id(jobs, idx) {
            let j = choose|j: int|
                0 <= j < idx && text::opt_view(#[trigger] jobs[j].id) == text::opt_view(
                    jobs[idx].id,
                );
            assert(jobs[j].id matches Some(other) && other@ == id@);
        }
    }
}

// ---------------------------------------------------------------------------- the whole

/// The findings of a config are those of its version, and then those of each job in turn: of its
/// schedule, of its other fields, and of its id among the others.
pub proof fn lemma_each_job_is_checked(
    config: &RawConfig,
    found: &Vec<bool>,
    out: Vec<Diagnostic>,
    j: int,
    d: DiagnosticView,
)
    requires
        call_ensures(validation::validate_config, (config, found), out),
        0 <= j < config.jobs@.len(),
    ensures
        validation::schedule_findings(j, config.jobs@[j]).contains(d)
            || validation::job_findings(j, config.jobs@[j], found@[j]).contains(d)
            || validation::duplicate_findings(config.jobs@, j).contains(d)
            || validation::version_findings(config.version).contains(d)
            ==> diagnostics::diagnostic_views(out@).contains(d),
{
    let n = config.jobs@.len() as int;
    let all = diagnostics::diagnostic_views(out@);
    let head = validation::version_findings(config.version);
    let tail = validation::jobs_findings(config.jobs@, found@, n);
    assert(all == head + tail);
    lemma_job_contained(config.jobs@, found@, j, n, d);
    if head.contains(d) {
        let k = choose|k: int| 0 <= k < head.len() && head[k] == d;
        assert(all[k] == d);
    }
    if tail.contains(d) {
        let k = choose|k: int| 0 <= k < tail.len() && tail[k] == d;
        assert(all[head.len() + k] == d);
    }
}

proof fn lemma_job_contained(
    jobs: Seq<RawJob>,
    found: Seq<bool>,
    j: int,
    n: int,
    d: DiagnosticView,
)
    requires
        0 <= j < n <= jobs.len(),
    ensures
        validation::schedule_findings(j, jobs[j]).contains(d) || validation::job_findings(
            j,
            jobs[j],
            found[j],
        ).contains(d) || validation::duplicate_findings(jobs, j).contains(d)
            ==> validation::jobs_findings(jobs, found, n).contains(d),
    decreases n,
{
    let front = validation::jobs_findings(jobs, found, n - 1);
    let a = validation::schedule_findings(n - 1, jobs[n - 1]);
    let b = validation::job_findings(n - 1, jobs[n - 1], found[n - 1]);
    let c = validation::duplicate_findings(jobs, n - 1);
    if j < n - 1 {
        lemma_job_contained(jobs, found, j, n - 1, d);
    }
    lemma_contained(front, a, b, c, d);
}

proof fn lemma_contained(
    p: Seq<DiagnosticView>,
    a: Seq<DiagnosticView>,
    b: Seq<DiagnosticView>,
    c: Seq<DiagnosticView>,
    d: DiagnosticView,
)
    ensures
        p.contains(d) || a.contains(d) || b.contains(d) || c.contains(d) ==> (p + a + b
            + c).contains(d),
{
    let all = p + a + b + c;
    if p.contains(d) {
        let k = choose|k: int| 0 <= k < p.len() && p[k] == d;
        assert(all[k] == d);
    }
    if a.contains(d) {
        let k = choose|k: int| 0 <= k < a.len() && a[k] == d;
        assert(all[p.len() + k] == d);
    }
    if b.contains(d) {
        let k = choose|k: int| 0 <= k < b.len() && b[k] == d;
        assert(all[p.len() + a.len() + k] == d);
    }
    if c.contains(d) {
        let k = choose|k: int| 0 <= k < c.len() && c[k] == d;
        assert(all[p.len() + a.len() + b.len() + k] == d);
    }
}

/// Checking a config ends with zero exactly where no finding is an error; a config that could
/// not be read is one.
pub proof fn lemma_errors_decide_exit_code(
    path: &str,
    parsed: &Result<RawConfig, Diagnostic>,
    found: &Vec<bool>,
    format: OutputFormat,
    out: Vec<Diagnostic>,
    r: Printed,
)
    requires
        call_ensures(commands::run_validate, (path, parsed, found, format), r),
        parsed matches Ok(config) && call_ensures(
            validation::validate_config,
            (config, found),
            out,
        ),
    ensures
        (r.code == 0) <==> forall|i: int|
            0 <= i < out@.len() ==> (#[trigger] out@[i]).severity != Severity::Error,
        r.code <= 1,
        r.err@.len() == 0,
{
    let views = diagnostics::diagnostic_views(out@);
    if forall|i: int| 0 <= i < out@.len() ==> (#[trigger] out@[i]).severity != Severity::Error {
        assert forall|i: int| 0 <= i < views.len() implies (#[trigger] views[i]).severity
            != Severity::Error by {
            assert(views[i] == out@[i]@);
        }
    } else {
        let i = choose|i: int|
            0 <= i < out@.len() && (#[trigger] out@[i]).severity == Severity::Error;
        assert(views[i] == out@[i]@);
    }
}

/// A config is used exactly where it could be read and no finding is an error; then its jobs are
/// as many, each resolved in its place.
pub proof fn lemma_only_valid_configs_are_used(
    parsed: &Result<RawConfig, Diagnostic>,
    found: &Vec<bool>,
    out: Vec<Diagnostic>,
    r: Result<EffectiveConfig, String>,
)
    requires
        call_ensures(commands::load_validated_config, (parsed, found), r),
        parsed matches Ok(config) ==> call_ensures(
            validation::validate_config,
            (config, found),
            out,
        ),
    ensures
        r is Ok <==> (parsed is Ok && forall|i: int|
            0 <= i < out@.len() ==> (#[trigger] out@[i]).severity != Severity::Error),
        r matches Ok(resolved) ==> (parsed matches Ok(config) && resolved.version == config.version
            && resolved.jobs@.len() == config.jobs@.len() && forall|i: int|
            0 <= i < resolved.jobs@.len() ==> (#[trigger] resolved.jobs@[i])@
                == config::normalized_job(config.jobs@[i], config.defaults)),
{
    let views = diagnostics::diagnostic_views(out@);
    if parsed is Ok {
        if forall|i: int| 0 <= i < out@.len() ==> (#[trigger] out@[i]).severity != Severity::Error {
            assert forall|i: int| 0 <= i < views.len() implies (#[trigger] views[i]).severity
                != Severity::Error by {
                assert(views[i] == out@[i]@);
            }
        } else {
            let i = choose|i: int|
                0 <= i < out@.len() && (#[trigger] out@[i]).severity == Severity::Error;
            assert(views[i] == out@[i]@);
        }
    }
}

/// The errors of a report are the findings that are errors, all counted.
pub proof fn lemma_errors_are_counted(findings: Seq<DiagnosticView>)
    ensures
        output::error_count(findings) == findings.filter(
            |d: DiagnosticView| d.severity == Severity::Error,
        ).len(),
    decreases findings.len(),
{
    reveal(Seq::filter);
    if findings.len() > 0 {
        lemma_errors_are_counted(findings.drop_last());
    }
}

/// Each finding is shown on a line of its own, with a mark for errors and another for warnings,
/// its code, its job, its message and its place, behind those before it.
pub proof fn lemma_each_finding_is_shown(findings: Seq<DiagnosticView>, d: DiagnosticView)
    ensures
        output::finding_lines(Seq::empty()).len() == 0,
        output::finding_lines(findings.push(d)) == output::finding_lines(findings) + ((
        match d.severity {
            Severity::Error => "\u{2717}"@,
            Severity::Warning => "!"@,
        }) + " "@ + d.code + (match d.job {
            Some(j) => " ["@ + j + "]"@,
            None => Seq::<char>::empty(),
        }) + ": "@ + d.message + " ("@ + d.path + ")\n"@),
{
    assert(findings.push(d).drop_last() =~= findings);
}

/// A time of day is in order with zeros before its hours and minutes too.
pub proof fn lemma_padded_times_in_order(at: &str, h: nat, m: nat, r: bool)
    requires
        call_ensures(validation::is_valid_hhmm, (at,), r),
        at@ == (seq!['0'] + text::decimal(h)) + seq![':'] + (seq!['0'] + text::decimal(m)),
    ensures
        r <==> h < 24 && m < 60,
{
    let (a, b) = (text::decimal(h), text::decimal(m));
    let (za, zb) = (seq!['0'] + a, seq!['0'] + b);
    text::lemma_decimal_number(h);
    text::lemma_decimal_number(m);
    text_laws::lemma_leading_zero(a, u32::MAX as nat);
    text_laws::lemma_leading_zero(b, u32::MAX as nat);
    text_laws::lemma_number_is_read(h, u32::MAX as nat);
    text_laws::lemma_number_is_read(m, u32::MAX as nat);
    text::lemma_find(at@, ':');
    assert(at@[za.len() as int] == ':');
    let k = text::find(at@, ':')->0 as int;
    assert(k == za.len()) by {
        if k < za.len() {
            assert(at@[k] == za[k]);
            assert(k > 0 ==> text::is_digit(a[k - 1]));
        }
    }
    assert(at@.take(k) =~= za);
    assert(at@.skip(k + 1) =~= zb);
}

/// Each fault of a schedule is an error of the job, told in its own words at the field that it is
/// about.
pub proof fn lemma_faults_of_a_schedule(
    idx: int,
    job: RawJob,
    day: i64,
    at: Seq<char>,
    expression: Seq<char>,
    zone_name: Seq<char>,
)
    ensures
        ({
            let base = "jobs["@ + text::decimal(idx as nat) + "]"@ + ".schedule"@;
            let id = text::opt_view(job.id);
            let s = job.schedule;
            let shape = validation::shape_findings(base, id, s);
            let days = validation::on_day_findings(base, id, Some(day));
            let times = validation::at_findings(base, id, Some(at));
            let crons = validation::cron_findings(base, id, Some(expression));
            let zones = validation::timezone_findings(base, id, Some(zone_name));
            &&& s.every is Some && s.cron is Some && !(s.on_day is Some && s.last_day == Some(true))
                ==> shape.len() == 1 && is_fault(
                shape[0],
                id,
                "schedule.invalid"@,
                "schedule sets both `every` and `cron`"@,
                base,
            )
            &&& s.every is None && s.cron is None && !(s.on_day is Some && s.last_day == Some(true))
                ==> shape.len() == 1 && is_fault(
                shape[0],
                id,
                "schedule.invalid"@,
                "schedule sets neither `every` nor `cron`"@,
                base,
            )
            &&& (s.every is Some) != (s.cron is Some) && s.on_day is Some && s.last_day == Some(true)
                ==> shape.len() == 1 && is_fault(
                shape[0],
                id,
                "schedule.invalid"@,
                "schedule sets both `on_day` and `last_day`"@,
                base,
            )
            &&& !(1 <= day <= 31) ==> days.len() == 1 && is_fault(
                days[0],
                id,
                "schedule.invalid"@,
                "on_day "@ + text::signed_decimal(day as int) + " is out of range 1..=31"@,
                base + ".on_day"@,
            )
            &&& !validation::valid_hhmm(at) ==> times.len() == 1 && is_fault(
                times[0],
                id,
                "schedule.invalid"@,
                "at: "@ + text::debug_text(at) + " is not a HH:MM time"@,
                base + ".at"@,
            )
            &&& !cron::cron_valid(expression) ==> crons.len() == 1 && is_fault(
                crons[0],
                id,
                "schedule.cron_invalid"@,
                "invalid cron expression: "@ + text::debug_text(expression),
                base + ".cron"@,
            )
            &&& zone_name != "local"@ && !zone::zone_known(zone_name) ==> zones.len() == 1
                && is_fault(
                zones[0],
                id,
                "schedule.timezone_invalid"@,
                "unknown timezone: "@ + text::debug_text(zone_name),
                base + ".timezone"@,
            )
        }),
{
}

/// Whether a finding is an error with the given code, message and path, of the given job.
pub open spec fn is_fault(
    d: DiagnosticView,
    id: Option<Seq<char>>,
    code: Seq<char>,
    message: Seq<char>,
    path: Seq<char>,
) -> bool {
    &&& d.severity == Severity::Error
    &&& d.code == code
    &&& d.message == message
    &&& d.path == path
    &&& d.job == id
    &&& d.line is None
    &&& d.column is None
}

/// Whatever is found is found in the version of the config, or in one of its jobs; so where all
/// these are in order, nothing is.
pub proof fn lemma_nothing_else_is_found(
    config: &RawConfig,
    found: &Vec<bool>,
    out: Vec<Diagnostic>,
    i: int,
)
    requires
        call_ensures(validation::validate_config, (config, found), out),
        0 <= i < out@.len(),
    ensures
        validation::version_findings(config.version).contains(out@[i]@) || exists|j: int|
            0 <= j < config.jobs@.len() && (validation::schedule_findings(
                j,
                #[trigger] config.jobs@[j],
            ).contains(out@[i]@) || validation::job_findings(
                j,
                config.jobs@[j],
                found@[j],
            ).contains(out@[i]@) || validation::duplicate_findings(config.jobs@, j).contains(
                out@[i]@,
            )),
{
    let n = config.jobs@.len() as int;
    let all = diagnostics::diagnostic_views(out@);
    let head = validation::version_findings(config.version);
    let tail = validation::jobs_findings(config.jobs@, found@, n);
    assert(all == head + tail);
    assert(all[i] == out@[i]@);
    if i < head.len() {
        assert(head[i] == out@[i]@);
    } else {
        assert(tail[i - head.len()] == out@[i]@);
        lemma_found_in_a_job(config.jobs@, found@, n, i - head.len());
    }
}

proof fn lemma_found_in_a_job(jobs: Seq<RawJob>, found: Seq<bool>, n: int, i: int)
    requires
        0 <= n <= jobs.len(),
        0 <= i < validation::jobs_findings(jobs, found, n).len(),
    ensures
        ({
            let d = validation::jobs_findings(jobs, found, n)[i];
            exists|j: int|
                0 <= j < n && (validation::schedule_findings(j, #[trigger] jobs[j]).contains(d)
                    || validation::job_findings(j, jobs[j], found[j]).contains(d)
                    || validation::duplicate_findings(jobs, j).contains(d))
        }),
    decreases n,
{
    let d = validation::jobs_findings(jobs, found, n)[i];
    let head = validation::jobs_findings(jobs, found, n - 1);
    let a = validation::schedule_findings(n - 1, jobs[n - 1]);
    let b = validation::job_findings(n - 1, jobs[n - 1], found[n - 1]);
    let c = validation::duplicate_findings(jobs, n - 1);
    if i < head.len() {
        lemma_found_in_a_job(jobs, found, n - 1, i);
        assert(d == head[i]);
    } else if i < head.len() + a.len() {
        assert(a[i - head.len()] == d);
    } else if i < head.len() + a.len() + b.len() {
        assert(b[i - head.len() - a.len()] == d);
    } else {
        assert(c[i - head.len() - a.len() - b.len()] == d);
    }
}

/// A diagnostic is made as an error or a warning, without a job or a place, and each of these is
/// set without changing anything else.
pub proof fn lemma_diagnostics_are_made(
    code: &'static str,
    message: String,
    path: String,
    error: Diagnostic,
    warning: Diagnostic,
    job: String,
    with_job: Diagnostic,
    line: usize,
    column: usize,
    placed: Diagnostic,
    told: bool,
)
    requires
        call_ensures(Diagnostic::error, (code, message, path), error),
        call_ensures(Diagnostic::warning, (code, message, path), warning),
        call_ensures(Diagnostic::with_job, (error, job), with_job),
        call_ensures(Diagnostic::with_location, (error, line, column), placed),
        call_ensures(Diagnostic::is_error, (&warning,), told),
    ensures
        is_fault(error@, None, code@, message@, path@),
        warning@ == (DiagnosticView { severity: Severity::Warning, ..error@ }),
        !told,
        with_job@ == (DiagnosticView { job: Some(job@), ..error@ }),
        placed@ == (DiagnosticView { line: Some(line), column: Some(column), ..error@ }),
{
}

/// Each fault of a job is told in its own words.
pub proof fn lemma_faults_are_worded(
    idx: int,
    id: Seq<char>,
    command: Option<Seq<char>>,
    found: bool,
    timeout: Seq<char>,
    token: Seq<char>,
    base: Seq<char>,
    version: u32,
    n: i64,
)
    ensures
        !validation::kebab(id) ==> validation::id_findings(idx, Some(id))[0].message == "job id "@
            + text::debug_text(id) + " must be kebab-case (a-z, 0-9, -)"@,
        ({
            let told = validation::command_findings(idx, Some(id), command, found);
            &&& command is None ==> told[0].message == "execution.command is required"@
            &&& command matches Some(c) ==> (text::trimmed(c).len() == 0 ==> told[0].message
                == "execution.command is empty"@)
            &&& command matches Some(c) ==> (text::trimmed(c).len() > 0 && !found
                ==> told[0].message == "command not found on this machine: "@ + text::debug_text(c))
        }),
        ({
            let told = validation::timeout_findings(idx, Some(id), Some(timeout));
            &&& config::duration_seconds(timeout) is None ==> told[0].message
                == "invalid duration: "@ + text::debug_text(timeout)
            &&& config::duration_seconds(timeout) matches Some(secs) ==> (secs > 86400
                ==> told[0].message == "timeout "@ + text::debug_text(timeout) + " exceeds 24h"@)
        }),
        ({
            let told = validation::token_findings(base, Some(id), token);
            &&& config::every_interval(token) is None ==> told[0].message == "every: "@ + token
                + " is not a recognized interval or weekday"@
            &&& config::every_interval(token) matches Some(IntervalView::Minutes(k)) ==> (k == 0
                || 60int % (k as int) != 0 ==> told[0].message == "every: "@ + token
                + " is not a divisor of 60"@)
            &&& config::every_interval(token) matches Some(IntervalView::Hours(k)) ==> (k == 0
                || 24int % (k as int) != 0 ==> told[0].message == "every: "@ + token
                + " is not a divisor of 24"@)
        }),
        n < 0 ==> validation::retry_findings(idx, Some(id), Some(n))[0].message
            == "retry.max_retries must be >= 0"@,
        version != 1 ==> is_fault(
            validation::version_findings(version)[0],
            None,
            "version.unsupported"@,
            "unsupported config version: "@ + text::decimal(version as nat),
            "version"@,
        ),
{
}

/// An id that an earlier job has is told as such.
pub proof fn lemma_duplicate_is_worded(jobs: Seq<RawJob>, idx: int, earlier: int, id: Seq<char>)
    requires
        0 <= earlier < idx < jobs.len(),
        jobs[idx].id matches Some(a) && a@ == id,
        jobs[earlier].id matches Some(b) && b@ == id,
    ensures
        is_fault(
            validation::duplicate_findings(jobs, idx)[0],
            Some(id),
            "job.id_duplicate"@,
            "duplicate job id: "@ + text::debug_text(id),
            "jobs["@ + text::decimal(idx as nat) + "]"@ + ".id"@,
        ),
{
    assert(text::opt_view(jobs[earlier].id) == text::opt_view(jobs[idx].id));
}

} // verus!
