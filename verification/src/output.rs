//! Rendering: tables and reports for people, and the JSON shapes that programs read.

use crate::diagnostics;
use crate::diagnostics::{Diagnostic, Severity};
use crate::json;
use crate::json::{field, list, object, to_pretty, Field, Json};
use crate::state;
use crate::state::JobStateRow;
use crate::text;
use crate::text::{byte_length, push_decimal};
use vstd::prelude::*;
use vstd::string::*;
use vstd::utf8::*;

verus! {

// -------------------------------------------------------------------------- reports

/// How many jobs a config has, and how many errors and warnings.
#[derive(Debug, Clone, Copy, PartialEq, Eq, Structural)]
pub struct Summary {
    pub jobs: usize,
    pub errors: usize,
    pub warnings: usize,
}

/// The outcome of a validation.
#[derive(Debug)]
pub struct Report<'a> {
    pub ok: bool,
    pub config_path: &'a str,
    pub summary: Summary,
    pub diagnostics: &'a Vec<Diagnostic>,
}

/// How many of the findings are errors.
pub open spec fn error_count(findings: Seq<diagnostics::DiagnosticView>) -> nat
    decreases findings.len(),
{
    if findings.len() == 0 {
        0
    } else {
        error_count(findings.drop_last()) + if findings.last().severity == Severity::Error {
            1nat
        } else {
            0
        }
    }
}

proof fn lemma_error_count(findings: Seq<diagnostics::DiagnosticView>)
    ensures
        error_count(findings) <= findings.len(),
    decreases findings.len(),
{
    if findings.len() > 0 {
        lemma_error_count(findings.drop_last());
    }
}

/// No error is counted exactly where no finding is an error.
pub proof fn lemma_no_errors(findings: Seq<diagnostics::DiagnosticView>)
    ensures
        error_count(findings) == 0 <==> forall|i: int|
            0 <= i < findings.len() ==> (#[trigger] findings[i]).severity != Severity::Error,
    decreases findings.len(),
{
    if findings.len() > 0 {
        let head = findings.drop_last();
        lemma_no_errors(head);
        if error_count(findings) == 0 {
            assert forall|i: int| 0 <= i < findings.len() implies (
            #[trigger] findings[i]).severity != Severity::Error by {
                if i < head.len() {
                    assert(head[i] == findings[i]);
                }
            }
        } else if findings.last().severity != Severity::Error {
            let i = choose|i: int| 0 <= i < head.len() && head[i].severity == Severity::Error;
            assert(findings[i] == head[i]);
        } else {
            assert(findings[findings.len() - 1].severity == Severity::Error);
        }
    }
}

/// Sums up a validation. It is fine where no finding is an error: warnings do not count.
pub fn build_report<'a>(
    config_path: &'a str,
    jobs: usize,
    diagnostics: &'a Vec<Diagnostic>,
) -> (r: Report<'a>)
    ensures
        r.config_path@ == config_path@,
        r.diagnostics == diagnostics,
        r.summary.jobs == jobs,
        r.summary.errors == error_count(diagnostics::diagnostic_views(diagnostics@)),
        r.summary.errors + r.summary.warnings == diagnostics@.len(),
        r.ok <==> forall|i: int|
            0 <= i < diagnostics@.len() ==> (#[trigger] diagnostics@[i])@.severity
                != Severity::Error,
{
    let ghost all = diagnostics::diagnostic_views(diagnostics@);
    let mut errors: usize = 0;
    let mut i: usize = 0;
    assert(all.take(0) =~= Seq::empty());
    while i < diagnostics.len()
        invariant
            i <= diagnostics.len(),
            all == diagnostics::diagnostic_views(diagnostics@),
            errors == error_count(all.take(i as int)),
            errors <= i,
        decreases diagnostics.len() - i,
    {
        assert(all.take(i + 1).drop_last() =~= all.take(i as int));
        assert(all.take(i + 1).last() == diagnostics@[i as int]@);
        if diagnostics[i].is_error() {
            errors += 1;
        }
        i += 1;
    }
    proof {
        assert(all.take(i as int) =~= all);
        lemma_error_count(all);
        lemma_no_errors(all);
        if errors == 0 {
            assert forall|k: int| 0 <= k < diagnostics@.len() implies (
            #[trigger] diagnostics@[k])@.severity != Severity::Error by {
                assert(all[k] == diagnostics@[k]@);
            }
        } else {
            let k = choose|k: int| 0 <= k < all.len() && all[k].severity == Severity::Error;
            assert(all[k] == diagnostics@[k]@);
        }
    }
    let warnings: usize = diagnostics.len() - errors;
    Report {
        ok: errors == 0,
        config_path,
        summary: Summary { jobs, errors, warnings },
        diagnostics,
    }
}

/// The line for one finding: a mark for its severity, its code and job, its message and path.
pub open spec fn finding_line(d: diagnostics::DiagnosticView) -> Seq<char> {
    (if d.severity == Severity::Error {
        "\u{2717}"@
    } else {
        "!"@
    }) + " "@ + d.code + (match d.job {
        Some(j) => " ["@ + j + "]"@,
        None => Seq::<char>::empty(),
    }) + ": "@ + d.message + " ("@ + d.path + ")\n"@
}

pub open spec fn finding_lines(findings: Seq<diagnostics::DiagnosticView>) -> Seq<char>
    decreases findings.len(),
{
    if findings.len() == 0 {
        Seq::empty()
    } else {
        finding_lines(findings.drop_last()) + finding_line(findings.last())
    }
}

/// A report for people: a line for each finding, and a verdict with the counts.
pub open spec fn report_text(report: Report) -> Seq<char> {
    finding_lines(diagnostics::diagnostic_views(report.diagnostics@)) + "\n"@ + (if report.ok {
        "valid"@
    } else {
        "invalid"@
    }) + ": "@ + text::decimal(report.summary.jobs as nat) + " job(s), "@ + text::decimal(
        report.summary.errors as nat,
    ) + " error(s), "@ + text::decimal(report.summary.warnings as nat) + " warning(s)\n"@
}

fn put_finding(s: &mut String, d: &Diagnostic)
    ensures
        final(s)@ == old(s)@ + finding_line(d@),
{
    let ghost before = s@;
    s.append(
        if d.is_error() {
            "\u{2717}"
        } else {
            "!"
        },
    );
    s.append(" ");
    s.append(d.code);
    if let Some(j) = &d.job {
        s.append(" [");
        s.append(j.as_str());
        s.append("]");
    }
    s.append(": ");
    s.append(d.message.as_str());
    s.append(" (");
    s.append(d.path.as_str());
    s.append(")\n");
    assert(s@ =~= before + finding_line(d@));
}

/// Renders a report for people.
pub fn render_human(report: &Report) -> (r: String)
    ensures
        r@ == report_text(*report),
{
    let ghost all = diagnostics::diagnostic_views(report.diagnostics@);
    let mut s = String::new();
    let mut i: usize = 0;
    assert(all.take(0) =~= Seq::empty());
    while i < report.diagnostics.len()
        invariant
            i <= report.diagnostics.len(),
            all == diagnostics::diagnostic_views(report.diagnostics@),
            s@ == finding_lines(all.take(i as int)),
        decreases report.diagnostics.len() - i,
    {
        put_finding(&mut s, &report.diagnostics[i]);
        assert(all.take(i + 1).drop_last() =~= all.take(i as int));
        assert(all.take(i + 1).last() == report.diagnostics@[i as int]@);
        i += 1;
    }
    assert(all.take(i as int) =~= all);
    s.append("\n");
    s.append(
        if report.ok {
            "valid"
        } else {
            "invalid"
        },
    );
    s.append(": ");
    push_decimal(&mut s, report.summary.jobs as u64);
    s.append(" job(s), ");
    push_decimal(&mut s, report.summary.errors as u64);
    s.append(" error(s), ");
    push_decimal(&mut s, report.summary.warnings as u64);
    s.append(" warning(s)\n");
    s
}

// ----------------------------------------------------------------- findings as JSON

pub open spec fn severity_text(s: Severity) -> Seq<char> {
    match s {
        Severity::Error => "error"@,
        Severity::Warning => "warning"@,
    }
}

/// A field that is there only where it has a value.
pub open spec fn text_field(name: Seq<char>, o: Option<Seq<char>>) -> Seq<
    (Seq<char>, json::JsonView),
> {
    match o {
        Some(s) => seq![(name, json::JsonView::Text(s))],
        None => Seq::empty(),
    }
}

pub open spec fn count_field(name: Seq<char>, o: Option<usize>) -> Seq<
    (Seq<char>, json::JsonView),
> {
    match o {
        Some(n) => seq![(name, json::JsonView::Count(n as u64))],
        None => Seq::empty(),
    }
}

/// The JSON shape of a finding. The job, the line and the column are left out where unknown.
pub open spec fn finding_json(d: diagnostics::DiagnosticView) -> json::JsonView {
    json::JsonView::Object(
        seq![
            ("severity"@, json::JsonView::Text(severity_text(d.severity))),
            ("code"@, json::JsonView::Text(d.code)),
            ("message"@, json::JsonView::Text(d.message)),
        ] + text_field("job"@, d.job) + seq![("path"@, json::JsonView::Text(d.path))] + count_field(
            "line"@,
            d.line,
        ) + count_field("col"@, d.column),
    )
}

/// The JSON value of a finding.
pub fn diagnostic_json(d: &Diagnostic) -> (r: Json)
    ensures
        r@ == finding_json(d@),
{
    let severity = match d.severity {
        Severity::Error => "error",
        Severity::Warning => "warning",
    };
    let mut fields: Vec<Field> = Vec::new();
    fields.push(field("severity", json::text(severity)));
    fields.push(field("code", json::text(d.code)));
    fields.push(field("message", json::text(d.message.as_str())));
    let ghost first = json::field_views(fields@);
    assert(first =~= seq![
        ("severity"@, json::JsonView::Text(severity_text(d.severity))),
        ("code"@, json::JsonView::Text(d@.code)),
        ("message"@, json::JsonView::Text(d@.message)),
    ]);
    if let Some(j) = &d.job {
        fields.push(field("job", json::text(j.as_str())));
    }
    fields.push(field("path", json::text(d.path.as_str())));
    let ghost second = json::field_views(fields@);
    assert(second =~= first + text_field("job"@, d@.job) + seq![
        ("path"@, json::JsonView::Text(d@.path)),
    ]);
    if let Some(n) = d.line {
        fields.push(field("line", Json::Count(n as u64)));
    }
    let ghost third = json::field_views(fields@);
    assert(third =~= second + count_field("line"@, d@.line));
    if let Some(n) = d.column {
        fields.push(field("col", Json::Count(n as u64)));
    }
    assert(json::field_views(fields@) =~= third + count_field("col"@, d@.column));
    object(fields)
}

/// The JSON shapes of findings, in order.
pub open spec fn findings_json(v: Seq<diagnostics::DiagnosticView>) -> json::JsonView {
    json::JsonView::List(v.map_values(|d: diagnostics::DiagnosticView| finding_json(d)))
}

fn diagnostics_json(v: &Vec<Diagnostic>) -> (r: Json)
    ensures
        r@ == findings_json(diagnostics::diagnostic_views(v@)),
{
    let ghost all = diagnostics::diagnostic_views(v@);
    let mut items: Vec<Json> = Vec::new();
    let mut i: usize = 0;
    while i < v.len()
        invariant
            i <= v.len(),
            items.len() == i,
            forall|k: int| 0 <= k < i ==> (#[trigger] items@[k])@ == finding_json(v@[k]@),
        decreases v.len() - i,
    {
        items.push(diagnostic_json(&v[i]));
        i += 1;
    }
    assert(json::json_views(items@) =~= all.map_values(
        |d: diagnostics::DiagnosticView| finding_json(d),
    ));
    list(items)
}

/// The JSON shape of a report.
pub open spec fn report_json(report: Report) -> json::JsonView {
    json::JsonView::Object(
        seq![
            ("ok"@, json::JsonView::Bool(report.ok)),
            ("config_path"@, json::JsonView::Text(report.config_path@)),
            (
                "summary"@,
                json::JsonView::Object(
                    seq![
                        ("jobs"@, json::JsonView::Count(report.summary.jobs as u64)),
                        ("errors"@, json::JsonView::Count(report.summary.errors as u64)),
                        ("warnings"@, json::JsonView::Count(report.summary.warnings as u64)),
                    ],
                ),
            ),
            (
                "diagnostics"@,
                findings_json(diagnostics::diagnostic_views(report.diagnostics@)),
            ),
        ],
    )
}

/// The JSON value of a report.
pub fn report_value(report: &Report) -> (r: Json)
    ensures
        r@ == report_json(*report),
{
    let mut counts: Vec<Field> = Vec::new();
    counts.push(field("jobs", Json::Count(report.summary.jobs as u64)));
    counts.push(field("errors", Json::Count(report.summary.errors as u64)));
    counts.push(field("warnings", Json::Count(report.summary.warnings as u64)));
    assert(json::field_views(counts@) =~= seq![
        ("jobs"@, json::JsonView::Count(report.summary.jobs as u64)),
        ("errors"@, json::JsonView::Count(report.summary.errors as u64)),
        ("warnings"@, json::JsonView::Count(report.summary.warnings as u64)),
    ]);
    let summary = object(counts);
    let ghost summary_view = summary@;
    let mut fields: Vec<Field> = Vec::new();
    fields.push(field("ok", Json::Bool(report.ok)));
    fields.push(field("config_path", json::text(report.config_path)));
    fields.push(field("summary", summary));
    fields.push(field("diagnostics", diagnostics_json(report.diagnostics)));
    assert(json::field_views(fields@) =~= seq![
        ("ok"@, json::JsonView::Bool(report.ok)),
        ("config_path"@, json::JsonView::Text(report.config_path@)),
        ("summary"@, summary_view),
        ("diagnostics"@, findings_json(diagnostics::diagnostic_views(report.diagnostics@))),
    ]);
    object(fields)
}

/// Renders a report as JSON.
pub fn render_json(report: &Report) -> (r: String)
    ensures
        r@ == json::pretty_text(json::value_of(report_json(*report))),
{
    to_pretty(&report_value(report))
}

// ---------------------------------------------------------------------------- jobs

/// The JSON shape of a job's state. The next run is null where there is none.
pub open spec fn job_json(j: state::JobRowView) -> json::JsonView {
    json::JsonView::Object(
        seq![
            ("id"@, json::JsonView::Text(j.job_id)),
            ("state"@, json::JsonView::Text(j.state)),
            ("schedule_kind"@, json::JsonView::Text(j.schedule_kind)),
            ("next_run_at"@, json::text_or_null(j.next_run_at)),
            ("config_hash"@, json::JsonView::Text(j.config_hash)),
            ("updated_at"@, json::JsonView::Text(j.updated_at)),
        ],
    )
}

/// The JSON value of a job's state.
pub fn job_value(j: &JobStateRow) -> (r: Json)
    ensures
        r@ == job_json(j@),
{
    let next = match &j.next_run_at {
        Some(t) => json::text(t.as_str()),
        None => Json::Null,
    };
    let mut fields: Vec<Field> = Vec::new();
    fields.push(field("id", json::text(j.job_id.as_str())));
    fields.push(field("state", json::text(j.state.as_str())));
    fields.push(field("schedule_kind", json::text(j.schedule_kind.as_str())));
    fields.push(field("next_run_at", next));
    fields.push(field("config_hash", json::text(j.config_hash.as_str())));
    fields.push(field("updated_at", json::text(j.updated_at.as_str())));
    assert(json::field_views(fields@) =~= seq![
        ("id"@, json::JsonView::Text(j@.job_id)),
        ("state"@, json::JsonView::Text(j@.state)),
        ("schedule_kind"@, json::JsonView::Text(j@.schedule_kind)),
        ("next_run_at"@, json::text_or_null(j@.next_run_at)),
        ("config_hash"@, json::JsonView::Text(j@.config_hash)),
        ("updated_at"@, json::JsonView::Text(j@.updated_at)),
    ]);
    object(fields)
}

/// The JSON shape of a list of jobs, under the key `jobs`.
pub open spec fn jobs_json(jobs: Seq<state::JobRowView>) -> json::JsonView {
    json::JsonView::Object(
        seq![
            (
                "jobs"@,
                json::JsonView::List(jobs.map_values(|j: state::JobRowView| job_json(j))),
            ),
        ],
    )
}

/// The JSON value of a list of jobs.
pub fn jobs_value(jobs: &Vec<JobStateRow>) -> (r: Json)
    ensures
        r@ == jobs_json(state::row_views(jobs@)),
{
    let mut items: Vec<Json> = Vec::new();
    let mut i: usize = 0;
    while i < jobs.len()
        invariant
            i <= jobs.len(),
            items.len() == i,
            forall|k: int| 0 <= k < i ==> (#[trigger] items@[k])@ == job_json(jobs@[k]@),
        decreases jobs.len() - i,
    {
        items.push(job_value(&jobs[i]));
        i += 1;
    }
    assert(json::json_views(items@) =~= state::row_views(jobs@).map_values(
        |j: state::JobRowView| job_json(j),
    ));
    let all = list(items);
    let ghost all_view = all@;
    let mut fields: Vec<Field> = Vec::new();
    fields.push(field("jobs", all));
    assert(json::field_views(fields@) =~= seq![("jobs"@, all_view)]);
    object(fields)
}

/// Renders a list of jobs as JSON.
pub fn render_jobs_json(jobs: &Vec<JobStateRow>) -> (r: String)
    ensures
        r@ == json::pretty_text(json::value_of(jobs_json(state::row_views(jobs@)))),
{
    to_pretty(&jobs_value(jobs))
}

/// The JSON value of one job, under the key `job`.
pub fn job_report_value(job: &JobStateRow) -> (r: Json)
    ensures
        r@ == json::JsonView::Object(seq![("job"@, job_json(job@))]),
{
    let mut fields: Vec<Field> = Vec::new();
    fields.push(field("job", job_value(job)));
    assert(json::field_views(fields@) =~= seq![("job"@, job_json(job@))]);
    object(fields)
}

/// The JSON text of one job.
pub open spec fn job_json_text(job: state::JobRowView) -> Seq<char> {
    json::pretty_text(json::value_of(json::JsonView::Object(seq![("job"@, job_json(job))])))
}

/// Renders one job as JSON.
pub fn render_job_json(job: &JobStateRow) -> (r: String)
    ensures
        r@ == job_json_text(job@),
{
    to_pretty(&job_report_value(job))
}

/// The greatest of the numbers, and at least `floor`.
pub open spec fn widest(cells: Seq<usize>, floor: nat) -> nat
    decreases cells.len(),
{
    if cells.len() == 0 {
        floor
    } else {
        let w = widest(cells.drop_last(), floor);
        if cells.last() > w {
            cells.last() as nat
        } else {
            w
        }
    }
}

/// The width of a column: the widest cell, but no less than the header.
pub fn col_width(cells: &Vec<usize>, header: &str) -> (r: usize)
    ensures
        r == widest(cells@, encode_utf8(header@).len()),
{
    let mut w = byte_length(header);
    let mut i: usize = 0;
    assert(cells@.take(0) =~= Seq::empty());
    while i < cells.len()
        invariant
            i <= cells.len(),
            w == widest(cells@.take(i as int), encode_utf8(header@).len()),
        decreases cells.len() - i,
    {
        assert(cells@.take(i + 1).drop_last() =~= cells@.take(i as int));
        if cells[i] > w {
            w = cells[i];
        }
        i += 1;
    }
    assert(cells@.take(i as int) =~= cells@);
    w
}

/// The byte lengths of the cells of a column.
pub open spec fn lengths(cells: Seq<Seq<char>>) -> Seq<usize> {
    cells.map_values(|c: Seq<char>| encode_utf8(c).len() as usize)
}

/// A cell with spaces after it up to the width of its column, in characters.
pub open spec fn cell(s: Seq<char>, width: nat) -> Seq<char> {
    s + Seq::new(
        if width > s.len() {
            (width - s.len()) as nat
        } else {
            0
        },
        |i: int| ' ',
    )
}

/// A line of the jobs table: three cells, and the next run.
pub open spec fn table_line(
    id: Seq<char>,
    state: Seq<char>,
    kind: Seq<char>,
    next: Seq<char>,
    widths: (nat, nat, nat),
) -> Seq<char> {
    cell(id, widths.0) + "  "@ + cell(state, widths.1) + "  "@ + cell(kind, widths.2) + "  "@ + next
        + "\n"@
}

/// What stands for the next run: its time, or a dash.
pub open spec fn next_text(next: Option<Seq<char>>) -> Seq<char> {
    match next {
        Some(t) => t,
        None => "\u{2014}"@,
    }
}

/// The widths of the columns of the jobs table.
pub open spec fn table_widths(jobs: Seq<state::JobRowView>) -> (nat, nat, nat) {
    (
        widest(
            lengths(jobs.map_values(|j: state::JobRowView| j.job_id)),
            encode_utf8("ID"@).len(),
        ),
        widest(
            lengths(jobs.map_values(|j: state::JobRowView| j.state)),
            encode_utf8("STATE"@).len(),
        ),
        widest(
            lengths(jobs.map_values(|j: state::JobRowView| j.schedule_kind)),
            encode_utf8("SCHEDULE"@).len(),
        ),
    )
}

pub open spec fn job_lines(
    jobs: Seq<state::JobRowView>,
    widths: (nat, nat, nat),
) -> Seq<char>
    decreases jobs.len(),
{
    if jobs.len() == 0 {
        Seq::empty()
    } else {
        let j = jobs.last();
        job_lines(jobs.drop_last(), widths) + table_line(
            j.job_id,
            j.state,
            j.schedule_kind,
            next_text(j.next_run_at),
            widths,
        )
    }
}

/// The jobs table: a header, a line for each job, and their number.
pub open spec fn jobs_text(jobs: Seq<state::JobRowView>) -> Seq<char> {
    if jobs.len() == 0 {
        "no jobs configured\n"@
    } else {
        let w = table_widths(jobs);
        table_line("ID"@, "STATE"@, "SCHEDULE"@, "NEXT RUN"@, w) + job_lines(jobs, w) + "\n"@
            + text::decimal(jobs.len()) + " job(s)\n"@
    }
}

fn put_cell(s: &mut String, value: &str, width: usize)
    ensures
        final(s)@ == old(s)@ + cell(value@, width as nat),
{
    let ghost before = s@;
    s.append(value);
    let n = value.unicode_len();
    let mut i: usize = n;
    assert(s@ =~= before + value@ + Seq::new(0, |k: int| ' '));
    while i < width
        invariant
            n == value@.len(),
            n <= i,
            i <= width || i == n,
            s@ == before + value@ + Seq::new((i - n) as nat, |k: int| ' '),
        decreases width - i,
    {
        s.push(' ');
        assert(s@ =~= before + value@ + Seq::new((i + 1 - n) as nat, |k: int| ' '));
        i += 1;
    }
    assert(s@ =~= before + cell(value@, width as nat));
}

fn put_line(
    s: &mut String,
    id: &str,
    state: &str,
    kind: &str,
    next: &str,
    widths: (usize, usize, usize),
)
    ensures
        final(s)@ == old(s)@ + table_line(
            id@,
            state@,
            kind@,
            next@,
            (widths.0 as nat, widths.1 as nat, widths.2 as nat),
        ),
{
    let ghost before = s@;
    put_cell(s, id, widths.0);
    s.append("  ");
    put_cell(s, state, widths.1);
    s.append("  ");
    put_cell(s, kind, widths.2);
    s.append("  ");
    s.append(next);
    s.append("\n");
    assert(s@ =~= before + table_line(
        id@,
        state@,
        kind@,
        next@,
        (widths.0 as nat, widths.1 as nat, widths.2 as nat),
    ));
}

fn widths_of(jobs: &Vec<JobStateRow>) -> (r: (usize, usize, usize))
    ensures
        (r.0 as nat, r.1 as nat, r.2 as nat) == table_widths(state::row_views(jobs@)),
{
    let ghost all = state::row_views(jobs@);
    let mut ids: Vec<usize> = Vec::new();
    let mut states: Vec<usize> = Vec::new();
    let mut kinds: Vec<usize> = Vec::new();
    let mut i: usize = 0;
    while i < jobs.len()
        invariant
            i <= jobs.len(),
            ids.len() == i,
            states.len() == i,
            kinds.len() == i,
            forall|k: int| 0 <= k < i ==> #[trigger] ids@[k] == encode_utf8(jobs@[k].job_id@).len(),
            forall|k: int|
                0 <= k < i ==> #[trigger] states@[k] == encode_utf8(jobs@[k].state@).len(),
            forall|k: int|
                0 <= k < i ==> #[trigger] kinds@[k] == encode_utf8(jobs@[k].schedule_kind@).len(),
        decreases jobs.len() - i,
    {
        ids.push(byte_length(jobs[i].job_id.as_str()));
        states.push(byte_length(jobs[i].state.as_str()));
        kinds.push(byte_length(jobs[i].schedule_kind.as_str()));
        i += 1;
    }
    assert(ids@ =~= lengths(all.map_values(|j: state::JobRowView| j.job_id)));
    assert(states@ =~= lengths(all.map_values(|j: state::JobRowView| j.state)));
    assert(kinds@ =~= lengths(all.map_values(|j: state::JobRowView| j.schedule_kind)));
    (col_width(&ids, "ID"), col_width(&states, "STATE"), col_width(&kinds, "SCHEDULE"))
}

fn next_of(j: &JobStateRow) -> (r: &str)
    ensures
        r@ == next_text(j@.next_run_at),
{
    match &j.next_run_at {
        Some(t) => t.as_str(),
        None => "\u{2014}",
    }
}

/// Renders a list of jobs as a table.
pub fn render_jobs_human(jobs: &Vec<JobStateRow>) -> (r: String)
    ensures
        r@ == jobs_text(state::row_views(jobs@)),
{
    if jobs.len() == 0 {
        return "no jobs configured\n".to_owned();
    }
    let ghost all = state::row_views(jobs@);
    let widths = widths_of(jobs);
    let ghost w = table_widths(all);
    let mut s = String::new();
    put_line(&mut s, "ID", "STATE", "SCHEDULE", "NEXT RUN", widths);
    let ghost top = s@;
    assert(top =~= table_line("ID"@, "STATE"@, "SCHEDULE"@, "NEXT RUN"@, w));
    let mut i: usize = 0;
    assert(all.take(0) =~= Seq::empty());
    assert(top + job_lines(all.take(0), w) =~= top);
    while i < jobs.len()
        invariant
            i <= jobs.len(),
            all == state::row_views(jobs@),
            w == (widths.0 as nat, widths.1 as nat, widths.2 as nat),
            s@ == top + job_lines(all.take(i as int), w),
        decreases jobs.len() - i,
    {
        let j = &jobs[i];
        let ghost before = s@;
        put_line(
            &mut s,
            j.job_id.as_str(),
            j.state.as_str(),
            j.schedule_kind.as_str(),
            next_of(j),
            widths,
        );
        assert(all.take(i + 1).drop_last() =~= all.take(i as int));
        assert(all.take(i + 1).last() == j@);
        assert(s@ =~= top + job_lines(all.take(i + 1), w));
        i += 1;
    }
    assert(all.take(i as int) =~= all);
    s.append("\n");
    push_decimal(&mut s, jobs.len() as u64);
    s.append(" job(s)\n");
    s
}

/// One job for people: a line for each of its fields.
pub open spec fn job_text(j: state::JobRowView) -> Seq<char> {
    "job:       "@ + j.job_id + "\nstate:     "@ + j.state + "\nschedule:  "@ + j.schedule_kind
        + "\nnext run:  "@ + next_text(j.next_run_at) + "\nconfig:    "@ + j.config_hash
        + "\nupdated:   "@ + j.updated_at + "\n"@
}

/// Renders one job.
pub fn render_job_human(job: &JobStateRow) -> (r: String)
    ensures
        r@ == job_text(job@),
{
    let mut s = "job:       ".to_owned();
    s.append(job.job_id.as_str());
    s.append("\nstate:     ");
    s.append(job.state.as_str());
    s.append("\nschedule:  ");
    s.append(job.schedule_kind.as_str());
    s.append("\nnext run:  ");
    s.append(next_of(job));
    s.append("\nconfig:    ");
    s.append(job.config_hash.as_str());
    s.append("\nupdated:   ");
    s.append(job.updated_at.as_str());
    s.append("\n");
    s
}

} // verus!
