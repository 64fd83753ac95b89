//! What holds of everything that is shown: the fields of each JSON value, the columns of the table
//! of jobs, how a time reads, and how a failure is told.

use crate::calendar;
use crate::diagnostics;
use crate::diagnostics::{Diagnostic, Severity};
use crate::error::AppError;
use crate::executor::{RunOutcome, RunStatus};
use crate::json;
use crate::json::Json;
use crate::logs;
use crate::logs::LogRecord;
use crate::output;
use crate::output::Report;
use crate::parse;
use crate::parse::ParseFailure;
use crate::run_report;
use crate::run_report::RunRow;
use crate::scheduler;
use crate::state;
use crate::state::JobStateRow;
use crate::text;
use crate::zone;
use vstd::prelude::*;
use vstd::utf8::*;

verus! {

// ---------------------------------------------------------------------------------- JSON

/// A finding is given with its severity, code, message and path, and with the job and the place
/// where it has them.
pub proof fn lemma_finding_has_its_fields(d: &Diagnostic, r: Json)
    requires
        call_ensures(output::diagnostic_json, (d,), r),
    ensures
        ({
            let severity = match d.severity {
                Severity::Error => "error"@,
                Severity::Warning => "warning"@,
            };
            r@ == json::JsonView::Object(
                seq![
                    ("severity"@, json::JsonView::Text(severity)),
                    ("code"@, json::JsonView::Text(d.code@)),
                    ("message"@, json::JsonView::Text(d.message@)),
                ] + (match d.job {
                    Some(job) => seq![("job"@, json::JsonView::Text(job@))],
                    None => Seq::empty(),
                }) + seq![("path"@, json::JsonView::Text(d.path@))] + (match d.line {
                    Some(n) => seq![("line"@, json::JsonView::Count(n as u64))],
                    None => Seq::empty(),
                }) + (match d.column {
                    Some(n) => seq![("col"@, json::JsonView::Count(n as u64))],
                    None => Seq::empty(),
                }),
            )
        }),
{
}

/// A report is given with its verdict, the path of the config, the counts, and all its findings in
/// order.
pub proof fn lemma_report_has_its_fields(report: &Report, r: Json, i: int)
    requires
        call_ensures(output::report_value, (report,), r),
        0 <= i < report.diagnostics@.len(),
    ensures
        r@ matches json::JsonView::Object(fields) && {
            &&& fields.len() == 4
            &&& fields[0] == ("ok"@, json::JsonView::Bool(report.ok))
            &&& fields[1] == ("config_path"@, json::JsonView::Text(report.config_path@))
            &&& fields[2] == (
                "summary"@,
                json::JsonView::Object(
                    seq![
                        ("jobs"@, json::JsonView::Count(report.summary.jobs as u64)),
                        ("errors"@, json::JsonView::Count(report.summary.errors as u64)),
                        ("warnings"@, json::JsonView::Count(report.summary.warnings as u64)),
                    ],
                ),
            )
            &&& fields[3].0 == "diagnostics"@
            &&& fields[3].1 matches json::JsonView::List(all) && all.len()
                == report.diagnostics@.len() && all[i] == output::finding_json(
                report.diagnostics@[i]@,
            )
        },
{
}

/// A job is given with its id, state, kind of schedule, next run, hash and time of change; a list
/// of jobs gives each of them in order, and a single one alone.
pub proof fn lemma_job_has_its_fields(
    job: &JobStateRow,
    one: Json,
    alone: Json,
    jobs: &Vec<JobStateRow>,
    listed: Json,
    i: int,
)
    requires
        call_ensures(output::job_value, (job,), one),
        call_ensures(output::job_report_value, (job,), alone),
        call_ensures(output::jobs_value, (jobs,), listed),
        0 <= i < jobs@.len(),
        jobs@[i]@ == job@,
    ensures
        one@ matches json::JsonView::Object(fields) && {
            &&& fields.len() == 6
            &&& fields[0] == ("id"@, json::JsonView::Text(job.job_id@))
            &&& fields[1] == ("state"@, json::JsonView::Text(job.state@))
            &&& fields[2] == ("schedule_kind"@, json::JsonView::Text(job.schedule_kind@))
            &&& fields[3].0 == "next_run_at"@
            &&& job.next_run_at matches Some(t) ==> fields[3].1 == json::JsonView::Text(t@)
            &&& job.next_run_at is None ==> fields[3].1 == json::JsonView::Null
            &&& fields[4] == ("config_hash"@, json::JsonView::Text(job.config_hash@))
            &&& fields[5] == ("updated_at"@, json::JsonView::Text(job.updated_at@))
        },
        alone@ == json::JsonView::Object(seq![("job"@, one@)]),
        listed@ matches json::JsonView::Object(fields) && fields.len() == 1 && fields[0].0
            == "jobs"@ && (fields[0].1 matches json::JsonView::List(all) && all.len()
            == jobs@.len() && all[i] == one@),
{
    assert(state::row_views(jobs@)[i] == job@);
}

/// A run is given with its id, status, trigger, times and exit code; an outcome also with its job
/// and the number of attempts.
pub proof fn lemma_run_has_its_fields(row: &RunRow, r: Json, o: &RunOutcome, s: Json)
    requires
        call_ensures(run_report::run_value, (row,), r),
        call_ensures(run_report::outcome_value, (o,), s),
    ensures
        r@ matches json::JsonView::Object(fields) && {
            &&& fields.len() == 6
            &&& fields[0] == ("id"@, json::JsonView::Text(row.id@))
            &&& fields[1] == ("status"@, json::JsonView::Text(row.status@))
            &&& fields[2] == ("trigger"@, json::JsonView::Text(row.trigger@))
            &&& fields[3].0 == "started_at"@
            &&& row.started_at matches Some(t) ==> fields[3].1 == json::JsonView::Text(t@)
            &&& row.started_at is None ==> fields[3].1 == json::JsonView::Null
            &&& fields[4].0 == "finished_at"@
            &&& row.finished_at matches Some(t) ==> fields[4].1 == json::JsonView::Text(t@)
            &&& row.finished_at is None ==> fields[4].1 == json::JsonView::Null
            &&& fields[5].0 == "exit_code"@
            &&& row.exit_code matches Some(c) ==> fields[5].1 == json::JsonView::Int(c as i64)
            &&& row.exit_code is None ==> fields[5].1 == json::JsonView::Null
        },
        s@ matches json::JsonView::Object(fields) && {
            &&& fields.len() == 7
            &&& fields[0] == ("id"@, json::JsonView::Text(o.id@))
            &&& fields[1] == ("job_id"@, json::JsonView::Text(o.job_id@))
            &&& fields[2].0 == "status"@
            &&& o.status == RunStatus::Success ==> fields[2].1 == json::JsonView::Text("success"@)
            &&& o.status == RunStatus::Failed ==> fields[2].1 == json::JsonView::Text("failed"@)
            &&& o.status == RunStatus::Timeout ==> fields[2].1 == json::JsonView::Text("timeout"@)
            &&& o.status == RunStatus::Cancelled ==> fields[2].1 == json::JsonView::Text(
                "cancelled"@,
            )
            &&& fields[3] == ("started_at"@, json::JsonView::Text(o.started_at@))
            &&& fields[4] == ("finished_at"@, json::JsonView::Text(o.finished_at@))
            &&& fields[5].0 == "exit_code"@
            &&& o.exit_code matches Some(c) ==> fields[5].1 == json::JsonView::Int(c as i64)
            &&& o.exit_code is None ==> fields[5].1 == json::JsonView::Null
            &&& fields[6] == ("attempts"@, json::JsonView::Count(o.attempts as u64))
        },
{
}

/// A list of runs gives each of them, in order and no other.
pub proof fn lemma_runs_are_all_given(rows: &Vec<RunRow>, r: String)
    requires
        call_ensures(run_report::render_runs_json, (rows,), r),
    ensures
        exists|all: Seq<json::JsonView>| #[trigger]
            all.len() == rows@.len() && (forall|i: int|
                0 <= i < all.len() ==> #[trigger] all[i] == run_report::run_json(rows@[i])) && r@
                == json::pretty_text(
                json::value_of(
                    json::JsonView::Object(seq![("runs"@, json::JsonView::List(all))]),
                ),
            ) + "\n"@,
{
    let all = rows@.map_values(|w: RunRow| run_report::run_json(w));
    assert(all.len() == rows@.len());
}

// --------------------------------------------------------------------------- the table

/// Without jobs the table says so. With jobs it has a line of headings, a line for each job in
/// order, and their number.
pub proof fn lemma_table_counts_jobs(jobs: &Vec<JobStateRow>, r: String)
    requires
        call_ensures(output::render_jobs_human, (jobs,), r),
    ensures
        jobs@.len() == 0 ==> r@ == "no jobs configured\n"@,
        jobs@.len() > 0 ==> ({
            let w = output::table_widths(state::row_views(jobs@));
            r@ == (filled("ID"@, w.0) + "  "@ + filled("STATE"@, w.1) + "  "@ + filled(
                "SCHEDULE"@,
                w.2,
            ) + "  "@ + "NEXT RUN"@ + "\n"@) + output::job_lines(state::row_views(jobs@), w)
                + "\n"@ + text::decimal(jobs@.len()) + " job(s)\n"@
        }),
{
}

/// A text with blanks after it up to a width.
pub open spec fn filled(s: Seq<char>, width: nat) -> Seq<char> {
    s + Seq::new(
        if width > s.len() {
            (width - s.len()) as nat
        } else {
            0
        },
        |i: int| ' ',
    )
}

/// The line of a job tells its id, state, kind of schedule, and next run, or a dash where there is
/// none; one more job is one more line, and changes none before it.
pub proof fn lemma_job_has_its_line(
    jobs: Seq<state::JobRowView>,
    j: state::JobRowView,
    w: (nat, nat, nat),
)
    ensures
        output::job_lines(Seq::empty(), w).len() == 0,
        output::job_lines(jobs.push(j), w) == output::job_lines(jobs, w) + (filled(j.job_id, w.0)
            + "  "@ + filled(j.state, w.1) + "  "@ + filled(j.schedule_kind, w.2) + "  "@ + (
        match j.next_run_at {
            Some(t) => t,
            None => "\u{2014}"@,
        }) + "\n"@),
{
    assert(jobs.push(j).drop_last() =~= jobs);
}

/// A column is as wide as its longest cell or its heading, whichever is longer.
pub proof fn lemma_columns_fit(cells: &Vec<usize>, header: &str, r: usize)
    requires
        call_ensures(output::col_width, (cells, header), r),
    ensures
        r >= encode_utf8(header@).len(),
        forall|i: int| 0 <= i < cells@.len() ==> #[trigger] cells@[i] <= r,
        r == encode_utf8(header@).len() || cells@.contains(r),
{
    lemma_widest(cells@, encode_utf8(header@).len());
}

proof fn lemma_widest(cells: Seq<usize>, floor: nat)
    ensures
        output::widest(cells, floor) >= floor,
        forall|i: int| 0 <= i < cells.len() ==> #[trigger] cells[i] <= output::widest(cells, floor),
        output::widest(cells, floor) == floor || exists|i: int|
            0 <= i < cells.len() && #[trigger] cells[i] == output::widest(cells, floor),
    decreases cells.len(),
{
    if cells.len() > 0 {
        let head = cells.drop_last();
        lemma_widest(head, floor);
        let w = output::widest(cells, floor);
        assert forall|i: int| 0 <= i < cells.len() implies #[trigger] cells[i] <= w by {
            if i < head.len() {
                assert(cells[i] == head[i]);
            }
        }
        if w != floor {
            if cells.last() > output::widest(head, floor) {
                assert(cells[cells.len() - 1] == w);
            } else {
                let i = choose|i: int|
                    0 <= i < head.len() && #[trigger] head[i] == output::widest(head, floor);
                assert(cells[i] == w);
            }
        }
    }
}

/// The columns of the table fit every job's id, state and kind of schedule.
pub proof fn lemma_table_fits(jobs: Seq<state::JobRowView>, i: int)
    requires
        0 <= i < jobs.len(),
        encode_utf8(jobs[i].job_id).len() <= usize::MAX,
        encode_utf8(jobs[i].state).len() <= usize::MAX,
        encode_utf8(jobs[i].schedule_kind).len() <= usize::MAX,
    ensures
        output::table_widths(jobs).0 >= encode_utf8(jobs[i].job_id).len(),
        output::table_widths(jobs).1 >= encode_utf8(jobs[i].state).len(),
        output::table_widths(jobs).2 >= encode_utf8(jobs[i].schedule_kind).len(),
        output::table_widths(jobs).0 >= encode_utf8("ID"@).len(),
        output::table_widths(jobs).1 >= encode_utf8("STATE"@).len(),
        output::table_widths(jobs).2 >= encode_utf8("SCHEDULE"@).len(),
{
    let ids = output::lengths(jobs.map_values(|j: state::JobRowView| j.job_id));
    let states = output::lengths(jobs.map_values(|j: state::JobRowView| j.state));
    let kinds = output::lengths(jobs.map_values(|j: state::JobRowView| j.schedule_kind));
    lemma_widest(ids, encode_utf8("ID"@).len());
    lemma_widest(states, encode_utf8("STATE"@).len());
    lemma_widest(kinds, encode_utf8("SCHEDULE"@).len());
    assert(ids[i] == encode_utf8(jobs[i].job_id).len());
    assert(states[i] == encode_utf8(jobs[i].state).len());
    assert(kinds[i] == encode_utf8(jobs[i].schedule_kind).len());
}

/// The status of a job tells each of its fields under its own name.
pub proof fn lemma_job_status_is_told(job: &JobStateRow, r: String)
    requires
        call_ensures(output::render_job_human, (job,), r),
    ensures
        r@ == "job:       "@ + job.job_id@ + "\nstate:     "@ + job.state@ + "\nschedule:  "@
            + job.schedule_kind@ + "\nnext run:  "@ + (match job.next_run_at {
            Some(t) => t@,
            None => "\u{2014}"@,
        }) + "\nconfig:    "@ + job.config_hash@ + "\nupdated:   "@ + job.updated_at@ + "\n"@,
{
}

// ------------------------------------------------------------------------------- a time

/// The time of a date in the years from 0 to 9999 reads as the date, a `T` and the time of day, in
/// digits of fixed width.
#[verifier::rlimit(30)]
pub proof fn lemma_time_reads(y: int, m: int, d: int, of_day: int, nanos: int, offset: int)
    requires
        calendar::valid_date(y, m, d),
        0 <= y <= 9999,
        0 <= of_day < 86400,
    ensures
        ({
            let t = zone::rfc3339_text(
                calendar::day_number(y, m, d) * 86400 + of_day,
                nanos,
                offset,
            );
            &&& t.len() >= 19
            &&& text::all_digits(t.subrange(0, 4)) && text::number(t.subrange(0, 4)) == y
            &&& t[4] == '-'
            &&& text::all_digits(t.subrange(5, 7)) && text::number(t.subrange(5, 7)) == m
            &&& t[7] == '-'
            &&& text::all_digits(t.subrange(8, 10)) && text::number(t.subrange(8, 10)) == d
            &&& t[10] == 'T'
            &&& text::all_digits(t.subrange(11, 13)) && text::number(t.subrange(11, 13)) == of_day
                / 3600
            &&& t[13] == ':'
            &&& text::all_digits(t.subrange(14, 16)) && text::number(t.subrange(14, 16)) == of_day
                % 3600 / 60
            &&& t[16] == ':'
            &&& text::all_digits(t.subrange(17, 19)) && text::number(t.subrange(17, 19)) == of_day
                % 60
            &&& t.skip(19) == zone::fraction_text(nanos) + zone::offset_text(offset)
        }),
{
    let n = calendar::day_number(y, m, d);
    let wall = n * 86400 + of_day;
    assert(wall / 86400 == n && wall % 86400 == of_day);
    scheduler::lemma_civil(y, m, d);
    let rest = zone::fraction_text(nanos) + zone::offset_text(offset);
    let a = zone::padded(y as nat, 4);
    let b = zone::padded(m as nat, 2);
    let c = zone::padded(d as nat, 2);
    let h = zone::padded((of_day / 3600) as nat, 2);
    let mi = zone::padded((of_day % 3600 / 60) as nat, 2);
    let s = zone::padded((of_day % 60) as nat, 2);
    lemma_four_digits(y as nat);
    lemma_two_digits(m as nat);
    lemma_two_digits(d as nat);
    lemma_two_digits((of_day / 3600) as nat);
    lemma_two_digits((of_day % 3600 / 60) as nat);
    lemma_two_digits((of_day % 60) as nat);
    let t = zone::rfc3339_text(wall, nanos, offset);
    let date = a + seq!['-'] + b + seq!['-'] + c;
    let time = h + seq![':'] + mi + seq![':'] + s;
    lemma_date_pieces(a, b, c);
    lemma_time_pieces(h, mi, s);
    assert(t =~= date + seq!['T'] + time + rest);
    lemma_time_placed(date, time, rest);
}

proof fn lemma_date_pieces(a: Seq<char>, b: Seq<char>, c: Seq<char>)
    requires
        a.len() == 4,
        b.len() == 2,
        c.len() == 2,
    ensures
        ({
            let t = a + seq!['-'] + b + seq!['-'] + c;
            &&& t.len() == 10
            &&& t.subrange(0, 4) == a
            &&& t[4] == '-'
            &&& t.subrange(5, 7) == b
            &&& t[7] == '-'
            &&& t.subrange(8, 10) == c
        }),
{
}

proof fn lemma_time_pieces(a: Seq<char>, b: Seq<char>, c: Seq<char>)
    requires
        a.len() == 2,
        b.len() == 2,
        c.len() == 2,
    ensures
        ({
            let t = a + seq![':'] + b + seq![':'] + c;
            &&& t.len() == 8
            &&& t.subrange(0, 2) == a
            &&& t[2] == ':'
            &&& t.subrange(3, 5) == b
            &&& t[5] == ':'
            &&& t.subrange(6, 8) == c
        }),
{
}

proof fn lemma_time_placed(date: Seq<char>, time: Seq<char>, rest: Seq<char>)
    requires
        date.len() == 10,
        time.len() == 8,
    ensures
        ({
            let t = date + seq!['T'] + time + rest;
            &&& t.len() >= 19
            &&& t.subrange(0, 4) == date.subrange(0, 4)
            &&& t[4] == date[4]
            &&& t.subrange(5, 7) == date.subrange(5, 7)
            &&& t[7] == date[7]
            &&& t.subrange(8, 10) == date.subrange(8, 10)
            &&& t[10] == 'T'
            &&& t.subrange(11, 13) == time.subrange(0, 2)
            &&& t[13] == time[2]
            &&& t.subrange(14, 16) == time.subrange(3, 5)
            &&& t[16] == time[5]
            &&& t.subrange(17, 19) == time.subrange(6, 8)
            &&& t.skip(19) == rest
        }),
{
}

/// A fraction of a second is given in milliseconds, microseconds or nanoseconds, whichever is the
/// shortest that is exact, and not at all where there is none; an offset is given by its sign,
/// hours and minutes.
pub proof fn lemma_fraction_and_offset_read(nanos: int, hours: int, minutes: int, west: bool)
    requires
        0 <= nanos < 1000000000,
        0 <= hours < 24,
        0 <= minutes < 60,
        west ==> hours + minutes > 0,
    ensures
        ({
            let f = zone::fraction_text(nanos);
            &&& nanos == 0 ==> f.len() == 0
            &&& nanos != 0 ==> f.len() > 1 && f[0] == '.' && text::all_digits(f.skip(1))
            &&& nanos != 0 && nanos % 1000000 == 0 ==> f.len() == 4 && text::number(f.skip(1))
                * 1000000 == nanos
            &&& nanos % 1000000 != 0 && nanos % 1000 == 0 ==> f.len() == 7 && text::number(
                f.skip(1),
            ) * 1000 == nanos
            &&& nanos % 1000 != 0 ==> f.len() == 10 && text::number(f.skip(1)) == nanos
        }),
        ({
            let seconds = hours * 3600 + minutes * 60;
            let o = zone::offset_text(
                if west {
                    -seconds
                } else {
                    seconds
                },
            );
            &&& o.len() == 6
            &&& west ==> o[0] == '-'
            &&& !west ==> o[0] == '+'
            &&& text::all_digits(o.subrange(1, 3)) && text::number(o.subrange(1, 3)) == hours
            &&& o[3] == ':'
            &&& text::all_digits(o.subrange(4, 6)) && text::number(o.subrange(4, 6)) == minutes
        }),
{
    let f = zone::fraction_text(nanos);
    if nanos != 0 {
        let (n, w) = if nanos % 1000000 == 0 {
            (nanos / 1000000, 3nat)
        } else if nanos % 1000 == 0 {
            (nanos / 1000, 6nat)
        } else {
            (nanos, 9nat)
        };
        assert(ten_to(3) == 1000 && ten_to(6) == 1000000 && ten_to(9) == 1000000000) by {
            reveal_with_fuel(ten_to, 10);
        }
        lemma_padded(n as nat, w);
        assert(f.skip(1) =~= zone::padded(n as nat, w));
    }
    let seconds = hours * 3600 + minutes * 60;
    let offset = if west {
        -seconds
    } else {
        seconds
    };
    let o = zone::offset_text(offset);
    let total = hours * 60 + minutes;
    assert((seconds + 30) / 60 == total);
    assert(total / 60 == hours && total % 60 == minutes);
    lemma_two_digits(hours as nat);
    lemma_two_digits(minutes as nat);
    assert(o.subrange(1, 3) =~= zone::padded(hours as nat, 2));
    assert(o.subrange(4, 6) =~= zone::padded(minutes as nat, 2));
}

spec fn ten_to(w: nat) -> nat
    decreases w,
{
    if w == 0 {
        1
    } else {
        10 * ten_to((w - 1) as nat)
    }
}

proof fn lemma_padded(n: nat, w: nat)
    requires
        n < ten_to(w),
    ensures
        zone::padded(n, w).len() == w,
        text::all_digits(zone::padded(n, w)),
        text::number(zone::padded(n, w)) == n,
    decreases w,
{
    if w > 0 {
        let v = (w - 1) as nat;
        assert(n / 10 < ten_to(v));
        lemma_padded(n / 10, v);
        let s = zone::padded(n, w);
        assert(s.drop_last() =~= zone::padded(n / 10, v));
        let c = text::digit_char(n % 10);
        assert(s.last() == c);
        assert('0' <= c <= '9' && text::digit_value(c) == n % 10);
        assert forall|i: int| 0 <= i < s.len() implies text::is_digit(#[trigger] s[i]) by {
            if i < s.len() - 1 {
                assert(s[i] == zone::padded(n / 10, v)[i]);
            }
        }
    }
}

proof fn lemma_two_digits(n: nat)
    requires
        n < 100,
    ensures
        zone::padded(n, 2).len() == 2,
        text::all_digits(zone::padded(n, 2)),
        text::number(zone::padded(n, 2)) == n,
{
    assert(ten_to(2) == 100) by {
        reveal_with_fuel(ten_to, 3);
    }
    lemma_padded(n, 2);
}

proof fn lemma_four_digits(n: nat)
    requires
        n < 10000,
    ensures
        zone::padded(n, 4).len() == 4,
        text::all_digits(zone::padded(n, 4)),
        text::number(zone::padded(n, 4)) == n,
{
    assert(ten_to(4) == 10000) by {
        reveal_with_fuel(ten_to, 5);
    }
    lemma_padded(n, 4);
}

// ------------------------------------------------------------------------------ failures

/// A config that cannot be read is told as one error, at the place that the decoder gave: a field
/// that is unknown or missing under its own code and name, a value of the wrong kind as such, and
/// anything else as broken YAML.
pub proof fn lemma_unreadable_config_is_told(
    failure: ParseFailure,
    message: String,
    location: Option<(usize, usize)>,
    d: Diagnostic,
)
    requires
        call_ensures(parse::classify, (failure, message, location), d),
    ensures
        d.severity == Severity::Error,
        d.job is None,
        location is None ==> d.line is None && d.column is None,
        location matches Some(at) ==> d.line == Some(at.0) && d.column == Some(at.1),
        failure matches ParseFailure::UnknownField(f) ==> d.code@ == "field.unknown"@ && d.path@
            == f@ && d.message@ == message@,
        failure matches ParseFailure::MissingField(f) ==> d.code@ == "field.missing"@ && d.path@
            == f@ && d.message@ == "missing field `"@ + f@ + "`"@,
        failure matches ParseFailure::ExternalMessage(m) ==> d.code@ == "yaml.syntax"@ && d.message@
            == m@,
        failure matches ParseFailure::Message(m) ==> d.code@ == "yaml.syntax"@ && d.message@ == m@,
        failure is Eof || failure is Unexpected || failure is UnexpectedSequenceEnd || failure
            is UnexpectedMappingEnd ==> d.code@ == "yaml.syntax"@ && d.message@ == message@,
        failure matches ParseFailure::InvalidScalar(ty) ==> d.code@ == "field.type"@ && d.message@
            == "invalid value: expected "@ + ty@,
        failure matches ParseFailure::InvalidType(got, wanted) ==> d.code@ == "field.type"@
            && d.message@ == "invalid type: expected "@ + wanted@ + ", got "@ + got@,
        failure matches ParseFailure::InvalidValue(got, wanted) ==> d.code@ == "field.type"@
            && d.message@ == "invalid type: expected "@ + wanted@ + ", got "@ + got@,
        failure is Other ==> d.message@ == message@,
        !(failure is UnknownField) && !(failure is MissingField) ==> d.path@ == "."@,
{
}

/// An error that is known by its message alone has the code of the first phrase that the message
/// holds.
pub proof fn lemma_message_gives_code(lower: &str, r: &'static str)
    requires
        call_ensures(parse::message_code, (lower,), r),
    ensures
        ({
            let unknown = text::occurs(lower@, "unknown field"@);
            let missing = text::occurs(lower@, "missing field"@);
            let kind = text::occurs(lower@, "invalid type"@) || text::occurs(
                lower@,
                "invalid value"@,
            );
            &&& unknown ==> r@ == "field.unknown"@
            &&& !unknown && missing ==> r@ == "field.missing"@
            &&& !unknown && !missing && kind ==> r@ == "field.type"@
            &&& !unknown && !missing && !kind ==> r@ == "yaml.syntax"@
        }),
{
}

/// A failure of the program is told by the part that failed and the reason.
pub proof fn lemma_failure_is_told(e: &AppError, r: String)
    requires
        call_ensures(AppError::message, (e,), r),
    ensures
        e matches AppError::Logging(reason) ==> r@ == "failed to initialize logging: "@ + reason@,
        e matches AppError::StateDir { path, source } ==> r@ == "failed to prepare state directory "@
            + path@ + ": "@ + source@,
        e matches AppError::Sqlite(reason) ==> r@ == "state database error: "@ + reason@,
        e matches AppError::Io(reason) ==> r@ == "log I/O error: "@ + reason@,
{
}

// ------------------------------------------------------------------------------ reports

/// A report in words has its findings, its verdict, and the numbers of jobs, errors and warnings.
pub proof fn lemma_report_is_told(report: &Report, r: String)
    requires
        call_ensures(output::render_human, (report,), r),
    ensures
        r@ == output::finding_lines(diagnostics::diagnostic_views(report.diagnostics@)) + "\n"@ + (
        if report.ok {
            "valid"@
        } else {
            "invalid"@
        }) + ": "@ + text::decimal(report.summary.jobs as nat) + " job(s), "@ + text::decimal(
            report.summary.errors as nat,
        ) + " error(s), "@ + text::decimal(report.summary.warnings as nat) + " warning(s)\n"@,
{
}

/// A report is sound exactly where it counts no error, and counts each finding once.
pub proof fn lemma_report_counts<'a>(
    path: &'a str,
    jobs: usize,
    diagnostics: &'a Vec<Diagnostic>,
    r: Report<'a>,
)
    requires
        call_ensures(output::build_report, (path, jobs, diagnostics), r),
    ensures
        r.ok <==> r.summary.errors == 0,
        r.summary.errors + r.summary.warnings == diagnostics@.len(),
        r.summary.jobs == jobs,
        r.config_path@ == path@,
        r.diagnostics@ == diagnostics@,
{
    let views = diagnostics::diagnostic_views(diagnostics@);
    output::lemma_no_errors(views);
    if forall|i: int|
        0 <= i < diagnostics@.len() ==> (#[trigger] diagnostics@[i])@.severity != Severity::Error {
        assert forall|i: int| 0 <= i < views.len() implies (#[trigger] views[i]).severity
            != Severity::Error by {
            assert(views[i] == diagnostics@[i]@);
        }
    }
    if output::error_count(views) == 0 {
        assert forall|i: int| 0 <= i < diagnostics@.len() implies (
        #[trigger] diagnostics@[i])@.severity != Severity::Error by {
            assert(views[i] == diagnostics@[i]@);
        }
    }
}

/// A run in JSON stands alone under its name, and so does the list of a run's output.
pub proof fn lemma_wrapped_values(
    o: &RunOutcome,
    one: Json,
    r: String,
    records: &Vec<LogRecord>,
    s: String,
)
    requires
        call_ensures(run_report::outcome_value, (o,), one),
        call_ensures(run_report::render_run_json, (o,), r),
        call_ensures(run_report::render_logs_json, (records,), s),
    ensures
        r@ == json::pretty_text(json::value_of(json::JsonView::Object(seq![("run"@, one@)])))
            + "\n"@,
        exists|all: Seq<json::JsonView>| #[trigger]
            all.len() == records@.len() && (forall|i: int|
                0 <= i < all.len() ==> #[trigger] all[i] == logs::record_json(records@[i]@)) && s@
                == json::pretty_text(
                json::value_of(
                    json::JsonView::Object(seq![("logs"@, json::JsonView::List(all))]),
                ),
            ) + "\n"@,
{
    let all = records@.map_values(|w: LogRecord| logs::record_json(w@));
    assert(all.len() == records@.len());
}

} // verus!
