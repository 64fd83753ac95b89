//! Rendering of runs and of their captured output.

use crate::executor::RunOutcome;
use crate::json;
use crate::json::{field, list, object, to_pretty, Field, Json};
use crate::logs;
use crate::logs::{record_value, LogRecord};
use crate::text;
use crate::text::{decimal_text, push_decimal, signed_decimal_text};
use vstd::prelude::*;
use vstd::string::*;

verus! {

// ---------------------------------------------------------------------------------- one run

/// An exit code as JSON: null where the run was ended by a signal.
pub open spec fn code_json(code: Option<i32>) -> json::JsonView {
    match code {
        Some(c) => json::JsonView::Int(c as i64),
        None => json::JsonView::Null,
    }
}

/// An exit code as a word: a dash where the run was ended by a signal.
pub open spec fn code_text(code: Option<i32>) -> Seq<char> {
    match code {
        Some(c) => text::signed_decimal(c as int),
        None => "\u{2014}"@,
    }
}

/// The JSON shape of a run's outcome.
pub open spec fn outcome_json(o: RunOutcome) -> json::JsonView {
    json::JsonView::Object(
        seq![
            ("id"@, json::JsonView::Text(o.id@)),
            ("job_id"@, json::JsonView::Text(o.job_id@)),
            ("status"@, json::JsonView::Text(o.status.name())),
            ("started_at"@, json::JsonView::Text(o.started_at@)),
            ("finished_at"@, json::JsonView::Text(o.finished_at@)),
            ("exit_code"@, code_json(o.exit_code)),
            ("attempts"@, json::JsonView::Count(o.attempts as u64)),
        ],
    )
}

/// The text of a run's outcome for people.
pub open spec fn outcome_text(o: RunOutcome) -> Seq<char> {
    "run:       "@ + o.id@ + "\njob:       "@ + o.job_id@ + "\nstatus:    "@ + o.status.name()
        + "\nexit code: "@ + code_text(o.exit_code) + "\nattempts:  "@ + text::decimal(
        o.attempts as nat,
    ) + "\nstarted:   "@ + o.started_at@ + "\nfinished:  "@ + o.finished_at@ + "\n"@
}

fn code_value(code: Option<i32>) -> (r: Json)
    ensures
        r@ == code_json(code),
{
    match code {
        Some(c) => Json::Int(c as i64),
        None => Json::Null,
    }
}

fn code_word(code: Option<i32>) -> (r: String)
    ensures
        r@ == code_text(code),
{
    match code {
        Some(c) => signed_decimal_text(c as i64),
        None => "\u{2014}".to_owned(),
    }
}

/// The JSON value of a run's outcome.
pub fn outcome_value(o: &RunOutcome) -> (r: Json)
    ensures
        r@ == outcome_json(*o),
{
    let mut fields: Vec<Field> = Vec::new();
    fields.push(field("id", json::text(o.id.as_str())));
    fields.push(field("job_id", json::text(o.job_id.as_str())));
    fields.push(field("status", json::text(o.status.as_str())));
    fields.push(field("started_at", json::text(o.started_at.as_str())));
    fields.push(field("finished_at", json::text(o.finished_at.as_str())));
    fields.push(field("exit_code", code_value(o.exit_code)));
    fields.push(field("attempts", Json::Count(o.attempts as u64)));
    assert(json::field_views(fields@) =~= outcome_json(*o)->Object_0);
    object(fields)
}

/// `jobs run` for people.
pub fn render_run_human(o: &RunOutcome) -> (r: String)
    ensures
        r@ == outcome_text(*o),
{
    let mut s = "run:       ".to_owned();
    s.append(o.id.as_str());
    s.append("\njob:       ");
    s.append(o.job_id.as_str());
    s.append("\nstatus:    ");
    s.append(o.status.as_str());
    s.append("\nexit code: ");
    s.append(code_word(o.exit_code).as_str());
    s.append("\nattempts:  ");
    s.append(decimal_text(o.attempts as u64).as_str());
    s.append("\nstarted:   ");
    s.append(o.started_at.as_str());
    s.append("\nfinished:  ");
    s.append(o.finished_at.as_str());
    s.append("\n");
    s
}

/// The JSON text of a run that ended.
pub open spec fn run_json_text(o: RunOutcome) -> Seq<char> {
    json::pretty_text(json::value_of(json::JsonView::Object(seq![("run"@, outcome_json(o))])))
        + "\n"@
}

/// `jobs run` for programs.
pub fn render_run_json(o: &RunOutcome) -> (r: String)
    ensures
        r@ == run_json_text(*o),
{
    let mut fields: Vec<Field> = Vec::new();
    fields.push(field("run", outcome_value(o)));
    assert(json::field_views(fields@) =~= seq![("run"@, outcome_json(*o))]);
    let mut r = to_pretty(&object(fields));
    r.append("\n");
    r
}

// ------------------------------------------------------------------------------ the history

/// A recorded run.
#[derive(Debug)]
pub struct RunRow {
    pub id: String,
    pub status: String,
    pub trigger: String,
    pub started_at: Option<String>,
    pub finished_at: Option<String>,
    pub exit_code: Option<i32>,
}

/// The JSON shape of a recorded run.
pub open spec fn run_json(row: RunRow) -> json::JsonView {
    json::JsonView::Object(
        seq![
            ("id"@, json::JsonView::Text(row.id@)),
            ("status"@, json::JsonView::Text(row.status@)),
            ("trigger"@, json::JsonView::Text(row.trigger@)),
            ("started_at"@, json::text_or_null(text::opt_view(row.started_at))),
            ("finished_at"@, json::text_or_null(text::opt_view(row.finished_at))),
            ("exit_code"@, code_json(row.exit_code)),
        ],
    )
}

/// The line of a recorded run.
pub open spec fn run_line(row: RunRow) -> Seq<char> {
    row.id@ + "  "@ + row.status@ + "  "@ + row.trigger@ + "  "@ + (match row.started_at {
        Some(s) => s@,
        None => "\u{2014}"@,
    }) + "\n"@
}

pub open spec fn run_lines(rows: Seq<RunRow>) -> Seq<char>
    decreases rows.len(),
{
    if rows.len() == 0 {
        Seq::empty()
    } else {
        run_lines(rows.drop_last()) + run_line(rows.last())
    }
}

fn optional_text(o: &Option<String>) -> (r: Json)
    ensures
        r@ == json::text_or_null(text::opt_view(*o)),
{
    match o {
        Some(s) => json::text(s.as_str()),
        None => Json::Null,
    }
}

/// The JSON value of a recorded run.
pub fn run_value(row: &RunRow) -> (r: Json)
    ensures
        r@ == run_json(*row),
{
    let mut fields: Vec<Field> = Vec::new();
    fields.push(field("id", json::text(row.id.as_str())));
    fields.push(field("status", json::text(row.status.as_str())));
    fields.push(field("trigger", json::text(row.trigger.as_str())));
    fields.push(field("started_at", optional_text(&row.started_at)));
    fields.push(field("finished_at", optional_text(&row.finished_at)));
    fields.push(field("exit_code", code_value(row.exit_code)));
    assert(json::field_views(fields@) =~= run_json(*row)->Object_0);
    object(fields)
}

/// The text of a job's runs: a line for each, and how many there are.
pub open spec fn runs_text(rows: Seq<RunRow>) -> Seq<char> {
    run_lines(rows) + "\n"@ + text::decimal(rows.len()) + " run(s)\n"@
}

/// `jobs history` for people: a line for each run, and how many there are.
pub fn render_runs_human(rows: &Vec<RunRow>) -> (r: String)
    ensures
        r@ == runs_text(rows@),
{
    let mut s = String::new();
    let mut i: usize = 0;
    assert(s@ =~= run_lines(rows@.take(0)));
    while i < rows.len()
        invariant
            i <= rows@.len(),
            s@ == run_lines(rows@.take(i as int)),
        decreases rows.len() - i,
    {
        let ghost before = s@;
        let row = &rows[i];
        s.append(row.id.as_str());
        s.append("  ");
        s.append(row.status.as_str());
        s.append("  ");
        s.append(row.trigger.as_str());
        s.append("  ");
        match &row.started_at {
            Some(t) => {
                s.append(t.as_str());
            },
            None => {
                s.append("\u{2014}");
            },
        }
        s.append("\n");
        proof {
            assert(s@ =~= before + run_line(*row));
            assert(rows@.take(i as int + 1).drop_last() =~= rows@.take(i as int));
            assert(rows@.take(i as int + 1).last() == *row);
        }
        i += 1;
    }
    assert(rows@.take(i as int) =~= rows@);
    s.append("\n");
    push_decimal(&mut s, rows.len() as u64);
    s.append(" run(s)\n");
    s
}

/// The JSON text of a job's runs.
pub open spec fn runs_json_text(rows: Seq<RunRow>) -> Seq<char> {
    json::pretty_text(
            json::value_of(
                json::JsonView::Object(
                    seq![
                        ("runs"@, json::JsonView::List(rows.map_values(|w: RunRow| run_json(w)))),
                    ],
                ),
            ),
        ) + "\n"@
}

/// `jobs history` for programs.
pub fn render_runs_json(rows: &Vec<RunRow>) -> (r: String)
    ensures
        r@ == runs_json_text(rows@),
{
    let mut values: Vec<Json> = Vec::new();
    let mut i: usize = 0;
    while i < rows.len()
        invariant
            i <= rows@.len(),
            values@.len() == i,
            forall|k: int| 0 <= k < i ==> (#[trigger] values@[k])@ == run_json(rows@[k]),
        decreases rows.len() - i,
    {
        values.push(run_value(&rows[i]));
        i += 1;
    }
    let ghost shapes = rows@.map_values(|w: RunRow| run_json(w));
    assert(json::json_views(values@) =~= shapes);
    let mut fields: Vec<Field> = Vec::new();
    fields.push(field("runs", list(values)));
    assert(json::field_views(fields@) =~= seq![("runs"@, json::JsonView::List(shapes))]);
    let mut r = to_pretty(&object(fields));
    r.append("\n");
    r
}

// ------------------------------------------------------------------------------- the output

/// The lines of captured output, one after the other.
pub open spec fn output_lines(records: Seq<LogRecord>) -> Seq<char>
    decreases records.len(),
{
    if records.len() == 0 {
        Seq::empty()
    } else {
        let rec = records.last();
        output_lines(records.drop_last()) + (rec.ts@ + "  "@ + rec.stream@ + "  "@ + rec.text@
            + "\n"@)
    }
}

/// The text of what was captured.
pub open spec fn logs_text(records: Seq<LogRecord>) -> Seq<char> {
    if records.len() == 0 {
        "no output\n"@
    } else {
        output_lines(records)
    }
}

/// `logs` for people.
pub fn render_logs_human(records: &Vec<LogRecord>) -> (r: String)
    ensures
        r@ == logs_text(records@),
{
    if records.len() == 0 {
        return "no output\n".to_owned();
    }
    let mut s = String::new();
    let mut i: usize = 0;
    assert(s@ =~= output_lines(records@.take(0)));
    while i < records.len()
        invariant
            i <= records@.len(),
            s@ == output_lines(records@.take(i as int)),
        decreases records.len() - i,
    {
        let ghost before = s@;
        let rec = &records[i];
        s.append(rec.ts.as_str());
        s.append("  ");
        s.append(rec.stream.as_str());
        s.append("  ");
        s.append(rec.text.as_str());
        s.append("\n");
        proof {
            assert(s@ =~= before + (rec.ts@ + "  "@ + rec.stream@ + "  "@ + rec.text@ + "\n"@));
            assert(records@.take(i as int + 1).drop_last() =~= records@.take(i as int));
            assert(records@.take(i as int + 1).last() == *rec);
        }
        i += 1;
    }
    assert(records@.take(i as int) =~= records@);
    s
}

/// The JSON text of what was captured.
pub open spec fn logs_json_text(records: Seq<LogRecord>) -> Seq<char> {
    json::pretty_text(
            json::value_of(
                json::JsonView::Object(
                    seq![
                        (
                            "logs"@,
                            json::JsonView::List(
                                records.map_values(|w: LogRecord| logs::record_json(w@)),
                            ),
                        ),
                    ],
                ),
            ),
        ) + "\n"@
}

/// `logs` for programs.
pub fn render_logs_json(records: &Vec<LogRecord>) -> (r: String)
    ensures
        r@ == logs_json_text(records@),
{
    let mut values: Vec<Json> = Vec::new();
    let mut i: usize = 0;
    while i < records.len()
        invariant
            i <= records@.len(),
            values@.len() == i,
            forall|k: int|
                0 <= k < i ==> (#[trigger] values@[k])@ == logs::record_json(records@[k]@),
        decreases records.len() - i,
    {
        values.push(record_value(&records[i]));
        i += 1;
    }
    let ghost shapes = records@.map_values(|w: LogRecord| logs::record_json(w@));
    assert(json::json_views(values@) =~= shapes);
    let mut fields: Vec<Field> = Vec::new();
    fields.push(field("logs", list(values)));
    assert(json::field_views(fields@) =~= seq![("logs"@, json::JsonView::List(shapes))]);
    let mut r = to_pretty(&object(fields));
    r.append("\n");
    r
}

} // verus!
