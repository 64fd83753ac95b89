//! What holds of the output of every run: which records are read, from which files and in which
//! order, and how they and the runs are shown.

use crate::commands;
use crate::commands::Printed;
use crate::cli::OutputFormat;
use crate::executor::{RunOutcome, RunStatus};
use crate::json;
use crate::logs;
use crate::logs::{Append, LogRecord, RecordView};
use crate::run_report;
use crate::run_report::RunRow;
use crate::text;
use vstd::prelude::*;
use vstd::utf8::*;

verus! {

// ------------------------------------------------------------------------------- reading

proof fn lemma_wanted_are_filtered(
    parsed: Seq<Option<RecordView>>,
    job_id: Seq<char>,
    run_id: Option<Seq<char>>,
)
    ensures
        logs::wanted(parsed, job_id, run_id) == parsed.filter(
            |o: Option<RecordView>|
                o is Some && o->0.job_id == job_id && (run_id is None || o->0.run_id == run_id->0),
        ).map_values(|o: Option<RecordView>| o->0),
    decreases parsed.len(),
{
    reveal(Seq::filter);
    let keep = |o: Option<RecordView>|
        o is Some && o->0.job_id == job_id && (run_id is None || o->0.run_id == run_id->0);
    let take = |o: Option<RecordView>| o->0;
    if parsed.len() == 0 {
        assert(parsed.filter(keep).map_values(take) =~= Seq::empty());
    } else {
        lemma_wanted_are_filtered(parsed.drop_last(), job_id, run_id);
        let head = parsed.drop_last().filter(keep);
        if keep(parsed.last()) {
            assert(parsed.filter(keep) == head.push(parsed.last()));
            assert(head.push(parsed.last()).map_values(take) =~= head.map_values(take).push(
                parsed.last()->0,
            ));
        } else {
            assert(parsed.filter(keep) == head);
        }
    }
}

/// The records that are read are those of the job, and of the run where one is asked for: all of
/// them, whatever their attempt, stream or text, and no others, in the order of the lines.
pub proof fn lemma_read_is_complete(
    parsed: Vec<Option<LogRecord>>,
    job_id: &str,
    run_id: Option<&str>,
    r: Vec<LogRecord>,
)
    requires
        call_ensures(logs::read_logs, (parsed, job_id, run_id), r),
    ensures
        logs::record_views(r@) == logs::parsed_views(parsed@).filter(
            |o: Option<RecordView>|
                o is Some && o->0.job_id == job_id@ && (run_id is None || o->0.run_id
                    == run_id->0@),
        ).map_values(|o: Option<RecordView>| o->0),
        forall|i: int, rec: LogRecord|
            0 <= i < parsed@.len() && #[trigger] parsed@[i] == Some(rec) && rec.job_id@ == job_id@
                && (run_id matches Some(run) ==> rec.run_id@ == run@)
                ==> #[trigger] logs::record_views(r@).contains(rec@),
        forall|k: int|
            0 <= k < r@.len() ==> (#[trigger] r@[k]).job_id@ == job_id@ && (run_id matches Some(run)
                ==> r@[k].run_id@ == run@),
{
    let views = logs::parsed_views(parsed@);
    let run = match run_id {
        Some(s) => Some(s@),
        None => None,
    };
    lemma_wanted_are_filtered(views, job_id@, run);
    let keep = |o: Option<RecordView>|
        o is Some && o->0.job_id == job_id@ && (run_id is None || o->0.run_id == run_id->0@);
    let keep_run = |o: Option<RecordView>|
        o is Some && o->0.job_id == job_id@ && (run is None || o->0.run_id == run->0);
    assert(keep =~= keep_run);
    let take = |o: Option<RecordView>| o->0;
    let kept = views.filter(keep);
    let got = logs::record_views(r@);
    assert(got == kept.map_values(take));
    assert forall|i: int, rec: LogRecord|
        0 <= i < parsed@.len() && #[trigger] parsed@[i] == Some(rec) && rec.job_id@ == job_id@ && (
        run_id matches Some(run) ==> rec.run_id@ == run@) implies #[trigger] got.contains(rec@) by {
        assert(views[i] == Some(rec@));
        assert(keep(views[i]));
        views.lemma_filter_contains(keep, i);
        let k = choose|k: int| 0 <= k < kept.len() && kept[k] == views[i];
        assert(got[k] == rec@);
    }
    assert forall|k: int| 0 <= k < r@.len() implies (#[trigger] r@[k]).job_id@ == job_id@ && (
    run_id matches Some(run) ==> r@[k].run_id@ == run@) by {
        assert(got[k] == r@[k]@);
        views.lemma_filter_pred(keep, k);
        assert(keep(kept[k]));
    }
}

/// Whether one text comes before another in a dictionary, or is the same: it is its beginning,
/// or the first character in which they differ is the smaller one.
pub proof fn lemma_dictionary_order(a: Seq<char>, b: Seq<char>, k: int)
    requires
        0 <= k <= a.len(),
        k <= b.len(),
        a.take(k) == b.take(k),
        k == a.len() || k == b.len() || a[k] != b[k],
    ensures
        logs::no_later(a, b) <==> (k == a.len() || (k < b.len() && a[k] < b[k])),
    decreases a.len(),
{
    if k > 0 {
        assert(a[0] == a.take(k)[0] && b[0] == b.take(k)[0]);
        let (p, q) = (a.drop_first(), b.drop_first());
        assert(p.take(k - 1) =~= a.take(k).drop_first());
        assert(q.take(k - 1) =~= b.take(k).drop_first());
        lemma_dictionary_order(p, q, k - 1);
        assert(logs::no_later(a, b) == logs::no_later(p, q));
        assert(k < a.len() ==> p[k - 1] == a[k]);
        assert(k < b.len() ==> q[k - 1] == b[k]);
    }
}

/// The files that are read are those whose names end in `.jsonl` and have something before that,
/// each as often as it is there.
pub proof fn lemma_log_files_are_all(names: &Vec<String>, r: Vec<String>, name: Seq<char>)
    requires
        call_ensures(logs::log_files, (names,), r),
    ensures
        text::views(r@).contains(name) <==> (text::views(names@).contains(name) && name.len() > 6
            && name.skip(name.len() - 6) == seq!['.', 'j', 's', 'o', 'n', 'l']),
        forall|i: int, j: int|
            0 <= i < j < r@.len() ==> logs::no_later(#[trigger] r@[i]@, #[trigger] r@[j]@),
{
    reveal_strlit(".jsonl");
    let all = text::views(names@);
    let got = text::views(r@);
    let keep = |n: Seq<char>| logs::is_log_file(n);
    let kept = all.filter(keep);
    got.to_multiset_ensures();
    kept.to_multiset_ensures();
    assert(got.contains(name) <==> got.to_multiset().count(name) > 0);
    assert(kept.contains(name) <==> kept.to_multiset().count(name) > 0);
    assert(".jsonl"@ =~= seq!['.', 'j', 's', 'o', 'n', 'l']);
    if name.len() > 6 {
        assert(name.skip(name.len() - 6) =~= name.subrange(name.len() - 6, name.len() as int));
    }
    if kept.contains(name) {
        let k = choose|k: int| 0 <= k < kept.len() && kept[k] == name;
        all.lemma_filter_pred(keep, k);
        all.lemma_filter_contains_rev(keep, name);
    }
    if all.contains(name) && keep(name) {
        let i = choose|i: int| 0 <= i < all.len() && all[i] == name;
        all.lemma_filter_contains(keep, i);
    }
    assert forall|i: int, j: int| 0 <= i < j < r@.len() implies logs::no_later(
        #[trigger] r@[i]@,
        #[trigger] r@[j]@,
    ) by {
        assert(got[i] == r@[i]@ && got[j] == r@[j]@);
    }
}

// ------------------------------------------------------------------------------- writing

/// A record is written as one line, to the file of the day that its instant begins with; that
/// file is opened exactly where another one is open, or none.
pub proof fn lemma_record_is_appended(
    current: Option<&str>,
    rec: &LogRecord,
    day: Seq<char>,
    rest: Seq<char>,
    r: Append,
)
    requires
        call_ensures(logs::append, (current, rec), r),
        rec.ts@ == day + rest,
        day.len() == 10,
        forall|i: int| 0 <= i < day.len() ==> (#[trigger] day[i] as u32) < 128,
    ensures
        r.date@ == day,
        (r.open is None) <==> (current matches Some(c) && c@ == day),
        r.open matches Some(name) ==> name@ == day + ".jsonl"@,
        r.line@.len() > 0 && r.line@.last() == '\n',
        r.line@ == json::compact_text(
            json::value_of(
                json::JsonView::Object(
                    seq![
                        ("ts"@, json::JsonView::Text(rec.ts@)),
                        ("job_id"@, json::JsonView::Text(rec.job_id@)),
                        ("run_id"@, json::JsonView::Text(rec.run_id@)),
                        ("attempt"@, json::JsonView::Count(rec.attempt as u64)),
                        ("stream"@, json::JsonView::Text(rec.stream@)),
                        ("text"@, json::JsonView::Text(rec.text@)),
                    ],
                ),
            ),
        ) + seq!['\n'],
{
    logs::lemma_ascii_bytes(day);
    text::lemma_boundary_after(day, rest);
    text::lemma_encode_concat(day, rest);
    assert(encode_utf8(day + rest).take(10) =~= encode_utf8(day));
    encode_utf8_decode_utf8(day);
    assert(logs::day_of(rec.ts@) == day);
    reveal_strlit("\n");
    assert("\n"@ =~= seq!['\n']);
}

// ------------------------------------------------------------------------------- showing

/// Each record is shown on a line of its own, with its instant, its stream and its text, behind
/// those before it; without a record that is said.
pub proof fn lemma_each_record_is_shown(
    fewer: &Vec<LogRecord>,
    more: &Vec<LogRecord>,
    rec: LogRecord,
    a: String,
    b: String,
)
    requires
        call_ensures(run_report::render_logs_human, (fewer,), a),
        call_ensures(run_report::render_logs_human, (more,), b),
        more@ == fewer@.push(rec),
    ensures
        fewer@.len() == 0 ==> a@ == "no output\n"@ && b@ == rec.ts@ + "  "@ + rec.stream@ + "  "@
            + rec.text@ + "\n"@,
        fewer@.len() > 0 ==> b@ == a@ + (rec.ts@ + "  "@ + rec.stream@ + "  "@ + rec.text@
            + "\n"@),
{
    assert(more@.drop_last() =~= fewer@);
    assert(more@.last() == rec);
    if fewer@.len() == 0 {
        assert(run_report::output_lines(fewer@) =~= Seq::empty());
        assert(run_report::output_lines(more@) =~= rec.ts@ + "  "@ + rec.stream@ + "  "@ + rec.text@
            + "\n"@);
    }
}

/// Each run is shown on a line of its own, with its id, status, trigger and start, behind those
/// before it, and all are counted.
pub proof fn lemma_each_run_is_shown(
    fewer: &Vec<RunRow>,
    more: &Vec<RunRow>,
    row: RunRow,
    a: String,
    b: String,
)
    requires
        call_ensures(run_report::render_runs_human, (fewer,), a),
        call_ensures(run_report::render_runs_human, (more,), b),
        more@ == fewer@.push(row),
    ensures
        ({
            let foot_a = "\n"@ + text::decimal(fewer@.len()) + " run(s)\n"@;
            let foot_b = "\n"@ + text::decimal(fewer@.len() + 1) + " run(s)\n"@;
            let line = row.id@ + "  "@ + row.status@ + "  "@ + row.trigger@ + "  "@ + (
            match row.started_at {
                Some(s) => s@,
                None => "\u{2014}"@,
            }) + "\n"@;
            &&& fewer@.len() == 0 ==> a@ == foot_a
            &&& exists|head: Seq<char>|
                a@ == #[trigger] (head + foot_a) && b@ == head + line + foot_b
        }),
{
    assert(more@.drop_last() =~= fewer@);
    assert(more@.last() == row);
    let head = run_report::run_lines(fewer@);
    let foot_a = "\n"@ + text::decimal(fewer@.len()) + " run(s)\n"@;
    let foot_b = "\n"@ + text::decimal(fewer@.len() + 1) + " run(s)\n"@;
    let line = run_report::run_line(row);
    assert(a@ =~= head + foot_a);
    assert(b@ =~= head + line + foot_b);
    if fewer@.len() == 0 {
        assert(head =~= Seq::empty());
    }
}

/// Asking for the runs or the output of a job that is not known is an error; of a known one it
/// is none, even where there is nothing to show.
pub proof fn lemma_only_unknown_jobs_fail(
    id: &str,
    known: bool,
    runs: &Vec<RunRow>,
    records: &Vec<LogRecord>,
    format: OutputFormat,
    a: Printed,
    b: Printed,
)
    requires
        call_ensures(commands::run_jobs_history, (id, known, runs, format), a),
        call_ensures(commands::run_logs, (id, known, records, format), b),
    ensures
        (a.code == 0) <==> known,
        (b.code == 0) <==> known,
        !known ==> a.code == 1 && a.out@.len() == 0 && a.err@ == "error: "@ + ("no such job: "@
            + id@) + "\n"@ && b@ == a@,
        known ==> a.err@.len() == 0 && b.err@.len() == 0,
        known && format == OutputFormat::Human && records@.len() == 0 ==> b.out@ == "no output\n"@,
{
    assert(a@.code == a.code && a@.out == a.out@ && a@.err == a.err@);
    assert(b@.code == b.code && b@.out == b.out@ && b@.err == b.err@);
}

/// The command that runs a job ends with zero exactly where the run succeeded.
pub proof fn lemma_run_decides_exit_code(outcome: &RunOutcome, format: OutputFormat, r: Printed)
    requires
        call_ensures(commands::run_jobs_run, (outcome, format), r),
    ensures
        (r.code == 0) <==> outcome.status == RunStatus::Success,
        r.code <= 1,
        r.err@.len() == 0,
{
}

/// What is shown of a run that ended names it and its job, its status, exit code and attempts.
pub proof fn lemma_outcome_is_shown(o: &RunOutcome, r: String)
    requires
        call_ensures(run_report::render_run_human, (o,), r),
    ensures
        r@ == "run:       "@ + o.id@ + "\njob:       "@ + o.job_id@ + "\nstatus:    "@ + (
        match o.status {
            RunStatus::Success => "success"@,
            RunStatus::Failed => "failed"@,
            RunStatus::Timeout => "timeout"@,
            RunStatus::Cancelled => "cancelled"@,
        }) + "\nexit code: "@ + (match o.exit_code {
            Some(c) => text::signed_decimal(c as int),
            None => "\u{2014}"@,
        }) + "\nattempts:  "@ + text::decimal(o.attempts as nat) + "\nstarted:   "@ + o.started_at@
            + "\nfinished:  "@ + o.finished_at@ + "\n"@,
{
}

} // verus!
