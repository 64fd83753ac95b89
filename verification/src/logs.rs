//! Run output: one JSON line per captured line, kept in one file per day.

use crate::calendar;
use crate::config;
use crate::json;
use crate::json::{field, object, to_compact, Field, Json};
use crate::occurrence;
use crate::scheduler;
use crate::text;
use crate::text::{byte_length, chars_of, same, split_bytes};
use crate::zone;
use vstd::prelude::*;
use vstd::string::*;
use vstd::utf8::*;

verus! {

/// A captured line of output. `ts` is the instant it was captured at, and `stream` is `stdout`
/// or `stderr`.
#[derive(Debug)]
pub struct LogRecord {
    pub ts: String,
    pub job_id: String,
    pub run_id: String,
    pub attempt: u32,
    pub stream: String,
    pub text: String,
}

/// A [`LogRecord`] with its texts taken as characters.
#[verifier::ext_equal]
pub struct RecordView {
    pub ts: Seq<char>,
    pub job_id: Seq<char>,
    pub run_id: Seq<char>,
    pub attempt: u32,
    pub stream: Seq<char>,
    pub text: Seq<char>,
}

impl View for LogRecord {
    type V = RecordView;

    open spec fn view(&self) -> RecordView {
        RecordView {
            ts: self.ts@,
            job_id: self.job_id@,
            run_id: self.run_id@,
            attempt: self.attempt,
            stream: self.stream@,
            text: self.text@,
        }
    }
}

pub open spec fn record_views(v: Seq<LogRecord>) -> Seq<RecordView> {
    v.map_values(|r: LogRecord| r@)
}

// ----------------------------------------------------------------------------- writing

/// The day that an instant's text begins with: its first ten bytes, or all of it where it is
/// shorter or a character stands across the tenth byte.
pub open spec fn day_of(ts: Seq<char>) -> Seq<char> {
    if text::is_boundary(ts, 10) {
        text::first_bytes(ts, 10)
    } else {
        ts
    }
}

/// The file that a record belongs in.
pub open spec fn file_of(rec: RecordView) -> Seq<char> {
    day_of(rec.ts) + ".jsonl"@
}

/// The JSON shape of a record.
pub open spec fn record_json(rec: RecordView) -> json::JsonView {
    json::JsonView::Object(
        seq![
            ("ts"@, json::JsonView::Text(rec.ts)),
            ("job_id"@, json::JsonView::Text(rec.job_id)),
            ("run_id"@, json::JsonView::Text(rec.run_id)),
            ("attempt"@, json::JsonView::Count(rec.attempt as u64)),
            ("stream"@, json::JsonView::Text(rec.stream)),
            ("text"@, json::JsonView::Text(rec.text)),
        ],
    )
}

/// The day that an instant's text begins with.
pub fn date_of(ts: &str) -> (r: &str)
    ensures
        r@ == day_of(ts@),
{
    if byte_length(ts) >= 10 && ts.is_char_boundary(10) {
        split_bytes(ts, 10).0
    } else {
        ts
    }
}

/// The JSON value of a record.
pub fn record_value(rec: &LogRecord) -> (r: Json)
    ensures
        r@ == record_json(rec@),
{
    let mut fields: Vec<Field> = Vec::new();
    fields.push(field("ts", json::text(rec.ts.as_str())));
    fields.push(field("job_id", json::text(rec.job_id.as_str())));
    fields.push(field("run_id", json::text(rec.run_id.as_str())));
    fields.push(field("attempt", Json::Count(rec.attempt as u64)));
    fields.push(field("stream", json::text(rec.stream.as_str())));
    fields.push(field("text", json::text(rec.text.as_str())));
    assert(json::field_views(fields@) =~= record_json(rec@)->Object_0);
    object(fields)
}

/// How a record is appended: the file to open first, where another one than the day's is open,
/// and the line to write.
#[derive(Debug)]
pub struct Append {
    pub date: String,
    pub open: Option<String>,
    pub line: String,
}

/// How to append a record while the file of the day `current` is open.
pub fn append(current: Option<&str>, rec: &LogRecord) -> (r: Append)
    ensures
        r.date@ == day_of(rec.ts@),
        text::opt_view(r.open) == (if config::opt_str_view(current) == Some(day_of(rec.ts@)) {
            None
        } else {
            Some(file_of(rec@))
        }),
        r.line@ == json::compact_text(json::value_of(record_json(rec@))) + "\n"@,
{
    let date = date_of(rec.ts.as_str());
    let is_open = match current {
        Some(day) => same(day, date),
        None => false,
    };
    let open = if is_open {
        None
    } else {
        let mut name = date.to_owned();
        name.append(".jsonl");
        Some(name)
    };
    let mut line = to_compact(&record_value(rec));
    line.append("\n");
    Append { date: date.to_owned(), open, line }
}

// ----------------------------------------------------------------------------- reading

/// Whether a file holds records: its extension is `jsonl`.
pub open spec fn is_log_file(name: Seq<char>) -> bool {
    name.len() > 6 && ".jsonl"@.is_suffix_of(name)
}

/// Whether a text comes no later than another in the order of their characters.
pub open spec fn no_later(a: Seq<char>, b: Seq<char>) -> bool
    decreases a.len(),
{
    if a.len() == 0 {
        true
    } else if b.len() == 0 {
        false
    } else {
        a[0] < b[0] || (a[0] == b[0] && no_later(a.drop_first(), b.drop_first()))
    }
}

/// Whether the names are in order.
pub open spec fn in_order(names: Seq<Seq<char>>) -> bool {
    forall|i: int, j: int| 0 <= i < j < names.len() ==> no_later(#[trigger] names[i], #[trigger] names[j])
}

/// Whether a record is of the job, and of the run where one is asked for.
pub open spec fn is_wanted(
    rec: RecordView,
    job_id: Seq<char>,
    run_id: Option<Seq<char>>,
) -> bool {
    rec.job_id == job_id && (run_id matches Some(run) ==> rec.run_id == run)
}

/// The wanted records, in order; a line that could not be read counts for nothing.
pub open spec fn wanted(
    parsed: Seq<Option<RecordView>>,
    job_id: Seq<char>,
    run_id: Option<Seq<char>>,
) -> Seq<RecordView>
    decreases parsed.len(),
{
    if parsed.len() == 0 {
        Seq::empty()
    } else {
        let head = wanted(parsed.drop_last(), job_id, run_id);
        match parsed.last() {
            Some(rec) => if is_wanted(rec, job_id, run_id) {
                head.push(rec)
            } else {
                head
            },
            None => head,
        }
    }
}

pub open spec fn parsed_views(v: Seq<Option<LogRecord>>) -> Seq<Option<RecordView>> {
    v.map_values(
        |o: Option<LogRecord>|
            match o {
                Some(r) => Some(r@),
                None => None,
            },
    )
}

fn log_file(name: &str) -> (r: bool)
    ensures
        r == is_log_file(name@),
{
    proof {
        reveal_strlit(".jsonl");
    }
    let v = chars_of(name);
    let n = v.len();
    if n <= 6 {
        return false;
    }
    let r = v[n - 6] == '.' && v[n - 5] == 'j' && v[n - 4] == 's' && v[n - 3] == 'o' && v[n - 2]
        == 'n' && v[n - 1] == 'l';
    proof {
        let tail = name@.subrange(n - 6, n as int);
        assert(".jsonl"@ =~= seq!['.', 'j', 's', 'o', 'n', 'l']);
        if r {
            assert(tail =~= ".jsonl"@);
        } else if is_log_file(name@) {
            assert(tail =~= ".jsonl"@);
            assert(tail[0] == '.' && tail[1] == 'j' && tail[2] == 's' && tail[3] == 'o' && tail[4]
                == 'n' && tail[5] == 'l');
        }
    }
    r
}

fn precedes(a: &str, b: &str) -> (r: bool)
    ensures
        r == no_later(a@, b@),
{
    let x = chars_of(a);
    let y = chars_of(b);
    let mut i: usize = 0;
    assert(a@.skip(0) =~= a@);
    assert(b@.skip(0) =~= b@);
    while i < x.len() && i < y.len()
        invariant
            x@ == a@,
            y@ == b@,
            i <= x.len(),
            i <= y.len(),
            no_later(a@, b@) == no_later(a@.skip(i as int), b@.skip(i as int)),
        decreases x.len() - i,
    {
        assert(a@.skip(i as int).drop_first() =~= a@.skip(i as int + 1));
        assert(b@.skip(i as int).drop_first() =~= b@.skip(i as int + 1));
        if x[i] < y[i] {
            return true;
        }
        if x[i] > y[i] {
            return false;
        }
        i += 1;
    }
    i == x.len()
}

proof fn lemma_no_later_total(a: Seq<char>, b: Seq<char>)
    ensures
        no_later(a, b) || no_later(b, a),
    decreases a.len(),
{
    if a.len() > 0 && b.len() > 0 {
        lemma_no_later_total(a.drop_first(), b.drop_first());
    }
}

proof fn lemma_no_later_transitive(a: Seq<char>, b: Seq<char>, c: Seq<char>)
    requires
        no_later(a, b),
        no_later(b, c),
    ensures
        no_later(a, c),
    decreases a.len(),
{
    if a.len() > 0 && b.len() > 0 && c.len() > 0 {
        if a[0] == b[0] && b[0] == c[0] {
            lemma_no_later_transitive(a.drop_first(), b.drop_first(), c.drop_first());
        }
    }
}

/// Puts a name where it belongs among names that are in order.
fn insert_name(names: &mut Vec<String>, name: String)
    requires
        in_order(text::views(old(names)@)),
    ensures
        in_order(text::views(final(names)@)),
        text::views(final(names)@).to_multiset() == text::views(old(names)@).to_multiset().insert(
            name@,
        ),
{
    let ghost before = text::views(names@);
    let mut i: usize = 0;
    while i < names.len() && precedes(names[i].as_str(), name.as_str())
        invariant
            i <= names@.len(),
            before == text::views(names@),
            forall|k: int| 0 <= k < i ==> no_later(#[trigger] before[k], name@),
        decreases names.len() - i,
    {
        assert(before[i as int] == names@[i as int]@);
        i += 1;
    }
    let ghost new = name@;
    names.insert(i, name);
    proof {
        let after = text::views(names@);
        assert(after =~= before.insert(i as int, new));
        vstd::seq_lib::to_multiset_insert(before, i as int, new);
        assert forall|a: int, b: int| 0 <= a < b < after.len() implies no_later(
            #[trigger] after[a],
            #[trigger] after[b],
        ) by {
            if b < i {
                assert(no_later(before[a], before[b]));
            } else if b == i {
            } else if a < i {
                assert(no_later(before[a], before[b - 1]));
            } else if a == i {
                lemma_no_later_total(new, before[i as int]);
                if b - 1 > i {
                    assert(no_later(before[i as int], before[b - 1]));
                    lemma_no_later_transitive(new, before[i as int], before[b - 1]);
                }
            } else {
                assert(no_later(before[a - 1], before[b - 1]));
            }
        }
    }
}

/// The files of a directory that hold records, in order of their names and so of their days.
pub fn log_files(names: &Vec<String>) -> (r: Vec<String>)
    ensures
        in_order(text::views(r@)),
        text::views(r@).to_multiset() == text::views(names@).filter(
            |name: Seq<char>| is_log_file(name),
        ).to_multiset(),
{
    let mut r: Vec<String> = Vec::new();
    let ghost all = text::views(names@);
    let ghost keep = |name: Seq<char>| is_log_file(name);
    let mut i: usize = 0;
    assert(text::views(r@) =~= Seq::<Seq<char>>::empty());
    assert(all.take(0).filter(keep) =~= Seq::<Seq<char>>::empty()) by {
        reveal(Seq::filter);
    }
    while i < names.len()
        invariant
            i <= names@.len(),
            all == text::views(names@),
            keep == (|name: Seq<char>| is_log_file(name)),
            in_order(text::views(r@)),
            text::views(r@).to_multiset() == all.take(i as int).filter(keep).to_multiset(),
        decreases names.len() - i,
    {
        proof {
            let seen = all.take(i as int + 1);
            assert(seen.drop_last() =~= all.take(i as int));
            assert(seen.last() == names@[i as int]@);
            assert(seen.filter(keep) == (if keep(seen.last()) {
                all.take(i as int).filter(keep).push(seen.last())
            } else {
                all.take(i as int).filter(keep)
            })) by {
                reveal(Seq::filter);
            }
            all.take(i as int).filter(keep).to_multiset_ensures();
        }
        if log_file(names[i].as_str()) {
            insert_name(&mut r, names[i].clone());
        }
        i += 1;
    }
    assert(all.take(i as int) =~= all);
    r
}

fn wants(rec: &LogRecord, job_id: &str, run_id: Option<&str>) -> (r: bool)
    ensures
        r == is_wanted(rec@, job_id@, config::opt_str_view(run_id)),
{
    if !same(rec.job_id.as_str(), job_id) {
        return false;
    }
    match run_id {
        Some(run) => same(rec.run_id.as_str(), run),
        None => true,
    }
}

/// The records of a job, and of one of its runs where one is asked for, in the order of the
/// lines. A line that could not be read is passed over.
pub fn read_logs(parsed: Vec<Option<LogRecord>>, job_id: &str, run_id: Option<&str>) -> (r: Vec<
    LogRecord,
>)
    ensures
        record_views(r@) == wanted(
            parsed_views(parsed@),
            job_id@,
            config::opt_str_view(run_id),
        ),
{
    let mut r: Vec<LogRecord> = Vec::new();
    let ghost all = parsed_views(parsed@);
    let ghost run = config::opt_str_view(run_id);
    let ghost lines = parsed@;
    let mut rest = parsed;
    let n = rest.len();
    let mut i: usize = 0;
    assert(record_views(r@) =~= wanted(all.take(0), job_id@, run));
    while i < n
        invariant
            i <= n,
            n == rest@.len(),
            n == lines.len(),
            run == config::opt_str_view(run_id),
            all == parsed_views(lines),
            forall|k: int| i <= k < n ==> rest@[k] == lines[k],
            record_views(r@) == wanted(all.take(i as int), job_id@, run),
        decreases n - i,
    {
        let mut next: Option<LogRecord> = None;
        std::mem::swap(&mut rest[i], &mut next);
        proof {
            let seen = all.take(i as int + 1);
            assert(seen.drop_last() =~= all.take(i as int));
            assert(seen.last() == all[i as int]);
        }
        if let Some(rec) = next {
            if wants(&rec, job_id, run_id) {
                let ghost before = r@;
                r.push(rec);
                assert(record_views(r@) =~= record_views(before).push(rec@));
            }
        }
        i += 1;
    }
    assert(all.take(i as int) =~= all);
    r
}

// -------------------------------------------------------------------------------- laws

/// A file that records are appended to is one that they are read from, where the record has an
/// instant.
pub proof fn lemma_written_file_is_read(rec: RecordView)
    requires
        day_of(rec.ts).len() > 0,
    ensures
        is_log_file(file_of(rec)),
{
    reveal_strlit(".jsonl");
    let name = file_of(rec);
    assert(name.subrange(name.len() - 6, name.len() as int) =~= ".jsonl"@);
}

/// All lines that are read are of the job, and of the run where one is asked for.
pub proof fn lemma_read_lines_are_wanted(
    parsed: Seq<Option<RecordView>>,
    job_id: Seq<char>,
    run_id: Option<Seq<char>>,
    i: int,
)
    requires
        0 <= i < wanted(parsed, job_id, run_id).len(),
    ensures
        is_wanted(wanted(parsed, job_id, run_id)[i], job_id, run_id),
    decreases parsed.len(),
{
    let head = wanted(parsed.drop_last(), job_id, run_id);
    if i < head.len() {
        lemma_read_lines_are_wanted(parsed.drop_last(), job_id, run_id, i);
    }
}

/// The records of two lots of lines are those of the first and then those of the second, so
/// that reading file after file keeps the order of the days.
pub proof fn lemma_read_in_order(
    a: Seq<Option<RecordView>>,
    b: Seq<Option<RecordView>>,
    job_id: Seq<char>,
    run_id: Option<Seq<char>>,
)
    ensures
        wanted(a + b, job_id, run_id) == wanted(a, job_id, run_id) + wanted(b, job_id, run_id),
    decreases b.len(),
{
    if b.len() == 0 {
        assert(a + b =~= a);
    } else {
        lemma_read_in_order(a, b.drop_last(), job_id, run_id);
        assert((a + b).drop_last() =~= a + b.drop_last());
        assert((a + b).last() == b.last());
    }
    assert(wanted(a + b, job_id, run_id) =~= wanted(a, job_id, run_id) + wanted(b, job_id, run_id));
}

/// A date as the name of a file begins with it.
pub open spec fn date_text(y: int, m: int, d: int) -> Seq<char> {
    zone::padded(y as nat, 4) + seq!['-'] + zone::padded(m as nat, 2) + seq!['-'] + zone::padded(
        d as nat,
        2,
    )
}

spec fn ten_to(w: nat) -> nat
    decreases w,
{
    if w == 0 {
        1
    } else {
        10 * ten_to((w - 1) as nat)
    }
}

proof fn lemma_common_head(head: Seq<char>, a: Seq<char>, b: Seq<char>)
    requires
        no_later(a, b),
    ensures
        no_later(head + a, head + b),
    decreases head.len(),
{
    if head.len() == 0 {
        assert(head + a =~= a);
        assert(head + b =~= b);
    } else {
        lemma_common_head(head.drop_first(), a, b);
        assert((head + a).drop_first() =~= head.drop_first() + a);
        assert((head + b).drop_first() =~= head.drop_first() + b);
    }
}

/// Of two numbers that fit in as many digits, the smaller one comes first.
proof fn lemma_padded_order(a: nat, b: nat, w: nat, x: Seq<char>, y: Seq<char>)
    requires
        a < b < ten_to(w),
    ensures
        no_later(zone::padded(a, w) + x, zone::padded(b, w) + y),
    decreases w,
{
    if w > 0 {
        let v = (w - 1) as nat;
        let (p, q) = (text::digit_char(a % 10), text::digit_char(b % 10));
        assert(zone::padded(a, w) + x =~= zone::padded(a / 10, v) + (seq![p] + x));
        assert(zone::padded(b, w) + y =~= zone::padded(b / 10, v) + (seq![q] + y));
        if a / 10 < b / 10 {
            lemma_padded_order(a / 10, b / 10, v, seq![p] + x, seq![q] + y);
        } else {
            assert(a / 10 == b / 10);
            assert(p < q);
            assert(no_later(seq![p] + x, seq![q] + y));
            lemma_common_head(zone::padded(a / 10, v), seq![p] + x, seq![q] + y);
        }
    }
}

proof fn lemma_date_text_order(y: int, m: int, d: int, z: int, k: int, e: int, x: Seq<char>)
    requires
        calendar::valid_date(y, m, d),
        calendar::valid_date(z, k, e),
        0 <= y <= 9999,
        0 <= z <= 9999,
        y < z || (y == z && (m < k || (m == k && d <= e))),
    ensures
        no_later(date_text(y, m, d) + x, date_text(z, k, e) + x),
{
    assert(ten_to(4) == 10000 && ten_to(2) == 100) by {
        reveal_with_fuel(ten_to, 5);
    }
    let (py, pz) = (zone::padded(y as nat, 4), zone::padded(z as nat, 4));
    let (pm, pk) = (zone::padded(m as nat, 2), zone::padded(k as nat, 2));
    let (pd, pe) = (zone::padded(d as nat, 2), zone::padded(e as nat, 2));
    assert(date_text(y, m, d) + x =~= py + (seq!['-'] + pm + seq!['-'] + pd + x));
    assert(date_text(z, k, e) + x =~= pz + (seq!['-'] + pk + seq!['-'] + pe + x));
    if y < z {
        lemma_padded_order(
            y as nat,
            z as nat,
            4,
            seq!['-'] + pm + seq!['-'] + pd + x,
            seq!['-'] + pk + seq!['-'] + pe + x,
        );
    } else if m < k {
        let head = py + seq!['-'];
        lemma_padded_order(m as nat, k as nat, 2, seq!['-'] + pd + x, seq!['-'] + pe + x);
        lemma_common_head(head, pm + (seq!['-'] + pd + x), pk + (seq!['-'] + pe + x));
        assert(date_text(y, m, d) + x =~= head + (pm + (seq!['-'] + pd + x)));
        assert(date_text(z, k, e) + x =~= head + (pk + (seq!['-'] + pe + x)));
    } else {
        let head = py + seq!['-'] + pm + seq!['-'];
        if d < e {
            lemma_padded_order(d as nat, e as nat, 2, x, x);
        } else {
            lemma_no_later_total(pd + x, pe + x);
        }
        lemma_common_head(head, pd + x, pe + x);
        assert(date_text(y, m, d) + x =~= head + (pd + x));
        assert(date_text(z, k, e) + x =~= head + (pe + x));
    }
}

pub(crate) proof fn lemma_ascii_bytes(s: Seq<char>)
    requires
        forall|i: int| 0 <= i < s.len() ==> (#[trigger] s[i] as u32) < 128,
    ensures
        encode_utf8(s).len() == s.len(),
    decreases s.len(),
{
    if s.len() > 0 {
        assert(s.drop_first().len() == s.len() - 1);
        assert forall|i: int| 0 <= i < s.drop_first().len() implies (#[trigger] s.drop_first()[i]
            as u32) < 128 by {
            assert(s.drop_first()[i] == s[i + 1]);
        }
        lemma_ascii_bytes(s.drop_first());
        assert((s[0] as u32) < 128);
        assert(encode_scalar(s[0] as u32).len() == 1);
    }
}

/// The day that an instant's text begins with is its date, for the years of four digits.
pub proof fn lemma_day_is_date(wall: int, nanos: int, y: int, m: int, d: int)
    requires
        calendar::valid_date(y, m, d),
        wall / 86400 == calendar::day_number(y, m, d),
        0 <= y <= 9999,
    ensures
        day_of(zone::rfc3339_text(wall, nanos, 0)) == date_text(y, m, d),
{
    scheduler::lemma_civil(y, m, d);
    let day = date_text(y, m, d);
    let s = wall % 86400;
    let rest = seq!['T'] + zone::padded((s / 3600) as nat, 2) + seq![':'] + zone::padded(
        (s % 3600 / 60) as nat,
        2,
    ) + seq![':'] + zone::padded((s % 60) as nat, 2) + zone::fraction_text(nanos)
        + zone::offset_text(0);
    assert(zone::rfc3339_text(wall, nanos, 0) =~= day + rest);
    occurrence::lemma_padded(y as nat, 4);
    occurrence::lemma_padded(m as nat, 2);
    occurrence::lemma_padded(d as nat, 2);
    assert(day.len() == 10);
    lemma_ascii_bytes(day);
    text::lemma_boundary_after(day, rest);
    text::lemma_encode_concat(day, rest);
    assert(encode_utf8(day + rest).take(10) =~= encode_utf8(day));
    encode_utf8_decode_utf8(day);
}

/// The files' order is that of the days: a line that was captured no later stands in the same
/// file or an earlier one, for the years of four digits.
pub proof fn lemma_files_are_chronological(
    a: RecordView,
    wall_a: int,
    nanos_a: int,
    date_a: (int, int, int),
    b: RecordView,
    wall_b: int,
    nanos_b: int,
    date_b: (int, int, int),
)
    requires
        a.ts == zone::rfc3339_text(wall_a, nanos_a, 0),
        b.ts == zone::rfc3339_text(wall_b, nanos_b, 0),
        calendar::valid_date(date_a.0, date_a.1, date_a.2),
        calendar::valid_date(date_b.0, date_b.1, date_b.2),
        wall_a / 86400 == calendar::day_number(date_a.0, date_a.1, date_a.2),
        wall_b / 86400 == calendar::day_number(date_b.0, date_b.1, date_b.2),
        0 <= date_a.0 <= 9999,
        0 <= date_b.0 <= 9999,
        wall_a <= wall_b,
    ensures
        no_later(file_of(a), file_of(b)),
{
    let (y, m, d) = date_a;
    let (z, k, e) = date_b;
    lemma_day_is_date(wall_a, nanos_a, y, m, d);
    lemma_day_is_date(wall_b, nanos_b, z, k, e);
    if z < y || (z == y && (k < m || (k == m && e < d))) {
        calendar::lemma_date_order(z, k, e, y, m, d);
    }
    lemma_date_text_order(y, m, d, z, k, e, ".jsonl"@);
}

} // verus!
