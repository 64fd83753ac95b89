//! What holds of the hash of every job: the text that is hashed, line by line, and how the bytes
//! of the digest are written.

use crate::config::{EffectiveJob, MissedRunPolicy, NormalizedSchedule, OverlapPolicy};
use crate::config_hash;
use crate::escape;
use crate::escape::Place;
use crate::text;
use vstd::prelude::*;
use vstd::utf8::*;

verus! {

/// The number that a digit of base sixteen stands for.
pub open spec fn hex_value(c: char) -> int {
    if '0' <= c <= '9' {
        c as int - '0' as int
    } else {
        c as int - 'a' as int + 10
    }
}

/// Each byte is written as two digits of base sixteen in small letters, the greater one first.
pub proof fn lemma_bytes_are_written(bytes: &Vec<u8>, r: String, i: int)
    requires
        call_ensures(config_hash::hex_text, (bytes,), r),
        0 <= i < bytes@.len(),
    ensures
        r@.len() == 2 * bytes@.len(),
        0 <= hex_value(r@[2 * i]) < 16,
        0 <= hex_value(r@[2 * i + 1]) < 16,
        16 * hex_value(r@[2 * i]) + hex_value(r@[2 * i + 1]) == bytes@[i],
        '0' <= r@[2 * i] <= '9' || 'a' <= r@[2 * i] <= 'f',
        '0' <= r@[2 * i + 1] <= '9' || 'a' <= r@[2 * i + 1] <= 'f',
{
    lemma_hex(bytes@, i);
}

proof fn lemma_hex(bytes: Seq<u8>, i: int)
    requires
        0 <= i < bytes.len(),
    ensures
        config_hash::hex(bytes).len() == 2 * bytes.len(),
        ({
            let (a, b) = (config_hash::hex(bytes)[2 * i], config_hash::hex(bytes)[2 * i + 1]);
            &&& ('0' <= a <= '9' || 'a' <= a <= 'f')
            &&& ('0' <= b <= '9' || 'a' <= b <= 'f')
            &&& 16 * hex_value(a) + hex_value(b) == bytes[i]
        }),
    decreases bytes.len(),
{
    config_hash::lemma_hex_shape(bytes);
    config_hash::lemma_hex_shape(bytes.drop_last());
    let head = config_hash::hex(bytes.drop_last());
    let all = config_hash::hex(bytes);
    let last = bytes.last() as int;
    assert(all == head.push(config_hash::hex_digit(last / 16)).push(
        config_hash::hex_digit(last % 16),
    ));
    if i < bytes.len() - 1 {
        lemma_hex(bytes.drop_last(), i);
        assert(all[2 * i] == head[2 * i]);
        assert(all[2 * i + 1] == head[2 * i + 1]);
    } else {
        lemma_digit(last / 16);
        lemma_digit(last % 16);
    }
}

proof fn lemma_digit(n: int)
    requires
        0 <= n < 16,
    ensures
        ({
            let c = config_hash::hex_digit(n);
            ('0' <= c <= '9' || 'a' <= c <= 'f') && hex_value(c) == n
        }),
{
}

/// The text of a job has a line for each field that a run depends on, under the name of the field,
/// and none for its id, title or tags.
pub proof fn lemma_job_text_has_its_lines(job: &EffectiveJob, schedule: String, r: String)
    requires
        call_ensures(config_hash::canonical_schedule, (&job.schedule,), schedule),
        call_ensures(config_hash::canonical_job, (job,), r),
    ensures
        r@ == ("enabled="@ + (if job.enabled {
            "true"@
        } else {
            "false"@
        }) + "\n"@) + ("schedule="@ + schedule@ + "\n"@) + ("command="@ + escape::escaped(
            job.command@,
            Place::Line,
        ) + "\n"@) + ("args="@ + escape::listed(text::views(job.args@), Place::Line, '\u{1f}')
            + "\n"@) + ("cwd="@ + escape::optional(text::opt_view(job.cwd), Place::Line) + "\n"@) + (
        "timeout_secs="@ + (match job.timeout_secs {
            Some(n) => text::decimal(n as nat),
            None => Seq::<char>::empty(),
        }) + "\n"@) + ("timezone="@ + escape::optional(text::opt_view(job.timezone), Place::Line)
            + "\n"@) + ("overlap="@ + (match job.overlap_policy {
            OverlapPolicy::Skip => "Skip"@,
            OverlapPolicy::Queue => "Queue"@,
            OverlapPolicy::Kill => "Kill"@,
        }) + "\n"@) + ("missed="@ + (match job.missed_run_policy {
            MissedRunPolicy::Skip => "Skip"@,
            MissedRunPolicy::RunOnce => "RunOnce"@,
            MissedRunPolicy::RunAll => "RunAll"@,
        }) + "\n"@) + ("max_retries="@ + text::decimal(job.max_retries as nat) + "\n"@),
{
    let lines = config_hash::job_lines(job@);
    lemma_terminated(lines);
}

spec fn ended(line: Seq<char>) -> Seq<char> {
    line + "\n"@
}

proof fn lemma_terminated(v: Seq<Seq<char>>)
    requires
        v.len() == 10,
    ensures
        config_hash::terminated(v) == ended(v[0]) + ended(v[1]) + ended(v[2]) + ended(v[3]) + ended(
            v[4],
        ) + ended(v[5]) + ended(v[6]) + ended(v[7]) + ended(v[8]) + ended(v[9]),
{
    lemma_step(v, 9);
    lemma_step(v, 8);
    lemma_step(v, 7);
    lemma_step(v, 6);
    lemma_step(v, 5);
    lemma_step(v, 4);
    lemma_step(v, 3);
    lemma_step(v, 2);
    lemma_step(v, 1);
    lemma_step(v, 0);
    assert(v.skip(10).len() == 0);
    assert(v.skip(0) =~= v);
    lemma_regroup(v);
}

proof fn lemma_step(v: Seq<Seq<char>>, i: int)
    requires
        0 <= i < v.len(),
    ensures
        config_hash::terminated(v.skip(i)) == ended(v[i]) + config_hash::terminated(v.skip(i + 1)),
{
    assert(v.skip(i).drop_first() =~= v.skip(i + 1));
    assert(v.skip(i)[0] == v[i]);
}

proof fn lemma_regroup(v: Seq<Seq<char>>)
    requires
        v.len() == 10,
        config_hash::terminated(v.skip(10)) == Seq::<char>::empty(),
        forall|i: int|
            0 <= i < 10 ==> config_hash::terminated(#[trigger] v.skip(i)) == ended(v[i])
                + config_hash::terminated(v.skip(i + 1)),
    ensures
        config_hash::terminated(v.skip(0)) == ended(v[0]) + ended(v[1]) + ended(v[2]) + ended(v[3])
            + ended(v[4]) + ended(v[5]) + ended(v[6]) + ended(v[7]) + ended(v[8]) + ended(v[9]),
{
}

/// The text of a schedule begins with its kind and has all its fields.
pub proof fn lemma_schedule_text_has_its_fields(schedule: &NormalizedSchedule, r: String)
    requires
        call_ensures(config_hash::canonical_schedule, (schedule,), r),
    ensures
        schedule matches NormalizedSchedule::MinuteAligned { every_minutes } ==> r@ == "minute:"@
            + text::decimal(*every_minutes as nat),
        schedule matches NormalizedSchedule::HourAligned { every_hours } ==> r@ == "hour:"@
            + text::decimal(*every_hours as nat),
        schedule matches NormalizedSchedule::Cron { expression, timezone } ==> r@ == "cron:"@
            + escape::escaped(expression@, Place::Field) + ":tz="@ + escape::optional(
            text::opt_view(*timezone),
            Place::Field,
        ),
        schedule matches NormalizedSchedule::Calendar { days, at, timezone, on_day, last_day }
            ==> r@ == "calendar:days="@ + escape::listed(text::views(days@), Place::Item, ',')
            + ":at="@ + escape::escaped(at@, Place::Field) + ":tz="@ + escape::optional(
            text::opt_view(*timezone),
            Place::Field,
        ) + ":on_day="@ + (match *on_day {
            Some(d) => text::signed_decimal(d as int),
            None => Seq::<char>::empty(),
        }) + ":last_day="@ + (if *last_day {
            "true"@
        } else {
            "false"@
        }),
{
}

/// The hash of a job is the digest of its text, so two jobs that run alike have the same.
pub proof fn lemma_hash_is_of_the_text(
    a: &EffectiveJob,
    text_a: String,
    hash_a: String,
    b: &EffectiveJob,
    text_b: String,
    hash_b: String,
)
    requires
        call_ensures(config_hash::canonical_job, (a,), text_a),
        call_ensures(config_hash::job_config_hash, (a,), hash_a),
        call_ensures(config_hash::canonical_job, (b,), text_b),
        call_ensures(config_hash::job_config_hash, (b,), hash_b),
    ensures
        hash_a@.len() == 64,
        hash_a@ == config_hash::hex(config_hash::sha256_digest(encode_utf8(text_a@))),
        text_a@ == text_b@ ==> hash_a@ == hash_b@,
{
}

} // verus!
