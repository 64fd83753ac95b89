//! What holds of every config that is resolved: what the shorthands for intervals and durations
//! stand for, and which of a job's fields and the defaults count.

use crate::config;
use crate::config::{
    EffectiveConfig, EffectiveJob, Every, Interval, IntervalView, MissedRunPolicy,
    NormalizedSchedule, OverlapPolicy, RawConfig, RawDefaults, RawJob, RawSchedule, ScheduleView,
};
use crate::text;
use crate::text_laws;
use vstd::prelude::*;

verus! {

// ------------------------------------------------------------------------------ durations

proof fn lemma_count_and_unit(n: nat, unit: char)
    requires
        'a' <= unit <= 'z',
    ensures
        ({
            let t = text::decimal(n).push(unit);
            &&& text::trimmed(t) == t
            &&& t.drop_last() == text::decimal(n)
            &&& t.last() == unit
            &&& t.len() > 0
        }),
{
    let t = text::decimal(n).push(unit);
    text::lemma_decimal_number(n);
    assert(text::is_digit(text::decimal(n)[0]));
    assert(t[0] == text::decimal(n)[0]);
    text_laws::lemma_trim_keeps_bare(t);
    assert(t.drop_last() =~= text::decimal(n));
}

proof fn lemma_units(n: nat)
    ensures
        config::unit_seconds('s') matches Some(u) && n * u == n,
        config::unit_seconds('m') matches Some(u) && n * u == 60 * n,
        config::unit_seconds('h') matches Some(u) && n * u == 3600 * n,
        config::unit_seconds('d') matches Some(u) && n * u == 86400 * n,
{
    assert(config::unit_seconds('s') == Some(1nat));
    assert(config::unit_seconds('m') == Some(60nat));
    assert(config::unit_seconds('h') == Some(3600nat));
    assert(config::unit_seconds('d') == Some(86400nat));
    lemma_times(n, config::unit_seconds('s')->0, 1);
    lemma_times(n, config::unit_seconds('m')->0, 60);
    lemma_times(n, config::unit_seconds('h')->0, 3600);
    lemma_times(n, config::unit_seconds('d')->0, 86400);
}

proof fn lemma_times(n: nat, u: nat, k: nat)
    requires
        u == k,
    ensures
        n * u == k * n,
{
    assert(n * u == k * n) by (nonlinear_arith)
        requires
            u == k,
    ;
}

/// A number of seconds, minutes, hours or days is that many times 1, 60, 3600 or 86400 seconds,
/// where these can be counted in 64 bits.
pub proof fn lemma_duration_counts_seconds(n: nat)
    ensures
        config::duration_seconds(text::decimal(n).push('s')) == (if n <= u64::MAX {
            Some(n as u64)
        } else {
            None
        }),
        config::duration_seconds(text::decimal(n).push('m')) == (if 60 * n <= u64::MAX {
            Some((60 * n) as u64)
        } else {
            None
        }),
        config::duration_seconds(text::decimal(n).push('h')) == (if 3600 * n <= u64::MAX {
            Some((3600 * n) as u64)
        } else {
            None
        }),
        config::duration_seconds(text::decimal(n).push('d')) == (if 86400 * n <= u64::MAX {
            Some((86400 * n) as u64)
        } else {
            None
        }),
{
    lemma_units(n);
    lemma_count_and_unit(n, 's');
    lemma_count_and_unit(n, 'm');
    lemma_count_and_unit(n, 'h');
    lemma_count_and_unit(n, 'd');
    text_laws::lemma_number_is_read(n, u64::MAX as nat);
}

/// A minute is sixty seconds, an hour sixty minutes and a day twenty-four hours, whatever text
/// counts them.
pub proof fn lemma_duration_units(count: Seq<char>, s: u64, m: u64, h: u64, d: u64)
    requires
        count.len() > 0,
        !text::is_space(count[0]),
        config::duration_seconds(count.push('s')) == Some(s),
        config::duration_seconds(count.push('m')) == Some(m),
        config::duration_seconds(count.push('h')) == Some(h),
        config::duration_seconds(count.push('d')) == Some(d),
    ensures
        m == 60 * s,
        h == 60 * m,
        d == 24 * h,
{
    text_laws::lemma_trim_keeps_bare(count.push('s'));
    text_laws::lemma_trim_keeps_bare(count.push('m'));
    text_laws::lemma_trim_keeps_bare(count.push('h'));
    text_laws::lemma_trim_keeps_bare(count.push('d'));
    if let Some(n) = text::unsigned(count, u64::MAX as nat) {
        lemma_units(n);
    }
    assert(count.push('s').drop_last() =~= count);
    assert(count.push('m').drop_last() =~= count);
    assert(count.push('h').drop_last() =~= count);
    assert(count.push('d').drop_last() =~= count);
}

/// White space around a duration does not count.
pub proof fn lemma_duration_ignores_blanks(a: Seq<char>, s: Seq<char>, b: Seq<char>)
    requires
        text_laws::is_blank(a),
        text_laws::is_blank(b),
    ensures
        config::duration_seconds(a + s + b) == config::duration_seconds(s),
        config::every_interval(a + s + b) == config::every_interval(s),
{
    text_laws::lemma_trim_ignores_blanks(a, s, b);
}

/// What is no number before one of the four units is no duration: another last letter, nothing
/// before it, or anything but digits there, behind a plus sign at most.
pub proof fn lemma_no_duration(s: Seq<char>, i: int)
    requires
        s.len() > 0,
        !text::is_space(s[0]),
        !text::is_space(s.last()),
        (s.last() != 's' && s.last() != 'm' && s.last() != 'h' && s.last() != 'd') || s.len() == 1
            || (0 <= i < s.len() - 1 && !('0' <= s[i] <= '9') && (i > 0 || s[i] != '+')),
    ensures
        config::duration_seconds(s) is None,
        config::duration_seconds(Seq::empty()) is None,
{
    text_laws::lemma_trim_keeps_bare(s);
    text_laws::lemma_trim_keeps_bare(Seq::empty());
    text_laws::lemma_only_digits_are_read(s.drop_last(), u64::MAX as nat, i);
    if 0 <= i < s.len() - 1 {
        assert(s.drop_last()[i] == s[i]);
    }
}

// ------------------------------------------------------------------------------ intervals

/// A number of minutes or hours is that interval, as far as 32 bits count.
pub proof fn lemma_interval_counts(n: u32)
    ensures
        config::every_interval(text::decimal(n as nat).push('m')) == Some(IntervalView::Minutes(n)),
        config::every_interval(text::decimal(n as nat).push('h')) == Some(IntervalView::Hours(n)),
{
    lemma_count_and_unit(n as nat, 'm');
    lemma_count_and_unit(n as nat, 'h');
    text_laws::lemma_number_is_read(n as nat, u32::MAX as nat);
}

/// The names of the seven days, and `day`, `weekday` and `month`, are the named intervals, each
/// under its own name; there is no other.
pub proof fn lemma_named_intervals(w: Seq<char>)
    ensures
        config::named_interval("day"@) == Some(IntervalView::Named("day"@)),
        config::named_interval("weekday"@) == Some(IntervalView::Named("weekday"@)),
        config::named_interval("month"@) == Some(IntervalView::Named("month"@)),
        config::named_interval("monday"@) == Some(IntervalView::Named("monday"@)),
        config::named_interval("tuesday"@) == Some(IntervalView::Named("tuesday"@)),
        config::named_interval("wednesday"@) == Some(IntervalView::Named("wednesday"@)),
        config::named_interval("thursday"@) == Some(IntervalView::Named("thursday"@)),
        config::named_interval("friday"@) == Some(IntervalView::Named("friday"@)),
        config::named_interval("saturday"@) == Some(IntervalView::Named("saturday"@)),
        config::named_interval("sunday"@) == Some(IntervalView::Named("sunday"@)),
        config::named_interval(w) matches Some(i) ==> i == IntervalView::Named(w) && (w == "day"@
            || w == "weekday"@ || w == "month"@ || w == "monday"@ || w == "tuesday"@ || w
            == "wednesday"@ || w == "thursday"@ || w == "friday"@ || w == "saturday"@ || w
            == "sunday"@),
{
}

/// A token that counts nothing is the named interval of its text in lower case.
pub proof fn lemma_token_is_named(s: Seq<char>)
    requires
        s.len() > 0,
        !text::is_space(s[0]),
        !text::is_space(s.last()),
        !('0' <= s[0] <= '9'),
        s[0] != '+',
        s.len() > 1,
    ensures
        config::every_interval(s) == config::named_interval(text::lowercase(s)),
{
    text_laws::lemma_trim_keeps_bare(s);
    text_laws::lemma_only_digits_are_read(s.drop_last(), u32::MAX as nat, 0);
    assert(s.drop_last()[0] == s[0]);
}

// ---------------------------------------------------------------------------- the merge

/// A job's own timeout counts, whatever the default; without one the default does; without
/// either there is no limit.
pub proof fn lemma_timeout_merges(job: RawJob, defaults: Option<RawDefaults>, n: nat)
    requires
        3600 * n <= u64::MAX,
    ensures
        job.timeout matches Some(t) ==> config::normalized_job(job, defaults).timeout_secs
            == config::duration_seconds(t@),
        (job.timeout matches Some(t) && t@ == text::decimal(n).push('h'))
            ==> config::normalized_job(job, defaults).timeout_secs == Some((3600 * n) as u64),
        (job.timeout matches Some(t) && t@ == text::decimal(n).push('s'))
            ==> config::normalized_job(job, defaults).timeout_secs == Some(n as u64),
        job.timeout is None ==> (defaults matches Some(d) && d.timeout matches Some(t)
            && config::normalized_job(job, defaults).timeout_secs == config::duration_seconds(t@))
            || ((defaults is None || defaults->0.timeout is None) && config::normalized_job(
            job,
            defaults,
        ).timeout_secs is None),
{
    lemma_duration_counts_seconds(n);
}

/// A job's own count of retries counts, whatever the default; without one the default does;
/// without either, and where it is negative or too large, a job is not tried again.
pub proof fn lemma_retries_merge(job: RawJob, defaults: Option<RawDefaults>)
    ensures
        ({
            let got = config::normalized_job(job, defaults).max_retries;
            let own = match job.retry {
                Some(r) => r.max_retries,
                None => None,
            };
            let other = match defaults {
                Some(d) => match d.retry {
                    Some(r) => r.max_retries,
                    None => None,
                },
                None => None,
            };
            &&& own matches Some(n) ==> (0 <= n <= u32::MAX ==> got == n)
            &&& own matches Some(n) ==> (n < 0 || n > u32::MAX ==> got == 0)
            &&& own is None ==> (other matches Some(n) ==> (0 <= n <= u32::MAX ==> got == n))
            &&& own is None ==> (other matches Some(n) ==> (n < 0 || n > u32::MAX ==> got == 0))
            &&& own is None && other is None ==> got == 0
        }),
{
}

/// A job's own policy for overlaps counts, whatever the default; without one the default does.
/// `queue` and `kill` are what they say, and anything else, and nothing, is to skip.
pub proof fn lemma_overlap_merges(job: RawJob, defaults: Option<RawDefaults>)
    ensures
        ({
            let got = config::normalized_job(job, defaults).overlap_policy;
            let own = text::opt_view(job.overlap_policy);
            let other = match defaults {
                Some(d) => text::opt_view(d.overlap_policy),
                None => None,
            };
            let word = if own is Some {
                own
            } else {
                other
            };
            &&& (got == OverlapPolicy::Queue) <==> word == Some("queue"@)
            &&& (got == OverlapPolicy::Kill) <==> word == Some("kill"@)
            &&& (got == OverlapPolicy::Skip) <==> (word != Some("queue"@) && word != Some("kill"@))
        }),
{
    reveal_strlit("queue");
    reveal_strlit("kill");
    assert("queue"@.len() != "kill"@.len());
}

/// A job's own policy for missed runs counts, whatever the default; without one the default
/// does. `run_once` and `run_all` are what they say, and anything else, and nothing, is to skip.
pub proof fn lemma_missed_merges(job: RawJob, defaults: Option<RawDefaults>)
    ensures
        ({
            let got = config::normalized_job(job, defaults).missed_run_policy;
            let own = text::opt_view(job.missed_run_policy);
            let other = match defaults {
                Some(d) => text::opt_view(d.missed_run_policy),
                None => None,
            };
            let word = if own is Some {
                own
            } else {
                other
            };
            &&& (got == MissedRunPolicy::RunOnce) <==> word == Some("run_once"@)
            &&& (got == MissedRunPolicy::RunAll) <==> word == Some("run_all"@)
            &&& (got == MissedRunPolicy::Skip) <==> (word != Some("run_once"@) && word != Some(
                "run_all"@,
            ))
        }),
{
    reveal_strlit("run_once");
    reveal_strlit("run_all");
    assert("run_once"@.len() != "run_all"@.len());
}

/// A schedule's own zone counts, whatever the default; without one the default does. The
/// schedule is evaluated in the zone that the job is in.
pub proof fn lemma_timezone_merges(job: RawJob, defaults: Option<RawDefaults>)
    ensures
        ({
            let got = config::normalized_job(job, defaults);
            let own = text::opt_view(job.schedule.timezone);
            let other = match defaults {
                Some(d) => text::opt_view(d.timezone),
                None => None,
            };
            &&& own is Some ==> got.timezone == own
            &&& own is None ==> got.timezone == other
            &&& got.schedule matches ScheduleView::Calendar { timezone, .. } ==> timezone
                == got.timezone
            &&& got.schedule matches ScheduleView::Cron { timezone, .. } ==> timezone
                == got.timezone
        }),
{
}

/// What a job says of itself is kept as it is; a job is enabled unless it says that it is not.
pub proof fn lemma_job_is_kept(job: RawJob, defaults: Option<RawDefaults>)
    ensures
        ({
            let got = config::normalized_job(job, defaults);
            &&& got.id == text::opt_view(job.id)
            &&& got.title == text::opt_view(job.title)
            &&& !got.enabled <==> job.enabled == Some(false)
            &&& job.execution.command matches Some(c) ==> got.command == c@
            &&& job.execution.command is None ==> got.command.len() == 0
            &&& got.args.len() == job.execution.args@.len()
            &&& forall|i: int|
                0 <= i < got.args.len() ==> #[trigger] got.args[i] == job.execution.args@[i]@
            &&& got.cwd == text::opt_view(job.execution.cwd)
            &&& got.tags.len() == job.tags@.len()
            &&& forall|i: int| 0 <= i < got.tags.len() ==> #[trigger] got.tags[i] == job.tags@[i]@
        }),
{
}

/// A job that sets every field that has a default is resolved the same under any defaults.
pub proof fn lemma_defaults_yield(job: RawJob, a: Option<RawDefaults>, b: Option<RawDefaults>)
    requires
        job.timeout is Some,
        job.overlap_policy is Some,
        job.missed_run_policy is Some,
        job.schedule.timezone is Some,
        job.retry matches Some(r) && r.max_retries is Some,
    ensures
        config::normalized_job(job, a) == config::normalized_job(job, b),
{
}

// ------------------------------------------------------------------------- the schedule

/// A cron expression is the schedule, whatever else is set.
pub proof fn lemma_cron_goes_first(raw: RawSchedule, timezone: Option<Seq<char>>)
    requires
        raw.cron is Some,
    ensures
        config::normalized_schedule(raw, timezone) matches ScheduleView::Cron { expression, .. }
            && expression == raw.cron->0@,
{
}

/// One token that counts minutes or hours makes an aligned schedule of that many, and one that
/// is a name makes a calendar of it.
pub proof fn lemma_one_token_schedules(
    raw: RawSchedule,
    timezone: Option<Seq<char>>,
    token: Seq<char>,
    n: u32,
)
    requires
        raw.cron is None,
        raw.every matches Some(e) && config::every_tokens(e) == seq![token],
    ensures
        token == text::decimal(n as nat).push('m') ==> config::normalized_schedule(raw, timezone)
            == (ScheduleView::MinuteAligned { every_minutes: n }),
        token == text::decimal(n as nat).push('h') ==> config::normalized_schedule(raw, timezone)
            == (ScheduleView::HourAligned { every_hours: n }),
        config::every_interval(token) matches Some(IntervalView::Named(w)) ==> (
        config::normalized_schedule(raw, timezone) matches ScheduleView::Calendar { days, .. }
            && days == seq![w]),
        config::every_interval(token) is None ==> (config::normalized_schedule(raw, timezone)
            matches ScheduleView::Calendar { days, .. } && days == seq!["day"@]),
{
    lemma_interval_counts(n);
    assert(config::every_tokens(raw.every->0)[0] == token);
}

/// A calendar keeps the time of day, midnight where there is none, and the day of the month; the
/// last day is meant only where that is said.
pub proof fn lemma_calendar_keeps_fields(raw: RawSchedule, timezone: Option<Seq<char>>)
    requires
        config::normalized_schedule(raw, timezone) is Calendar,
    ensures
        config::normalized_schedule(raw, timezone) matches ScheduleView::Calendar {
            days,
            at,
            timezone: tz,
            on_day,
            last_day,
        } && {
            &&& days.len() > 0
            &&& raw.at matches Some(t) ==> at == t@
            &&& raw.at is None ==> at == "00:00"@
            &&& raw.timezone matches Some(z) ==> tz == Some(z@)
            &&& raw.timezone is None ==> tz == timezone
            &&& on_day == raw.on_day
            &&& last_day <==> raw.last_day == Some(true)
            &&& raw.cron is None
            &&& raw.every is None ==> days == seq!["day"@]
        },
{
}

/// A list of names is a calendar of all of them, in their order.
pub proof fn lemma_named_list_schedules(
    raw: RawSchedule,
    timezone: Option<Seq<char>>,
    tokens: Seq<Seq<char>>,
    names: Seq<Seq<char>>,
)
    requires
        raw.cron is None,
        raw.every matches Some(e) && config::every_tokens(e) == tokens,
        tokens.len() > 1,
        names.len() == tokens.len(),
        forall|i: int|
            0 <= i < tokens.len() ==> config::every_interval(#[trigger] tokens[i]) == Some(
                IntervalView::Named(names[i]),
            ),
    ensures
        config::normalized_schedule(raw, timezone) matches ScheduleView::Calendar { days, .. }
            && days == names,
{
    lemma_names_filtered(tokens, names);
    assert(names.len() > 0);
}

proof fn lemma_names_filtered(tokens: Seq<Seq<char>>, names: Seq<Seq<char>>)
    requires
        names.len() == tokens.len(),
        forall|i: int|
            0 <= i < tokens.len() ==> config::every_interval(#[trigger] tokens[i]) == Some(
                IntervalView::Named(names[i]),
            ),
    ensures
        tokens.filter_map(|t: Seq<char>| config::day_keyword(t)) == names,
    decreases tokens.len(),
{
    reveal(Seq::filter_map);
    if tokens.len() > 0 {
        let front = tokens.drop_last();
        assert forall|i: int| 0 <= i < front.len() implies config::every_interval(
            #[trigger] front[i],
        ) == Some(IntervalView::Named(names.drop_last()[i])) by {
            assert(front[i] == tokens[i]);
        }
        lemma_names_filtered(front, names.drop_last());
        let n = tokens.len() - 1;
        assert(config::every_interval(tokens[n]) == Some(IntervalView::Named(names[n])));
        assert(config::day_keyword(tokens.last()) == Some(names.last()));
        assert(names.drop_last().push(names.last()) =~= names);
    } else {
        assert(names =~= Seq::empty());
    }
}

// --------------------------------------------------------------------------- operations

/// A duration of digits and a unit is read as that many seconds, minutes of 60, hours of 3600 or
/// days of 86400 of them, where that many can be counted.
pub proof fn lemma_duration_is_read(n: nat, unit: char, size: nat, s: &str, r: Result<u64, ()>)
    requires
        call_ensures(config::parse_duration, (s,), r),
        s@ == text::decimal(n).push(unit),
        (unit == 's' && size == 1) || (unit == 'm' && size == 60) || (unit == 'h' && size == 3600)
            || (unit == 'd' && size == 86400),
    ensures
        size * n <= u64::MAX ==> r == Ok::<u64, ()>((size * n) as u64),
        size * n > u64::MAX ==> r is Err,
{
    lemma_duration_counts_seconds(n);
}

/// An interval of digits and a unit is read as that many minutes or hours, and a named one by its
/// name.
pub proof fn lemma_interval_is_read(n: u32, s: &str, r: Result<Interval, ()>)
    requires
        call_ensures(config::parse_every_interval, (s,), r),
    ensures
        s@ == text::decimal(n as nat).push('m') ==> (r matches Ok(Interval::Minutes(k)) && k == n),
        s@ == text::decimal(n as nat).push('h') ==> (r matches Ok(Interval::Hours(k)) && k == n),
{
    lemma_interval_counts(n);
}

/// A policy is read by its own word, and anything else is the policy to skip.
pub proof fn lemma_policies_are_read(
    s: Option<&str>,
    overlap: OverlapPolicy,
    missed: MissedRunPolicy,
)
    requires
        call_ensures(config::parse_overlap_policy, (s,), overlap),
        call_ensures(config::parse_missed_run_policy, (s,), missed),
    ensures
        (overlap == OverlapPolicy::Queue) <==> (s matches Some(w) && w@ == "queue"@),
        (overlap == OverlapPolicy::Kill) <==> (s matches Some(w) && w@ == "kill"@),
        (missed == MissedRunPolicy::RunOnce) <==> (s matches Some(w) && w@ == "run_once"@),
        (missed == MissedRunPolicy::RunAll) <==> (s matches Some(w) && w@ == "run_all"@),
{
    reveal_strlit("queue");
    reveal_strlit("kill");
    reveal_strlit("run_once");
    reveal_strlit("run_all");
    assert("queue"@.len() != "kill"@.len());
    assert("run_once"@.len() != "run_all"@.len());
}

/// A config is resolved job by job, in order: each keeps its id and title, is enabled unless it
/// says not, and takes its own timeout, else the default one.
pub proof fn lemma_config_is_resolved(raw: &RawConfig, r: EffectiveConfig, i: int, n: nat)
    requires
        call_ensures(config::normalize, (raw,), r),
        0 <= i < raw.jobs@.len(),
        3600 * n <= u64::MAX,
    ensures
        r.version == raw.version,
        r.jobs@.len() == raw.jobs@.len(),
        text::opt_view(r.jobs@[i].id) == text::opt_view(raw.jobs@[i].id),
        text::opt_view(r.jobs@[i].title) == text::opt_view(raw.jobs@[i].title),
        !r.jobs@[i].enabled <==> raw.jobs@[i].enabled == Some(false),
        (raw.jobs@[i].timeout matches Some(t) && t@ == text::decimal(n).push('h')) ==> r.jobs@[i].timeout_secs
            == Some((3600 * n) as u64),
        raw.jobs@[i].timeout is None && (raw.defaults is None || raw.defaults->0.timeout is None)
            ==> r.jobs@[i].timeout_secs is None,
        r.jobs@[i]@ == config::normalized_job(raw.jobs@[i], raw.defaults),
{
    lemma_timeout_merges(raw.jobs@[i], raw.defaults, n);
    lemma_job_is_kept(raw.jobs@[i], raw.defaults);
    assert(r.jobs@[i]@ == config::normalized_job(raw.jobs@[i], raw.defaults));
}

/// A schedule that is one word has one token, and a list has one token for each of its words.
pub proof fn lemma_tokens_of_schedule(every: Every, i: int)
    ensures
        every matches Every::One(s) ==> config::every_tokens(every) == seq![s@],
        every matches Every::Many(v) ==> config::every_tokens(every).len() == v@.len() && (0 <= i
            < v@.len() ==> config::every_tokens(every)[i] == v@[i]@),
{
}

/// A list of more than one word fires on the days that it names, in order; the words that name no
/// day are passed over; and where none does, it fires on every day.
pub proof fn lemma_list_keeps_named_days(raw: RawSchedule, timezone: Option<Seq<char>>)
    requires
        raw.cron is None,
        raw.every matches Some(e) && config::every_tokens(e).len() != 1,
    ensures
        config::normalized_schedule(raw, timezone) matches ScheduleView::Calendar { days, .. } && {
            let named = config::every_tokens(raw.every->0).filter_map(
                |t: Seq<char>|
                    match config::every_interval(t) {
                        Some(IntervalView::Named(w)) => Some(w),
                        _ => None,
                    },
            );
            &&& named.len() > 0 ==> days == named
            &&& named.len() == 0 ==> days == seq!["day"@]
        },
{
    let a = |t: Seq<char>| config::day_keyword(t);
    let b = |t: Seq<char>|
        match config::every_interval(t) {
            Some(IntervalView::Named(w)) => Some(w),
            _ => None,
        };
    assert(a =~= b);
}

/// A job is resolved alone as it is in its config, and its schedule in its own zone, else the
/// default one.
pub proof fn lemma_job_is_resolved(
    job: &RawJob,
    defaults: Option<&RawDefaults>,
    r: EffectiveJob,
    schedule: NormalizedSchedule,
    timezone: Option<&str>,
)
    requires
        call_ensures(config::normalize_job, (job, defaults), r),
        call_ensures(config::normalize_schedule, (&job.schedule, timezone), schedule),
        config::opt_str_view(timezone) == text::opt_view(r.timezone),
    ensures
        r.schedule@ == schedule@,
        text::opt_view(r.id) == text::opt_view(job.id),
        !r.enabled <==> job.enabled == Some(false),
        job.execution.command matches Some(c) ==> r.command@ == c@,
        job.retry matches Some(again) ==> (again.max_retries matches Some(n) ==> (0 <= n <= u32::MAX
            ==> r.max_retries == n)),
        job.overlap_policy matches Some(w) ==> ((r.overlap_policy == OverlapPolicy::Queue) <==> w@
            == "queue"@) && ((r.overlap_policy == OverlapPolicy::Kill) <==> w@ == "kill"@),
        job.missed_run_policy matches Some(w) ==> ((r.missed_run_policy == MissedRunPolicy::RunAll)
            <==> w@ == "run_all"@) && ((r.missed_run_policy == MissedRunPolicy::RunOnce) <==> w@
            == "run_once"@),
        job.schedule.timezone matches Some(z) ==> text::opt_view(r.timezone) == Some(z@),
{
    let d = config::deref_opt(defaults);
    lemma_retries_merge(*job, d);
    lemma_overlap_merges(*job, d);
    lemma_missed_merges(*job, d);
    lemma_timezone_merges(*job, d);
    lemma_job_is_kept(*job, d);
    assert(r@ == config::normalized_job(*job, d));
}

} // verus!
