//! Desired-state configuration: the schema, the interval and duration shorthands, the merge
//! of a job with the defaults, and the canonical form that a job is hashed by.

use crate::text;
use crate::text::{copy_all, copy_opt, parse_u32, parse_u64, same, trim};
use vstd::prelude::*;
use vstd::string::*;

verus! {

// ------------------------------------------------------------------ the raw schema

#[derive(Debug)]
pub struct RawConfig {
    pub version: u32,
    pub defaults: Option<RawDefaults>,
    pub jobs: Vec<RawJob>,
}

#[derive(Debug)]
pub struct RawDefaults {
    pub timezone: Option<String>,
    pub timeout: Option<String>,
    pub overlap_policy: Option<String>,
    pub missed_run_policy: Option<String>,
    pub retry: Option<RawRetry>,
}

#[derive(Debug)]
pub struct RawJob {
    pub id: Option<String>,
    pub title: Option<String>,
    pub enabled: Option<bool>,
    pub schedule: RawSchedule,
    pub execution: RawExecution,
    pub timeout: Option<String>,
    pub missed_run_policy: Option<String>,
    pub overlap_policy: Option<String>,
    pub retry: Option<RawRetry>,
    pub tags: Vec<String>,
    pub metadata: std::collections::BTreeMap<String, String>,
}

#[derive(Debug)]
pub struct RawSchedule {
    pub every: Option<Every>,
    pub at: Option<String>,
    pub on_day: Option<i64>,
    pub last_day: Option<bool>,
    pub cron: Option<String>,
    pub timezone: Option<String>,
}

#[derive(Debug)]
pub enum Every {
    One(String),
    Many(Vec<String>),
}

#[derive(Debug)]
pub struct RawExecution {
    pub command: Option<String>,
    pub args: Vec<String>,
    pub cwd: Option<String>,
}

#[derive(Debug)]
pub struct RawRetry {
    pub max_retries: Option<i64>,
}

/// The tokens of an `every:` field.
pub open spec fn every_tokens(every: Every) -> Seq<Seq<char>> {
    match every {
        Every::One(s) => seq![s@],
        Every::Many(v) => text::views(v@),
    }
}

// -------------------------------------------------------------- `every:` shorthands

/// A parsed `every:` token.
#[derive(Debug)]
pub enum Interval {
    Minutes(u32),
    Hours(u32),
    Named(String),
}

/// An [`Interval`] with its name taken as characters.
pub enum IntervalView {
    Minutes(u32),
    Hours(u32),
    Named(Seq<char>),
}

impl View for Interval {
    type V = IntervalView;

    open spec fn view(&self) -> IntervalView {
        match *self {
            Interval::Minutes(n) => IntervalView::Minutes(n),
            Interval::Hours(n) => IntervalView::Hours(n),
            Interval::Named(s) => IntervalView::Named(s@),
        }
    }
}

/// The keywords that `every:` accepts, in lower case.
pub open spec fn is_day_keyword(w: Seq<char>) -> bool {
    ||| w == "day"@
    ||| w == "weekday"@
    ||| w == "month"@
    ||| w == "monday"@
    ||| w == "tuesday"@
    ||| w == "wednesday"@
    ||| w == "thursday"@
    ||| w == "friday"@
    ||| w == "saturday"@
    ||| w == "sunday"@
}

/// The number before a one-letter unit, where the text is a `u32` followed by `unit`.
pub open spec fn count_before(t: Seq<char>, unit: char) -> Option<nat> {
    if t.len() > 0 && t.last() == unit {
        text::unsigned(t.drop_last(), u32::MAX as nat)
    } else {
        None
    }
}

/// What an `every:` token means: `Nm`, `Nh` or a keyword in any case, with white space around
/// it ignored.
pub open spec fn every_interval(s: Seq<char>) -> Option<IntervalView> {
    let t = text::trimmed(s);
    match count_before(t, 'm') {
        Some(n) => Some(IntervalView::Minutes(n as u32)),
        None => match count_before(t, 'h') {
            Some(n) => Some(IntervalView::Hours(n as u32)),
            None => named_interval(text::lowercase(t)),
        },
    }
}

/// The named interval that a lower-case word stands for.
pub open spec fn named_interval(w: Seq<char>) -> Option<IntervalView> {
    if is_day_keyword(w) {
        Some(IntervalView::Named(w))
    } else {
        None
    }
}

fn count_of(t: &str, unit: char) -> (r: Option<u32>)
    ensures
        (match r {
            Some(n) => count_before(t@, unit) == Some(n as nat),
            None => count_before(t@, unit) is None,
        }),
{
    let n = t.unicode_len();
    if n > 0 && t.get_char(n - 1) == unit {
        let head = t.substring_char(0, n - 1);
        assert(head@ =~= t@.drop_last());
        parse_u32(head)
    } else {
        None
    }
}

/// Reads a lower-case word as a named interval.
pub fn parse_named_interval(word: String) -> (r: Result<Interval, ()>)
    ensures
        (match r {
            Ok(i) => named_interval(word@) == Some(i@),
            Err(_) => named_interval(word@) is None,
        }),
{
    let w = word.as_str();
    if same(w, "day") || same(w, "weekday") || same(w, "month") || same(w, "monday") || same(
        w,
        "tuesday",
    ) || same(w, "wednesday") || same(w, "thursday") || same(w, "friday") || same(w, "saturday")
        || same(w, "sunday") {
        Ok(Interval::Named(word))
    } else {
        Err(())
    }
}

/// Reads one `every:` token.
pub fn parse_every_interval(s: &str) -> (r: Result<Interval, ()>)
    ensures
        (match r {
            Ok(i) => every_interval(s@) == Some(i@),
            Err(_) => every_interval(s@) is None,
        }),
{
    let t = trim(s);
    if let Some(n) = count_of(t, 'm') {
        return Ok(Interval::Minutes(n));
    }
    if let Some(n) = count_of(t, 'h') {
        return Ok(Interval::Hours(n));
    }
    parse_named_interval(t.to_lowercase())
}

// ------------------------------------------------------------------------ durations

/// How many seconds a duration unit holds.
pub open spec fn unit_seconds(unit: char) -> Option<nat> {
    if unit == 's' {
        Some(1)
    } else if unit == 'm' {
        Some(60)
    } else if unit == 'h' {
        Some(3600)
    } else if unit == 'd' {
        Some(86400)
    } else {
        None
    }
}

/// The seconds that a duration shorthand (`30s`, `15m`, `1h`, `2d`) stands for, where they can
/// be counted in 64 bits.
pub open spec fn duration_seconds(s: Seq<char>) -> Option<u64> {
    let t = text::trimmed(s);
    if t.len() == 0 {
        None
    } else {
        match (text::unsigned(t.drop_last(), u64::MAX as nat), unit_seconds(t.last())) {
            (Some(n), Some(unit)) => if n * unit <= u64::MAX {
                Some((n * unit) as u64)
            } else {
                None
            },
            _ => None,
        }
    }
}

/// Reads a duration shorthand (`30s`, `15m`, `1h`, `2d`) into seconds.
pub fn parse_duration(s: &str) -> (r: Result<u64, ()>)
    ensures
        (match r {
            Ok(n) => duration_seconds(s@) == Some(n),
            Err(_) => duration_seconds(s@) is None,
        }),
{
    let t = trim(s);
    let n = t.unicode_len();
    if n == 0 {
        return Err(());
    }
    let head = t.substring_char(0, n - 1);
    assert(head@ =~= t@.drop_last());
    let unit = t.get_char(n - 1);
    let mult: u64 = if unit == 's' {
        1
    } else if unit == 'm' {
        60
    } else if unit == 'h' {
        3600
    } else if unit == 'd' {
        86400
    } else {
        return Err(());
    };
    match parse_u64(head) {
        None => Err(()),
        Some(count) => match count.checked_mul(mult) {
            Some(secs) => Ok(secs),
            None => Err(()),
        },
    }
}

// ------------------------------------------------------------- the effective model

/// A normalized schedule: every schedule of the schema has exactly one such form.
#[derive(Debug, Clone, PartialEq)]
pub enum NormalizedSchedule {
    /// Fires every `every_minutes` minutes, counted from the full hour.
    MinuteAligned { every_minutes: u32 },
    /// Fires every `every_hours` hours, counted from midnight.
    HourAligned { every_hours: u32 },
    /// Fires at a time of day on the days that `days` name.
    Calendar {
        days: Vec<String>,
        at: String,
        timezone: Option<String>,
        on_day: Option<i64>,
        last_day: bool,
    },
    /// Fires as a cron expression says.
    Cron { expression: String, timezone: Option<String> },
}

/// A [`NormalizedSchedule`] with its texts taken as characters.
#[verifier::ext_equal]
pub enum ScheduleView {
    MinuteAligned { every_minutes: u32 },
    HourAligned { every_hours: u32 },
    Calendar {
        days: Seq<Seq<char>>,
        at: Seq<char>,
        timezone: Option<Seq<char>>,
        on_day: Option<i64>,
        last_day: bool,
    },
    Cron { expression: Seq<char>, timezone: Option<Seq<char>> },
}

impl View for NormalizedSchedule {
    type V = ScheduleView;

    open spec fn view(&self) -> ScheduleView {
        match *self {
            NormalizedSchedule::MinuteAligned { every_minutes } => ScheduleView::MinuteAligned {
                every_minutes,
            },
            NormalizedSchedule::HourAligned { every_hours } => ScheduleView::HourAligned {
                every_hours,
            },
            NormalizedSchedule::Calendar { days, at, timezone, on_day, last_day } => {
                ScheduleView::Calendar {
                    days: text::views(days@),
                    at: at@,
                    timezone: text::opt_view(timezone),
                    on_day,
                    last_day,
                }
            },
            NormalizedSchedule::Cron { expression, timezone } => ScheduleView::Cron {
                expression: expression@,
                timezone: text::opt_view(timezone),
            },
        }
    }
}

/// What to do when the previous run of a job is still active.
#[derive(Debug, Clone, Copy, PartialEq, Eq, Structural)]
pub enum OverlapPolicy {
    Skip,
    Queue,
    Kill,
}

/// What to do when a scheduled run was missed.
#[derive(Debug, Clone, Copy, PartialEq, Eq, Structural)]
pub enum MissedRunPolicy {
    Skip,
    RunOnce,
    RunAll,
}

/// A job with every optional field resolved through the defaults.
#[derive(Debug, Clone)]
pub struct EffectiveJob {
    pub id: Option<String>,
    pub title: Option<String>,
    pub enabled: bool,
    pub schedule: NormalizedSchedule,
    pub command: String,
    pub args: Vec<String>,
    pub cwd: Option<String>,
    /// `None` is no limit.
    pub timeout_secs: Option<u64>,
    /// An IANA name; `None` is the local zone.
    pub timezone: Option<String>,
    pub overlap_policy: OverlapPolicy,
    pub missed_run_policy: MissedRunPolicy,
    pub max_retries: u32,
    pub tags: Vec<String>,
}

/// An [`EffectiveJob`] with its texts taken as characters.
#[verifier::ext_equal]
pub struct JobView {
    pub id: Option<Seq<char>>,
    pub title: Option<Seq<char>>,
    pub enabled: bool,
    pub schedule: ScheduleView,
    pub command: Seq<char>,
    pub args: Seq<Seq<char>>,
    pub cwd: Option<Seq<char>>,
    pub timeout_secs: Option<u64>,
    pub timezone: Option<Seq<char>>,
    pub overlap_policy: OverlapPolicy,
    pub missed_run_policy: MissedRunPolicy,
    pub max_retries: u32,
    pub tags: Seq<Seq<char>>,
}

impl View for EffectiveJob {
    type V = JobView;

    open spec fn view(&self) -> JobView {
        JobView {
            id: text::opt_view(self.id),
            title: text::opt_view(self.title),
            enabled: self.enabled,
            schedule: self.schedule@,
            command: self.command@,
            args: text::views(self.args@),
            cwd: text::opt_view(self.cwd),
            timeout_secs: self.timeout_secs,
            timezone: text::opt_view(self.timezone),
            overlap_policy: self.overlap_policy,
            missed_run_policy: self.missed_run_policy,
            max_retries: self.max_retries,
            tags: text::views(self.tags@),
        }
    }
}

/// The fully resolved config that the scheduler consumes.
#[derive(Debug)]
pub struct EffectiveConfig {
    pub version: u32,
    pub jobs: Vec<EffectiveJob>,
}

// -------------------------------------------------------------------- normalization

/// The field that counts: the job's own where it is set, else the default.
pub open spec fn first_of(own: Option<Seq<char>>, default: Option<Seq<char>>) -> Option<Seq<char>> {
    match own {
        Some(s) => Some(s),
        None => default,
    }
}

pub open spec fn default_timezone(defaults: Option<RawDefaults>) -> Option<Seq<char>> {
    match defaults {
        Some(d) => text::opt_view(d.timezone),
        None => None,
    }
}

pub open spec fn default_timeout(defaults: Option<RawDefaults>) -> Option<Seq<char>> {
    match defaults {
        Some(d) => text::opt_view(d.timeout),
        None => None,
    }
}

pub open spec fn default_overlap(defaults: Option<RawDefaults>) -> Option<Seq<char>> {
    match defaults {
        Some(d) => text::opt_view(d.overlap_policy),
        None => None,
    }
}

pub open spec fn default_missed(defaults: Option<RawDefaults>) -> Option<Seq<char>> {
    match defaults {
        Some(d) => text::opt_view(d.missed_run_policy),
        None => None,
    }
}

pub open spec fn retries_of(retry: Option<RawRetry>) -> Option<i64> {
    match retry {
        Some(r) => r.max_retries,
        None => None,
    }
}

pub open spec fn default_retries(defaults: Option<RawDefaults>) -> Option<i64> {
    match defaults {
        Some(d) => retries_of(d.retry),
        None => None,
    }
}

/// The timeout after the merge: what is set first, where it is a duration, else no limit.
pub open spec fn merged_timeout(own: Option<Seq<char>>, default: Option<Seq<char>>) -> Option<u64> {
    match first_of(own, default) {
        Some(t) => duration_seconds(t),
        None => None,
    }
}

/// The retry count after the merge: what is set first, where it fits in 32 bits, else none.
pub open spec fn merged_retries(own: Option<i64>, default: Option<i64>) -> u32 {
    let chosen = match own {
        Some(n) => Some(n),
        None => default,
    };
    match chosen {
        Some(n) => if 0 <= n <= u32::MAX {
            n as u32
        } else {
            0
        },
        None => 0,
    }
}

pub open spec fn overlap_of(s: Option<Seq<char>>) -> OverlapPolicy {
    if s == Some("queue"@) {
        OverlapPolicy::Queue
    } else if s == Some("kill"@) {
        OverlapPolicy::Kill
    } else {
        OverlapPolicy::Skip
    }
}

pub open spec fn missed_of(s: Option<Seq<char>>) -> MissedRunPolicy {
    if s == Some("run_once"@) {
        MissedRunPolicy::RunOnce
    } else if s == Some("run_all"@) {
        MissedRunPolicy::RunAll
    } else {
        MissedRunPolicy::Skip
    }
}

/// The day keyword that a token stands for, where it is one.
pub open spec fn day_keyword(token: Seq<char>) -> Option<Seq<char>> {
    match every_interval(token) {
        Some(IntervalView::Named(w)) => Some(w),
        _ => None,
    }
}

/// A calendar schedule on the given days, with the other fields taken from the raw schedule.
pub open spec fn calendar_on(
    raw: RawSchedule,
    timezone: Option<Seq<char>>,
    days: Seq<Seq<char>>,
) -> ScheduleView {
    ScheduleView::Calendar {
        days,
        at: match raw.at {
            Some(at) => at@,
            None => "00:00"@,
        },
        timezone: first_of(text::opt_view(raw.timezone), timezone),
        on_day: raw.on_day,
        last_day: raw.last_day == Some(true),
    }
}

/// The normalized form of a raw schedule. A cron expression comes first; one token is an
/// interval or a keyword; of several tokens the keywords count. What is left is daily.
pub open spec fn normalized_schedule(
    raw: RawSchedule,
    timezone: Option<Seq<char>>,
) -> ScheduleView {
    let daily = calendar_on(raw, timezone, seq!["day"@]);
    match (raw.cron, raw.every) {
        (Some(expression), _) => ScheduleView::Cron {
            expression: expression@,
            timezone: first_of(text::opt_view(raw.timezone), timezone),
        },
        (None, None) => daily,
        (None, Some(every)) => {
            let tokens = every_tokens(every);
            if tokens.len() == 1 {
                match every_interval(tokens[0]) {
                    Some(IntervalView::Minutes(n)) => ScheduleView::MinuteAligned {
                        every_minutes: n,
                    },
                    Some(IntervalView::Hours(n)) => ScheduleView::HourAligned { every_hours: n },
                    Some(IntervalView::Named(w)) => calendar_on(raw, timezone, seq![w]),
                    None => daily,
                }
            } else {
                let days = tokens.filter_map(|t: Seq<char>| day_keyword(t));
                if days.len() > 0 {
                    calendar_on(raw, timezone, days)
                } else {
                    daily
                }
            }
        },
    }
}

/// A job after the merge: the job's field, else the default, else the built-in default.
pub open spec fn normalized_job(job: RawJob, defaults: Option<RawDefaults>) -> JobView {
    let timezone = first_of(text::opt_view(job.schedule.timezone), default_timezone(defaults));
    JobView {
        id: text::opt_view(job.id),
        title: text::opt_view(job.title),
        enabled: job.enabled != Some(false),
        schedule: normalized_schedule(job.schedule, timezone),
        command: match job.execution.command {
            Some(c) => c@,
            None => Seq::empty(),
        },
        args: text::views(job.execution.args@),
        cwd: text::opt_view(job.execution.cwd),
        timeout_secs: merged_timeout(text::opt_view(job.timeout), default_timeout(defaults)),
        timezone,
        overlap_policy: overlap_of(
            first_of(text::opt_view(job.overlap_policy), default_overlap(defaults)),
        ),
        missed_run_policy: missed_of(
            first_of(text::opt_view(job.missed_run_policy), default_missed(defaults)),
        ),
        max_retries: merged_retries(retries_of(job.retry), default_retries(defaults)),
        tags: text::views(job.tags@),
    }
}

/// The view of an optional borrowed text.
pub open spec fn opt_str_view(o: Option<&str>) -> Option<Seq<char>> {
    match o {
        Some(s) => Some(s@),
        None => None,
    }
}

fn borrowed(o: &Option<String>) -> (r: Option<&str>)
    ensures
        opt_str_view(r) == text::opt_view(*o),
{
    match o {
        Some(s) => Some(s.as_str()),
        None => None,
    }
}

fn either<'a>(own: Option<&'a str>, default: Option<&'a str>) -> (r: Option<&'a str>)
    ensures
        opt_str_view(r) == first_of(opt_str_view(own), opt_str_view(default)),
{
    match own {
        Some(s) => Some(s),
        None => default,
    }
}

fn owned(o: Option<&str>) -> (r: Option<String>)
    ensures
        text::opt_view(r) == opt_str_view(o),
{
    match o {
        Some(s) => Some(s.to_owned()),
        None => None,
    }
}

fn seconds_of(o: Option<&str>) -> (r: Option<u64>)
    ensures
        r == (match o {
            Some(s) => duration_seconds(s@),
            None => None,
        }),
{
    match o {
        None => None,
        Some(s) => match parse_duration(s) {
            Ok(n) => Some(n),
            Err(_) => None,
        },
    }
}

pub fn parse_overlap_policy(s: Option<&str>) -> (r: OverlapPolicy)
    ensures
        r == overlap_of(opt_str_view(s)),
{
    match s {
        Some(p) => if same(p, "queue") {
            OverlapPolicy::Queue
        } else if same(p, "kill") {
            OverlapPolicy::Kill
        } else {
            OverlapPolicy::Skip
        },
        None => OverlapPolicy::Skip,
    }
}

pub fn parse_missed_run_policy(s: Option<&str>) -> (r: MissedRunPolicy)
    ensures
        r == missed_of(opt_str_view(s)),
{
    match s {
        Some(p) => if same(p, "run_once") {
            MissedRunPolicy::RunOnce
        } else if same(p, "run_all") {
            MissedRunPolicy::RunAll
        } else {
            MissedRunPolicy::Skip
        },
        None => MissedRunPolicy::Skip,
    }
}

fn calendar(raw: &RawSchedule, timezone: Option<&str>, days: Vec<String>) -> (r: NormalizedSchedule)
    ensures
        r@ == calendar_on(*raw, opt_str_view(timezone), text::views(days@)),
{
    let at = match &raw.at {
        Some(at) => at.clone(),
        None => "00:00".to_owned(),
    };
    let last_day = match raw.last_day {
        Some(b) => b,
        None => false,
    };
    NormalizedSchedule::Calendar {
        days,
        at,
        timezone: owned(either(borrowed(&raw.timezone), timezone)),
        on_day: raw.on_day,
        last_day,
    }
}

fn daily(raw: &RawSchedule, timezone: Option<&str>) -> (r: NormalizedSchedule)
    ensures
        r@ == calendar_on(*raw, opt_str_view(timezone), seq!["day"@]),
{
    let mut days: Vec<String> = Vec::new();
    days.push("day".to_owned());
    assert(text::views(days@) =~= seq!["day"@]);
    calendar(raw, timezone, days)
}

/// The keywords among several tokens, in order.
fn keywords(tokens: &Vec<String>) -> (days: Vec<String>)
    ensures
        text::views(days@) == text::views(tokens@).filter_map(|t: Seq<char>| day_keyword(t)),
{
    let ghost all = text::views(tokens@);
    let ghost f = |t: Seq<char>| day_keyword(t);
    let mut days: Vec<String> = Vec::new();
    let mut i: usize = 0;
    assert(text::views(days@) =~= all.take(0).filter_map(f));
    while i < tokens.len()
        invariant
            i <= tokens.len(),
            all == text::views(tokens@),
            f == |t: Seq<char>| day_keyword(t),
            text::views(days@) == all.take(i as int).filter_map(f),
        decreases tokens.len() - i,
    {
        let ghost before = days@;
        proof {
            all.lemma_filter_map_take_succ(f, i as int);
        }
        if let Ok(Interval::Named(name)) = parse_every_interval(tokens[i].as_str()) {
            days.push(name);
            assert(text::views(days@) =~= text::views(before).push(name@));
            assert(f(all[i as int]) == Some(name@));
            assert(all.take(i as int).filter_map(f) + seq![name@] =~= text::views(days@));
        } else {
            assert(f(all[i as int]) is None);
            assert(all.take(i as int).filter_map(f) + Seq::empty() =~= text::views(days@));
        }
        i += 1;
    }
    assert(all.take(i as int) =~= all);
    days
}

/// Normalizes a schedule; `timezone` is the one that the job's own is merged with.
pub fn normalize_schedule(raw: &RawSchedule, timezone: Option<&str>) -> (r: NormalizedSchedule)
    ensures
        r@ == normalized_schedule(*raw, opt_str_view(timezone)),
{
    if let Some(expression) = &raw.cron {
        return NormalizedSchedule::Cron {
            expression: expression.clone(),
            timezone: owned(either(borrowed(&raw.timezone), timezone)),
        };
    }
    match &raw.every {
        None => daily(raw, timezone),
        Some(Every::One(token)) => normalize_token(raw, timezone, token.as_str()),
        Some(Every::Many(tokens)) => {
            if tokens.len() == 1 {
                return normalize_token(raw, timezone, tokens[0].as_str());
            }
            let days = keywords(tokens);
            if days.len() > 0 {
                calendar(raw, timezone, days)
            } else {
                daily(raw, timezone)
            }
        },
    }
}

fn normalize_token(raw: &RawSchedule, timezone: Option<&str>, token: &str) -> (r:
    NormalizedSchedule)
    ensures
        r@ == (match every_interval(token@) {
            Some(IntervalView::Minutes(n)) => ScheduleView::MinuteAligned { every_minutes: n },
            Some(IntervalView::Hours(n)) => ScheduleView::HourAligned { every_hours: n },
            Some(IntervalView::Named(w)) => calendar_on(*raw, opt_str_view(timezone), seq![w]),
            None => calendar_on(*raw, opt_str_view(timezone), seq!["day"@]),
        }),
{
    match parse_every_interval(token) {
        Ok(Interval::Minutes(n)) => NormalizedSchedule::MinuteAligned { every_minutes: n },
        Ok(Interval::Hours(n)) => NormalizedSchedule::HourAligned { every_hours: n },
        Ok(Interval::Named(name)) => {
            let mut days: Vec<String> = Vec::new();
            let ghost word = name@;
            days.push(name);
            assert(text::views(days@) =~= seq![word]);
            calendar(raw, timezone, days)
        },
        Err(_) => daily(raw, timezone),
    }
}

/// Resolves one job through the defaults.
pub fn normalize_job(job: &RawJob, defaults: Option<&RawDefaults>) -> (r: EffectiveJob)
    ensures
        r@ == normalized_job(*job, deref_opt(defaults)),
{
    let timeout_secs = seconds_of(
        either(
            borrowed(&job.timeout),
            match defaults {
                Some(d) => borrowed(&d.timeout),
                None => None,
            },
        ),
    );
    let timezone = either(
        borrowed(&job.schedule.timezone),
        match defaults {
            Some(d) => borrowed(&d.timezone),
            None => None,
        },
    );
    let overlap_policy = parse_overlap_policy(
        either(
            borrowed(&job.overlap_policy),
            match defaults {
                Some(d) => borrowed(&d.overlap_policy),
                None => None,
            },
        ),
    );
    let missed_run_policy = parse_missed_run_policy(
        either(
            borrowed(&job.missed_run_policy),
            match defaults {
                Some(d) => borrowed(&d.missed_run_policy),
                None => None,
            },
        ),
    );
    let own_retries = match &job.retry {
        Some(r) => r.max_retries,
        None => None,
    };
    let chosen_retries = match own_retries {
        Some(n) => Some(n),
        None => match defaults {
            Some(d) => match &d.retry {
                Some(r) => r.max_retries,
                None => None,
            },
            None => None,
        },
    };
    let max_retries: u32 = match chosen_retries {
        Some(n) => if 0 <= n && n <= u32::MAX as i64 {
            n as u32
        } else {
            0
        },
        None => 0,
    };
    let enabled = match job.enabled {
        Some(b) => b,
        None => true,
    };
    let command = match &job.execution.command {
        Some(c) => c.clone(),
        None => String::new(),
    };
    EffectiveJob {
        id: copy_opt(&job.id),
        title: copy_opt(&job.title),
        enabled,
        schedule: normalize_schedule(&job.schedule, timezone),
        command,
        args: copy_all(&job.execution.args),
        cwd: copy_opt(&job.execution.cwd),
        timeout_secs,
        timezone: owned(timezone),
        overlap_policy,
        missed_run_policy,
        max_retries,
        tags: copy_all(&job.tags),
    }
}

/// The value behind an optional reference.
pub open spec fn deref_opt(o: Option<&RawDefaults>) -> Option<RawDefaults> {
    match o {
        Some(d) => Some(*d),
        None => None,
    }
}

/// Resolves a config: the version is kept and each job is merged with the defaults, in order.
pub fn normalize(raw: &RawConfig) -> (r: EffectiveConfig)
    ensures
        r.version == raw.version,
        r.jobs@.len() == raw.jobs@.len(),
        forall|i: int|
            0 <= i < r.jobs@.len() ==> (#[trigger] r.jobs@[i])@ == normalized_job(
                raw.jobs@[i],
                raw.defaults,
            ),
{
    let defaults = raw.defaults.as_ref();
    let mut jobs: Vec<EffectiveJob> = Vec::new();
    let mut i: usize = 0;
    while i < raw.jobs.len()
        invariant
            deref_opt(defaults) == raw.defaults,
            i <= raw.jobs@.len(),
            jobs@.len() == i,
            forall|k: int|
                0 <= k < i ==> (#[trigger] jobs@[k])@ == normalized_job(raw.jobs@[k], raw.defaults),
        decreases raw.jobs.len() - i,
    {
        jobs.push(normalize_job(&raw.jobs[i], defaults));
        i += 1;
    }
    EffectiveConfig { version: raw.version, jobs }
}

} // verus!
