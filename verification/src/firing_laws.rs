//! What holds of every next firing: it is the earliest after an instant that the schedule allows,
//! counted in days, minutes and seconds on the clocks of its zone.

use crate::calendar;
use crate::config::NormalizedSchedule;
use crate::cron;
use crate::firing;
use crate::occurrence::{Occurrence, ScheduleKind};
use crate::schedule_laws;
use crate::scheduler;
use crate::scheduler::{Grid, ZonedTime};
use crate::text;
use crate::zone;
use vstd::prelude::*;

verus! {

// ----------------------------------------------------------------------- weekday schedules

/// Whether a list of words names a day; a list without words names every day.
pub open spec fn list_names(days: Seq<String>, day: int) -> bool {
    days.len() == 0 || exists|i: int|
        0 <= i < days.len() && schedule_laws::names_day((#[trigger] days[i])@, day)
}

proof fn lemma_list_names(days: &Vec<String>, day: int)
    ensures
        scheduler::fires_on(text::views(days@), calendar::weekday_of(day)) == list_names(
            days@,
            day,
        ),
{
    let list = text::views(days@);
    schedule_laws::lemma_list_covered(list, day);
    if exists|i: int| 0 <= i < list.len() && schedule_laws::names_day(#[trigger] list[i], day) {
        let i = choose|i: int|
            0 <= i < list.len() && schedule_laws::names_day(#[trigger] list[i], day);
        assert(schedule_laws::names_day(days@[i]@, day));
    }
    if exists|i: int| 0 <= i < days@.len() && schedule_laws::names_day((#[trigger] days@[i])@, day) {
        let i = choose|i: int|
            0 <= i < days@.len() && schedule_laws::names_day((#[trigger] days@[i])@, day);
        assert(schedule_laws::names_day(list[i], day));
    }
}

/// A weekday schedule fires next on a day that its list names, at its time of day, after the
/// instant; and no day that the list names, from today on, has an earlier firing that is after
/// the instant.
pub proof fn lemma_weekday_firing_is_first(
    days: &Vec<String>,
    at: &str,
    zone: &str,
    on_day: Option<i64>,
    last_day: bool,
    after: &ZonedTime,
    time: (u32, u32),
    r: ZonedTime,
)
    requires
        call_ensures(
            scheduler::next_calendar,
            (days, at, zone, on_day, last_day, after),
            r,
        ),
        call_ensures(scheduler::parse_hhmm, (at,), time),
        forall|i: int| 0 <= i < days@.len() ==> (#[trigger] days@[i])@ != "month"@,
    ensures
        r.secs > after.secs,
        r.nanos == 0,
        r.zone@ == zone@,
        exists|day: int| {
            &&& zone::reads(zone@, after.secs as int) / 86400 <= day
            &&& #[trigger] list_names(days@, day)
            &&& r.secs == scheduler::resolved(
                zone@,
                day * 86400 + time.0 * 3600 + time.1 * 60,
            )
            &&& forall|e: int|
                zone::reads(zone@, after.secs as int) / 86400 <= e < day && #[trigger] list_names(
                    days@,
                    e,
                ) ==> scheduler::resolved(zone@, e * 86400 + time.0 * 3600 + time.1 * 60)
                    <= after.secs
        },
{
    let list = text::views(days@);
    assert(!list.contains("month"@)) by {
        if list.contains("month"@) {
            let i = choose|i: int| 0 <= i < list.len() && list[i] == "month"@;
            assert(days@[i]@ == "month"@);
        }
    }
    let today = zone::reads(zone@, after.secs as int) / 86400;
    let seconds = scheduler::seconds_of(at@);
    assert(seconds == time.0 * 3600 + time.1 * 60);
    let day = choose|day: int| #[trigger]
        scheduler::is_next_day(zone@, list, seconds, after.secs as int, today, day) && r.secs
            == scheduler::firing_on(zone@, day, seconds);
    lemma_list_names(days, day);
    assert(scheduler::fires_after(zone@, list, seconds, after.secs as int, day));
    assert forall|e: int| today <= e < day && #[trigger] list_names(days@, e) implies
        scheduler::resolved(zone@, e * 86400 + time.0 * 3600 + time.1 * 60) <= after.secs by {
        lemma_list_names(days, e);
        assert(!scheduler::fires_after(zone@, list, seconds, after.secs as int, e));
    }
    assert(list_names(days@, day));
}

// ----------------------------------------------------------------------- monthly schedules

/// Whether a monthly schedule means a date: the last of its month, or the day of the month that
/// is given, and the first where that is none.
pub open spec fn is_meant(on_day: Option<i64>, last_day: bool, y: int, m: int, d: int) -> bool {
    &&& calendar::valid_date(y, m, d)
    &&& last_day ==> !calendar::valid_date(y, m, d + 1)
    &&& !last_day ==> (on_day matches Some(k) ==> (1 <= k <= 31 ==> d == k))
    &&& !last_day ==> (on_day matches Some(k) ==> (!(1 <= k <= 31) ==> d == 1))
    &&& !last_day && on_day is None ==> d == 1
}

proof fn lemma_month_day(on_day: Option<i64>, last_day: bool, y: int, m: int, d: int)
    requires
        1 <= m <= 12,
    ensures
        is_meant(on_day, last_day, y, m, d) <==> (calendar::valid_date(y, m, d) && d
            == scheduler::month_day(on_day, last_day, y, m)),
{
}

/// A monthly schedule fires next on a date that it means, at its time of day, after the instant;
/// and no date that it means in an earlier month, from the current one on, has a firing that is
/// after the instant.
pub proof fn lemma_monthly_firing_is_first(
    days: &Vec<String>,
    at: &str,
    zone: &str,
    on_day: Option<i64>,
    last_day: bool,
    after: &ZonedTime,
    time: (u32, u32),
    r: ZonedTime,
    today: (int, int, int),
)
    requires
        call_ensures(
            scheduler::next_calendar,
            (days, at, zone, on_day, last_day, after),
            r,
        ),
        call_ensures(scheduler::parse_hhmm, (at,), time),
        exists|i: int| 0 <= i < days@.len() && (#[trigger] days@[i])@ == "month"@,
        calendar::valid_date(today.0, today.1, today.2),
        calendar::day_number(today.0, today.1, today.2) == zone::reads(zone@, after.secs as int)
            / 86400,
    ensures
        r.secs > after.secs,
        r.nanos == 0,
        r.zone@ == zone@,
        exists|y: int, m: int, d: int| {
            &&& #[trigger] is_meant(on_day, last_day, y, m, d)
            &&& y > today.0 || (y == today.0 && m >= today.1)
            &&& r.secs == scheduler::resolved(
                zone@,
                calendar::day_number(y, m, d) * 86400 + time.0 * 3600 + time.1 * 60,
            )
            &&& forall|z: int, k: int, e: int|
                (z > today.0 || (z == today.0 && k >= today.1)) && (z < y || (z == y && k < m))
                    && #[trigger] is_meant(on_day, last_day, z, k, e) ==> scheduler::resolved(
                    zone@,
                    calendar::day_number(z, k, e) * 86400 + time.0 * 3600 + time.1 * 60,
                ) <= after.secs
        },
{
    let list = text::views(days@);
    assert(list.contains("month"@)) by {
        let i = choose|i: int| 0 <= i < days@.len() && (#[trigger] days@[i])@ == "month"@;
        assert(list[i] == "month"@);
    }
    let seconds = scheduler::seconds_of(at@);
    assert(seconds == time.0 * 3600 + time.1 * 60);
    let secs = after.secs as int;
    scheduler::lemma_civil(today.0, today.1, today.2);
    let from = today.0 * 12 + today.1 - 1;
    assert(scheduler::month_index(zone::reads(zone@, secs) / 86400) == from);
    let k0 = choose|k: int| #[trigger]
        scheduler::is_next_month(zone@, on_day, last_day, seconds, secs, from, k) && r.secs
            == scheduler::month_firing(zone@, on_day, last_day, seconds, k);
    let (y, m) = (scheduler::year_of_month(k0), scheduler::month_of_month(k0));
    let d = scheduler::month_day(on_day, last_day, y, m);
    assert(scheduler::fires_in_month(zone@, on_day, last_day, seconds, secs, k0));
    lemma_month_day(on_day, last_day, y, m, d);
    assert(k0 == y * 12 + m - 1);
    assert forall|z: int, k: int, e: int|
        (z > today.0 || (z == today.0 && k >= today.1)) && (z < y || (z == y && k < m))
            && #[trigger] is_meant(on_day, last_day, z, k, e) implies scheduler::resolved(
        zone@,
        calendar::day_number(z, k, e) * 86400 + time.0 * 3600 + time.1 * 60,
    ) <= after.secs by {
        lemma_month_day(on_day, last_day, z, k, e);
        let j = z * 12 + k - 1;
        assert(scheduler::year_of_month(j) == z && scheduler::month_of_month(j) == k);
        assert(from <= j < k0);
        assert(!scheduler::fires_in_month(zone@, on_day, last_day, seconds, secs, j));
    }
    assert(is_meant(on_day, last_day, y, m, d));
}

// ----------------------------------------------------------------------- aligned schedules

/// The next boundary of an interval after a wall-clock time: a whole number of intervals after
/// the start of the hour or day, the first that is after it.
pub proof fn lemma_boundary_is_next(wall: int, every: int)
    requires
        every > 0,
    ensures
        ({
            let b = Grid::Minutes.boundary(wall, every);
            let start = wall - wall % 3600;
            &&& wall < b
            &&& (b - start) % (60 * every) == 0
            &&& b - 60 * every <= wall
        }),
        ({
            let b = Grid::Hours.boundary(wall, every);
            let start = wall - wall % 86400;
            &&& wall < b
            &&& (b - start) % (3600 * every) == 0
            &&& b - 3600 * every <= wall
        }),
{
    lemma_boundary(wall, every, 3600, 60);
    lemma_boundary(wall, every, 86400, 3600);
}

proof fn lemma_boundary(wall: int, every: int, block: int, unit: int)
    requires
        every > 0,
        (block == 3600 && unit == 60) || (block == 86400 && unit == 3600),
    ensures
        ({
            let start = wall - wall % block;
            let b = start + (wall % block / unit / every + 1) * every * unit;
            &&& wall < b
            &&& (b - start) % (unit * every) == 0
            &&& b - unit * every <= wall
        }),
{
    let n = wall % block / unit;
    let q = n / every + 1;
    scheduler::lemma_boundary_terms(n, every, unit);
    assert(q * every * unit == q * (unit * every)) by (nonlinear_arith);
    assert(unit * every > 0) by (nonlinear_arith)
        requires
            unit > 0,
            every > 0,
    ;
    vstd::arithmetic::div_mod::lemma_mod_multiples_basic(q, unit * every);
    assert(n * unit <= wall % block < (n + 1) * unit);
    assert((n + 1) * unit <= q * every * unit) by (nonlinear_arith)
        requires
            n + 1 <= q * every,
            unit > 0,
    ;
    vstd::arithmetic::div_mod::lemma_fundamental_div_mod(n, every);
    vstd::arithmetic::div_mod::lemma_mod_bound(n, every);
    assert(q * every * unit - unit * every <= n * unit) by (nonlinear_arith)
        requires
            q == n / every + 1,
            n == every * (n / every) + n % every,
            0 <= n % every,
            unit > 0,
    ;
}

/// Where the interval divides the hour, a schedule of minutes fires next at a full minute that is
/// a multiple of it within its hour, after the instant; and no such minute before that one has a
/// firing after the instant.
pub proof fn lemma_minutes_fire_in_step(every: u32, after: &ZonedTime, r: ZonedTime)
    requires
        every > 0,
        60int % (every as int) == 0,
        call_ensures(scheduler::next_minute_aligned, (every, after), r),
    ensures
        r.secs > after.secs,
        r.nanos == 0,
        r.zone@ == after.zone@,
        exists|b: int| {
            &&& zone::reads(after.zone@, after.secs as int) < b
            &&& b % 60 == 0
            &&& b / 60 % 60 % (every as int) == 0
            &&& r.secs == #[trigger] scheduler::resolved(after.zone@, b)
            &&& forall|w: int|
                zone::reads(after.zone@, after.secs as int) < w < b && w % 60 == 0 && w / 60 % 60
                    % (every as int) == 0 ==> #[trigger] scheduler::resolved(after.zone@, w)
                    <= after.secs
        },
{
    reveal(scheduler::is_multiple);
    let b = scheduler::next_boundary(
        after.zone@,
        Grid::Minutes,
        every as int,
        after.wall(),
        after.secs as int,
    );
    lemma_minute_of(b);
    assert forall|w: int|
        after.wall() < w < b && w % 60 == 0 && w / 60 % 60 % (every as int)
            == 0 implies #[trigger] scheduler::resolved(after.zone@, w) <= after.secs by {
        lemma_minute_of(w);
        assert(Grid::Minutes.holds(w, every as int));
    }
}

proof fn lemma_minute_of(w: int)
    ensures
        w % 3600 / 60 == w / 60 % 60,
{
}

/// Where the interval divides the day, a schedule of hours fires next at a full hour that is a
/// multiple of it within its day, after the instant; and no such hour before that one has a
/// firing after the instant.
pub proof fn lemma_hours_fire_in_step(every: u32, after: &ZonedTime, r: ZonedTime)
    requires
        every > 0,
        24int % (every as int) == 0,
        call_ensures(scheduler::next_hour_aligned, (every, after), r),
    ensures
        r.secs > after.secs,
        r.nanos == 0,
        r.zone@ == after.zone@,
        exists|b: int| {
            &&& zone::reads(after.zone@, after.secs as int) < b
            &&& b % 3600 == 0
            &&& b / 3600 % 24 % (every as int) == 0
            &&& r.secs == #[trigger] scheduler::resolved(after.zone@, b)
            &&& forall|w: int|
                zone::reads(after.zone@, after.secs as int) < w < b && w % 3600 == 0 && w / 3600
                    % 24 % (every as int) == 0 ==> #[trigger] scheduler::resolved(after.zone@, w)
                    <= after.secs
        },
{
    reveal(scheduler::is_multiple);
    let b = scheduler::next_boundary(
        after.zone@,
        Grid::Hours,
        every as int,
        after.wall(),
        after.secs as int,
    );
    lemma_hour_of(b);
    assert forall|w: int|
        after.wall() < w < b && w % 3600 == 0 && w / 3600 % 24 % (every as int)
            == 0 implies #[trigger] scheduler::resolved(after.zone@, w) <= after.secs by {
        lemma_hour_of(w);
        assert(Grid::Hours.holds(w, every as int));
    }
}

proof fn lemma_hour_of(w: int)
    ensures
        w % 86400 / 3600 == w / 3600 % 24,
{
}

// ------------------------------------------------------------------------------- cron

/// A cron schedule fires at the expression's next match, where that is after the instant and
/// jobs can run at it; a text that is no expression never fires.
pub proof fn lemma_cron_fires_at_next_match(
    expression: &str,
    zone: &str,
    after: &ZonedTime,
    r: Option<ZonedTime>,
    secs: i64,
    nanos: u32,
)
    requires
        call_ensures(scheduler::next_cron, (expression, zone, after), r),
        nanos < 1000000000,
    ensures
        r is Some ==> cron::cron_valid(expression@),
        r matches Some(t) ==> t.secs > after.secs || (t.secs == after.secs && t.nanos
            > after.nanos),
        r matches Some(t) ==> t.zone@ == zone@,
        cron::cron_valid(expression@) && cron::cron_next(
            expression@,
            zone@,
            after.secs as int,
            after.nanos as int,
        ) == Some((secs, nanos)) && zone::representable(secs as int) && (secs > after.secs || (secs
            == after.secs && nanos > after.nanos)) ==> (r matches Some(t) && t.secs == secs
            && t.nanos == nanos),
        cron::cron_valid(expression@) && cron::cron_next(
            expression@,
            zone@,
            after.secs as int,
            after.nanos as int,
        ) is None ==> r is None,
{
    reveal_with_fuel(scheduler::first_match_after, 2);
}

// ------------------------------------------------------------------------ any schedule

/// The next occurrence of a job is after the instant, in the zone, and its key tells the job, the
/// kind of its schedule, and the instant by the clocks of the zone.
pub proof fn lemma_occurrence_tells_itself(
    job_id: &str,
    schedule: &NormalizedSchedule,
    zone: &str,
    secs: i64,
    nanos: u32,
    r: Option<Occurrence>,
)
    requires
        call_ensures(firing::next_occurrence, (job_id, schedule, zone, secs, nanos), r),
    ensures
        r matches Some(o) ==> {
            let t = o.scheduled_for;
            &&& t.secs > secs || (t.secs == secs && t.nanos > nanos)
            &&& t.zone@ == zone@
            &&& o.key@ == job_id@ + ":"@ + (match *schedule {
                NormalizedSchedule::MinuteAligned { .. } => "minute"@,
                NormalizedSchedule::HourAligned { .. } => "hour"@,
                NormalizedSchedule::Calendar { .. } => "calendar"@,
                NormalizedSchedule::Cron { .. } => "cron"@,
            }) + ":"@ + zone::rfc3339_text(
                t.secs + zone::zone_offset(zone@, t.secs as int),
                t.nanos as int,
                zone::zone_offset(zone@, t.secs as int),
            )
        },
        !zone::zone_known(zone@) ==> r is None,
{
}

/// An aligned schedule has its next occurrence where the scheduler's next boundary is: counted in
/// minutes for minutes and in hours for hours. It has none only where the interval is zero, or
/// the boundary is past the times that jobs can run at.
pub proof fn lemma_aligned_occurrence(
    job_id: &str,
    schedule: &NormalizedSchedule,
    zone: &str,
    secs: i64,
    nanos: u32,
    r: Option<Occurrence>,
)
    requires
        call_ensures(firing::next_occurrence, (job_id, schedule, zone, secs, nanos), r),
        zone::zone_known(zone@),
        -8334569000000 <= secs <= 8210203000000,
        nanos < 1000000000,
    ensures
        schedule matches NormalizedSchedule::MinuteAligned { every_minutes } ==> {
            let b = scheduler::next_boundary(
                zone@,
                Grid::Minutes,
                *every_minutes as int,
                zone::reads(zone@, secs as int),
                secs as int,
            );
            let fires = *every_minutes > 0 && -8334600000000 <= b <= 8210266000000
                && -8334569000000 <= scheduler::resolved(zone@, b) <= 8210203000000;
            &&& r is Some <==> fires
            &&& r matches Some(o) ==> o.scheduled_for.secs == scheduler::resolved(zone@, b)
                && o.scheduled_for.nanos == 0
        },
        schedule matches NormalizedSchedule::HourAligned { every_hours } ==> {
            let b = scheduler::next_boundary(
                zone@,
                Grid::Hours,
                *every_hours as int,
                zone::reads(zone@, secs as int),
                secs as int,
            );
            let fires = *every_hours > 0 && -8334600000000 <= b <= 8210266000000
                && -8334569000000 <= scheduler::resolved(zone@, b) <= 8210203000000;
            &&& r is Some <==> fires
            &&& r matches Some(o) ==> o.scheduled_for.secs == scheduler::resolved(zone@, b)
                && o.scheduled_for.nanos == 0
        },
{
}

/// A calendar schedule has its next occurrence where the calendar's next firing is, and a cron
/// schedule where the next match is.
pub proof fn lemma_calendar_and_cron_occurrence(
    job_id: &str,
    schedule: &NormalizedSchedule,
    zone: &str,
    secs: i64,
    nanos: u32,
    r: Option<Occurrence>,
    at: i64,
)
    requires
        call_ensures(firing::next_occurrence, (job_id, schedule, zone, secs, nanos), r),
        zone::zone_known(zone@),
        -8334569000000 <= secs <= 8210203000000,
        nanos < 1000000000,
    ensures
        (schedule matches NormalizedSchedule::Calendar { days, at: time, on_day, last_day, .. }
            && scheduler::schedulable(text::views(days@)) && scheduler::is_calendar_firing(
            zone@,
            text::views(days@),
            time@,
            *on_day,
            *last_day,
            secs as int,
            at as int,
        ) && at > secs && -8334569000000 <= at <= 8210203000000) ==> (r matches Some(o)
            && o.scheduled_for.secs == at && o.scheduled_for.nanos == 0),
        schedule matches NormalizedSchedule::Cron { expression, .. } ==> {
            let found = scheduler::first_match_after(
                expression@,
                zone@,
                (secs as int, nanos as int),
                (secs as int, nanos as int),
            );
            &&& r is Some <==> (cron::cron_valid(expression@) && found is Some)
            &&& r matches Some(o) ==> found == Some((o.scheduled_for.secs, o.scheduled_for.nanos))
        },
{
    if let NormalizedSchedule::Calendar { days, at: time, on_day, last_day, .. } = schedule {
        let list = text::views(days@);
        if scheduler::schedulable(list) && scheduler::is_calendar_firing(
            zone@,
            list,
            time@,
            *on_day,
            *last_day,
            secs as int,
            at as int,
        ) && at > secs && -8334569000000 <= at <= 8210203000000 {
            assert(firing::fires_on_calendar(
                zone@,
                list,
                time@,
                *on_day,
                *last_day,
                secs as int,
            ));
            assert(firing::has_next(schedule@, zone@, secs as int, nanos as int));
            assert(firing::is_next_firing(schedule@, zone@, secs as int, nanos as int, (at, 0u32)));
            firing::lemma_next_firing_unique(
                schedule@,
                zone@,
                secs as int,
                nanos as int,
                (at, 0u32),
                (r->0.scheduled_for.secs, r->0.scheduled_for.nanos),
            );
        }
    }
}

/// A list of day words has a next firing exactly where it is empty, holds `month`, or one of its
/// words names some day.
pub proof fn lemma_schedulable_lists(days: &Vec<String>, r: bool)
    requires
        call_ensures(firing::is_schedulable, (days,), r),
    ensures
        r <==> (days@.len() == 0 || exists|i: int|
            0 <= i < days@.len() && is_day_word((#[trigger] days@[i])@)),
{
    let list = text::views(days@);
    schedule_laws::lemma_words();
    if r && days@.len() > 0 {
        if list.contains("month"@) {
            let i = choose|i: int| 0 <= i < list.len() && list[i] == "month"@;
            assert(is_day_word(days@[i]@));
        } else {
            let w = choose|w: calendar::Weekday| scheduler::fires_on(list, w);
            let i = choose|i: int|
                0 <= i < list.len() && scheduler::keyword_covers(#[trigger] list[i], w);
            assert(is_day_word(days@[i]@));
        }
    }
    if exists|i: int| 0 <= i < days@.len() && is_day_word((#[trigger] days@[i])@) {
        let i = choose|i: int| 0 <= i < days@.len() && is_day_word((#[trigger] days@[i])@);
        assert(list[i] == days@[i]@);
        if list[i] == "month"@ {
            assert(list.contains("month"@));
        } else {
            let w = if list[i] == "tuesday"@ {
                calendar::Weekday::Tue
            } else if list[i] == "wednesday"@ {
                calendar::Weekday::Wed
            } else if list[i] == "thursday"@ {
                calendar::Weekday::Thu
            } else if list[i] == "friday"@ {
                calendar::Weekday::Fri
            } else if list[i] == "saturday"@ {
                calendar::Weekday::Sat
            } else if list[i] == "sunday"@ {
                calendar::Weekday::Sun
            } else {
                calendar::Weekday::Mon
            };
            assert(scheduler::keyword_covers(list[i], w));
            assert(scheduler::fires_on(list, w));
        }
    }
}

/// The words for days.
pub open spec fn is_day_word(w: Seq<char>) -> bool {
    ||| w == "day"@
    ||| w == "weekday"@
    ||| w == "month"@
    ||| w == "monday"@
    ||| w == "tuesday"@
    ||| w == "wednesday"@
    ||| w == "thursday"@
    ||| w == "friday"@
    ||| w == "saturday"@
    ||| w == "sunday"@
}

/// The key of an occurrence is the id of its job, the kind of its schedule and its local time,
/// parted by colons.
pub proof fn lemma_key_is_made(
    job_id: &str,
    kind: ScheduleKind,
    at: ZonedTime,
    r: Occurrence,
    label: &'static str,
)
    requires
        call_ensures(Occurrence::new, (job_id, kind, at), r),
        call_ensures(ScheduleKind::as_str, (kind,), label),
    ensures
        r.scheduled_for == at,
        r.key@ == job_id@ + ":"@ + label@ + ":"@ + zone::rfc3339_text(
            at.secs + zone::zone_offset(at.zone@, at.secs as int),
            at.nanos as int,
            zone::zone_offset(at.zone@, at.secs as int),
        ),
        kind == ScheduleKind::Minute ==> label@ == "minute"@,
        kind == ScheduleKind::Hour ==> label@ == "hour"@,
        kind == ScheduleKind::Calendar ==> label@ == "calendar"@,
        kind == ScheduleKind::Cron ==> label@ == "cron"@,
{
}

} // verus!
