//! The next occurrence of any schedule, from plain values that need not be in order.

use crate::calendar::Weekday;
use crate::config;
use crate::config::NormalizedSchedule;
use crate::cron;
use crate::occurrence;
use crate::occurrence::{Occurrence, ScheduleKind};
use crate::scheduler;
use crate::scheduler::{
    calendar_fires_on, contains_text, next_aligned, next_calendar, next_cron, next_hour_aligned,
    next_minute_aligned, Grid, ZonedTime,
};
use crate::text;
use crate::zone;
use crate::zone::{is_representable, is_zone};
use vstd::prelude::*;

verus! {

/// The kind of a schedule.
pub open spec fn kind_of(schedule: config::ScheduleView) -> ScheduleKind {
    match schedule {
        config::ScheduleView::MinuteAligned { .. } => ScheduleKind::Minute,
        config::ScheduleView::HourAligned { .. } => ScheduleKind::Hour,
        config::ScheduleView::Calendar { .. } => ScheduleKind::Calendar,
        config::ScheduleView::Cron { .. } => ScheduleKind::Cron,
    }
}

/// Whether an aligned schedule has its next firing after an instant at one that jobs can run at.
pub open spec fn fires_on_grid(grid: Grid, every: int, zone: Seq<char>, secs: int) -> bool {
    let b = scheduler::next_boundary(zone, grid, every, zone::reads(zone, secs), secs);
    every > 0 && zone::datable(b) && zone::representable(scheduler::resolved(zone, b))
}

/// Whether a calendar schedule has its next firing after an instant at one that jobs can run at.
pub open spec fn fires_on_calendar(
    zone: Seq<char>,
    days: Seq<Seq<char>>,
    at: Seq<char>,
    on_day: Option<i64>,
    last_day: bool,
    secs: int,
) -> bool {
    exists|next: int| #[trigger]
        scheduler::is_calendar_firing(zone, days, at, on_day, last_day, secs, next)
            && zone::representable(next)
}

/// Whether the schedule has a next firing after the instant `secs` in the zone, at an instant
/// that jobs can run at: an interval that is not zero, days that come up, or a cron expression
/// that fires again.
pub open spec fn has_next(
    schedule: config::ScheduleView,
    zone: Seq<char>,
    secs: int,
    nanos: int,
) -> bool {
    match schedule {
        config::ScheduleView::MinuteAligned { every_minutes } => fires_on_grid(
            Grid::Minutes,
            every_minutes as int,
            zone,
            secs,
        ),
        config::ScheduleView::HourAligned { every_hours } => fires_on_grid(
            Grid::Hours,
            every_hours as int,
            zone,
            secs,
        ),
        config::ScheduleView::Calendar { days, at, on_day, last_day, .. } => scheduler::schedulable(
            days,
        ) && fires_on_calendar(zone, days, at, on_day, last_day, secs),
        config::ScheduleView::Cron { expression, .. } => cron::cron_valid(expression)
            && scheduler::first_match_after(expression, zone, (secs, nanos), (secs, nanos)) is Some,
    }
}

/// Whether `next` is the next firing of the schedule after the instant `secs` in the zone. It
/// is later than that instant.
pub open spec fn is_next_firing(
    schedule: config::ScheduleView,
    zone: Seq<char>,
    secs: int,
    nanos: int,
    next: (i64, u32),
) -> bool {
    let wall = zone::reads(zone, secs);
    &&& scheduler::is_later((next.0 as int, next.1 as int), (secs, nanos))
    &&& match schedule {
        config::ScheduleView::MinuteAligned { every_minutes } => next.1 == 0 && next.0
            == scheduler::resolved(
            zone,
            scheduler::next_boundary(zone, Grid::Minutes, every_minutes as int, wall, secs),
        ),
        config::ScheduleView::HourAligned { every_hours } => next.1 == 0 && next.0
            == scheduler::resolved(
            zone,
            scheduler::next_boundary(zone, Grid::Hours, every_hours as int, wall, secs),
        ),
        config::ScheduleView::Calendar { days, at, on_day, last_day, .. } => next.1 == 0
            && scheduler::is_calendar_firing(
            zone,
            days,
            at,
            on_day,
            last_day,
            secs,
            next.0 as int,
        ),
        config::ScheduleView::Cron { expression, .. } => scheduler::first_match_after(
            expression,
            zone,
            (secs, nanos),
            (secs, nanos),
        ) == Some(next),
    }
}

/// Whether a list of day keywords makes a schedule that fires.
pub fn is_schedulable(days: &Vec<String>) -> (r: bool)
    ensures
        r == scheduler::schedulable(text::views(days@)),
{
    let r = contains_text(days, "month") || calendar_fires_on(days, Weekday::Mon)
        || calendar_fires_on(days, Weekday::Tue) || calendar_fires_on(days, Weekday::Wed)
        || calendar_fires_on(days, Weekday::Thu) || calendar_fires_on(days, Weekday::Fri)
        || calendar_fires_on(days, Weekday::Sat) || calendar_fires_on(days, Weekday::Sun);
    proof {
        if !r {
            assert forall|w: Weekday| !scheduler::fires_on(text::views(days@), w) by {
                match w {
                    Weekday::Mon => {},
                    Weekday::Tue => {},
                    Weekday::Wed => {},
                    Weekday::Thu => {},
                    Weekday::Fri => {},
                    Weekday::Sat => {},
                    Weekday::Sun => {},
                }
            }
        }
    }
    r
}

/// A firing, where it is at an instant that jobs can run at.
fn where_jobs_run(t: ZonedTime) -> (r: Option<ZonedTime>)
    ensures
        r is Some <==> zone::representable(t.secs as int),
        r is Some ==> r == Some(t),
{
    if is_representable(t.secs) {
        Some(t)
    } else {
        None
    }
}

/// The next firing of a calendar schedule, where it is at an instant that jobs can run at.
fn next_on_calendar(
    days: &Vec<String>,
    at: &str,
    on_day: Option<i64>,
    last_day: bool,
    after: &ZonedTime,
) -> (r: Option<ZonedTime>)
    requires
        after.valid(),
        scheduler::schedulable(text::views(days@)),
    ensures
        r is Some <==> fires_on_calendar(
            after.zone@,
            text::views(days@),
            at@,
            on_day,
            last_day,
            after.secs as int,
        ),
        r matches Some(t) ==> t.zone@ == after.zone@ && t.nanos == 0 && t.secs > after.secs
            && zone::representable(t.secs as int) && scheduler::is_calendar_firing(
            after.zone@,
            text::views(days@),
            at@,
            on_day,
            last_day,
            after.secs as int,
            t.secs as int,
        ),
{
    let next = next_calendar(days, at, after.zone.as_str(), on_day, last_day, after);
    proof {
        let keywords = text::views(days@);
        let secs = after.secs as int;
        assert forall|n: int| #[trigger]
            scheduler::is_calendar_firing(
                after.zone@,
                keywords,
                at@,
                on_day,
                last_day,
                secs,
                n,
            ) implies n == next.secs by {
            scheduler::lemma_calendar_firing_unique(
                after.zone@,
                keywords,
                at@,
                on_day,
                last_day,
                secs,
                n,
                next.secs as int,
            );
        }
    }
    where_jobs_run(next)
}

/// The instant of the next firing.
fn next_firing(schedule: &NormalizedSchedule, after: &ZonedTime) -> (r: Option<ZonedTime>)
    requires
        after.valid(),
    ensures
        r is Some <==> has_next(schedule@, after.zone@, after.secs as int, after.nanos as int),
        r matches Some(t) ==> t.zone@ == after.zone@ && zone::representable(t.secs as int) && t.nanos
            < 1000000000 && is_next_firing(
            schedule@,
            after.zone@,
            after.secs as int,
            after.nanos as int,
            (t.secs, t.nanos),
        ),
{
    let zone = after.zone.as_str();
    match schedule {
        NormalizedSchedule::MinuteAligned { every_minutes } => {
            if *every_minutes == 0 || next_aligned(Grid::Minutes, *every_minutes, after).is_none() {
                return None;
            }
            where_jobs_run(next_minute_aligned(*every_minutes, after))
        },
        NormalizedSchedule::HourAligned { every_hours } => {
            if *every_hours == 0 || next_aligned(Grid::Hours, *every_hours, after).is_none() {
                return None;
            }
            where_jobs_run(next_hour_aligned(*every_hours, after))
        },
        NormalizedSchedule::Calendar { days, at, on_day, last_day, .. } => {
            if !is_schedulable(days) {
                return None;
            }
            next_on_calendar(days, at.as_str(), *on_day, *last_day, after)
        },
        NormalizedSchedule::Cron { expression, .. } => {
            next_cron(expression.as_str(), zone, after)
        },
    }
}

/// The kind of a schedule.
pub fn kind(schedule: &NormalizedSchedule) -> (r: ScheduleKind)
    ensures
        r == kind_of(schedule@),
{
    match schedule {
        NormalizedSchedule::MinuteAligned { .. } => ScheduleKind::Minute,
        NormalizedSchedule::HourAligned { .. } => ScheduleKind::Hour,
        NormalizedSchedule::Calendar { .. } => ScheduleKind::Calendar,
        NormalizedSchedule::Cron { .. } => ScheduleKind::Cron,
    }
}

/// The next occurrence of a job's schedule after an instant, by the clocks of a zone. There is
/// none where the zone is not known, no job can run at the instant, or the schedule has no next
/// firing at an instant that jobs can run at.
pub fn next_occurrence(
    job_id: &str,
    schedule: &NormalizedSchedule,
    zone: &str,
    secs: i64,
    nanos: u32,
) -> (r: Option<Occurrence>)
    ensures
        r is Some <==> zone::zone_known(zone@) && zone::representable(secs as int) && nanos < 1000000000
            && has_next(schedule@, zone@, secs as int, nanos as int),
        r matches Some(o) ==> zone::representable(o.scheduled_for.secs as int)
            && o.scheduled_for.nanos < 1000000000,
        r matches Some(o) ==> o.scheduled_for.zone@ == zone@ && is_next_firing(
            schedule@,
            zone@,
            secs as int,
            nanos as int,
            (o.scheduled_for.secs, o.scheduled_for.nanos),
        ) && o.key@ == occurrence::key_text(
            job_id@,
            kind_of(schedule@),
            zone@,
            o.scheduled_for.secs as int,
            o.scheduled_for.nanos as int,
        ),
{
    if !is_zone(zone) || !is_representable(secs) || nanos >= 1000000000 {
        return None;
    }
    let after = ZonedTime { secs, nanos, zone: zone.to_owned() };
    match next_firing(schedule, &after) {
        Some(t) => Some(Occurrence::new(job_id, kind(schedule), t)),
        None => None,
    }
}

/// A schedule has one next firing at most.
pub proof fn lemma_next_firing_unique(
    schedule: config::ScheduleView,
    zone: Seq<char>,
    secs: int,
    nanos: int,
    a: (i64, u32),
    b: (i64, u32),
)
    requires
        is_next_firing(schedule, zone, secs, nanos, a),
        is_next_firing(schedule, zone, secs, nanos, b),
    ensures
        a == b,
{
    if let config::ScheduleView::Calendar { days, at, on_day, last_day, .. } = schedule {
        scheduler::lemma_calendar_firing_unique(
            zone,
            days,
            at,
            on_day,
            last_day,
            secs,
            a.0 as int,
            b.0 as int,
        );
    }
}

} // verus!
