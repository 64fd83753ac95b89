use chrono::{NaiveDate, TimeZone, Utc};
use chrono_tz::Tz;
use periodic::calendar::{last_day_of_month, Weekday};
use periodic::config::NormalizedSchedule;
use periodic::firing::{is_schedulable, next_occurrence};
use periodic::occurrence::{Occurrence, ScheduleKind};
use periodic::scheduler::{
    calendar_fires_on, next_calendar, next_cron, next_hour_aligned, next_minute_aligned,
    parse_hhmm, resolve_timezone, resolve_timezone_from, resolve_wall_clock, weekday_from_name,
    WallTime, ZonedTime,
};

fn naive(y: i32, m: u32, d: u32, h: u32, min: u32) -> WallTime {
    naive_s(y, m, d, h, min, 0)
}

fn naive_s(y: i32, m: u32, d: u32, h: u32, min: u32, s: u32) -> WallTime {
    let t = NaiveDate::from_ymd_opt(y, m, d)
        .unwrap()
        .and_hms_opt(h, min, s)
        .unwrap();
    WallTime {
        secs: t.and_utc().timestamp(),
        nanos: 0,
    }
}

fn utc(y: i32, m: u32, d: u32, h: u32, min: u32) -> ZonedTime {
    resolve_wall_clock(naive(y, m, d, h, min), "UTC")
}

fn utc_s(y: i32, m: u32, d: u32, h: u32, min: u32, s: u32) -> ZonedTime {
    resolve_wall_clock(naive_s(y, m, d, h, min, s), "UTC")
}

fn parts(t: &ZonedTime) -> (i64, u32, String) {
    (t.secs, t.nanos, t.zone.clone())
}

fn rfc3339(t: &ZonedTime) -> String {
    let zone: Tz = t.zone.parse().unwrap();
    Utc.timestamp_opt(t.secs, t.nanos)
        .unwrap()
        .with_timezone(&zone)
        .to_rfc3339()
}

const NEW_YORK: &str = "America/New_York";

#[test]
fn resolve_timezone_parses_a_named_zone() {
    assert_eq!(resolve_timezone(Some("America/New_York")), NEW_YORK);
}

#[test]
fn unknown_zone_falls_back_to_utc() {
    assert_eq!(resolve_timezone(Some("Mars/Phobos")), "UTC");
    assert_eq!(resolve_timezone_from(None, Some("Europe/Berlin")), "Europe/Berlin");
    assert_eq!(resolve_timezone_from(None, Some("nowhere")), "UTC");
    assert_eq!(resolve_timezone_from(None, None), "UTC");
    assert_eq!(resolve_timezone_from(Some("Asia/Tokyo"), Some("Europe/Berlin")), "Asia/Tokyo");
}

#[test]
fn the_machines_zone_is_a_known_one() {
    let zone = resolve_timezone(None);
    assert!(zone.parse::<Tz>().is_ok());
}

#[test]
fn resolve_wall_clock_returns_unambiguous_local_time() {
    let dt = resolve_wall_clock(naive(2026, 1, 15, 9, 0), NEW_YORK);
    assert_eq!(rfc3339(&dt), "2026-01-15T09:00:00-05:00");
}

#[test]
fn resolve_wall_clock_advances_through_a_spring_forward_gap() {
    let dt = resolve_wall_clock(naive(2026, 3, 8, 2, 30), NEW_YORK);
    assert_eq!(rfc3339(&dt), "2026-03-08T03:00:00-04:00");
}

#[test]
fn resolve_wall_clock_picks_the_earlier_offset_on_a_fall_back_fold() {
    let dt = resolve_wall_clock(naive(2026, 11, 1, 1, 30), NEW_YORK);
    assert_eq!(rfc3339(&dt), "2026-11-01T01:30:00-04:00");
}

#[test]
fn occurrence_carries_the_instant_and_an_offset_qualified_key() {
    let dt = resolve_wall_clock(naive(2026, 1, 15, 9, 0), NEW_YORK);
    let occ = Occurrence::new("backup", ScheduleKind::Calendar, dt.clone());
    assert_eq!(parts(&occ.scheduled_for), parts(&dt));
    assert_eq!(occ.key, "backup:calendar:2026-01-15T09:00:00-05:00");
}

#[test]
fn the_two_sides_of_a_fold_have_distinct_keys() {
    let first = resolve_wall_clock(naive(2026, 11, 1, 1, 30), NEW_YORK);
    let second = ZonedTime {
        secs: first.secs + 3600,
        nanos: 0,
        zone: NEW_YORK.to_owned(),
    };
    let a = Occurrence::new("j", ScheduleKind::Hour, first);
    let b = Occurrence::new("j", ScheduleKind::Hour, second);
    assert_eq!(a.key, "j:hour:2026-11-01T01:30:00-04:00");
    assert_eq!(b.key, "j:hour:2026-11-01T01:30:00-05:00");
}

#[test]
fn the_kinds_have_stable_names() {
    assert_eq!(ScheduleKind::Minute.as_str(), "minute");
    assert_eq!(ScheduleKind::Hour.as_str(), "hour");
    assert_eq!(ScheduleKind::Calendar.as_str(), "calendar");
    assert_eq!(ScheduleKind::Cron.as_str(), "cron");
}

// ------------------------------------------------------------------------- minute-aligned

#[test]
fn minute_aligned_picks_the_next_boundary_within_the_hour() {
    assert_eq!(
        parts(&next_minute_aligned(15, &utc(2026, 1, 15, 9, 7))),
        parts(&utc(2026, 1, 15, 9, 15))
    );
}

#[test]
fn minute_aligned_is_strict_when_already_on_a_boundary() {
    assert_eq!(
        parts(&next_minute_aligned(15, &utc(2026, 1, 15, 9, 15))),
        parts(&utc(2026, 1, 15, 9, 30))
    );
}

#[test]
fn minute_aligned_advances_to_a_boundary_when_seconds_remain() {
    assert_eq!(
        parts(&next_minute_aligned(15, &utc_s(2026, 1, 15, 9, 15, 30))),
        parts(&utc(2026, 1, 15, 9, 30))
    );
}

#[test]
fn minute_aligned_rolls_across_the_day() {
    assert_eq!(
        parts(&next_minute_aligned(30, &utc(2026, 1, 15, 23, 45))),
        parts(&utc(2026, 1, 16, 0, 0))
    );
}

// --------------------------------------------------------------------------- hour-aligned

#[test]
fn hour_aligned_picks_the_next_boundary() {
    assert_eq!(
        parts(&next_hour_aligned(6, &utc(2026, 1, 15, 6, 30))),
        parts(&utc(2026, 1, 15, 12, 0))
    );
}

#[test]
fn hour_aligned_is_strict_when_already_on_a_boundary() {
    assert_eq!(
        parts(&next_hour_aligned(6, &utc(2026, 1, 15, 12, 0))),
        parts(&utc(2026, 1, 15, 18, 0))
    );
}

#[test]
fn hour_aligned_rolls_across_the_day() {
    assert_eq!(
        parts(&next_hour_aligned(6, &utc(2026, 1, 15, 18, 30))),
        parts(&utc(2026, 1, 16, 0, 0))
    );
}

// ------------------------------------------------------------------------------- calendar

fn cal(days: &[&str], at: &str, on_day: Option<i64>, last_day: bool, after: ZonedTime) -> ZonedTime {
    let days: Vec<String> = days.iter().map(|s| s.to_string()).collect();
    next_calendar(&days, at, "UTC", on_day, last_day, &after)
}

#[test]
fn calendar_daily_fires_at_the_time_today_then_tomorrow() {
    assert_eq!(
        parts(&cal(&["day"], "09:00", None, false, utc(2026, 1, 15, 8, 0))),
        parts(&utc(2026, 1, 15, 9, 0))
    );
    assert_eq!(
        parts(&cal(&["day"], "09:00", None, false, utc(2026, 1, 15, 9, 0))),
        parts(&utc(2026, 1, 16, 9, 0))
    );
}

#[test]
fn calendar_single_weekday_jumps_to_that_weekday() {
    assert_eq!(
        parts(&cal(&["friday"], "17:00", None, false, utc(2026, 1, 14, 12, 0))),
        parts(&utc(2026, 1, 16, 17, 0))
    );
}

#[test]
fn calendar_multiple_weekdays_pick_the_nearest() {
    assert_eq!(
        parts(&cal(
            &["monday", "wednesday", "friday"],
            "09:00",
            None,
            false,
            utc(2026, 1, 15, 10, 0)
        )),
        parts(&utc(2026, 1, 16, 9, 0))
    );
}

#[test]
fn calendar_weekday_token_skips_the_weekend() {
    assert_eq!(
        parts(&cal(&["weekday"], "09:00", None, false, utc(2026, 1, 16, 18, 0))),
        parts(&utc(2026, 1, 19, 9, 0))
    );
}

#[test]
fn calendar_monthly_on_day_fires_next_month() {
    assert_eq!(
        parts(&cal(&["month"], "09:00", Some(1), false, utc(2026, 1, 15, 0, 0))),
        parts(&utc(2026, 2, 1, 9, 0))
    );
}

#[test]
fn calendar_monthly_last_day_fires_end_of_month() {
    assert_eq!(
        parts(&cal(&["month"], "09:00", None, true, utc(2026, 1, 15, 0, 0))),
        parts(&utc(2026, 1, 31, 9, 0))
    );
}

#[test]
fn calendar_monthly_on_day_31_skips_months_without_it() {
    assert_eq!(
        parts(&cal(&["month"], "09:00", Some(31), false, utc(2026, 2, 1, 0, 0))),
        parts(&utc(2026, 3, 31, 9, 0))
    );
}

#[test]
fn calendar_monthly_last_day_knows_leap_years() {
    assert_eq!(
        parts(&cal(&["month"], "00:30", None, true, utc(2028, 2, 1, 0, 0))),
        parts(&utc(2028, 2, 29, 0, 30))
    );
    assert_eq!(
        parts(&cal(&["month"], "23:59", Some(30), false, utc(2026, 12, 31, 0, 0))),
        parts(&utc(2027, 1, 30, 23, 59))
    );
}

#[test]
fn calendar_daily_advances_through_a_dst_gap_in_its_own_zone() {
    let days = vec!["day".to_string()];
    let after = resolve_wall_clock(naive(2026, 3, 8, 0, 0), NEW_YORK);
    let next = next_calendar(&days, "02:30", NEW_YORK, None, false, &after);
    assert_eq!(rfc3339(&next), "2026-03-08T03:00:00-04:00");
}

#[test]
fn times_of_day_read_as_hours_and_minutes() {
    assert_eq!(parse_hhmm("09:05"), (9, 5));
    assert_eq!(parse_hhmm("nonsense"), (0, 0));
    assert_eq!(parse_hhmm("7:x"), (0, 0));
    assert_eq!(parse_hhmm("23:59"), (23, 59));
    assert_eq!(parse_hhmm("24:00"), (0, 0));
    assert_eq!(parse_hhmm("25:00"), (0, 0));
    assert_eq!(parse_hhmm("09:60"), (0, 0));
}

#[test]
fn a_malformed_time_fires_at_midnight() {
    let days = vec!["day".to_string()];
    let next = next_calendar(&days, "25:00", "UTC", None, false, &utc(2026, 1, 15, 8, 0));
    assert_eq!(parts(&next), parts(&utc(2026, 1, 16, 0, 0)));
}

#[test]
fn no_day_keyword_is_every_day() {
    let next = next_calendar(&vec![], "09:00", "UTC", None, false, &utc(2026, 1, 15, 8, 0));
    assert_eq!(parts(&next), parts(&utc(2026, 1, 15, 9, 0)));
    assert!(calendar_fires_on(&vec![], Weekday::Sun));
    let always = NormalizedSchedule::Calendar {
        days: vec![],
        at: "09:00".to_string(),
        timezone: None,
        on_day: None,
        last_day: false,
    };
    let o = next_occurrence("j", &always, "UTC", utc(2026, 1, 17, 10, 0).secs, 0).unwrap();
    assert_eq!(o.key, "j:calendar:2026-01-18T09:00:00+00:00");
}

fn second_pass(hour: u32, minute: u32) -> ZonedTime {
    let first = resolve_wall_clock(naive(2026, 11, 1, hour, minute), NEW_YORK);
    ZonedTime {
        secs: first.secs + 3600,
        nanos: 0,
        zone: NEW_YORK.to_owned(),
    }
}

#[test]
fn a_firing_is_later_while_the_clocks_repeat_an_hour() {
    let after = second_pass(1, 30);
    assert_eq!(rfc3339(&after), "2026-11-01T01:30:00-05:00");
    let next = next_minute_aligned(15, &after);
    assert_eq!(rfc3339(&next), "2026-11-01T02:00:00-05:00");
    let first = resolve_wall_clock(naive(2026, 11, 1, 1, 30), NEW_YORK);
    assert_eq!(
        rfc3339(&next_minute_aligned(15, &first)),
        "2026-11-01T01:45:00-04:00"
    );
    let before = resolve_wall_clock(naive(2026, 11, 1, 0, 59), NEW_YORK);
    assert_eq!(
        rfc3339(&next_hour_aligned(1, &before)),
        "2026-11-01T01:00:00-04:00"
    );
    let next = next_hour_aligned(1, &second_pass(1, 0));
    assert_eq!(rfc3339(&next), "2026-11-01T02:00:00-05:00");
    let mut at = first.clone();
    for _ in 0..20 {
        let next = next_minute_aligned(30, &at);
        assert!(next.secs > at.secs);
        at = next;
    }
}

#[test]
fn cron_is_later_while_the_clocks_repeat_an_hour() {
    let after = second_pass(1, 10);
    let next = next_cron("30 1 * * *", NEW_YORK, &after).unwrap();
    assert!(next.secs > after.secs, "got {}", rfc3339(&next));
}

#[test]
fn weekdays_read_by_name() {
    assert_eq!(weekday_from_name("sunday"), Some(Weekday::Sun));
    assert_eq!(weekday_from_name("Sunday"), None);
    let weekday = vec!["weekday".to_string()];
    assert!(calendar_fires_on(&weekday, Weekday::Fri));
    assert!(!calendar_fires_on(&weekday, Weekday::Sat));
}

#[test]
fn months_have_their_lengths() {
    assert_eq!(last_day_of_month(2026, 1), 31);
    assert_eq!(last_day_of_month(2026, 2), 28);
    assert_eq!(last_day_of_month(2000, 2), 29);
    assert_eq!(last_day_of_month(1900, 2), 28);
    assert_eq!(last_day_of_month(2026, 12), 31);
}

// ----------------------------------------------------------------------------------- cron

fn cron(expression: &str, zone: &str, after: &ZonedTime) -> Option<(i64, u32, String)> {
    next_cron(expression, zone, after).map(|t| parts(&t))
}

#[test]
fn cron_daily_fires_at_the_pattern_time() {
    assert_eq!(
        cron("0 9 * * *", "UTC", &utc(2026, 1, 15, 8, 0)),
        Some(parts(&utc(2026, 1, 15, 9, 0)))
    );
}

#[test]
fn cron_is_strict_after_a_matching_instant() {
    assert_eq!(
        cron("0 9 * * *", "UTC", &utc(2026, 1, 15, 9, 0)),
        Some(parts(&utc(2026, 1, 16, 9, 0)))
    );
}

#[test]
fn cron_honors_the_schedule_timezone() {
    let after = resolve_wall_clock(naive(2026, 1, 15, 8, 0), NEW_YORK);
    let next = next_cron("0 9 * * *", NEW_YORK, &after).unwrap();
    assert_eq!(rfc3339(&next), "2026-01-15T09:00:00-05:00");
}

#[test]
fn cron_weekday_range_skips_the_weekend() {
    assert_eq!(
        cron("0 9 * * 1-5", "UTC", &utc(2026, 1, 16, 18, 0)),
        Some(parts(&utc(2026, 1, 19, 9, 0)))
    );
}

#[test]
fn cron_unparseable_expression_yields_none() {
    assert_eq!(cron("not a cron", "UTC", &utc(2026, 1, 15, 8, 0)), None);
}

// ------------------------------------------------------------------------ any schedule

#[test]
fn any_schedule_has_its_next_occurrence() {
    let after = utc(2026, 1, 15, 9, 7);
    let minutes = NormalizedSchedule::MinuteAligned { every_minutes: 15 };
    let o = next_occurrence("tick", &minutes, "UTC", after.secs, 0).unwrap();
    assert_eq!(o.key, "tick:minute:2026-01-15T09:15:00+00:00");
    let hours = NormalizedSchedule::HourAligned { every_hours: 6 };
    let o = next_occurrence("tock", &hours, "UTC", after.secs, 0).unwrap();
    assert_eq!(o.key, "tock:hour:2026-01-15T12:00:00+00:00");
    let daily = NormalizedSchedule::Calendar {
        days: vec!["day".to_string()],
        at: "09:00".to_string(),
        timezone: None,
        on_day: None,
        last_day: false,
    };
    let o = next_occurrence("daily", &daily, NEW_YORK, after.secs, 0).unwrap();
    assert_eq!(o.key, "daily:calendar:2026-01-15T09:00:00-05:00");
    let cron = NormalizedSchedule::Cron {
        expression: "30 6 * * *".to_string(),
        timezone: None,
    };
    let o = next_occurrence("early", &cron, "UTC", after.secs, 0).unwrap();
    assert_eq!(o.key, "early:cron:2026-01-16T06:30:00+00:00");
}

#[test]
fn schedules_fire_up_to_the_last_years_that_a_date_can_be_given_for() {
    let minutes = NormalizedSchedule::MinuteAligned { every_minutes: 15 };
    let o = next_occurrence("j", &minutes, "UTC", 8_100_000_000_000, 0).unwrap();
    assert_eq!(o.key, "j:minute:+258648-10-13T00:15:00+00:00");
    let o = next_occurrence("j", &minutes, "UTC", 8_210_202_990_000, 0).unwrap();
    assert_eq!(o.key, "j:minute:+262140-12-22T13:45:00+00:00");
    assert!(next_occurrence("j", &minutes, "UTC", 8_210_203_000_000, 0).is_none());
    assert!(next_occurrence("j", &minutes, "UTC", 8_210_203_000_001, 0).is_none());
    let o = next_occurrence("j", &minutes, "UTC", -8_334_569_000_000, 0).unwrap();
    assert_eq!(o.key, "j:minute:-262142-01-09T00:30:00+00:00");
    let month = |on_day: i64| NormalizedSchedule::Calendar {
        days: vec!["month".to_string()],
        at: "09:00".to_string(),
        timezone: None,
        on_day: Some(on_day),
        last_day: false,
    };
    let o = next_occurrence("j", &month(20), NEW_YORK, 8_210_200_000_000, 0).unwrap();
    assert_eq!(o.key, "j:calendar:+262140-11-20T09:00:00-05:00");
    let o = next_occurrence("j", &month(1), "UTC", 8_210_200_000_000, 0).unwrap();
    assert_eq!(o.key, "j:calendar:+262140-12-01T09:00:00+00:00");
    assert!(next_occurrence("j", &month(31), "UTC", 8_210_200_000_000, 0).is_none());
    let long = NormalizedSchedule::HourAligned { every_hours: 2_000_000_000 };
    assert!(next_occurrence("j", &long, "UTC", 0, 0).is_some());
    assert!(next_occurrence("j", &long, "UTC", 8_100_000_000_000, 0).is_none());
}

#[test]
fn a_schedule_without_a_next_occurrence_has_none() {
    let zero = NormalizedSchedule::MinuteAligned { every_minutes: 0 };
    assert!(next_occurrence("j", &zero, "UTC", 0, 0).is_none());
    let minutes = NormalizedSchedule::MinuteAligned { every_minutes: 15 };
    assert!(next_occurrence("j", &minutes, "Mars/Phobos", 0, 0).is_none());
    assert!(next_occurrence("j", &minutes, "UTC", i64::MAX, 0).is_none());
    let cron = NormalizedSchedule::Cron {
        expression: "not a cron".to_string(),
        timezone: None,
    };
    assert!(next_occurrence("j", &cron, "UTC", 0, 0).is_none());
    assert!(!is_schedulable(&vec!["someday".to_string()]));
    assert!(is_schedulable(&vec!["month".to_string()]));
}
