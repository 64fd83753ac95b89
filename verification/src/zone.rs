//! Time zones: which names are known, what a zone's clocks read at an instant, and which
//! instants read a given wall-clock time. Instants are seconds since 1970-01-01T00:00:00 UTC;
//! wall-clock times are seconds since 1970-01-01T00:00:00 on the zone's own clocks.

use crate::calendar;
use crate::text;
use chrono::{Offset, TimeZone};
use vstd::prelude::*;

verus! {

/// From this wall-clock time on (2100-01-01) the zone tables hold no transition.
pub const TABLE_END: i64 = 4102444800;

/// The first wall-clock time that a date can be given for, and the last, to within two weeks of
/// the years -262143 to 262142.
pub const FIRST_WALL: i64 = -8334600000000;

pub const LAST_WALL: i64 = 8210266000000;

/// The first instant that jobs can run at, and the last: those in the years -262142 to 262140.
pub const FIRST_INSTANT: i64 = -8334569000000;

pub const LAST_INSTANT: i64 = 8210203000000;

/// Whether a date can be given for a wall-clock time, and for the instants that read it in any
/// zone.
pub open spec fn datable(wall: int) -> bool {
    FIRST_WALL <= wall <= LAST_WALL
}

/// Whether jobs can run at an instant: a date can be given for it in any zone, and so it can for
/// the time at which a calendar schedule comes up next.
pub open spec fn representable(secs: int) -> bool {
    FIRST_INSTANT <= secs <= LAST_INSTANT
}

/// Whether jobs can run at an instant.
pub(crate) fn is_representable(secs: i64) -> (r: bool)
    ensures
        r == representable(secs as int),
{
    FIRST_INSTANT <= secs && secs <= LAST_INSTANT
}

/// The instants that read a wall-clock time in a zone.
#[derive(Debug, Clone, Copy, PartialEq, Eq, Structural)]
pub enum LocalTime {
    /// The clocks skip it.
    Skipped,
    /// The clocks show it once.
    Single(i64),
    /// The clocks show it twice: the earlier instant, then the later one.
    Twice(i64, i64),
}

/// Whether a text is the name of a zone.
pub uninterp spec fn zone_known(name: Seq<char>) -> bool;

/// How far a zone's clocks are ahead of UTC at an instant, in seconds.
pub uninterp spec fn zone_offset(zone: Seq<char>, secs: int) -> int;

/// The instants that read a wall-clock time in a zone.
pub uninterp spec fn local_times(zone: Seq<char>, wall: int) -> LocalTime;

/// What a zone's clocks read at an instant.
pub open spec fn reads(zone: Seq<char>, secs: int) -> int {
    secs + zone_offset(zone, secs)
}

/// `chrono_tz::Tz::from_str` accepts a text or not, by the text alone; it accepts `UTC`.
#[verifier::external_body]
pub(crate) fn is_zone(name: &str) -> (r: bool)
    ensures
        r == zone_known(name@),
        name@ == "UTC"@ ==> r,
{
    name.parse::<chrono_tz::Tz>().is_ok()
}

/// `chrono_tz::Tz::offset_from_utc_datetime` is a function of the zone and the instant, and
/// is less than a day either way.
#[verifier::external_body]
pub(crate) fn offset_at(zone: &str, secs: i64) -> (r: i32)
    requires
        zone_known(zone@),
        representable(secs as int),
    ensures
        r == zone_offset(zone@, secs as int),
        -86400 < r < 86400,
{
    let tz = zone.parse::<chrono_tz::Tz>().unwrap();
    let utc = chrono::DateTime::from_timestamp(secs, 0).unwrap().naive_utc();
    tz.offset_from_utc_datetime(&utc).fix().local_minus_utc()
}

/// `chrono_tz::Tz::from_local_datetime` is a function of the zone and the wall-clock time. An
/// instant that it gives reads that time and is less than a day away from it; of two, the
/// first is the earlier; and past the end of the zone tables there is exactly one.
#[verifier::external_body]
pub(crate) fn lookup(zone: &str, wall: i64) -> (r: LocalTime)
    requires
        zone_known(zone@),
        datable(wall as int),
    ensures
        r == local_times(zone@, wall as int),
        r matches LocalTime::Single(t) ==> reads(zone@, t as int) == wall && wall - 86400 < t < wall
            + 86400,
        r matches LocalTime::Twice(a, b) ==> reads(zone@, a as int) == wall && reads(
            zone@,
            b as int,
        ) == wall && wall - 86400 < a < b < wall + 86400,
        wall >= TABLE_END ==> r is Single,
{
    let tz = zone.parse::<chrono_tz::Tz>().unwrap();
    let local = chrono::DateTime::from_timestamp(wall, 0).unwrap().naive_utc();
    match tz.from_local_datetime(&local) {
        chrono::LocalResult::None => LocalTime::Skipped,
        chrono::LocalResult::Single(t) => LocalTime::Single(t.timestamp()),
        chrono::LocalResult::Ambiguous(a, b) => LocalTime::Twice(a.timestamp(), b.timestamp()),
    }
}

/// `iana_time_zone::get_timezone`: the name of the machine's zone, where it can be told. It
/// depends on the machine, so nothing is promised of it.
#[verifier::external_body]
pub(crate) fn machine_zone() -> (r: Option<String>) {
    iana_time_zone::get_timezone().ok()
}

// ---------------------------------------------------------------------- RFC 3339

/// The digits of `n`, with zeros before them up to `width` digits.
pub open spec fn padded(n: nat, width: nat) -> Seq<char>
    decreases width,
{
    if width == 0 {
        Seq::empty()
    } else {
        padded(n / 10, (width - 1) as nat).push(text::digit_char(n % 10))
    }
}

/// A year: four digits, or with a sign and as many as it takes.
pub open spec fn year_text(y: int) -> Seq<char> {
    if 0 <= y <= 9999 {
        padded(y as nat, 4)
    } else if y > 9999 {
        seq!['+'] + text::decimal(y as nat)
    } else if y < -9999 {
        seq!['-'] + text::decimal((-y) as nat)
    } else {
        seq!['-'] + padded((-y) as nat, 4)
    }
}

/// The fraction of a second: none, or three, six or nine digits.
pub open spec fn fraction_text(nanos: int) -> Seq<char> {
    if nanos == 0 {
        Seq::empty()
    } else if nanos % 1000000 == 0 {
        seq!['.'] + padded((nanos / 1000000) as nat, 3)
    } else if nanos % 1000 == 0 {
        seq!['.'] + padded((nanos / 1000) as nat, 6)
    } else {
        seq!['.'] + padded(nanos as nat, 9)
    }
}

/// An offset from UTC, rounded to the minute.
pub open spec fn offset_text(offset: int) -> Seq<char> {
    let minutes = ((if offset < 0 {
        -offset
    } else {
        offset
    }) + 30) / 60;
    seq![if offset < 0 { '-' } else { '+' }] + padded((minutes / 60) as nat, 2) + seq![':'] + padded(
        (minutes % 60) as nat,
        2,
    )
}

/// The date with a day number, as year, month and day.
pub open spec fn civil(n: int) -> (int, int, int) {
    choose|d: (int, int, int)|
        calendar::valid_date(d.0, d.1, d.2) && #[trigger] calendar::day_number(d.0, d.1, d.2) == n
}

/// A wall-clock time and an offset, as RFC 3339 writes them.
pub open spec fn rfc3339_text(wall: int, nanos: int, offset: int) -> Seq<char> {
    let (y, m, d) = civil(wall / 86400);
    let s = wall % 86400;
    year_text(y) + seq!['-'] + padded(m as nat, 2) + seq!['-'] + padded(d as nat, 2) + seq!['T']
        + padded((s / 3600) as nat, 2) + seq![':'] + padded((s % 3600 / 60) as nat, 2) + seq![':']
        + padded((s % 60) as nat, 2) + fraction_text(nanos) + offset_text(offset)
}

/// `chrono::DateTime::to_rfc3339` of an instant in a zone: the zone's wall-clock time and
/// its offset at that instant. In `UTC` the offset is zero.
#[verifier::external_body]
pub(crate) fn to_rfc3339(zone: &str, secs: i64, nanos: u32) -> (r: String)
    requires
        zone_known(zone@),
        representable(secs as int),
        nanos < 1000000000,
    ensures
        r@ == rfc3339_text(
            reads(zone@, secs as int),
            nanos as int,
            zone_offset(zone@, secs as int),
        ),
        zone@ == "UTC"@ ==> r@ == rfc3339_text(secs as int, nanos as int, 0),
{
    let tz = zone.parse::<chrono_tz::Tz>().unwrap();
    chrono::DateTime::from_timestamp(secs, nanos).unwrap().with_timezone(&tz).to_rfc3339()
}

} // verus!
