//! What holds of every schedule: on which days, in which months and at which times it fires
//! next, counted in days and seconds.

use crate::calendar;
use crate::calendar::Weekday;
use crate::scheduler;
use crate::scheduler::{WallTime, ZonedTime};
use crate::text;
use crate::text_laws;
use crate::zone;
use crate::zone::LocalTime;
use vstd::prelude::*;

verus! {

// --------------------------------------------------------------------------- the weekdays

pub(crate) proof fn lemma_words()
    ensures
        "day"@.len() == 3,
        "month"@.len() == 5,
        "weekday"@.len() == 7 && "weekday"@[0] == 'w',
        "monday"@.len() == 6 && "monday"@[0] == 'm',
        "tuesday"@.len() == 7 && "tuesday"@[0] == 't',
        "wednesday"@.len() == 9,
        "thursday"@.len() == 8 && "thursday"@[0] == 't',
        "friday"@.len() == 6 && "friday"@[0] == 'f',
        "saturday"@.len() == 8 && "saturday"@[0] == 's',
        "sunday"@.len() == 6 && "sunday"@[0] == 's',
{
    reveal_strlit("day");
    reveal_strlit("month");
    reveal_strlit("weekday");
    reveal_strlit("monday");
    reveal_strlit("tuesday");
    reveal_strlit("wednesday");
    reveal_strlit("thursday");
    reveal_strlit("friday");
    reveal_strlit("saturday");
    reveal_strlit("sunday");
}

/// Whether a word names a day, counted from a Monday (the fifth day of 1970).
pub open spec fn names_day(word: Seq<char>, day: int) -> bool {
    let k = (day - 4) % 7;
    ||| word == "day"@
    ||| word == "weekday"@ && k < 5
    ||| word == "monday"@ && k == 0
    ||| word == "tuesday"@ && k == 1
    ||| word == "wednesday"@ && k == 2
    ||| word == "thursday"@ && k == 3
    ||| word == "friday"@ && k == 4
    ||| word == "saturday"@ && k == 5
    ||| word == "sunday"@ && k == 6
}

proof fn lemma_covered(word: Seq<char>, day: int)
    ensures
        scheduler::keyword_covers(word, calendar::weekday_of(day)) == names_day(word, day),
{
    lemma_words();
    assert((day + 3) % 7 == (day - 4) % 7);
}

pub(crate) proof fn lemma_list_covered(days: Seq<Seq<char>>, day: int)
    ensures
        scheduler::fires_on(days, calendar::weekday_of(day)) <==> (days.len() == 0 || exists|i: int|
            0 <= i < days.len() && names_day(#[trigger] days[i], day)),
{
    let w = calendar::weekday_of(day);
    if scheduler::fires_on(days, w) && days.len() > 0 {
        let i = choose|i: int|
            0 <= i < days.len() && scheduler::keyword_covers(#[trigger] days[i], w);
        lemma_covered(days[i], day);
    }
    if exists|i: int| 0 <= i < days.len() && names_day(#[trigger] days[i], day) {
        let i = choose|i: int| 0 <= i < days.len() && names_day(#[trigger] days[i], day);
        lemma_covered(days[i], day);
    }
}

/// The names of the weekdays stand for seven days that follow one another, from a Monday on; the
/// fifth day of 1970 was one. A list of one name fires on every seventh day, `weekday` on the
/// five from Monday on, `day` on each, and a word that is none of these never.
pub proof fn lemma_names_follow_the_week(
    days: &Vec<String>,
    word: Seq<char>,
    day: i64,
    w: Weekday,
    r: bool,
)
    requires
        w == calendar::weekday_of(day as int),
        call_ensures(scheduler::calendar_fires_on, (days, w), r),
        text::views(days@) == seq![word],
    ensures
        word == "monday"@ ==> (r <==> (day - 4) % 7 == 0),
        word == "tuesday"@ ==> (r <==> (day - 4) % 7 == 1),
        word == "wednesday"@ ==> (r <==> (day - 4) % 7 == 2),
        word == "thursday"@ ==> (r <==> (day - 4) % 7 == 3),
        word == "friday"@ ==> (r <==> (day - 4) % 7 == 4),
        word == "saturday"@ ==> (r <==> (day - 4) % 7 == 5),
        word == "sunday"@ ==> (r <==> (day - 4) % 7 == 6),
        word == "weekday"@ ==> (r <==> (day - 4) % 7 < 5),
        word == "day"@ ==> r,
        r ==> (word == "monday"@ || word == "tuesday"@ || word == "wednesday"@ || word
            == "thursday"@ || word == "friday"@ || word == "saturday"@ || word == "sunday"@ || word
            == "weekday"@ || word == "day"@),
{
    lemma_words();
    let list = seq![word];
    assert(list[0] == word);
    lemma_covered(word, day as int);
    lemma_list_covered(list, day as int);
    if exists|i: int| 0 <= i < list.len() && names_day(#[trigger] list[i], day as int) {
        let i = choose|i: int| 0 <= i < list.len() && names_day(#[trigger] list[i], day as int);
        assert(list[i] == word);
    }
    if names_day(word, day as int) {
        assert(names_day(list[0], day as int));
    }
}

/// A list fires on the days that one of its words does; without words, on every day.
pub proof fn lemma_list_fires_as_its_words(
    days: &Vec<String>,
    day: i64,
    w: Weekday,
    r: bool,
)
    requires
        w == calendar::weekday_of(day as int),
        call_ensures(scheduler::calendar_fires_on, (days, w), r),
    ensures
        r <==> (days@.len() == 0 || exists|i: int|
            0 <= i < days@.len() && names_day(#[trigger] days@[i]@, day as int)),
{
    let list = text::views(days@);
    lemma_list_covered(list, day as int);
    if exists|i: int| 0 <= i < list.len() && names_day(#[trigger] list[i], day as int) {
        let i = choose|i: int| 0 <= i < list.len() && names_day(#[trigger] list[i], day as int);
        assert(names_day(days@[i]@, day as int));
    }
    if exists|i: int| 0 <= i < days@.len() && names_day(#[trigger] days@[i]@, day as int) {
        let i = choose|i: int|
            0 <= i < days@.len() && names_day(#[trigger] days@[i]@, day as int);
        assert(names_day(list[i], day as int));
    }
}

/// The name of each weekday is the name of that one, and no other word is.
pub proof fn lemma_weekday_has_its_name(name: &str, r: Option<Weekday>)
    requires
        call_ensures(scheduler::weekday_from_name, (name,), r),
    ensures
        (r == Some(Weekday::Mon)) <==> name@ == "monday"@,
        (r == Some(Weekday::Tue)) <==> name@ == "tuesday"@,
        (r == Some(Weekday::Wed)) <==> name@ == "wednesday"@,
        (r == Some(Weekday::Thu)) <==> name@ == "thursday"@,
        (r == Some(Weekday::Fri)) <==> name@ == "friday"@,
        (r == Some(Weekday::Sat)) <==> name@ == "saturday"@,
        (r == Some(Weekday::Sun)) <==> name@ == "sunday"@,
{
    lemma_words();
}

// --------------------------------------------------------------------------- the calendar

/// A year is a leap year where it is divided by four, except for the full centuries that four
/// hundred does not divide; the months have 31 and 30 days in turn, starting again in August,
/// and February 28 or 29.
pub proof fn lemma_month_lengths(y: int, m: int)
    requires
        1 <= m <= 12,
    ensures
        m == 2 ==> calendar::days_in_month(y, m) == (if y % 400 == 0 || (y % 4 == 0 && y % 100
            != 0) {
            29int
        } else {
            28
        }),
        m != 2 && m <= 7 ==> calendar::days_in_month(y, m) == 30 + m % 2,
        m >= 8 ==> calendar::days_in_month(y, m) == 31 - m % 2,
{
    if y % 400 == 0 {
        assert(y % 4 == 0);
    }
}

/// Days are numbered one after another from the first of 1970 on, through the months and the
/// years; four hundred years have 146097 of them.
pub proof fn lemma_days_are_counted(y: int, m: int, d: int)
    requires
        calendar::valid_date(y, m, d),
    ensures
        calendar::day_number(1970, 1, 1) == 0,
        calendar::valid_date(y, m, d + 1) ==> calendar::day_number(y, m, d + 1)
            == calendar::day_number(y, m, d) + 1,
        !calendar::valid_date(y, m, d + 1) && m < 12 ==> calendar::day_number(y, m + 1, 1)
            == calendar::day_number(y, m, d) + 1,
        !calendar::valid_date(y, m, d + 1) && m == 12 ==> calendar::day_number(y + 1, 1, 1)
            == calendar::day_number(y, m, d) + 1,
        calendar::year_start(y + 400) == calendar::year_start(y) + 146097,
        calendar::day_number(y, 1, 1) == calendar::year_start(y),
{
    calendar::lemma_next_month(y, m);
    assert(calendar::days_before_month(1970, 1) == 0);
    assert(calendar::days_before_month(y, 1) == 0);
}

/// A date has its number exactly where it exists, in the years that dates can be given for.
pub proof fn lemma_dates_have_numbers(y: int, m: int, d: int)
    ensures
        calendar::date_number_of(y, m, d) is Some <==> (1 <= m <= 12 && 1 <= d
            <= calendar::days_in_month(y, m) && -262143 <= y <= 262142),
        calendar::date_number_of(y, m, d) matches Some(n) ==> n == calendar::day_number(y, m, d),
{
    if calendar::date_number_of(y, m, d) is Some {
        calendar::lemma_bounds(y, m, d);
    }
}

/// The last day of a month is in it, and the day after is not.
pub proof fn lemma_last_day_is_last(year: i32, month: u32, r: u32)
    requires
        1 <= month <= 12,
        call_ensures(calendar::last_day_of_month, (year, month), r),
    ensures
        calendar::valid_date(year as int, month as int, r as int),
        !calendar::valid_date(year as int, month as int, r + 1),
        28 <= r <= 31,
{
}

// ---------------------------------------------------------------------- the time of day

/// An hour and a minute, each in digits, with a colon between them, are read as themselves where
/// a day has them; where it has not, as midnight.
pub proof fn lemma_time_of_day_is_read(at: &str, h: nat, m: nat, r: (u32, u32))
    requires
        call_ensures(scheduler::parse_hhmm, (at,), r),
        at@ == text::decimal(h) + seq![':'] + text::decimal(m),
    ensures
        h < 24 && m < 60 ==> r.0 == h && r.1 == m,
        h >= 24 || m >= 60 ==> r.0 == 0 && r.1 == 0,
{
    lemma_colon(text::decimal(h), text::decimal(m), h);
    text_laws::lemma_number_is_read(h, u32::MAX as nat);
    text_laws::lemma_number_is_read(m, u32::MAX as nat);
}

/// A leading zero of the hour or of the minute does not count.
pub proof fn lemma_time_of_day_with_zeros(at: &str, h: nat, m: nat, r: (u32, u32))
    requires
        call_ensures(scheduler::parse_hhmm, (at,), r),
        h < 24,
        m < 60,
        at@ == seq!['0'] + text::decimal(h) + seq![':'] + text::decimal(m) || at@ == text::decimal(
            h,
        ) + seq![':', '0'] + text::decimal(m) || at@ == seq!['0'] + text::decimal(h) + seq![
            ':',
            '0',
        ] + text::decimal(m),
    ensures
        r.0 == h && r.1 == m,
{
    let (a, b) = (text::decimal(h), text::decimal(m));
    let (za, zb) = (seq!['0'] + a, seq!['0'] + b);
    text::lemma_decimal_number(h);
    text::lemma_decimal_number(m);
    lemma_digits_in(a);
    lemma_digits_in(b);
    text_laws::lemma_leading_zero(a, u32::MAX as nat);
    text_laws::lemma_leading_zero(b, u32::MAX as nat);
    text_laws::lemma_number_is_read(h, u32::MAX as nat);
    text_laws::lemma_number_is_read(m, u32::MAX as nat);
    lemma_colon_free(za);
    lemma_colon_free(a);
    if at@ == za + seq![':'] + b {
        lemma_parts_give_time(za, b, h, m);
    } else if at@ == a + seq![':', '0'] + b {
        assert(a + seq![':', '0'] + b =~= a + seq![':'] + zb);
        lemma_parts_give_time(a, zb, h, m);
    } else {
        assert(za + seq![':', '0'] + b =~= za + seq![':'] + zb);
        lemma_parts_give_time(za, zb, h, m);
    }
}

proof fn lemma_parts_give_time(x: Seq<char>, y: Seq<char>, h: nat, m: nat)
    requires
        !x.contains(':'),
        text::unsigned(x, u32::MAX as nat) == Some(h),
        text::unsigned(y, u32::MAX as nat) == Some(m),
        h < 24,
        m < 60,
    ensures
        scheduler::hhmm_of(x + seq![':'] + y) == (h, m),
{
    lemma_split_at_colon(x, y);
}

proof fn lemma_digits_in(s: Seq<char>)
    requires
        text::all_digits(s),
    ensures
        forall|i: int| 0 <= i < s.len() ==> '0' <= #[trigger] s[i] <= '9',
{
    assert forall|i: int| 0 <= i < s.len() implies '0' <= #[trigger] s[i] <= '9' by {
        assert(text::is_digit(s[i]));
    }
}

proof fn lemma_colon_free(s: Seq<char>)
    requires
        forall|i: int| 0 <= i < s.len() ==> '0' <= #[trigger] s[i] <= '9',
    ensures
        !s.contains(':'),
{
}

proof fn lemma_split_at_colon(a: Seq<char>, b: Seq<char>)
    requires
        !a.contains(':'),
    ensures
        ({
            let t = a + seq![':'] + b;
            &&& text::find(t, ':') == Some(a.len())
            &&& t.take(a.len() as int) == a
            &&& t.skip(a.len() as int + 1) == b
        }),
{
    let t = a + seq![':'] + b;
    text::lemma_find(t, ':');
    assert(t[a.len() as int] == ':');
    assert(t.contains(':'));
    let i = text::find(t, ':')->0 as int;
    if i < a.len() {
        assert(a[i] == ':');
    }
    assert(t.take(a.len() as int) =~= a);
    assert(t.skip(a.len() as int + 1) =~= b);
}

pub(crate) proof fn lemma_colon(a: Seq<char>, b: Seq<char>, h: nat)
    requires
        a == text::decimal(h),
    ensures
        ({
            let t = a + seq![':'] + b;
            &&& text::find(t, ':') == Some(a.len())
            &&& t.take(a.len() as int) == a
            &&& t.skip(a.len() as int + 1) == b
        }),
{
    text::lemma_decimal_number(h);
    lemma_digits_in(a);
    lemma_colon_free(a);
    lemma_split_at_colon(a, b);
}

// ------------------------------------------------------------------------ wall-clock times

/// A wall-clock time that the clocks show once is that instant; one that they show twice is the
/// first of the two; and one that they skip is the first after it, in steps of a minute, that
/// they show exactly once.
pub proof fn lemma_wall_clock_resolves(wall: WallTime, zone: &str, r: ZonedTime)
    requires
        call_ensures(scheduler::resolve_wall_clock, (wall, zone), r),
        wall.secs < 4102444800,
    ensures
        zone::local_times(zone@, wall.secs as int) matches LocalTime::Single(t) ==> r.secs == t,
        zone::local_times(zone@, wall.secs as int) matches LocalTime::Twice(a, b) ==> r.secs == a,
        zone::local_times(zone@, wall.secs as int) is Skipped ==> exists|k: int|
            is_first_shown(zone@, wall.secs as int, k, r.secs as int),
        zone::reads(zone@, r.secs as int) >= wall.secs,
        r.nanos == wall.nanos,
        r.zone@ == zone@,
{
    if zone::local_times(zone@, wall.secs as int) is Skipped {
        let k = lemma_first_shown(zone@, wall.secs as int, 1);
        assert(is_first_shown(zone@, wall.secs as int, k, r.secs as int));
    }
}

/// Whether the `k`th minute after a skipped wall-clock time is the first that the clocks show
/// exactly once, at the instant `t`, or the first past the end of the zone tables.
pub open spec fn is_first_shown(zone: Seq<char>, wall: int, k: int, t: int) -> bool {
    &&& k >= 1
    &&& forall|j: int|
        1 <= j < k ==> !(#[trigger] zone::local_times(zone, wall + 60 * j) is Single)
    &&& (zone::local_times(zone, wall + 60 * k) matches LocalTime::Single(s) && s == t) || (!(
    zone::local_times(zone, wall + 60 * k) is Single) && wall + 60 * k >= 4102444800 && t == wall
        + 60 * k)
}

proof fn lemma_first_shown(zone: Seq<char>, wall: int, from: int) -> (k: int)
    requires
        from >= 1,
        forall|j: int|
            1 <= j < from ==> !(#[trigger] zone::local_times(zone, wall + 60 * j) is Single),
    ensures
        is_first_shown(zone, wall, k, scheduler::first_single(zone, wall + 60 * from)),
    decreases 4102444800 + 60 - (wall + 60 * from),
{
    let at = wall + 60 * from;
    if zone::local_times(zone, at) is Single || at >= 4102444800 {
        from
    } else {
        assert forall|j: int| 1 <= j < from + 1 implies !(#[trigger] zone::local_times(
            zone,
            wall + 60 * j,
        ) is Single) by {
            if j == from {
                assert(wall + 60 * j == at);
            }
        }
        assert(wall + 60 * (from + 1) == at + 60);
        lemma_first_shown(zone, wall, from + 1)
    }
}

/// A schedule is evaluated in the zone that it names, else in the machine's, and in UTC where
/// that one is not known.
pub proof fn lemma_zone_is_chosen(name: Option<&str>, machine: Option<&str>, r: String)
    requires
        call_ensures(scheduler::resolve_timezone_from, (name, machine), r),
    ensures
        name matches Some(n) ==> (zone::zone_known(n@) ==> r@ == n@),
        name matches Some(n) ==> (!zone::zone_known(n@) ==> r@ == "UTC"@),
        name is None ==> (machine matches Some(m) ==> (zone::zone_known(m@) ==> r@ == m@)),
        name is None ==> (machine matches Some(m) ==> (!zone::zone_known(m@) ==> r@ == "UTC"@)),
        name is None && machine is None ==> r@ == "UTC"@,
{
}

/// A zone that is known is kept, and one that is not is taken for UTC.
pub proof fn lemma_named_zone_is_kept(name: &str, r: String)
    requires
        call_ensures(scheduler::resolve_timezone, (Some(name),), r),
    ensures
        zone::zone_known(name@) ==> r@ == name@,
        !zone::zone_known(name@) ==> r@ == "UTC"@,
{
}

} // verus!
