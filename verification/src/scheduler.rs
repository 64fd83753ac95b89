//! Schedule computation: the next firing of each kind of schedule, the handling of skipped and
//! repeated wall-clock times, and the identity of an occurrence.

use crate::calendar;
use crate::calendar::{date_number, date_of, last_day_of_month, weekday, Weekday};
use crate::cron;
use crate::cron::{is_cron, next_match};
use crate::text;
use crate::text::{find_char, parse_u32, same};
use crate::zone;
use crate::zone::{is_representable, is_zone, lookup, machine_zone, offset_at, LocalTime};
use vstd::prelude::*;
use vstd::string::*;

verus! {

/// An instant, seen in a zone.
#[derive(Debug, Clone)]
pub struct ZonedTime {
    /// Seconds since 1970-01-01T00:00:00 UTC.
    pub secs: i64,
    /// The fraction of the second.
    pub nanos: u32,
    /// The name of the zone.
    pub zone: String,
}

impl ZonedTime {
    /// A known zone, an instant that jobs can run at, and a fraction of less than a second.
    pub open spec fn valid(&self) -> bool {
        &&& zone::zone_known(self.zone@)
        &&& zone::representable(self.secs as int)
        &&& self.nanos < 1000000000
    }

    /// What the zone's clocks read.
    pub open spec fn wall(&self) -> int {
        zone::reads(self.zone@, self.secs as int)
    }
}

/// A wall-clock time in no particular zone.
#[derive(Debug, Clone, Copy, PartialEq, Eq, Structural)]
pub struct WallTime {
    /// Seconds since 1970-01-01T00:00:00 on the clock.
    pub secs: i64,
    /// The fraction of the second.
    pub nanos: u32,
}

// ---------------------------------------------------------------------------- zones

/// The zone that a schedule is evaluated in: the one named, else the machine's, and UTC where
/// neither is a known zone. `None` for `name` is the machine's zone.
pub open spec fn zone_for(name: Option<Seq<char>>, machine: Option<Seq<char>>) -> Seq<char> {
    let wanted = match name {
        Some(n) => Some(n),
        None => machine,
    };
    match wanted {
        Some(n) => if zone::zone_known(n) {
            n
        } else {
            "UTC"@
        },
        None => "UTC"@,
    }
}

/// The zone for a name, given the machine's zone.
pub fn resolve_timezone_from(name: Option<&str>, machine: Option<&str>) -> (r: String)
    ensures
        r@ == zone_for(opt_text(name), opt_text(machine)),
        zone::zone_known(r@),
{
    let wanted = match name {
        Some(n) => Some(n),
        None => machine,
    };
    if let Some(n) = wanted {
        if is_zone(n) {
            return n.to_owned();
        }
    }
    let utc = "UTC";
    let known = is_zone(utc);
    assert(known);
    utc.to_owned()
}

pub open spec fn opt_text(o: Option<&str>) -> Option<Seq<char>> {
    match o {
        Some(s) => Some(s@),
        None => None,
    }
}

/// The zone for a name; without one, the machine's.
pub fn resolve_timezone(name: Option<&str>) -> (r: String)
    ensures
        zone::zone_known(r@),
        name matches Some(n) ==> r@ == zone_for(Some(n@), None),
        name is None ==> exists|machine: Option<Seq<char>>| r@ == #[trigger] zone_for(None, machine),
{
    let machine = match name {
        Some(_) => None,
        None => machine_zone(),
    };
    let local = match &machine {
        Some(s) => Some(s.as_str()),
        None => None,
    };
    resolve_timezone_from(name, local)
}

// ---------------------------------------------------------------- wall-clock times

/// The instant of the first wall-clock time that the clocks show exactly once, looking from
/// `wall` on in steps of a minute.
pub open spec fn first_single(zone: Seq<char>, wall: int) -> int
    decreases zone::TABLE_END + 60 - wall,
{
    match zone::local_times(zone, wall) {
        LocalTime::Single(t) => t as int,
        _ => if wall >= zone::TABLE_END {
            wall
        } else {
            first_single(zone, wall + 60)
        },
    }
}

/// The instant at which a schedule fires that names the wall-clock time `wall`: the only one
/// that reads it; of two, the earlier; and where the clocks skip it, the first after the gap.
pub open spec fn resolved(zone: Seq<char>, wall: int) -> int {
    match zone::local_times(zone, wall) {
        LocalTime::Single(t) => t as int,
        LocalTime::Twice(earlier, _) => earlier as int,
        LocalTime::Skipped => first_single(zone, wall + 60),
    }
}

/// Where the instant for a wall-clock time can lie: less than a day before it, and less than
/// a day after it or after the end of the zone tables.
pub open spec fn near(secs: int, wall: int) -> bool {
    wall - 86400 < secs && (secs < wall + 86400 || secs < zone::TABLE_END + 86460)
}

/// Resolves a wall-clock time to an instant.
pub fn resolve_wall_clock(wall: WallTime, zone: &str) -> (r: ZonedTime)
    requires
        zone::zone_known(zone@),
        zone::datable(wall.secs as int),
    ensures
        r.secs == resolved(zone@, wall.secs as int),
        r.nanos == wall.nanos,
        r.zone@ == zone@,
        r.wall() >= wall.secs,
        !(zone::local_times(zone@, wall.secs as int) is Skipped) ==> r.wall() == wall.secs,
        near(r.secs as int, wall.secs as int),
{
    let first = lookup(zone, wall.secs);
    match first {
        LocalTime::Single(t) => ZonedTime { secs: t, nanos: wall.nanos, zone: zone.to_owned() },
        LocalTime::Twice(earlier, _) => ZonedTime {
            secs: earlier,
            nanos: wall.nanos,
            zone: zone.to_owned(),
        },
        LocalTime::Skipped => {
            let mut probe: i64 = wall.secs + 60;
            loop
                invariant
                    zone::zone_known(zone@),
                    zone::datable(wall.secs as int),
                    zone::local_times(zone@, wall.secs as int) is Skipped,
                    wall.secs < probe <= zone::TABLE_END + 60,
                    resolved(zone@, wall.secs as int) == first_single(zone@, probe as int),
                decreases zone::TABLE_END + 60 - probe,
            {
                if let LocalTime::Single(t) = lookup(zone, probe) {
                    return ZonedTime { secs: t, nanos: wall.nanos, zone: zone.to_owned() };
                }
                probe += 60;
            }
        },
    }
}

// ------------------------------------------------------------- aligned schedules

/// The next minute boundary after a wall-clock time: within the hour at the multiples of
/// `every` minutes, and at the end of the last of them.
pub open spec fn minute_boundary(wall: int, every: int) -> int {
    wall - wall % 3600 + (wall % 3600 / 60 / every + 1) * every * 60
}

/// The next hour boundary after a wall-clock time: within the day at the multiples of
/// `every` hours, and at the end of the last of them.
pub open spec fn hour_boundary(wall: int, every: int) -> int {
    wall - wall % 86400 + (wall % 86400 / 3600 / every + 1) * every * 3600
}

/// Whether `n` is a multiple of `every`.
#[verifier::opaque]
pub open spec fn is_multiple(n: int, every: int) -> bool {
    n % every == 0
}

/// Whether a wall-clock time is on the minute, at a multiple of `every` minutes in its hour.
pub open spec fn on_minute_grid(wall: int, every: int) -> bool {
    wall % 60 == 0 && is_multiple(wall % 3600 / 60, every)
}

/// Whether a wall-clock time is on the hour, at a multiple of `every` hours in its day.
pub open spec fn on_hour_grid(wall: int, every: int) -> bool {
    wall % 3600 == 0 && is_multiple(wall % 86400 / 3600, every)
}

proof fn lemma_grid_step(n: int, m: int, every: int)
    requires
        every > 0,
        0 <= n <= m,
        m < (n / every + 1) * every,
        is_multiple(m, every),
    ensures
        m == n,
{
    reveal(is_multiple);
    vstd::arithmetic::div_mod::lemma_fundamental_div_mod(n, every);
    vstd::arithmetic::div_mod::lemma_fundamental_div_mod(m, every);
    vstd::arithmetic::div_mod::lemma_mod_bound(n, every);
    let (p, q) = (n / every, m / every);
    assert(q == p) by (nonlinear_arith)
        requires
            m == every * q,
            n == every * p + n % every,
            0 <= n % every < every,
            n <= m,
            m < (p + 1) * every,
            every > 0,
    ;
}

proof fn lemma_grid_end(n: int, every: int, whole: int)
    requires
        every > 0,
        0 <= n < whole,
        whole % every == 0,
    ensures
        n < (n / every + 1) * every <= whole,
        is_multiple((n / every + 1) * every, every),
        is_multiple(0, every),
{
    reveal(is_multiple);
    vstd::arithmetic::div_mod::lemma_small_mod(0, every as nat);
    lemma_boundary_terms(n, every, 1);
    vstd::arithmetic::div_mod::lemma_fundamental_div_mod(whole, every);
    vstd::arithmetic::div_mod::lemma_fundamental_div_mod(n, every);
    vstd::arithmetic::div_mod::lemma_mod_bound(n, every);
    let (p, q) = (n / every, whole / every);
    assert((p + 1) * every <= whole) by (nonlinear_arith)
        requires
            whole == every * q,
            n == every * p + n % every,
            0 <= n % every,
            n < whole,
            every > 0,
    ;
    vstd::arithmetic::div_mod::lemma_mod_multiples_basic(p + 1, every);
}

/// A time `x` into the block of `unit` seconds that `wall` lies in.
proof fn lemma_in_block(wall: int, unit: int, x: int)
    requires
        unit == 3600 || unit == 86400,
        0 <= x <= unit,
    ensures
        x < unit ==> (wall - wall % unit + x) % unit == x,
        x == unit ==> (wall - wall % unit + x) % unit == 0,
{
}

/// A time that is whole units into its block is a whole number of units.
proof fn lemma_whole_units(w: int, block: int, unit: int)
    requires
        (block == 3600 && unit == 60) || (block == 86400 && unit == 3600),
    ensures
        w % unit == w % block % unit,
{
    if unit == 60 {
        vstd::arithmetic::div_mod::lemma_mod_mod(w, 60, 60);
    } else {
        vstd::arithmetic::div_mod::lemma_mod_mod(w, 3600, 24);
    }
}

/// Where `every` divides the hour, the next minute boundary is the first wall-clock time after
/// `wall` that lies on the grid.
pub proof fn lemma_minute_boundary(wall: int, every: int)
    requires
        every > 0,
        60int % every == 0,
    ensures
        minute_boundary(wall, every) > wall,
        on_minute_grid(minute_boundary(wall, every), every),
        forall|w: int|
            wall < w < minute_boundary(wall, every) ==> !#[trigger] on_minute_grid(w, every),
{
    let n = wall % 3600 / 60;
    lemma_grid_end(n, every, 60);
    lemma_minute_grid(wall, every, (n / every + 1) * every);
}

#[verifier::spinoff_prover]
proof fn lemma_minute_grid(wall: int, every: int, step: int)
    requires
        every > 0,
        step == (wall % 3600 / 60 / every + 1) * every,
        wall % 3600 / 60 < step <= 60,
        is_multiple(step, every),
        is_multiple(0, every),
    ensures
        minute_boundary(wall, every) > wall,
        on_minute_grid(minute_boundary(wall, every), every),
        forall|w: int|
            wall < w < minute_boundary(wall, every) ==> !#[trigger] on_minute_grid(w, every),
{
    let n = wall % 3600 / 60;
    let base = wall - wall % 3600;
    let b = minute_boundary(wall, every);
    assert(b == base + step * 60);
    lemma_in_block(wall, 3600, step * 60);
    lemma_whole_units(b, 3600, 60);
    assert(b % 60 == 0);
    assert forall|w: int| wall < w < b implies !#[trigger] on_minute_grid(w, every) by {
        lemma_in_block(wall, 3600, w - base);
        let x = w - base;
        assert(w % 3600 == x);
        let m = x / 60;
        if on_minute_grid(w, every) {
            lemma_whole_units(w, 3600, 60);
            assert(x == m * 60);
            assert(m < step);
            lemma_grid_step(n, m, every);
        }
    }
}

/// Where `every` divides the day, the next hour boundary is the first wall-clock time after
/// `wall` that lies on the grid.
pub proof fn lemma_hour_boundary(wall: int, every: int)
    requires
        every > 0,
        24int % every == 0,
    ensures
        hour_boundary(wall, every) > wall,
        on_hour_grid(hour_boundary(wall, every), every),
        forall|w: int|
            wall < w < hour_boundary(wall, every) ==> !#[trigger] on_hour_grid(w, every),
{
    let n = wall % 86400 / 3600;
    lemma_grid_end(n, every, 24);
    lemma_hour_grid(wall, every, (n / every + 1) * every);
}

#[verifier::spinoff_prover]
proof fn lemma_hour_grid(wall: int, every: int, step: int)
    requires
        every > 0,
        step == (wall % 86400 / 3600 / every + 1) * every,
        wall % 86400 / 3600 < step <= 24,
        is_multiple(step, every),
        is_multiple(0, every),
    ensures
        hour_boundary(wall, every) > wall,
        on_hour_grid(hour_boundary(wall, every), every),
        forall|w: int|
            wall < w < hour_boundary(wall, every) ==> !#[trigger] on_hour_grid(w, every),
{
    let n = wall % 86400 / 3600;
    let base = wall - wall % 86400;
    let b = hour_boundary(wall, every);
    assert(b == base + step * 3600);
    lemma_in_block(wall, 86400, step * 3600);
    lemma_whole_units(b, 86400, 3600);
    assert(b % 3600 == 0);
    assert forall|w: int| wall < w < b implies !#[trigger] on_hour_grid(w, every) by {
        lemma_in_block(wall, 86400, w - base);
        let x = w - base;
        assert(w % 86400 == x);
        let m = x / 3600;
        if on_hour_grid(w, every) {
            lemma_whole_units(w, 86400, 3600);
            assert(x == m * 3600);
            assert(m < step);
            lemma_grid_step(n, m, every);
        }
    }
}

/// The remainder of a division that rounds down.
pub(crate) fn floor_mod(a: i64, b: i64) -> (r: i64)
    requires
        b > 0,
        a > i64::MIN,
    ensures
        r == a % b,
        0 <= r < b,
{
    proof {
        vstd::arithmetic::div_mod::lemma_mod_bound(a as int, b as int);
    }
    if a >= 0 {
        a % b
    } else {
        let m: i64 = (-(a + 1)) % b;
        proof {
            let x = a as int;
            let d = b as int;
            let n = -(x + 1);
            vstd::arithmetic::div_mod::lemma_fundamental_div_mod(n, d);
            let q = n / d;
            assert(x == d * (-(q + 1)) + (d - 1 - n % d)) by (nonlinear_arith)
                requires
                    n == d * q + n % d,
                    n == -(x + 1),
            ;
            vstd::arithmetic::div_mod::lemma_fundamental_div_mod_converse(
                x,
                d,
                -(q + 1),
                d - 1 - n % d,
            );
        }
        b - 1 - m
    }
}

/// What the zone's clocks read at an instant.
pub(crate) fn wall_of(zone: &str, secs: i64) -> (r: i64)
    requires
        zone::zone_known(zone@),
        zone::representable(secs as int),
    ensures
        r == zone::reads(zone@, secs as int),
        secs - 86400 < r < secs + 86400,
{
    secs + offset_at(zone, secs) as i64
}

pub(crate) proof fn lemma_boundary_terms(n: int, every: int, unit: int)
    requires
        every > 0,
        0 <= n,
        unit > 0,
    ensures
        n < (n / every + 1) * every <= n + every,
        (n / every + 1) * every * unit == unit * ((n / every + 1) * every),
{
    vstd::arithmetic::div_mod::lemma_fundamental_div_mod(n, every);
    vstd::arithmetic::div_mod::lemma_mod_bound(n, every);
    assert((n / every + 1) * every == every * (n / every) + every) by (nonlinear_arith);
    assert((n / every + 1) * every * unit == unit * ((n / every + 1) * every)) by (nonlinear_arith);
}

/// The wall-clock times that an aligned schedule fires at.
#[derive(Debug, Clone, Copy, PartialEq, Eq, Structural)]
pub enum Grid {
    /// Counted in minutes from the full hour.
    Minutes,
    /// Counted in hours from midnight.
    Hours,
}

impl Grid {
    /// How many seconds the unit has.
    pub open spec fn unit(self) -> int {
        match self {
            Grid::Minutes => 60,
            Grid::Hours => 3600,
        }
    }

    /// How many units there are before the count starts again.
    pub open spec fn units(self) -> int {
        match self {
            Grid::Minutes => 60,
            Grid::Hours => 24,
        }
    }

    /// The next boundary after a wall-clock time.
    pub open spec fn boundary(self, wall: int, every: int) -> int {
        match self {
            Grid::Minutes => minute_boundary(wall, every),
            Grid::Hours => hour_boundary(wall, every),
        }
    }

    /// Whether a wall-clock time is a multiple of `every` units into its hour or day.
    pub open spec fn holds(self, wall: int, every: int) -> bool {
        match self {
            Grid::Minutes => on_minute_grid(wall, every),
            Grid::Hours => on_hour_grid(wall, every),
        }
    }
}

/// The boundary that an aligned schedule fires at next after the instant `secs`: the first one,
/// from `wall` on, whose firing comes after `secs`. While the clocks run through a time again,
/// those that fired the first time are passed over. A zone's clocks are less than a day off, so
/// it is not looked for further than that.
pub open spec fn next_boundary(
    zone: Seq<char>,
    grid: Grid,
    every: int,
    wall: int,
    secs: int,
) -> int
    decreases secs + 86400 - wall,
{
    let b = grid.boundary(wall, every);
    if resolved(zone, b) <= secs && wall < b < secs + 86400 {
        next_boundary(zone, grid, every, b, secs)
    } else {
        b
    }
}

/// Whether a date can be given for the boundary that an aligned schedule fires at next after
/// `after`.
pub open spec fn has_boundary(grid: Grid, every: int, after: ZonedTime) -> bool {
    zone::datable(next_boundary(after.zone@, grid, every, after.wall(), after.secs as int))
}

/// Whether `b` is the first wall-clock time after `wall` on the grid whose firing comes after
/// the instant `secs`.
pub open spec fn is_first_on_grid(
    zone: Seq<char>,
    grid: Grid,
    every: int,
    wall: int,
    secs: int,
    b: int,
) -> bool {
    &&& wall < b
    &&& grid.holds(b, every)
    &&& resolved(zone, b) > secs
    &&& forall|w: int|
        wall < w < b && #[trigger] grid.holds(w, every) ==> resolved(zone, w) <= secs
}

/// Where `every` divides the hour or the day, the boundary that an aligned schedule fires at
/// next is the first wall-clock time on the grid whose firing is still to come.
pub proof fn lemma_next_boundary_is_first(
    zone: Seq<char>,
    grid: Grid,
    every: int,
    wall: int,
    secs: int,
)
    requires
        every > 0,
        grid.units() % every == 0,
        resolved(zone, next_boundary(zone, grid, every, wall, secs)) > secs,
    ensures
        is_first_on_grid(
            zone,
            grid,
            every,
            wall,
            secs,
            next_boundary(zone, grid, every, wall, secs),
        ),
    decreases secs + 86400 - wall,
{
    let b = grid.boundary(wall, every);
    match grid {
        Grid::Minutes => lemma_minute_boundary(wall, every),
        Grid::Hours => lemma_hour_boundary(wall, every),
    }
    assert(forall|w: int| wall < w < b ==> !#[trigger] grid.holds(w, every));
    assert(grid.holds(b, every));
    if resolved(zone, b) <= secs && wall < b < secs + 86400 {
        lemma_next_boundary_is_first(zone, grid, every, b, secs);
    }
}

fn boundary_after(grid: Grid, wall: i64, every: u32) -> (r: i64)
    requires
        every > 0,
        zone::FIRST_WALL <= wall <= zone::LAST_WALL,
    ensures
        r == grid.boundary(wall as int, every as int),
        wall < r <= wall + every * grid.unit(),
{
    let (block, unit): (i64, i64) = match grid {
        Grid::Minutes => (3600, 60),
        Grid::Hours => (86400, 3600),
    };
    let in_block = floor_mod(wall, block);
    let n: i64 = in_block / unit;
    proof {
        lemma_boundary_terms(n as int, every as int, unit as int);
        vstd::arithmetic::div_mod::lemma_div_pos_is_pos(n as int, every as int);
        vstd::arithmetic::div_mod::lemma_div_is_ordered_by_denominator(n as int, 1, every as int);
    }
    let step: i64 = (n / every as i64 + 1) * every as i64;
    wall - in_block + step * unit
}

/// The next firing of an aligned schedule after `after`, in its zone; none where no date can be
/// given for its boundary.
pub(crate) fn next_aligned(grid: Grid, every: u32, after: &ZonedTime) -> (r: Option<ZonedTime>)
    requires
        every > 0,
        after.valid(),
    ensures
        r is Some <==> has_boundary(grid, every as int, *after),
        r matches Some(t) ==> {
            let b = next_boundary(
                after.zone@,
                grid,
                every as int,
                after.wall(),
                after.secs as int,
            );
            &&& t.secs == resolved(after.zone@, b)
            &&& t.wall() >= b
            &&& !(zone::local_times(after.zone@, b) is Skipped) ==> t.wall() == b
            &&& grid.units() % (every as int) == 0 ==> is_first_on_grid(
                after.zone@,
                grid,
                every as int,
                after.wall(),
                after.secs as int,
                b,
            )
        },
        r matches Some(t) ==> t.secs > after.secs && t.nanos == 0 && t.zone@ == after.zone@,
{
    let zone = after.zone.as_str();
    let secs = after.secs;
    let mut wall = wall_of(zone, secs);
    loop
        invariant
            every > 0,
            zone@ == after.zone@,
            secs == after.secs,
            after.valid(),
            secs - 86400 < wall < secs + 86400,
            next_boundary(zone@, grid, every as int, wall as int, secs as int) == next_boundary(
                zone@,
                grid,
                every as int,
                after.wall(),
                secs as int,
            ),
        decreases secs + 86400 - wall,
    {
        let b = boundary_after(grid, wall, every);
        if b > zone::LAST_WALL {
            return None;
        }
        let r = resolve_wall_clock(WallTime { secs: b, nanos: 0 }, zone);
        if r.secs > secs {
            proof {
                if grid.units() % (every as int) == 0 {
                    lemma_next_boundary_is_first(
                        zone@,
                        grid,
                        every as int,
                        after.wall(),
                        secs as int,
                    );
                }
            }
            return Some(r);
        }
        wall = b;
    }
}

/// The next minute-aligned firing after `after`, in its zone. It is later than `after`; where
/// `every_minutes` divides the hour, it is the first boundary whose firing is.
pub fn next_minute_aligned(every_minutes: u32, after: &ZonedTime) -> (r: ZonedTime)
    requires
        every_minutes > 0,
        after.valid(),
        has_boundary(Grid::Minutes, every_minutes as int, *after),
    ensures
        ({
            let b = next_boundary(
                after.zone@,
                Grid::Minutes,
                every_minutes as int,
                after.wall(),
                after.secs as int,
            );
            &&& r.secs == resolved(after.zone@, b)
            &&& r.wall() >= b
            &&& !(zone::local_times(after.zone@, b) is Skipped) ==> r.wall() == b
            &&& 60int % (every_minutes as int) == 0 ==> is_first_on_grid(
                after.zone@,
                Grid::Minutes,
                every_minutes as int,
                after.wall(),
                after.secs as int,
                b,
            )
        }),
        r.secs > after.secs,
        r.nanos == 0,
        r.zone@ == after.zone@,
{
    next_aligned(Grid::Minutes, every_minutes, after).unwrap()
}

/// The next hour-aligned firing after `after`, in its zone. It is later than `after`; where
/// `every_hours` divides the day, it is the first boundary whose firing is.
pub fn next_hour_aligned(every_hours: u32, after: &ZonedTime) -> (r: ZonedTime)
    requires
        every_hours > 0,
        after.valid(),
        has_boundary(Grid::Hours, every_hours as int, *after),
    ensures
        ({
            let b = next_boundary(
                after.zone@,
                Grid::Hours,
                every_hours as int,
                after.wall(),
                after.secs as int,
            );
            &&& r.secs == resolved(after.zone@, b)
            &&& r.wall() >= b
            &&& !(zone::local_times(after.zone@, b) is Skipped) ==> r.wall() == b
            &&& 24int % (every_hours as int) == 0 ==> is_first_on_grid(
                after.zone@,
                Grid::Hours,
                every_hours as int,
                after.wall(),
                after.secs as int,
                b,
            )
        }),
        r.secs > after.secs,
        r.nanos == 0,
        r.zone@ == after.zone@,
{
    next_aligned(Grid::Hours, every_hours, after).unwrap()
}

// ----------------------------------------------------------- calendar schedules

/// The hour and minute of an `HH:MM` text; midnight where it is malformed.
pub open spec fn hhmm_of(at: Seq<char>) -> (nat, nat) {
    match text::find(at, ':') {
        Some(i) => match (
            text::unsigned(at.take(i as int), u32::MAX as nat),
            text::unsigned(at.skip(i as int + 1), u32::MAX as nat),
        ) {
            (Some(h), Some(m)) => if h < 24 && m < 60 {
                (h, m)
            } else {
                (0, 0)
            },
            _ => (0, 0),
        },
        None => (0, 0),
    }
}

/// Reads `HH:MM` into hour and minute; midnight where it is malformed.
pub fn parse_hhmm(at: &str) -> (r: (u32, u32))
    ensures
        (r.0 as nat, r.1 as nat) == hhmm_of(at@),
        r.0 < 24,
        r.1 < 60,
{
    proof {
        text::lemma_find(at@, ':');
    }
    match find_char(at, ':') {
        None => (0, 0),
        Some(i) => {
            let n = at.unicode_len();
            let h = at.substring_char(0, i);
            let m = at.substring_char(i + 1, n);
            assert(h@ =~= at@.take(i as int));
            assert(m@ =~= at@.skip(i as int + 1));
            match (parse_u32(h), parse_u32(m)) {
                (Some(hour), Some(minute)) => if hour < 24 && minute < 60 {
                    (hour, minute)
                } else {
                    (0, 0)
                },
                _ => (0, 0),
            }
        },
    }
}

/// The weekday that a name stands for.
pub open spec fn weekday_named(name: Seq<char>) -> Option<Weekday> {
    if name == "monday"@ {
        Some(Weekday::Mon)
    } else if name == "tuesday"@ {
        Some(Weekday::Tue)
    } else if name == "wednesday"@ {
        Some(Weekday::Wed)
    } else if name == "thursday"@ {
        Some(Weekday::Thu)
    } else if name == "friday"@ {
        Some(Weekday::Fri)
    } else if name == "saturday"@ {
        Some(Weekday::Sat)
    } else if name == "sunday"@ {
        Some(Weekday::Sun)
    } else {
        None
    }
}

/// The weekday that a name stands for; none for the other day keywords.
pub fn weekday_from_name(name: &str) -> (r: Option<Weekday>)
    ensures
        r == weekday_named(name@),
{
    if same(name, "monday") {
        Some(Weekday::Mon)
    } else if same(name, "tuesday") {
        Some(Weekday::Tue)
    } else if same(name, "wednesday") {
        Some(Weekday::Wed)
    } else if same(name, "thursday") {
        Some(Weekday::Thu)
    } else if same(name, "friday") {
        Some(Weekday::Fri)
    } else if same(name, "saturday") {
        Some(Weekday::Sat)
    } else if same(name, "sunday") {
        Some(Weekday::Sun)
    } else {
        None
    }
}

/// Whether one day keyword covers a weekday.
pub open spec fn keyword_covers(keyword: Seq<char>, day: Weekday) -> bool {
    if keyword == "day"@ {
        true
    } else if keyword == "weekday"@ {
        day != Weekday::Sat && day != Weekday::Sun
    } else {
        weekday_named(keyword) == Some(day)
    }
}

/// Whether any of the day keywords covers a weekday; without a keyword, every day is covered.
pub open spec fn fires_on(days: Seq<Seq<char>>, day: Weekday) -> bool {
    days.len() == 0 || exists|i: int|
        0 <= i < days.len() && keyword_covers(#[trigger] days[i], day)
}

/// Whether the day keywords cover a weekday; without a keyword, every day is covered.
pub fn calendar_fires_on(days: &Vec<String>, day: Weekday) -> (r: bool)
    ensures
        r == fires_on(text::views(days@), day),
{
    let ghost keywords = text::views(days@);
    if days.len() == 0 {
        return true;
    }
    let mut i: usize = 0;
    while i < days.len()
        invariant
            0 < days.len(),
            i <= days.len(),
            keywords == text::views(days@),
            forall|k: int| 0 <= k < i ==> !keyword_covers(#[trigger] keywords[k], day),
        decreases days.len() - i,
    {
        let name = days[i].as_str();
        let covered = if same(name, "day") {
            true
        } else if same(name, "weekday") {
            day != Weekday::Sat && day != Weekday::Sun
        } else {
            match weekday_from_name(name) {
                Some(w) => w == day,
                None => false,
            }
        };
        assert(covered == keyword_covers(keywords[i as int], day));
        if covered {
            return true;
        }
        i += 1;
    }
    false
}

/// The instant at which a schedule for `seconds` after midnight fires on a day.
pub open spec fn firing_on(zone: Seq<char>, day: int, seconds: int) -> int {
    resolved(zone, day * 86400 + seconds)
}

/// Whether a weekday schedule fires on a day, at an instant after `secs`.
pub open spec fn fires_after(
    zone: Seq<char>,
    days: Seq<Seq<char>>,
    seconds: int,
    secs: int,
    day: int,
) -> bool {
    fires_on(days, calendar::weekday_of(day)) && firing_on(zone, day, seconds) > secs
}

/// Whether `day` is the first day from `from` on at which a weekday schedule fires after `secs`.
pub open spec fn is_next_day(
    zone: Seq<char>,
    days: Seq<Seq<char>>,
    seconds: int,
    secs: int,
    from: int,
    day: int,
) -> bool {
    &&& from <= day
    &&& fires_after(zone, days, seconds, secs, day)
    &&& forall|e: int| from <= e < day ==> !fires_after(zone, days, seconds, secs, e)
}

/// The day of the month that a monthly schedule names.
pub open spec fn month_day(on_day: Option<i64>, last_day: bool, y: int, m: int) -> int {
    if last_day {
        calendar::days_in_month(y, m)
    } else {
        match on_day {
            Some(d) => if 1 <= d <= 31 {
                d as int
            } else {
                1
            },
            None => 1,
        }
    }
}

/// The year and month of a month counted from the start of year 0.
pub open spec fn year_of_month(k: int) -> int {
    k / 12
}

pub open spec fn month_of_month(k: int) -> int {
    k % 12 + 1
}

/// Whether a monthly schedule fires in a month, at an instant after `secs`.
pub open spec fn fires_in_month(
    zone: Seq<char>,
    on_day: Option<i64>,
    last_day: bool,
    seconds: int,
    secs: int,
    k: int,
) -> bool {
    let (y, m) = (year_of_month(k), month_of_month(k));
    let d = month_day(on_day, last_day, y, m);
    calendar::valid_date(y, m, d) && firing_on(zone, calendar::day_number(y, m, d), seconds) > secs
}

/// Whether `k` is the first month from `from` on in which a monthly schedule fires after `secs`.
pub open spec fn is_next_month(
    zone: Seq<char>,
    on_day: Option<i64>,
    last_day: bool,
    seconds: int,
    secs: int,
    from: int,
    k: int,
) -> bool {
    &&& from <= k
    &&& fires_in_month(zone, on_day, last_day, seconds, secs, k)
    &&& forall|j: int|
        from <= j < k ==> !fires_in_month(zone, on_day, last_day, seconds, secs, j)
}

/// The firing of a monthly schedule in a month.
pub open spec fn month_firing(
    zone: Seq<char>,
    on_day: Option<i64>,
    last_day: bool,
    seconds: int,
    k: int,
) -> int {
    let (y, m) = (year_of_month(k), month_of_month(k));
    firing_on(zone, calendar::day_number(y, m, month_day(on_day, last_day, y, m)), seconds)
}

/// Every weekday comes up within seven days.
proof fn lemma_weekday_comes(from: int, w: Weekday) -> (f: int)
    ensures
        from <= f < from + 7,
        calendar::weekday_of(f) == w,
{
    let k: int = match w {
        Weekday::Mon => 0,
        Weekday::Tue => 1,
        Weekday::Wed => 2,
        Weekday::Thu => 3,
        Weekday::Fri => 4,
        Weekday::Sat => 5,
        Weekday::Sun => 6,
    };
    let f = from + (k - (from + 3)) % 7;
    assert((f + 3) % 7 == k);
    f
}

/// The day that a wall-clock time lies in.
fn day_of(wall: i64) -> (r: i64)
    requires
        zone::FIRST_INSTANT - 86400 < wall < zone::LAST_INSTANT + 86400,
    ensures
        r == wall as int / 86400,
        -96464921 <= r <= 95025500,
{
    let in_day = floor_mod(wall, 86400);
    let r: i64 = (wall - in_day) / 86400;
    proof {
        assert(wall - in_day == 86400 * (wall as int / 86400));
    }
    r
}

/// The next firing of a weekday schedule: on the first day from `from` on that it covers and
/// whose firing is after `secs`.
fn next_weekday(days: &Vec<String>, seconds: i64, zone: &str, from: i64, secs: i64) -> (r:
    ZonedTime)
    requires
        zone::zone_known(zone@),
        zone::representable(secs as int),
        from == zone::reads(zone@, secs as int) / 86400,
        secs - 86400 < zone::reads(zone@, secs as int) < secs + 86400,
        0 <= seconds < 86400,
        exists|w: Weekday| fires_on(text::views(days@), w),
    ensures
        r.nanos == 0,
        r.zone@ == zone@,
        r.secs > secs,
        zone::datable(r.secs as int),
        exists|day: int| #[trigger]
            is_next_day(
                zone@,
                text::views(days@),
                seconds as int,
                secs as int,
                from as int,
                day,
            ) && r.secs == firing_on(zone@, day, seconds as int),
{
    let ghost keywords = text::views(days@);
    let ghost w = choose|w: Weekday| fires_on(keywords, w);
    let ghost f: int = 0;
    proof {
        f = lemma_weekday_comes(from + 3, w);
    }
    let mut day: i64 = from;
    loop
        invariant
            zone::zone_known(zone@),
            zone::representable(secs as int),
                from == zone::reads(zone@, secs as int) / 86400,
            secs - 86400 < zone::reads(zone@, secs as int) < secs + 86400,
            0 <= seconds < 86400,
            keywords == text::views(days@),
            fires_on(keywords, w),
            calendar::weekday_of(f) == w,
            from + 3 <= f < from + 10,
            from <= day <= f,
            forall|e: int|
                from <= e < day ==> !fires_after(zone@, keywords, seconds as int, secs as int, e),
        decreases f - day,
    {
        if calendar_fires_on(days, weekday(day)) {
            let candidate = resolve_wall_clock(
                WallTime { secs: day * 86400 + seconds, nanos: 0 },
                zone,
            );
            if candidate.secs > secs {
                assert(is_next_day(
                    zone@,
                    keywords,
                    seconds as int,
                    secs as int,
                    from as int,
                    day as int,
                ));
                return candidate;
            }
        }
        day += 1;
    }
}

/// Of two months in a row one has 31 days, and the second month after a day begins more than
/// four weeks after it.
proof fn lemma_month_ahead(from: int, k0: int, y: int, m: int, d: int) -> (f: int)
    requires
        calendar::valid_date(y, m, d),
        calendar::day_number(y, m, d) == from,
        k0 == y * 12 + m - 1,
    ensures
        k0 + 2 <= f <= k0 + 3,
        calendar::days_in_month(year_of_month(f), month_of_month(f)) == 31,
        forall|e: int|
            calendar::valid_date(year_of_month(f), month_of_month(f), e)
                ==> #[trigger] calendar::day_number(year_of_month(f), month_of_month(f), e) >= from
                + 29,
{
    let (y1, m1) = (year_of_month(k0 + 1), month_of_month(k0 + 1));
    let (y2, m2) = (year_of_month(k0 + 2), month_of_month(k0 + 2));
    assert(year_of_month(k0) == y && month_of_month(k0) == m);
    assert(m < 12 ==> y1 == y && m1 == m + 1);
    assert(m == 12 ==> y1 == y + 1 && m1 == 1);
    assert(m1 < 12 ==> y2 == y1 && m2 == m1 + 1);
    assert(m1 == 12 ==> y2 == y1 + 1 && m2 == 1);
    calendar::lemma_date_order(y, m, d, y1, m1, 1);
    calendar::lemma_next_month(y1, m1);
    assert(calendar::day_number(y2, m2, 1) >= from + 29);
    let f = if calendar::days_in_month(y2, m2) == 31 {
        k0 + 2
    } else {
        k0 + 3
    };
    let (yf, mf) = (year_of_month(f), month_of_month(f));
    assert(m2 < 12 ==> year_of_month(k0 + 3) == y2 && month_of_month(k0 + 3) == m2 + 1);
    assert(m2 == 12 ==> year_of_month(k0 + 3) == y2 + 1 && month_of_month(k0 + 3) == 1);
    assert forall|e: int| calendar::valid_date(yf, mf, e) implies #[trigger] calendar::day_number(
        yf,
        mf,
        e,
    ) >= from + 29 by {
        if f == k0 + 2 {
        } else {
            calendar::lemma_date_order(y2, m2, 1, yf, mf, e);
        }
    }
    f
}

/// The date of a day that jobs can run on is in one of the years for that.
proof fn lemma_year_in_range(y: int, m: int, d: int)
    requires
        calendar::valid_date(y, m, d),
        -96464921 <= calendar::day_number(y, m, d) <= 95025500,
    ensures
        -262142 <= y <= 262140,
{
    calendar::lemma_date_in_year(y, m, d);
    if y > 262140 {
        calendar::lemma_year_order(262141, y);
    }
    if y < -262142 {
        calendar::lemma_year_order(y + 1, -262142);
    }
}

/// A date can be given for the days of such years, and of one year more.
proof fn lemma_date_datable(y: int, m: int, d: int, seconds: int)
    requires
        calendar::valid_date(y, m, d),
        -262142 <= y <= 262141,
        0 <= seconds < 86400,
    ensures
        zone::datable(calendar::day_number(y, m, d) * 86400 + seconds - 86400),
        zone::datable(calendar::day_number(y, m, d) * 86400 + seconds + 86400),
{
    calendar::lemma_date_in_year(y, m, d);
    calendar::lemma_year_order(-262142, y);
    calendar::lemma_year_order(y + 1, 262142);
}

/// The next firing of a monthly schedule: in the first month from that of the day `from` on
/// in which the day exists and whose firing is after `secs`.
fn next_month(
    on_day: Option<i64>,
    last_day: bool,
    seconds: i64,
    zone: &str,
    from: i64,
    secs: i64,
) -> (r: ZonedTime)
    requires
        zone::zone_known(zone@),
        zone::representable(secs as int),
        from == zone::reads(zone@, secs as int) / 86400,
        secs - 86400 < zone::reads(zone@, secs as int) < secs + 86400,
        0 <= seconds < 86400,
    ensures
        r.nanos == 0,
        r.zone@ == zone@,
        r.secs > secs,
        zone::datable(r.secs as int),
        exists|k: int| #[trigger]
            is_next_month(
                zone@,
                on_day,
                last_day,
                seconds as int,
                secs as int,
                month_index(from as int),
                k,
            ) && r.secs == month_firing(zone@, on_day, last_day, seconds as int, k),
{
    let (y0, m0, d0) = date_of(from);
    proof {
        calendar::lemma_bounds(y0 as int, m0 as int, d0 as int);
        lemma_year_in_range(y0 as int, m0 as int, d0 as int);
        lemma_civil(y0 as int, m0 as int, d0 as int);
    }
    let ghost k0 = y0 * 12 + m0 - 1;
    assert(k0 == month_index(from as int));
    let ghost f: int = 0;
    proof {
        f = lemma_month_ahead(from as int, k0, y0 as int, m0 as int, d0 as int);
    }
    let mut year: i32 = y0;
    let mut month: u32 = m0;
    loop
        invariant
            zone::zone_known(zone@),
            zone::representable(secs as int),
            from == zone::reads(zone@, secs as int) / 86400,
            secs - 86400 < zone::reads(zone@, secs as int) < secs + 86400,
            0 <= seconds < 86400,
            k0 == month_index(from as int),
            k0 + 2 <= f <= k0 + 3,
            k0 <= year * 12 + month - 1 <= f,
            1 <= month <= 12,
            -262142 <= year <= 262141,
            k0 < 262141 * 12,
            calendar::days_in_month(year_of_month(f), month_of_month(f)) == 31,
            forall|e: int|
                calendar::valid_date(year_of_month(f), month_of_month(f), e)
                    ==> #[trigger] calendar::day_number(year_of_month(f), month_of_month(f), e)
                    >= from + 29,
            forall|j: int|
                k0 <= j < year * 12 + month - 1 ==> !fires_in_month(
                    zone@,
                    on_day,
                    last_day,
                    seconds as int,
                    secs as int,
                    j,
                ),
            -96464921 <= from <= 95025500,
        decreases f - (year * 12 + month - 1),
    {
        let ghost k = year * 12 + month - 1;
        assert(year_of_month(k) == year && month_of_month(k) == month);
        let day: u32 = if last_day {
            last_day_of_month(year, month)
        } else {
            match on_day {
                Some(d) => if 1 <= d && d <= 31 {
                    d as u32
                } else {
                    1
                },
                None => 1,
            }
        };
        assert(day == month_day(on_day, last_day, year as int, month as int));
        if let Some(date) = date_number(year, month, day) {
            proof {
                calendar::lemma_bounds(year as int, month as int, day as int);
                lemma_date_datable(year as int, month as int, day as int, seconds as int);
            }
            let candidate = resolve_wall_clock(
                WallTime { secs: date * 86400 + seconds, nanos: 0 },
                zone,
            );
            if candidate.secs > secs {
                assert(is_next_month(
                    zone@,
                    on_day,
                    last_day,
                    seconds as int,
                    secs as int,
                    k0,
                    k,
                ));
                return candidate;
            }
        }
        if month == 12 {
            year += 1;
            month = 1;
        } else {
            month += 1;
        }
    }
}

/// The month that a day lies in, counted from the start of year 0.
pub open spec fn month_index(day: int) -> int {
    let (y, m, d) = zone::civil(day);
    y * 12 + m - 1
}

/// A valid date is the date of its day number.
pub proof fn lemma_civil(y: int, m: int, d: int)
    requires
        calendar::valid_date(y, m, d),
    ensures
        zone::civil(calendar::day_number(y, m, d)) == (y, m, d),
{
    let n = calendar::day_number(y, m, d);
    let t = (y, m, d);
    assert(calendar::valid_date(t.0, t.1, t.2) && calendar::day_number(t.0, t.1, t.2) == n);
    let c = zone::civil(n);
    assert(calendar::valid_date(c.0, c.1, c.2) && calendar::day_number(c.0, c.1, c.2) == n);
    calendar::lemma_date_unique(y, m, d, c.0, c.1, c.2);
}

/// Whether a list of day keywords makes a schedule that fires: monthly, or on some weekday. An
/// empty list does, every day.
pub open spec fn schedulable(days: Seq<Seq<char>>) -> bool {
    days.len() == 0 || days.contains("month"@) || exists|w: Weekday| fires_on(days, w)
}

/// How long after midnight the time of day comes, in seconds.
pub open spec fn seconds_of(at: Seq<char>) -> int {
    hhmm_of(at).0 as int * 3600 + hhmm_of(at).1 as int * 60
}

/// Whether `next` is the next firing of a calendar schedule after the instant `secs`. A list
/// with `month` is a monthly schedule: it fires in the first month, from the current one on,
/// in which the day exists and its firing is after `secs`. Any other is a list of weekdays: it
/// fires on the first day, from today on, that the list covers and whose firing is after
/// `secs`.
pub open spec fn is_calendar_firing(
    zone: Seq<char>,
    days: Seq<Seq<char>>,
    at: Seq<char>,
    on_day: Option<i64>,
    last_day: bool,
    secs: int,
    next: int,
) -> bool {
    let today = zone::reads(zone, secs) / 86400;
    let seconds = seconds_of(at);
    if days.contains("month"@) {
        exists|k: int| #[trigger]
            is_next_month(zone, on_day, last_day, seconds, secs, month_index(today), k) && next
                == month_firing(zone, on_day, last_day, seconds, k)
    } else {
        exists|day: int| #[trigger]
            is_next_day(zone, days, seconds, secs, today, day) && next == firing_on(
                zone,
                day,
                seconds,
            )
    }
}

/// A calendar schedule has one next firing at most.
pub proof fn lemma_calendar_firing_unique(
    zone: Seq<char>,
    days: Seq<Seq<char>>,
    at: Seq<char>,
    on_day: Option<i64>,
    last_day: bool,
    secs: int,
    a: int,
    b: int,
)
    requires
        is_calendar_firing(zone, days, at, on_day, last_day, secs, a),
        is_calendar_firing(zone, days, at, on_day, last_day, secs, b),
    ensures
        a == b,
{
    let today = zone::reads(zone, secs) / 86400;
    let seconds = seconds_of(at);
    if days.contains("month"@) {
        let from = month_index(today);
        let j = choose|k: int| #[trigger]
            is_next_month(zone, on_day, last_day, seconds, secs, from, k) && a == month_firing(
                zone,
                on_day,
                last_day,
                seconds,
                k,
            );
        let k = choose|k: int| #[trigger]
            is_next_month(zone, on_day, last_day, seconds, secs, from, k) && b == month_firing(
                zone,
                on_day,
                last_day,
                seconds,
                k,
            );
        assert(fires_in_month(zone, on_day, last_day, seconds, secs, j));
        assert(fires_in_month(zone, on_day, last_day, seconds, secs, k));
    } else {
        let d = choose|day: int| #[trigger]
            is_next_day(zone, days, seconds, secs, today, day) && a == firing_on(
                zone,
                day,
                seconds,
            );
        let e = choose|day: int| #[trigger]
            is_next_day(zone, days, seconds, secs, today, day) && b == firing_on(
                zone,
                day,
                seconds,
            );
        assert(fires_after(zone, days, seconds, secs, d));
        assert(fires_after(zone, days, seconds, secs, e));
    }
}

/// The next firing of a calendar schedule after an instant, by the clocks of `zone`. A list
/// with `month` is a monthly schedule; any other is a list of weekdays.
pub fn next_calendar(
    days: &Vec<String>,
    at: &str,
    zone: &str,
    on_day: Option<i64>,
    last_day: bool,
    after: &ZonedTime,
) -> (r: ZonedTime)
    requires
        zone::zone_known(zone@),
        after.valid(),
        schedulable(text::views(days@)),
    ensures
        r.nanos == 0,
        r.zone@ == zone@,
        r.secs > after.secs,
        zone::datable(r.secs as int),
        is_calendar_firing(
            zone@,
            text::views(days@),
            at@,
            on_day,
            last_day,
            after.secs as int,
            r.secs as int,
        ),
{
    let (hour, minute) = parse_hhmm(at);
    let seconds: i64 = hour as i64 * 3600 + minute as i64 * 60;
    assert(seconds == seconds_of(at@));
    let wall = wall_of(zone, after.secs);
    let from = day_of(wall);
    if contains_text(days, "month") {
        next_month(on_day, last_day, seconds, zone, from, after.secs)
    } else {
        assert(days@.len() == 0 ==> fires_on(text::views(days@), Weekday::Mon));
        next_weekday(days, seconds, zone, from, after.secs)
    }
}

/// Whether a list holds a text.
pub(crate) fn contains_text(list: &Vec<String>, wanted: &str) -> (r: bool)
    ensures
        r == text::views(list@).contains(wanted@),
{
    let mut i: usize = 0;
    while i < list.len()
        invariant
            i <= list.len(),
            forall|k: int| 0 <= k < i ==> list@[k]@ != wanted@,
        decreases list.len() - i,
    {
        if same(list[i].as_str(), wanted) {
            assert(text::views(list@)[i as int] == wanted@);
            return true;
        }
        i += 1;
    }
    false
}

// ------------------------------------------------------------------------------ cron

/// Whether the instant `a` is later than the instant `b`, by seconds and then by fraction.
pub open spec fn is_later(a: (int, int), b: (int, int)) -> bool {
    a.0 > b.0 || (a.0 == b.0 && a.1 > b.1)
}

/// The first of the matches of a cron expression from `from` on, each found from the one before
/// it, that is later than `limit`. The clocks read a later time at each, and they are less than
/// a day off, so it is not looked for further than that; nor past the times that a date can be
/// given for.
pub open spec fn first_match_after(
    expression: Seq<char>,
    zone: Seq<char>,
    limit: (int, int),
    from: (int, int),
) -> Option<(i64, u32)>
    decreases limit.0 + 86400 - zone::reads(zone, from.0),
{
    match cron::cron_next(expression, zone, from.0, from.1) {
        None => None,
        Some((secs, nanos)) => if !zone::representable(secs as int) || nanos >= 1000000000 {
            None
        } else if is_later((secs as int, nanos as int), limit) {
            Some((secs, nanos))
        } else if zone::reads(zone, from.0) < zone::reads(zone, secs as int) < limit.0 + 86400 {
            first_match_after(expression, zone, limit, (secs as int, nanos as int))
        } else {
            None
        },
    }
}

/// The next firing of a cron expression after an instant, evaluated in `zone`; none where the
/// expression is malformed or has no further occurrence. It is later than the instant: while
/// the clocks run through a time again, matches that came the first time are passed over.
pub fn next_cron(expression: &str, zone: &str, after: &ZonedTime) -> (r: Option<ZonedTime>)
    requires
        zone::zone_known(zone@),
        after.valid(),
    ensures
        (match r {
            Some(t) => {
                &&& cron::cron_valid(expression@)
                &&& first_match_after(
                    expression@,
                    zone@,
                    (after.secs as int, after.nanos as int),
                    (after.secs as int, after.nanos as int),
                ) == Some((t.secs, t.nanos))
                &&& is_later(
                    (t.secs as int, t.nanos as int),
                    (after.secs as int, after.nanos as int),
                )
                &&& t.zone@ == zone@
                &&& zone::representable(t.secs as int)
                &&& t.nanos < 1000000000
            },
            None => cron::cron_valid(expression@) ==> first_match_after(
                expression@,
                zone@,
                (after.secs as int, after.nanos as int),
                (after.secs as int, after.nanos as int),
            ) is None,
        }),
{
    if !is_cron(expression) {
        return None;
    }
    let ghost limit = (after.secs as int, after.nanos as int);
    let mut from_secs: i64 = after.secs;
    let mut from_nanos: u32 = after.nanos;
    let mut wall = wall_of(zone, from_secs);
    loop
        invariant
            zone::zone_known(zone@),
            cron::cron_valid(expression@),
            after.valid(),
            limit == (after.secs as int, after.nanos as int),
            zone::representable(from_secs as int),
            from_nanos < 1000000000,
            wall == zone::reads(zone@, from_secs as int),
            wall < after.secs + 86400,
            first_match_after(
                expression@,
                zone@,
                limit,
                (from_secs as int, from_nanos as int),
            ) == first_match_after(expression@, zone@, limit, limit),
        decreases after.secs + 86400 - wall,
    {
        let (secs, nanos) = match next_match(expression, zone, from_secs, from_nanos) {
            Some(found) => found,
            None => {
                return None;
            },
        };
        if !is_representable(secs) || nanos >= 1000000000 {
            return None;
        }
        if secs > after.secs || (secs == after.secs && nanos > after.nanos) {
            return Some(ZonedTime { secs, nanos, zone: zone.to_owned() });
        }
        wall = secs + offset_at(zone, secs) as i64;
        from_secs = secs;
        from_nanos = nanos;
    }
}

} // verus!
