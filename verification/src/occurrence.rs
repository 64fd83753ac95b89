//! Occurrences: a computed firing and the key that identifies it.

use crate::calendar;
use crate::scheduler;
use crate::scheduler::ZonedTime;
use crate::text;
use crate::zone;
use crate::zone::to_rfc3339;
use vstd::prelude::*;
use vstd::string::*;

verus! {

/// The family of schedules that an occurrence comes from.
#[derive(Debug, Clone, Copy, PartialEq, Eq, Structural)]
pub enum ScheduleKind {
    Minute,
    Hour,
    Calendar,
    Cron,
}

impl ScheduleKind {
    /// The label of the kind, as it stands in a key.
    pub open spec fn label(self) -> Seq<char> {
        match self {
            ScheduleKind::Minute => "minute"@,
            ScheduleKind::Hour => "hour"@,
            ScheduleKind::Calendar => "calendar"@,
            ScheduleKind::Cron => "cron"@,
        }
    }

    pub fn as_str(self) -> (r: &'static str)
        ensures
            r@ == self.label(),
    {
        match self {
            ScheduleKind::Minute => "minute",
            ScheduleKind::Hour => "hour",
            ScheduleKind::Calendar => "calendar",
            ScheduleKind::Cron => "cron",
        }
    }
}

/// A computed firing and its key.
#[derive(Debug, Clone)]
pub struct Occurrence {
    pub scheduled_for: ZonedTime,
    pub key: String,
}

/// The key of an occurrence: the job, the kind, and the instant with its offset.
pub open spec fn key_text(
    job_id: Seq<char>,
    kind: ScheduleKind,
    zone: Seq<char>,
    secs: int,
    nanos: int,
) -> Seq<char> {
    job_id + ":"@ + kind.label() + ":"@ + zone::rfc3339_text(
        zone::reads(zone, secs),
        nanos,
        zone::zone_offset(zone, secs),
    )
}

impl Occurrence {
    pub fn new(job_id: &str, kind: ScheduleKind, scheduled_for: ZonedTime) -> (r: Occurrence)
        requires
            zone::zone_known(scheduled_for.zone@),
            zone::representable(scheduled_for.secs as int),
            scheduled_for.nanos < 1000000000,
        ensures
            r.scheduled_for == scheduled_for,
            r.key@ == key_text(
                job_id@,
                kind,
                scheduled_for.zone@,
                scheduled_for.secs as int,
                scheduled_for.nanos as int,
            ),
    {
        let mut key = job_id.to_owned();
        key.append(":");
        key.append(kind.as_str());
        key.append(":");
        let instant = to_rfc3339(
            scheduled_for.zone.as_str(),
            scheduled_for.secs,
            scheduled_for.nanos,
        );
        key.append(instant.as_str());
        Occurrence { scheduled_for, key }
    }
}

// ------------------------------------------------------------ reading a key back

spec fn pow10(w: nat) -> nat
    decreases w,
{
    if w == 0 {
        1
    } else {
        10 * pow10((w - 1) as nat)
    }
}

pub(crate) proof fn lemma_padded(n: nat, w: nat)
    ensures
        zone::padded(n, w).len() == w,
        text::all_digits(zone::padded(n, w)),
    decreases w,
{
    if w > 0 {
        lemma_padded(n / 10, (w - 1) as nat);
    }
}

proof fn lemma_padded_injective(a: nat, b: nat, w: nat)
    requires
        zone::padded(a, w) == zone::padded(b, w),
        a < pow10(w),
        b < pow10(w),
    ensures
        a == b,
    decreases w,
{
    if w > 0 {
        let v = (w - 1) as nat;
        assert(zone::padded(a, w).drop_last() =~= zone::padded(a / 10, v));
        assert(zone::padded(b, w).drop_last() =~= zone::padded(b / 10, v));
        assert(zone::padded(a, w).last() == text::digit_char(a % 10));
        assert(zone::padded(b, w).last() == text::digit_char(b % 10));
        lemma_padded_injective(a / 10, b / 10, v);
    }
}

proof fn lemma_powers()
    ensures
        pow10(2) == 100,
        pow10(3) == 1000,
        pow10(4) == 10000,
        pow10(6) == 1000000,
        pow10(9) == 1000000000,
{
    reveal_with_fuel(pow10, 10);
}

proof fn lemma_long_decimal(n: nat)
    requires
        n > 9999,
    ensures
        text::decimal(n).len() >= 5,
{
    reveal_with_fuel(text::decimal, 5);
    text::lemma_decimal_number(n / 10 / 10 / 10 / 10);
}

/// The first character of a year says its sign, and no other character of it is a dash.
proof fn lemma_year_shape(y: int)
    ensures
        zone::year_text(y).len() >= 4,
        !zone::year_text(y).drop_first().contains('-'),
        0 <= y <= 9999 <==> zone::year_text(y).len() == 4,
        -9999 <= y < 0 <==> zone::year_text(y).len() == 5 && zone::year_text(y)[0] == '-',
        y < -9999 <==> zone::year_text(y).len() > 5 && zone::year_text(y)[0] == '-',
        y > 9999 <==> zone::year_text(y).len() > 5 && zone::year_text(y)[0] == '+',
{
    let t = zone::year_text(y);
    if 0 <= y <= 9999 {
        lemma_padded(y as nat, 4);
        assert forall|i: int| 0 <= i < t.drop_first().len() implies t.drop_first()[i] != '-' by {
            assert(text::is_digit(t[i + 1]));
        }
    } else if -9999 <= y < 0 {
        lemma_padded((-y) as nat, 4);
        assert(t.drop_first() =~= zone::padded((-y) as nat, 4));
    } else if y > 9999 {
        lemma_long_decimal(y as nat);
        text::lemma_decimal_number(y as nat);
        assert(t.drop_first() =~= text::decimal(y as nat));
    } else {
        lemma_long_decimal((-y) as nat);
        text::lemma_decimal_number((-y) as nat);
        assert(t.drop_first() =~= text::decimal((-y) as nat));
    }
}

proof fn lemma_year_injective(a: int, b: int)
    requires
        zone::year_text(a) == zone::year_text(b),
    ensures
        a == b,
{
    lemma_year_shape(a);
    lemma_year_shape(b);
    lemma_powers();
    let (s, t) = (zone::year_text(a), zone::year_text(b));
    if 0 <= a <= 9999 {
        lemma_padded_injective(a as nat, b as nat, 4);
    } else if -9999 <= a < 0 {
        assert(s.drop_first() =~= zone::padded((-a) as nat, 4));
        assert(t.drop_first() =~= zone::padded((-b) as nat, 4));
        lemma_padded_injective((-a) as nat, (-b) as nat, 4);
    } else if a > 9999 {
        assert(s.drop_first() =~= text::decimal(a as nat));
        assert(t.drop_first() =~= text::decimal(b as nat));
        text::lemma_decimal_injective(a as nat, b as nat);
    } else {
        assert(s.drop_first() =~= text::decimal((-a) as nat));
        assert(t.drop_first() =~= text::decimal((-b) as nat));
        text::lemma_decimal_injective((-a) as nat, (-b) as nat);
    }
}

proof fn lemma_fraction_injective(a: int, b: int)
    requires
        zone::fraction_text(a) == zone::fraction_text(b),
        0 <= a < 1000000000,
        0 <= b < 1000000000,
    ensures
        a == b,
{
    lemma_powers();
    lemma_padded((a / 1000000) as nat, 3);
    lemma_padded((b / 1000000) as nat, 3);
    lemma_padded((a / 1000) as nat, 6);
    lemma_padded((b / 1000) as nat, 6);
    lemma_padded(a as nat, 9);
    lemma_padded(b as nat, 9);
    let (s, t) = (zone::fraction_text(a), zone::fraction_text(b));
    if a == 0 {
    } else if a % 1000000 == 0 {
        assert(s.len() == 4);
        assert(s.drop_first() =~= zone::padded((a / 1000000) as nat, 3));
        assert(t.drop_first() =~= zone::padded((b / 1000000) as nat, 3));
        lemma_padded_injective((a / 1000000) as nat, (b / 1000000) as nat, 3);
    } else if a % 1000 == 0 {
        assert(s.len() == 7);
        assert(s.drop_first() =~= zone::padded((a / 1000) as nat, 6));
        assert(t.drop_first() =~= zone::padded((b / 1000) as nat, 6));
        lemma_padded_injective((a / 1000) as nat, (b / 1000) as nat, 6);
    } else {
        assert(s.len() == 10);
        assert(s.drop_first() =~= zone::padded(a as nat, 9));
        assert(t.drop_first() =~= zone::padded(b as nat, 9));
        lemma_padded_injective(a as nat, b as nat, 9);
    }
}

/// Whether an offset is a whole number of minutes and less than a day either way.
pub open spec fn whole_minutes(offset: int) -> bool {
    -86400 < offset < 86400 && offset % 60 == 0
}

proof fn lemma_offset_injective(a: int, b: int)
    requires
        zone::offset_text(a) == zone::offset_text(b),
        whole_minutes(a),
        whole_minutes(b),
    ensures
        a == b,
{
    lemma_powers();
    let ma = ((if a < 0 { -a } else { a }) + 30) / 60;
    let mb = ((if b < 0 { -b } else { b }) + 30) / 60;
    let (s, t) = (zone::offset_text(a), zone::offset_text(b));
    lemma_padded((ma / 60) as nat, 2);
    lemma_padded((mb / 60) as nat, 2);
    lemma_padded((ma % 60) as nat, 2);
    lemma_padded((mb % 60) as nat, 2);
    assert(s.subrange(1, 3) =~= zone::padded((ma / 60) as nat, 2));
    assert(t.subrange(1, 3) =~= zone::padded((mb / 60) as nat, 2));
    assert(s.subrange(4, 6) =~= zone::padded((ma % 60) as nat, 2));
    assert(t.subrange(4, 6) =~= zone::padded((mb % 60) as nat, 2));
    lemma_padded_injective((ma / 60) as nat, (mb / 60) as nat, 2);
    lemma_padded_injective((ma % 60) as nat, (mb % 60) as nat, 2);
    assert(s[0] == if a < 0 { '-' } else { '+' });
    assert(t[0] == if b < 0 { '-' } else { '+' });
}

/// Every day has a date.
proof fn lemma_civil_exists(n: int)
    ensures
        ({
            let (y, m, d) = zone::civil(n);
            calendar::valid_date(y, m, d) && calendar::day_number(y, m, d) == n
        }),
    decreases if n < 0 { -n } else { n },
{
    if n == 0 {
        assert(calendar::days_before_month(1970, 1) == 0);
        scheduler::lemma_civil(1970, 1, 1);
    } else if n > 0 {
        lemma_civil_exists(n - 1);
        let (y, m, d) = zone::civil(n - 1);
        calendar::lemma_next_month(y, m);
        if d < calendar::days_in_month(y, m) {
            scheduler::lemma_civil(y, m, d + 1);
        } else if m < 12 {
            scheduler::lemma_civil(y, m + 1, 1);
        } else {
            scheduler::lemma_civil(y + 1, 1, 1);
        }
    } else {
        lemma_civil_exists(n + 1);
        let (y, m, d) = zone::civil(n + 1);
        if d > 1 {
            scheduler::lemma_civil(y, m, d - 1);
        } else if m > 1 {
            calendar::lemma_next_month(y, m - 1);
            scheduler::lemma_civil(y, m - 1, calendar::days_in_month(y, m - 1));
        } else {
            calendar::lemma_next_month(y - 1, 12);
            scheduler::lemma_civil(y - 1, 12, 31);
        }
    }
}

/// What follows the year of an RFC 3339 text.
spec fn after_year(wall: int, nanos: int, offset: int) -> Seq<char> {
    let (y, m, d) = zone::civil(wall / 86400);
    let s = wall % 86400;
    zone::padded(m as nat, 2) + seq!['-'] + zone::padded(d as nat, 2) + seq!['T'] + zone::padded(
        (s / 3600) as nat,
        2,
    ) + seq![':'] + zone::padded((s % 3600 / 60) as nat, 2) + seq![':'] + zone::padded(
        (s % 60) as nat,
        2,
    ) + (zone::fraction_text(nanos) + zone::offset_text(offset))
}

proof fn lemma_after_year_injective(wa: int, na: int, oa: int, wb: int, nb: int, ob: int)
    requires
        after_year(wa, na, oa) == after_year(wb, nb, ob),
        0 <= na < 1000000000,
        0 <= nb < 1000000000,
        whole_minutes(oa),
        whole_minutes(ob),
    ensures
        zone::civil(wa / 86400).1 == zone::civil(wb / 86400).1,
        zone::civil(wa / 86400).2 == zone::civil(wb / 86400).2,
        wa % 86400 == wb % 86400,
        na == nb,
        oa == ob,
{
    lemma_powers();
    lemma_civil_exists(wa / 86400);
    lemma_civil_exists(wb / 86400);
    let (s, t) = (after_year(wa, na, oa), after_year(wb, nb, ob));
    let (ca, cb) = (zone::civil(wa / 86400), zone::civil(wb / 86400));
    let (ta, tb) = (wa % 86400, wb % 86400);
    let (fa, fb) = (zone::fraction_text(na), zone::fraction_text(nb));
    let (xa, xb) = (zone::offset_text(oa), zone::offset_text(ob));
    lemma_padded(ca.1 as nat, 2);
    lemma_padded(cb.1 as nat, 2);
    lemma_padded(ca.2 as nat, 2);
    lemma_padded(cb.2 as nat, 2);
    lemma_padded((ta / 3600) as nat, 2);
    lemma_padded((tb / 3600) as nat, 2);
    lemma_padded((ta % 3600 / 60) as nat, 2);
    lemma_padded((tb % 3600 / 60) as nat, 2);
    lemma_padded((ta % 60) as nat, 2);
    lemma_padded((tb % 60) as nat, 2);
    assert(s.subrange(0, 2) =~= zone::padded(ca.1 as nat, 2));
    assert(t.subrange(0, 2) =~= zone::padded(cb.1 as nat, 2));
    assert(s.subrange(3, 5) =~= zone::padded(ca.2 as nat, 2));
    assert(t.subrange(3, 5) =~= zone::padded(cb.2 as nat, 2));
    assert(s.subrange(6, 8) =~= zone::padded((ta / 3600) as nat, 2));
    assert(t.subrange(6, 8) =~= zone::padded((tb / 3600) as nat, 2));
    assert(s.subrange(9, 11) =~= zone::padded((ta % 3600 / 60) as nat, 2));
    assert(t.subrange(9, 11) =~= zone::padded((tb % 3600 / 60) as nat, 2));
    assert(s.subrange(12, 14) =~= zone::padded((ta % 60) as nat, 2));
    assert(t.subrange(12, 14) =~= zone::padded((tb % 60) as nat, 2));
    assert(s.skip(14) =~= fa + xa);
    assert(t.skip(14) =~= fb + xb);
    lemma_padded_injective(ca.1 as nat, cb.1 as nat, 2);
    lemma_padded_injective(ca.2 as nat, cb.2 as nat, 2);
    lemma_padded_injective((ta / 3600) as nat, (tb / 3600) as nat, 2);
    lemma_padded_injective((ta % 3600 / 60) as nat, (tb % 3600 / 60) as nat, 2);
    lemma_padded_injective((ta % 60) as nat, (tb % 60) as nat, 2);
    lemma_offset_length(oa);
    lemma_offset_length(ob);
    assert((fa + xa).take(fa.len() as int) =~= fa);
    assert((fb + xb).take(fb.len() as int) =~= fb);
    assert((fa + xa).skip(fa.len() as int) =~= xa);
    assert((fb + xb).skip(fb.len() as int) =~= xb);
    lemma_fraction_injective(na, nb);
    lemma_offset_injective(oa, ob);
}

proof fn lemma_offset_length(offset: int)
    ensures
        zone::offset_text(offset).len() == 6,
{
    let m = ((if offset < 0 { -offset } else { offset }) + 30) / 60;
    lemma_padded((m / 60) as nat, 2);
    lemma_padded((m % 60) as nat, 2);
}

proof fn lemma_rfc3339_shape(wall: int, nanos: int, offset: int)
    ensures
        zone::rfc3339_text(wall, nanos, offset) == zone::year_text(zone::civil(wall / 86400).0)
            + seq!['-'] + after_year(wall, nanos, offset),
{
    let (y, m, d) = zone::civil(wall / 86400);
    let s = wall % 86400;
    let h = zone::year_text(y) + seq!['-'];
    let p1 = zone::padded(m as nat, 2);
    let p2 = p1 + seq!['-'];
    let p3 = p2 + zone::padded(d as nat, 2);
    let p4 = p3 + seq!['T'];
    let p5 = p4 + zone::padded((s / 3600) as nat, 2);
    let p6 = p5 + seq![':'];
    let p7 = p6 + zone::padded((s % 3600 / 60) as nat, 2);
    let p8 = p7 + seq![':'];
    let p9 = p8 + zone::padded((s % 60) as nat, 2);
    let f = zone::fraction_text(nanos);
    let o = zone::offset_text(offset);
    assert(h + p1 + seq!['-'] =~= h + p2);
    assert(h + p2 + zone::padded(d as nat, 2) =~= h + p3);
    assert(h + p3 + seq!['T'] =~= h + p4);
    assert(h + p4 + zone::padded((s / 3600) as nat, 2) =~= h + p5);
    assert(h + p5 + seq![':'] =~= h + p6);
    assert(h + p6 + zone::padded((s % 3600 / 60) as nat, 2) =~= h + p7);
    assert(h + p7 + seq![':'] =~= h + p8);
    assert(h + p8 + zone::padded((s % 60) as nat, 2) =~= h + p9);
    assert(h + p9 + f + o =~= h + (p9 + (f + o)));
}

/// A wall-clock time and a whole-minute offset can be read back from their RFC 3339 text.
pub proof fn lemma_rfc3339_injective(wa: int, na: int, oa: int, wb: int, nb: int, ob: int)
    requires
        zone::rfc3339_text(wa, na, oa) == zone::rfc3339_text(wb, nb, ob),
        0 <= na < 1000000000,
        0 <= nb < 1000000000,
        whole_minutes(oa),
        whole_minutes(ob),
    ensures
        wa == wb,
        na == nb,
        oa == ob,
{
    let (ya, yb) = (zone::civil(wa / 86400).0, zone::civil(wb / 86400).0);
    let (s, t) = (zone::rfc3339_text(wa, na, oa), zone::rfc3339_text(wb, nb, ob));
    let (ra, rb) = (after_year(wa, na, oa), after_year(wb, nb, ob));
    let dash = seq!['-'];
    lemma_year_shape(ya);
    lemma_year_shape(yb);
    let (ua, ub) = (zone::year_text(ya), zone::year_text(yb));
    lemma_rfc3339_shape(wa, na, oa);
    lemma_rfc3339_shape(wb, nb, ob);
    assert(s.drop_first() =~= ua.drop_first() + dash + ra);
    assert(t.drop_first() =~= ub.drop_first() + dash + rb);
    lemma_not_in(ua.drop_first());
    lemma_not_in(ub.drop_first());
    text::lemma_split_unique(ua.drop_first(), ra, ub.drop_first(), rb, dash);
    assert(s[0] == ua[0] && t[0] == ub[0]);
    assert(ua =~= seq![ua[0]] + ua.drop_first());
    assert(ub =~= seq![ub[0]] + ub.drop_first());
    lemma_year_injective(ya, yb);
    lemma_after_year_injective(wa, na, oa, wb, nb, ob);
    lemma_civil_exists(wa / 86400);
    lemma_civil_exists(wb / 86400);
}

proof fn lemma_not_in(s: Seq<char>)
    requires
        !s.contains('-'),
    ensures
        !text::occurs(s, seq!['-']),
{
    if text::occurs(s, seq!['-']) {
        let i = choose|i: int| text::occurs_at(s, seq!['-'], i);
        assert(s.subrange(i, i + 1)[0] == s[i]);
        assert(s.contains('-'));
    }
}

proof fn lemma_label(k: ScheduleKind)
    ensures
        !k.label().contains(':'),
        k is Minute <==> k.label()[0] == 'm',
        k is Hour <==> k.label()[0] == 'h',
        k is Calendar <==> k.label()[1] == 'a',
        k is Cron <==> k.label()[1] == 'r',
        k.label().len() >= 2,
{
    reveal_strlit("minute");
    reveal_strlit("hour");
    reveal_strlit("calendar");
    reveal_strlit("cron");
}

proof fn lemma_no_colon(s: Seq<char>)
    requires
        !s.contains(':'),
    ensures
        !text::occurs(s, ":"@),
{
    reveal_strlit(":");
    if text::occurs(s, ":"@) {
        let i = choose|i: int| text::occurs_at(s, ":"@, i);
        assert(s.subrange(i, i + 1)[0] == s[i]);
        assert(s.contains(':'));
    }
}

/// Three parts joined by colons, of which the first two hold none, can be read back.
proof fn lemma_three_parts(
    a: Seq<char>,
    la: Seq<char>,
    ra: Seq<char>,
    b: Seq<char>,
    lb: Seq<char>,
    rb: Seq<char>,
)
    requires
        a + ":"@ + la + ":"@ + ra == b + ":"@ + lb + ":"@ + rb,
        !a.contains(':'),
        !b.contains(':'),
        !la.contains(':'),
        !lb.contains(':'),
    ensures
        a == b,
        la == lb,
        ra == rb,
{
    reveal_strlit(":");
    assert(a + ":"@ + la + ":"@ + ra =~= a + ":"@ + (la + ":"@ + ra));
    assert(b + ":"@ + lb + ":"@ + rb =~= b + ":"@ + (lb + ":"@ + rb));
    lemma_no_colon(a);
    lemma_no_colon(b);
    text::lemma_split_unique(a, la + ":"@ + ra, b, lb + ":"@ + rb, ":"@);
    lemma_no_colon(la);
    lemma_no_colon(lb);
    text::lemma_split_unique(la, ra, lb, rb, ":"@);
}

/// A key tells the job, the kind and the instant, where the job's id holds no colon and the
/// zone's offset at the instant is a whole number of minutes. So the two instants that read
/// the same wall-clock time when the clocks go back have different keys.
pub proof fn lemma_key_injective(
    job_a: Seq<char>,
    kind_a: ScheduleKind,
    zone_a: Seq<char>,
    secs_a: int,
    nanos_a: int,
    job_b: Seq<char>,
    kind_b: ScheduleKind,
    zone_b: Seq<char>,
    secs_b: int,
    nanos_b: int,
)
    requires
        key_text(job_a, kind_a, zone_a, secs_a, nanos_a) == key_text(
            job_b,
            kind_b,
            zone_b,
            secs_b,
            nanos_b,
        ),
        !job_a.contains(':'),
        !job_b.contains(':'),
        0 <= nanos_a < 1000000000,
        0 <= nanos_b < 1000000000,
        whole_minutes(zone::zone_offset(zone_a, secs_a)),
        whole_minutes(zone::zone_offset(zone_b, secs_b)),
    ensures
        job_a == job_b,
        kind_a == kind_b,
        secs_a == secs_b,
        nanos_a == nanos_b,
{
    let (wa, wb) = (zone::reads(zone_a, secs_a), zone::reads(zone_b, secs_b));
    let (oa, ob) = (zone::zone_offset(zone_a, secs_a), zone::zone_offset(zone_b, secs_b));
    lemma_label(kind_a);
    lemma_label(kind_b);
    lemma_three_parts(
        job_a,
        kind_a.label(),
        zone::rfc3339_text(wa, nanos_a, oa),
        job_b,
        kind_b.label(),
        zone::rfc3339_text(wb, nanos_b, ob),
    );
    lemma_rfc3339_injective(wa, nanos_a, oa, wb, nanos_b, ob);
}

} // verus!
