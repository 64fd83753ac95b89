//! Cron expressions: which ones are well-formed, and when one fires next.

use crate::zone;
use vstd::prelude::*;

verus! {

/// Whether a text is a well-formed cron expression.
pub uninterp spec fn cron_valid(expression: Seq<char>) -> bool;

/// The next firing of a cron expression after an instant in a zone, as seconds and fraction.
pub uninterp spec fn cron_next(
    expression: Seq<char>,
    zone: Seq<char>,
    secs: int,
    nanos: int,
) -> Option<(i64, u32)>;

/// `croner::Cron::from_str` accepts a text or not, by the text alone.
#[verifier::external_body]
pub(crate) fn is_cron(expression: &str) -> (r: bool)
    ensures
        r == cron_valid(expression@),
{
    expression.parse::<croner::Cron>().is_ok()
}

/// `croner::Cron::find_next_occurrence`, not counting the instant itself: a function of the
/// expression, the zone and the instant. The search starts a second after what the zone's
/// clocks read and only goes forward on them, so they read a later time at the result. Which
/// times match the expression is left unsaid.
#[verifier::external_body]
pub(crate) fn next_match(expression: &str, zone: &str, secs: i64, nanos: u32) -> (r: Option<
    (i64, u32),
>)
    requires
        cron_valid(expression@),
        zone::zone_known(zone@),
        zone::representable(secs as int),
        nanos < 1000000000,
    ensures
        r == cron_next(expression@, zone@, secs as int, nanos as int),
        r matches Some((s, _)) ==> zone::reads(zone@, s as int) > zone::reads(zone@, secs as int),
{
    let tz = zone.parse::<chrono_tz::Tz>().unwrap();
    let start = chrono::DateTime::from_timestamp(secs, nanos).unwrap().with_timezone(&tz);
    let cron = expression.parse::<croner::Cron>().unwrap();
    let next = cron.find_next_occurrence(&start, false).ok();
    next.map(|t| (t.timestamp(), t.timestamp_subsec_nanos()))
}

} // verus!
