//! Occurrences that came due while the daemon was down, and what is made of them.

use crate::config;
use crate::config::{EffectiveJob, MissedRunPolicy};
use crate::occurrence::Occurrence;
use crate::schedule_table;
use crate::schedule_table::arm;
use crate::state::Stamp;
use crate::text;
use vstd::prelude::*;

verus! {

/// How far back occurrences are looked for, in seconds.
pub const LOOKBACK_SECS: i64 = 86400;

/// The instant from which on occurrences were missed: when the daemon was last heard of, but no
/// longer ago than the lookback.
pub open spec fn lookback_start(since: Stamp, now: Stamp) -> Stamp {
    let limit = Stamp { secs: (now.secs - LOOKBACK_SECS) as i64, nanos: now.nanos };
    if schedule_table::earlier(since, limit) {
        limit
    } else {
        since
    }
}

/// The instant before the occurrence at `i`: that of the one before it, or the start.
pub open spec fn instant_before(from: Stamp, occurrences: Seq<Occurrence>, i: int) -> Stamp {
    if i == 0 {
        from
    } else {
        schedule_table::instant(occurrences[i - 1])
    }
}

/// Whether each occurrence comes after the one before it, from a start up to `now`.
pub open spec fn rising(from: Stamp, now: Stamp, occurrences: Seq<Occurrence>) -> bool {
    forall|i: int|
        0 <= i < occurrences.len() ==> schedule_table::earlier(
            #[trigger] instant_before(from, occurrences, i),
            schedule_table::instant(occurrences[i]),
        ) && !schedule_table::earlier(now, schedule_table::instant(occurrences[i]))
}

/// Whether an occurrence of a job is the next after an instant.
#[verifier::opaque]
pub open spec fn comes_next(
    job: config::JobView,
    machine: Option<Seq<char>>,
    before: Stamp,
    o: Occurrence,
) -> bool {
    schedule_table::is_next(job, machine, before, o)
}

/// Whether the occurrences of a job follow one another: each is the next after the one before
/// it.
pub open spec fn follow(
    job: config::JobView,
    machine: Option<Seq<char>>,
    from: Stamp,
    occurrences: Seq<Occurrence>,
) -> bool {
    forall|i: int|
        0 <= i < occurrences.len() ==> comes_next(
            job,
            machine,
            #[trigger] instant_before(from, occurrences, i),
            occurrences[i],
        )
}

/// Whether a job has no further occurrence after `last` up to `now`: it will not fire again, or
/// its next occurrence comes after `now`.
pub open spec fn none_left(
    job: config::JobView,
    machine: Option<Seq<char>>,
    last: Stamp,
    now: Stamp,
) -> bool {
    ||| !schedule_table::will_fire(job, machine, last)
    ||| exists|o: Occurrence| #[trigger]
        comes_next(job, machine, last, o) && schedule_table::earlier(
            now,
            schedule_table::instant(o),
        )
}

/// The next occurrence of a job after `last`, where there is one up to `now`.
fn next_missed(job: &EffectiveJob, machine: &Option<String>, last: Stamp, now: Stamp) -> (r: Option<
    Occurrence,
>)
    requires
        last.nanos < 1000000000,
    ensures
        (match r {
            Some(o) => {
                &&& comes_next(job@, text::opt_view(*machine), last, o)
                &&& schedule_table::earlier(last, schedule_table::instant(o))
                &&& !schedule_table::earlier(now, schedule_table::instant(o))
                &&& o.scheduled_for.nanos < 1000000000
            },
            None => none_left(job@, text::opt_view(*machine), last, now),
        }),
{
    match arm(job, machine, last) {
        None => None,
        Some(o) => {
            assert(comes_next(job@, text::opt_view(*machine), last, o)) by {
                reveal(comes_next);
            }
            let (secs, nanos): (i64, u32) = (o.scheduled_for.secs, o.scheduled_for.nanos);
            assert(schedule_table::earlier(last, schedule_table::instant(o)));
            let is_past = secs < now.secs || (secs == now.secs && nanos <= now.nanos);
            if is_past {
                Some(o)
            } else {
                None
            }
        },
    }
}

/// The occurrences of a job that were missed since an instant, in order: all of them up to
/// `now`, within the lookback.
pub fn missed_occurrences(
    job: &EffectiveJob,
    machine: &Option<String>,
    since: Stamp,
    now: Stamp,
) -> (r: Vec<Occurrence>)
    requires
        since.valid(),
        now.valid(),
    ensures
        rising(lookback_start(since, now), now, r@),
        follow(job@, text::opt_view(*machine), lookback_start(since, now), r@),
        none_left(
            job@,
            text::opt_view(*machine),
            instant_before(lookback_start(since, now), r@, r@.len() as int),
            now,
        ),
{
    let limit = Stamp { secs: now.secs - LOOKBACK_SECS, nanos: now.nanos };
    let from = if since.secs < limit.secs || (since.secs == limit.secs && since.nanos
        < limit.nanos) {
        limit
    } else {
        since
    };
    let mut r: Vec<Occurrence> = Vec::new();
    let mut last = from;
    let mut next = next_missed(job, machine, last, now);
    while next.is_some()
        invariant
            now.nanos < 1000000000,
            last.nanos < 1000000000,
            last == instant_before(from, r@, r@.len() as int),
            rising(from, now, r@),
            follow(job@, text::opt_view(*machine), from, r@),
            (match next {
                Some(o) => {
                    &&& comes_next(job@, text::opt_view(*machine), last, o)
                    &&& schedule_table::earlier(last, schedule_table::instant(o))
                    &&& !schedule_table::earlier(now, schedule_table::instant(o))
                    &&& o.scheduled_for.nanos < 1000000000
                },
                None => none_left(job@, text::opt_view(*machine), last, now),
            }),
        decreases now.total() - last.total() + (if next is Some { 1int } else { 0 }),
    {
        if let Some(o) = next {
            let ghost before = r@;
            last = Stamp { secs: o.scheduled_for.secs, nanos: o.scheduled_for.nanos };
            r.push(o);
            proof {
                lemma_extended(job@, text::opt_view(*machine), from, now, before, r@);
            }
        }
        next = next_missed(job, machine, last, now);
    }
    r
}

proof fn lemma_extended(
    job: config::JobView,
    machine: Option<Seq<char>>,
    from: Stamp,
    now: Stamp,
    before: Seq<Occurrence>,
    after: Seq<Occurrence>,
)
    requires
        after.len() == before.len() + 1,
        after.drop_last() =~= before,
        rising(from, now, before),
        follow(job, machine, from, before),
        comes_next(job, machine, instant_before(from, before, before.len() as int), after.last()),
        schedule_table::earlier(
            instant_before(from, before, before.len() as int),
            schedule_table::instant(after.last()),
        ),
        !schedule_table::earlier(now, schedule_table::instant(after.last())),
    ensures
        rising(from, now, after),
        follow(job, machine, from, after),
{
    assert forall|i: int| 0 <= i < after.len() implies #[trigger] instant_before(from, after, i)
        == instant_before(from, before, i) by {
        if 0 < i {
            assert(after.drop_last()[i - 1] == before[i - 1]);
        }
    }
    assert forall|i: int| 0 <= i < before.len() implies #[trigger] after[i] == before[i] by {
        assert(after.drop_last()[i] == before[i]);
    }
}

/// What is made of a missed occurrence. It is named by its place among those that were missed.
#[derive(Debug, Clone, Copy, PartialEq, Eq, Structural)]
pub enum MissedAction {
    /// Record it as skipped.
    RecordSkipped(usize),
    /// Run it.
    Run(usize),
}

/// The status of a run that was missed and not made up for.
pub fn skipped_status() -> (r: &'static str)
    ensures
        r@ == "skipped"@,
{
    "skipped"
}

/// What is made of `n` missed occurrences: by default the last one is recorded as skipped, for
/// all of them; or the last one is run, or each of them.
pub open spec fn missed_plan(policy: MissedRunPolicy, n: usize) -> Seq<MissedAction> {
    if n == 0 {
        Seq::empty()
    } else {
        match policy {
            MissedRunPolicy::Skip => seq![MissedAction::RecordSkipped((n - 1) as usize)],
            MissedRunPolicy::RunOnce => seq![MissedAction::Run((n - 1) as usize)],
            MissedRunPolicy::RunAll => Seq::new(n as nat, |i: int| MissedAction::Run(i as usize)),
        }
    }
}

/// What is made of `n` missed occurrences.
pub fn plan_missed(policy: MissedRunPolicy, n: usize) -> (r: Vec<MissedAction>)
    ensures
        r@ == missed_plan(policy, n),
{
    let mut r: Vec<MissedAction> = Vec::new();
    if n == 0 {
        return r;
    }
    match policy {
        MissedRunPolicy::Skip => {
            r.push(MissedAction::RecordSkipped(n - 1));
        },
        MissedRunPolicy::RunOnce => {
            r.push(MissedAction::Run(n - 1));
        },
        MissedRunPolicy::RunAll => {
            let mut i: usize = 0;
            while i < n
                invariant
                    i <= n,
                    r@ == Seq::new(i as nat, |k: int| MissedAction::Run(k as usize)),
                decreases n - i,
            {
                r.push(MissedAction::Run(i));
                i += 1;
                assert(r@ =~= Seq::new(i as nat, |k: int| MissedAction::Run(k as usize)));
            }
        },
    }
    r
}

/// A missed occurrence lies between the start of the lookback and `now`.
pub proof fn lemma_missed_within_lookback(
    from: Stamp,
    now: Stamp,
    occurrences: Seq<Occurrence>,
    i: int,
)
    requires
        rising(from, now, occurrences),
        0 <= i < occurrences.len(),
    ensures
        schedule_table::earlier(from, schedule_table::instant(occurrences[i])),
        !schedule_table::earlier(now, schedule_table::instant(occurrences[i])),
    decreases i,
{
    let before = instant_before(from, occurrences, i);
    if i > 0 {
        lemma_missed_within_lookback(from, now, occurrences, i - 1);
    }
}

/// The missed occurrences are in order, so that none is run twice.
pub proof fn lemma_missed_in_order(
    from: Stamp,
    now: Stamp,
    occurrences: Seq<Occurrence>,
    i: int,
    j: int,
)
    requires
        rising(from, now, occurrences),
        0 <= i < j < occurrences.len(),
    ensures
        schedule_table::earlier(
            schedule_table::instant(occurrences[i]),
            schedule_table::instant(occurrences[j]),
        ),
    decreases j,
{
    let before = instant_before(from, occurrences, j);
    if i < j - 1 {
        lemma_missed_in_order(from, now, occurrences, i, j - 1);
    }
}

} // verus!
