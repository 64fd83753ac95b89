//! What holds of every occurrence that came due while the daemon was down.

use crate::config::{EffectiveJob, MissedRunPolicy};
use crate::firing;
use crate::missed;
use crate::missed::MissedAction;
use crate::occurrence::Occurrence;
use crate::schedule_table;
use crate::state::Stamp;
use crate::text;
use vstd::prelude::*;

verus! {

/// Under `run_all` each missed occurrence is run once, in order; under `run_once` only the last
/// one is, and under `skip` only the last one is recorded, as skipped.
pub proof fn lemma_policy_decides(
    policy: MissedRunPolicy,
    n: usize,
    r: Vec<MissedAction>,
)
    requires
        call_ensures(missed::plan_missed, (policy, n), r),
    ensures
        n == 0 ==> r@.len() == 0,
        policy == MissedRunPolicy::RunAll ==> r@.len() == n && forall|i: int|
            0 <= i < n ==> (#[trigger] r@[i] matches MissedAction::Run(k) && k == i),
        policy == MissedRunPolicy::RunOnce && n > 0 ==> r@.len() == 1 && (
        r@[0] matches MissedAction::Run(k) && k == n - 1),
        policy == MissedRunPolicy::Skip && n > 0 ==> r@.len() == 1 && (
        r@[0] matches MissedAction::RecordSkipped(k) && k == n - 1),
{
}

/// Under `run_all` one more missed occurrence adds one run, of itself, and changes nothing else.
pub proof fn lemma_run_all_grows(n: usize, a: Vec<MissedAction>, b: Vec<MissedAction>)
    requires
        n < usize::MAX,
        call_ensures(missed::plan_missed, (MissedRunPolicy::RunAll, n), a),
        call_ensures(missed::plan_missed, (MissedRunPolicy::RunAll, (n + 1) as usize), b),
    ensures
        b@ == a@.push(MissedAction::Run(n)),
{
    assert(b@ =~= a@.push(MissedAction::Run(n)));
}

/// Occurrences are looked for since the daemon was last heard of, but no longer ago than a day.
pub proof fn lemma_lookback_is_a_day(since: Stamp, now: Stamp)
    requires
        since.valid(),
        now.valid(),
    ensures
        ({
            let from = missed::lookback_start(since, now);
            let day = 86400 * 1000000000;
            &&& from.total() >= since.total()
            &&& from.total() >= now.total() - day
            &&& from.total() == since.total() || from.total() == now.total() - day
        }),
{
}

/// One instant is earlier than another exactly where fewer nanoseconds have passed.
pub proof fn lemma_earlier_counts_nanoseconds(a: Stamp, b: Stamp)
    requires
        a.nanos < 1000000000,
        b.nanos < 1000000000,
    ensures
        schedule_table::earlier(a, b) <==> a.secs * 1000000000 + a.nanos < b.secs * 1000000000
            + b.nanos,
        a.total() == a.secs * 1000000000 + a.nanos,
{
}

/// The occurrences that count as missed are all there are: the first is the job's next after the
/// start, each other one its next after the one before, none is later than now, and after the
/// last there is none up to now.
pub proof fn lemma_missed_are_all(
    job: &EffectiveJob,
    machine: &Option<String>,
    since: Stamp,
    now: Stamp,
    r: Vec<Occurrence>,
    next: Occurrence,
)
    requires
        since.valid(),
        now.valid(),
        call_ensures(missed::missed_occurrences, (job, machine, since, now), r),
    ensures
        ({
            let m = text::opt_view(*machine);
            let from = missed::lookback_start(since, now);
            let last = if r@.len() == 0 {
                from
            } else {
                schedule_table::instant(r@.last())
            };
            &&& r@.len() > 0 ==> schedule_table::is_next(job@, m, from, r@[0])
            &&& forall|i: int|
                0 < i < r@.len() ==> schedule_table::is_next(
                    job@,
                    m,
                    schedule_table::instant(r@[i - 1]),
                    #[trigger] r@[i],
                )
            &&& forall|i: int|
                0 <= i < r@.len() ==> schedule_table::instant(#[trigger] r@[i]).total()
                    <= now.total() && schedule_table::instant(r@[i]).total() > from.total()
            &&& schedule_table::will_fire(job@, m, last) && schedule_table::is_next(
                job@,
                m,
                last,
                next,
            ) ==> schedule_table::instant(next).total() > now.total()
        }),
{
    reveal(missed::comes_next);
    let m = text::opt_view(*machine);
    let from = missed::lookback_start(since, now);
    let n = r@.len() as int;
    let last = missed::instant_before(from, r@, n);
    assert forall|i: int| 0 < i < n implies schedule_table::is_next(
        job@,
        m,
        schedule_table::instant(r@[i - 1]),
        #[trigger] r@[i],
    ) by {
        assert(missed::comes_next(job@, m, missed::instant_before(from, r@, i), r@[i]));
    }
    if n > 0 {
        assert(missed::comes_next(job@, m, missed::instant_before(from, r@, 0), r@[0]));
    }
    assert forall|i: int| 0 <= i < n implies schedule_table::instant(#[trigger] r@[i]).total()
        <= now.total() && schedule_table::instant(r@[i]).total() > from.total() by {
        missed::lemma_missed_within_lookback(from, now, r@, i);
        assert(missed::comes_next(job@, m, missed::instant_before(from, r@, i), r@[i]));
    }
    if schedule_table::will_fire(job@, m, last) && schedule_table::is_next(job@, m, last, next) {
        let o = choose|o: Occurrence| #[trigger]
            missed::comes_next(job@, m, last, o) && schedule_table::earlier(
                now,
                schedule_table::instant(o),
            );
        firing::lemma_next_firing_unique(
            job@.schedule,
            schedule_table::zone_of(job@, m),
            last.secs as int,
            last.nanos as int,
            (o.scheduled_for.secs, o.scheduled_for.nanos),
            (next.scheduled_for.secs, next.scheduled_for.nanos),
        );
    }
}

} // verus!
