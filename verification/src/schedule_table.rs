//! The daemon's table: for each job that will fire, the occurrence that comes next.

use crate::config;
use crate::config::EffectiveJob;
use crate::config_hash;
use crate::config_hash::job_config_hash;
use crate::events;
use crate::events::utc;
use crate::firing;
use crate::firing::{kind, next_occurrence};
use crate::occurrence;
use crate::occurrence::Occurrence;
use crate::scheduler;
use crate::scheduler::resolve_timezone_from;
use crate::state::{JobStateRow, Stamp};
use crate::text;
use crate::zone;
use crate::zone::to_rfc3339;
use vstd::prelude::*;
use vstd::string::*;

verus! {

/// The occurrence of a job that comes next. The job is named by its place in the config.
#[derive(Debug)]
pub struct Armed {
    pub job: usize,
    pub next: Occurrence,
}

/// A run that is due: the job's place in the config, and the key of the occurrence.
#[derive(Debug)]
pub struct DueRun {
    pub job: usize,
    pub occurrence_key: String,
    pub scheduled_for: Stamp,
}

/// The table, in the order of the config.
#[derive(Debug)]
pub struct ScheduleTable {
    pub entries: Vec<Armed>,
}

/// The zone that a job's schedule is evaluated in.
pub open spec fn zone_of(job: config::JobView, machine: Option<Seq<char>>) -> Seq<char> {
    scheduler::zone_for(job.timezone, machine)
}

/// Whether a job will fire after an instant: it is enabled and has an id, and its schedule has
/// a next firing.
pub open spec fn will_fire(
    job: config::JobView,
    machine: Option<Seq<char>>,
    after: Stamp,
) -> bool {
    &&& job.enabled
    &&& job.id is Some
    &&& zone::representable(after.secs as int)
    &&& firing::has_next(job.schedule, zone_of(job, machine), after.secs as int, after.nanos as int)
}

/// Whether an occurrence is the next one of a job after an instant.
pub open spec fn is_next(
    job: config::JobView,
    machine: Option<Seq<char>>,
    after: Stamp,
    o: Occurrence,
) -> bool {
    let zone = zone_of(job, machine);
    let (secs, nanos) = (o.scheduled_for.secs, o.scheduled_for.nanos);
    &&& o.scheduled_for.zone@ == zone
    &&& zone::zone_known(zone)
    &&& zone::representable(secs as int)
    &&& nanos < 1000000000
    &&& firing::is_next_firing(
        job.schedule,
        zone,
        after.secs as int,
        after.nanos as int,
        (secs, nanos),
    )
    &&& o.key@ == occurrence::key_text(
        job.id->0,
        firing::kind_of(job.schedule),
        zone,
        secs as int,
        nanos as int,
    )
}

/// The instant of an occurrence.
pub open spec fn instant(o: Occurrence) -> Stamp {
    Stamp { secs: o.scheduled_for.secs, nanos: o.scheduled_for.nanos }
}

/// Whether an entry is due.
pub open spec fn is_due(e: Armed, now: Stamp) -> bool {
    instant(e.next).total() <= now.total()
}

/// Whether each entry comes before the next one in the config.
pub open spec fn in_config_order(entries: Seq<Armed>) -> bool {
    forall|i: int, j: int|
        0 <= i < j < entries.len() ==> (#[trigger] entries[i]).job < (#[trigger] entries[j]).job
}

/// Whether a job has an entry.
pub open spec fn has_entry(entries: Seq<Armed>, job: int) -> bool {
    exists|i: int| 0 <= i < entries.len() && (#[trigger] entries[i]).job == job
}

/// Whether the table can be used with `n` jobs: its entries are in the order of the config,
/// each for a job that is there, and each at an instant that a date can be given for.
pub open spec fn fits(entries: Seq<Armed>, n: nat) -> bool {
    &&& in_config_order(entries)
    &&& forall|i: int|
        0 <= i < entries.len() ==> (#[trigger] entries[i]).job < n && instant(
            entries[i].next,
        ).valid()
}

/// The runs that are due, in the order of the table.
pub open spec fn due_runs(entries: Seq<Armed>, now: Stamp) -> Seq<(usize, Seq<char>, Stamp)>
    decreases entries.len(),
{
    if entries.len() == 0 {
        Seq::empty()
    } else {
        let head = due_runs(entries.drop_last(), now);
        let e = entries.last();
        if is_due(e, now) {
            head.push((e.job, e.next.key@, instant(e.next)))
        } else {
            head
        }
    }
}

pub open spec fn run_views(v: Seq<DueRun>) -> Seq<(usize, Seq<char>, Stamp)> {
    v.map_values(|r: DueRun| (r.job, r.occurrence_key@, r.scheduled_for))
}

fn machine_of(machine: &Option<String>) -> (r: Option<&str>)
    ensures
        scheduler::opt_text(r) == text::opt_view(*machine),
{
    match machine {
        Some(s) => Some(s.as_str()),
        None => None,
    }
}

/// The next occurrence of a job after an instant, where it will fire.
pub fn arm(job: &EffectiveJob, machine: &Option<String>, after: Stamp) -> (r: Option<Occurrence>)
    requires
        after.nanos < 1000000000,
    ensures
        r is Some <==> will_fire(job@, text::opt_view(*machine), after),
        r matches Some(o) ==> is_next(job@, text::opt_view(*machine), after, o),
{
    if !job.enabled {
        return None;
    }
    match &job.id {
        None => None,
        Some(id) => {
            let zone = resolve_timezone_from(machine_of(&job.timezone), machine_of(machine));
            next_occurrence(id.as_str(), &job.schedule, zone.as_str(), after.secs, after.nanos)
        },
    }
}

/// Whether a text tells the instant of the next occurrence of a job, by the clocks of its zone.
pub open spec fn tells_next(
    job: config::JobView,
    machine: Option<Seq<char>>,
    after: Stamp,
    s: Seq<char>,
) -> bool {
    let zone = zone_of(job, machine);
    exists|o: Occurrence| #[trigger]
        is_next(job, machine, after, o) && s == zone::rfc3339_text(
            zone::reads(zone, o.scheduled_for.secs as int),
            o.scheduled_for.nanos as int,
            zone::zone_offset(zone, o.scheduled_for.secs as int),
        )
}

/// What `jobs list` shows of a job: whether it is active, how it is scheduled, and when it runs
/// next. A job without an id is not shown.
pub fn project(job: &EffectiveJob, machine: &Option<String>, now: Stamp) -> (r: Option<JobStateRow>)
    requires
        now.valid(),
    ensures
        (match r {
            None => job@.id is None,
            Some(row) => {
                &&& job@.id == Some(row.job_id@)
                &&& row.state@ == if job.enabled {
                    "active"@
                } else {
                    "disabled"@
                }
                &&& row.schedule_kind@ == firing::kind_of(job@.schedule).label()
                &&& row.config_hash@ == config_hash::config_hash(job@)
                &&& row.updated_at@ == events::utc_text(now)
                &&& row.next_run_at is Some <==> will_fire(job@, text::opt_view(*machine), now)
                &&& row.next_run_at matches Some(s) ==> tells_next(
                    job@,
                    text::opt_view(*machine),
                    now,
                    s@,
                )
            },
        }),
{
    match &job.id {
        None => None,
        Some(id) => {
            let next_run_at = match arm(job, machine, now) {
                Some(o) => {
                    let t = &o.scheduled_for;
                    Some(to_rfc3339(t.zone.as_str(), t.secs, t.nanos))
                },
                None => None,
            };
            Some(
                JobStateRow {
                    job_id: id.clone(),
                    state: if job.enabled {
                        "active".to_owned()
                    } else {
                        "disabled".to_owned()
                    },
                    schedule_kind: kind(&job.schedule).as_str().to_owned(),
                    next_run_at,
                    config_hash: job_config_hash(job),
                    updated_at: utc(now),
                },
            )
        },
    }
}

fn due(e: &Armed, now: Stamp) -> (r: bool)
    requires
        instant(e.next).valid(),
        now.valid(),
    ensures
        r == is_due(*e, now),
{
    e.next.scheduled_for.secs < now.secs || (e.next.scheduled_for.secs == now.secs
        && e.next.scheduled_for.nanos <= now.nanos)
}

impl ScheduleTable {
    /// Fills the table: one entry for each job that will fire.
    pub fn build(jobs: &Vec<EffectiveJob>, machine: &Option<String>, now: Stamp) -> (r:
        ScheduleTable)
        requires
            now.valid(),
        ensures
            fits(r.entries@, jobs@.len()),
            forall|i: int|
                0 <= i < r.entries@.len() ==> will_fire(
                    jobs@[(#[trigger] r.entries@[i]).job as int]@,
                    text::opt_view(*machine),
                    now,
                ) && is_next(
                    jobs@[r.entries@[i].job as int]@,
                    text::opt_view(*machine),
                    now,
                    r.entries@[i].next,
                ),
            forall|j: int|
                0 <= j < jobs@.len() && will_fire((#[trigger] jobs@[j])@, text::opt_view(*machine), now)
                    ==> has_entry(r.entries@, j),
    {
        let mut entries: Vec<Armed> = Vec::new();
        let mut k: usize = 0;
        while k < jobs.len()
            invariant
                k <= jobs@.len(),
                now.valid(),
                fits(entries@, k as nat),
                forall|i: int|
                    0 <= i < entries@.len() ==> will_fire(
                        jobs@[(#[trigger] entries@[i]).job as int]@,
                        text::opt_view(*machine),
                        now,
                    ) && is_next(
                        jobs@[entries@[i].job as int]@,
                        text::opt_view(*machine),
                        now,
                        entries@[i].next,
                    ),
                forall|j: int|
                    0 <= j < k && will_fire((#[trigger] jobs@[j])@, text::opt_view(*machine), now)
                        ==> has_entry(entries@, j),
            decreases jobs.len() - k,
        {
            let ghost before = entries@;
            match arm(&jobs[k], machine, now) {
                Some(next) => {
                    entries.push(Armed { job: k, next });
                    proof {
                        assert(entries@.drop_last() =~= before);
                        lemma_entries_kept(before, entries@, k as int);
                        assert(entries@[entries@.len() - 1].job == k);
                        assert(has_entry(entries@, k as int));
                    }
                },
                None => {},
            }
            k += 1;
        }
        ScheduleTable { entries }
    }

    /// The instant of the earliest occurrence in the table.
    pub fn next_wake(&self) -> (r: Option<Stamp>)
        ensures
            (match r {
                None => self.entries@.len() == 0,
                Some(t) => {
                    &&& exists|i: int|
                        0 <= i < self.entries@.len() && instant((#[trigger] self.entries@[i]).next)
                            == t
                    &&& forall|i: int|
                        0 <= i < self.entries@.len() ==> !earlier(
                            instant((#[trigger] self.entries@[i]).next),
                            t,
                        )
                },
            }),
    {
        if self.entries.len() == 0 {
            return None;
        }
        let first = &self.entries[0].next.scheduled_for;
        let mut best = Stamp { secs: first.secs, nanos: first.nanos };
        let mut k: usize = 1;
        assert(instant(self.entries@[0].next) == best);
        while k < self.entries.len()
            invariant
                1 <= k <= self.entries@.len(),
                exists|i: int|
                    0 <= i < self.entries@.len() && instant((#[trigger] self.entries@[i]).next)
                        == best,
                forall|i: int|
                    0 <= i < k ==> !earlier(instant((#[trigger] self.entries@[i]).next), best),
            decreases self.entries.len() - k,
        {
            let t = &self.entries[k].next.scheduled_for;
            if t.secs < best.secs || (t.secs == best.secs && t.nanos < best.nanos) {
                best = Stamp { secs: t.secs, nanos: t.nanos };
                assert(instant(self.entries@[k as int].next) == best);
            }
            k += 1;
        }
        Some(best)
    }

    /// Takes the runs that are due. An entry that is not due stays as it is; the job of one
    /// that is due is entered anew, with its next occurrence after `now`, where it has one.
    pub fn pop_due(&mut self, jobs: &Vec<EffectiveJob>, machine: &Option<String>, now: Stamp) -> (r:
        Vec<DueRun>)
        requires
            now.valid(),
            fits(old(self).entries@, jobs@.len()),
        ensures
            run_views(r@) == due_runs(old(self).entries@, now),
            fits(final(self).entries@, jobs@.len()),
            forall|i: int|
                0 <= i < final(self).entries@.len() ==> is_carried(
                    old(self).entries@,
                    jobs@,
                    text::opt_view(*machine),
                    now,
                    #[trigger] final(self).entries@[i],
                ),
            forall|i: int|
                0 <= i < old(self).entries@.len() && stays(
                    jobs@,
                    text::opt_view(*machine),
                    now,
                    #[trigger] old(self).entries@[i],
                ) ==> has_entry(final(self).entries@, old(self).entries@[i].job as int),
    {
        let ghost before = self.entries@;
        let mut taken: Vec<Armed> = Vec::new();
        std::mem::swap(&mut self.entries, &mut taken);
        let mut runs: Vec<DueRun> = Vec::new();
        let mut kept: Vec<Armed> = Vec::new();
        let n = taken.len();
        let mut k: usize = 0;
        assert(run_views(runs@) =~= due_runs(before.take(0), now));
        while k < n
            invariant
                k <= n,
                n == taken@.len(),
                taken@ == before,
                now.valid(),
                fits(before, jobs@.len()),
                run_views(runs@) == due_runs(before.take(k as int), now),
                fits(kept@, jobs@.len()),
                forall|i: int|
                    0 <= i < kept@.len() && k < n ==> (#[trigger] kept@[i]).job < before[k as int].job,
                forall|i: int|
                    0 <= i < kept@.len() ==> is_carried(
                        before,
                        jobs@,
                        text::opt_view(*machine),
                        now,
                        #[trigger] kept@[i],
                    ),
                forall|i: int|
                    0 <= i < k && stays(
                        jobs@,
                        text::opt_view(*machine),
                        now,
                        #[trigger] before[i],
                    ) ==> has_entry(kept@, before[i].job as int),
            decreases n - k,
        {
            let ghost so_far = kept@;
            let ghost runs_so_far = runs@;
            proof {
                assert(before.take(k as int + 1).drop_last() =~= before.take(k as int));
                assert(before.take(k as int + 1).last() == before[k as int]);
            }
            let e = &taken[k];
            assert(*e == before[k as int]);
            if due(e, now) {
                let at = Stamp { secs: e.next.scheduled_for.secs, nanos: e.next.scheduled_for.nanos };
                runs.push(
                    DueRun { job: e.job, occurrence_key: e.next.key.clone(), scheduled_for: at },
                );
                assert(run_views(runs@) =~= run_views(runs_so_far).push(
                    (e.job, e.next.key@, instant(e.next)),
                ));
                if let Some(next) = arm(&jobs[e.job], machine, now) {
                    kept.push(Armed { job: e.job, next });
                }
            } else {
                let at = &e.next.scheduled_for;
                let same_time = scheduler::ZonedTime {
                    secs: at.secs,
                    nanos: at.nanos,
                    zone: at.zone.clone(),
                };
                let next = Occurrence { scheduled_for: same_time, key: e.next.key.clone() };
                kept.push(Armed { job: e.job, next });
            }
            proof {
                if kept@.len() > so_far.len() {
                    let m = kept@.last();
                    assert(kept@[kept@.len() - 1] == m);
                    assert(is_carried(before, jobs@, text::opt_view(*machine), now, m)) by {
                        assert(before[k as int].job == m.job);
                    }
                    assert(kept@.drop_last() =~= so_far);
                    lemma_entries_kept(so_far, kept@, before[k as int].job as int);
                    assert(has_entry(kept@, before[k as int].job as int));
                }
            }
            k += 1;
        }
        assert(before.take(n as int) =~= before);
        self.entries = kept;
        runs
    }
}

/// Whether an instant is before another.
pub open spec fn earlier(a: Stamp, b: Stamp) -> bool {
    a.secs < b.secs || (a.secs == b.secs && a.nanos < b.nanos)
}

/// Whether two occurrences are the same.
pub open spec fn same_occurrence(a: Occurrence, b: Occurrence) -> bool {
    a.key@ == b.key@ && instant(a) == instant(b) && a.scheduled_for.zone@ == b.scheduled_for.zone@
}

/// Whether an entry is one that was there and is not due, or the next occurrence of a job whose
/// entry was due.
pub open spec fn is_carried(
    before: Seq<Armed>,
    jobs: Seq<EffectiveJob>,
    machine: Option<Seq<char>>,
    now: Stamp,
    e: Armed,
) -> bool {
    exists|i: int|
        0 <= i < before.len() && (#[trigger] before[i]).job == e.job && (if is_due(before[i], now) {
            will_fire(jobs[e.job as int]@, machine, now) && is_next(
                jobs[e.job as int]@,
                machine,
                now,
                e.next,
            )
        } else {
            same_occurrence(before[i].next, e.next)
        })
}

/// Whether the job of an entry still has one after the runs that are due were taken.
pub open spec fn stays(
    jobs: Seq<EffectiveJob>,
    machine: Option<Seq<char>>,
    now: Stamp,
    e: Armed,
) -> bool {
    is_due(e, now) ==> will_fire(jobs[e.job as int]@, machine, now)
}

proof fn lemma_entries_kept(before: Seq<Armed>, after: Seq<Armed>, job: int)
    requires
        after.len() == before.len() + 1,
        after.drop_last() == before,
        after.last().job == job,
    ensures
        forall|j: int| has_entry(before, j) ==> has_entry(after, j),
        has_entry(after, job),
{
    assert forall|j: int| has_entry(before, j) implies has_entry(after, j) by {
        let i = choose|i: int| 0 <= i < before.len() && (#[trigger] before[i]).job == j;
        assert(after[i] == after.drop_last()[i]);
        assert(after[i].job == j);
    }
    assert(after[after.len() - 1].job == job);
}

/// An occurrence that is worked out again, after a restart or a reload, has the same instant and
/// the same key, so that it can be claimed only once.
pub proof fn lemma_occurrence_is_rederived(
    job: config::JobView,
    machine: Option<Seq<char>>,
    after: Stamp,
    a: Occurrence,
    b: Occurrence,
)
    requires
        is_next(job, machine, after, a),
        is_next(job, machine, after, b),
    ensures
        same_occurrence(a, b),
{
    firing::lemma_next_firing_unique(
        job.schedule,
        zone_of(job, machine),
        after.secs as int,
        after.nanos as int,
        (a.scheduled_for.secs, a.scheduled_for.nanos),
        (b.scheduled_for.secs, b.scheduled_for.nanos),
    );
}

/// Only what is due is taken.
pub proof fn lemma_due_runs_are_due(entries: Seq<Armed>, now: Stamp, i: int)
    requires
        0 <= i < due_runs(entries, now).len(),
    ensures
        due_runs(entries, now)[i].2.total() <= now.total(),
    decreases entries.len(),
{
    let head = due_runs(entries.drop_last(), now);
    if i < head.len() {
        lemma_due_runs_are_due(entries.drop_last(), now, i);
    }
}

/// Nothing is due before the instant that the table wakes at.
pub proof fn lemma_nothing_due_before_wake(entries: Seq<Armed>, wake: Stamp, now: Stamp)
    requires
        forall|i: int| 0 <= i < entries.len() ==> instant((#[trigger] entries[i]).next).valid(),
        forall|i: int| 0 <= i < entries.len() ==> !earlier(instant((#[trigger] entries[i]).next), wake),
        wake.valid(),
        now.valid(),
        earlier(now, wake),
    ensures
        due_runs(entries, now).len() == 0,
    decreases entries.len(),
{
    if entries.len() > 0 {
        let head = entries.drop_last();
        assert forall|i: int| 0 <= i < head.len() implies instant(
            (#[trigger] head[i]).next,
        ).valid() && !earlier(instant(head[i].next), wake) by {
            assert(head[i] == entries[i]);
        }
        lemma_nothing_due_before_wake(head, wake, now);
        let e = entries[entries.len() - 1];
        assert(instant(e.next).valid());
        assert(!earlier(instant(e.next), wake));
    }
}

} // verus!
