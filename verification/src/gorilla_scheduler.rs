//! The gorilla scheduler: per-gorilla schedules, pausing, run bookkeeping, a
//! queue of upcoming runs ordered by time, and missed-run handling.
use vstd::prelude::*;

use crate::cron::CronExpression;
use crate::duration::Duration;
use crate::ids::GorillaId;
use crate::schedule::{
    CRON_HORIZON_MS, MAX_DELTA_NANOS, MAX_TIMESTAMP_MS, MIN_TIMESTAMP_MS, MINUTE_MS,
    MissedRunPolicy, Schedule, cron_matches, cron_search_fits, in_range, now_ms,
};
use crate::table::{lemma_table_insert, lemma_table_remove, lemma_table_set, Table};

verus! {

/// One hour in milliseconds.
pub const HOUR_MS: i64 = 3_600_000;

/// At most this many missed runs are reported on catch-up.
pub const MAX_MISSED_RUNS: usize = 100;

// ---------------------------------------------------------------------------
// Next run time
// ---------------------------------------------------------------------------

/// Computing the next run of `schedule` after `after` stays within the range
/// of representable instants.
pub open spec fn next_run_fits(schedule: Schedule, after: int) -> bool {
    &&& in_range(after)
    &&& match schedule {
        Schedule::Cron(_) => cron_search_fits(after),
        Schedule::Interval(d) => d.wf() && (d@ > MAX_DELTA_NANOS || in_range(
            after + d@ / 1_000_000,
        )),
        Schedule::OneShot(t) => in_range(t as int),
    }
}

/// What the next run after `after` is, as far as it is determined by the
/// schedule alone (for cron schedules, see [`cron_next_ok`]).
pub open spec fn interval_next(d: Duration, after: int) -> Option<i64> {
    if d@ > MAX_DELTA_NANOS {
        None
    } else {
        Some((after + d@ / 1_000_000) as i64)
    }
}

/// `r` is an acceptable next run of the cron expression `c` after `after`.
pub open spec fn cron_next_ok(c: CronExpression, after: int, r: Option<i64>) -> bool {
    r matches Some(t) ==> after < t < after + CRON_HORIZON_MS && cron_matches(c, t)
}

/// The next run described by `schedule` after `after`.
pub open spec fn next_run_ok(schedule: Schedule, after: int, r: Option<i64>) -> bool {
    match schedule {
        Schedule::Cron(c) => cron_next_ok(c, after, r),
        Schedule::Interval(d) => r == interval_next(d, after),
        Schedule::OneShot(t) => r == if t > after {
            Some(t)
        } else {
            None
        },
    }
}

/// The next run time of `schedule` after `after`: the next cron match, the
/// instant one interval later (none when the interval exceeds the longest
/// time delta), or the one-shot time if it is still ahead.
pub fn calculate_next_run(schedule: &Schedule, after: i64) -> (r: Option<i64>)
    requires
        next_run_fits(*schedule, after as int),
    ensures
        next_run_ok(*schedule, after as int, r),
        r matches Some(t) ==> t >= after && in_range(t as int),
{
    match schedule {
        Schedule::Cron(c) => {
            let r = c.next_after(after);
            match r {
                Some(t) => {
                    assert(after < t < after + CRON_HORIZON_MS);
                    assert(cron_search_fits(after as int));
                    assert(in_range(t as int));
                },
                None => {},
            }
            r
        },
        Schedule::Interval(d) => {
            let total = (d.secs as u128) * 1_000_000_000 + (d.nanos as u128);
            if total > MAX_DELTA_NANOS {
                None
            } else {
                let ms = d.as_millis();
                assert(ms <= 9_223_372_036_854_775_807u128);
                let t = after + ms as i64;
                assert(in_range(t as int));
                Some(t)
            }
        },
        Schedule::OneShot(t) => {
            if *t > after {
                Some(*t)
            } else {
                None
            }
        },
    }
}


/// Whether computing the next run of `schedule` after `after` stays in range.
pub fn next_run_fits_exec(schedule: &Schedule, after: i64) -> (b: bool)
    ensures
        b == next_run_fits(*schedule, after as int),
{
    if after < MIN_TIMESTAMP_MS || after > MAX_TIMESTAMP_MS {
        return false;
    }
    match schedule {
        Schedule::Cron(_) => after <= MAX_TIMESTAMP_MS - CRON_HORIZON_MS - MINUTE_MS,
        Schedule::Interval(d) => {
            if d.nanos >= 1_000_000_000 {
                return false;
            }
            let total = (d.secs as u128) * 1_000_000_000 + (d.nanos as u128);
            if total > MAX_DELTA_NANOS {
                true
            } else {
                let ms = d.as_millis();
                (ms as i128) + (after as i128) <= (MAX_TIMESTAMP_MS as i128)
            }
        },
        Schedule::OneShot(t) => MIN_TIMESTAMP_MS <= *t && *t <= MAX_TIMESTAMP_MS,
    }
}

/// The next run of `schedule` after `after`, or `None` when it would leave the
/// range of representable instants.
pub fn next_run_checked(schedule: &Schedule, after: i64) -> (r: Option<i64>)
    ensures
        next_run_fits(*schedule, after as int) ==> next_run_ok(*schedule, after as int, r),
        !next_run_fits(*schedule, after as int) ==> r.is_none(),
        r matches Some(t) ==> t >= after && in_range(t as int),
{
    if next_run_fits_exec(schedule, after) {
        calculate_next_run(schedule, after)
    } else {
        None
    }
}

// ---------------------------------------------------------------------------
// Scheduler state
// ---------------------------------------------------------------------------

/// Per-gorilla scheduling state.
#[derive(Debug, Clone)]
pub struct SchedulerEntry {
    /// The parsed schedule.
    pub schedule: Schedule,
    /// Whether this gorilla is paused.
    pub paused: bool,
    /// When the gorilla last ran.
    pub last_run: Option<i64>,
    /// When the gorilla is next scheduled to run.
    pub next_run: Option<i64>,
    /// Total number of runs.
    pub run_count: u64,
    /// Missed run handling policy.
    pub missed_policy: MissedRunPolicy,
    /// Whether this is a one-shot schedule (no reschedule after running).
    pub one_shot: bool,
}

/// Why a scheduler operation failed.
#[derive(Debug, Clone, Copy, PartialEq, Eq, Structural)]
pub enum SchedulerError {
    /// The gorilla is not registered with the scheduler.
    NotScheduled(GorillaId),
}

/// `q` is ordered by time, earliest first.
pub open spec fn sorted_by_time(q: Seq<(u128, i64)>) -> bool {
    forall|i: int, j: int| 0 <= i < j < q.len() ==> q[i].1 <= q[j].1
}

/// The queue `after` is `before` with `(k, t)` placed after every entry due
/// no later than `t` and before every later one.
pub open spec fn inserted_in_order(before: Seq<(u128, i64)>, after: Seq<(u128, i64)>, k: u128, t: i64) -> bool {
    exists|p: int|
        0 <= p <= before.len() && after == before.insert(p, (k, t)) && (forall|j: int|
            0 <= j < p ==> before[j].1 <= t) && (forall|j: int| p <= j < before.len() ==> before[j].1 > t)
}

/// Cron-based scheduler for gorilla runs.
pub struct GorillaScheduler {
    entries: Table<SchedulerEntry>,
    queue: Vec<(u128, i64)>,
}

impl GorillaScheduler {
    /// The per-gorilla entries, keyed by gorilla id.
    pub closed spec fn table(&self) -> Table<SchedulerEntry> {
        self.entries
    }

    /// Upcoming runs as (gorilla id, time), earliest first; entries of
    /// gorillas that were unregistered or paused are dropped lazily.
    pub closed spec fn queue_seq(&self) -> Seq<(u128, i64)> {
        self.queue@
    }

    /// The table is well formed and the queue ordered by time.
    pub closed spec fn wf(&self) -> bool {
        &&& self.entries.wf()
        &&& sorted_by_time(self.queue@)
        &&& forall|i: int| 0 <= i < self.queue@.len() ==> in_range(#[trigger] self.queue@[i].1 as int)
    }

    /// The gorilla `k` is registered and not paused.
    pub open spec fn live(&self, k: u128) -> bool {
        self.table().has(k) && !self.table().at(k).paused
    }

    /// An empty scheduler.
    pub fn new() -> (s: GorillaScheduler)
        ensures
            s.wf(),
            s.table().len() == 0,
            s.queue_seq() == Seq::<(u128, i64)>::empty(),
    {
        GorillaScheduler { entries: Table::new(), queue: Vec::new() }
    }

    /// Put `(k, t)` into the queue after all entries due no later than `t`.
    fn enqueue(&mut self, k: u128, t: i64)
        requires
            old(self).wf(),
            in_range(t as int),
        ensures
            final(self).wf(),
            final(self).table() == old(self).table(),
            inserted_in_order(old(self).queue_seq(), final(self).queue_seq(), k, t),
    {
        let mut p: usize = 0;
        while p < self.queue.len() && self.queue[p].1 <= t
            invariant
                p <= self.queue@.len(),
                forall|j: int| 0 <= j < p ==> self.queue@[j].1 <= t,
            decreases self.queue@.len() - p,
        {
            p = p + 1;
        }
        let ghost before = self.queue@;
        proof {
            assert forall|j: int| p <= j < before.len() implies before[j].1 > t by {
                assert(before[p as int].1 > t);
                assert(sorted_by_time(before));
            }
        }
        self.queue.insert(p, (k, t));
        proof {
            let after = self.queue@;
            assert(after == before.insert(p as int, (k, t)));
            assert forall|i: int, j: int| 0 <= i < j < after.len() implies after[i].1 <= after[j].1 by {
                if i < p && j < p {
                    assert(after[i] == before[i] && after[j] == before[j]);
                } else if i < p && j == p {
                    assert(after[i] == before[i]);
                } else if i < p {
                    assert(after[i] == before[i] && after[j] == before[j - 1]);
                } else if i == p {
                    assert(after[j] == before[j - 1]);
                } else {
                    assert(after[i] == before[i - 1] && after[j] == before[j - 1]);
                }
            }
            assert(inserted_in_order(before, after, k, t));
            assert forall|i: int| 0 <= i < after.len() implies in_range(#[trigger] after[i].1 as int) by {
                if i < p {
                    assert(after[i] == before[i]);
                } else if i > p {
                    assert(after[i] == before[i - 1]);
                }
            }
        }
    }

    /// Register a gorilla with a schedule at time `now`: its next run is computed
    /// from `now` and queued; an earlier registration of the same gorilla is replaced.
    pub fn register_at(
        &mut self,
        gorilla_id: GorillaId,
        schedule: Schedule,
        missed_policy: MissedRunPolicy,
        now: i64,
    ) -> (r: Result<(), SchedulerError>)
        requires
            old(self).wf(),
        ensures
            final(self).wf(),
            r is Ok,
            final(self).table().has(gorilla_id.0),
            ({
                let e = final(self).table().at(gorilla_id.0);
                &&& e.schedule == schedule
                &&& !e.paused
                &&& e.last_run.is_none()
                &&& e.run_count == 0
                &&& e.missed_policy == missed_policy
                &&& e.one_shot == (schedule is OneShot)
                &&& next_run_fits(schedule, now as int) ==> next_run_ok(schedule, now as int, e.next_run)
                &&& !next_run_fits(schedule, now as int) ==> e.next_run.is_none()
                &&& match e.next_run {
                    Some(t) => inserted_in_order(old(self).queue_seq(), final(self).queue_seq(), gorilla_id.0, t),
                    None => final(self).queue_seq() == old(self).queue_seq(),
                }
            }),
            forall|k: u128| k != gorilla_id.0 ==> (final(self).table().has(k) == old(self).table().has(k)),
            forall|k: u128| k != gorilla_id.0 && old(self).table().has(k) ==> final(self).table().at(k) == old(self).table().at(k),
    {
        let one_shot = match &schedule {
            Schedule::OneShot(_) => true,
            _ => false,
        };
        let next_run = next_run_checked(&schedule, now);
        let entry = SchedulerEntry {
            schedule,
            paused: false,
            last_run: None,
            next_run,
            run_count: 0,
            missed_policy,
            one_shot,
        };
        let ghost old_table = self.entries;
        self.entries.insert(gorilla_id.0, entry);
        proof {
            lemma_table_insert(old_table, self.entries, gorilla_id.0, entry);
        }
        match next_run {
            Some(t) => {
                self.enqueue(gorilla_id.0, t);
            },
            None => {},
        }
        Ok(())
    }

    /// Register a gorilla with a schedule, computing its next run from the current time.
    pub fn register(
        &mut self,
        gorilla_id: GorillaId,
        schedule: Schedule,
        missed_policy: MissedRunPolicy,
    ) -> (r: Result<(), SchedulerError>)
        requires
            old(self).wf(),
        ensures
            final(self).wf(),
            r is Ok,
            final(self).table().has(gorilla_id.0),
            final(self).table().at(gorilla_id.0).schedule == schedule,
            !final(self).table().at(gorilla_id.0).paused,
            final(self).table().at(gorilla_id.0).run_count == 0,
    {
        let now = now_ms();
        self.register_at(gorilla_id, schedule, missed_policy, now)
    }

    /// Remove a gorilla from the scheduler; its queued runs are dropped lazily.
    pub fn unregister(&mut self, gorilla_id: &GorillaId)
        requires
            old(self).wf(),
        ensures
            final(self).wf(),
            !final(self).table().has(gorilla_id.0),
            forall|k: u128| k != gorilla_id.0 ==> (final(self).table().has(k) == old(self).table().has(k)),
            forall|k: u128| k != gorilla_id.0 && old(self).table().has(k) ==> final(self).table().at(k) == old(self).table().at(k),
            final(self).queue_seq() == old(self).queue_seq(),
    {
        let ghost old_table = self.entries;
        let r = self.entries.remove(gorilla_id.0);
        proof {
            lemma_table_remove(old_table, self.entries, gorilla_id.0);
        }
    }

    /// Pause a gorilla's schedule.
    pub fn pause(&mut self, gorilla_id: &GorillaId) -> (r: Result<(), SchedulerError>)
        requires
            old(self).wf(),
        ensures
            final(self).wf(),
            final(self).queue_seq() == old(self).queue_seq(),
            r is Err <==> !old(self).table().has(gorilla_id.0),
            r is Err ==> r == Err::<(), SchedulerError>(SchedulerError::NotScheduled(*gorilla_id)) && final(self).table() == old(self).table(),
            r is Ok ==> final(self).table().has(gorilla_id.0) && final(self).table().at(gorilla_id.0) == (SchedulerEntry {
                paused: true,
                ..old(self).table().at(gorilla_id.0)
            }),
            forall|k: u128| k != gorilla_id.0 ==> (final(self).table().has(k) == old(self).table().has(k)),
            forall|k: u128| k != gorilla_id.0 && old(self).table().has(k) ==> final(self).table().at(k) == old(self).table().at(k),
    {
        match self.entries.find(gorilla_id.0) {
            None => Err(SchedulerError::NotScheduled(*gorilla_id)),
            Some(i) => {
                let ghost old_table = self.entries;
                proof {
                    old_table.lemma_wf();
                }
                self.entries.val_mut(i).paused = true;
                proof {
                    Table::lemma_wf_vals(old_table, self.entries);
                    lemma_table_set(old_table, self.entries, i as int, self.entries.val_seq()[i as int]);
                }
                Ok(())
            },
        }
    }
}

/// Every key other than `k` keeps its presence and its value.
pub open spec fn others_unchanged<V>(before: Table<V>, after: Table<V>, k: u128) -> bool {
    &&& forall|j: u128| j != k ==> (after.has(j) == before.has(j))
    &&& forall|j: u128| j != k && before.has(j) ==> after.at(j) == before.at(j)
}

/// The instant from which the `i`-th caught-up run is computed.
pub open spec fn catch_up_prev(last: int, r: Seq<i64>, i: int) -> int {
    if i == 0 {
        last
    } else {
        r[i - 1] as int
    }
}

/// The `i`-th caught-up run follows from the one before it and is before `now`.
pub open spec fn catch_up_step(sch: Schedule, last: int, now: int, r: Seq<i64>, i: int) -> bool {
    &&& next_run_fits(sch, catch_up_prev(last, r, i))
    &&& next_run_ok(sch, catch_up_prev(last, r, i), Some(r[i]))
    &&& r[i] < now
}

/// Catching up stops at `from`: no further run can be computed, or the next
/// one is not before `now`.
pub open spec fn catch_up_stops(sch: Schedule, from: int, now: int) -> bool {
    !next_run_fits(sch, from) || exists|x: Option<i64>|
        next_run_ok(sch, from, x) && (x is None || x->0 >= now)
}

/// `r` is the list of runs missed since `last`, caught up one after another
/// until `now`, at most [`MAX_MISSED_RUNS`] of them.
pub open spec fn catch_up_ok(sch: Schedule, last: int, now: int, r: Seq<i64>) -> bool {
    &&& r.len() <= MAX_MISSED_RUNS
    &&& forall|i: int| 0 <= i < r.len() ==> #[trigger] catch_up_step(sch, last, now, r, i)
    &&& r.len() < MAX_MISSED_RUNS ==> catch_up_stops(sch, catch_up_prev(last, r, r.len() as int), now)
}

/// The instant from which missed runs of `e` are counted at `now`.
pub open spec fn missed_from(e: SchedulerEntry, now: int) -> int {
    match e.last_run {
        Some(l) => l as int,
        None => now - HOUR_MS,
    }
}

/// `r` is what the missed-run policy of `e` reports at `now`.
pub open spec fn missed_runs_ok(e: SchedulerEntry, now: int, r: Seq<i64>) -> bool {
    let last = missed_from(e, now);
    if e.paused {
        r.len() == 0
    } else {
        match e.missed_policy {
            MissedRunPolicy::Skip => r.len() == 0,
            MissedRunPolicy::RunOnce => {
                &&& r.len() <= 1
                &&& r.len() == 1 ==> r[0] == now && next_run_fits(e.schedule, last) && exists|t: i64|
                    t < now && next_run_ok(e.schedule, last, Some(t))
                &&& r.len() == 0 ==> catch_up_stops(e.schedule, last, now)
            },
            MissedRunPolicy::CatchUp => catch_up_ok(e.schedule, last, now, r),
        }
    }
}

/// `r` is what the missed-run policy of `e` reports when the clock reads
/// `now`: nothing for a clock less than an hour after the earliest
/// representable instant.
pub open spec fn missed_at_clock(e: SchedulerEntry, now: i64, r: Seq<i64>) -> bool {
    &&& in_range(now as int)
    &&& if now < MIN_TIMESTAMP_MS + HOUR_MS {
        r.len() == 0
    } else {
        missed_runs_ok(e, now as int, r)
    }
}

impl GorillaScheduler {
    /// Resume a paused gorilla at time `now`: its next run is recomputed from
    /// `now` and queued.
    pub fn resume_at(&mut self, gorilla_id: &GorillaId, now: i64) -> (r: Result<(), SchedulerError>)
        requires
            old(self).wf(),
        ensures
            final(self).wf(),
            r is Err <==> !old(self).table().has(gorilla_id.0),
            r is Err ==> r == Err::<(), SchedulerError>(SchedulerError::NotScheduled(*gorilla_id))
                && final(self).table() == old(self).table() && final(self).queue_seq() == old(self).queue_seq(),
            r is Ok ==> final(self).table().has(gorilla_id.0) && ({
                let before = old(self).table().at(gorilla_id.0);
                let e = final(self).table().at(gorilla_id.0);
                &&& e == SchedulerEntry { paused: false, next_run: e.next_run, ..before }
                &&& next_run_fits(before.schedule, now as int) ==> next_run_ok(before.schedule, now as int, e.next_run)
                &&& !next_run_fits(before.schedule, now as int) ==> e.next_run.is_none()
                &&& match e.next_run {
                    Some(t) => inserted_in_order(old(self).queue_seq(), final(self).queue_seq(), gorilla_id.0, t),
                    None => final(self).queue_seq() == old(self).queue_seq(),
                }
            }),
            others_unchanged(old(self).table(), final(self).table(), gorilla_id.0),
    {
        match self.entries.find(gorilla_id.0) {
            None => Err(SchedulerError::NotScheduled(*gorilla_id)),
            Some(i) => {
                proof {
                    self.entries.lemma_wf();
                }
                let ghost t0 = self.entries;
                let next = next_run_checked(&self.entries.val_at(i).schedule, now);
                self.entries.val_mut(i).paused = false;
                proof {
                    Table::lemma_wf_vals(t0, self.entries);
                }
                let ghost t1 = self.entries;
                self.entries.val_mut(i).next_run = next;
                proof {
                    Table::lemma_wf_vals(t1, self.entries);
                    t0.lemma_wf();
                    assert(self.entries.val_seq() =~= t0.val_seq().update(i as int, self.entries.val_seq()[i as int]));
                    lemma_table_set(t0, self.entries, i as int, self.entries.val_seq()[i as int]);
                }
                match next {
                    Some(t) => {
                        self.enqueue(gorilla_id.0, t);
                    },
                    None => {},
                }
                Ok(())
            },
        }
    }

    /// Resume a paused gorilla, recomputing its next run from the current time.
    pub fn resume(&mut self, gorilla_id: &GorillaId) -> (r: Result<(), SchedulerError>)
        requires
            old(self).wf(),
        ensures
            final(self).wf(),
            r is Err <==> !old(self).table().has(gorilla_id.0),
            r is Ok ==> final(self).table().has(gorilla_id.0) && !final(self).table().at(gorilla_id.0).paused,
    {
        let now = now_ms();
        self.resume_at(gorilla_id, now)
    }

    /// Record at time `now` that a gorilla finished a run, and schedule its next
    /// run (a one-shot gorilla gets none).
    pub fn record_run_at(&mut self, gorilla_id: &GorillaId, now: i64) -> (r: Result<(), SchedulerError>)
        requires
            old(self).wf(),
            old(self).table().has(gorilla_id.0) ==> old(self).table().at(gorilla_id.0).run_count < u64::MAX,
        ensures
            final(self).wf(),
            r is Err <==> !old(self).table().has(gorilla_id.0),
            r is Err ==> r == Err::<(), SchedulerError>(SchedulerError::NotScheduled(*gorilla_id))
                && final(self).table() == old(self).table() && final(self).queue_seq() == old(self).queue_seq(),
            r is Ok ==> final(self).table().has(gorilla_id.0) && ({
                let before = old(self).table().at(gorilla_id.0);
                let e = final(self).table().at(gorilla_id.0);
                &&& e == SchedulerEntry {
                    last_run: Some(now),
                    run_count: (before.run_count + 1) as u64,
                    next_run: e.next_run,
                    ..before
                }
                &&& before.one_shot ==> e.next_run.is_none()
                &&& !before.one_shot && next_run_fits(before.schedule, now as int) ==> next_run_ok(before.schedule, now as int, e.next_run)
                &&& !before.one_shot && !next_run_fits(before.schedule, now as int) ==> e.next_run.is_none()
                &&& match e.next_run {
                    Some(t) => inserted_in_order(old(self).queue_seq(), final(self).queue_seq(), gorilla_id.0, t),
                    None => final(self).queue_seq() == old(self).queue_seq(),
                }
            }),
            others_unchanged(old(self).table(), final(self).table(), gorilla_id.0),
    {
        match self.entries.find(gorilla_id.0) {
            None => Err(SchedulerError::NotScheduled(*gorilla_id)),
            Some(i) => {
                proof {
                    self.entries.lemma_wf();
                }
                let ghost t0 = self.entries;
                let one_shot = self.entries.val_at(i).one_shot;
                let count = self.entries.val_at(i).run_count;
                let next = if one_shot {
                    None
                } else {
                    next_run_checked(&self.entries.val_at(i).schedule, now)
                };
                self.entries.val_mut(i).last_run = Some(now);
                proof {
                    Table::lemma_wf_vals(t0, self.entries);
                }
                let ghost t1 = self.entries;
                self.entries.val_mut(i).run_count = count + 1;
                proof {
                    Table::lemma_wf_vals(t1, self.entries);
                }
                let ghost t2 = self.entries;
                self.entries.val_mut(i).next_run = next;
                proof {
                    Table::lemma_wf_vals(t2, self.entries);
                    t0.lemma_wf();
                    assert(self.entries.val_seq() =~= t0.val_seq().update(i as int, self.entries.val_seq()[i as int]));
                    lemma_table_set(t0, self.entries, i as int, self.entries.val_seq()[i as int]);
                }
                match next {
                    Some(t) => {
                        self.enqueue(gorilla_id.0, t);
                    },
                    None => {},
                }
                Ok(())
            },
        }
    }

    /// Record that a gorilla finished a run now, and schedule its next run.
    pub fn record_run(&mut self, gorilla_id: &GorillaId) -> (r: Result<(), SchedulerError>)
        requires
            old(self).wf(),
            old(self).table().has(gorilla_id.0) ==> old(self).table().at(gorilla_id.0).run_count < u64::MAX,
        ensures
            final(self).wf(),
            r is Err <==> !old(self).table().has(gorilla_id.0),
            r is Ok ==> final(self).table().has(gorilla_id.0) && final(self).table().at(gorilla_id.0).run_count
                == old(self).table().at(gorilla_id.0).run_count + 1,
    {
        let now = now_ms();
        self.record_run_at(gorilla_id, now)
    }

    /// The next gorilla due at `now`: queued runs are taken earliest first;
    /// those of gorillas that were unregistered or paused are dropped.
    pub fn next_due_at(&mut self, now: i64) -> (r: Option<GorillaId>)
        requires
            old(self).wf(),
        ensures
            final(self).wf(),
            Self::due_step(*old(self), *final(self), now as int, r),
    {
        let ghost q0 = self.queue@;
        let ghost mut n: int = 0;
        loop
            invariant
                self.wf(),
                self.table() == old(self).table(),
                q0 == old(self).queue_seq(),
                0 <= n <= q0.len(),
                self.queue@ == q0.skip(n),
                forall|j: int| 0 <= j < n ==> q0[j].1 <= now,
                forall|j: int| 0 <= j < n ==> !old(self).live(#[trigger] q0[j].0),
            decreases self.queue@.len(),
        {
            if self.queue.len() == 0 {
                return None;
            }
            let (k, t) = self.queue[0];
            assert(q0.skip(n)[0] == q0[n]);
            if t > now {
                return None;
            }
            let ghost before = self.queue@;
            self.queue.remove(0);
            proof {
                assert(self.queue@ =~= q0.skip(n + 1));
                assert forall|i: int, j: int| 0 <= i < j < self.queue@.len() implies self.queue@[i].1
                    <= self.queue@[j].1 by {
                    assert(self.queue@[i] == before[i + 1] && self.queue@[j] == before[j + 1]);
                }
                assert forall|i: int| 0 <= i < self.queue@.len() implies in_range(
                    #[trigger] self.queue@[i].1 as int,
                ) by {
                    assert(self.queue@[i] == before[i + 1]);
                }
                n = n + 1;
            }
            match self.entries.get(k) {
                Some(e) => {
                    if !e.paused {
                        return Some(GorillaId(k));
                    }
                },
                None => {},
            }
        }
    }

    /// The next gorilla due now, skipping unregistered and paused ones.
    pub fn next_due(&mut self) -> (r: Option<GorillaId>)
        requires
            old(self).wf(),
        ensures
            final(self).wf(),
            exists|now: i64| in_range(now as int) && #[trigger] Self::due_step(*old(self), *final(self), now as int, r),
    {
        let now = now_ms();
        let r = self.next_due_at(now);
        assert(in_range(now as int) && Self::due_step(*old(self), *self, now as int, r));
        r
    }

    /// One step of taking the next due gorilla at `now`, from `before` to
    /// `after` with result `r`: the first `n` queued runs, all due, left the
    /// queue; the gorillas of those before the last were unregistered or
    /// paused; `r` is the gorilla of the last one if it is live, and with
    /// no result the queue is empty or its head not yet due.
    pub open spec fn due_step(before: Self, after: Self, now: int, r: Option<GorillaId>) -> bool {
        &&& after.table() == before.table()
        &&& exists|n: int| {
            &&& 0 <= n <= before.queue_seq().len()
            &&& after.queue_seq() == before.queue_seq().skip(n)
            &&& forall|j: int| 0 <= j < n ==> before.queue_seq()[j].1 <= now
            &&& forall|j: int| 0 <= j < n && (j < n - 1 || r is None) ==> !before.live(
                #[trigger] before.queue_seq()[j].0,
            )
            &&& match r {
                Some(id) => n > 0 && before.queue_seq()[n - 1].0 == id.0 && before.live(id.0),
                None => after.queue_seq().len() == 0 || after.queue_seq()[0].1 > now,
            }
        }
    }

    /// Nanoseconds from `now` until the head of the queue is due (zero when
    /// it already is).
    pub open spec fn wait_nanos(&self, now: i64) -> int {
        if self.queue_seq()[0].1 <= now {
            0
        } else {
            (self.queue_seq()[0].1 - now) * 1_000_000
        }
    }

    /// Time from `now` until the earliest queued run (zero when it is already due).
    pub fn time_until_next_at(&self, now: i64) -> (r: Option<Duration>)
        requires
            self.wf(),
        ensures
            self.queue_seq().len() == 0 ==> r.is_none(),
            self.queue_seq().len() > 0 ==> (r matches Some(d) && d.wf() && d@ == self.wait_nanos(now)),
    {
        if self.queue.len() == 0 {
            return None;
        }
        let t = self.queue[0].1;
        assert(in_range(self.queue@[0].1 as int));
        let diff: i128 = (t as i128) - (now as i128);
        if diff <= 0 {
            Some(Duration::from_millis(0))
        } else {
            assert(diff <= u64::MAX);
            Some(Duration::from_millis(diff as u64))
        }
    }

    /// Time until the earliest queued run, from the current time.
    pub fn time_until_next(&self) -> (r: Option<Duration>)
        requires
            self.wf(),
        ensures
            self.queue_seq().len() == 0 ==> r.is_none(),
            self.queue_seq().len() > 0 ==> exists|now: i64| in_range(now as int) && (r matches Some(d) && d.wf() && d@
                == #[trigger] self.wait_nanos(now)),
    {
        let now = now_ms();
        let r = self.time_until_next_at(now);
        assert(self.queue_seq().len() > 0 ==> in_range(now as int) && self.wait_nanos(now) == self.wait_nanos(now));
        r
    }

    /// The scheduling state of a gorilla.
    pub fn get_entry(&self, gorilla_id: &GorillaId) -> (r: Option<&SchedulerEntry>)
        requires
            self.wf(),
        ensures
            match r {
                Some(e) => self.table().has(gorilla_id.0) && *e == self.table().at(gorilla_id.0),
                None => !self.table().has(gorilla_id.0),
            },
    {
        self.entries.get(gorilla_id.0)
    }

    /// The registered gorillas, in registration order.
    pub fn list_entries(&self) -> (r: Vec<GorillaId>)
        requires
            self.wf(),
        ensures
            r@.len() == self.table().len(),
            forall|i: int| 0 <= i < r@.len() ==> r@[i].0 == #[trigger] self.table().key_seq()[i],
    {
        let mut out: Vec<GorillaId> = Vec::new();
        let mut i: usize = 0;
        let n = self.entries.size();
        while i < n
            invariant
                self.wf(),
                n == self.table().len(),
                i <= n,
                out@.len() == i,
                forall|j: int| 0 <= j < i ==> out@[j].0 == #[trigger] self.table().key_seq()[j],
            decreases n - i,
        {
            out.push(GorillaId(self.entries.key_at(i)));
            i = i + 1;
        }
        out
    }

    /// The runs a gorilla missed before `now`, according to its policy:
    /// `Skip` reports none, `RunOnce` reports `now` once if any run was due
    /// since the last run, and `CatchUp` reports each missed run time (at most
    /// [`MAX_MISSED_RUNS`]). A gorilla that never ran counts from one hour ago.
    pub fn handle_missed_runs_at(&self, gorilla_id: &GorillaId, now: i64) -> (r: Vec<i64>)
        requires
            self.wf(),
            in_range(now as int),
            in_range(now - HOUR_MS),
        ensures
            !self.table().has(gorilla_id.0) ==> r@.len() == 0,
            self.table().has(gorilla_id.0) ==> missed_runs_ok(self.table().at(gorilla_id.0), now as int, r@),
    {
        let e = match self.entries.get(gorilla_id.0) {
            None => {
                return Vec::new();
            },
            Some(e) => e,
        };
        if e.paused {
            return Vec::new();
        }
        let last: i64 = match e.last_run {
            Some(l) => l,
            None => now - HOUR_MS,
        };
        let mut missed: Vec<i64> = Vec::new();
        match e.missed_policy {
            MissedRunPolicy::Skip => {},
            MissedRunPolicy::CatchUp => {
                let mut check = last;
                loop
                    invariant_except_break
                        missed@.len() < MAX_MISSED_RUNS,
                    invariant
                        missed@.len() <= MAX_MISSED_RUNS,
                        check == catch_up_prev(last as int, missed@, missed@.len() as int),
                        forall|i: int| 0 <= i < missed@.len() ==> #[trigger] catch_up_step(e.schedule, last as int, now as int, missed@, i),
                    ensures
                        catch_up_ok(e.schedule, last as int, now as int, missed@),
                    decreases MAX_MISSED_RUNS - missed@.len(),
                {
                    let next = next_run_checked(&e.schedule, check);
                    proof {
                        if next_run_fits(e.schedule, check as int) {
                            assert(next_run_ok(e.schedule, check as int, next));
                        }
                    }
                    match next {
                        None => {
                            assert(catch_up_stops(e.schedule, check as int, now as int));
                            break;
                        },
                        Some(t) => {
                            if t >= now {
                                assert(catch_up_stops(e.schedule, check as int, now as int));
                                break;
                            }
                            let ghost before = missed@;
                            missed.push(t);
                            proof {
                                assert forall|i: int| 0 <= i < missed@.len() implies #[trigger] catch_up_step(e.schedule, last as int, now as int, missed@, i) by {
                                    if i < before.len() {
                                        assert(catch_up_step(e.schedule, last as int, now as int, before, i));
                                        assert(missed@[i] == before[i]);
                                        if i > 0 {
                                            assert(missed@[i - 1] == before[i - 1]);
                                        }
                                    }
                                }
                            }
                            check = t;
                            if missed.len() >= MAX_MISSED_RUNS {
                                break;
                            }
                        },
                    }
                }
            },
            MissedRunPolicy::RunOnce => {
                let next = next_run_checked(&e.schedule, last);
                proof {
                    if next_run_fits(e.schedule, last as int) {
                        assert(next_run_ok(e.schedule, last as int, next));
                    }
                }
                match next {
                    Some(t) => {
                        if t < now {
                            missed.push(now);
                            assert(missed@ =~= seq![now]);
                            assert(next_run_ok(e.schedule, last as int, Some(t)));
                        } else {
                            assert(next_run_ok(e.schedule, last as int, Some(t)));
                        }
                    },
                    None => {
                        assert(next_run_fits(e.schedule, last as int) ==> next_run_ok(e.schedule, last as int, None));
                    },
                }
            },
        }
        proof {
            assert(*e == self.table().at(gorilla_id.0));
            if e.missed_policy == MissedRunPolicy::CatchUp {
                assert(catch_up_ok(e.schedule, last as int, now as int, missed@));
            }
            if e.missed_policy == MissedRunPolicy::RunOnce {
                assert(missed@.len() == 0 ==> catch_up_stops(e.schedule, last as int, now as int));
            }
            assert(missed_from(*e, now as int) == last as int);
            assert(missed_runs_ok(*e, now as int, missed@));
        }
        missed
    }

    /// The runs a gorilla missed before the current time, according to its
    /// policy (see `handle_missed_runs_at`). The current time is read from
    /// the clock; a clock less than an hour after the earliest representable
    /// instant gives no runs.
    pub fn handle_missed_runs(&self, gorilla_id: &GorillaId) -> (r: Vec<i64>)
        requires
            self.wf(),
        ensures
            !self.table().has(gorilla_id.0) ==> r@.len() == 0,
            self.table().has(gorilla_id.0) ==> exists|now: i64| #[trigger]
                missed_at_clock(self.table().at(gorilla_id.0), now, r@),
    {
        let now = now_ms();
        if now < MIN_TIMESTAMP_MS + HOUR_MS {
            let r: Vec<i64> = Vec::new();
            proof {
                if self.table().has(gorilla_id.0) {
                    assert(missed_at_clock(self.table().at(gorilla_id.0), now, r@));
                }
            }
            return r;
        }
        let r = self.handle_missed_runs_at(gorilla_id, now);
        proof {
            if self.table().has(gorilla_id.0) {
                assert(missed_at_clock(self.table().at(gorilla_id.0), now, r@));
            }
        }
        r
    }
}

// ---------------------------------------------------------------------------
// Table lemmas specialised to keyed views
// ---------------------------------------------------------------------------

impl Default for GorillaScheduler {
    /// An empty scheduler.
    fn default() -> (s: GorillaScheduler)
        ensures
            s.wf(),
            s.table().len() == 0,
            s.queue_seq() == Seq::<(u128, i64)>::empty(),
    {
        GorillaScheduler::new()
    }
}

} // verus!
