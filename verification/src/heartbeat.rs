//! Proactive heartbeats of fighters: which heartbeat tasks are due, how long
//! to sleep until the next one, the prompt of a heartbeat bout, and the
//! registry of fighters being watched.
use vstd::prelude::*;

use crate::background::{parse_schedule_chars, schedule_secs};
use crate::duration::Duration;
use crate::ids::FighterId;
use crate::schedule::{in_range, now_ms};
use crate::table::{lemma_filter_take_step, lemma_table_insert, lemma_table_remove, Table};
use crate::text::{append_chars, chars_eq, chars_of, string_from_chars, to_owned_string};

verus! {

/// A recurring task a fighter runs on its own.
#[derive(Debug, Clone)]
pub struct HeartbeatTask {
    /// What to do.
    pub task: String,
    /// How often: "hourly", "daily", "weekly", a schedule such as "every 30m",
    /// or "every_bout" / "on_wake", which are not timer-driven.
    pub cadence: String,
    /// Whether the task is active.
    pub active: bool,
    /// How often it ran.
    pub execution_count: u64,
    /// When it last ran (seconds since the Unix epoch).
    pub last_checked: Option<i64>,
}

/// The cadence fires on bouts or on waking, not on a timer.
pub open spec fn untimed(c: Seq<char>) -> bool {
    c == "every_bout"@ || c == "on_wake"@
}

/// The period in seconds of a timer-driven cadence: an hour, a day, a week,
/// or what the schedule says; none when it cannot be read.
pub open spec fn period_secs(c: Seq<char>) -> Option<nat> {
    if c == "hourly"@ {
        Some(3600)
    } else if c == "daily"@ {
        Some(86400)
    } else if c == "weekly"@ {
        Some(604800)
    } else {
        schedule_secs(c)
    }
}

/// The period of cadence `c` for sleeping: unreadable ones count as forever.
pub open spec fn wake_secs(c: Seq<char>) -> nat {
    match period_secs(c) {
        Some(v) => v,
        None => u64::MAX as nat,
    }
}

/// The shortest period among the first `n` active timer-driven tasks, or
/// `u64::MAX` when there is none.
pub open spec fn min_wake(tasks: Seq<HeartbeatTask>, n: int) -> nat
    decreases n,
{
    if n <= 0 {
        u64::MAX as nat
    } else {
        let m = min_wake(tasks, n - 1);
        let h = tasks[n - 1];
        if !h.active || untimed(h.cadence@) {
            m
        } else if wake_secs(h.cadence@) < m {
            wake_secs(h.cadence@)
        } else {
            m
        }
    }
}

/// How long to sleep until the next heartbeat: the shortest period among
/// the active timer-driven tasks, or five minutes when there is none.
pub open spec fn next_wake_secs(tasks: Seq<HeartbeatTask>) -> nat {
    let m = min_wake(tasks, tasks.len() as int);
    if m == u64::MAX {
        300
    } else {
        m
    }
}

/// Whether text `a` is `b`.
fn is_text(a: &String, b: &str) -> (r: bool)
    ensures
        r == (a@ == b@),
{
    let av = chars_of(a.as_str());
    let bv = chars_of(b);
    chars_eq(av.as_slice(), bv.as_slice())
}

fn is_untimed(c: &String) -> (r: bool)
    ensures
        r == untimed(c@),
{
    is_text(c, "every_bout") || is_text(c, "on_wake")
}

/// The period of a cadence in seconds, if it can be read.
fn period_of(c: &String) -> (r: Option<u64>)
    ensures
        match period_secs(c@) {
            Some(v) => r == Some(v as u64) && v <= u64::MAX,
            None => r is None,
        },
{
    if is_text(c, "hourly") {
        Some(3600)
    } else if is_text(c, "daily") {
        Some(86400)
    } else if is_text(c, "weekly") {
        Some(604800)
    } else {
        let cs = chars_of(c.as_str());
        match parse_schedule_chars(cs.as_slice()) {
            Some(d) => Some(d.secs),
            None => None,
        }
    }
}

/// How long to sleep until the next heartbeat (see `next_wake_secs`).
pub fn compute_next_wake(tasks: &[HeartbeatTask]) -> (d: Duration)
    ensures
        d == (Duration { secs: next_wake_secs(tasks@) as u64, nanos: 0 }),
{
    let mut min: u64 = u64::MAX;
    let mut i: usize = 0;
    while i < tasks.len()
        invariant
            i <= tasks@.len(),
            min == min_wake(tasks@, i as int),
        decreases tasks@.len() - i,
    {
        let h = &tasks[i];
        if h.active && !is_untimed(&h.cadence) {
            let secs = match period_of(&h.cadence) {
                Some(v) => v,
                None => u64::MAX,
            };
            if secs < min {
                min = secs;
            }
        }
        i = i + 1;
    }
    if min == u64::MAX {
        Duration::from_secs(300)
    } else {
        Duration::from_secs(min)
    }
}

/// Heartbeat task `h` is due at `now` (seconds): its cadence is
/// timer-driven with a period (a `u64`, taken as an `i64` as the period is
/// compared with elapsed seconds) that is not zero, and it never ran or its
/// period has passed since it last ran.
pub open spec fn due(h: HeartbeatTask, now: i64) -> bool {
    let c = h.cadence@;
    let required = match period_secs(c) {
        Some(v) => (v as u64) as i64,
        None => 0i64,
    };
    &&& !untimed(c)
    &&& required != 0
    &&& match h.last_checked {
        None => true,
        Some(t) => now - t >= required,
    }
}

/// Whether heartbeat task `h` is due at `now` (seconds; see `due`).
pub fn is_timed_cadence_due_at(h: &HeartbeatTask, now: i64) -> (r: bool)
    ensures
        r == due(*h, now),
{
    if is_untimed(&h.cadence) {
        return false;
    }
    let required: i64 = match period_of(&h.cadence) {
        Some(v) => v as i64,
        None => 0,
    };
    if required == 0 {
        return false;
    }
    match h.last_checked {
        None => true,
        Some(t) => (now as i128) - (t as i128) >= required as i128,
    }
}

/// Whether heartbeat task `h` is due now.
pub fn is_timed_cadence_due(h: &HeartbeatTask) -> (r: bool)
    ensures
        exists|now: i64| r == #[trigger] due(*h, now),
{
    let now = crate::schedule::now_secs();
    is_timed_cadence_due_at(h, now)
}

/// Some active task has a timer-driven cadence.
pub open spec fn has_timed(tasks: Seq<HeartbeatTask>) -> bool {
    exists|i: int| 0 <= i < tasks.len() && (#[trigger] tasks[i]).active && !untimed(tasks[i].cadence@)
}

/// Whether some active task has a timer-driven cadence.
pub fn has_timed_heartbeats(tasks: &[HeartbeatTask]) -> (r: bool)
    ensures
        r == has_timed(tasks@),
{
    let mut i: usize = 0;
    while i < tasks.len()
        invariant
            i <= tasks@.len(),
            forall|j: int| 0 <= j < i ==> !((#[trigger] tasks@[j]).active && !untimed(tasks@[j].cadence@)),
        decreases tasks@.len() - i,
    {
        if tasks[i].active && !is_untimed(&tasks[i].cadence) {
            return true;
        }
        i = i + 1;
    }
    false
}

/// The positions of the active tasks due at `now` (seconds), in order.
pub fn due_heartbeats_at(tasks: &[HeartbeatTask], now: i64) -> (r: Vec<usize>)
    ensures
        r@.map_values(|i: usize| i as int) == Seq::new(tasks@.len(), |i: int| i).filter(
            |i: int| tasks@[i].active && due(tasks@[i], now),
        ),
{
    let ghost idx = Seq::new(tasks@.len(), |i: int| i);
    let ghost pred = |i: int| tasks@[i].active && due(tasks@[i], now);
    let mut r: Vec<usize> = Vec::new();
    let mut i: usize = 0;
    while i < tasks.len()
        invariant
            i <= tasks@.len(),
            idx == Seq::new(tasks@.len(), |i: int| i),
            pred == (|i: int| tasks@[i].active && due(tasks@[i], now)),
            r@.map_values(|i: usize| i as int) == idx.take(i as int).filter(pred),
        decreases tasks@.len() - i,
    {
        proof {
            lemma_filter_take_step(idx, i as int, pred);
        }
        if tasks[i].active && is_timed_cadence_due_at(&tasks[i], now) {
            let ghost d = r@.map_values(|i: usize| i as int);
            r.push(i);
            assert(r@.map_values(|i: usize| i as int) =~= d.push(i as int));
        }
        i = i + 1;
    }
    assert(idx.take(tasks@.len() as int) =~= idx);
    r
}

/// The lines "- task" of the due tasks, joined by newlines.
pub open spec fn task_lines(ts: Seq<Seq<char>>) -> Seq<char>
    decreases ts.len(),
{
    if ts.len() == 0 {
        Seq::empty()
    } else if ts.len() == 1 {
        "- "@ + ts[0]
    } else {
        task_lines(ts.drop_last()) + "\n- "@ + ts.last()
    }
}

/// The prompt of a heartbeat bout for fighter `name` with the due tasks
/// `ts`, with a note on how to notify the user when a chat id is known.
pub open spec fn heartbeat_prompt_spec(name: Seq<char>, ts: Seq<Seq<char>>, chat_id: Option<Seq<char>>) -> Seq<char> {
    let base = "[HEARTBEAT] You are "@ + name + ". The following proactive tasks are due:\n"@ + task_lines(ts)
        + "\n\nExecute each task using your available tools. If you have results to share with the user, use channel_notify to message them."@;
    match chat_id {
        Some(c) => base + "\nTo notify the user, use channel_notify with channel=\"telegram\" and chat_id=\""@ + c
            + "\"."@,
        None => base,
    }
}

/// The prompt of a heartbeat bout (see `heartbeat_prompt_spec`).
pub fn heartbeat_prompt(fighter_name: &str, due_tasks: &[String], chat_id_hint: Option<&str>) -> (r: String)
    ensures
        r@ == heartbeat_prompt_spec(
            fighter_name@,
            due_tasks@.map_values(|s: String| s@),
            match chat_id_hint {
                Some(c) => Some(c@),
                None => None,
            },
        ),
{
    let ghost ts = due_tasks@.map_values(|s: String| s@);
    let mut p = chars_of("[HEARTBEAT] You are ");
    let name = chars_of(fighter_name);
    append_chars(&mut p, name.as_slice());
    let intro = chars_of(". The following proactive tasks are due:\n");
    append_chars(&mut p, intro.as_slice());
    let ghost head = p@;
    let mut i: usize = 0;
    while i < due_tasks.len()
        invariant
            i <= due_tasks@.len(),
            ts == due_tasks@.map_values(|s: String| s@),
            p@ == head + task_lines(ts.take(i as int)),
        decreases due_tasks@.len() - i,
    {
        let sep = if i == 0 {
            chars_of("- ")
        } else {
            chars_of("\n- ")
        };
        append_chars(&mut p, sep.as_slice());
        let t = chars_of(due_tasks[i].as_str());
        append_chars(&mut p, t.as_slice());
        proof {
            assert(ts.take(i + 1).drop_last() =~= ts.take(i as int));
            assert(ts.take(i + 1).last() == t@);
            if i == 0 {
                assert(ts.take(1) =~= seq![t@]);
            }
        }
        i = i + 1;
        assert(p@ =~= head + task_lines(ts.take(i as int)));
    }
    assert(ts.take(due_tasks@.len() as int) =~= ts);
    let tail = chars_of(
        "\n\nExecute each task using your available tools. If you have results to share with the user, use channel_notify to message them.",
    );
    append_chars(&mut p, tail.as_slice());
    match chat_id_hint {
        Some(c) => {
            let pre = chars_of("\nTo notify the user, use channel_notify with channel=\"telegram\" and chat_id=\"");
            append_chars(&mut p, pre.as_slice());
            let cv = chars_of(c);
            append_chars(&mut p, cv.as_slice());
            let post = chars_of("\".");
            append_chars(&mut p, post.as_slice());
        },
        None => {},
    }
    string_from_chars(p.as_slice())
}

// ---------------------------------------------------------------------------
// One round of a fighter's heartbeat loop
// ---------------------------------------------------------------------------

/// How long the loop waits when a fighter has no creed, or it cannot be
/// read: one minute.
pub const NO_CREED_WAIT_SECS: u64 = 60;

/// The positions of the active tasks due at `now` (seconds), in order.
pub open spec fn due_positions(tasks: Seq<HeartbeatTask>, now: i64) -> Seq<int> {
    Seq::new(tasks.len(), |i: int| i).filter(|i: int| tasks[i].active && due(tasks[i], now))
}

/// What a fighter's heartbeat loop does next.
#[derive(Debug, Clone)]
pub enum HeartbeatStep {
    /// Sleep this long, then start a new round.
    Sleep(Duration),
    /// Run a heartbeat bout with `prompt` for the due tasks at positions
    /// `due`, whose texts are `tasks`; `after_heartbeat_bout` says what follows.
    RunBout { prompt: String, due: Vec<usize>, tasks: Vec<String> },
}

/// The start of a round of the heartbeat loop of fighter `fighter_name`
/// at `now` (seconds), given its heartbeat tasks (`None`: it has no creed,
/// or the creed could not be read). Without a creed the loop waits a
/// minute; with no task due it sleeps until the next wake; otherwise it
/// runs a bout for the due tasks.
pub fn heartbeat_round(
    creed: &Option<Vec<HeartbeatTask>>,
    fighter_name: &str,
    chat_id_hint: Option<&str>,
    now: i64,
) -> (r: HeartbeatStep)
    ensures
        match creed {
            None => r == HeartbeatStep::Sleep(Duration { secs: NO_CREED_WAIT_SECS, nanos: 0 }),
            Some(ts) => if due_positions(ts@, now).len() == 0 {
                r == HeartbeatStep::Sleep(Duration { secs: next_wake_secs(ts@) as u64, nanos: 0 })
            } else {
                r matches HeartbeatStep::RunBout { prompt, due, tasks } && {
                    &&& due@.map_values(|i: usize| i as int) == due_positions(ts@, now)
                    &&& tasks@.map_values(|s: String| s@) == due_positions(ts@, now).map_values(
                        |i: int| ts@[i].task@,
                    )
                    &&& prompt@ == heartbeat_prompt_spec(
                        fighter_name@,
                        tasks@.map_values(|s: String| s@),
                        match chat_id_hint {
                            Some(c) => Some(c@),
                            None => None,
                        },
                    )
                }
            },
        },
{
    match creed {
        None => HeartbeatStep::Sleep(Duration::from_secs(NO_CREED_WAIT_SECS)),
        Some(ts) => {
            let positions = due_heartbeats_at(ts.as_slice(), now);
            if positions.len() == 0 {
                return HeartbeatStep::Sleep(compute_next_wake(ts.as_slice()));
            }
            let ghost d = positions@.map_values(|i: usize| i as int);
            proof {
                let idx = Seq::new(ts@.len(), |i: int| i);
                let pred = |i: int| ts@[i].active && due(ts@[i], now);
                assert(d == idx.filter(pred));
                assert forall|j: int| 0 <= j < d.len() implies 0 <= #[trigger] d[j] < ts@.len() by {
                    assert(d.contains(d[j]));
                    idx.lemma_filter_contains_rev(pred, d[j]);
                }
            }
            let mut tasks: Vec<String> = Vec::new();
            let mut k: usize = 0;
            while k < positions.len()
                invariant
                    k <= positions@.len(),
                    d == positions@.map_values(|i: usize| i as int),
                    d == due_positions(ts@, now),
                    forall|j: int| 0 <= j < d.len() ==> 0 <= #[trigger] d[j] < ts@.len(),
                    tasks@.map_values(|s: String| s@) == d.take(k as int).map_values(|i: int| ts@[i].task@),
                decreases positions@.len() - k,
            {
                let i = positions[k];
                assert(d[k as int] == i as int);
                let t = to_owned_string(ts[i].task.as_str());
                let ghost before = tasks@;
                tasks.push(t);
                assert(d.take(k + 1) =~= d.take(k as int).push(d[k as int]));
                assert(tasks@ =~= before.push(t));
                assert(tasks@.map_values(|s: String| s@) =~= before.map_values(|s: String| s@).push(t@));
                assert(d.take(k + 1).map_values(|i: int| ts@[i].task@) =~= d.take(k as int).map_values(
                    |i: int| ts@[i].task@,
                ).push(ts@[d[k as int]].task@));
                assert(tasks@.map_values(|s: String| s@) =~= d.take(k + 1).map_values(|i: int| ts@[i].task@));
                k = k + 1;
            }
            assert(d.take(positions@.len() as int) =~= d);
            let prompt = heartbeat_prompt(fighter_name, tasks.as_slice(), chat_id_hint);
            HeartbeatStep::RunBout { prompt, due: positions, tasks }
        },
    }
}

/// What follows a heartbeat bout.
#[derive(Debug, Clone)]
pub struct AfterBout {
    /// Positions of the tasks to mark checked (and save the creed).
    pub mark: Vec<usize>,
    /// Tasks to announce as executed.
    pub announce: Vec<String>,
    /// How long to sleep before the next round.
    pub sleep: Duration,
}

/// What follows the bout a round ran for the tasks at `due` (texts
/// `tasks`): when it succeeded they are marked checked and announced, when
/// it failed (or could not be created) nothing is; either way the loop
/// sleeps until the next wake of the creed.
pub fn after_heartbeat_bout(creed: &[HeartbeatTask], due: Vec<usize>, tasks: Vec<String>, bout_ok: bool) -> (r: AfterBout)
    ensures
        bout_ok ==> r.mark@ == due@ && r.announce@ == tasks@,
        !bout_ok ==> r.mark@.len() == 0 && r.announce@.len() == 0,
        r.sleep == (Duration { secs: next_wake_secs(creed@) as u64, nanos: 0 }),
{
    let sleep = compute_next_wake(creed);
    if bout_ok {
        AfterBout { mark: due, announce: tasks, sleep }
    } else {
        AfterBout { mark: Vec::new(), announce: Vec::new(), sleep }
    }
}

// ---------------------------------------------------------------------------
// HeartbeatScheduler
// ---------------------------------------------------------------------------

/// The fighters whose heartbeats are being watched, with the time each watch
/// started.
pub struct HeartbeatScheduler {
    monitors: Table<i64>,
}

impl HeartbeatScheduler {
    /// The watched fighters, keyed by fighter id, with start times
    /// (milliseconds since the Unix epoch).
    pub closed spec fn monitors(&self) -> Table<i64> {
        self.monitors
    }

    /// The table is well formed.
    pub closed spec fn wf(&self) -> bool {
        self.monitors.wf()
    }

    /// No fighter watched.
    pub fn new() -> (s: HeartbeatScheduler)
        ensures
            s.wf(),
            s.monitors().len() == 0,
    {
        HeartbeatScheduler { monitors: Table::new() }
    }

    /// Start watching a fighter with heartbeat tasks `tasks` at `now`: a
    /// fighter already watched is left alone, and one without an active
    /// timer-driven task (only `every_bout` or `on_wake` ones) is not watched,
    /// since its heartbeats fire on messages and spawns. Whether watching
    /// started.
    pub fn start_monitoring_at(&mut self, fighter_id: FighterId, tasks: &[HeartbeatTask], now: i64) -> (started: bool)
        requires
            old(self).wf(),
        ensures
            final(self).wf(),
            started == (!old(self).monitors().has(fighter_id.0) && has_timed(tasks@)),
            !started ==> final(self).monitors() == old(self).monitors(),
            started ==> final(self).monitors().has(fighter_id.0) && final(self).monitors().at(fighter_id.0) == now
                && forall|k: u128| k != fighter_id.0 ==> (final(self).monitors().has(k) == old(self).monitors().has(k)),
    {
        if self.monitors.find(fighter_id.0).is_some() {
            return false;
        }
        if !has_timed_heartbeats(tasks) {
            return false;
        }
        let ghost t0 = self.monitors;
        self.monitors.insert(fighter_id.0, now);
        proof {
            lemma_table_insert(t0, self.monitors, fighter_id.0, now);
        }
        true
    }

    /// Start watching a fighter now; see `start_monitoring_at`.
    pub fn start_monitoring(&mut self, fighter_id: FighterId, tasks: &[HeartbeatTask]) -> (started: bool)
        requires
            old(self).wf(),
        ensures
            final(self).wf(),
            started == (!old(self).monitors().has(fighter_id.0) && has_timed(tasks@)),
            !started ==> final(self).monitors() == old(self).monitors(),
            started ==> final(self).monitors().has(fighter_id.0) && forall|k: u128|
                k != fighter_id.0 ==> (final(self).monitors().has(k) == old(self).monitors().has(k)),
            started ==> exists|now: i64| in_range(now as int) && final(self).monitors().at(fighter_id.0) == now,
    {
        let now = now_ms();
        self.start_monitoring_at(fighter_id, tasks, now)
    }

    /// Stop watching a fighter; whether it was watched.
    pub fn stop_monitoring(&mut self, fighter_id: &FighterId) -> (stopped: bool)
        requires
            old(self).wf(),
        ensures
            final(self).wf(),
            stopped == old(self).monitors().has(fighter_id.0),
            !final(self).monitors().has(fighter_id.0),
            forall|k: u128| k != fighter_id.0 ==> (final(self).monitors().has(k) == old(self).monitors().has(k)),
    {
        let ghost t0 = self.monitors;
        let r = self.monitors.remove(fighter_id.0);
        proof {
            lemma_table_remove(t0, self.monitors, fighter_id.0);
        }
        r.is_some()
    }

    /// Whether a fighter is watched.
    pub fn is_monitoring(&self, fighter_id: &FighterId) -> (r: bool)
        requires
            self.wf(),
        ensures
            r == self.monitors().has(fighter_id.0),
    {
        self.monitors.find(fighter_id.0).is_some()
    }

    /// Number of watched fighters.
    pub fn monitoring_count(&self) -> (n: usize)
        requires
            self.wf(),
        ensures
            n == self.monitors().len(),
    {
        self.monitors.size()
    }

    /// Stop watching every fighter.
    pub fn shutdown_all(&mut self)
        requires
            old(self).wf(),
        ensures
            final(self).wf(),
            final(self).monitors().len() == 0,
    {
        self.monitors = Table::new();
    }
}

} // verus!
