//! Gorilla task system: a task queue with priorities, deduplication,
//! dependencies, timeouts, cancellation and stored results.
use vstd::prelude::*;

use crate::duration::Duration;
use crate::ids::{GorillaId, TaskId};
use crate::schedule::now_ms;
use crate::text::copy_text;
use crate::table::{lemma_filter_take_step, lemma_table_insert, lemma_table_set, Table};

verus! {

// ---------------------------------------------------------------------------
// Task types
// ---------------------------------------------------------------------------

/// Priority levels for gorilla tasks, lowest first.
#[derive(Debug, Clone, Copy, PartialEq, Eq, Hash, PartialOrd, Ord, Structural)]
pub enum TaskPriority {
    /// Lowest priority.
    Low,
    /// Normal priority (the default).
    Normal,
    /// High priority.
    High,
    /// Highest priority, served before all others.
    Critical,
}

impl Default for TaskPriority {
    /// `Normal`.
    fn default() -> (p: TaskPriority)
        ensures
            p == TaskPriority::Normal,
    {
        TaskPriority::Normal
    }
}

/// The rank of a priority: `Low` is 0, `Critical` is 3.
pub open spec fn rank(p: TaskPriority) -> int {
    match p {
        TaskPriority::Low => 0,
        TaskPriority::Normal => 1,
        TaskPriority::High => 2,
        TaskPriority::Critical => 3,
    }
}

/// Current state of a task.
#[derive(Debug, Clone, Copy, PartialEq, Eq, Hash, Structural)]
pub enum TaskState {
    /// Waiting to be executed.
    Pending,
    /// Currently being executed.
    Running,
    /// Successfully completed.
    Completed,
    /// Failed with an error.
    Failed,
    /// Cancelled by the user or system.
    Cancelled,
    /// Timed out during execution.
    TimedOut,
    /// Waiting for dependency tasks to complete.
    Blocked,
}

/// The result of a finished task.
#[derive(Debug, Clone)]
pub struct TaskResult {
    /// Whether the task succeeded.
    pub success: bool,
    /// Output data from the task.
    pub output: String,
    /// Error message if the task failed.
    pub error: Option<String>,
    /// When the result was produced (milliseconds since the Unix epoch).
    pub completed_at: i64,
}

/// A task submitted to a gorilla.
#[derive(Debug, Clone)]
pub struct GorillaTask {
    /// Unique task id.
    pub id: TaskId,
    /// The gorilla the task is for.
    pub gorilla_id: GorillaId,
    /// Human-readable task description.
    pub description: String,
    /// Task priority.
    pub priority: TaskPriority,
    /// Current state.
    pub state: TaskState,
    /// When the task was created (milliseconds since the Unix epoch).
    pub created_at: i64,
    /// When the task started executing (milliseconds since the Unix epoch).
    pub started_at: Option<i64>,
    /// Maximum execution time.
    pub timeout: Option<Duration>,
    /// Tasks that must complete before this one can run.
    pub depends_on: Vec<TaskId>,
    /// A deduplication key: while a task holding it is pending or running, no
    /// other task with the same key is accepted.
    pub dedup_key: Option<String>,
    /// The task result, once finished.
    pub result: Option<TaskResult>,
}

/// Why a task queue operation failed.
#[derive(Debug, Clone)]
pub enum TaskError {
    /// A task with the same deduplication key is pending or running.
    Duplicate { key: String, existing: TaskId },
    /// No task with this id is known.
    NotFound(TaskId),
    /// The task already finished, as `Completed` or `Failed`.
    AlreadyTerminal { id: TaskId, state: TaskState },
}

/// `a` is a copy of `b`: equal fields, the dependency list equal as a sequence.
pub open spec fn same_task(a: GorillaTask, b: GorillaTask) -> bool {
    &&& a.depends_on@ == b.depends_on@
    &&& (GorillaTask { depends_on: b.depends_on, ..a }) == b
}

/// `t` with its state set to `s`.
pub open spec fn with_state(t: GorillaTask, s: TaskState) -> GorillaTask {
    GorillaTask { state: s, ..t }
}

/// A state from which a task will still run: pending or running.
pub open spec fn is_live(s: TaskState) -> bool {
    s == TaskState::Pending || s == TaskState::Running
}

/// Every task in `deps` is known and completed.
pub open spec fn deps_met(tasks: Table<GorillaTask>, deps: Seq<TaskId>) -> bool {
    forall|i: int|
        0 <= i < deps.len() ==> tasks.has(#[trigger] deps[i].0) && tasks.at(deps[i].0).state
            == TaskState::Completed
}

/// The result recorded for a task that timed out at `now`.
pub open spec fn is_timeout_result(r: Option<TaskResult>, now: i64) -> bool {
    &&& r is Some
    &&& !r.unwrap().success
    &&& r.unwrap().output@ == Seq::<char>::empty()
    &&& r.unwrap().error is Some
    &&& r.unwrap().error.unwrap()@ == "task timed out"@
    &&& r.unwrap().completed_at == now
}

fn copy_ids(v: &Vec<TaskId>) -> (r: Vec<TaskId>)
    ensures
        r@ == v@,
{
    let mut r: Vec<TaskId> = Vec::new();
    let mut i: usize = 0;
    while i < v.len()
        invariant
            i <= v@.len(),
            r@ == v@.take(i as int),
        decreases v@.len() - i,
    {
        r.push(v[i]);
        i = i + 1;
        assert(r@ =~= v@.take(i as int));
    }
    assert(v@.take(v@.len() as int) =~= v@);
    r
}

fn copy_result(r: &Option<TaskResult>) -> (c: Option<TaskResult>)
    ensures
        c == *r,
{
    match r {
        Some(x) => Some(
            TaskResult {
                success: x.success,
                output: x.output.clone(),
                error: copy_text(&x.error),
                completed_at: x.completed_at,
            },
        ),
        None => None,
    }
}

/// A copy of `t`.
fn copy_task(t: &GorillaTask) -> (r: GorillaTask)
    ensures
        same_task(r, *t),
{
    GorillaTask {
        id: t.id,
        gorilla_id: t.gorilla_id,
        description: t.description.clone(),
        priority: t.priority,
        state: t.state,
        created_at: t.created_at,
        started_at: t.started_at,
        timeout: t.timeout,
        depends_on: copy_ids(&t.depends_on),
        dedup_key: copy_text(&t.dedup_key),
        result: copy_result(&t.result),
    }
}

/// A task for `gorilla_id` with description `description`, created at `now`:
/// normal priority, pending, no timeout, dependencies, deduplication key or result.
pub fn new_task_at(gorilla_id: GorillaId, description: &str, now: i64) -> (t: GorillaTask)
    ensures
        t.id.0 != 0,
        t.gorilla_id == gorilla_id,
        t.description@ == description@,
        t.priority == TaskPriority::Normal,
        t.state == TaskState::Pending,
        t.created_at == now,
        t.started_at is None,
        t.timeout is None,
        t.depends_on@ == Seq::<TaskId>::empty(),
        t.dedup_key is None,
        t.result is None,
{
    GorillaTask {
        id: TaskId::new(),
        gorilla_id,
        description: description.to_string(),
        priority: TaskPriority::Normal,
        state: TaskState::Pending,
        created_at: now,
        started_at: None,
        timeout: None,
        depends_on: Vec::new(),
        dedup_key: None,
        result: None,
    }
}

/// A task for `gorilla_id` with description `description`, created now:
/// normal priority, pending, no timeout, dependencies, deduplication key or result.
pub fn new_task(gorilla_id: GorillaId, description: &str) -> (t: GorillaTask)
    ensures
        t.id.0 != 0,
        t.gorilla_id == gorilla_id,
        t.description@ == description@,
        t.priority == TaskPriority::Normal,
        t.state == TaskState::Pending,
        t.started_at is None,
        t.timeout is None,
        t.depends_on@ == Seq::<TaskId>::empty(),
        t.dedup_key is None,
        t.result is None,
{
    new_task_at(gorilla_id, description, now_ms())
}

/// The task `k` is known and pending.
pub open spec fn is_pending(tasks: Table<GorillaTask>, k: u128) -> bool {
    tasks.has(k) && tasks.at(k).state == TaskState::Pending
}

/// The position of the first entry of `q` from `i` on that names a pending
/// task, or the length of `q` when there is none.
pub open spec fn scan(tasks: Table<GorillaTask>, q: Seq<u128>, i: nat) -> nat
    decreases q.len() - i,
{
    if i >= q.len() {
        q.len()
    } else if is_pending(tasks, q[i as int]) {
        i
    } else {
        scan(tasks, q, i + 1)
    }
}

/// `scan` finds the first pending entry from `i` on.
pub proof fn lemma_scan(tasks: Table<GorillaTask>, q: Seq<u128>, i: nat)
    requires
        i <= q.len(),
    ensures
        i <= scan(tasks, q, i) <= q.len(),
        forall|j: int| i <= j < scan(tasks, q, i) ==> !is_pending(tasks, #[trigger] q[j]),
        scan(tasks, q, i) < q.len() ==> is_pending(tasks, q[scan(tasks, q, i) as int]),
    decreases q.len() - i,
{
    if i < q.len() && !is_pending(tasks, q[i as int]) {
        lemma_scan(tasks, q, i + 1);
    }
}

/// Drop entries from the front of `q` up to and including the first one that
/// names a pending task, and return that one; empty `q` when there is none.
fn take_first_pending(tasks: &Table<GorillaTask>, q: &mut Vec<u128>) -> (r: Option<u128>)
    requires
        tasks.wf(),
    ensures
        ({
            let s = scan(*tasks, old(q)@, 0);
            &&& s < old(q)@.len() ==> r == Some(old(q)@[s as int]) && final(q)@ == old(q)@.skip(s + 1int)
            &&& s >= old(q)@.len() ==> r is None && final(q)@ == Seq::<u128>::empty()
        }),
{
    let ghost q0 = q@;
    let mut i: usize = 0;
    while i < q.len()
        invariant
            tasks.wf(),
            q@ == q0,
            q0 == old(q)@,
            i <= q0.len(),
            scan(*tasks, q0, 0) == scan(*tasks, q0, i as nat),
        decreases q0.len() - i,
    {
        let k = q[i];
        let pending = match tasks.get(k) {
            Some(t) => t.state == TaskState::Pending,
            None => false,
        };
        if pending {
            assert(is_pending(*tasks, q0[i as int]));
            assert(scan(*tasks, q0, i as nat) == i);
            let rest = q.split_off(i + 1);
            *q = rest;
            proof {
                assert(q@ =~= q0.skip(i + 1));
            }
            return Some(k);
        }
        i = i + 1;
    }
    q.clear();
    None
}

/// Task `k` counts as completed once task `done` has finished, successfully
/// when `success`.
pub open spec fn completed_after(tasks: Table<GorillaTask>, done: u128, success: bool, k: u128) -> bool {
    if k == done {
        success
    } else {
        tasks.has(k) && tasks.at(k).state == TaskState::Completed
    }
}

/// Finishing task `done` (successfully when `success`) releases task `k`: `k`
/// is another blocked task that depends on `done`, and all of its
/// dependencies are then completed.
pub open spec fn releases(tasks: Table<GorillaTask>, done: u128, success: bool, k: u128) -> bool {
    let deps = tasks.at(k).depends_on@;
    &&& k != done
    &&& tasks.has(k)
    &&& tasks.at(k).state == TaskState::Blocked
    &&& deps.contains(TaskId(done))
    &&& forall|i: int| 0 <= i < deps.len() ==> completed_after(tasks, done, success, #[trigger] deps[i].0)
}

/// The ids of the tasks that finishing `done` releases, in submission order.
pub open spec fn released(tasks: Table<GorillaTask>, done: u128, success: bool) -> Seq<u128> {
    tasks.key_seq().filter(|k: u128| releases(tasks, done, success, k))
}

/// The ids among `ids` of tasks with priority `p`.
pub open spec fn with_priority(tasks: Table<GorillaTask>, ids: Seq<u128>, p: TaskPriority) -> Seq<u128> {
    ids.filter(|k: u128| tasks.at(k).priority == p)
}

/// Extending `ids` by one entry extends its entries of priority `p` by that
/// entry exactly when it has priority `p`.
pub proof fn lemma_with_priority_step(tasks: Table<GorillaTask>, ids: Seq<u128>, m: int, p: TaskPriority)
    requires
        0 <= m < ids.len(),
    ensures
        with_priority(tasks, ids.take(m + 1), p) == if tasks.at(ids[m]).priority == p {
            with_priority(tasks, ids.take(m), p).push(ids[m])
        } else {
            with_priority(tasks, ids.take(m), p)
        },
{
    lemma_filter_take_step(ids, m, |k: u128| tasks.at(k).priority == p);
}

fn contains_id(v: &Vec<TaskId>, k: u128) -> (b: bool)
    ensures
        b == v@.contains(TaskId(k)),
{
    let mut i: usize = 0;
    while i < v.len()
        invariant
            i <= v@.len(),
            forall|j: int| 0 <= j < i ==> v@[j] != TaskId(k),
        decreases v@.len() - i,
    {
        if v[i].0 == k {
            assert(v@[i as int] == TaskId(k));
            return true;
        }
        i = i + 1;
    }
    false
}

/// A task that, at `now`, has been running for longer than its timeout.
pub open spec fn expired(t: GorillaTask, now: i64) -> bool {
    &&& t.state == TaskState::Running
    &&& t.started_at is Some
    &&& t.timeout is Some
    &&& now >= t.started_at.unwrap()
    &&& (now - t.started_at.unwrap()) * 1_000_000 > t.timeout.unwrap()@
}

/// The result recorded for a task that timed out at `now`.
fn timeout_result(now: i64) -> (r: TaskResult)
    ensures
        is_timeout_result(Some(r), now),
{
    TaskResult {
        success: false,
        output: String::new(),
        error: Some(crate::text::to_owned_string("task timed out")),
        completed_at: now,
    }
}

// ---------------------------------------------------------------------------
// TaskQueue
// ---------------------------------------------------------------------------

/// A task queue for gorilla tasks: tasks are served by priority (`Critical`
/// first) and in submission order within one priority.
pub struct TaskQueue {
    tasks: Table<GorillaTask>,
    critical: Vec<u128>,
    high: Vec<u128>,
    normal: Vec<u128>,
    low: Vec<u128>,
    dedup_index: crate::table::StrIndex,
}

impl TaskQueue {
    /// All tasks, keyed by task id, in submission order.
    pub closed spec fn tasks(&self) -> Table<GorillaTask> {
        self.tasks
    }

    /// The ids waiting in the queue of priority `p`, front first. Entries whose
    /// task is no longer pending are dropped when they reach the front.
    pub closed spec fn queue(&self, p: TaskPriority) -> Seq<u128> {
        match p {
            TaskPriority::Critical => self.critical@,
            TaskPriority::High => self.high@,
            TaskPriority::Normal => self.normal@,
            TaskPriority::Low => self.low@,
        }
    }

    /// The deduplication index: key to the id of the last task accepted with it.
    pub closed spec fn dedup(&self) -> Map<Seq<char>, u128> {
        self.dedup_index.map()
    }

    /// The task table and the index are well formed, and every task is stored
    /// under its own id.
    pub closed spec fn wf(&self) -> bool {
        &&& self.tasks.wf()
        &&& self.dedup_index.wf()
        &&& forall|k: u128| self.tasks.has(k) ==> (#[trigger] self.tasks.at(k)).id.0 == k
    }

    /// The task `k` is known and pending.
    pub open spec fn pending(&self, k: u128) -> bool {
        self.tasks().has(k) && self.tasks().at(k).state == TaskState::Pending
    }

    /// An empty queue.
    pub fn new() -> (q: TaskQueue)
        ensures
            q.wf(),
            q.tasks().len() == 0,
            forall|p: TaskPriority| q.queue(p) == Seq::<u128>::empty(),
            q.dedup() == Map::<Seq<char>, u128>::empty(),
    {
        TaskQueue {
            tasks: Table::new(),
            critical: Vec::new(),
            high: Vec::new(),
            normal: Vec::new(),
            low: Vec::new(),
            dedup_index: crate::table::StrIndex::new(),
        }
    }

    /// Append `k` to the queue of priority `p`.
    fn push_queue(&mut self, p: TaskPriority, k: u128)
        ensures
            final(self).tasks == old(self).tasks,
            final(self).dedup_index == old(self).dedup_index,
            final(self).queue(p) == old(self).queue(p).push(k),
            forall|q: TaskPriority| q != p ==> final(self).queue(q) == old(self).queue(q),
    {
        match p {
            TaskPriority::Critical => self.critical.push(k),
            TaskPriority::High => self.high.push(k),
            TaskPriority::Normal => self.normal.push(k),
            TaskPriority::Low => self.low.push(k),
        }
    }

    /// Every key other than `k` keeps its presence and its task.
    pub open spec fn others_unchanged(before: Table<GorillaTask>, after: Table<GorillaTask>, k: u128) -> bool {
        &&& forall|j: u128| j != k ==> (after.has(j) == before.has(j))
        &&& forall|j: u128| j != k && before.has(j) ==> after.at(j) == before.at(j)
    }

    /// The queues of both states are equal.
    pub open spec fn same_queues(a: TaskQueue, b: TaskQueue) -> bool {
        forall|p: TaskPriority| #[trigger] a.queue(p) == b.queue(p)
    }

    /// The state a task submitted now starts in: pending when all its
    /// dependencies are completed (or it has none), blocked otherwise.
    pub open spec fn initial_state(&self, task: GorillaTask) -> TaskState {
        if deps_met(self.tasks(), task.depends_on@) {
            TaskState::Pending
        } else {
            TaskState::Blocked
        }
    }

    /// The id of the live task that already holds the deduplication key of
    /// `task`, if any.
    pub open spec fn duplicate_of(&self, task: GorillaTask) -> Option<u128> {
        match task.dedup_key {
            Some(k) => {
                let e = self.dedup()[k@];
                if self.dedup().dom().contains(k@) && self.tasks().has(e) && is_live(
                    self.tasks().at(e).state,
                ) {
                    Some(e)
                } else {
                    None
                }
            },
            None => None,
        }
    }

    /// What `submit(task)` does: with a live task holding the same
    /// deduplication key the queue is unchanged and the duplicate is reported;
    /// otherwise the task is stored under its id in its initial state, its key
    /// is indexed, and a pending task joins the back of its priority's queue.
    pub open spec fn submit_post(
        old_q: TaskQueue,
        new_q: TaskQueue,
        task: GorillaTask,
        r: Result<TaskId, TaskError>,
    ) -> bool {
        match old_q.duplicate_of(task) {
            Some(e) => {
                &&& r == Err::<TaskId, TaskError>(
                    TaskError::Duplicate { key: task.dedup_key.unwrap(), existing: TaskId(e) },
                )
                &&& new_q.tasks() == old_q.tasks()
                &&& new_q.dedup() == old_q.dedup()
                &&& Self::same_queues(new_q, old_q)
            },
            None => {
                let init = old_q.initial_state(task);
                &&& r == Ok::<TaskId, TaskError>(task.id)
                &&& new_q.tasks().has(task.id.0)
                &&& new_q.tasks().at(task.id.0) == with_state(task, init)
                &&& Self::others_unchanged(old_q.tasks(), new_q.tasks(), task.id.0)
                &&& new_q.dedup() == match task.dedup_key {
                    Some(k) => old_q.dedup().insert(k@, task.id.0),
                    None => old_q.dedup(),
                }
                &&& init == TaskState::Pending ==> new_q.queue(task.priority) == old_q.queue(
                    task.priority,
                ).push(task.id.0)
                &&& forall|p: TaskPriority|
                    p != task.priority || init != TaskState::Pending ==> #[trigger] new_q.queue(p)
                        == old_q.queue(p)
            },
        }
    }

    /// Every task in `deps` is known and completed.
    fn deps_completed(&self, deps: &Vec<TaskId>) -> (b: bool)
        requires
            self.wf(),
        ensures
            b == deps_met(self.tasks(), deps@),
    {
        let mut i: usize = 0;
        while i < deps.len()
            invariant
                self.wf(),
                i <= deps@.len(),
                forall|j: int|
                    0 <= j < i ==> self.tasks().has(#[trigger] deps@[j].0) && self.tasks().at(
                        deps@[j].0,
                    ).state == TaskState::Completed,
            decreases deps@.len() - i,
        {
            match self.tasks.get(deps[i].0) {
                Some(t) => {
                    if t.state != TaskState::Completed {
                        return false;
                    }
                },
                None => {
                    return false;
                },
            }
            i = i + 1;
        }
        true
    }

    /// Submit a task. It is refused when a pending or running task holds the
    /// same deduplication key; otherwise it is stored under its id, pending if
    /// all its dependencies are completed and blocked if not, and a pending
    /// task is queued behind the others of its priority.
    pub fn submit(&mut self, task: GorillaTask) -> (r: Result<TaskId, TaskError>)
        requires
            old(self).wf(),
        ensures
            final(self).wf(),
            Self::submit_post(*old(self), *final(self), task, r),
    {
        let task_id = task.id;
        match &task.dedup_key {
            Some(key) => {
                match self.dedup_index.get(key) {
                    Some(existing) => {
                        match self.tasks.get(*existing) {
                            Some(t) => {
                                if t.state == TaskState::Pending || t.state == TaskState::Running {
                                    return Err(
                                        TaskError::Duplicate { key: key.clone(), existing: TaskId(*existing) },
                                    );
                                }
                            },
                            None => {},
                        }
                    },
                    None => {},
                }
            },
            None => {},
        }
        let initial = if self.deps_completed(&task.depends_on) {
            TaskState::Pending
        } else {
            TaskState::Blocked
        };
        let priority = task.priority;
        let mut stored = task;
        stored.state = initial;
        match &stored.dedup_key {
            Some(key) => {
                self.dedup_index.insert(key.clone(), task_id.0);
            },
            None => {},
        }
        let ghost old_table = self.tasks;
        self.tasks.insert(task_id.0, stored);
        proof {
            lemma_table_insert(old_table, self.tasks, task_id.0, stored);
        }
        if initial == TaskState::Pending {
            self.push_queue(priority, task_id.0);
        }
        Ok(task_id)
    }

    /// `qs` are the queues before and after each of the submissions `rs` of
    /// the first tasks of `tasks`, each done as `submit` does it, all of them
    /// accepted but perhaps the last.
    pub open spec fn batch_steps(
        qs: Seq<TaskQueue>,
        tasks: Seq<GorillaTask>,
        rs: Seq<Result<TaskId, TaskError>>,
    ) -> bool {
        &&& qs.len() == rs.len() + 1
        &&& rs.len() <= tasks.len()
        &&& forall|i: int| 0 <= i < rs.len() ==> #[trigger] Self::submit_post(qs[i], qs[i + 1], tasks[i], rs[i])
        &&& forall|i: int| 0 <= i < rs.len() - 1 ==> (#[trigger] rs[i]) is Ok
    }

    /// What `submit_batch` does: the tasks are submitted one after another
    /// from `old_q` to `new_q`; when all are accepted the result lists their
    /// ids in order, else submitting stopped at the first refusal, whose
    /// error is the result.
    pub open spec fn batch_post(
        old_q: TaskQueue,
        new_q: TaskQueue,
        tasks: Seq<GorillaTask>,
        qs: Seq<TaskQueue>,
        rs: Seq<Result<TaskId, TaskError>>,
        r: Result<Vec<TaskId>, TaskError>,
    ) -> bool {
        &&& Self::batch_steps(qs, tasks, rs)
        &&& qs[0] == old_q
        &&& qs.last() == new_q
        &&& match r {
            Ok(ids) => rs.len() == tasks.len() && (rs.len() == 0 || rs.last() is Ok) && ids@ == tasks.map_values(
                |t: GorillaTask| t.id,
            ),
            Err(e) => rs.len() > 0 && rs.last() == Err::<TaskId, TaskError>(e),
        }
    }

    /// Submit tasks in order, stopping at the first refusal; returns the ids of
    /// the tasks accepted, all of them on success.
    pub fn submit_batch(&mut self, batch: Vec<GorillaTask>) -> (r: Result<Vec<TaskId>, TaskError>)
        requires
            old(self).wf(),
        ensures
            final(self).wf(),
            exists|qs: Seq<TaskQueue>, rs: Seq<Result<TaskId, TaskError>>|
                #[trigger] Self::batch_post(*old(self), *final(self), batch@, qs, rs, r),
    {
        let mut ids: Vec<TaskId> = Vec::new();
        let ghost all = batch@;
        let mut tasks = batch;
        let ghost mut qs: Seq<TaskQueue> = seq![*self];
        let ghost mut rs: Seq<Result<TaskId, TaskError>> = Seq::empty();
        let mut i: usize = 0;
        let n = tasks.len();
        while i < n
            invariant
                self.wf(),
                n == all.len(),
                all == batch@,
                i <= n,
                tasks@ == all.skip(i as int),
                ids@ == all.take(i as int).map_values(|t: GorillaTask| t.id),
                rs.len() == i,
                Self::batch_steps(qs, all, rs),
                qs[0] == *old(self),
                qs.last() == *self,
                forall|j: int| 0 <= j < rs.len() ==> (#[trigger] rs[j]) is Ok,
            decreases n - i,
        {
            let t = tasks.remove(0);
            proof {
                assert(t == all[i as int]);
            }
            let ghost before = *self;
            let res = self.submit(t);
            proof {
                let qs0 = qs;
                let rs0 = rs;
                qs = qs.push(*self);
                rs = rs.push(res);
                assert forall|j: int| 0 <= j < rs.len() implies #[trigger] Self::submit_post(
                    qs[j],
                    qs[j + 1],
                    all[j],
                    rs[j],
                ) by {
                    if j < rs0.len() {
                        assert(qs[j] == qs0[j] && qs[j + 1] == qs0[j + 1] && rs[j] == rs0[j]);
                    } else {
                        assert(qs[j] == before);
                    }
                }
                assert forall|j: int| 0 <= j < rs.len() - 1 implies (#[trigger] rs[j]) is Ok by {
                    assert(rs[j] == rs0[j]);
                }
            }
            match res {
                Ok(id) => {
                    ids.push(id);
                    i = i + 1;
                    proof {
                        assert(ids@ =~= all.take(i as int).map_values(|t: GorillaTask| t.id));
                        assert(tasks@ =~= all.skip(i as int));
                        assert forall|j: int| 0 <= j < rs.len() implies (#[trigger] rs[j]) is Ok by {
                            if j < rs.len() - 1 {
                            }
                        }
                    }
                },
                Err(e) => {
                    let r: Result<Vec<TaskId>, TaskError> = Err(e);
                    assert(Self::batch_post(*old(self), *self, all, qs, rs, r));
                    return r;
                },
            }
        }
        proof {
            assert(all.take(n as int) =~= all);
            assert(Self::batch_post(*old(self), *self, all, qs, rs, Ok(ids)));
        }
        Ok(ids)
    }

    /// The queue `dequeue` serves and the position of the entry it takes: the
    /// first queue, from `Critical` down to `Low`, holding a pending task, and
    /// its first entry naming one.
    pub open spec fn dequeue_pick(&self) -> Option<(TaskPriority, nat)> {
        let t = self.tasks();
        let c = scan(t, self.queue(TaskPriority::Critical), 0);
        let h = scan(t, self.queue(TaskPriority::High), 0);
        let n = scan(t, self.queue(TaskPriority::Normal), 0);
        let l = scan(t, self.queue(TaskPriority::Low), 0);
        if c < self.queue(TaskPriority::Critical).len() {
            Some((TaskPriority::Critical, c))
        } else if h < self.queue(TaskPriority::High).len() {
            Some((TaskPriority::High, h))
        } else if n < self.queue(TaskPriority::Normal).len() {
            Some((TaskPriority::Normal, n))
        } else if l < self.queue(TaskPriority::Low).len() {
            Some((TaskPriority::Low, l))
        } else {
            None
        }
    }

    /// The queue of priority `p` after `dequeue`: the queues served before the
    /// picked one are emptied, the picked one loses its entries up to and
    /// including the picked one, later ones are kept.
    pub open spec fn queue_after_dequeue(&self, p: TaskPriority) -> Seq<u128> {
        match self.dequeue_pick() {
            Some((pp, i)) => if rank(p) > rank(pp) {
                Seq::<u128>::empty()
            } else if p == pp {
                self.queue(p).skip(i + 1int)
            } else {
                self.queue(p)
            },
            None => Seq::<u128>::empty(),
        }
    }

    /// What `dequeue_at(now)` does: the picked task becomes running, started
    /// at `now`, and a copy of it is returned; with no pending task queued,
    /// nothing is returned and the tasks are unchanged.
    pub open spec fn dequeue_post(
        old_q: TaskQueue,
        new_q: TaskQueue,
        now: i64,
        r: Option<GorillaTask>,
    ) -> bool {
        &&& forall|p: TaskPriority| #[trigger] new_q.queue(p) == old_q.queue_after_dequeue(p)
        &&& new_q.dedup() == old_q.dedup()
        &&& match old_q.dequeue_pick() {
            Some((p, i)) => {
                let k = old_q.queue(p)[i as int];
                &&& new_q.tasks().has(k)
                &&& new_q.tasks().at(k) == (GorillaTask {
                    state: TaskState::Running,
                    started_at: Some(now),
                    ..old_q.tasks().at(k)
                })
                &&& Self::others_unchanged(old_q.tasks(), new_q.tasks(), k)
                &&& r is Some && same_task(r.unwrap(), new_q.tasks().at(k))
            },
            None => r is None && new_q.tasks() == old_q.tasks(),
        }
    }

    /// Take the next task to execute at time `now`: the front pending task of
    /// the highest priority that has one (first come, first served within a
    /// priority). It becomes running, started at `now`; a copy is returned.
    pub fn dequeue_at(&mut self, now: i64) -> (r: Option<GorillaTask>)
        requires
            old(self).wf(),
        ensures
            final(self).wf(),
            Self::dequeue_post(*old(self), *final(self), now, r),
    {
        let ghost q0 = *self;
        proof {
            lemma_scan(self.tasks(), self.queue(TaskPriority::Critical), 0);
            lemma_scan(self.tasks(), self.queue(TaskPriority::High), 0);
            lemma_scan(self.tasks(), self.queue(TaskPriority::Normal), 0);
            lemma_scan(self.tasks(), self.queue(TaskPriority::Low), 0);
        }
        let mut picked = take_first_pending(&self.tasks, &mut self.critical);
        if picked.is_none() {
            picked = take_first_pending(&self.tasks, &mut self.high);
            if picked.is_none() {
                picked = take_first_pending(&self.tasks, &mut self.normal);
                if picked.is_none() {
                    picked = take_first_pending(&self.tasks, &mut self.low);
                }
            }
        }
        proof {
            assert forall|p: TaskPriority| #[trigger] self.queue(p) == q0.queue_after_dequeue(p) by {
                assert(self.queue(p) =~= q0.queue_after_dequeue(p));
            }
        }
        match picked {
            None => None,
            Some(k) => {
                match self.tasks.find(k) {
                    None => None,
                    Some(i) => {
                        let ghost t0 = self.tasks;
                        proof {
                            t0.lemma_wf();
                        }
                        self.tasks.val_mut(i).state = TaskState::Running;
                        proof {
                            Table::lemma_wf_vals(t0, self.tasks);
                            lemma_table_set(t0, self.tasks, i as int, self.tasks.val_seq()[i as int]);
                        }
                        let ghost t1 = self.tasks;
                        proof {
                            t1.lemma_wf();
                        }
                        self.tasks.val_mut(i).started_at = Some(now);
                        proof {
                            Table::lemma_wf_vals(t1, self.tasks);
                            lemma_table_set(t1, self.tasks, i as int, self.tasks.val_seq()[i as int]);
                        }
                        Some(copy_task(self.tasks.val_at(i)))
                    },
                }
            },
        }
    }

    /// Take the next task to execute now; see `dequeue_at`.
    pub fn dequeue(&mut self) -> (r: Option<GorillaTask>)
        requires
            old(self).wf(),
        ensures
            final(self).wf(),
            exists|now: i64| Self::dequeue_post(*old(self), *final(self), now, r),
    {
        let now = now_ms();
        self.dequeue_at(now)
    }

    /// What `complete(task_id, result)` does: an unknown task is reported and
    /// nothing changes. Otherwise the task becomes completed (failed when the
    /// result reports failure) and keeps the result; every task that this
    /// releases becomes pending and joins the back of its priority's queue, in
    /// submission order; nothing else changes.
    pub open spec fn complete_post(
        old_q: TaskQueue,
        new_q: TaskQueue,
        task_id: TaskId,
        result: TaskResult,
        r: Result<(), TaskError>,
    ) -> bool {
        let t = old_q.tasks();
        let k0 = task_id.0;
        let ok = result.success;
        if !t.has(k0) {
            &&& r == Err::<(), TaskError>(TaskError::NotFound(task_id))
            &&& new_q.tasks() == t
            &&& new_q.dedup() == old_q.dedup()
            &&& Self::same_queues(new_q, old_q)
        } else {
            &&& r == Ok::<(), TaskError>(())
            &&& new_q.dedup() == old_q.dedup()
            &&& forall|k: u128| #[trigger] new_q.tasks().has(k) == t.has(k)
            &&& new_q.tasks().at(k0) == (GorillaTask {
                state: if ok {
                    TaskState::Completed
                } else {
                    TaskState::Failed
                },
                result: Some(result),
                ..t.at(k0)
            })
            &&& forall|k: u128|
                k != k0 && t.has(k) ==> #[trigger] new_q.tasks().at(k) == if releases(t, k0, ok, k) {
                    with_state(t.at(k), TaskState::Pending)
                } else {
                    t.at(k)
                }
            &&& forall|p: TaskPriority|
                #[trigger] new_q.queue(p) == old_q.queue(p) + with_priority(t, released(t, k0, ok), p)
        }
    }

    /// Record the result of a task: it becomes completed, or failed when the
    /// result says so, and every blocked task whose dependencies are now all
    /// completed becomes pending and is queued.
    pub fn complete(&mut self, task_id: &TaskId, result: TaskResult) -> (r: Result<(), TaskError>)
        requires
            old(self).wf(),
        ensures
            final(self).wf(),
            Self::complete_post(*old(self), *final(self), *task_id, result, r),
    {
        let k0 = task_id.0;
        let i = match self.tasks.find(k0) {
            Some(i) => i,
            None => {
                return Err(TaskError::NotFound(*task_id));
            },
        };
        let ghost q0 = *self;
        let ghost t = self.tasks;
        let ok = result.success;
        proof {
            t.lemma_wf();
        }
        self.tasks.val_mut(i).state = if ok {
            TaskState::Completed
        } else {
            TaskState::Failed
        };
        proof {
            Table::lemma_wf_vals(t, self.tasks);
            lemma_table_set(t, self.tasks, i as int, self.tasks.val_seq()[i as int]);
        }
        let ghost ta = self.tasks;
        proof {
            ta.lemma_wf();
        }
        self.tasks.val_mut(i).result = Some(result);
        proof {
            Table::lemma_wf_vals(ta, self.tasks);
            lemma_table_set(ta, self.tasks, i as int, self.tasks.val_seq()[i as int]);
        }
        let ghost t1 = self.tasks;
        let ghost pred = |k: u128| releases(t, k0, ok, k);
        proof {
            t1.lemma_wf();
            assert forall|deps: Seq<TaskId>|
                deps_met(t1, deps) == (forall|j: int|
                    0 <= j < deps.len() ==> completed_after(t, k0, ok, #[trigger] deps[j].0)) by {
                if deps_met(t1, deps) {
                    assert forall|j: int| 0 <= j < deps.len() implies completed_after(
                        t,
                        k0,
                        ok,
                        #[trigger] deps[j].0,
                    ) by {
                        assert(t1.has(deps[j].0));
                    }
                }
                if forall|j: int| 0 <= j < deps.len() ==> completed_after(t, k0, ok, #[trigger] deps[j].0) {
                    assert forall|j: int| 0 <= j < deps.len() implies t1.has(#[trigger] deps[j].0)
                        && t1.at(deps[j].0).state == TaskState::Completed by {
                        assert(completed_after(t, k0, ok, deps[j].0));
                    }
                }
            }
        }
        proof {
            assert(t.key_seq()[i as int] == k0);
            assert(t.has(k0));
            assert(t.at(k0).id.0 == k0);
            assert(self.tasks.at(k0).id == t.at(k0).id);
            assert forall|k: u128| self.tasks.has(k) implies (#[trigger] self.tasks.at(k)).id.0 == k by {
                if k != k0 {
                    assert(t.has(k));
                }
            }
        }
        // Collect the released tasks.
        let mut ids: Vec<u128> = Vec::new();
        let n = self.tasks.size();
        let mut j: usize = 0;
        while j < n
            invariant
                self.wf(),
                self.tasks == t1,
                t.wf(),
                n == t1.len(),
                j <= n,
                t1.key_seq() == t.key_seq(),
                pred == (|k: u128| releases(t, k0, ok, k)),
                ids@ == t.key_seq().take(j as int).filter(pred),
                forall|k: u128| k != k0 && t.has(k) ==> #[trigger] t1.at(k) == t.at(k),
                forall|k: u128| #[trigger] t1.has(k) == t.has(k),
                forall|deps: Seq<TaskId>|
                    deps_met(t1, deps) == (forall|jj: int|
                        0 <= jj < deps.len() ==> completed_after(t, k0, ok, #[trigger] deps[jj].0)),
            decreases n - j,
        {
            proof {
                t1.lemma_wf();
                t.lemma_wf();
                lemma_filter_take_step(t.key_seq(), j as int, pred);
            }
            let k = self.tasks.key_at(j);
            let task = self.tasks.val_at(j);
            proof {
                assert(t1.at(k) == *task);
            }
            let rel = k != k0 && task.state == TaskState::Blocked && contains_id(&task.depends_on, k0)
                && self.deps_completed(&task.depends_on);
            proof {
                if k != k0 {
                    assert(t.has(k));
                }
                assert(pred(t.key_seq()[j as int]) == rel);
            }
            if rel {
                ids.push(k);
            }
            j = j + 1;
        }
        proof {
            assert(t.key_seq().take(n as int) =~= t.key_seq());
        }
        // Release them.
        let ghost pre = *self;
        let mut m: usize = 0;
        while m < ids.len()
            invariant
                self.wf(),
                self.dedup_index == pre.dedup_index,
                ids@ == released(t, k0, ok),
                t.wf(),
                t.has(k0),
                pred == (|k: u128| releases(t, k0, ok, k)),
                m <= ids@.len(),
                self.tasks.key_seq() == t.key_seq(),
                forall|k: u128| #[trigger] self.tasks.has(k) == t.has(k),
                self.tasks.at(k0) == t1.at(k0),
                forall|k: u128|
                    k != k0 && t.has(k) ==> #[trigger] self.tasks.at(k) == if ids@.take(m as int).contains(k) {
                        with_state(t.at(k), TaskState::Pending)
                    } else {
                        t.at(k)
                    },
                forall|p: TaskPriority|
                    #[trigger] self.queue(p) == q0.queue(p) + with_priority(t, ids@.take(m as int), p),
            decreases ids@.len() - m,
        {
            let k = ids[m];
            proof {
                t.lemma_wf();
                let kk = k;
                assert(ids@.contains(kk));
                t.key_seq().filter_lemma(pred);
                assert(pred(kk));
                assert(kk != k0 && t.has(kk));
            }
            let ghost before = *self;
            match self.tasks.find(k) {
                Some(idx) => {
                    let ghost tb = self.tasks;
                    proof {
                        tb.lemma_wf();
                        assert(tb.key_seq()[idx as int] == k);
                        assert(tb.at(k).priority == t.at(k).priority);
                        assert(tb.at(k).id.0 == k);
                    }
                    self.tasks.val_mut(idx).state = TaskState::Pending;
                    proof {
                        Table::lemma_wf_vals(tb, self.tasks);
                        lemma_table_set(tb, self.tasks, idx as int, self.tasks.val_seq()[idx as int]);
                        assert(self.tasks.at(k) == with_state(tb.at(k), TaskState::Pending));
                        assert forall|kk: u128| self.tasks.has(kk) implies (#[trigger] self.tasks.at(kk)).id.0 == kk by {
                            if kk != k {
                                assert(tb.has(kk));
                            }
                        }
                    }
                    let p = self.tasks.val_at(idx).priority;
                    self.push_queue(p, k);
                    proof {
                        assert(p == t.at(k).priority);
                        assert(self.tasks.at(k0) == tb.at(k0));
                        assert forall|q: TaskPriority| #[trigger] self.queue(q) == q0.queue(q)
                            + with_priority(t, ids@.take(m + 1), q) by {
                            lemma_with_priority_step(t, ids@, m as int, q);
                            assert(ids@[m as int] == k);
                            assert(before.queue(q) == q0.queue(q) + with_priority(t, ids@.take(m as int), q));
                            assert(q0.queue(q) + with_priority(t, ids@.take(m as int), q).push(k)
                                =~= (q0.queue(q) + with_priority(t, ids@.take(m as int), q)).push(k));
                        }
                        assert(ids@.take(m + 1) =~= ids@.take(m as int).push(k));
                        assert forall|kk: u128| kk != k0 && t.has(kk) implies #[trigger] self.tasks.at(kk)
                            == if ids@.take(m + 1).contains(kk) {
                            with_state(t.at(kk), TaskState::Pending)
                        } else {
                            t.at(kk)
                        } by {
                            if kk == k {
                                assert(ids@.take(m + 1)[m as int] == k);
                            } else {
                                assert(ids@.take(m + 1).contains(kk) == ids@.take(m as int).contains(kk)) by {
                                    if ids@.take(m + 1).contains(kk) {
                                        let w = ids@.take(m + 1).index_of(kk);
                                        assert(ids@.take(m as int)[w] == kk);
                                    }
                                    if ids@.take(m as int).contains(kk) {
                                        let w = ids@.take(m as int).index_of(kk);
                                        assert(ids@.take(m + 1)[w] == kk);
                                    }
                                }
                            }
                        }
                    }
                },
                None => {},
            }
            m = m + 1;
        }
        proof {
            assert(ids@.take(ids@.len() as int) =~= ids@);
            t.key_seq().filter_lemma(pred);
            assert forall|k: u128| k != k0 && t.has(k) implies #[trigger] self.tasks().at(k) == if releases(
                t,
                k0,
                ok,
                k,
            ) {
                with_state(t.at(k), TaskState::Pending)
            } else {
                t.at(k)
            } by {
                t.lemma_wf();
                if releases(t, k0, ok, k) {
                    let p = t.pos(k);
                    assert(t.key_seq()[p] == k);
                    assert(pred(t.key_seq()[p]));
                    t.key_seq().lemma_filter_contains(pred, p);
                    assert(ids@.contains(k));
                } else {
                    assert(!pred(k));
                    if ids@.contains(k) {
                        let w = ids@.index_of(k);
                        assert(pred(ids@[w]));
                    }
                }
            }
            assert forall|p: TaskPriority| #[trigger] self.queue(p) == q0.queue(p) + with_priority(
                t,
                released(t, k0, ok),
                p,
            ) by {}
            assert forall|k: u128| self.tasks.has(k) implies (#[trigger] self.tasks.at(k)).id.0 == k by {
                if k != k0 {
                    assert(t.has(k));
                }
            }
        }
        Ok(())
    }

    /// Cancel a task. A completed or failed task cannot be cancelled; any
    /// other known task becomes cancelled.
    pub fn cancel(&mut self, task_id: &TaskId) -> (r: Result<(), TaskError>)
        requires
            old(self).wf(),
        ensures
            final(self).wf(),
            final(self).dedup() == old(self).dedup(),
            Self::same_queues(*final(self), *old(self)),
            !old(self).tasks().has(task_id.0) ==> r == Err::<(), TaskError>(TaskError::NotFound(*task_id))
                && final(self).tasks() == old(self).tasks(),
            old(self).tasks().has(task_id.0) && (old(self).tasks().at(task_id.0).state
                == TaskState::Completed || old(self).tasks().at(task_id.0).state == TaskState::Failed)
                ==> r == Err::<(), TaskError>(
                TaskError::AlreadyTerminal { id: *task_id, state: old(self).tasks().at(task_id.0).state },
            ) && final(self).tasks() == old(self).tasks(),
            old(self).tasks().has(task_id.0) && old(self).tasks().at(task_id.0).state
                != TaskState::Completed && old(self).tasks().at(task_id.0).state != TaskState::Failed ==> {
                &&& r == Ok::<(), TaskError>(())
                &&& final(self).tasks().has(task_id.0)
                &&& final(self).tasks().at(task_id.0) == with_state(
                    old(self).tasks().at(task_id.0),
                    TaskState::Cancelled,
                )
                &&& Self::others_unchanged(old(self).tasks(), final(self).tasks(), task_id.0)
            },
    {
        match self.tasks.find(task_id.0) {
            None => Err(TaskError::NotFound(*task_id)),
            Some(i) => {
                let st = self.tasks.val_at(i).state;
                if st == TaskState::Completed || st == TaskState::Failed {
                    return Err(TaskError::AlreadyTerminal { id: *task_id, state: st });
                }
                let ghost t0 = self.tasks;
                proof {
                    t0.lemma_wf();
                }
                self.tasks.val_mut(i).state = TaskState::Cancelled;
                proof {
                    Table::lemma_wf_vals(t0, self.tasks);
                    lemma_table_set(t0, self.tasks, i as int, self.tasks.val_seq()[i as int]);
                    assert forall|k: u128| self.tasks.has(k) implies (#[trigger] self.tasks.at(k)).id.0 == k by {
                        if k != task_id.0 {
                            assert(t0.has(k));
                        } else {
                            assert(t0.at(k).id.0 == k);
                        }
                    }
                }
                Ok(())
            },
        }
    }

    /// Mark a task as timed out at time `now`, with a failed result saying so.
    pub fn timeout_at(&mut self, task_id: &TaskId, now: i64) -> (r: Result<(), TaskError>)
        requires
            old(self).wf(),
        ensures
            final(self).wf(),
            final(self).dedup() == old(self).dedup(),
            Self::same_queues(*final(self), *old(self)),
            !old(self).tasks().has(task_id.0) ==> r == Err::<(), TaskError>(TaskError::NotFound(*task_id))
                && final(self).tasks() == old(self).tasks(),
            old(self).tasks().has(task_id.0) ==> {
                let t = final(self).tasks().at(task_id.0);
                &&& r == Ok::<(), TaskError>(())
                &&& final(self).tasks().has(task_id.0)
                &&& t == (GorillaTask {
                    state: TaskState::TimedOut,
                    result: t.result,
                    ..old(self).tasks().at(task_id.0)
                })
                &&& is_timeout_result(t.result, now)
                &&& Self::others_unchanged(old(self).tasks(), final(self).tasks(), task_id.0)
            },
    {
        match self.tasks.find(task_id.0) {
            None => Err(TaskError::NotFound(*task_id)),
            Some(i) => {
                self.mark_timed_out(i, now);
                Ok(())
            },
        }
    }

    /// Mark the task at position `i` as timed out at `now`.
    fn mark_timed_out(&mut self, i: usize, now: i64)
        requires
            old(self).wf(),
            i < old(self).tasks().len(),
        ensures
            final(self).wf(),
            final(self).dedup_index == old(self).dedup_index,
            Self::same_queues(*final(self), *old(self)),
            final(self).tasks().key_seq() == old(self).tasks().key_seq(),
            ({
                let k = old(self).tasks().key_seq()[i as int];
                let t = final(self).tasks().at(k);
                &&& final(self).tasks().has(k)
                &&& t == (GorillaTask { state: TaskState::TimedOut, result: t.result, ..old(self).tasks().at(k) })
                &&& is_timeout_result(t.result, now)
                &&& Self::others_unchanged(old(self).tasks(), final(self).tasks(), k)
            }),
    {
        let ghost t0 = self.tasks;
        proof {
            t0.lemma_wf();
        }
        self.tasks.val_mut(i).state = TaskState::TimedOut;
        proof {
            Table::lemma_wf_vals(t0, self.tasks);
            lemma_table_set(t0, self.tasks, i as int, self.tasks.val_seq()[i as int]);
        }
        let ghost t1 = self.tasks;
        proof {
            t1.lemma_wf();
        }
        self.tasks.val_mut(i).result = Some(timeout_result(now));
        proof {
            Table::lemma_wf_vals(t1, self.tasks);
            lemma_table_set(t1, self.tasks, i as int, self.tasks.val_seq()[i as int]);
            let k = t0.key_seq()[i as int];
            assert forall|kk: u128| self.tasks.has(kk) implies (#[trigger] self.tasks.at(kk)).id.0 == kk by {
                if kk != k {
                    assert(t0.has(kk));
                } else {
                    assert(t0.at(kk).id.0 == kk);
                }
            }
        }
    }

    /// Mark a task as timed out now; see `timeout_at`.
    pub fn timeout(&mut self, task_id: &TaskId) -> (r: Result<(), TaskError>)
        requires
            old(self).wf(),
        ensures
            final(self).wf(),
            final(self).dedup() == old(self).dedup(),
            Self::same_queues(*final(self), *old(self)),
            r is Err <==> !old(self).tasks().has(task_id.0),
            r is Err ==> r == Err::<(), TaskError>(TaskError::NotFound(*task_id)) && final(self).tasks()
                == old(self).tasks(),
            r is Ok ==> final(self).tasks().has(task_id.0) && final(self).tasks().at(task_id.0).state
                == TaskState::TimedOut && !final(self).tasks().at(task_id.0).result.unwrap().success
                && Self::others_unchanged(old(self).tasks(), final(self).tasks(), task_id.0),
    {
        let now = now_ms();
        self.timeout_at(task_id, now)
    }

    /// What `check_timeouts_at(now)` does: every running task that has run for
    /// longer than its timeout becomes timed out with a failed result, and the
    /// ids of these tasks are returned in submission order; nothing else changes.
    pub open spec fn check_timeouts_post(old_q: TaskQueue, new_q: TaskQueue, now: i64, r: Vec<TaskId>) -> bool {
        let t0 = old_q.tasks();
        &&& new_q.dedup() == old_q.dedup()
        &&& Self::same_queues(new_q, old_q)
        &&& r@ == t0.key_seq().filter(|k: u128| expired(t0.at(k), now)).map_values(|k: u128| TaskId(k))
        &&& forall|k: u128| #[trigger] new_q.tasks().has(k) == t0.has(k)
        &&& forall|k: u128|
            t0.has(k) ==> {
                let t = #[trigger] new_q.tasks().at(k);
                if expired(t0.at(k), now) {
                    &&& t == (GorillaTask { state: TaskState::TimedOut, result: t.result, ..t0.at(k) })
                    &&& is_timeout_result(t.result, now)
                } else {
                    t == t0.at(k)
                }
            }
    }

    /// Time out, at `now`, every running task that has run for longer than its
    /// timeout; returns their ids in submission order.
    pub fn check_timeouts_at(&mut self, now: i64) -> (r: Vec<TaskId>)
        requires
            old(self).wf(),
        ensures
            final(self).wf(),
            Self::check_timeouts_post(*old(self), *final(self), now, r),
    {
        let ghost t0 = self.tasks;
        let ghost q0 = *self;
        let ghost pred = |k: u128| expired(t0.at(k), now);
        let mut out: Vec<u128> = Vec::new();
        let n = self.tasks.size();
        let mut i: usize = 0;
        proof {
            t0.lemma_wf();
        }
        while i < n
            invariant
                self.wf(),
                t0.wf(),
                self.dedup_index == q0.dedup_index,
                Self::same_queues(*self, q0),
                n == t0.len(),
                i <= n,
                pred == (|k: u128| expired(t0.at(k), now)),
                self.tasks.key_seq() == t0.key_seq(),
                out@ == t0.key_seq().take(i as int).filter(pred),
                forall|j: int| i <= j < n ==> #[trigger] self.tasks.val_seq()[j] == t0.val_seq()[j],
                forall|j: int|
                    0 <= j < i ==> {
                        let t = #[trigger] self.tasks.val_seq()[j];
                        if expired(t0.val_seq()[j], now) {
                            &&& t == (GorillaTask {
                                state: TaskState::TimedOut,
                                result: t.result,
                                ..t0.val_seq()[j]
                            })
                            &&& is_timeout_result(t.result, now)
                        } else {
                            t == t0.val_seq()[j]
                        }
                    },
            decreases n - i,
        {
            proof {
                t0.lemma_wf();
                self.tasks.lemma_wf();
                lemma_filter_take_step(t0.key_seq(), i as int, pred);
                assert(t0.at(t0.key_seq()[i as int]) == t0.val_seq()[i as int]);
            }
            let task = self.tasks.val_at(i);
            let mut hit = false;
            if task.state == TaskState::Running {
                match (task.started_at, task.timeout) {
                    (Some(started), Some(limit)) => {
                        if now >= started {
                            let elapsed: i128 = (now as i128) - (started as i128);
                            let elapsed_nanos: u128 = (elapsed as u128) * 1_000_000;
                            hit = elapsed_nanos > limit.as_nanos();
                        }
                    },
                    _ => {},
                }
            }
            assert(hit == expired(t0.val_seq()[i as int], now));
            if hit {
                let k = self.tasks.key_at(i);
                let ghost before = self.tasks;
                self.mark_timed_out(i, now);
                proof {
                    before.lemma_wf();
                    self.tasks.lemma_wf();
                    assert forall|j: int| 0 <= j < n && j != i implies #[trigger] self.tasks.val_seq()[j]
                        == before.val_seq()[j] by {
                        let kj = before.key_seq()[j];
                        assert(before.pos(before.key_seq()[j]) == j);
                        assert(self.tasks.key_seq()[j] == kj);
                        assert(self.tasks.pos(self.tasks.key_seq()[j]) == j);
                        assert(before.key_seq().contains(kj));
                        assert(kj != k);
                        assert(self.tasks.at(kj) == before.at(kj));
                    }
                    assert(self.tasks.val_seq()[i as int] == self.tasks.at(k));
                }
                out.push(k);
            }
            i = i + 1;
        }
        proof {
            assert(t0.key_seq().take(n as int) =~= t0.key_seq());
        }
        let mut ids: Vec<TaskId> = Vec::new();
        let mut j: usize = 0;
        while j < out.len()
            invariant
                j <= out@.len(),
                ids@ == out@.take(j as int).map_values(|k: u128| TaskId(k)),
            decreases out@.len() - j,
        {
            ids.push(TaskId(out[j]));
            j = j + 1;
            proof {
                assert(ids@ =~= out@.take(j as int).map_values(|k: u128| TaskId(k)));
            }
        }
        proof {
            assert(out@.take(out@.len() as int) =~= out@);
            self.tasks.lemma_wf();
            assert forall|k: u128| old(self).tasks().has(k) implies {
                let t = #[trigger] self.tasks().at(k);
                if expired(old(self).tasks().at(k), now) {
                    &&& t == (GorillaTask {
                        state: TaskState::TimedOut,
                        result: t.result,
                        ..old(self).tasks().at(k)
                    })
                    &&& is_timeout_result(t.result, now)
                } else {
                    t == old(self).tasks().at(k)
                }
            } by {
                let p = t0.pos(k);
                assert(self.tasks.pos(k) == p);
                assert(self.tasks.val_seq()[p] == self.tasks.at(k));
            }
        }
        ids
    }

    /// Time out every running task that has run for longer than its timeout;
    /// see `check_timeouts_at`.
    pub fn check_timeouts(&mut self) -> (r: Vec<TaskId>)
        requires
            old(self).wf(),
        ensures
            final(self).wf(),
            exists|now: i64| Self::check_timeouts_post(*old(self), *final(self), now, r),
    {
        let now = now_ms();
        self.check_timeouts_at(now)
    }

    /// Copies of the tasks of gorilla `gorilla_id`, in submission order.
    pub fn list_for_gorilla(&self, gorilla_id: &GorillaId) -> (r: Vec<GorillaTask>)
        requires
            self.wf(),
        ensures
            ({
                let sel = self.tasks().val_seq().filter(|t: GorillaTask| t.gorilla_id == *gorilla_id);
                &&& r@.len() == sel.len()
                &&& forall|i: int| 0 <= i < sel.len() ==> same_task(#[trigger] r@[i], sel[i])
            }),
    {
        let ghost vals = self.tasks().val_seq();
        let ghost pred = |t: GorillaTask| t.gorilla_id == *gorilla_id;
        let mut r: Vec<GorillaTask> = Vec::new();
        let mut i: usize = 0;
        proof {
            self.tasks.lemma_wf();
        }
        while i < self.tasks.size()
            invariant
                self.wf(),
                vals == self.tasks().val_seq(),
                pred == (|t: GorillaTask| t.gorilla_id == *gorilla_id),
                i <= vals.len(),
                r@.len() == vals.take(i as int).filter(pred).len(),
                forall|j: int|
                    0 <= j < r@.len() ==> same_task(#[trigger] r@[j], vals.take(i as int).filter(pred)[j]),
            decreases vals.len() - i,
        {
            proof {
                self.tasks.lemma_wf();
                lemma_filter_take_step(vals, i as int, pred);
            }
            let t = self.tasks.val_at(i);
            assert(pred(vals[i as int]) == (t.gorilla_id == *gorilla_id));
            if t.gorilla_id == *gorilla_id {
                r.push(copy_task(t));
            }
            i = i + 1;
        }
        proof {
            self.tasks.lemma_wf();
            assert(vals.take(vals.len() as int) =~= vals);
        }
        r
    }

    /// A copy of the task `task_id`, if known.
    pub fn get(&self, task_id: &TaskId) -> (r: Option<GorillaTask>)
        requires
            self.wf(),
        ensures
            match r {
                Some(t) => self.tasks().has(task_id.0) && same_task(t, self.tasks().at(task_id.0)),
                None => !self.tasks().has(task_id.0),
            },
    {
        match self.tasks.get(task_id.0) {
            Some(t) => Some(copy_task(t)),
            None => None,
        }
    }

    /// A copy of the result of task `task_id`, if the task is known and has one.
    pub fn get_result(&self, task_id: &TaskId) -> (r: Option<TaskResult>)
        requires
            self.wf(),
        ensures
            r == (if self.tasks().has(task_id.0) {
                self.tasks().at(task_id.0).result
            } else {
                None
            }),
    {
        match self.tasks.get(task_id.0) {
            Some(t) => copy_result(&t.result),
            None => None,
        }
    }

    /// Number of tasks in state `s`.
    fn count_state(&self, s: TaskState) -> (n: usize)
        requires
            self.wf(),
        ensures
            n == self.tasks().val_seq().filter(|t: GorillaTask| t.state == s).len(),
    {
        let ghost pred = |t: GorillaTask| t.state == s;
        let ghost vals = self.tasks().val_seq();
        proof {
            self.tasks.lemma_wf();
        }
        let mut n: usize = 0;
        let mut i: usize = 0;
        while i < self.tasks.size()
            invariant
                self.tasks.wf(),
                vals == self.tasks().val_seq(),
                pred == (|t: GorillaTask| t.state == s),
                i <= vals.len(),
                n == vals.take(i as int).filter(pred).len(),
                n <= i,
            decreases vals.len() - i,
        {
            proof {
                self.tasks.lemma_wf();
                lemma_filter_take_step(vals, i as int, pred);
            }
            let st = self.tasks.val_at(i).state;
            assert(pred(vals[i as int]) == (st == s));
            if st == s {
                n = n + 1;
            }
            i = i + 1;
        }
        proof {
            self.tasks.lemma_wf();
            assert(vals.take(vals.len() as int) =~= vals);
        }
        n
    }

    /// Number of pending tasks.
    pub fn pending_count(&self) -> (n: usize)
        requires
            self.wf(),
        ensures
            n == self.tasks().val_seq().filter(|t: GorillaTask| t.state == TaskState::Pending).len(),
    {
        self.count_state(TaskState::Pending)
    }

    /// Number of running tasks.
    pub fn running_count(&self) -> (n: usize)
        requires
            self.wf(),
        ensures
            n == self.tasks().val_seq().filter(|t: GorillaTask| t.state == TaskState::Running).len(),
    {
        self.count_state(TaskState::Running)
    }
}

impl Default for TaskQueue {
    /// An empty queue.
    fn default() -> (q: TaskQueue)
        ensures
            q.wf(),
            q.tasks().len() == 0,
    {
        TaskQueue::new()
    }
}

/// Tasks are served by priority and, within one priority, first come first
/// served: the entry `dequeue` takes names a pending task, no queue of higher
/// priority holds a pending task, and no entry before it in its own queue
/// does; with nothing picked, no queue holds a pending task.
pub proof fn lemma_dequeue_order(q: TaskQueue)
    ensures
        match q.dequeue_pick() {
            Some((p, i)) => {
                &&& i < q.queue(p).len()
                &&& q.pending(q.queue(p)[i as int])
                &&& forall|j: int| 0 <= j < i ==> !q.pending(#[trigger] q.queue(p)[j])
                &&& forall|hp: TaskPriority, j: int|
                    rank(hp) > rank(p) && 0 <= j < q.queue(hp).len() ==> !q.pending(
                        #[trigger] q.queue(hp)[j],
                    )
            },
            None => forall|p: TaskPriority, j: int|
                0 <= j < q.queue(p).len() ==> !q.pending(#[trigger] q.queue(p)[j]),
        },
{
    let t = q.tasks();
    lemma_scan(t, q.queue(TaskPriority::Critical), 0);
    lemma_scan(t, q.queue(TaskPriority::High), 0);
    lemma_scan(t, q.queue(TaskPriority::Normal), 0);
    lemma_scan(t, q.queue(TaskPriority::Low), 0);
}

/// While a task holding a deduplication key is pending, a second task with
/// the same key is refused: if submitting `t1` with key `k` is accepted and
/// leaves it pending, submitting `t2` with the same key right after is
/// refused as a duplicate of `t1`.
pub proof fn lemma_dedup_refuses_second(
    q0: TaskQueue,
    q1: TaskQueue,
    q2: TaskQueue,
    t1: GorillaTask,
    t2: GorillaTask,
    r2: Result<TaskId, TaskError>,
)
    requires
        TaskQueue::submit_post(q0, q1, t1, Ok(t1.id)),
        q0.initial_state(t1) == TaskState::Pending,
        t1.dedup_key is Some,
        t2.dedup_key is Some,
        t2.dedup_key.unwrap()@ == t1.dedup_key.unwrap()@,
        TaskQueue::submit_post(q1, q2, t2, r2),
    ensures
        r2 == Err::<TaskId, TaskError>(
            TaskError::Duplicate { key: t2.dedup_key.unwrap(), existing: t1.id },
        ),
{
    assert(q1.dedup()[t1.dedup_key.unwrap()@] == t1.id.0);
}

/// Once the task holding a deduplication key has finished, the key is free
/// again: after `complete` of the task the index names for the key, a task
/// with that key is accepted.
pub proof fn lemma_dedup_free_after_completion(
    q0: TaskQueue,
    q1: TaskQueue,
    q2: TaskQueue,
    done: TaskId,
    result: TaskResult,
    t: GorillaTask,
    r: Result<TaskId, TaskError>,
)
    requires
        q0.tasks().has(done.0),
        t.dedup_key is Some,
        q0.dedup().dom().contains(t.dedup_key.unwrap()@),
        q0.dedup()[t.dedup_key.unwrap()@] == done.0,
        TaskQueue::complete_post(q0, q1, done, result, Ok(())),
        TaskQueue::submit_post(q1, q2, t, r),
    ensures
        r == Ok::<TaskId, TaskError>(t.id),
{
}

} // verus!
