//! Tasks received over the agent-to-agent (A2A) protocol: the board of tasks,
//! claiming the pending ones, the temporary fighter that runs a task, and
//! recording what came of it.
//!
//! Polling on a timer and running the conversation happen outside; these
//! functions make the decisions around them, and spawn and remove the
//! task's fighter in the Ring.
use vstd::prelude::*;

use crate::ids::FighterId;
use crate::registry::{texts, FighterManifest, WeightClass};
use crate::ring::{FighterStatus, Ring};
use crate::text::{append_chars, chars_eq, chars_of, put, string_from_chars, to_owned_string};

verus! {

/// Where a task stands.
#[derive(Debug, Clone)]
pub enum A2ATaskStatus {
    /// Waiting to be picked up.
    Pending,
    /// Picked up and running.
    Running,
    /// Finished with a result.
    Completed,
    /// Finished with the given error.
    Failed(String),
    /// Called off by the requester.
    Cancelled,
}

/// What the logic reads of a task's JSON input.
#[derive(Debug, Clone)]
pub struct A2ATaskInput {
    /// The `"prompt"` field, when it is a string.
    pub prompt_field: Option<String>,
    /// The `"message"` field, when it is a string.
    pub message_field: Option<String>,
    /// The input itself, when it is a string.
    pub as_text: Option<String>,
    /// The input as JSON text.
    pub json_text: String,
    /// The entries of the `"context"` object, when it is one: each key with
    /// its value as JSON text, in the object's order.
    pub context: Vec<(String, String)>,
}

/// The result of a completed task (given out in text mode).
#[derive(Debug, Clone)]
pub struct A2ATaskOutput {
    /// The fighter's response.
    pub content: String,
    /// Tokens spent.
    pub tokens_used: u64,
    /// Model round trips.
    pub iterations: u32,
    /// Tool calls made.
    pub tool_calls: u32,
}

/// What a fighter's conversation returned.
#[derive(Debug, Clone)]
pub struct LoopSummary {
    /// The final response.
    pub response: String,
    /// Tokens spent.
    pub tokens_used: u64,
    /// Model round trips.
    pub iterations: u32,
    /// Tool calls made.
    pub tool_calls: u32,
}

/// A task on the board.
#[derive(Debug, Clone)]
pub struct A2ATask {
    /// Its id.
    pub id: String,
    /// Where it stands.
    pub status: A2ATaskStatus,
    /// Its input.
    pub input: A2ATaskInput,
    /// Its result, once completed.
    pub output: Option<A2ATaskOutput>,
    /// When it was created (milliseconds since the Unix epoch).
    pub created_at: i64,
    /// When it last changed (milliseconds since the Unix epoch).
    pub updated_at: i64,
}

// ---------------------------------------------------------------------------
// Prompts and the temporary fighter
// ---------------------------------------------------------------------------

/// The prompt a task asks for: its `"prompt"` field, else its `"message"`
/// field, else the input itself when it is a string, else its JSON text.
pub open spec fn prompt_of(i: A2ATaskInput) -> Seq<char> {
    match i.prompt_field {
        Some(p) => p@,
        None => match i.message_field {
            Some(m) => m@,
            None => match i.as_text {
                Some(t) => t@,
                None => i.json_text@,
            },
        },
    }
}

/// The prompt to send for a task.
pub fn extract_prompt(input: &A2ATaskInput) -> (r: String)
    ensures
        r@ == prompt_of(*input),
{
    match &input.prompt_field {
        Some(p) => string_from_chars(chars_of(p.as_str()).as_slice()),
        None => match &input.message_field {
            Some(m) => string_from_chars(chars_of(m.as_str()).as_slice()),
            None => match &input.as_text {
                Some(t) => string_from_chars(chars_of(t.as_str()).as_slice()),
                None => string_from_chars(chars_of(input.json_text.as_str()).as_slice()),
            },
        },
    }
}

/// The context entries as lines `- **key**: value`.
pub open spec fn context_lines(c: Seq<(String, String)>) -> Seq<char>
    decreases c.len(),
{
    if c.len() == 0 {
        Seq::empty()
    } else {
        context_lines(c.drop_last()) + "- **"@ + c.last().0@ + "**: "@ + c.last().1@ + "\n"@
    }
}

/// The system prompt of a task's fighter: the standing instructions, then,
/// when the input has a non-empty context object, a section listing it.
pub open spec fn task_system_prompt(i: A2ATaskInput) -> Seq<char> {
    let base = "You are an AI agent executing a task received via the A2A protocol. Complete the task thoroughly and return a clear, actionable response."@;
    if i.context@.len() > 0 {
        base + "\n\n## Task Context\n"@ + context_lines(i.context@)
    } else {
        base
    }
}

/// The system prompt for the fighter that runs a task.
pub fn build_task_system_prompt(input: &A2ATaskInput) -> (r: String)
    ensures
        r@ == task_system_prompt(*input),
{
    let mut out: Vec<char> = Vec::new();
    put(
        &mut out,
        "You are an AI agent executing a task received via the A2A protocol. Complete the task thoroughly and return a clear, actionable response.",
    );
    if input.context.len() > 0 {
        put(&mut out, "\n\n## Task Context\n");
        let ghost head = out@;
        let mut i: usize = 0;
        while i < input.context.len()
            invariant
                i <= input.context@.len(),
                out@ == head + context_lines(input.context@.take(i as int)),
            decreases input.context@.len() - i,
        {
            let ghost before = out@;
            put(&mut out, "- **");
            let k = chars_of(input.context[i].0.as_str());
            append_chars(&mut out, k.as_slice());
            put(&mut out, "**: ");
            let v = chars_of(input.context[i].1.as_str());
            append_chars(&mut out, v.as_slice());
            put(&mut out, "\n");
            proof {
                let c = input.context@;
                assert(c.take(i + 1).drop_last() =~= c.take(i as int));
                assert(c.take(i + 1).last() == c[i as int]);
                assert(out@ =~= head + context_lines(c.take(i + 1)));
            }
            i = i + 1;
        }
        assert(input.context@.take(input.context@.len() as int) =~= input.context@);
    }
    string_from_chars(out.as_slice())
}

/// The number of bytes of `c` in UTF-8.
pub open spec fn utf8_width(c: char) -> nat {
    if (c as u32) < 0x80 {
        1
    } else if (c as u32) < 0x800 {
        2
    } else if (c as u32) < 0x10000 {
        3
    } else {
        4
    }
}

/// The number of bytes of `s` in UTF-8.
pub open spec fn utf8_len(s: Seq<char>) -> nat
    decreases s.len(),
{
    if s.len() == 0 {
        0
    } else {
        utf8_len(s.drop_last()) + utf8_width(s.last())
    }
}

/// The first `n` bytes of `s` end between two characters.
pub open spec fn byte_cut_ok(s: Seq<char>, n: nat) -> bool {
    exists|k: int| 0 <= k <= s.len() && #[trigger] utf8_len(s.take(k)) == n
}

fn width_of(c: char) -> (w: usize)
    ensures
        w == utf8_width(c),
{
    let u = c as u32;
    if u < 0x80 {
        1
    } else if u < 0x800 {
        2
    } else if u < 0x10000 {
        3
    } else {
        4
    }
}

proof fn lemma_utf8_len_step(s: Seq<char>, i: int)
    requires
        0 <= i < s.len(),
    ensures
        utf8_len(s.take(i + 1)) == utf8_len(s.take(i)) + utf8_width(s[i]),
{
    assert(s.take(i + 1).drop_last() =~= s.take(i));
}

proof fn lemma_utf8_len_grows(s: Seq<char>, i: int, j: int)
    requires
        0 <= i <= j <= s.len(),
    ensures
        utf8_len(s.take(i)) + (j - i) <= utf8_len(s.take(j)),
    decreases j - i,
{
    if i < j {
        lemma_utf8_len_step(s, j - 1);
        lemma_utf8_len_grows(s, i, j - 1);
    }
}

/// Where the first `min(8, bytes)` bytes of `id` end, counted in characters.
pub open spec fn short_id_len(id: Seq<char>) -> int {
    choose|k: int| 0 <= k <= id.len() && #[trigger] utf8_len(id.take(k)) == if utf8_len(id) < 8 {
        utf8_len(id)
    } else {
        8
    }
}

/// The name of the fighter that runs task `task_id`: `a2a-task-` and the
/// first eight bytes of the id (all of it when shorter).
pub fn task_fighter_name(task_id: &str) -> (r: String)
    requires
        byte_cut_ok(task_id@, if utf8_len(task_id@) < 8 { utf8_len(task_id@) } else { 8 }),
    ensures
        r@ == "a2a-task-"@ + task_id@.take(short_id_len(task_id@)),
        utf8_len(task_id@.take(short_id_len(task_id@))) == if utf8_len(task_id@) < 8 {
            utf8_len(task_id@)
        } else {
            8
        },
{
    let c = chars_of(task_id);
    let ghost s = task_id@;
    let ghost target: nat = if utf8_len(s) < 8 { utf8_len(s) } else { 8 };
    let mut i: usize = 0;
    let mut w: usize = 0;
    assert(s.take(0) =~= Seq::<char>::empty());
    while i < c.len() && w + width_of(c[i]) <= 8
        invariant
            c@ == s,
            i <= s.len(),
            w == utf8_len(s.take(i as int)),
            w <= 8,
        decreases s.len() - i,
    {
        proof { lemma_utf8_len_step(s, i as int); }
        w = w + width_of(c[i]);
        i = i + 1;
    }
    proof {
        assert(s.take(s.len() as int) =~= s);
        let k = choose|k: int| 0 <= k <= s.len() && #[trigger] utf8_len(s.take(k)) == target;
        if k > i {
            lemma_utf8_len_step(s, i as int);
            lemma_utf8_len_grows(s, i + 1, k);
            lemma_utf8_len_grows(s, i as int, s.len() as int);
        } else if k < i {
            lemma_utf8_len_grows(s, k + 1, i as int);
            lemma_utf8_len_step(s, k);
            lemma_utf8_len_grows(s, i as int, s.len() as int);
            if i < s.len() {
                lemma_utf8_len_step(s, i as int);
            }
        }
        assert(k == i);
        assert(short_id_len(s) == i) by {
            let k2 = short_id_len(s);
            assert(0 <= k2 <= s.len() && utf8_len(s.take(k2)) == target);
            if k2 > i {
                lemma_utf8_len_grows(s, i as int, k2);
            } else if k2 < i {
                lemma_utf8_len_grows(s, k2, i as int);
            }
        }
    }
    let mut out: Vec<char> = Vec::new();
    put(&mut out, "a2a-task-");
    let head = crate::text::slice_range(c.as_slice(), 0, i);
    append_chars(&mut out, head.as_slice());
    string_from_chars(out.as_slice())
}

/// The manifest of the temporary fighter that runs task `task_id`.
pub fn task_fighter_manifest(task_id: &str, input: &A2ATaskInput, model: &str) -> (m: FighterManifest)
    requires
        byte_cut_ok(task_id@, if utf8_len(task_id@) < 8 { utf8_len(task_id@) } else { 8 }),
    ensures
        m.name@ == "a2a-task-"@ + task_id@.take(short_id_len(task_id@)),
        m.description@ == "Temporary fighter for A2A task "@ + task_id@,
        m.model@ == model@,
        m.system_prompt@ == task_system_prompt(*input),
        m.capabilities@.len() == 0,
        m.weight_class == WeightClass::Middleweight,
        m.tenant_id is None,
{
    let mut d: Vec<char> = Vec::new();
    put(&mut d, "Temporary fighter for A2A task ");
    put(&mut d, task_id);
    FighterManifest {
        name: task_fighter_name(task_id),
        description: string_from_chars(d.as_slice()),
        model: to_owned_string(model),
        system_prompt: build_task_system_prompt(input),
        capabilities: Vec::new(),
        weight_class: WeightClass::Middleweight,
        tenant_id: None,
    }
}


// ---------------------------------------------------------------------------
// The board of tasks
// ---------------------------------------------------------------------------

/// Where the task with id `id` stands in `s`: the first such position, or
/// `s.len()` when there is none.
pub open spec fn pos_of(s: Seq<A2ATask>, id: Seq<char>) -> int
    decreases s.len(),
{
    if s.len() == 0 {
        0
    } else if s[0].id@ == id {
        0
    } else {
        1 + pos_of(s.drop_first(), id)
    }
}

/// What `pos_of` gives.
pub proof fn lemma_pos_of(s: Seq<A2ATask>, id: Seq<char>)
    ensures
        0 <= pos_of(s, id) <= s.len(),
        pos_of(s, id) < s.len() ==> s[pos_of(s, id)].id@ == id,
        forall|j: int| 0 <= j < pos_of(s, id) ==> (#[trigger] s[j]).id@ != id,
    decreases s.len(),
{
    if s.len() > 0 && s[0].id@ != id {
        lemma_pos_of(s.drop_first(), id);
        assert forall|j: int| 0 <= j < pos_of(s, id) implies (#[trigger] s[j]).id@ != id by {
            if j > 0 {
                assert(s[j] == s.drop_first()[j - 1]);
            }
        }
    }
}

/// The task after a claim at `now`: a pending task is running from `now`,
/// any other is unchanged.
pub open spec fn claimed(t: A2ATask, now: i64) -> A2ATask {
    match t.status {
        A2ATaskStatus::Pending => A2ATask {
            id: t.id,
            status: A2ATaskStatus::Running,
            input: t.input,
            output: t.output,
            created_at: t.created_at,
            updated_at: now,
        },
        _ => t,
    }
}

/// The ids of the pending tasks of `s`, in order.
pub open spec fn pending_ids(s: Seq<A2ATask>) -> Seq<Seq<char>>
    decreases s.len(),
{
    if s.len() == 0 {
        Seq::empty()
    } else {
        let rest = pending_ids(s.drop_last());
        if s.last().status is Pending {
            rest.push(s.last().id@)
        } else {
            rest
        }
    }
}

/// The output recorded for a completed conversation.
pub open spec fn output_of(r: LoopSummary) -> A2ATaskOutput {
    A2ATaskOutput {
        content: r.response,
        tokens_used: r.tokens_used,
        iterations: r.iterations,
        tool_calls: r.tool_calls,
    }
}

/// The task after its conversation ended at `now` with `outcome`: a
/// cancelled task stays as it is; any other is completed with the output of
/// a success, or failed with the error's text.
pub open spec fn recorded(t: A2ATask, outcome: Result<LoopSummary, String>, now: i64) -> A2ATask {
    match t.status {
        A2ATaskStatus::Cancelled => t,
        _ => match outcome {
            Ok(r) => A2ATask {
                id: t.id,
                status: A2ATaskStatus::Completed,
                input: t.input,
                output: Some(output_of(r)),
                created_at: t.created_at,
                updated_at: now,
            },
            Err(e) => A2ATask {
                id: t.id,
                status: A2ATaskStatus::Failed(e),
                input: t.input,
                output: t.output,
                created_at: t.created_at,
                updated_at: now,
            },
        },
    }
}

/// No two tasks share an id.
pub open spec fn distinct_ids(s: Seq<A2ATask>) -> bool {
    forall|i: int, j: int| 0 <= i < j < s.len() ==> (#[trigger] s[i]).id@ != (#[trigger] s[j]).id@
}

/// The tasks, with distinct ids, in the order they arrived.
pub struct A2ATaskBoard {
    tasks: Vec<A2ATask>,
}

impl A2ATaskBoard {
    /// The tasks in order.
    pub closed spec fn tasks(&self) -> Seq<A2ATask> {
        self.tasks@
    }

    /// No two tasks share an id.
    pub open spec fn wf(&self) -> bool {
        distinct_ids(self.tasks())
    }

    /// An empty board.
    pub fn new() -> (b: A2ATaskBoard)
        ensures
            b.wf(),
            b.tasks() == Seq::<A2ATask>::empty(),
    {
        A2ATaskBoard { tasks: Vec::new() }
    }

    /// Number of tasks.
    pub fn len(&self) -> (n: usize)
        ensures
            n == self.tasks().len(),
    {
        self.tasks.len()
    }

    fn find(&self, id: &str) -> (p: usize)
        ensures
            p == pos_of(self.tasks(), id@),
    {
        let idc = chars_of(id);
        let mut i: usize = 0;
        while i < self.tasks.len()
            invariant
                i <= self.tasks@.len(),
                idc@ == id@,
                forall|j: int| 0 <= j < i ==> (#[trigger] self.tasks@[j]).id@ != id@,
            ensures
                i <= self.tasks@.len(),
                forall|j: int| 0 <= j < i ==> (#[trigger] self.tasks@[j]).id@ != id@,
                i < self.tasks@.len() ==> self.tasks@[i as int].id@ == id@,
            decreases self.tasks@.len() - i,
        {
            let tc = chars_of(self.tasks[i].id.as_str());
            if chars_eq(tc.as_slice(), idc.as_slice()) {
                break;
            }
            i = i + 1;
        }
        proof {
            let s = self.tasks@;
            lemma_pos_of(s, id@);
            let p = pos_of(s, id@);
            if p < i {
                assert(s[p].id@ == id@);
            }
            if p > i && i < s.len() {
                assert(s[i as int].id@ != id@);
            }
        }
        i
    }

    /// The task with id `id`, if any.
    pub fn get(&self, id: &str) -> (r: Option<&A2ATask>)
        ensures
            r == (if pos_of(self.tasks(), id@) < self.tasks().len() {
                Some(&self.tasks()[pos_of(self.tasks(), id@)])
            } else {
                None::<&A2ATask>
            }),
    {
        let p = self.find(id);
        if p < self.tasks.len() {
            Some(&self.tasks[p])
        } else {
            None
        }
    }

    /// Take the task with id `id` off the board; returns it if it was there.
    pub fn remove(&mut self, id: &str) -> (r: Option<A2ATask>)
        requires
            old(self).wf(),
        ensures
            final(self).wf(),
            r == (if pos_of(old(self).tasks(), id@) < old(self).tasks().len() {
                Some(old(self).tasks()[pos_of(old(self).tasks(), id@)])
            } else {
                None::<A2ATask>
            }),
            final(self).tasks() == (if r is Some {
                old(self).tasks().remove(pos_of(old(self).tasks(), id@))
            } else {
                old(self).tasks()
            }),
    {
        let p = self.find(id);
        if p >= self.tasks.len() {
            return None;
        }
        let ghost s = self.tasks@;
        let t = self.tasks.remove(p);
        proof {
            assert forall|a: int, b: int| 0 <= a < b < self.tasks@.len() implies (#[trigger] self.tasks@[a]).id@
                != (#[trigger] self.tasks@[b]).id@ by {
                let a0 = if a < p { a } else { a + 1 };
                let b0 = if b < p { b } else { b + 1 };
                assert(self.tasks@[a] == s[a0]);
                assert(self.tasks@[b] == s[b0]);
                assert(s[a0].id@ != s[b0].id@);
            }
        }
        Some(t)
    }

    /// Put `task` on the board, in place of the task with its id if there is one.
    pub fn add(&mut self, task: A2ATask)
        requires
            old(self).wf(),
        ensures
            final(self).wf(),
            final(self).tasks() == (if pos_of(old(self).tasks(), task.id@) < old(self).tasks().len() {
                old(self).tasks().update(pos_of(old(self).tasks(), task.id@), task)
            } else {
                old(self).tasks().push(task)
            }),
    {
        let p = self.find(task.id.as_str());
        let ghost s = self.tasks@;
        proof { lemma_pos_of(s, task.id@); }
        if p < self.tasks.len() {
            self.tasks.set(p, task);
            assert forall|i: int, j: int| 0 <= i < j < self.tasks@.len() implies (#[trigger] self.tasks@[i]).id@
                != (#[trigger] self.tasks@[j]).id@ by {
                assert(s[i].id@ != s[j].id@);
            }
        } else {
            self.tasks.push(task);
            assert forall|i: int, j: int| 0 <= i < j < self.tasks@.len() implies (#[trigger] self.tasks@[i]).id@
                != (#[trigger] self.tasks@[j]).id@ by {
                if j < s.len() {
                    assert(s[i].id@ != s[j].id@);
                } else {
                    assert(s[i].id@ != task.id@);
                }
            }
        }
    }

    /// Mark every pending task as running from `now`, and give their ids in
    /// board order.
    pub fn claim_pending(&mut self, now: i64) -> (ids: Vec<String>)
        requires
            old(self).wf(),
        ensures
            final(self).wf(),
            final(self).tasks().len() == old(self).tasks().len(),
            forall|i: int|
                0 <= i < old(self).tasks().len() ==> #[trigger] final(self).tasks()[i] == claimed(
                    old(self).tasks()[i],
                    now,
                ),
            texts(ids@) == pending_ids(old(self).tasks()),
    {
        let ghost s = self.tasks@;
        let n = self.tasks.len();
        let mut ids: Vec<String> = Vec::new();
        let mut i: usize = 0;
        assert(s.take(0) =~= Seq::<A2ATask>::empty());
        while i < n
            invariant
                n == s.len(),
                self.tasks@.len() == n,
                i <= n,
                forall|j: int| 0 <= j < i ==> #[trigger] self.tasks@[j] == claimed(s[j], now),
                forall|j: int| i <= j < n ==> #[trigger] self.tasks@[j] == s[j],
                texts(ids@) == pending_ids(s.take(i as int)),
            decreases n - i,
        {
            proof {
                assert(s.take(i + 1).drop_last() =~= s.take(i as int));
                assert(s.take(i + 1).last() == s[i as int]);
            }
            let pending = match self.tasks[i].status {
                A2ATaskStatus::Pending => true,
                _ => false,
            };
            if pending {
                let mut t = self.tasks.remove(i);
                let ghost before = ids@;
                ids.push(t.id.clone());
                assert(texts(ids@) =~= texts(before).push(t.id@));
                t.status = A2ATaskStatus::Running;
                t.updated_at = now;
                self.tasks.insert(i, t);
            }
            i = i + 1;
        }
        assert(s.take(n as int) =~= s);
        proof {
            assert forall|a: int, b: int| 0 <= a < b < self.tasks@.len() implies (#[trigger] self.tasks@[a]).id@
                != (#[trigger] self.tasks@[b]).id@ by {
                assert(s[a].id@ != s[b].id@);
                assert(self.tasks@[a].id == s[a].id);
                assert(self.tasks@[b].id == s[b].id);
            }
        }
        ids
    }

    /// Record that the conversation of task `id` ended at `now` with
    /// `outcome`. Says whether the task was on the board.
    pub fn record_outcome(&mut self, id: &str, outcome: Result<LoopSummary, String>, now: i64) -> (found: bool)
        requires
            old(self).wf(),
        ensures
            final(self).wf(),
            found == (pos_of(old(self).tasks(), id@) < old(self).tasks().len()),
            final(self).tasks() == (if found {
                old(self).tasks().update(
                    pos_of(old(self).tasks(), id@),
                    recorded(old(self).tasks()[pos_of(old(self).tasks(), id@)], outcome, now),
                )
            } else {
                old(self).tasks()
            }),
    {
        let p = self.find(id);
        if p >= self.tasks.len() {
            return false;
        }
        let ghost s = self.tasks@;
        let mut t = self.tasks.remove(p);
        let cancelled = match t.status {
            A2ATaskStatus::Cancelled => true,
            _ => false,
        };
        if !cancelled {
            match outcome {
                Ok(r) => {
                    t.status = A2ATaskStatus::Completed;
                    t.output = Some(A2ATaskOutput {
                        content: r.response,
                        tokens_used: r.tokens_used,
                        iterations: r.iterations,
                        tool_calls: r.tool_calls,
                    });
                },
                Err(e) => {
                    t.status = A2ATaskStatus::Failed(e);
                },
            }
            t.updated_at = now;
        }
        self.tasks.insert(p, t);
        proof {
            assert(self.tasks@ =~= s.update(p as int, recorded(s[p as int], outcome, now)));
            assert forall|a: int, b: int| 0 <= a < b < self.tasks@.len() implies (#[trigger] self.tasks@[a]).id@
                != (#[trigger] self.tasks@[b]).id@ by {
                assert(s[a].id@ != s[b].id@);
                assert(self.tasks@[a].id == s[a].id);
                assert(self.tasks@[b].id == s[b].id);
            }
        }
        true
    }
}

/// Spawn the temporary fighter that runs task `task_id` in the Ring: its
/// manifest is the task's (`task_fighter_manifest`), and the Ring files it
/// idle, without a bout, under a fresh id. Returns the id and the manifest.
pub fn spawn_task_fighter(ring: &mut Ring, task_id: &str, input: &A2ATaskInput, model: &str) -> (r: (
    FighterId,
    FighterManifest,
))
    requires
        old(ring).wf(),
        byte_cut_ok(task_id@, if utf8_len(task_id@) < 8 { utf8_len(task_id@) } else { 8 }),
    ensures
        final(ring).wf(),
        r.1.name@ == "a2a-task-"@ + task_id@.take(short_id_len(task_id@)),
        r.1.model@ == model@,
        r.1.system_prompt@ == task_system_prompt(*input),
        final(ring).roster().has(r.0.0),
        final(ring).entry(r.0.0).name@ == r.1.name@,
        final(ring).entry(r.0.0).model@ == model@,
        final(ring).entry(r.0.0).status == FighterStatus::Idle,
        final(ring).entry(r.0.0).current_bout is None,
        forall|j: u128| j != r.0.0 ==> (#[trigger] final(ring).roster().has(j) == old(ring).roster().has(j)),
        forall|j: u128| j != r.0.0 && old(ring).roster().has(j) ==> #[trigger] final(ring).entry(j) == old(ring).entry(j),
{
    let m = task_fighter_manifest(task_id, input, model);
    let id = ring.spawn_fighter(to_owned_string(m.name.as_str()), to_owned_string(m.model.as_str()));
    (id, m)
}

/// The end of task `id`'s run through its temporary fighter `fighter_id`,
/// at `now`: the outcome is recorded on the board as `record_outcome` does
/// (a cancelled task is left as it is), and the fighter is removed from
/// the Ring whatever the outcome. Says whether the task was on the board.
pub fn finish_task_run(
    board: &mut A2ATaskBoard,
    ring: &mut Ring,
    id: &str,
    fighter_id: &FighterId,
    outcome: Result<LoopSummary, String>,
    now: i64,
) -> (found: bool)
    requires
        old(board).wf(),
        old(ring).wf(),
    ensures
        final(board).wf(),
        final(ring).wf(),
        found == (pos_of(old(board).tasks(), id@) < old(board).tasks().len()),
        final(board).tasks() == (if found {
            old(board).tasks().update(
                pos_of(old(board).tasks(), id@),
                recorded(old(board).tasks()[pos_of(old(board).tasks(), id@)], outcome, now),
            )
        } else {
            old(board).tasks()
        }),
        !final(ring).roster().has(fighter_id.0),
        forall|j: u128| j != fighter_id.0 ==> (#[trigger] final(ring).roster().has(j) == old(ring).roster().has(j)),
        forall|j: u128| j != fighter_id.0 && old(ring).roster().has(j) ==> #[trigger] final(ring).entry(j)
            == old(ring).entry(j),
{
    let found = board.record_outcome(id, outcome, now);
    let _ = ring.kill_fighter(fighter_id);
    found
}

impl Default for A2ATaskBoard {
    /// An empty board.
    fn default() -> (b: A2ATaskBoard)
        ensures
            b.wf(),
            b.tasks() == Seq::<A2ATask>::empty(),
    {
        A2ATaskBoard::new()
    }
}

/// Claiming leaves no task pending.
pub proof fn lemma_claim_leaves_none_pending(t: A2ATask, now: i64)
    ensures
        !(claimed(t, now).status is Pending),
{
}

/// A cancelled task keeps its state whatever its conversation returned.
pub proof fn lemma_cancelled_task_kept(t: A2ATask, outcome: Result<LoopSummary, String>, now: i64)
    requires
        t.status is Cancelled,
    ensures
        recorded(t, outcome, now) == t,
{
}

/// Claiming twice at once claims nothing the second time.
pub proof fn lemma_claim_twice(s: Seq<A2ATask>, now: i64)
    ensures
        pending_ids(s.map_values(|t: A2ATask| claimed(t, now))) == Seq::<Seq<char>>::empty(),
    decreases s.len(),
{
    if s.len() > 0 {
        let m = s.map_values(|t: A2ATask| claimed(t, now));
        assert(m.drop_last() =~= s.drop_last().map_values(|t: A2ATask| claimed(t, now)));
        lemma_claim_twice(s.drop_last(), now);
    }
}

} // verus!
