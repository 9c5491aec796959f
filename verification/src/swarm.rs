//! Swarm coordination across fighters: tasks are split into subtasks, the
//! subtasks are assigned by capability and load, and their results merged.
use vstd::prelude::*;

use crate::ids::{new_uuid, FighterId};
use crate::schedule::{now_ms, now_secs};
use crate::table::{lemma_filter_take_step, lemma_table_insert, lemma_table_remove, lemma_table_set, Table};
use crate::text::{
    append_chars, join_chars, joined, chars_of, contains_chars, contains_seq, decimal, decimal_chars, lowercase, split_on_char, split_on_seq,
    split_char, split_seq, string_from_chars, to_lowercase_chars, trim, trim_chars, trim_pieces,
    trimmed_nonempty,
};

verus! {

/// Seconds a running fighter may go without a heartbeat before it counts as stale.
pub const STALE_THRESHOLD_SECS: i64 = 300;

// ---------------------------------------------------------------------------
// Types
// ---------------------------------------------------------------------------

/// Status of a subtask.
#[derive(Debug, Clone)]
pub enum SubtaskStatus {
    /// Not yet assigned.
    Pending,
    /// Assigned to a fighter and running.
    Running,
    /// Finished with a result.
    Completed,
    /// Failed with an error.
    Failed(String),
}

/// A piece of a swarm task.
#[derive(Debug, Clone)]
pub struct SwarmSubtask {
    /// Unique subtask id.
    pub id: u128,
    /// What to do.
    pub description: String,
    /// The fighter working on it.
    pub assigned_to: Option<FighterId>,
    /// Its status.
    pub status: SubtaskStatus,
    /// Its result, once completed.
    pub result: Option<String>,
    /// Subtasks that must complete before this one can be assigned.
    pub depends_on: Vec<u128>,
}

/// A task split into subtasks for the swarm.
#[derive(Debug, Clone)]
pub struct SwarmTask {
    /// Unique task id.
    pub id: u128,
    /// The whole task.
    pub description: String,
    /// Its subtasks, in order.
    pub subtasks: Vec<SwarmSubtask>,
    /// Completed subtasks when progress was last computed.
    pub progress_completed: usize,
    /// All subtasks when progress was last computed.
    pub progress_total: usize,
    /// When it was created (milliseconds since the Unix epoch).
    pub created_at: i64,
    /// The merged results, once every subtask completed.
    pub aggregated_result: Option<String>,
}

/// Load and health of a fighter, for balancing.
#[derive(Debug, Clone)]
pub struct FighterLoad {
    /// The fighter.
    pub fighter_id: FighterId,
    /// Subtasks currently assigned to it.
    pub active_tasks: usize,
    /// Whether it is healthy (only healthy fighters get work).
    pub healthy: bool,
    /// Its capabilities (empty: a generalist).
    pub capabilities: Vec<String>,
    /// Its last heartbeat (seconds since the Unix epoch).
    pub last_heartbeat: i64,
}

/// Detailed progress of a swarm task.
#[derive(Debug, Clone, Copy, PartialEq, Eq, Structural)]
pub struct ProgressReport {
    /// The task.
    pub task_id: u128,
    /// All subtasks.
    pub total_subtasks: usize,
    /// Completed subtasks.
    pub completed: usize,
    /// Running subtasks.
    pub running: usize,
    /// Failed subtasks.
    pub failed: usize,
    /// Pending subtasks.
    pub pending: usize,
}

/// Why a swarm operation failed.
#[derive(Debug, Clone, Copy, PartialEq, Eq, Structural)]
pub enum SwarmError {
    /// No swarm task with this id.
    TaskNotFound(u128),
    /// The task has no subtask with this id.
    SubtaskNotFound { task: u128, subtask: u128 },
    /// Only failed subtasks can be reassigned.
    NotFailed(u128),
}

// ---------------------------------------------------------------------------
// Decomposition
// ---------------------------------------------------------------------------

/// The descriptions of the subtasks of a task described by `d`: the trimmed
/// paragraphs (split at blank lines) if there are several, else the trimmed
/// sentences (split at ". ") if there are several, else the trimmed lines
/// if there are several, else the trimmed description as one piece; an
/// all-blank description stays one piece as it is.
pub open spec fn decomposition(d: Seq<char>) -> Seq<Seq<char>> {
    let t = trim(d);
    let paragraphs = trimmed_nonempty(split_seq(t, seq!['\n', '\n']));
    let sentences = trimmed_nonempty(split_seq(t, seq!['.', ' ']));
    let lines = trimmed_nonempty(split_char(t, '\n'));
    if t.len() == 0 {
        seq![d]
    } else if paragraphs.len() > 1 {
        paragraphs
    } else if sentences.len() > 1 {
        sentences
    } else if lines.len() > 1 {
        lines
    } else {
        seq![t]
    }
}

/// A fresh pending subtask described by `d`: unassigned, without result or
/// dependencies.
pub open spec fn fresh_subtask(s: SwarmSubtask, d: Seq<char>) -> bool {
    &&& s.id != 0
    &&& s.description@ == d
    &&& s.assigned_to is None
    &&& s.status is Pending
    &&& s.result is None
    &&& s.depends_on@ == Seq::<u128>::empty()
}

fn new_subtask(d: Vec<char>) -> (s: SwarmSubtask)
    ensures
        fresh_subtask(s, d@),
{
    SwarmSubtask {
        id: new_uuid(),
        description: string_from_chars(d.as_slice()),
        assigned_to: None,
        status: SubtaskStatus::Pending,
        result: None,
        depends_on: Vec::new(),
    }
}

fn subtasks_of(pieces: Vec<Vec<char>>) -> (r: Vec<SwarmSubtask>)
    ensures
        r@.len() == pieces@.len(),
        forall|i: int| 0 <= i < r@.len() ==> fresh_subtask(#[trigger] r@[i], pieces@[i]@),
{
    let mut r: Vec<SwarmSubtask> = Vec::new();
    let mut i: usize = 0;
    while i < pieces.len()
        invariant
            i <= pieces@.len(),
            r@.len() == i,
            forall|j: int| 0 <= j < i ==> fresh_subtask(#[trigger] r@[j], pieces@[j]@),
        decreases pieces@.len() - i,
    {
        let mut piece: Vec<char> = Vec::new();
        let src = &pieces[i];
        let mut k: usize = 0;
        while k < src.len()
            invariant
                k <= src@.len(),
                piece@ == src@.take(k as int),
            decreases src@.len() - k,
        {
            piece.push(src[k]);
            k = k + 1;
            assert(piece@ =~= src@.take(k as int));
        }
        assert(src@.take(src@.len() as int) =~= src@);
        r.push(new_subtask(piece));
        i = i + 1;
    }
    r
}

/// Split a task description into subtasks: by paragraphs, else sentences,
/// else lines, else one subtask (see `decomposition`).
fn decompose(description: &str) -> (r: Vec<SwarmSubtask>)
    ensures
        r@.len() == decomposition(description@).len(),
        forall|i: int| 0 <= i < r@.len() ==> fresh_subtask(#[trigger] r@[i], decomposition(description@)[i]),
{
    let all = chars_of(description);
    let t = trim_chars(all.as_slice());
    if t.len() == 0 {
        let one = vec![all];
        return subtasks_of(one);
    }
    let pp: Vec<char> = vec!['\n', '\n'];
    let paragraphs = trim_pieces(&split_on_seq(t.as_slice(), pp.as_slice()));
    if paragraphs.len() > 1 {
        return subtasks_of(paragraphs);
    }
    let sp: Vec<char> = vec!['.', ' '];
    let sentences = trim_pieces(&split_on_seq(t.as_slice(), sp.as_slice()));
    if sentences.len() > 1 {
        return subtasks_of(sentences);
    }
    let lines = trim_pieces(&split_on_char(t.as_slice(), '\n'));
    if lines.len() > 1 {
        return subtasks_of(lines);
    }
    let one = vec![t];
    subtasks_of(one)
}

// ---------------------------------------------------------------------------
// Choosing fighters
// ---------------------------------------------------------------------------

/// Fighter `f` can take work described by `desc`: it is healthy, and a
/// generalist or one of its capabilities occurs in `desc`, ignoring case.
pub open spec fn capable(f: FighterLoad, desc: Seq<char>) -> bool {
    &&& f.healthy
    &&& (f.capabilities@.len() == 0 || exists|i: int|
        0 <= i < f.capabilities@.len() && contains_seq(lowercase(desc), lowercase(#[trigger] f.capabilities@[i]@)))
}

/// Among the first `n` fighters of `loads` that satisfy `ok`, the position of
/// the first one with the fewest active subtasks.
pub open spec fn first_min(loads: Seq<FighterLoad>, ok: spec_fn(FighterLoad) -> bool, n: int) -> Option<int>
    decreases n,
{
    if n <= 0 {
        None
    } else {
        let r = first_min(loads, ok, n - 1);
        if !ok(loads[n - 1]) {
            r
        } else {
            match r {
                None => Some(n - 1),
                Some(j) => if loads[n - 1].active_tasks < loads[j].active_tasks {
                    Some(n - 1)
                } else {
                    Some(j)
                },
            }
        }
    }
}

/// `first_min` picks a fighter that satisfies `ok` and has no more active
/// subtasks than any other that does, and none before it has as few.
pub proof fn lemma_first_min(loads: Seq<FighterLoad>, ok: spec_fn(FighterLoad) -> bool, n: int)
    requires
        0 <= n <= loads.len(),
    ensures
        match first_min(loads, ok, n) {
            Some(j) => {
                &&& 0 <= j < n
                &&& ok(loads[j])
                &&& forall|k: int| 0 <= k < n && ok(#[trigger] loads[k]) ==> loads[j].active_tasks <= loads[k].active_tasks
                &&& forall|k: int| 0 <= k < j && ok(#[trigger] loads[k]) ==> loads[j].active_tasks < loads[k].active_tasks
            },
            None => forall|k: int| 0 <= k < n ==> !ok(#[trigger] loads[k]),
        },
    decreases n,
{
    if n > 0 {
        lemma_first_min(loads, ok, n - 1);
    }
}

/// The test `capable(_, desc)`.
pub open spec fn capable_for(desc: Seq<char>) -> spec_fn(FighterLoad) -> bool {
    |f: FighterLoad| capable(f, desc)
}

/// The test for a healthy fighter.
pub open spec fn healthy_only() -> spec_fn(FighterLoad) -> bool {
    |f: FighterLoad| f.healthy
}

/// The test for a healthy fighter other than `excluded`.
pub open spec fn healthy_except(excluded: Option<FighterId>) -> spec_fn(FighterLoad) -> bool {
    |f: FighterLoad| f.healthy && Some(f.fighter_id) != excluded
}

/// The fighter that gets work described by `desc`: the least loaded capable
/// one, else the least loaded healthy one (the first such in order).
pub open spec fn best_fighter(loads: Seq<FighterLoad>, desc: Seq<char>) -> Option<int> {
    match first_min(loads, capable_for(desc), loads.len() as int) {
        Some(j) => Some(j),
        None => first_min(loads, healthy_only(), loads.len() as int),
    }
}

/// The least loaded healthy fighter other than `excluded` (the first such in order).
pub open spec fn replacement_fighter(loads: Seq<FighterLoad>, excluded: Option<FighterId>) -> Option<int> {
    first_min(loads, healthy_except(excluded), loads.len() as int)
}

/// Whether `f` can take work described by the lower-cased description `lower`.
fn is_capable(f: &FighterLoad, lower: &Vec<char>, Ghost(desc): Ghost<Seq<char>>) -> (b: bool)
    requires
        lower@ == lowercase(desc),
    ensures
        b == capable(*f, desc),
{
    if !f.healthy {
        return false;
    }
    if f.capabilities.len() == 0 {
        return true;
    }
    let mut i: usize = 0;
    while i < f.capabilities.len()
        invariant
            f.healthy,
            f.capabilities@.len() > 0,
            lower@ == lowercase(desc),
            i <= f.capabilities@.len(),
            forall|j: int| 0 <= j < i ==> !contains_seq(lowercase(desc), lowercase(#[trigger] f.capabilities@[j]@)),
        decreases f.capabilities@.len() - i,
    {
        let cap = chars_of(f.capabilities[i].as_str());
        let cap_lower = to_lowercase_chars(cap.as_slice());
        if contains_chars(lower.as_slice(), cap_lower.as_slice()) {
            assert(contains_seq(lowercase(desc), lowercase(f.capabilities@[i as int]@)));
            return true;
        }
        i = i + 1;
    }
    false
}

// ---------------------------------------------------------------------------
// Merging results
// ---------------------------------------------------------------------------

/// The results of the subtasks that have one, in order.
pub open spec fn results_of(subs: Seq<SwarmSubtask>) -> Seq<Seq<char>> {
    subs.filter(|s: SwarmSubtask| s.result is Some).map_values(|s: SwarmSubtask| s.result.unwrap()@)
}

/// The number of bytes of `c` in UTF-8.
pub open spec fn utf8_width(c: char) -> nat {
    if (c as u32) < 0x80 {
        1
    } else if (c as u32) < 0x800 {
        2
    } else if (c as u32) < 0x10000 {
        3
    } else {
        4
    }
}

/// The number of bytes of `s` in UTF-8 (`str::len`).
pub open spec fn utf8_len(s: Seq<char>) -> nat
    decreases s.len(),
{
    if s.len() == 0 {
        0
    } else {
        utf8_len(s.drop_last()) + utf8_width(s.last())
    }
}

/// The number of bytes of `s` in UTF-8.
fn utf8_len_of(s: &[char]) -> (n: u128)
    ensures
        n == utf8_len(s@),
        n <= 4 * s@.len(),
{
    let mut n: u128 = 0;
    let mut i: usize = 0;
    while i < s.len()
        invariant
            i <= s@.len(),
            n == utf8_len(s@.take(i as int)),
            n <= 4 * i,
        decreases s@.len() - i,
    {
        assert(s@.take(i + 1).drop_last() =~= s@.take(i as int));
        let c = s[i];
        let u = c as u32;
        let w: u128 = if u < 0x80 {
            1
        } else if u < 0x800 {
            2
        } else if u < 0x10000 {
            3
        } else {
            4
        };
        n = n + w;
        i = i + 1;
    }
    assert(s@.take(s@.len() as int) =~= s@);
    n
}

/// The UTF-8 length in bytes of all of `parts`.
pub open spec fn byte_total(parts: Seq<Seq<char>>) -> nat
    decreases parts.len(),
{
    if parts.len() == 0 {
        0
    } else {
        byte_total(parts.drop_last()) + utf8_len(parts.last())
    }
}

/// Result `r` as the `i`-th section (counting from zero) of a long merge.
pub open spec fn section(i: nat, r: Seq<char>) -> Seq<char> {
    "--- Section "@ + decimal(i + 1) + " ---\n"@ + r
}

/// The merged results of `subs`: nothing without results; the results
/// separated by blank lines when they are short (under 500 bytes in all) or
/// at most two; otherwise each under a numbered section header.
pub open spec fn aggregate(subs: Seq<SwarmSubtask>) -> Seq<char> {
    let rs = results_of(subs);
    if rs.len() == 0 {
        Seq::empty()
    } else if byte_total(rs) < 500 || rs.len() <= 2 {
        joined(rs, "\n\n"@)
    } else {
        joined(Seq::new(rs.len(), |i: int| section(i as nat, rs[i])), "\n\n"@)
    }
}

/// Merge the results of the subtasks (see `aggregate`).
fn aggregate_results(subtasks: &Vec<SwarmSubtask>) -> (r: String)
    ensures
        r@ == aggregate(subtasks@),
{
    let ghost pred = |s: SwarmSubtask| s.result is Some;
    let ghost view = |s: SwarmSubtask| s.result.unwrap()@;
    let mut parts: Vec<Vec<char>> = Vec::new();
    let mut total: u128 = 0;
    let mut i: usize = 0;
    while i < subtasks.len()
        invariant
            i <= subtasks@.len(),
            pred == (|s: SwarmSubtask| s.result is Some),
            view == (|s: SwarmSubtask| s.result.unwrap()@),
            parts@.map_values(|p: Vec<char>| p@) == subtasks@.take(i as int).filter(pred).map_values(view),
            byte_total(parts@.map_values(|p: Vec<char>| p@)) < 500 ==> total == byte_total(
                parts@.map_values(|p: Vec<char>| p@),
            ),
            byte_total(parts@.map_values(|p: Vec<char>| p@)) >= 500 ==> total >= 500,
            total < 500 + 0x4_0000_0000_0000_0000,
        decreases subtasks@.len() - i,
    {
        proof {
            lemma_filter_take_step(subtasks@, i as int, pred);
        }
        match &subtasks[i].result {
            Some(res) => {
                let ghost before = parts@.map_values(|p: Vec<char>| p@);
                let cs = chars_of(res.as_str());
                let n = utf8_len_of(cs.as_slice());
                assert(cs@.len() == cs.len());
                assert(n <= 4 * 0xFFFF_FFFF_FFFF_FFFFu128);
                if total < 500 {
                    total = total + n;
                }
                parts.push(cs);
                proof {
                    assert(parts@.map_values(|p: Vec<char>| p@) =~= before.push(res@));
                    assert(parts@.map_values(|p: Vec<char>| p@).drop_last() =~= before);
                    assert(byte_total(parts@.map_values(|p: Vec<char>| p@)) == byte_total(before) + utf8_len(
                        res@,
                    ));
                    assert(subtasks@.take(i as int).filter(pred).push(subtasks@[i as int]).map_values(view)
                        =~= subtasks@.take(i as int).filter(pred).map_values(view).push(res@));
                }
            },
            None => {},
        }
        i = i + 1;
    }
    assert(subtasks@.take(subtasks@.len() as int) =~= subtasks@);
    if parts.len() == 0 {
        return String::new();
    }
    let sep = chars_of("\n\n");
    if total < 500 || parts.len() <= 2 {
        let joined_chars = join_chars(&parts, &sep);
        return string_from_chars(joined_chars.as_slice());
    }
    let ghost rs = parts@.map_values(|p: Vec<char>| p@);
    let mut sections: Vec<Vec<char>> = Vec::new();
    let mut j: usize = 0;
    while j < parts.len()
        invariant
            j <= parts@.len(),
            rs == parts@.map_values(|p: Vec<char>| p@),
            sections@.map_values(|p: Vec<char>| p@) == Seq::new(j as nat, |k: int| section(k as nat, rs[k])),
        decreases parts@.len() - j,
    {
        let mut sec = chars_of("--- Section ");
        let num = decimal_chars((j as u64) + 1);
        append_chars(&mut sec, num.as_slice());
        let tail = chars_of(" ---\n");
        append_chars(&mut sec, tail.as_slice());
        append_chars(&mut sec, parts[j].as_slice());
        assert(sec@ =~= section(j as nat, rs[j as int]));
        let ghost before = sections@.map_values(|p: Vec<char>| p@);
        let ghost sv = sec@;
        sections.push(sec);
        j = j + 1;
        proof {
            assert(sections@.map_values(|p: Vec<char>| p@) =~= before.push(sv));
            assert(sections@.map_values(|p: Vec<char>| p@) =~= Seq::new(j as nat, |k: int| section(k as nat, rs[k])));
        }
    }
    let joined_chars = join_chars(&sections, &sep);
    string_from_chars(joined_chars.as_slice())
}

// ---------------------------------------------------------------------------
// Assignment
// ---------------------------------------------------------------------------

/// Subtask `i` of `subs` may be assigned: it is pending and each of its
/// dependencies is a completed subtask of the same task.
pub open spec fn eligible(subs: Seq<SwarmSubtask>, i: int) -> bool {
    &&& subs[i].status is Pending
    &&& forall|d: int|
        0 <= d < subs[i].depends_on@.len() ==> exists|j: int|
            0 <= j < subs.len() && subs[j].id == #[trigger] subs[i].depends_on@[d] && subs[j].status is Completed
}

/// The positions among the first `n` subtasks that may be assigned, in order.
pub open spec fn eligible_upto(subs: Seq<SwarmSubtask>, n: int) -> Seq<int>
    decreases n,
{
    if n <= 0 {
        Seq::empty()
    } else if eligible(subs, n - 1) {
        eligible_upto(subs, n - 1).push(n - 1)
    } else {
        eligible_upto(subs, n - 1)
    }
}

/// `f` with one more active subtask.
pub open spec fn with_one_more(f: FighterLoad) -> FighterLoad {
    FighterLoad { active_tasks: (f.active_tasks + 1) as usize, ..f }
}

/// `f` with one active subtask less, not below zero.
pub open spec fn with_one_less(f: FighterLoad) -> FighterLoad {
    FighterLoad { active_tasks: if f.active_tasks > 0 { (f.active_tasks - 1) as usize } else { 0 }, ..f }
}

/// `f` with health `healthy`, and heartbeat `heartbeat` when given.
pub open spec fn with_health(f: FighterLoad, healthy: bool, heartbeat: Option<i64>) -> FighterLoad {
    FighterLoad {
        healthy,
        last_heartbeat: match heartbeat {
            Some(h) => h,
            None => f.last_heartbeat,
        },
        ..f
    }
}

/// `s` assigned to fighter `f` and running.
pub open spec fn assigned(s: SwarmSubtask, f: FighterId) -> SwarmSubtask {
    SwarmSubtask { assigned_to: Some(f), status: SubtaskStatus::Running, ..s }
}

/// Fighter loads, subtasks and assignments after assigning the subtasks at
/// positions `elig`, in order: each goes to the best fighter for its
/// description at that moment (see `best_fighter`), whose load grows by
/// one; a subtask for which no fighter is found stays as it is.
pub open spec fn assign_fold(
    loads: Seq<FighterLoad>,
    subs: Seq<SwarmSubtask>,
    elig: Seq<int>,
) -> (Seq<FighterLoad>, Seq<SwarmSubtask>, Seq<(u128, FighterId)>)
    decreases elig.len(),
{
    if elig.len() == 0 {
        (loads, subs, Seq::empty())
    } else {
        let (l, s, a) = assign_fold(loads, subs, elig.drop_last());
        let i = elig.last();
        match best_fighter(l, s[i].description@) {
            Some(j) => (l.update(j, with_one_more(l[j])), s.update(i, assigned(s[i], l[j].fighter_id)), a.push(
                (s[i].id, l[j].fighter_id),
            )),
            None => (l, s, a),
        }
    }
}

/// The position of the first subtask of `subs` with id `id`, among the first `n`.
pub open spec fn find_subtask(subs: Seq<SwarmSubtask>, id: u128, n: int) -> Option<int>
    decreases n,
{
    if n <= 0 {
        None
    } else {
        match find_subtask(subs, id, n - 1) {
            Some(j) => Some(j),
            None => if subs[n - 1].id == id {
                Some(n - 1)
            } else {
                None
            },
        }
    }
}

/// `find_subtask` finds the first subtask with the id.
pub proof fn lemma_find_subtask(subs: Seq<SwarmSubtask>, id: u128, n: int)
    requires
        0 <= n <= subs.len(),
    ensures
        match find_subtask(subs, id, n) {
            Some(j) => 0 <= j < n && subs[j].id == id && forall|k: int| 0 <= k < j ==> (#[trigger] subs[k]).id != id,
            None => forall|k: int| 0 <= k < n ==> (#[trigger] subs[k]).id != id,
        },
    decreases n,
{
    if n > 0 {
        lemma_find_subtask(subs, id, n - 1);
    }
}

/// Positions in `elig` are increasing and below `n`.
pub open spec fn increasing_below(elig: Seq<int>, n: int) -> bool {
    &&& forall|a: int, b: int| 0 <= a < b < elig.len() ==> elig[a] < elig[b]
    &&& forall|a: int| 0 <= a < elig.len() ==> 0 <= #[trigger] elig[a] < n
}

/// The eligible positions are increasing and within range.
pub proof fn lemma_eligible_upto(subs: Seq<SwarmSubtask>, n: int)
    requires
        0 <= n <= subs.len(),
    ensures
        eligible_upto(subs, n).len() <= n,
        increasing_below(eligible_upto(subs, n), n),
        forall|a: int| 0 <= a < eligible_upto(subs, n).len() ==> eligible(subs, #[trigger] eligible_upto(subs, n)[a]),
    decreases n,
{
    if n > 0 {
        lemma_eligible_upto(subs, n - 1);
    }
}

/// The assignment law: assigning only touches the subtasks it may assign.
/// A subtask that is not pending, or whose dependencies are not all
/// completed, keeps its status and assignment; the number of subtasks and
/// fighters does not change.
pub proof fn lemma_assign_respects_dependencies(loads: Seq<FighterLoad>, subs: Seq<SwarmSubtask>, i: int)
    requires
        0 <= i < subs.len(),
        !eligible(subs, i),
    ensures
        assign_fold(loads, subs, eligible_upto(subs, subs.len() as int)).1[i] == subs[i],
        assign_fold(loads, subs, eligible_upto(subs, subs.len() as int)).1.len() == subs.len(),
        assign_fold(loads, subs, eligible_upto(subs, subs.len() as int)).0.len() == loads.len(),
{
    let e = eligible_upto(subs, subs.len() as int);
    lemma_eligible_upto(subs, subs.len() as int);
    lemma_fold_untouched(loads, subs, e, i);
}

/// Positions outside `elig` are untouched by the fold, and lengths are kept.
pub proof fn lemma_fold_untouched(loads: Seq<FighterLoad>, subs: Seq<SwarmSubtask>, elig: Seq<int>, i: int)
    requires
        0 <= i < subs.len(),
        increasing_below(elig, subs.len() as int),
        forall|a: int| 0 <= a < elig.len() ==> #[trigger] elig[a] != i,
    ensures
        assign_fold(loads, subs, elig).1[i] == subs[i],
        assign_fold(loads, subs, elig).1.len() == subs.len(),
        assign_fold(loads, subs, elig).0.len() == loads.len(),
    decreases elig.len(),
{
    if elig.len() > 0 {
        let e2 = elig.drop_last();
        assert forall|a: int| 0 <= a < e2.len() implies #[trigger] e2[a] != i by {
            assert(e2[a] == elig[a]);
        }
        lemma_fold_untouched(loads, subs, e2, i);
        let (l, s, a) = assign_fold(loads, subs, e2);
        let k = elig.last();
        assert(k != i);
        assert(0 <= k < subs.len());
        match best_fighter(l, s[k].description@) {
            Some(j) => {
                lemma_first_min(l, capable_for(s[k].description@), l.len() as int);
                lemma_first_min(l, healthy_only(), l.len() as int);
            },
            None => {},
        }
    }
}

// ---------------------------------------------------------------------------
// SwarmCoordinator
// ---------------------------------------------------------------------------

/// The positions among `loads` of fighters that satisfy `ok`, in a flag list.
pub open spec fn flags_match(flags: Seq<bool>, loads: Seq<FighterLoad>, ok: spec_fn(FighterLoad) -> bool) -> bool {
    &&& flags.len() == loads.len()
    &&& forall|i: int| 0 <= i < loads.len() ==> flags[i] == ok(#[trigger] loads[i])
}

/// Among the fighters flagged in `flags`, the first with the fewest active subtasks.
fn first_min_flagged(
    loads: &Table<FighterLoad>,
    flags: &Vec<bool>,
    Ghost(ok): Ghost<spec_fn(FighterLoad) -> bool>,
) -> (r: Option<usize>)
    requires
        loads.wf(),
        flags_match(flags@, loads.val_seq(), ok),
    ensures
        match r {
            Some(j) => first_min(loads.val_seq(), ok, loads.len() as int) == Some(j as int),
            None => first_min(loads.val_seq(), ok, loads.len() as int) is None,
        },
{
    proof {
        loads.lemma_wf();
    }
    let mut best: Option<usize> = None;
    let mut i: usize = 0;
    while i < flags.len()
        invariant
            loads.wf(),
            flags_match(flags@, loads.val_seq(), ok),
            i <= flags@.len(),
            match best {
                Some(j) => first_min(loads.val_seq(), ok, i as int) == Some(j as int) && j < i,
                None => first_min(loads.val_seq(), ok, i as int) is None,
            },
        decreases flags@.len() - i,
    {
        proof {
            loads.lemma_wf();
        }
        if flags[i] {
            match best {
                None => {
                    best = Some(i);
                },
                Some(j) => {
                    if loads.val_at(i).active_tasks < loads.val_at(j).active_tasks {
                        best = Some(i);
                    }
                },
            }
        }
        i = i + 1;
    }
    best
}

/// Coordinates swarm tasks across the registered fighters.
pub struct SwarmCoordinator {
    tasks: Table<SwarmTask>,
    fighter_loads: Table<FighterLoad>,
}

impl SwarmCoordinator {
    /// The swarm tasks, keyed by task id, in creation order.
    pub closed spec fn tasks(&self) -> Table<SwarmTask> {
        self.tasks
    }

    /// The fighters' loads, keyed by fighter id, in registration order.
    pub closed spec fn loads(&self) -> Table<FighterLoad> {
        self.fighter_loads
    }

    /// Both tables are well formed and entries are stored under their ids.
    pub closed spec fn wf(&self) -> bool {
        &&& self.tasks.wf()
        &&& self.fighter_loads.wf()
        &&& forall|k: u128| self.tasks.has(k) ==> (#[trigger] self.tasks.at(k)).id == k
        &&& forall|k: u128| self.fighter_loads.has(k) ==> (#[trigger] self.fighter_loads.at(k)).fighter_id.0 == k
    }

    /// A coordinator with no tasks or fighters.
    pub fn new() -> (c: SwarmCoordinator)
        ensures
            c.wf(),
            c.tasks().len() == 0,
            c.loads().len() == 0,
    {
        SwarmCoordinator { tasks: Table::new(), fighter_loads: Table::new() }
    }

    /// Store `load` for its fighter.
    fn put_load(&mut self, load: FighterLoad)
        requires
            old(self).wf(),
        ensures
            final(self).wf(),
            final(self).tasks() == old(self).tasks(),
            final(self).loads().has(load.fighter_id.0),
            final(self).loads().at(load.fighter_id.0) == load,
            forall|j: u128| j != load.fighter_id.0 ==> (final(self).loads().has(j) == old(self).loads().has(j)),
            forall|j: u128|
                j != load.fighter_id.0 && old(self).loads().has(j) ==> final(self).loads().at(j) == old(self).loads().at(j),
    {
        let k = load.fighter_id.0;
        let ghost t0 = self.fighter_loads;
        let ghost l = load;
        self.fighter_loads.insert(k, load);
        proof {
            lemma_table_insert(t0, self.fighter_loads, k, l);
            assert forall|j: u128| self.fighter_loads.has(j) implies (#[trigger] self.fighter_loads.at(j)).fighter_id.0 == j by {
                if j != k {
                    assert(t0.has(j));
                }
            }
        }
    }

    /// Register a fighter as available, with no capabilities (a generalist),
    /// healthy and idle, with a heartbeat at `now` (seconds).
    pub fn register_fighter_at(&mut self, fighter_id: FighterId, now: i64)
        requires
            old(self).wf(),
        ensures
            final(self).wf(),
            final(self).tasks() == old(self).tasks(),
            final(self).loads().has(fighter_id.0),
            ({
                let f = final(self).loads().at(fighter_id.0);
                f.fighter_id == fighter_id && f.active_tasks == 0 && f.healthy && f.capabilities@.len() == 0
                    && f.last_heartbeat == now
            }),
            forall|j: u128| j != fighter_id.0 ==> (final(self).loads().has(j) == old(self).loads().has(j)),
            forall|j: u128| j != fighter_id.0 && old(self).loads().has(j) ==> final(self).loads().at(j) == old(self).loads().at(j),
    {
        self.put_load(
            FighterLoad { fighter_id, active_tasks: 0, healthy: true, capabilities: Vec::new(), last_heartbeat: now },
        );
    }

    /// Register a fighter as available now; see `register_fighter_at`.
    pub fn register_fighter(&mut self, fighter_id: FighterId)
        requires
            old(self).wf(),
        ensures
            final(self).wf(),
            final(self).loads().has(fighter_id.0),
            final(self).loads().at(fighter_id.0).healthy,
            final(self).loads().at(fighter_id.0).active_tasks == 0,
    {
        let now = now_secs();
        self.register_fighter_at(fighter_id, now);
    }

    /// Register a fighter with capabilities, healthy and idle, with a
    /// heartbeat at `now` (seconds).
    pub fn register_fighter_with_capabilities_at(&mut self, fighter_id: FighterId, capabilities: Vec<String>, now: i64)
        requires
            old(self).wf(),
        ensures
            final(self).wf(),
            final(self).tasks() == old(self).tasks(),
            final(self).loads().has(fighter_id.0),
            final(self).loads().at(fighter_id.0) == (FighterLoad {
                fighter_id,
                active_tasks: 0,
                healthy: true,
                capabilities,
                last_heartbeat: now,
            }),
            forall|j: u128| j != fighter_id.0 ==> (final(self).loads().has(j) == old(self).loads().has(j)),
            forall|j: u128| j != fighter_id.0 && old(self).loads().has(j) ==> final(self).loads().at(j) == old(self).loads().at(j),
    {
        self.put_load(FighterLoad { fighter_id, active_tasks: 0, healthy: true, capabilities, last_heartbeat: now });
    }

    /// Register a fighter with capabilities now.
    pub fn register_fighter_with_capabilities(&mut self, fighter_id: FighterId, capabilities: Vec<String>)
        requires
            old(self).wf(),
        ensures
            final(self).wf(),
            final(self).loads().has(fighter_id.0),
            final(self).loads().at(fighter_id.0).capabilities == capabilities,
            final(self).loads().at(fighter_id.0).healthy,
    {
        let now = now_secs();
        self.register_fighter_with_capabilities_at(fighter_id, capabilities, now);
    }

    /// Remove a fighter from the pool.
    pub fn unregister_fighter(&mut self, fighter_id: &FighterId)
        requires
            old(self).wf(),
        ensures
            final(self).wf(),
            final(self).tasks() == old(self).tasks(),
            !final(self).loads().has(fighter_id.0),
            forall|j: u128| j != fighter_id.0 ==> (final(self).loads().has(j) == old(self).loads().has(j)),
            forall|j: u128| j != fighter_id.0 && old(self).loads().has(j) ==> final(self).loads().at(j) == old(self).loads().at(j),
    {
        let ghost t0 = self.fighter_loads;
        let _ = self.fighter_loads.remove(fighter_id.0);
        proof {
            lemma_table_remove(t0, self.fighter_loads, fighter_id.0);
            assert forall|j: u128| self.fighter_loads.has(j) implies (#[trigger] self.fighter_loads.at(j)).fighter_id.0 == j by {
                assert(t0.has(j));
            }
        }
    }

    /// After the load at position `i` changed, keeping its fighter id, the
    /// coordinator is still well formed and only that fighter changed.
    proof fn lemma_load_set(t0: Table<FighterLoad>, c: &SwarmCoordinator, i: int)
        requires
            t0.wf(),
            c.tasks.wf(),
            c.fighter_loads.wf(),
            forall|k: u128| c.tasks.has(k) ==> (#[trigger] c.tasks.at(k)).id == k,
            forall|k: u128| t0.has(k) ==> (#[trigger] t0.at(k)).fighter_id.0 == k,
            0 <= i < t0.len(),
            c.fighter_loads.key_seq() == t0.key_seq(),
            c.fighter_loads.val_seq() == t0.val_seq().update(i, c.fighter_loads.val_seq()[i]),
            c.fighter_loads.val_seq()[i].fighter_id == t0.val_seq()[i].fighter_id,
        ensures
            c.wf(),
            c.fighter_loads.at(t0.key_seq()[i]) == c.fighter_loads.val_seq()[i],
            forall|j: u128| #[trigger] c.fighter_loads.has(j) == t0.has(j),
            forall|j: u128| j != t0.key_seq()[i] && t0.has(j) ==> c.fighter_loads.at(j) == t0.at(j),
    {
        lemma_table_set(t0, c.fighter_loads, i, c.fighter_loads.val_seq()[i]);
        t0.lemma_wf();
        assert forall|j: u128| c.fighter_loads.has(j) implies (#[trigger] c.fighter_loads.at(j)).fighter_id.0 == j by {
            assert(t0.has(j));
            if j == t0.key_seq()[i] {
                assert(t0.at(j).fighter_id.0 == j);
                assert(t0.pos(j) == i);
            }
        }
    }

    /// One more active subtask for the fighter at position `i`.
    fn bump_load(&mut self, i: usize)
        requires
            old(self).wf(),
            i < old(self).loads().len(),
            old(self).loads().val_seq()[i as int].active_tasks < usize::MAX,
        ensures
            final(self).wf(),
            final(self).tasks() == old(self).tasks(),
            final(self).loads().key_seq() == old(self).loads().key_seq(),
            final(self).loads().val_seq() == old(self).loads().val_seq().update(
                i as int,
                with_one_more(old(self).loads().val_seq()[i as int]),
            ),
    {
        let ghost t0 = self.fighter_loads;
        proof {
            t0.lemma_wf();
        }
        let n = self.fighter_loads.val_at(i).active_tasks;
        self.fighter_loads.val_mut(i).active_tasks = n + 1;
        proof {
            Table::lemma_wf_vals(t0, self.fighter_loads);
            Self::lemma_load_set(t0, self, i as int);
        }
    }

    /// One active subtask less (not below zero) for the fighter at position `i`.
    fn drop_load(&mut self, i: usize)
        requires
            old(self).wf(),
            i < old(self).loads().len(),
        ensures
            final(self).wf(),
            final(self).tasks() == old(self).tasks(),
            final(self).loads().key_seq() == old(self).loads().key_seq(),
            final(self).loads().val_seq() == old(self).loads().val_seq().update(
                i as int,
                with_one_less(old(self).loads().val_seq()[i as int]),
            ),
    {
        let ghost t0 = self.fighter_loads;
        proof {
            t0.lemma_wf();
        }
        let n = self.fighter_loads.val_at(i).active_tasks;
        self.fighter_loads.val_mut(i).active_tasks = if n > 0 {
            n - 1
        } else {
            0
        };
        proof {
            Table::lemma_wf_vals(t0, self.fighter_loads);
            Self::lemma_load_set(t0, self, i as int);
        }
    }

    /// Set the health of the fighter at position `i`, and its heartbeat when given.
    fn set_health(&mut self, i: usize, healthy: bool, heartbeat: Option<i64>)
        requires
            old(self).wf(),
            i < old(self).loads().len(),
        ensures
            final(self).wf(),
            final(self).tasks() == old(self).tasks(),
            final(self).loads().key_seq() == old(self).loads().key_seq(),
            final(self).loads().val_seq() == old(self).loads().val_seq().update(
                i as int,
                with_health(old(self).loads().val_seq()[i as int], healthy, heartbeat),
            ),
    {
        let ghost t0 = self.fighter_loads;
        proof {
            t0.lemma_wf();
        }
        self.fighter_loads.val_mut(i).healthy = healthy;
        proof {
            Table::lemma_wf_vals(t0, self.fighter_loads);
            Self::lemma_load_set(t0, self, i as int);
        }
        match heartbeat {
            Some(h) => {
                let ghost t1 = self.fighter_loads;
                proof {
                    t1.lemma_wf();
                }
                self.fighter_loads.val_mut(i).last_heartbeat = h;
                proof {
                    Table::lemma_wf_vals(t1, self.fighter_loads);
                    Self::lemma_load_set(t1, self, i as int);
                }
            },
            None => {},
        }
    }
}

impl SwarmCoordinator {
    /// Flags telling which fighters satisfy `capable(_, desc)`.
    fn capable_flags(&self, desc: &str) -> (flags: Vec<bool>)
        requires
            self.wf(),
        ensures
            flags_match(flags@, self.loads().val_seq(), capable_for(desc@)),
    {
        let d = chars_of(desc);
        let lower = to_lowercase_chars(d.as_slice());
        let mut flags: Vec<bool> = Vec::new();
        let mut i: usize = 0;
        proof {
            self.fighter_loads.lemma_wf();
        }
        while i < self.fighter_loads.size()
            invariant
                self.wf(),
                lower@ == lowercase(desc@),
                i <= self.loads().len(),
                flags@.len() == i,
                forall|j: int| 0 <= j < i ==> flags@[j] == capable_for(desc@)(#[trigger] self.loads().val_seq()[j]),
            decreases self.loads().len() - i,
        {
            proof {
                self.fighter_loads.lemma_wf();
            }
            let b = is_capable(self.fighter_loads.val_at(i), &lower, Ghost(desc@));
            flags.push(b);
            i = i + 1;
        }
        flags
    }

    /// Flags telling which fighters are healthy and other than `excluded`
    /// (when `exclude` is set).
    fn healthy_flags(&self, excluded: Option<FighterId>, exclude: bool) -> (flags: Vec<bool>)
        requires
            self.wf(),
        ensures
            exclude ==> flags_match(flags@, self.loads().val_seq(), healthy_except(excluded)),
            !exclude ==> flags_match(flags@, self.loads().val_seq(), healthy_only()),
    {
        let mut flags: Vec<bool> = Vec::new();
        let mut i: usize = 0;
        proof {
            self.fighter_loads.lemma_wf();
        }
        while i < self.fighter_loads.size()
            invariant
                self.wf(),
                i <= self.loads().len(),
                flags@.len() == i,
                forall|j: int|
                    0 <= j < i ==> flags@[j] == if exclude {
                        healthy_except(excluded)(#[trigger] self.loads().val_seq()[j])
                    } else {
                        healthy_only()(self.loads().val_seq()[j])
                    },
            decreases self.loads().len() - i,
        {
            proof {
                self.fighter_loads.lemma_wf();
            }
            let f = self.fighter_loads.val_at(i);
            let b = if exclude {
                f.healthy && Some(f.fighter_id) != excluded
            } else {
                f.healthy
            };
            flags.push(b);
            i = i + 1;
        }
        flags
    }

    /// The position of the fighter that gets work described by `desc`.
    fn best_fighter_index(&self, desc: &str) -> (r: Option<usize>)
        requires
            self.wf(),
        ensures
            match r {
                Some(j) => best_fighter(self.loads().val_seq(), desc@) == Some(j as int),
                None => best_fighter(self.loads().val_seq(), desc@) is None,
            },
    {
        proof {
            self.fighter_loads.lemma_wf();
        }
        let flags = self.capable_flags(desc);
        match first_min_flagged(&self.fighter_loads, &flags, Ghost(capable_for(desc@))) {
            Some(j) => Some(j),
            None => {
                let h = self.healthy_flags(None, false);
                first_min_flagged(&self.fighter_loads, &h, Ghost(healthy_only()))
            },
        }
    }

    /// The least loaded healthy fighter (the first such in registration order).
    pub fn find_least_loaded_fighter(&self) -> (r: Option<FighterId>)
        requires
            self.wf(),
        ensures
            r == match first_min(self.loads().val_seq(), healthy_only(), self.loads().len() as int) {
                Some(j) => Some(self.loads().val_seq()[j].fighter_id),
                None => None::<FighterId>,
            },
    {
        let h = self.healthy_flags(None, false);
        match first_min_flagged(&self.fighter_loads, &h, Ghost(healthy_only())) {
            Some(j) => {
                proof {
                    self.fighter_loads.lemma_wf();
                    lemma_first_min(self.loads().val_seq(), healthy_only(), self.loads().len() as int);
                }
                Some(self.fighter_loads.val_at(j).fighter_id)
            },
            None => None,
        }
    }

    /// The fighter that gets work described by `task_description` (see `best_fighter`).
    pub fn find_best_fighter_for_task(&self, task_description: &str) -> (r: Option<FighterId>)
        requires
            self.wf(),
        ensures
            r == match best_fighter(self.loads().val_seq(), task_description@) {
                Some(j) => Some(self.loads().val_seq()[j].fighter_id),
                None => None::<FighterId>,
            },
    {
        match self.best_fighter_index(task_description) {
            Some(j) => {
                proof {
                    self.fighter_loads.lemma_wf();
                    lemma_first_min(self.loads().val_seq(), capable_for(task_description@), self.loads().len() as int);
                    lemma_first_min(self.loads().val_seq(), healthy_only(), self.loads().len() as int);
                }
                Some(self.fighter_loads.val_at(j).fighter_id)
            },
            None => None,
        }
    }

    /// Record a heartbeat of a fighter at `now` (seconds); unknown fighters are ignored.
    pub fn record_heartbeat_at(&mut self, fighter_id: &FighterId, now: i64)
        requires
            old(self).wf(),
        ensures
            final(self).wf(),
            final(self).tasks() == old(self).tasks(),
            final(self).loads().key_seq() == old(self).loads().key_seq(),
            old(self).loads().has(fighter_id.0) ==> final(self).loads().val_seq() == old(self).loads().val_seq().update(
                old(self).loads().pos(fighter_id.0),
                FighterLoad { last_heartbeat: now, ..old(self).loads().at(fighter_id.0) },
            ),
            !old(self).loads().has(fighter_id.0) ==> final(self).loads() == old(self).loads(),
    {
        match self.fighter_loads.find(fighter_id.0) {
            Some(i) => {
                let healthy = self.fighter_loads.val_at(i).healthy;
                self.set_health(i, healthy, Some(now));
            },
            None => {},
        }
    }

    /// Record a heartbeat of a fighter now.
    pub fn record_heartbeat(&mut self, fighter_id: &FighterId)
        requires
            old(self).wf(),
        ensures
            final(self).wf(),
            final(self).loads().key_seq() == old(self).loads().key_seq(),
    {
        let now = now_secs();
        self.record_heartbeat_at(fighter_id, now);
    }

    /// Mark a fighter unhealthy: it gets no new work. Unknown fighters are ignored.
    pub fn mark_unhealthy(&mut self, fighter_id: &FighterId)
        requires
            old(self).wf(),
        ensures
            final(self).wf(),
            final(self).tasks() == old(self).tasks(),
            final(self).loads().key_seq() == old(self).loads().key_seq(),
            old(self).loads().has(fighter_id.0) ==> final(self).loads().val_seq() == old(self).loads().val_seq().update(
                old(self).loads().pos(fighter_id.0),
                FighterLoad { healthy: false, ..old(self).loads().at(fighter_id.0) },
            ),
            !old(self).loads().has(fighter_id.0) ==> final(self).loads() == old(self).loads(),
    {
        match self.fighter_loads.find(fighter_id.0) {
            Some(i) => {
                self.set_health(i, false, None);
            },
            None => {},
        }
    }

    /// Mark a fighter healthy again, with a heartbeat at `now` (seconds).
    pub fn mark_healthy_at(&mut self, fighter_id: &FighterId, now: i64)
        requires
            old(self).wf(),
        ensures
            final(self).wf(),
            final(self).tasks() == old(self).tasks(),
            final(self).loads().key_seq() == old(self).loads().key_seq(),
            old(self).loads().has(fighter_id.0) ==> final(self).loads().val_seq() == old(self).loads().val_seq().update(
                old(self).loads().pos(fighter_id.0),
                FighterLoad { healthy: true, last_heartbeat: now, ..old(self).loads().at(fighter_id.0) },
            ),
            !old(self).loads().has(fighter_id.0) ==> final(self).loads() == old(self).loads(),
    {
        match self.fighter_loads.find(fighter_id.0) {
            Some(i) => {
                self.set_health(i, true, Some(now));
            },
            None => {},
        }
    }

    /// Mark a fighter healthy again now.
    pub fn mark_healthy(&mut self, fighter_id: &FighterId)
        requires
            old(self).wf(),
        ensures
            final(self).wf(),
            final(self).loads().key_seq() == old(self).loads().key_seq(),
    {
        let now = now_secs();
        self.mark_healthy_at(fighter_id, now);
    }

    /// Number of healthy fighters.
    pub fn available_fighter_count(&self) -> (n: usize)
        requires
            self.wf(),
        ensures
            n == self.loads().val_seq().filter(healthy_only()).len(),
    {
        let ghost vals = self.loads().val_seq();
        let mut n: usize = 0;
        let mut i: usize = 0;
        proof {
            self.fighter_loads.lemma_wf();
        }
        while i < self.fighter_loads.size()
            invariant
                self.wf(),
                vals == self.loads().val_seq(),
                i <= vals.len(),
                n == vals.take(i as int).filter(healthy_only()).len(),
                n <= i,
            decreases vals.len() - i,
        {
            proof {
                self.fighter_loads.lemma_wf();
                lemma_filter_take_step(vals, i as int, healthy_only());
            }
            if self.fighter_loads.val_at(i).healthy {
                n = n + 1;
            }
            i = i + 1;
        }
        proof {
            self.fighter_loads.lemma_wf();
            assert(vals.take(vals.len() as int) =~= vals);
        }
        n
    }

    /// Copies of the loads of all fighters, in registration order.
    pub fn get_fighter_loads(&self) -> (r: Vec<FighterLoad>)
        requires
            self.wf(),
        ensures
            r@.len() == self.loads().len(),
            forall|i: int|
                0 <= i < r@.len() ==> {
                    let a = #[trigger] r@[i];
                    let b = self.loads().val_seq()[i];
                    &&& a.capabilities@ == b.capabilities@
                    &&& (FighterLoad { capabilities: b.capabilities, ..a }) == b
                },
    {
        let mut r: Vec<FighterLoad> = Vec::new();
        let mut i: usize = 0;
        proof {
            self.fighter_loads.lemma_wf();
        }
        while i < self.fighter_loads.size()
            invariant
                self.wf(),
                i <= self.loads().len(),
                r@.len() == i,
                forall|j: int|
                    0 <= j < i ==> {
                        let a = #[trigger] r@[j];
                        let b = self.loads().val_seq()[j];
                        &&& a.capabilities@ == b.capabilities@
                        &&& (FighterLoad { capabilities: b.capabilities, ..a }) == b
                    },
            decreases self.loads().len() - i,
        {
            proof {
                self.fighter_loads.lemma_wf();
            }
            let l = self.fighter_loads.val_at(i);
            r.push(
                FighterLoad {
                    fighter_id: l.fighter_id,
                    active_tasks: l.active_tasks,
                    healthy: l.healthy,
                    capabilities: crate::text::copy_strings(&l.capabilities),
                    last_heartbeat: l.last_heartbeat,
                },
            );
            i = i + 1;
        }
        r
    }

    /// Split a task description into subtasks (see `decomposition`).
    pub fn decompose_task(&self, description: &str) -> (r: Vec<SwarmSubtask>)
        ensures
            r@.len() == decomposition(description@).len(),
            forall|i: int| 0 <= i < r@.len() ==> fresh_subtask(#[trigger] r@[i], decomposition(description@)[i]),
    {
        decompose(description)
    }

    /// Store a new task with a fresh id; returns the id.
    fn put_task(&mut self, description: String, subtasks: Vec<SwarmSubtask>, now: i64) -> (id: u128)
        requires
            old(self).wf(),
        ensures
            final(self).wf(),
            final(self).loads() == old(self).loads(),
            id != 0,
            final(self).tasks().has(id),
            final(self).tasks().at(id) == (SwarmTask {
                id,
                description,
                subtasks,
                progress_completed: 0,
                progress_total: 0,
                created_at: now,
                aggregated_result: None,
            }),
            forall|j: u128| j != id ==> (final(self).tasks().has(j) == old(self).tasks().has(j)),
            forall|j: u128| j != id && old(self).tasks().has(j) ==> final(self).tasks().at(j) == old(self).tasks().at(j),
    {
        let id = new_uuid();
        let task = SwarmTask {
            id,
            description,
            subtasks,
            progress_completed: 0,
            progress_total: 0,
            created_at: now,
            aggregated_result: None,
        };
        let ghost t0 = self.tasks;
        let ghost tv = task;
        self.tasks.insert(id, task);
        proof {
            lemma_table_insert(t0, self.tasks, id, tv);
            assert forall|j: u128| self.tasks.has(j) implies (#[trigger] self.tasks.at(j)).id == j by {
                if j != id {
                    assert(t0.has(j));
                }
            }
        }
        id
    }

    /// Create a task at `now`, split into subtasks by `decompose_task`; returns its id.
    pub fn create_task_at(&mut self, description: String, now: i64) -> (id: u128)
        requires
            old(self).wf(),
        ensures
            final(self).wf(),
            final(self).loads() == old(self).loads(),
            final(self).tasks().has(id),
            ({
                let t = final(self).tasks().at(id);
                let d = decomposition(description@);
                &&& t.id == id
                &&& t.description == description
                &&& t.created_at == now
                &&& t.aggregated_result is None
                &&& t.subtasks@.len() == d.len()
                &&& forall|i: int| 0 <= i < d.len() ==> fresh_subtask(#[trigger] t.subtasks@[i], d[i])
            }),
            forall|j: u128| j != id ==> (final(self).tasks().has(j) == old(self).tasks().has(j)),
            forall|j: u128| j != id && old(self).tasks().has(j) ==> final(self).tasks().at(j) == old(self).tasks().at(j),
    {
        let subtasks = decompose(description.as_str());
        self.put_task(description, subtasks, now)
    }

    /// Create a task now, split into subtasks; returns its id.
    pub fn create_task(&mut self, description: String) -> (id: u128)
        requires
            old(self).wf(),
        ensures
            final(self).wf(),
            final(self).tasks().has(id),
            final(self).tasks().at(id).subtasks@.len() == decomposition(description@).len(),
    {
        let now = now_ms();
        self.create_task_at(description, now)
    }

    /// Create a task at `now` with the given subtasks; returns its id.
    pub fn create_task_with_subtasks_at(&mut self, description: String, subtasks: Vec<SwarmSubtask>, now: i64) -> (id: u128)
        requires
            old(self).wf(),
        ensures
            final(self).wf(),
            final(self).loads() == old(self).loads(),
            final(self).tasks().has(id),
            final(self).tasks().at(id) == (SwarmTask {
                id,
                description,
                subtasks,
                progress_completed: 0,
                progress_total: 0,
                created_at: now,
                aggregated_result: None,
            }),
            forall|j: u128| j != id ==> (final(self).tasks().has(j) == old(self).tasks().has(j)),
            forall|j: u128| j != id && old(self).tasks().has(j) ==> final(self).tasks().at(j) == old(self).tasks().at(j),
    {
        self.put_task(description, subtasks, now)
    }

    /// Create a task now with the given subtasks; returns its id.
    pub fn create_task_with_subtasks(&mut self, description: String, subtasks: Vec<SwarmSubtask>) -> (id: u128)
        requires
            old(self).wf(),
        ensures
            final(self).wf(),
            final(self).tasks().has(id),
            final(self).tasks().at(id).subtasks == subtasks,
    {
        let now = now_ms();
        self.create_task_with_subtasks_at(description, subtasks, now)
    }

    /// Ids of all swarm tasks, in creation order.
    pub fn list_task_ids(&self) -> (r: Vec<u128>)
        requires
            self.wf(),
        ensures
            r@ == self.tasks().key_seq(),
    {
        let mut r: Vec<u128> = Vec::new();
        let mut i: usize = 0;
        proof {
            self.tasks.lemma_wf();
        }
        while i < self.tasks.size()
            invariant
                self.wf(),
                i <= self.tasks().len(),
                r@ == self.tasks().key_seq().take(i as int),
            decreases self.tasks().len() - i,
        {
            proof {
                self.tasks.lemma_wf();
            }
            r.push(self.tasks.key_at(i));
            i = i + 1;
            assert(r@ =~= self.tasks().key_seq().take(i as int));
        }
        assert(self.tasks().key_seq().take(self.tasks().len() as int) =~= self.tasks().key_seq());
        r
    }

    /// Remove a swarm task; whether it existed.
    pub fn remove_task(&mut self, task_id: u128) -> (removed: bool)
        requires
            old(self).wf(),
        ensures
            final(self).wf(),
            final(self).loads() == old(self).loads(),
            removed == old(self).tasks().has(task_id),
            !final(self).tasks().has(task_id),
            forall|j: u128| j != task_id ==> (final(self).tasks().has(j) == old(self).tasks().has(j)),
            forall|j: u128| j != task_id && old(self).tasks().has(j) ==> final(self).tasks().at(j) == old(self).tasks().at(j),
    {
        let ghost t0 = self.tasks;
        let r = self.tasks.remove(task_id);
        proof {
            lemma_table_remove(t0, self.tasks, task_id);
            assert forall|j: u128| self.tasks.has(j) implies (#[trigger] self.tasks.at(j)).id == j by {
                assert(t0.has(j));
            }
        }
        r.is_some()
    }
}

impl Default for SwarmCoordinator {
    /// A coordinator with no tasks or fighters.
    fn default() -> (c: SwarmCoordinator)
        ensures
            c.wf(),
            c.tasks().len() == 0,
            c.loads().len() == 0,
    {
        SwarmCoordinator::new()
    }
}

// ---------------------------------------------------------------------------
// Working on subtasks
// ---------------------------------------------------------------------------

/// Whether some subtask of `subs` with id `d` is completed.
fn dep_done(subs: &Vec<SwarmSubtask>, d: u128) -> (b: bool)
    ensures
        b == exists|j: int| 0 <= j < subs@.len() && subs@[j].id == d && (#[trigger] subs@[j]).status is Completed,
{
    let mut j: usize = 0;
    while j < subs.len()
        invariant
            j <= subs@.len(),
            forall|k: int| 0 <= k < j ==> !(subs@[k].id == d && (#[trigger] subs@[k]).status is Completed),
        decreases subs@.len() - j,
    {
        let done = match &subs[j].status {
            SubtaskStatus::Completed => true,
            _ => false,
        };
        if subs[j].id == d && done {
            return true;
        }
        j = j + 1;
    }
    false
}

/// The positions of the subtasks that may be assigned, in order.
fn eligible_positions(subs: &Vec<SwarmSubtask>) -> (r: Vec<usize>)
    ensures
        r@.map_values(|x: usize| x as int) == eligible_upto(subs@, subs@.len() as int),
{
    let mut r: Vec<usize> = Vec::new();
    let mut i: usize = 0;
    while i < subs.len()
        invariant
            i <= subs@.len(),
            r@.map_values(|x: usize| x as int) == eligible_upto(subs@, i as int),
        decreases subs@.len() - i,
    {
        let pending = match &subs[i].status {
            SubtaskStatus::Pending => true,
            _ => false,
        };
        let mut ok = pending;
        if pending {
            let deps = &subs[i].depends_on;
            let mut all = true;
            let mut d: usize = 0;
            while d < deps.len()
                invariant
                    d <= deps@.len(),
                    deps@ == subs@[i as int].depends_on@,
                    all == forall|e: int|
                        0 <= e < d ==> exists|j: int|
                            0 <= j < subs@.len() && subs@[j].id == #[trigger] deps@[e] && subs@[j].status is Completed,
                decreases deps@.len() - d,
            {
                if !dep_done(subs, deps[d]) {
                    all = false;
                }
                d = d + 1;
            }
            ok = all;
        }
        assert(ok == eligible(subs@, i as int));
        let ghost before = r@.map_values(|x: usize| x as int);
        if ok {
            r.push(i);
            assert(r@.map_values(|x: usize| x as int) =~= before.push(i as int));
        }
        i = i + 1;
    }
    r
}

/// Assign subtask `i` of `task` to fighter `f`.
fn assign_sub(task: &mut SwarmTask, i: usize, f: FighterId)
    requires
        i < old(task).subtasks@.len(),
    ensures
        final(task).subtasks@ == old(task).subtasks@.update(i as int, assigned(old(task).subtasks@[i as int], f)),
        *final(task) == (SwarmTask { subtasks: final(task).subtasks, ..*old(task) }),
{
    task.subtasks[i].assigned_to = Some(f);
    task.subtasks[i].status = SubtaskStatus::Running;
}

/// The number of completed subtasks of `subs`.
pub open spec fn completed_count(subs: Seq<SwarmSubtask>) -> nat {
    subs.filter(|s: SwarmSubtask| s.status is Completed).len()
}

fn count_completed(subs: &Vec<SwarmSubtask>) -> (n: usize)
    ensures
        n == completed_count(subs@),
        n <= subs@.len(),
{
    let ghost pred = |s: SwarmSubtask| s.status is Completed;
    let mut n: usize = 0;
    let mut i: usize = 0;
    while i < subs.len()
        invariant
            i <= subs@.len(),
            pred == (|s: SwarmSubtask| s.status is Completed),
            n == subs@.take(i as int).filter(pred).len(),
            n <= i,
        decreases subs@.len() - i,
    {
        proof {
            lemma_filter_take_step(subs@, i as int, pred);
        }
        match &subs[i].status {
            SubtaskStatus::Completed => {
                n = n + 1;
            },
            _ => {},
        }
        i = i + 1;
    }
    assert(subs@.take(subs@.len() as int) =~= subs@);
    n
}

/// Finish subtask `i` of `task` with `status` and `result`.
fn finish_sub(task: &mut SwarmTask, i: usize, status: SubtaskStatus, result: Option<String>)
    requires
        i < old(task).subtasks@.len(),
    ensures
        final(task).subtasks@ == old(task).subtasks@.update(
            i as int,
            SwarmSubtask { status, result: match result {
                Some(r) => Some(r),
                None => old(task).subtasks@[i as int].result,
            }, ..old(task).subtasks@[i as int] },
        ),
        *final(task) == (SwarmTask { subtasks: final(task).subtasks, ..*old(task) }),
{
    task.subtasks[i].status = status;
    match result {
        Some(r) => {
            task.subtasks[i].result = Some(r);
        },
        None => {},
    }
}

/// Recompute the progress of `task`; once every subtask completed, merge
/// the results.
fn refresh_progress(task: &mut SwarmTask)
    ensures
        final(task).subtasks == old(task).subtasks,
        final(task).progress_completed == completed_count(old(task).subtasks@),
        final(task).progress_total == old(task).subtasks@.len(),
        ({
            let done = old(task).subtasks@.len() > 0 && completed_count(old(task).subtasks@) == old(task).subtasks@.len();
            &&& done ==> final(task).aggregated_result is Some && final(task).aggregated_result.unwrap()@ == aggregate(
                old(task).subtasks@,
            )
            &&& !done ==> final(task).aggregated_result == old(task).aggregated_result
        }),
        *final(task) == (SwarmTask {
            progress_completed: final(task).progress_completed,
            progress_total: final(task).progress_total,
            aggregated_result: final(task).aggregated_result,
            ..*old(task)
        }),
{
    let c = count_completed(&task.subtasks);
    let n = task.subtasks.len();
    task.progress_completed = c;
    task.progress_total = n;
    if n > 0 && c == n {
        let agg = aggregate_results(&task.subtasks);
        task.aggregated_result = Some(agg);
    }
}

impl SwarmCoordinator {
    /// After the task at position `i` changed, keeping its id, the
    /// coordinator is still well formed and only that task changed.
    proof fn lemma_task_set(t0: Table<SwarmTask>, c: &SwarmCoordinator, i: int)
        requires
            t0.wf(),
            c.tasks.wf(),
            c.fighter_loads.wf(),
            forall|k: u128| t0.has(k) ==> (#[trigger] t0.at(k)).id == k,
            forall|k: u128| c.fighter_loads.has(k) ==> (#[trigger] c.fighter_loads.at(k)).fighter_id.0 == k,
            0 <= i < t0.len(),
            c.tasks.key_seq() == t0.key_seq(),
            c.tasks.val_seq() == t0.val_seq().update(i, c.tasks.val_seq()[i]),
            c.tasks.val_seq()[i].id == t0.val_seq()[i].id,
        ensures
            c.wf(),
            c.tasks.at(t0.key_seq()[i]) == c.tasks.val_seq()[i],
            forall|j: u128| #[trigger] c.tasks.has(j) == t0.has(j),
            forall|j: u128| j != t0.key_seq()[i] && t0.has(j) ==> c.tasks.at(j) == t0.at(j),
    {
        lemma_table_set(t0, c.tasks, i, c.tasks.val_seq()[i]);
        t0.lemma_wf();
        assert forall|j: u128| c.tasks.has(j) implies (#[trigger] c.tasks.at(j)).id == j by {
            assert(t0.has(j));
            if j == t0.key_seq()[i] {
                assert(t0.at(j).id == j);
                assert(t0.pos(j) == i);
            }
        }
    }

    /// What `assign_subtasks(task_id)` does: the subtasks that may be assigned
    /// are given, in order, to the best fighter for each at that moment (see
    /// `assign_fold`); the assignments are returned as (subtask, fighter).
    pub open spec fn assign_post(
        old_c: SwarmCoordinator,
        new_c: SwarmCoordinator,
        task_id: u128,
        r: Result<Vec<(u128, FighterId)>, SwarmError>,
    ) -> bool {
        if !old_c.tasks().has(task_id) {
            &&& r == Err::<Vec<(u128, FighterId)>, SwarmError>(SwarmError::TaskNotFound(task_id))
            &&& new_c.tasks() == old_c.tasks()
            &&& new_c.loads() == old_c.loads()
        } else {
            let t = old_c.tasks().at(task_id);
            let subs = t.subtasks@;
            let f = assign_fold(old_c.loads().val_seq(), subs, eligible_upto(subs, subs.len() as int));
            &&& r is Ok && r.unwrap()@ == f.2
            &&& new_c.loads().key_seq() == old_c.loads().key_seq()
            &&& new_c.loads().val_seq() == f.0
            &&& new_c.tasks().has(task_id)
            &&& new_c.tasks().at(task_id).subtasks@ == f.1
            &&& new_c.tasks().at(task_id) == (SwarmTask { subtasks: new_c.tasks().at(task_id).subtasks, ..t })
            &&& forall|j: u128| #[trigger] new_c.tasks().has(j) == old_c.tasks().has(j)
            &&& forall|j: u128| j != task_id && old_c.tasks().has(j) ==> new_c.tasks().at(j) == old_c.tasks().at(j)
        }
    }

    /// Assign the pending subtasks of a task whose dependencies are all
    /// completed, by capability and load (see `assign_post`).
    pub fn assign_subtasks(&mut self, task_id: u128) -> (r: Result<Vec<(u128, FighterId)>, SwarmError>)
        requires
            old(self).wf(),
            old(self).tasks().has(task_id) ==> forall|k: u128|
                old(self).loads().has(k) ==> (#[trigger] old(self).loads().at(k)).active_tasks + old(self).tasks().at(
                    task_id,
                ).subtasks@.len() <= usize::MAX,
        ensures
            final(self).wf(),
            Self::assign_post(*old(self), *final(self), task_id, r),
    {
        let ti = match self.tasks.find(task_id) {
            Some(i) => i,
            None => {
                return Err(SwarmError::TaskNotFound(task_id));
            },
        };
        let ghost c0 = *self;
        let ghost l0 = self.fighter_loads.val_seq();
        let ghost s0 = self.tasks.val_seq()[ti as int].subtasks@;
        let ghost t0 = self.tasks.val_seq()[ti as int];
        proof {
            self.tasks.lemma_wf();
            self.fighter_loads.lemma_wf();
            assert(self.tasks.key_seq()[ti as int] == task_id);
            assert(self.tasks.at(task_id) == t0);
            assert forall|j: int| 0 <= j < l0.len() implies #[trigger] l0[j].active_tasks + s0.len() <= usize::MAX by {
                let k = self.fighter_loads.key_seq()[j];
                assert(self.fighter_loads.pos(self.fighter_loads.key_seq()[j]) == j);
                assert(self.fighter_loads.key_seq().contains(k));
                assert(self.fighter_loads.at(k) == l0[j]);
                assert(old(self).loads().has(k));
            }
        }
        let elig = eligible_positions(&self.tasks.val_at(ti).subtasks);
        let ghost e = elig@.map_values(|x: usize| x as int);
        proof {
            lemma_eligible_upto(s0, s0.len() as int);
        }
        let mut out: Vec<(u128, FighterId)> = Vec::new();
        let mut m: usize = 0;
        while m < elig.len()
            invariant
                self.wf(),
                ti < self.tasks().len(),
                self.tasks().key_seq() == c0.tasks().key_seq(),
                self.tasks().key_seq()[ti as int] == task_id,
                forall|j: u128| #[trigger] self.tasks().has(j) == c0.tasks().has(j),
                forall|j: u128| j != task_id && c0.tasks().has(j) ==> #[trigger] self.tasks().at(j) == c0.tasks().at(j),
                self.tasks().at(task_id) == self.tasks().val_seq()[ti as int],
                self.tasks().val_seq()[ti as int] == (SwarmTask {
                    subtasks: self.tasks().val_seq()[ti as int].subtasks,
                    ..t0
                }),
                t0 == c0.tasks().val_seq()[ti as int],
                s0 == t0.subtasks@,
                self.loads().key_seq() == c0.loads().key_seq(),
                l0 == c0.loads().val_seq(),
                e == elig@.map_values(|x: usize| x as int),
                e == eligible_upto(s0, s0.len() as int),
                increasing_below(e, s0.len() as int),
                m <= elig@.len(),
                elig@.len() <= s0.len(),
                (self.loads().val_seq(), self.tasks().val_seq()[ti as int].subtasks@, out@) == assign_fold(
                    l0,
                    s0,
                    e.take(m as int),
                ),
                forall|j: int|
                    0 <= j < l0.len() ==> #[trigger] self.loads().val_seq()[j].active_tasks <= l0[j].active_tasks + m,
                forall|j: int| 0 <= j < l0.len() ==> #[trigger] l0[j].active_tasks + s0.len() <= usize::MAX,
            decreases elig@.len() - m,
        {
            let idx = elig[m];
            proof {
                assert(e.take(m + 1).drop_last() =~= e.take(m as int));
                assert(e.take(m + 1).last() == idx as int);
                self.tasks.lemma_wf();
                self.fighter_loads.lemma_wf();
                lemma_fold_untouched(l0, s0, e.take(m as int), idx as int);
            }
            let best = self.best_fighter_index(self.tasks.val_at(ti).subtasks[idx].description.as_str());
            match best {
                Some(j) => {
                    proof {
                        lemma_first_min(
                            self.loads().val_seq(),
                            capable_for(self.tasks().val_seq()[ti as int].subtasks@[idx as int].description@),
                            self.loads().len() as int,
                        );
                        lemma_first_min(self.loads().val_seq(), healthy_only(), self.loads().len() as int);
                    }
                    let fid = self.fighter_loads.val_at(j).fighter_id;
                    let sid = self.tasks.val_at(ti).subtasks[idx].id;
                    let ghost lb = self.loads().val_seq();
                    self.bump_load(j);
                    let ghost tb = self.tasks;
                    proof {
                        tb.lemma_wf();
                    }
                    assign_sub(self.tasks.val_mut(ti), idx, fid);
                    proof {
                        Table::lemma_wf_vals(tb, self.tasks);
                        Self::lemma_task_set(tb, self, ti as int);
                        assert(tb.key_seq()[ti as int] == task_id);
                        assert(self.tasks().at(task_id) == self.tasks().val_seq()[ti as int]);
                        assert(tb.val_seq()[ti as int] == (SwarmTask { subtasks: tb.val_seq()[ti as int].subtasks, ..t0 }));
                        assert(self.tasks().val_seq()[ti as int] == (SwarmTask {
                            subtasks: self.tasks().val_seq()[ti as int].subtasks,
                            ..t0
                        }));
                        assert forall|j: u128| j != task_id && c0.tasks().has(j) implies #[trigger] self.tasks().at(j)
                            == c0.tasks().at(j) by {
                            assert(tb.has(j));
                            assert(tb.at(j) == c0.tasks().at(j));
                        }
                        assert forall|jj: int| 0 <= jj < l0.len() implies #[trigger] self.loads().val_seq()[jj].active_tasks
                            <= l0[jj].active_tasks + m + 1 by {
                            assert(lb[jj].active_tasks <= l0[jj].active_tasks + m);
                        }
                    }
                    out.push((sid, fid));
                },
                None => {},
            }
            m = m + 1;
        }
        proof {
            assert(e.take(elig@.len() as int) =~= e);
        }
        Ok(out)
    }
}

/// Once found among the first `a` subtasks, a subtask stays the one found
/// among more.
pub proof fn lemma_find_subtask_stable(subs: Seq<SwarmSubtask>, id: u128, a: int, b: int)
    requires
        0 <= a <= b,
        find_subtask(subs, id, a) is Some,
    ensures
        find_subtask(subs, id, b) == find_subtask(subs, id, a),
    decreases b - a,
{
    if b > a {
        lemma_find_subtask_stable(subs, id, a, b - 1);
    }
}

/// The position of the first subtask with id `id`.
fn find_sub(subs: &Vec<SwarmSubtask>, id: u128) -> (r: Option<usize>)
    ensures
        match r {
            Some(i) => find_subtask(subs@, id, subs@.len() as int) == Some(i as int),
            None => find_subtask(subs@, id, subs@.len() as int) is None,
        },
{
    let mut i: usize = 0;
    while i < subs.len()
        invariant
            i <= subs@.len(),
            find_subtask(subs@, id, i as int) is None,
        decreases subs@.len() - i,
    {
        if subs[i].id == id {
            proof {
                assert(find_subtask(subs@, id, i + 1) == Some(i as int));
                lemma_find_subtask_stable(subs@, id, i + 1, subs@.len() as int);
            }
            return Some(i);
        }
        i = i + 1;
    }
    None
}

/// The loads after releasing fighter `a` from a subtask: its active count
/// drops by one (not below zero) when it is registered.
pub open spec fn released_load(old_l: Table<FighterLoad>, new_l: Table<FighterLoad>, a: Option<FighterId>) -> bool {
    &&& new_l.key_seq() == old_l.key_seq()
    &&& match a {
        Some(f) => if old_l.has(f.0) {
            new_l.val_seq() == old_l.val_seq().update(old_l.pos(f.0), with_one_less(old_l.at(f.0)))
        } else {
            new_l.val_seq() == old_l.val_seq()
        },
        None => new_l.val_seq() == old_l.val_seq(),
    }
}

/// `t` after its progress is recomputed from subtasks `subs`: the completed
/// and total counts, and the merged results once every subtask completed.
pub open spec fn refreshed(t: SwarmTask, subs: Seq<SwarmSubtask>, n: SwarmTask) -> bool {
    let done = subs.len() > 0 && completed_count(subs) == subs.len();
    &&& n.subtasks@ == subs
    &&& n.progress_completed == completed_count(subs)
    &&& n.progress_total == subs.len()
    &&& done ==> n.aggregated_result is Some && n.aggregated_result.unwrap()@ == aggregate(subs)
    &&& !done ==> n.aggregated_result == t.aggregated_result
    &&& n == (SwarmTask {
        subtasks: n.subtasks,
        progress_completed: n.progress_completed,
        progress_total: n.progress_total,
        aggregated_result: n.aggregated_result,
        ..t
    })
}

/// Fighter `f` is stale at `now` (seconds): healthy and busy, but without a
/// heartbeat for longer than the threshold.
pub open spec fn stale(f: FighterLoad, now: i64) -> bool {
    f.healthy && f.active_tasks > 0 && now - f.last_heartbeat > STALE_THRESHOLD_SECS
}

impl SwarmCoordinator {
    /// Release fighter `a` from a subtask (see `released_load`).
    fn release(&mut self, a: Option<FighterId>)
        requires
            old(self).wf(),
        ensures
            final(self).wf(),
            final(self).tasks() == old(self).tasks(),
            released_load(old(self).loads(), final(self).loads(), a),
    {
        match a {
            Some(f) => match self.fighter_loads.find(f.0) {
                Some(j) => {
                    self.drop_load(j);
                },
                None => {},
            },
            None => {},
        }
    }

    /// Replace the task at position `ti` through `finish_sub`.
    fn finish_at(&mut self, ti: usize, i: usize, status: SubtaskStatus, result: Option<String>)
        requires
            old(self).wf(),
            ti < old(self).tasks().len(),
            i < old(self).tasks().val_seq()[ti as int].subtasks@.len(),
        ensures
            final(self).wf(),
            final(self).loads() == old(self).loads(),
            final(self).tasks().key_seq() == old(self).tasks().key_seq(),
            ({
                let t = old(self).tasks().val_seq()[ti as int];
                let n = final(self).tasks().val_seq()[ti as int];
                &&& n.subtasks@ == t.subtasks@.update(
                    i as int,
                    SwarmSubtask { status, result: match result {
                        Some(r) => Some(r),
                        None => t.subtasks@[i as int].result,
                    }, ..t.subtasks@[i as int] },
                )
                &&& n == (SwarmTask { subtasks: n.subtasks, ..t })
            }),
            final(self).tasks().at(old(self).tasks().key_seq()[ti as int]) == final(self).tasks().val_seq()[ti as int],
            forall|j: u128| #[trigger] final(self).tasks().has(j) == old(self).tasks().has(j),
            forall|j: u128|
                j != old(self).tasks().key_seq()[ti as int] && old(self).tasks().has(j) ==> #[trigger] final(self).tasks().at(j) == old(self).tasks().at(j),
    {
        let ghost t0 = self.tasks;
        proof {
            t0.lemma_wf();
        }
        finish_sub(self.tasks.val_mut(ti), i, status, result);
        proof {
            Table::lemma_wf_vals(t0, self.tasks);
            Self::lemma_task_set(t0, self, ti as int);
        }
    }

    /// Recompute the progress of the task at position `ti`.
    fn refresh_at(&mut self, ti: usize)
        requires
            old(self).wf(),
            ti < old(self).tasks().len(),
        ensures
            final(self).wf(),
            final(self).loads() == old(self).loads(),
            final(self).tasks().key_seq() == old(self).tasks().key_seq(),
            refreshed(
                old(self).tasks().val_seq()[ti as int],
                old(self).tasks().val_seq()[ti as int].subtasks@,
                final(self).tasks().val_seq()[ti as int],
            ),
            final(self).tasks().at(old(self).tasks().key_seq()[ti as int]) == final(self).tasks().val_seq()[ti as int],
            forall|j: u128| #[trigger] final(self).tasks().has(j) == old(self).tasks().has(j),
            forall|j: u128|
                j != old(self).tasks().key_seq()[ti as int] && old(self).tasks().has(j) ==> #[trigger] final(self).tasks().at(j) == old(self).tasks().at(j),
    {
        let ghost t0 = self.tasks;
        proof {
            t0.lemma_wf();
        }
        refresh_progress(self.tasks.val_mut(ti));
        proof {
            Table::lemma_wf_vals(t0, self.tasks);
            Self::lemma_task_set(t0, self, ti as int);
        }
    }

    /// Locate subtask `subtask_id` of task `task_id`: positions of the task and
    /// of the subtask within it.
    fn locate(&self, task_id: u128, subtask_id: u128) -> (r: Result<(usize, usize), SwarmError>)
        requires
            self.wf(),
        ensures
            !self.tasks().has(task_id) ==> r == Err::<(usize, usize), SwarmError>(SwarmError::TaskNotFound(task_id)),
            self.tasks().has(task_id) && find_subtask(
                self.tasks().at(task_id).subtasks@,
                subtask_id,
                self.tasks().at(task_id).subtasks@.len() as int,
            ) is None ==> r == Err::<(usize, usize), SwarmError>(
                SwarmError::SubtaskNotFound { task: task_id, subtask: subtask_id },
            ),
            self.tasks().has(task_id) && find_subtask(
                self.tasks().at(task_id).subtasks@,
                subtask_id,
                self.tasks().at(task_id).subtasks@.len() as int,
            ) is Some ==> r is Ok && r.unwrap().0 == self.tasks().pos(task_id) && r.unwrap().0 < self.tasks().len()
                && find_subtask(
                self.tasks().at(task_id).subtasks@,
                subtask_id,
                self.tasks().at(task_id).subtasks@.len() as int,
            ) == Some(r.unwrap().1 as int) && r.unwrap().1 < self.tasks().at(task_id).subtasks@.len(),
    {
        let ti = match self.tasks.find(task_id) {
            Some(i) => i,
            None => {
                return Err(SwarmError::TaskNotFound(task_id));
            },
        };
        proof {
            self.tasks.lemma_wf();
        }
        match find_sub(&self.tasks.val_at(ti).subtasks, subtask_id) {
            Some(i) => {
                proof {
                    lemma_find_subtask(
                        self.tasks().at(task_id).subtasks@,
                        subtask_id,
                        self.tasks().at(task_id).subtasks@.len() as int,
                    );
                }
                Ok((ti, i))
            },
            None => Err(SwarmError::SubtaskNotFound { task: task_id, subtask: subtask_id }),
        }
    }

    /// Report the completion of a subtask with `result`: its fighter is
    /// released, it becomes completed with the result, the task's progress is
    /// recomputed, and once every subtask completed the results are merged.
    pub fn complete_subtask(&mut self, task_id: u128, subtask_id: u128, result: String) -> (r: Result<(), SwarmError>)
        requires
            old(self).wf(),
        ensures
            final(self).wf(),
            ({
                let t = old(self).tasks().at(task_id);
                let found = find_subtask(t.subtasks@, subtask_id, t.subtasks@.len() as int);
                if !old(self).tasks().has(task_id) {
                    r == Err::<(), SwarmError>(SwarmError::TaskNotFound(task_id)) && final(self).tasks()
                        == old(self).tasks() && final(self).loads() == old(self).loads()
                } else if found is None {
                    r == Err::<(), SwarmError>(SwarmError::SubtaskNotFound { task: task_id, subtask: subtask_id })
                        && final(self).tasks() == old(self).tasks() && final(self).loads() == old(self).loads()
                } else {
                    let i = found.unwrap();
                    let subs = t.subtasks@.update(
                        i,
                        SwarmSubtask { status: SubtaskStatus::Completed, result: Some(result), ..t.subtasks@[i] },
                    );
                    &&& r == Ok::<(), SwarmError>(())
                    &&& released_load(old(self).loads(), final(self).loads(), t.subtasks@[i].assigned_to)
                    &&& final(self).tasks().has(task_id)
                    &&& refreshed(t, subs, final(self).tasks().at(task_id))
                    &&& forall|j: u128| #[trigger] final(self).tasks().has(j) == old(self).tasks().has(j)
                    &&& forall|j: u128|
                        j != task_id && old(self).tasks().has(j) ==> #[trigger] final(self).tasks().at(j) == old(self).tasks().at(j)
                }
            }),
    {
        let (ti, i) = match self.locate(task_id, subtask_id) {
            Ok(p) => p,
            Err(e) => {
                return Err(e);
            },
        };
        proof {
            self.tasks.lemma_wf();
        }
        let a = self.tasks.val_at(ti).subtasks[i].assigned_to;
        self.release(a);
        self.finish_at(ti, i, SubtaskStatus::Completed, Some(result));
        self.refresh_at(ti);
        Ok(())
    }

    /// Report the failure of a subtask with `error`: its fighter is released
    /// and it becomes failed.
    pub fn fail_subtask(&mut self, task_id: u128, subtask_id: u128, error: String) -> (r: Result<(), SwarmError>)
        requires
            old(self).wf(),
        ensures
            final(self).wf(),
            ({
                let t = old(self).tasks().at(task_id);
                let found = find_subtask(t.subtasks@, subtask_id, t.subtasks@.len() as int);
                if !old(self).tasks().has(task_id) {
                    r == Err::<(), SwarmError>(SwarmError::TaskNotFound(task_id)) && final(self).tasks()
                        == old(self).tasks() && final(self).loads() == old(self).loads()
                } else if found is None {
                    r == Err::<(), SwarmError>(SwarmError::SubtaskNotFound { task: task_id, subtask: subtask_id })
                        && final(self).tasks() == old(self).tasks() && final(self).loads() == old(self).loads()
                } else {
                    let i = found.unwrap();
                    let n = final(self).tasks().at(task_id);
                    &&& r == Ok::<(), SwarmError>(())
                    &&& released_load(old(self).loads(), final(self).loads(), t.subtasks@[i].assigned_to)
                    &&& final(self).tasks().has(task_id)
                    &&& n.subtasks@ == t.subtasks@.update(
                        i,
                        SwarmSubtask { status: SubtaskStatus::Failed(error), ..t.subtasks@[i] },
                    )
                    &&& n == (SwarmTask { subtasks: n.subtasks, ..t })
                    &&& forall|j: u128| #[trigger] final(self).tasks().has(j) == old(self).tasks().has(j)
                    &&& forall|j: u128|
                        j != task_id && old(self).tasks().has(j) ==> #[trigger] final(self).tasks().at(j) == old(self).tasks().at(j)
                }
            }),
    {
        let (ti, i) = match self.locate(task_id, subtask_id) {
            Ok(p) => p,
            Err(e) => {
                return Err(e);
            },
        };
        proof {
            self.tasks.lemma_wf();
        }
        let a = self.tasks.val_at(ti).subtasks[i].assigned_to;
        self.release(a);
        self.finish_at(ti, i, SubtaskStatus::Failed(error), None);
        Ok(())
    }

    /// Reassign a failed subtask to the least loaded healthy fighter other
    /// than the one it failed on; returns that fighter, or none when there is
    /// no such fighter (then nothing changes).
    pub fn reassign_failed_subtask(&mut self, task_id: u128, subtask_id: u128) -> (r: Result<Option<FighterId>, SwarmError>)
        requires
            old(self).wf(),
            forall|k: u128| old(self).loads().has(k) ==> (#[trigger] old(self).loads().at(k)).active_tasks < usize::MAX,
        ensures
            final(self).wf(),
            ({
                let t = old(self).tasks().at(task_id);
                let found = find_subtask(t.subtasks@, subtask_id, t.subtasks@.len() as int);
                let l = old(self).loads().val_seq();
                if !old(self).tasks().has(task_id) {
                    r == Err::<Option<FighterId>, SwarmError>(SwarmError::TaskNotFound(task_id)) && final(self).tasks()
                        == old(self).tasks() && final(self).loads() == old(self).loads()
                } else if found is None {
                    r == Err::<Option<FighterId>, SwarmError>(
                        SwarmError::SubtaskNotFound { task: task_id, subtask: subtask_id },
                    ) && final(self).tasks() == old(self).tasks() && final(self).loads() == old(self).loads()
                } else if !(t.subtasks@[found.unwrap()].status is Failed) {
                    r == Err::<Option<FighterId>, SwarmError>(SwarmError::NotFailed(subtask_id)) && final(self).tasks()
                        == old(self).tasks() && final(self).loads() == old(self).loads()
                } else {
                    let i = found.unwrap();
                    match replacement_fighter(l, t.subtasks@[i].assigned_to) {
                        None => r == Ok::<Option<FighterId>, SwarmError>(None) && final(self).tasks() == old(self).tasks() && final(self).loads() == old(self).loads(),
                        Some(j) => {
                            let n = final(self).tasks().at(task_id);
                            &&& r == Ok::<Option<FighterId>, SwarmError>(Some(l[j].fighter_id))
                            &&& final(self).loads().key_seq() == old(self).loads().key_seq()
                            &&& final(self).loads().val_seq() == l.update(j, with_one_more(l[j]))
                            &&& final(self).tasks().has(task_id)
                            &&& n.subtasks@ == t.subtasks@.update(i, assigned(t.subtasks@[i], l[j].fighter_id))
                            &&& n == (SwarmTask { subtasks: n.subtasks, ..t })
                            &&& forall|q: u128| #[trigger] final(self).tasks().has(q) == old(self).tasks().has(q)
                            &&& forall|q: u128|
                                q != task_id && old(self).tasks().has(q) ==> #[trigger] final(self).tasks().at(q)
                                    == old(self).tasks().at(q)
                        },
                    }
                }
            }),
    {
        let (ti, i) = match self.locate(task_id, subtask_id) {
            Ok(p) => p,
            Err(e) => {
                return Err(e);
            },
        };
        proof {
            self.tasks.lemma_wf();
            self.fighter_loads.lemma_wf();
        }
        let failed = match &self.tasks.val_at(ti).subtasks[i].status {
            SubtaskStatus::Failed(_) => true,
            _ => false,
        };
        if !failed {
            return Err(SwarmError::NotFailed(subtask_id));
        }
        let excluded = self.tasks.val_at(ti).subtasks[i].assigned_to;
        let flags = self.healthy_flags(excluded, true);
        match first_min_flagged(&self.fighter_loads, &flags, Ghost(healthy_except(excluded))) {
            None => Ok(None),
            Some(j) => {
                proof {
                    lemma_first_min(self.loads().val_seq(), healthy_except(excluded), self.loads().len() as int);
                    let k = self.fighter_loads.key_seq()[j as int];
                    assert(self.fighter_loads.pos(self.fighter_loads.key_seq()[j as int]) == j);
                    assert(self.fighter_loads.key_seq().contains(k));
                    assert(self.fighter_loads.at(k).active_tasks < usize::MAX);
                }
                let fid = self.fighter_loads.val_at(j).fighter_id;
                self.bump_load(j);
                let ghost t0 = self.tasks;
                proof {
                    t0.lemma_wf();
                }
                assign_sub(self.tasks.val_mut(ti), i, fid);
                proof {
                    Table::lemma_wf_vals(t0, self.tasks);
                    Self::lemma_task_set(t0, self, ti as int);
                }
                Ok(Some(fid))
            },
        }
    }

    /// Mark every stale fighter (see `stale`) at `now` (seconds) unhealthy;
    /// returns them in registration order.
    pub fn detect_stale_fighters_at(&mut self, now: i64) -> (r: Vec<FighterId>)
        requires
            old(self).wf(),
        ensures
            final(self).wf(),
            final(self).tasks() == old(self).tasks(),
            final(self).loads().key_seq() == old(self).loads().key_seq(),
            final(self).loads().val_seq().len() == old(self).loads().val_seq().len(),
            forall|j: int|
                0 <= j < old(self).loads().val_seq().len() ==> #[trigger] final(self).loads().val_seq()[j] == if stale(
                    old(self).loads().val_seq()[j],
                    now,
                ) {
                    with_health(old(self).loads().val_seq()[j], false, None)
                } else {
                    old(self).loads().val_seq()[j]
                },
            r@ == old(self).loads().val_seq().filter(|f: FighterLoad| stale(f, now)).map_values(
                |f: FighterLoad| f.fighter_id,
            ),
    {
        let ghost l0 = self.fighter_loads.val_seq();
        let ghost pred = |f: FighterLoad| stale(f, now);
        let mut out: Vec<FighterId> = Vec::new();
        let n = self.fighter_loads.size();
        let mut i: usize = 0;
        proof {
            self.fighter_loads.lemma_wf();
        }
        while i < n
            invariant
                self.wf(),
                self.tasks() == old(self).tasks(),
                l0 == old(self).loads().val_seq(),
                n == l0.len(),
                i <= n,
                pred == (|f: FighterLoad| stale(f, now)),
                self.loads().key_seq() == old(self).loads().key_seq(),
                self.loads().val_seq().len() == n,
                out@ == l0.take(i as int).filter(pred).map_values(|f: FighterLoad| f.fighter_id),
                forall|j: int| i <= j < n ==> #[trigger] self.loads().val_seq()[j] == l0[j],
                forall|j: int|
                    0 <= j < i ==> #[trigger] self.loads().val_seq()[j] == if stale(l0[j], now) {
                        with_health(l0[j], false, None)
                    } else {
                        l0[j]
                    },
            decreases n - i,
        {
            proof {
                self.fighter_loads.lemma_wf();
                lemma_filter_take_step(l0, i as int, pred);
            }
            let f = self.fighter_loads.val_at(i);
            let hit = f.healthy && f.active_tasks > 0 && (now as i128) - (f.last_heartbeat as i128)
                > STALE_THRESHOLD_SECS as i128;
            let fid = f.fighter_id;
            if hit {
                let ghost before = out@;
                self.set_health(i, false, None);
                out.push(fid);
                proof {
                    assert(l0.take(i + 1).filter(pred) == l0.take(i as int).filter(pred).push(l0[i as int]));
                    assert(out@ =~= l0.take(i + 1).filter(pred).map_values(|f: FighterLoad| f.fighter_id));
                }
            }
            i = i + 1;
        }
        proof {
            assert(l0.take(n as int) =~= l0);
        }
        out
    }

    /// Mark every stale fighter unhealthy now; returns them.
    pub fn detect_stale_fighters(&mut self) -> (r: Vec<FighterId>)
        requires
            old(self).wf(),
        ensures
            final(self).wf(),
            final(self).loads().key_seq() == old(self).loads().key_seq(),
    {
        let now = now_secs();
        self.detect_stale_fighters_at(now)
    }

    /// The progress of a task as last computed: (completed, total) subtasks.
    pub fn get_progress(&self, task_id: u128) -> (r: Option<(usize, usize)>)
        requires
            self.wf(),
        ensures
            r == if self.tasks().has(task_id) {
                Some((self.tasks().at(task_id).progress_completed, self.tasks().at(task_id).progress_total))
            } else {
                None
            },
    {
        match self.tasks.get(task_id) {
            Some(t) => Some((t.progress_completed, t.progress_total)),
            None => None,
        }
    }

    /// Counts of a task's subtasks by status.
    pub fn get_progress_report(&self, task_id: u128) -> (r: Option<ProgressReport>)
        requires
            self.wf(),
        ensures
            match r {
                Some(p) => {
                    let subs = self.tasks().at(task_id).subtasks@;
                    &&& self.tasks().has(task_id)
                    &&& p.task_id == task_id
                    &&& p.total_subtasks == subs.len()
                    &&& p.completed == subs.filter(|s: SwarmSubtask| s.status is Completed).len()
                    &&& p.running == subs.filter(|s: SwarmSubtask| s.status is Running).len()
                    &&& p.failed == subs.filter(|s: SwarmSubtask| s.status is Failed).len()
                    &&& p.pending == subs.filter(|s: SwarmSubtask| s.status is Pending).len()
                },
                None => !self.tasks().has(task_id),
            },
    {
        match self.tasks.get(task_id) {
            None => None,
            Some(t) => {
                let subs = &t.subtasks;
                let ghost pc = |s: SwarmSubtask| s.status is Completed;
                let ghost pr = |s: SwarmSubtask| s.status is Running;
                let ghost pf = |s: SwarmSubtask| s.status is Failed;
                let ghost pp = |s: SwarmSubtask| s.status is Pending;
                let mut c: usize = 0;
                let mut ru: usize = 0;
                let mut fa: usize = 0;
                let mut pe: usize = 0;
                let mut i: usize = 0;
                while i < subs.len()
                    invariant
                        i <= subs@.len(),
                        pc == (|s: SwarmSubtask| s.status is Completed),
                        pr == (|s: SwarmSubtask| s.status is Running),
                        pf == (|s: SwarmSubtask| s.status is Failed),
                        pp == (|s: SwarmSubtask| s.status is Pending),
                        c == subs@.take(i as int).filter(pc).len(),
                        ru == subs@.take(i as int).filter(pr).len(),
                        fa == subs@.take(i as int).filter(pf).len(),
                        pe == subs@.take(i as int).filter(pp).len(),
                        c <= i && ru <= i && fa <= i && pe <= i,
                    decreases subs@.len() - i,
                {
                    proof {
                        lemma_filter_take_step(subs@, i as int, pc);
                        lemma_filter_take_step(subs@, i as int, pr);
                        lemma_filter_take_step(subs@, i as int, pf);
                        lemma_filter_take_step(subs@, i as int, pp);
                    }
                    match &subs[i].status {
                        SubtaskStatus::Completed => {
                            c = c + 1;
                        },
                        SubtaskStatus::Running => {
                            ru = ru + 1;
                        },
                        SubtaskStatus::Failed(_) => {
                            fa = fa + 1;
                        },
                        SubtaskStatus::Pending => {
                            pe = pe + 1;
                        },
                    }
                    i = i + 1;
                }
                assert(subs@.take(subs@.len() as int) =~= subs@);
                Some(
                    ProgressReport {
                        task_id,
                        total_subtasks: subs.len(),
                        completed: c,
                        running: ru,
                        failed: fa,
                        pending: pe,
                    },
                )
            },
        }
    }
}

/// `a` is a copy of `b`: equal fields, dependencies equal as a sequence.
pub open spec fn same_subtask(a: SwarmSubtask, b: SwarmSubtask) -> bool {
    &&& a.depends_on@ == b.depends_on@
    &&& (SwarmSubtask { depends_on: b.depends_on, ..a }) == b
}

/// `a` is a copy of `b`: equal fields, subtasks copies of each other.
pub open spec fn same_swarm_task(a: SwarmTask, b: SwarmTask) -> bool {
    &&& a.subtasks@.len() == b.subtasks@.len()
    &&& forall|i: int| 0 <= i < a.subtasks@.len() ==> same_subtask(#[trigger] a.subtasks@[i], b.subtasks@[i])
    &&& (SwarmTask { subtasks: b.subtasks, ..a }) == b
}

fn copy_subtask(s: &SwarmSubtask) -> (r: SwarmSubtask)
    ensures
        same_subtask(r, *s),
{
    let mut deps: Vec<u128> = Vec::new();
    let mut i: usize = 0;
    while i < s.depends_on.len()
        invariant
            i <= s.depends_on@.len(),
            deps@ == s.depends_on@.take(i as int),
        decreases s.depends_on@.len() - i,
    {
        deps.push(s.depends_on[i]);
        i = i + 1;
        assert(deps@ =~= s.depends_on@.take(i as int));
    }
    assert(s.depends_on@.take(s.depends_on@.len() as int) =~= s.depends_on@);
    SwarmSubtask {
        id: s.id,
        description: s.description.clone(),
        assigned_to: s.assigned_to,
        status: match &s.status {
            SubtaskStatus::Pending => SubtaskStatus::Pending,
            SubtaskStatus::Running => SubtaskStatus::Running,
            SubtaskStatus::Completed => SubtaskStatus::Completed,
            SubtaskStatus::Failed(e) => SubtaskStatus::Failed(e.clone()),
        },
        result: crate::text::copy_text(&s.result),
        depends_on: deps,
    }
}

fn copy_swarm_task(t: &SwarmTask) -> (r: SwarmTask)
    ensures
        same_swarm_task(r, *t),
{
    let mut subs: Vec<SwarmSubtask> = Vec::new();
    let mut i: usize = 0;
    while i < t.subtasks.len()
        invariant
            i <= t.subtasks@.len(),
            subs@.len() == i,
            forall|j: int| 0 <= j < i ==> same_subtask(#[trigger] subs@[j], t.subtasks@[j]),
        decreases t.subtasks@.len() - i,
    {
        subs.push(copy_subtask(&t.subtasks[i]));
        i = i + 1;
    }
    SwarmTask {
        id: t.id,
        description: t.description.clone(),
        subtasks: subs,
        progress_completed: t.progress_completed,
        progress_total: t.progress_total,
        created_at: t.created_at,
        aggregated_result: crate::text::copy_text(&t.aggregated_result),
    }
}

impl SwarmCoordinator {
    /// A copy of a swarm task, if it exists.
    pub fn get_task(&self, task_id: u128) -> (r: Option<SwarmTask>)
        requires
            self.wf(),
        ensures
            match r {
                Some(t) => self.tasks().has(task_id) && same_swarm_task(t, self.tasks().at(task_id)),
                None => !self.tasks().has(task_id),
            },
    {
        match self.tasks.get(task_id) {
            Some(t) => Some(copy_swarm_task(t)),
            None => None,
        }
    }
}

} // verus!
