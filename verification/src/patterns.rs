//! Multi-agent coordination patterns: map-reduce, chain of responsibility,
//! scatter-gather and supervision.
use vstd::prelude::*;

use crate::ids::{uuid_string, uuid_text, FighterId};
use crate::text::{
    append_chars, chars_of, contains_chars, contains_seq, decimal, decimal_chars, join_chars, joined, lines,
    lines_of, lowercase, string_from_chars, to_lowercase_chars,
};

verus! {

// ---------------------------------------------------------------------------
// MapReduce
// ---------------------------------------------------------------------------

/// The result of a map-reduce run.
#[derive(Debug, Clone)]
pub struct MapReduceResult {
    /// Each worker's result, one entry per worker.
    pub map_results: Vec<(FighterId, String)>,
    /// The merged result.
    pub reduced: String,
}

/// A map-reduce job.
#[derive(Debug, Clone)]
pub struct MapReduceConfig {
    /// The input to split among the workers.
    pub input: String,
    /// The workers.
    pub workers: Vec<FighterId>,
}

/// Why a coordination pattern could not run.
#[derive(Debug, Clone, Copy, PartialEq, Eq, Structural)]
pub enum PatternError {
    /// There is no worker to distribute to.
    NoWorkers,
    /// The chain of responsibility has no handler.
    EmptyChain,
}

/// `l` cut into consecutive groups of `c` items, the last possibly shorter
/// (`slice::chunks`).
pub open spec fn chunks(l: Seq<Seq<char>>, c: nat) -> Seq<Seq<Seq<char>>>
    decreases l.len(),
{
    if l.len() == 0 || c == 0 {
        Seq::empty()
    } else if l.len() <= c {
        seq![l]
    } else {
        seq![l.take(c as int)] + chunks(l.skip(c as int), c)
    }
}

/// `a / b` rounded up (`usize::div_ceil`).
pub open spec fn div_ceil(a: nat, b: nat) -> nat {
    a / b + if a % b == 0 {
        0nat
    } else {
        1nat
    }
}

/// The chunks of `input` for `n` workers: its lines in groups of
/// `⌈lines / n⌉`, each group joined with newlines; no chunk for no
/// workers, and the whole input when it has no lines.
pub open spec fn map_split_spec(input: Seq<char>, n: nat) -> Seq<Seq<char>> {
    let l = lines(input);
    if n == 0 {
        Seq::empty()
    } else if l.len() == 0 {
        seq![input]
    } else {
        chunks(l, div_ceil(l.len(), n)).map_values(|g: Seq<Seq<char>>| joined(g, seq!['\n']))
    }
}

/// Split `input` into chunks for `num_workers` workers (see `map_split_spec`).
pub fn map_split(input: &str, num_workers: usize) -> (r: Vec<String>)
    ensures
        r@.map_values(|s: String| s@) == map_split_spec(input@, num_workers as nat),
{
    if num_workers == 0 {
        let r: Vec<String> = Vec::new();
        assert(r@.map_values(|s: String| s@) =~= Seq::<Seq<char>>::empty());
        return r;
    }
    let all = chars_of(input);
    let ls = lines_of(all.as_slice());
    let ghost l = ls@.map_values(|q: Vec<char>| q@);
    if ls.len() == 0 {
        let r = vec![crate::text::to_owned_string(input)];
        assert(r@.map_values(|s: String| s@) =~= seq![input@]);
        return r;
    }
    let n = ls.len();
    let q = n / num_workers;
    let rem = n % num_workers;
    assert(rem != 0 ==> q < usize::MAX) by (nonlinear_arith)
        requires
            num_workers > 0,
            q == n / num_workers,
            rem == n % num_workers,
            n <= usize::MAX,
    {
        if rem != 0 {
            assert(num_workers >= 2);
            assert(q * num_workers + rem == n);
            assert(q * 2 <= q * num_workers);
        }
    }
    let c = if rem == 0 {
        q
    } else {
        q + 1
    };
    assert(c > 0) by (nonlinear_arith)
        requires
            n > 0,
            num_workers > 0,
            q == n / num_workers,
            rem == n % num_workers,
            c == if rem == 0 {
                q as int
            } else {
                q + 1
            },
    {
        if q == 0 {
            assert(q * num_workers + rem == n);
        }
    }
    let sep: Vec<char> = vec!['\n'];
    let mut r: Vec<String> = Vec::new();
    let mut start: usize = 0;
    assert(l.skip(0) =~= l);
    assert(r@.map_values(|s: String| s@) =~= Seq::<Seq<char>>::empty());
    while start < n
        invariant
            n == ls@.len(),
            l == ls@.map_values(|q: Vec<char>| q@),
            c > 0,
            start <= n,
            sep@ == seq!['\n'],
            r@.map_values(|s: String| s@) + chunks(l.skip(start as int), c as nat).map_values(
                |g: Seq<Seq<char>>| joined(g, seq!['\n']),
            ) == chunks(l, c as nat).map_values(|g: Seq<Seq<char>>| joined(g, seq!['\n'])),
        decreases n - start,
    {
        let end = if n - start <= c {
            n
        } else {
            start + c
        };
        let mut group: Vec<Vec<char>> = Vec::new();
        let mut k: usize = start;
        while k < end
            invariant
                start <= k <= end,
                end <= ls@.len(),
                group@.map_values(|q: Vec<char>| q@) == l.subrange(start as int, k as int),
                l == ls@.map_values(|q: Vec<char>| q@),
            decreases end - k,
        {
            let mut line: Vec<char> = Vec::new();
            append_chars(&mut line, ls[k].as_slice());
            let ghost d = group@.map_values(|q: Vec<char>| q@);
            assert(line@ =~= l[k as int]);
            let ghost lv = line@;
            group.push(line);
            k = k + 1;
            assert(group@.map_values(|q: Vec<char>| q@) =~= d.push(lv));
            assert(l.subrange(start as int, k as int) =~= l.subrange(start as int, k - 1).push(lv));
            assert(group@.map_values(|q: Vec<char>| q@) =~= l.subrange(start as int, k as int));
        }
        let text = join_chars(&group, &sep);
        let ghost rest = l.skip(start as int);
        proof {
            if rest.len() <= c {
                assert(l.subrange(start as int, end as int) =~= rest);
                assert(l.skip(end as int) =~= Seq::<Seq<char>>::empty());
            } else {
                assert(l.subrange(start as int, end as int) =~= rest.take(c as int));
                assert(l.skip(end as int) =~= rest.skip(c as int));
            }
        }
        let ghost before = r@.map_values(|s: String| s@);
        r.push(string_from_chars(text.as_slice()));
        proof {
            assert(r@.map_values(|s: String| s@) =~= before.push(joined(l.subrange(start as int, end as int), seq!['\n'])));
            let m = |g: Seq<Seq<char>>| joined(g, seq!['\n']);
            if rest.len() <= c {
                assert(chunks(rest, c as nat) =~= seq![rest]);
                assert(chunks(rest, c as nat).map_values(m) =~= seq![m(rest)]);
                assert(chunks(l.skip(end as int), c as nat) =~= Seq::<Seq<Seq<char>>>::empty());
            } else {
                assert(chunks(rest, c as nat) =~= seq![rest.take(c as int)] + chunks(rest.skip(c as int), c as nat));
                assert(chunks(rest, c as nat).map_values(m) =~= seq![m(rest.take(c as int))] + chunks(
                    rest.skip(c as int),
                    c as nat,
                ).map_values(m));
            }
            assert(r@.map_values(|s: String| s@) + chunks(l.skip(end as int), c as nat).map_values(m) =~= before
                + chunks(rest, c as nat).map_values(m));
        }
        start = end;
    }
    proof {
        assert(l.skip(n as int) =~= Seq::<Seq<char>>::empty());
        assert(r@.map_values(|s: String| s@) =~= chunks(l, c as nat).map_values(
            |g: Seq<Seq<char>>| joined(g, seq!['\n']),
        ));
    }
    r
}

/// The position at which an entry with id `id` goes into the id-ordered `s`:
/// after every entry with an id not above it.
pub open spec fn place(s: Seq<(u128, Seq<char>)>, id: u128) -> int
    decreases s.len(),
{
    if s.len() == 0 {
        0
    } else if s[0].0 > id {
        0
    } else {
        1 + place(s.drop_first(), id)
    }
}

/// `e` ordered by id (insertion sort, stable).
pub open spec fn sort_by_id(e: Seq<(u128, Seq<char>)>) -> Seq<(u128, Seq<char>)>
    decreases e.len(),
{
    if e.len() == 0 {
        e
    } else {
        let s = sort_by_id(e.drop_last());
        s.insert(place(s, e.last().0), e.last())
    }
}

/// The entries as (id, text) pairs.
pub open spec fn entry_views(e: Seq<(FighterId, String)>) -> Seq<(u128, Seq<char>)> {
    e.map_values(|x: (FighterId, String)| (x.0.0, x.1@))
}

/// The merged result of the workers: their results in the order of their
/// ids, separated by blank lines.
pub open spec fn merged(e: Seq<(FighterId, String)>) -> Seq<char> {
    joined(sort_by_id(entry_views(e)).map_values(|x: (u128, Seq<char>)| x.1), seq!['\n', '\n'])
}

/// `place` lies within `s`.
pub proof fn lemma_place(s: Seq<(u128, Seq<char>)>, id: u128)
    ensures
        0 <= place(s, id) <= s.len(),
        forall|j: int| 0 <= j < place(s, id) ==> (#[trigger] s[j]).0 <= id,
        place(s, id) < s.len() ==> s[place(s, id)].0 > id,
    decreases s.len(),
{
    if s.len() > 0 && s[0].0 <= id {
        lemma_place(s.drop_first(), id);
        assert forall|j: int| 0 <= j < place(s, id) implies (#[trigger] s[j]).0 <= id by {
            if j > 0 {
                assert(s[j] == s.drop_first()[j - 1]);
            }
        }
    }
}

/// Merge the workers' results: in the order of their ids, separated by
/// blank lines.
pub fn map_reduce_merge(results: &Vec<(FighterId, String)>) -> (r: String)
    ensures
        r@ == merged(results@),
{
    let ghost ev = entry_views(results@);
    let mut sorted: Vec<(u128, Vec<char>)> = Vec::new();
    let mut i: usize = 0;
    while i < results.len()
        invariant
            i <= results@.len(),
            ev == entry_views(results@),
            sorted@.map_values(|x: (u128, Vec<char>)| (x.0, x.1@)) == sort_by_id(ev.take(i as int)),
        decreases results@.len() - i,
    {
        let ghost sv = sorted@.map_values(|x: (u128, Vec<char>)| (x.0, x.1@));
        let id = results[i].0.0;
        let mut p: usize = 0;
        assert(sv.skip(0) =~= sv);
        while p < sorted.len() && sorted[p].0 <= id
            invariant
                p <= sorted@.len(),
                sv == sorted@.map_values(|x: (u128, Vec<char>)| (x.0, x.1@)),
                place(sv, id) == p + place(sv.skip(p as int), id),
            decreases sorted@.len() - p,
        {
            assert(sv.skip(p as int).drop_first() =~= sv.skip(p + 1));
            p = p + 1;
        }
        assert(place(sv, id) == p as int) by {
            if p < sorted@.len() {
                assert(sv.skip(p as int)[0] == sv[p as int]);
            } else {
                assert(sv.skip(p as int).len() == 0);
            }
        }
        let text = chars_of(results[i].1.as_str());
        let ghost tv = text@;
        sorted.insert(p, (id, text));
        proof {
            assert(ev.take(i + 1).drop_last() =~= ev.take(i as int));
            assert(ev.take(i + 1).last() == (id, tv));
            assert(sorted@.map_values(|x: (u128, Vec<char>)| (x.0, x.1@)) =~= sv.insert(p as int, (id, tv)));
        }
        i = i + 1;
    }
    assert(ev.take(results@.len() as int) =~= ev);
    let mut parts: Vec<Vec<char>> = Vec::new();
    let mut j: usize = 0;
    let ghost so = sorted@.map_values(|x: (u128, Vec<char>)| (x.0, x.1@));
    while j < sorted.len()
        invariant
            j <= sorted@.len(),
            so == sorted@.map_values(|x: (u128, Vec<char>)| (x.0, x.1@)),
            parts@.map_values(|q: Vec<char>| q@) == so.map_values(|x: (u128, Seq<char>)| x.1).take(j as int),
        decreases sorted@.len() - j,
    {
        let mut q: Vec<char> = Vec::new();
        append_chars(&mut q, sorted[j].1.as_slice());
        let ghost d = parts@.map_values(|q: Vec<char>| q@);
        let ghost qv = q@;
        parts.push(q);
        j = j + 1;
        proof {
            assert(parts@.map_values(|q: Vec<char>| q@) =~= d.push(qv));
            assert(so.map_values(|x: (u128, Seq<char>)| x.1).take(j as int) =~= so.map_values(
                |x: (u128, Seq<char>)| x.1,
            ).take(j - 1).push(qv));
        }
    }
    assert(so.map_values(|x: (u128, Seq<char>)| x.1).take(sorted@.len() as int) =~= so.map_values(
        |x: (u128, Seq<char>)| x.1,
    ));
    let sep: Vec<char> = vec!['\n', '\n'];
    let out = join_chars(&parts, &sep);
    string_from_chars(out.as_slice())
}

/// Run map-reduce on results already collected: they are kept and merged.
pub fn execute_map_reduce(config: &MapReduceConfig, results: Vec<(FighterId, String)>) -> (r: MapReduceResult)
    ensures
        r.map_results == results,
        r.reduced@ == merged(results@),
{
    let reduced = map_reduce_merge(&results);
    MapReduceResult { map_results: results, reduced }
}

/// The task text for chunk `i`: "[map-chunk-i] chunk".
pub open spec fn chunk_task(i: nat, chunk: Seq<char>) -> Seq<char> {
    "[map-chunk-"@ + decimal(i) + "] "@ + chunk
}

/// The chunk a worker at position `i` gets: the `i`-th chunk of the split,
/// or nothing when there are fewer chunks.
pub open spec fn chunk_for(config: MapReduceConfig, i: int) -> Seq<char> {
    let c = map_split_spec(config.input@, config.workers@.len());
    if i < c.len() {
        c[i]
    } else {
        Seq::empty()
    }
}

fn chunk_at(chunks: &Vec<String>, i: usize) -> (r: Vec<char>)
    ensures
        r@ == if i < chunks@.len() {
            chunks@[i as int]@
        } else {
            Seq::empty()
        },
{
    if i < chunks.len() {
        chars_of(chunks[i].as_str())
    } else {
        Vec::new()
    }
}

/// The messages that distribute a map-reduce job: for each worker in turn,
/// its chunk as a task "[map-chunk-i] chunk". Refused without workers.
pub fn map_reduce_assignments(config: &MapReduceConfig) -> (r: Result<Vec<(FighterId, String)>, PatternError>)
    ensures
        config.workers@.len() == 0 <==> r == Err::<Vec<(FighterId, String)>, PatternError>(PatternError::NoWorkers),
        r is Ok ==> {
            let a = r.unwrap()@;
            &&& a.len() == config.workers@.len()
            &&& forall|i: int|
                0 <= i < a.len() ==> (#[trigger] a[i]).0 == config.workers@[i] && a[i].1@ == chunk_task(
                    i as nat,
                    chunk_for(*config, i),
                )
        },
{
    if config.workers.len() == 0 {
        return Err(PatternError::NoWorkers);
    }
    let chunks = map_split(config.input.as_str(), config.workers.len());
    let mut out: Vec<(FighterId, String)> = Vec::new();
    let mut i: usize = 0;
    while i < config.workers.len()
        invariant
            i <= config.workers@.len(),
            chunks@.map_values(|s: String| s@) == map_split_spec(config.input@, config.workers@.len() as nat),
            out@.len() == i,
            forall|j: int|
                0 <= j < i ==> (#[trigger] out@[j]).0 == config.workers@[j] && out@[j].1@ == chunk_task(
                    j as nat,
                    chunk_for(*config, j),
                ),
        decreases config.workers@.len() - i,
    {
        let mut text = chars_of("[map-chunk-");
        let num = decimal_chars(i as u64);
        append_chars(&mut text, num.as_slice());
        let mid = chars_of("] ");
        append_chars(&mut text, mid.as_slice());
        let chunk = chunk_at(&chunks, i);
        append_chars(&mut text, chunk.as_slice());
        assert(text@ =~= chunk_task(i as nat, chunk_for(*config, i as int)));
        out.push((config.workers[i], string_from_chars(text.as_slice())));
        i = i + 1;
    }
    Ok(out)
}

/// The map results after the messages were sent: each worker whose message
/// was delivered (in worker order) has "[processed] chunk" as its result, a
/// later entry for the same worker replacing an earlier one.
pub open spec fn collected(config: MapReduceConfig, delivered: Seq<bool>, n: int) -> Seq<(u128, Seq<char>)>
    decreases n,
{
    if n <= 0 {
        Seq::empty()
    } else {
        let prev = collected(config, delivered, n - 1);
        let w = config.workers@[n - 1].0;
        let v = "[processed] "@ + chunk_for(config, n - 1);
        if !delivered[n - 1] {
            prev
        } else if exists|k: int| 0 <= k < prev.len() && #[trigger] prev[k].0 == w {
            let k = choose|k: int| 0 <= k < prev.len() && #[trigger] prev[k].0 == w;
            prev.update(k, (w, v))
        } else {
            prev.push((w, v))
        }
    }
}

/// Finish a distributed map-reduce run after the messages were sent:
/// `delivered[i]` tells whether worker `i`'s message went out. The results
/// (see `collected`) are kept and merged.
pub fn map_reduce_collect(config: &MapReduceConfig, delivered: &Vec<bool>) -> (r: MapReduceResult)
    requires
        delivered@.len() == config.workers@.len(),
    ensures
        entry_views(r.map_results@) == collected(*config, delivered@, delivered@.len() as int),
        r.reduced@ == merged(r.map_results@),
{
    let chunks = map_split(config.input.as_str(), config.workers.len());
    let mut results: Vec<(FighterId, String)> = Vec::new();
    let mut i: usize = 0;
    while i < delivered.len()
        invariant
            i <= delivered@.len(),
            delivered@.len() == config.workers@.len(),
            chunks@.map_values(|s: String| s@) == map_split_spec(config.input@, config.workers@.len() as nat),
            entry_views(results@) == collected(*config, delivered@, i as int),
            forall|a: int, b: int|
                0 <= a < b < results@.len() ==> (#[trigger] results@[a]).0 != (#[trigger] results@[b]).0,
        decreases delivered@.len() - i,
    {
        if delivered[i] {
            let w = config.workers[i];
            let mut text = chars_of("[processed] ");
            let chunk = chunk_at(&chunks, i);
            append_chars(&mut text, chunk.as_slice());
            let value = string_from_chars(text.as_slice());
            let ghost prev = entry_views(results@);
            let mut k: usize = 0;
            while k < results.len() && results[k].0.0 != w.0
                invariant
                    k <= results@.len(),
                    forall|j: int| 0 <= j < k ==> (#[trigger] results@[j]).0.0 != w.0,
                decreases results@.len() - k,
            {
                k = k + 1;
            }
            if k < results.len() {
                proof {
                    assert(prev[k as int].0 == w.0);
                    let c = choose|c: int| 0 <= c < prev.len() && #[trigger] prev[c].0 == w.0;
                    if c != k {
                        assert(results@[c].0 == results@[k as int].0);
                    }
                }
                results.set(k, (w, value));
                proof {
                    assert(entry_views(results@) =~= prev.update(k as int, (w.0, value@)));
                }
            } else {
                proof {
                    assert forall|c: int| 0 <= c < prev.len() implies #[trigger] prev[c].0 != w.0 by {
                        assert(results@[c].0.0 != w.0);
                    }
                }
                results.push((w, value));
                proof {
                    assert(entry_views(results@) =~= prev.push((w.0, value@)));
                }
            }
        }
        i = i + 1;
    }
    let reduced = map_reduce_merge(&results);
    MapReduceResult { map_results: results, reduced }
}

/// The merge order is by id: `sort_by_id` keeps every entry and orders the
/// entries by id.
pub proof fn lemma_sort_by_id(e: Seq<(u128, Seq<char>)>)
    ensures
        sort_by_id(e).len() == e.len(),
        forall|i: int, j: int| 0 <= i < j < e.len() ==> sort_by_id(e)[i].0 <= sort_by_id(e)[j].0,
        sort_by_id(e).to_multiset() == e.to_multiset(),
    decreases e.len(),
{
    if e.len() > 0 {
        let s = sort_by_id(e.drop_last());
        lemma_sort_by_id(e.drop_last());
        let x = e.last();
        let p = place(s, x.0);
        lemma_place(s, x.0);
        let t = s.insert(p, x);
        assert forall|i: int, j: int| 0 <= i < j < t.len() implies t[i].0 <= t[j].0 by {
            if j < p {
                assert(t[i] == s[i] && t[j] == s[j]);
            } else if j == p {
                assert(t[i] == s[i]);
            } else if i < p {
                assert(t[i] == s[i] && t[j] == s[j - 1]);
            } else if i == p {
                assert(t[j] == s[j - 1]);
                if p < s.len() {
                    assert(s[p].0 <= s[j - 1].0);
                }
            } else {
                assert(t[i] == s[i - 1] && t[j] == s[j - 1]);
            }
        }
        assert(e =~= e.drop_last().push(x));
        vstd::seq_lib::to_multiset_insert(s, p, x);
        assert(t.to_multiset() == s.to_multiset().insert(x));
        assert(e.to_multiset() == e.drop_last().to_multiset().insert(x)) by {
            e.drop_last().to_multiset_ensures();
            assert(e.drop_last().push(x).to_multiset() == e.drop_last().to_multiset().insert(x));
        }
    }
}

// ---------------------------------------------------------------------------
// Chain of responsibility
// ---------------------------------------------------------------------------

/// A handler in a chain of responsibility.
#[derive(Debug, Clone)]
pub struct ChainHandler {
    /// The fighter that handles this step.
    pub fighter_id: FighterId,
    /// Keywords of the tasks it can handle.
    pub capabilities: Vec<String>,
}

/// Handler `h` can handle `task`: one of its capabilities occurs in the
/// task, ignoring case.
pub open spec fn handles(h: ChainHandler, task: Seq<char>) -> bool {
    exists|i: int|
        0 <= i < h.capabilities@.len() && contains_seq(lowercase(task), lowercase(#[trigger] h.capabilities@[i]@))
}

/// The position of the first handler from `from` on that can handle `task`.
pub open spec fn first_handler(chain: Seq<ChainHandler>, task: Seq<char>, from: int) -> Option<int>
    decreases chain.len() - from,
{
    if from < 0 || from >= chain.len() {
        None
    } else if handles(chain[from], task) {
        Some(from)
    } else {
        first_handler(chain, task, from + 1)
    }
}

/// `first_handler` finds a handler at or after `from` that can handle the
/// task, with none before it from `from` on.
pub proof fn lemma_first_handler(chain: Seq<ChainHandler>, task: Seq<char>, from: int)
    requires
        0 <= from,
    ensures
        match first_handler(chain, task, from) {
            Some(i) => from <= i < chain.len() && handles(chain[i], task) && forall|j: int|
                from <= j < i ==> !handles(#[trigger] chain[j], task),
            None => forall|j: int| from <= j < chain.len() ==> !handles(#[trigger] chain[j], task),
        },
    decreases chain.len() - from,
{
    if from < chain.len() && !handles(chain[from], task) {
        lemma_first_handler(chain, task, from + 1);
    }
}

/// Whether `h` can handle the task lower-cased as `lower`.
fn can_handle(h: &ChainHandler, lower: &Vec<char>, Ghost(task): Ghost<Seq<char>>) -> (b: bool)
    requires
        lower@ == lowercase(task),
    ensures
        b == handles(*h, task),
{
    let mut i: usize = 0;
    while i < h.capabilities.len()
        invariant
            i <= h.capabilities@.len(),
            lower@ == lowercase(task),
            forall|j: int| 0 <= j < i ==> !contains_seq(lowercase(task), lowercase(#[trigger] h.capabilities@[j]@)),
        decreases h.capabilities@.len() - i,
    {
        let cap = chars_of(h.capabilities[i].as_str());
        let cap_lower = to_lowercase_chars(cap.as_slice());
        if contains_chars(lower.as_slice(), cap_lower.as_slice()) {
            assert(contains_seq(lowercase(task), lowercase(h.capabilities@[i as int]@)));
            return true;
        }
        i = i + 1;
    }
    false
}

/// The position of the first handler from `from` on that can handle `task`.
fn next_handler(chain: &[ChainHandler], task: &str, from: usize) -> (r: Option<usize>)
    ensures
        match r {
            Some(i) => first_handler(chain@, task@, from as int) == Some(i as int),
            None => first_handler(chain@, task@, from as int) is None,
        },
{
    let t = chars_of(task);
    let lower = to_lowercase_chars(t.as_slice());
    let mut i: usize = from;
    while i < chain.len()
        invariant
            from <= i,
            lower@ == lowercase(task@),
            first_handler(chain@, task@, from as int) == first_handler(chain@, task@, i as int),
        decreases chain@.len() - i,
    {
        if can_handle(&chain[i], &lower, Ghost(task@)) {
            return Some(i);
        }
        i = i + 1;
    }
    None
}

/// The first handler in the chain that can handle `task`.
pub fn chain_find_handler(chain: &[ChainHandler], task: &str) -> (r: Option<FighterId>)
    ensures
        r == match first_handler(chain@, task@, 0) {
            Some(i) => Some(chain@[i].fighter_id),
            None => None::<FighterId>,
        },
{
    proof {
        lemma_first_handler(chain@, task@, 0);
    }
    match next_handler(chain, task, 0) {
        Some(i) => Some(chain[i].fighter_id),
        None => None,
    }
}

/// The answer recorded for fighter `f` in `answers` (its first entry), if any.
pub open spec fn answer_of(answers: Seq<(FighterId, bool)>, f: FighterId) -> Option<bool>
    decreases answers.len(),
{
    if answers.len() == 0 {
        None
    } else if answers[0].0 == f {
        Some(answers[0].1)
    } else {
        answer_of(answers.drop_first(), f)
    }
}

fn lookup_answer(answers: &[(FighterId, bool)], f: FighterId) -> (r: bool)
    ensures
        r == (answer_of(answers@, f) == Some(true)),
{
    let mut i: usize = 0;
    assert(answers@.skip(0) =~= answers@);
    while i < answers.len()
        invariant
            i <= answers@.len(),
            answer_of(answers@, f) == answer_of(answers@.skip(i as int), f),
        decreases answers@.len() - i,
    {
        assert(answers@.skip(i as int)[0] == answers@[i as int]);
        if answers[i].0 == f {
            return answers[i].1;
        }
        assert(answers@.skip(i as int).drop_first() =~= answers@.skip(i + 1));
        i = i + 1;
    }
    false
}

/// The position of the first handler whose own answer says it can handle
/// the task, from `from` on.
pub open spec fn first_accepting(chain: Seq<ChainHandler>, answers: Seq<(FighterId, bool)>, from: int) -> Option<int>
    decreases chain.len() - from,
{
    if from < 0 || from >= chain.len() {
        None
    } else if answer_of(answers, chain[from].fighter_id) == Some(true) {
        Some(from)
    } else {
        first_accepting(chain, answers, from + 1)
    }
}

/// Walk the chain: the first handler whose answer in `handler_results` is
/// yes takes the task; returns it and its position. A handler without an
/// answer passes.
pub fn chain_walk(chain: &[ChainHandler], task: &str, handler_results: &[(FighterId, bool)]) -> (r: Option<(FighterId, usize)>)
    ensures
        match first_accepting(chain@, handler_results@, 0) {
            Some(i) => r == Some((chain@[i].fighter_id, i as usize)),
            None => r is None,
        },
{
    let mut i: usize = 0;
    while i < chain.len()
        invariant
            first_accepting(chain@, handler_results@, 0) == first_accepting(chain@, handler_results@, i as int),
        decreases chain@.len() - i,
    {
        if lookup_answer(handler_results, chain[i].fighter_id) {
            return Some((chain[i].fighter_id, i));
        }
        i = i + 1;
    }
    None
}

/// The next handler to offer the task to, from position `from` on: the first
/// that can handle it. Refused for an empty chain.
pub fn chain_next_capable(chain: &[ChainHandler], task: &str, from: usize) -> (r: Result<Option<usize>, PatternError>)
    ensures
        chain@.len() == 0 ==> r == Err::<Option<usize>, PatternError>(PatternError::EmptyChain),
        chain@.len() > 0 ==> r is Ok && match r.unwrap() {
            Some(i) => first_handler(chain@, task@, from as int) == Some(i as int),
            None => first_handler(chain@, task@, from as int) is None,
        },
{
    if chain.len() == 0 {
        return Err(PatternError::EmptyChain);
    }
    Ok(next_handler(chain, task, from))
}

/// The note recorded when the handler at position `i` took the task:
/// "handled by position i in chain".
pub fn chain_handled_note(i: usize) -> (r: String)
    ensures
        r@ == "handled by position "@ + decimal(i as nat) + " in chain"@,
{
    let mut t = chars_of("handled by position ");
    let num = decimal_chars(i as u64);
    append_chars(&mut t, num.as_slice());
    let tail = chars_of(" in chain");
    append_chars(&mut t, tail.as_slice());
    string_from_chars(t.as_slice())
}

// ---------------------------------------------------------------------------
// Scatter-gather
// ---------------------------------------------------------------------------

/// How the best scatter-gather response is chosen.
#[derive(Debug, Clone, Copy, PartialEq, Eq, Structural)]
pub enum SelectionCriteria {
    /// The quickest response.
    Fastest,
    /// The response with the highest self-reported quality.
    HighestQuality,
    /// The most common response.
    Consensus,
}

/// A response from a scatter-gather participant.
#[derive(Debug, Clone)]
pub struct ScatterResponse {
    /// The responding fighter.
    pub fighter_id: FighterId,
    /// The response content.
    pub response: String,
    /// Response time in milliseconds.
    pub response_time_ms: u64,
}

/// Among the first `n` responses, the position of the first quickest.
pub open spec fn fastest_upto(r: Seq<ScatterResponse>, n: int) -> int
    decreases n,
{
    if n <= 1 {
        0
    } else {
        let j = fastest_upto(r, n - 1);
        if r[n - 1].response_time_ms < r[j].response_time_ms {
            n - 1
        } else {
            j
        }
    }
}

/// The fastest response is the first of the quickest: no response is
/// quicker than it, and every response before it is slower.
pub proof fn lemma_fastest_is_first_quickest(r: Seq<ScatterResponse>)
    requires
        r.len() > 0,
    ensures
        0 <= fastest_upto(r, r.len() as int) < r.len(),
        forall|j: int| 0 <= j < r.len() ==> r[fastest_upto(r, r.len() as int)].response_time_ms <= (
        #[trigger] r[j]).response_time_ms,
        forall|j: int| 0 <= j < fastest_upto(r, r.len() as int) ==> (#[trigger] r[j]).response_time_ms > r[fastest_upto(
            r,
            r.len() as int,
        )].response_time_ms,
{
    lemma_fastest_upto(r, r.len() as int);
}

/// What `fastest_upto` picks among the first `n` responses.
proof fn lemma_fastest_upto(r: Seq<ScatterResponse>, n: int)
    requires
        1 <= n <= r.len(),
    ensures
        0 <= fastest_upto(r, n) < n,
        forall|j: int| 0 <= j < n ==> r[fastest_upto(r, n)].response_time_ms <= (#[trigger] r[j]).response_time_ms,
        forall|j: int| 0 <= j < fastest_upto(r, n) ==> (#[trigger] r[j]).response_time_ms > r[fastest_upto(
            r,
            n,
        )].response_time_ms,
    decreases n,
{
    if n > 1 {
        lemma_fastest_upto(r, n - 1);
    }
}

/// The quickest response (the first of equally quick ones).
pub fn scatter_fastest(responses: &[ScatterResponse]) -> (r: Option<usize>)
    ensures
        responses@.len() == 0 ==> r is None,
        responses@.len() > 0 ==> r == Some(fastest_upto(responses@, responses@.len() as int) as usize),
        r matches Some(i) ==> {
            &&& i < responses@.len()
            &&& forall|j: int| 0 <= j < responses@.len() ==> responses@[i as int].response_time_ms <= (
            #[trigger] responses@[j]).response_time_ms
            &&& forall|j: int| 0 <= j < i ==> (#[trigger] responses@[j]).response_time_ms
                > responses@[i as int].response_time_ms
        },
{
    proof {
        if responses@.len() > 0 {
            lemma_fastest_is_first_quickest(responses@);
        }
    }
    if responses.len() == 0 {
        return None;
    }
    let mut best: usize = 0;
    let mut i: usize = 1;
    while i < responses.len()
        invariant
            1 <= i <= responses@.len(),
            best < i,
            best == fastest_upto(responses@, i as int),
        decreases responses@.len() - i,
    {
        if responses[i].response_time_ms < responses[best].response_time_ms {
            best = i;
        }
        i = i + 1;
    }
    Some(best)
}

/// How many responses say `t`.
pub open spec fn votes(r: Seq<ScatterResponse>, t: Seq<char>) -> nat {
    r.filter(|x: ScatterResponse| x.response@ == t).len()
}

/// Response `i` is the first saying what it says.
pub open spec fn first_of_its_kind(r: Seq<ScatterResponse>, i: int) -> bool {
    forall|j: int| 0 <= j < i ==> (#[trigger] r[j]).response@ != r[i].response@
}

fn count_votes(responses: &[ScatterResponse], t: &String) -> (n: usize)
    ensures
        n == votes(responses@, t@),
{
    let ghost pred = |x: ScatterResponse| x.response@ == t@;
    let mut n: usize = 0;
    let mut i: usize = 0;
    while i < responses.len()
        invariant
            i <= responses@.len(),
            pred == (|x: ScatterResponse| x.response@ == t@),
            n == responses@.take(i as int).filter(pred).len(),
            n <= i,
        decreases responses@.len() - i,
    {
        proof {
            crate::table::lemma_filter_take_step(responses@, i as int, pred);
        }
        if responses[i].response == *t {
            n = n + 1;
        }
        i = i + 1;
    }
    assert(responses@.take(responses@.len() as int) =~= responses@);
    n
}

/// The most common response: the first occurrence of a response with the
/// most votes (the earliest such when several tie).
pub fn scatter_consensus(responses: &[ScatterResponse]) -> (r: Option<usize>)
    ensures
        responses@.len() == 0 ==> r is None,
        responses@.len() > 0 ==> r is Some && {
            let i = r.unwrap() as int;
            &&& 0 <= i < responses@.len()
            &&& first_of_its_kind(responses@, i)
            &&& forall|j: int| 0 <= j < responses@.len() ==> votes(responses@, (#[trigger] responses@[j]).response@) <= votes(responses@, responses@[i].response@)
            &&& forall|j: int| 0 <= j < i && first_of_its_kind(responses@, j) ==> votes(responses@, (#[trigger] responses@[j]).response@) < votes(responses@, responses@[i].response@)
        },
{
    if responses.len() == 0 {
        return None;
    }
    let mut best: usize = 0;
    let mut best_votes = count_votes(responses, &responses[0].response);
    let mut i: usize = 1;
    while i < responses.len()
        invariant
            1 <= i <= responses@.len(),
            best < i,
            best_votes == votes(responses@, responses@[best as int].response@),
            first_of_its_kind(responses@, best as int),
            forall|j: int| 0 <= j < i ==> votes(responses@, (#[trigger] responses@[j]).response@) <= best_votes,
            forall|j: int| 0 <= j < best && first_of_its_kind(responses@, j) ==> votes(responses@, (#[trigger] responses@[j]).response@) < best_votes,
        decreases responses@.len() - i,
    {
        let v = count_votes(responses, &responses[i].response);
        if v > best_votes {
            let mut first = true;
            let mut k: usize = 0;
            while k < i
                invariant
                    k <= i,
                    i < responses@.len(),
                    first == forall|j: int| 0 <= j < k ==> (#[trigger] responses@[j]).response@ != responses@[i as int].response@,
                decreases i - k,
            {
                if responses[k].response == responses[i].response {
                    first = false;
                }
                k = k + 1;
            }
            proof {
                if !first {
                    let w = choose|j: int| 0 <= j < i && (#[trigger] responses@[j]).response@ == responses@[i as int].response@;
                    assert(votes(responses@, responses@[w].response@) <= best_votes);
                }
            }
            best = i;
            best_votes = v;
        }
        i = i + 1;
    }
    Some(best)
}

/// The simulated responses a scatter-gather run gathers: fighter `i`
/// answers "[response-from-<id>]" after `(i + 1) * 100` milliseconds.
pub fn scatter_simulated_responses(fighters: &[FighterId]) -> (r: Vec<ScatterResponse>)
    requires
        fighters@.len() * 100 <= u64::MAX,
    ensures
        r@.len() == fighters@.len(),
        forall|i: int|
            0 <= i < r@.len() ==> {
                &&& (#[trigger] r@[i]).fighter_id == fighters@[i]
                &&& r@[i].response@ == "[response-from-"@ + uuid_text(fighters@[i].0) + "]"@
                &&& r@[i].response_time_ms == (i + 1) * 100
            },
{
    let mut r: Vec<ScatterResponse> = Vec::new();
    let mut i: usize = 0;
    while i < fighters.len()
        invariant
            i <= fighters@.len(),
            fighters@.len() * 100 <= u64::MAX,
            r@.len() == i,
            forall|j: int|
                0 <= j < i ==> {
                    &&& (#[trigger] r@[j]).fighter_id == fighters@[j]
                    &&& r@[j].response@ == "[response-from-"@ + uuid_text(fighters@[j].0) + "]"@
                    &&& r@[j].response_time_ms == (j + 1) * 100
                },
        decreases fighters@.len() - i,
    {
        let mut t = chars_of("[response-from-");
        let id = uuid_string(fighters[i].0);
        let idc = chars_of(id.as_str());
        append_chars(&mut t, idc.as_slice());
        let close = chars_of("]");
        append_chars(&mut t, close.as_slice());
        let time: u64 = ((i as u64) + 1) * 100;
        r.push(ScatterResponse { fighter_id: fighters[i], response: string_from_chars(t.as_slice()), response_time_ms: time });
        i = i + 1;
    }
    r
}

// ---------------------------------------------------------------------------
// Supervisor
// ---------------------------------------------------------------------------

/// How a supervisor restarts workers.
#[derive(Debug, Clone, Copy, PartialEq, Eq, Structural)]
pub enum RestartStrategy {
    /// Restart only the failed worker.
    OneForOne,
    /// Restart every worker when one fails.
    AllForOne,
}

/// State of a supervised worker.
#[derive(Debug, Clone, Copy, PartialEq, Eq, Structural)]
pub struct SupervisedWorker {
    /// The worker fighter.
    pub fighter_id: FighterId,
    /// How often it was restarted.
    pub restart_count: u32,
    /// Whether it is running.
    pub running: bool,
    /// Whether it has failed for good.
    pub failed: bool,
}

/// A supervisor's configuration and workers.
#[derive(Debug, Clone)]
pub struct SupervisorConfig {
    /// Restart strategy.
    pub strategy: RestartStrategy,
    /// Restarts after which a worker is given up.
    pub max_restarts: u32,
    /// The supervised workers.
    pub workers: Vec<SupervisedWorker>,
}

/// The position of the first worker with id `f`, among the first `n`.
pub open spec fn find_worker(w: Seq<SupervisedWorker>, f: FighterId, n: int) -> Option<int>
    decreases n,
{
    if n <= 0 {
        None
    } else {
        match find_worker(w, f, n - 1) {
            Some(j) => Some(j),
            None => if w[n - 1].fighter_id == f {
                Some(n - 1)
            } else {
                None
            },
        }
    }
}

/// `w` restarted once more: running, not failed.
pub open spec fn restarted(w: SupervisedWorker) -> SupervisedWorker {
    SupervisedWorker { restart_count: (w.restart_count + 1) as u32, failed: false, running: true, ..w }
}

/// `w` given up: failed, not running.
pub open spec fn given_up(w: SupervisedWorker) -> SupervisedWorker {
    SupervisedWorker { failed: true, running: false, ..w }
}

/// Workers and restart list after worker `f` failed: one-for-one restarts
/// just that worker while it has restarts left, else gives it up;
/// all-for-one restarts every worker while the failed one has restarts
/// left, else gives the failed one up. An unknown worker changes nothing.
pub open spec fn after_failure(
    strategy: RestartStrategy,
    max: u32,
    w: Seq<SupervisedWorker>,
    f: FighterId,
) -> (Seq<SupervisedWorker>, Seq<FighterId>) {
    match find_worker(w, f, w.len() as int) {
        None => (w, Seq::empty()),
        Some(i) => if w[i].restart_count < max {
            match strategy {
                RestartStrategy::OneForOne => (w.update(i, restarted(w[i])), seq![f]),
                RestartStrategy::AllForOne => (
                    w.map_values(|x: SupervisedWorker| restarted(x)),
                    w.map_values(|x: SupervisedWorker| x.fighter_id),
                ),
            }
        } else {
            (w.update(i, given_up(w[i])), Seq::empty())
        },
    }
}

/// All-for-one restarts are possible without overflow: if the failed worker
/// can be restarted, every restart count can grow by one.
pub open spec fn restarts_fit(config: SupervisorConfig, f: FighterId) -> bool {
    let w = config.workers@;
    match find_worker(w, f, w.len() as int) {
        Some(i) => config.strategy == RestartStrategy::AllForOne && w[i].restart_count < config.max_restarts
            ==> forall|j: int| 0 <= j < w.len() ==> (#[trigger] w[j]).restart_count < u32::MAX,
        None => true,
    }
}

fn find_worker_exec(w: &Vec<SupervisedWorker>, f: FighterId) -> (r: Option<usize>)
    ensures
        match r {
            Some(i) => find_worker(w@, f, w@.len() as int) == Some(i as int) && i < w@.len(),
            None => find_worker(w@, f, w@.len() as int) is None,
        },
{
    let mut i: usize = 0;
    while i < w.len()
        invariant
            i <= w@.len(),
            find_worker(w@, f, i as int) is None,
        decreases w@.len() - i,
    {
        if w[i].fighter_id == f {
            proof {
                lemma_find_worker_stable(w@, f, i + 1, w@.len() as int);
            }
            return Some(i);
        }
        i = i + 1;
    }
    None
}

/// Once found among the first `a` workers, a worker stays the one found
/// among more.
pub proof fn lemma_find_worker_stable(w: Seq<SupervisedWorker>, f: FighterId, a: int, b: int)
    requires
        0 <= a <= b,
        find_worker(w, f, a) is Some,
    ensures
        find_worker(w, f, b) == find_worker(w, f, a),
    decreases b - a,
{
    if b > a {
        lemma_find_worker_stable(w, f, a, b - 1);
    }
}

/// Handle the failure of a worker according to the strategy (see
/// `after_failure`); returns the workers to restart.
pub fn supervisor_handle_failure(config: &mut SupervisorConfig, failed_worker: &FighterId) -> (r: Vec<FighterId>)
    requires
        restarts_fit(*old(config), *failed_worker),
    ensures
        final(config).strategy == old(config).strategy,
        final(config).max_restarts == old(config).max_restarts,
        (final(config).workers@, r@) == after_failure(
            old(config).strategy,
            old(config).max_restarts,
            old(config).workers@,
            *failed_worker,
        ),
{
    let mut to_restart: Vec<FighterId> = Vec::new();
    let i = match find_worker_exec(&config.workers, *failed_worker) {
        Some(i) => i,
        None => {
            return to_restart;
        },
    };
    let ghost w0 = config.workers@;
    if config.workers[i].restart_count < config.max_restarts {
        match config.strategy {
            RestartStrategy::OneForOne => {
                let c = config.workers[i].restart_count;
                config.workers[i].restart_count = c + 1;
                config.workers[i].failed = false;
                config.workers[i].running = true;
                to_restart.push(*failed_worker);
                assert(config.workers@ =~= w0.update(i as int, restarted(w0[i as int])));
                assert(to_restart@ =~= seq![*failed_worker]);
            },
            RestartStrategy::AllForOne => {
                let mut j: usize = 0;
                while j < config.workers.len()
                    invariant
                        config.strategy == old(config).strategy,
                        config.max_restarts == old(config).max_restarts,
                        j <= config.workers@.len(),
                        config.workers@.len() == w0.len(),
                        forall|k: int| 0 <= k < w0.len() ==> (#[trigger] w0[k]).restart_count < u32::MAX,
                        forall|k: int| 0 <= k < j ==> #[trigger] config.workers@[k] == restarted(w0[k]),
                        forall|k: int| j <= k < w0.len() ==> #[trigger] config.workers@[k] == w0[k],
                        to_restart@ == w0.take(j as int).map_values(|x: SupervisedWorker| x.fighter_id),
                    decreases w0.len() - j,
                {
                    let c = config.workers[j].restart_count;
                    config.workers[j].restart_count = c + 1;
                    config.workers[j].failed = false;
                    config.workers[j].running = true;
                    to_restart.push(config.workers[j].fighter_id);
                    j = j + 1;
                    assert(to_restart@ =~= w0.take(j as int).map_values(|x: SupervisedWorker| x.fighter_id));
                }
                assert(config.workers@ =~= w0.map_values(|x: SupervisedWorker| restarted(x)));
                assert(w0.take(w0.len() as int) =~= w0);
            },
        }
    } else {
        config.workers[i].failed = true;
        config.workers[i].running = false;
        assert(config.workers@ =~= w0.update(i as int, given_up(w0[i as int])));
        assert(to_restart@ =~= Seq::<FighterId>::empty());
    }
    to_restart
}

/// The failed workers found by a health check: running, not failed, and no
/// longer registered (`registered[i]` tells whether worker `i` is), in order.
pub open spec fn unregistered_workers(w: Seq<SupervisedWorker>, registered: Seq<bool>) -> Seq<FighterId> {
    Seq::new(w.len(), |i: int| i).filter(|i: int| w[i].running && !w[i].failed && !registered[i]).map_values(
        |i: int| w[i].fighter_id,
    )
}

/// Workers and restarts after the failures `fs` were handled in order.
pub open spec fn handle_all(
    strategy: RestartStrategy,
    max: u32,
    w: Seq<SupervisedWorker>,
    fs: Seq<FighterId>,
) -> (Seq<SupervisedWorker>, Seq<FighterId>)
    decreases fs.len(),
{
    if fs.len() == 0 {
        (w, Seq::empty())
    } else {
        let (w1, r1) = handle_all(strategy, max, w, fs.drop_last());
        let (w2, r2) = after_failure(strategy, max, w1, fs.last());
        (w2, r1 + r2)
    }
}

/// Handling one failure keeps the workers and their ids, and raises each
/// restart count by at most one.
pub proof fn lemma_after_failure_counts(strategy: RestartStrategy, max: u32, w: Seq<SupervisedWorker>, f: FighterId)
    requires
        forall|j: int| 0 <= j < w.len() ==> (#[trigger] w[j]).restart_count < u32::MAX,
    ensures
        after_failure(strategy, max, w, f).0.len() == w.len(),
        forall|j: int|
            0 <= j < w.len() ==> (#[trigger] after_failure(strategy, max, w, f).0[j]).restart_count
                <= w[j].restart_count + 1,
{
    lemma_find_worker(w, f, w.len() as int);
}

/// `find_worker` finds a worker within range.
pub proof fn lemma_find_worker(w: Seq<SupervisedWorker>, f: FighterId, n: int)
    requires
        0 <= n <= w.len(),
    ensures
        match find_worker(w, f, n) {
            Some(j) => 0 <= j < n && w[j].fighter_id == f,
            None => forall|k: int| 0 <= k < n ==> (#[trigger] w[k]).fighter_id != f,
        },
    decreases n,
{
    if n > 0 {
        lemma_find_worker(w, f, n - 1);
    }
}

/// Handle a health check: `registered[i]` tells whether worker `i` is still
/// registered. Every running, not failed worker that is not registered is
/// handled as a failure, in order; returns all workers restarted.
pub fn supervisor_check_workers(config: &mut SupervisorConfig, registered: &Vec<bool>) -> (r: Vec<FighterId>)
    requires
        registered@.len() == old(config).workers@.len(),
        forall|j: int|
            0 <= j < old(config).workers@.len() ==> (#[trigger] old(config).workers@[j]).restart_count
                + registered@.len() < u32::MAX,
    ensures
        final(config).strategy == old(config).strategy,
        final(config).max_restarts == old(config).max_restarts,
        (final(config).workers@, r@) == handle_all(
            old(config).strategy,
            old(config).max_restarts,
            old(config).workers@,
            unregistered_workers(old(config).workers@, registered@),
        ),
{
    let ghost w0 = config.workers@;
    let ghost idx = Seq::new(w0.len(), |i: int| i);
    let ghost pred = |i: int| w0[i].running && !w0[i].failed && !registered@[i];
    let mut failed: Vec<FighterId> = Vec::new();
    let mut i: usize = 0;
    while i < config.workers.len()
        invariant
            config.workers@ == w0,
            registered@.len() == w0.len(),
            idx == Seq::new(w0.len(), |i: int| i),
            pred == (|i: int| w0[i].running && !w0[i].failed && !registered@[i]),
            i <= w0.len(),
            failed@ == idx.take(i as int).filter(pred).map_values(|i: int| w0[i].fighter_id),
        decreases w0.len() - i,
    {
        proof {
            crate::table::lemma_filter_take_step(idx, i as int, pred);
        }
        let w = config.workers[i];
        if w.running && !w.failed && !registered[i] {
            failed.push(w.fighter_id);
            assert(failed@ =~= idx.take(i + 1).filter(pred).map_values(|i: int| w0[i].fighter_id));
        }
        i = i + 1;
    }
    assert(idx.take(w0.len() as int) =~= idx);
    let ghost fs = failed@;
    assert(fs == unregistered_workers(w0, registered@));
    let mut restarted: Vec<FighterId> = Vec::new();
    let mut k: usize = 0;
    assert(fs.take(0) =~= Seq::<FighterId>::empty());
    while k < failed.len()
        invariant
            fs == failed@,
            k <= fs.len(),
            fs.len() <= w0.len(),
            config.strategy == old(config).strategy,
            config.max_restarts == old(config).max_restarts,
            w0 == old(config).workers@,
            registered@.len() == w0.len(),
            (config.workers@, restarted@) == handle_all(config.strategy, config.max_restarts, w0, fs.take(k as int)),
            config.workers@.len() == w0.len(),
            forall|j: int| 0 <= j < w0.len() ==> (#[trigger] config.workers@[j]).restart_count <= w0[j].restart_count + k,
            forall|j: int| 0 <= j < w0.len() ==> (#[trigger] w0[j]).restart_count + registered@.len() < u32::MAX,
        decreases fs.len() - k,
    {
        let f = failed[k];
        let ghost before = config.workers@;
        let ghost rb = restarted@;
        proof {
            lemma_after_failure_counts(config.strategy, config.max_restarts, before, f);
        }
        let mut r1 = supervisor_handle_failure(config, &f);
        restarted.append(&mut r1);
        proof {
            assert(fs.take(k + 1).drop_last() =~= fs.take(k as int));
            assert(fs.take(k + 1).last() == f);
        }
        k = k + 1;
    }
    assert(fs.take(fs.len() as int) =~= fs);
    restarted
}

} // verus!
