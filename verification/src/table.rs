//! A table from 128-bit keys to values that remembers insertion order: the
//! keyed store behind registries of gorillas, tasks, triggers and tenants.
use vstd::prelude::*;

verus! {

/// Values keyed by distinct 128-bit keys, kept in insertion order.
pub struct Table<V> {
    keys: Vec<u128>,
    vals: Vec<V>,
}

impl<V> Table<V> {
    /// The keys in insertion order.
    pub closed spec fn key_seq(&self) -> Seq<u128> {
        self.keys@
    }

    /// The values in key order.
    pub closed spec fn val_seq(&self) -> Seq<V> {
        self.vals@
    }

    /// Keys and values line up, and no key occurs twice.
    pub closed spec fn wf(&self) -> bool {
        &&& self.keys@.len() == self.vals@.len()
        &&& self.keys@.no_duplicates()
    }

    /// Number of entries.
    pub open spec fn len(&self) -> nat {
        self.key_seq().len()
    }

    /// The table holds key `k`.
    pub open spec fn has(&self, k: u128) -> bool {
        self.key_seq().contains(k)
    }

    /// The position of key `k`.
    pub open spec fn pos(&self, k: u128) -> int {
        self.key_seq().index_of(k)
    }

    /// The value stored under `k`.
    pub open spec fn at(&self, k: u128) -> V {
        self.val_seq()[self.pos(k)]
    }

    /// The facts every caller needs about a well-formed table.
    pub proof fn lemma_wf(&self)
        requires
            self.wf(),
        ensures
            self.key_seq().len() == self.val_seq().len(),
            self.key_seq().no_duplicates(),
            forall|i: int|
                0 <= i < self.key_seq().len() ==> #[trigger] self.pos(self.key_seq()[i]) == i,
            forall|k: u128| self.has(k) ==> 0 <= #[trigger] self.pos(k) < self.len() && self.key_seq()[self.pos(k)] == k,
    {
        assert forall|i: int| 0 <= i < self.key_seq().len() implies #[trigger] self.pos(
            self.key_seq()[i],
        ) == i by {
            let k = self.key_seq()[i];
            assert(self.key_seq().contains(k));
            let j = self.key_seq().index_of(k);
            assert(self.key_seq()[j] == k);
        }
        assert forall|k: u128| self.has(k) implies 0 <= #[trigger] self.pos(k) < self.len()
            && self.key_seq()[self.pos(k)] == k by {
            assert(self.key_seq().contains(k));
        }
    }

    /// An empty table.
    pub fn new() -> (t: Table<V>)
        ensures
            t.wf(),
            t.key_seq() == Seq::<u128>::empty(),
            t.val_seq() == Seq::<V>::empty(),
    {
        Table { keys: Vec::new(), vals: Vec::new() }
    }

    /// Number of entries.
    pub fn size(&self) -> (n: usize)
        requires
            self.wf(),
        ensures
            n == self.len(),
    {
        self.keys.len()
    }

    /// The position of key `k`, if present.
    pub fn find(&self, k: u128) -> (r: Option<usize>)
        requires
            self.wf(),
        ensures
            match r {
                Some(i) => self.has(k) && i == self.pos(k) && i < self.len(),
                None => !self.has(k),
            },
    {
        proof {
            self.lemma_wf();
        }
        let mut i: usize = 0;
        while i < self.keys.len()
            invariant
                self.wf(),
                i <= self.keys@.len(),
                forall|j: int| 0 <= j < i ==> self.keys@[j] != k,
            decreases self.keys@.len() - i,
        {
            if self.keys[i] == k {
                proof {
                    self.lemma_wf();
                }
                assert(self.key_seq()[i as int] == k);
                assert(self.pos(self.key_seq()[i as int]) == i);
                return Some(i);
            }
            i = i + 1;
        }
        None
    }

    /// The key at position `i`.
    pub fn key_at(&self, i: usize) -> (k: u128)
        requires
            self.wf(),
            i < self.len(),
        ensures
            k == self.key_seq()[i as int],
    {
        self.keys[i]
    }

    /// The value at position `i`.
    pub fn val_at(&self, i: usize) -> (v: &V)
        requires
            self.wf(),
            i < self.len(),
        ensures
            *v == self.val_seq()[i as int],
    {
        &self.vals[i]
    }

    /// The value stored under `k`, if any.
    pub fn get(&self, k: u128) -> (r: Option<&V>)
        requires
            self.wf(),
        ensures
            match r {
                Some(v) => self.has(k) && *v == self.at(k),
                None => !self.has(k),
            },
    {
        match self.find(k) {
            Some(i) => Some(&self.vals[i]),
            None => None,
        }
    }

    /// Mutable access to the value at position `i`.
    pub fn val_mut(&mut self, i: usize) -> (v: &mut V)
        requires
            old(self).wf(),
            i < old(self).len(),
        ensures
            *v == old(self).val_seq()[i as int],
            final(self).key_seq() == old(self).key_seq(),
            final(self).val_seq() == old(self).val_seq().update(i as int, *final(v)),
    {
        &mut self.vals[i]
    }

    /// The table stays well formed when only values change.
    pub proof fn lemma_wf_vals(before: Table<V>, after: Table<V>)
        requires
            before.wf(),
            after.key_seq() == before.key_seq(),
            after.val_seq().len() == before.val_seq().len(),
        ensures
            after.wf(),
    {
    }

    /// Replace the value at position `i`.
    pub fn set_at(&mut self, i: usize, v: V)
        requires
            old(self).wf(),
            i < old(self).len(),
        ensures
            final(self).wf(),
            final(self).key_seq() == old(self).key_seq(),
            final(self).val_seq() == old(self).val_seq().update(i as int, v),
    {
        self.vals.set(i, v);
    }

    /// Store `v` under `k`: in place if `k` is present, else at the end.
    pub fn insert(&mut self, k: u128, v: V)
        requires
            old(self).wf(),
        ensures
            final(self).wf(),
            old(self).has(k) ==> final(self).key_seq() == old(self).key_seq()
                && final(self).val_seq() == old(self).val_seq().update(old(self).pos(k), v),
            !old(self).has(k) ==> final(self).key_seq() == old(self).key_seq().push(k)
                && final(self).val_seq() == old(self).val_seq().push(v),
    {
        match self.find(k) {
            Some(i) => {
                self.vals.set(i, v);
            },
            None => {
                self.keys.push(k);
                self.vals.push(v);
                proof {
                    assert(self.keys@.no_duplicates()) by {
                        assert forall|a: int, b: int|
                            0 <= a < self.keys@.len() && 0 <= b < self.keys@.len() && a != b
                            implies self.keys@[a] != self.keys@[b] by {
                            if a == self.keys@.len() - 1 {
                                assert(!old(self).keys@.contains(k));
                                assert(old(self).keys@[b] == self.keys@[b]);
                            } else if b == self.keys@.len() - 1 {
                                assert(!old(self).keys@.contains(k));
                                assert(old(self).keys@[a] == self.keys@[a]);
                            }
                        }
                    }
                }
            },
        }
    }

    /// Remove the entry at position `i`, returning its value; the order of the
    /// other entries is kept.
    pub fn remove_at(&mut self, i: usize) -> (v: V)
        requires
            old(self).wf(),
            i < old(self).len(),
        ensures
            final(self).wf(),
            v == old(self).val_seq()[i as int],
            final(self).key_seq() == old(self).key_seq().remove(i as int),
            final(self).val_seq() == old(self).val_seq().remove(i as int),
    {
        let ghost before = self.keys@;
        self.keys.remove(i);
        let v = self.vals.remove(i);
        proof {
            assert(self.keys@ =~= before.remove(i as int));
            assert forall|a: int, b: int|
                0 <= a < self.keys@.len() && 0 <= b < self.keys@.len() && a != b implies self.keys@[a]
                != self.keys@[b] by {
                let a2 = if a < i { a } else { a + 1 };
                let b2 = if b < i { b } else { b + 1 };
                assert(self.keys@[a] == before[a2]);
                assert(self.keys@[b] == before[b2]);
            }
        }
        v
    }

    /// Remove the entry under `k`, returning its value if it was present.
    pub fn remove(&mut self, k: u128) -> (r: Option<V>)
        requires
            old(self).wf(),
        ensures
            final(self).wf(),
            match r {
                Some(v) => old(self).has(k) && v == old(self).at(k) && final(self).key_seq()
                    == old(self).key_seq().remove(old(self).pos(k)) && final(self).val_seq()
                    == old(self).val_seq().remove(old(self).pos(k)),
                None => !old(self).has(k) && final(self).key_seq() == old(self).key_seq()
                    && final(self).val_seq() == old(self).val_seq(),
            },
    {
        match self.find(k) {
            Some(i) => Some(self.remove_at(i)),
            None => None,
        }
    }
}

/// Removing a key leaves a table without it, holding every other key.
pub proof fn lemma_remove_keys(s: Seq<u128>, i: int)
    requires
        0 <= i < s.len(),
        s.no_duplicates(),
    ensures
        !s.remove(i).contains(s[i]),
        forall|k: u128| k != s[i] ==> (s.remove(i).contains(k) == s.contains(k)),
{
    assert forall|k: u128| k != s[i] implies (s.remove(i).contains(k) == s.contains(k)) by {
        if s.contains(k) {
            let j = choose|j: int| 0 <= j < s.len() && s[j] == k;
            if j < i {
                assert(s.remove(i)[j] == k);
            } else {
                assert(j != i);
                assert(s.remove(i)[j - 1] == k);
            }
        }
        if s.remove(i).contains(k) {
            let j = choose|j: int| 0 <= j < s.remove(i).len() && s.remove(i)[j] == k;
            if j < i {
                assert(s[j] == k);
            } else {
                assert(s[j + 1] == k);
            }
        }
    }
    if s.remove(i).contains(s[i]) {
        let j = choose|j: int| 0 <= j < s.remove(i).len() && s.remove(i)[j] == s[i];
        if j < i {
            assert(s[j] == s[i]);
        } else {
            assert(s[j + 1] == s[i]);
        }
    }
}

} // verus!

verus! {

/// An index from text keys to 128-bit ids, with distinct keys.
pub struct StrMap<V> {
    keys: Vec<String>,
    vals: Vec<V>,
}

impl<V> StrMap<V> {
    /// The keys as character sequences, in insertion order.
    pub closed spec fn key_views(&self) -> Seq<Seq<char>> {
        self.keys@.map_values(|s: String| s@)
    }

    /// The values in key order.
    pub closed spec fn vals_seq(&self) -> Seq<V> {
        self.vals@
    }

    /// Keys and values line up, and no key occurs twice.
    pub closed spec fn wf(&self) -> bool {
        &&& self.keys@.len() == self.vals@.len()
        &&& self.key_views().no_duplicates()
    }

    /// The contents as a map from keys to values.
    pub closed spec fn map(&self) -> Map<Seq<char>, V> {
        Map::new(
            |k: Seq<char>| self.key_views().contains(k),
            |k: Seq<char>| self.vals@[self.key_views().index_of(k)],
        )
    }

    /// An empty map.
    pub fn new() -> (r: StrMap<V>)
        ensures
            r.wf(),
            r.map() == Map::<Seq<char>, V>::empty(),
    {
        let r = StrMap { keys: Vec::new(), vals: Vec::new() };
        assert(r.map() =~= Map::<Seq<char>, V>::empty());
        r
    }

    /// The position of `k`, if present.
    fn find(&self, k: &String) -> (r: Option<usize>)
        requires
            self.wf(),
        ensures
            match r {
                Some(i) => i < self.keys@.len() && self.key_views()[i as int] == k@,
                None => !self.key_views().contains(k@),
            },
    {
        let mut i: usize = 0;
        while i < self.keys.len()
            invariant
                self.wf(),
                i <= self.keys@.len(),
                forall|j: int| 0 <= j < i ==> self.key_views()[j] != k@,
            decreases self.keys@.len() - i,
        {
            if self.keys[i] == *k {
                return Some(i);
            }
            i = i + 1;
        }
        None
    }

    /// The value stored under `k`, if any.
    pub fn get(&self, k: &String) -> (r: Option<&V>)
        requires
            self.wf(),
        ensures
            match r {
                Some(v) => self.map().dom().contains(k@) && self.map()[k@] == *v,
                None => !self.map().dom().contains(k@),
            },
    {
        match self.find(k) {
            Some(i) => {
                proof {
                    let kv = self.key_views();
                    assert(kv.contains(k@));
                    assert(kv.index_of(k@) == i) by {
                        let j = kv.index_of(k@);
                        assert(kv[j] == k@);
                    }
                }
                Some(&self.vals[i])
            },
            None => None,
        }
    }

    /// Store `v` under `k`, replacing an earlier value.
    pub fn insert(&mut self, k: String, v: V)
        requires
            old(self).wf(),
        ensures
            final(self).wf(),
            final(self).map() == old(self).map().insert(k@, v),
    {
        let ghost kv0 = self.key_views();
        match self.find(&k) {
            Some(i) => {
                self.vals.set(i, v);
                proof {
                    assert(self.key_views() == kv0);
                    assert forall|q: Seq<char>| #[trigger] self.map().dom().contains(q) implies self.map()[q]
                        == old(self).map().insert(k@, v)[q] by {
                        let j = kv0.index_of(q);
                        assert(kv0[j] == q);
                        if q == k@ {
                            assert(kv0.index_of(q) == i as int) by {
                                assert(kv0[i as int] == q);
                            }
                        } else {
                            assert(j != i);
                        }
                    }
                    assert(self.map() =~= old(self).map().insert(k@, v));
                }
            },
            None => {
                let ghost kview = k@;
                self.keys.push(k);
                self.vals.push(v);
                proof {
                    let kv = self.key_views();
                    assert(kv =~= kv0.push(kview));
                    assert forall|a: int, b: int| 0 <= a < kv.len() && 0 <= b < kv.len() && a != b implies kv[a]
                        != kv[b] by {
                        if a == kv.len() - 1 {
                            assert(kv0[b] == kv[b]);
                        } else if b == kv.len() - 1 {
                            assert(kv0[a] == kv[a]);
                        }
                    }
                    assert forall|q: Seq<char>| #[trigger] self.map().dom().contains(q) implies self.map()[q]
                        == old(self).map().insert(kview, v)[q] by {
                        let j = kv.index_of(q);
                        assert(kv[j] == q);
                        if q == kview {
                            assert(j == kv.len() - 1);
                        } else {
                            assert(kv0.contains(q));
                            let j0 = kv0.index_of(q);
                            assert(kv0[j0] == q);
                            assert(kv[j0] == q);
                            assert(j == j0);
                        }
                    }
                    assert forall|q: Seq<char>| old(self).map().insert(kview, v).dom().contains(q) implies #[trigger] self.map().dom().contains(q) by {
                        if q != kview {
                            let j0 = kv0.index_of(q);
                            assert(kv0[j0] == q);
                            assert(kv[j0] == q);
                        } else {
                            assert(kv[kv.len() - 1] == q);
                        }
                    }
                    assert(self.map() =~= old(self).map().insert(kview, v));
                }
            },
        }
    }
    /// Take out the value stored under `k`, if any.
    pub fn remove(&mut self, k: &String) -> (r: Option<V>)
        requires
            old(self).wf(),
        ensures
            final(self).wf(),
            final(self).map() == old(self).map().remove(k@),
            r == (if old(self).map().dom().contains(k@) { Some(old(self).map()[k@]) } else { None::<V> }),
    {
        let ghost kv0 = self.key_views();
        let ghost vs0 = self.vals@;
        proof { self.lemma_map(); }
        match self.find(k) {
            Some(i) => {
                self.keys.remove(i);
                let v = self.vals.remove(i);
                proof {
                    let kv = self.key_views();
                    assert(kv =~= kv0.remove(i as int));
                    assert(kv0[i as int] == k@);
                    assert forall|a: int, b: int| 0 <= a < kv.len() && 0 <= b < kv.len() && a != b implies kv[a]
                        != kv[b] by {
                        let a0 = if a < i { a } else { a + 1 };
                        let b0 = if b < i { b } else { b + 1 };
                        assert(kv[a] == kv0[a0]);
                        assert(kv[b] == kv0[b0]);
                    }
                    assert forall|q: Seq<char>| #[trigger] kv.contains(q) <==> (kv0.contains(q) && q != k@) by {
                        if kv.contains(q) {
                            let j = kv.index_of(q);
                            let j0 = if j < i { j } else { j + 1 };
                            assert(kv0[j0] == q);
                            assert(j0 != i);
                        }
                        if kv0.contains(q) && q != k@ {
                            let j0 = kv0.index_of(q);
                            assert(kv0[j0] == q);
                            assert(j0 != i);
                            let j = if j0 < i { j0 } else { j0 - 1 };
                            assert(kv[j] == q);
                        }
                    }
                    assert forall|q: Seq<char>| #[trigger] self.map().dom().contains(q) implies self.map()[q]
                        == old(self).map().remove(k@)[q] by {
                        let j = kv.index_of(q);
                        assert(kv[j] == q);
                        let j0 = if j < i { j } else { j + 1 };
                        assert(kv0[j0] == q);
                        assert(kv0.index_of(q) == j0) by {
                            let m = kv0.index_of(q);
                            assert(kv0[m] == q);
                        }
                        assert(self.vals@[j] == vs0[j0]);
                    }
                    assert(self.map() =~= old(self).map().remove(k@));
                    assert(kv0.index_of(k@) == i as int) by {
                        let m = kv0.index_of(k@);
                        assert(kv0[m] == k@);
                    }
                }
                Some(v)
            },
            None => {
                assert(self.map() =~= old(self).map().remove(k@));
                None
            },
        }
    }

    /// Number of keys.
    pub fn size(&self) -> (n: usize)
        requires
            self.wf(),
        ensures
            n == self.key_views().len(),
    {
        self.keys.len()
    }

    /// The key at position `i`.
    pub fn key_at(&self, i: usize) -> (k: &String)
        requires
            self.wf(),
            i < self.key_views().len(),
        ensures
            k@ == self.key_views()[i as int],
    {
        &self.keys[i]
    }

    /// The value at position `i`.
    pub fn val_at(&self, i: usize) -> (v: &V)
        requires
            self.wf(),
            i < self.key_views().len(),
        ensures
            *v == self.vals_seq()[i as int],
    {
        &self.vals[i]
    }

    /// Keys and values line up with the map.
    pub proof fn lemma_map(&self)
        requires
            self.wf(),
        ensures
            self.key_views().len() == self.vals_seq().len(),
            self.key_views().no_duplicates(),
            forall|i: int|
                0 <= i < self.key_views().len() ==> self.map().dom().contains(#[trigger] self.key_views()[i])
                    && self.map()[self.key_views()[i]] == self.vals_seq()[i],
            forall|q: Seq<char>| #[trigger] self.map().dom().contains(q) <==> self.key_views().contains(q),
    {
        assert forall|i: int| 0 <= i < self.key_views().len() implies self.map().dom().contains(
            #[trigger] self.key_views()[i],
        ) && self.map()[self.key_views()[i]] == self.vals_seq()[i] by {
            let kv = self.key_views();
            assert(kv.contains(kv[i]));
            let j = kv.index_of(kv[i]);
            assert(kv[j] == kv[i]);
        }
    }
}

/// A map from text keys to 128-bit ids.
pub type StrIndex = StrMap<u128>;

/// After inserting `(k, v)`, `k` maps to `v` and every other key is unchanged.
pub proof fn lemma_table_insert<V>(before: Table<V>, after: Table<V>, k: u128, v: V)
    requires
        before.wf(),
        after.wf(),
        before.has(k) ==> after.key_seq() == before.key_seq() && after.val_seq()
            == before.val_seq().update(before.pos(k), v),
        !before.has(k) ==> after.key_seq() == before.key_seq().push(k) && after.val_seq()
            == before.val_seq().push(v),
    ensures
        after.has(k),
        after.at(k) == v,
        forall|j: u128| j != k ==> (after.has(j) == before.has(j)),
        forall|j: u128| j != k && before.has(j) ==> after.at(j) == before.at(j),
{
    before.lemma_wf();
    after.lemma_wf();
    if before.has(k) {
        assert(after.pos(k) == before.pos(k));
        assert forall|j: u128| j != k && before.has(j) implies after.at(j) == before.at(j) by {
            assert(after.pos(j) == before.pos(j));
        }
    } else {
        let n = before.key_seq().len() as int;
        assert(after.key_seq()[n] == k);
        assert(after.pos(after.key_seq()[n]) == n);
        assert forall|j: u128| j != k implies (after.has(j) == before.has(j)) by {
            if before.has(j) {
                assert(after.key_seq()[before.pos(j)] == j);
            }
            if after.has(j) {
                let p = after.pos(j);
                assert(p != n);
                assert(before.key_seq()[p] == j);
            }
        }
        assert forall|j: u128| j != k && before.has(j) implies after.at(j) == before.at(j) by {
            let p = before.pos(j);
            assert(after.key_seq()[p] == j);
            assert(after.pos(after.key_seq()[p]) == p);
        }
    }
}

/// After replacing the value at position `i`, its key maps to `v` and every
/// other key is unchanged.
pub proof fn lemma_table_set<V>(before: Table<V>, after: Table<V>, i: int, v: V)
    requires
        before.wf(),
        after.wf(),
        0 <= i < before.len(),
        after.key_seq() == before.key_seq(),
        after.val_seq() == before.val_seq().update(i, v),
    ensures
        after.has(before.key_seq()[i]),
        after.at(before.key_seq()[i]) == v,
        forall|j: u128| after.has(j) == before.has(j),
        forall|j: u128| j != before.key_seq()[i] && before.has(j) ==> after.at(j) == before.at(j),
{
    before.lemma_wf();
    after.lemma_wf();
    let k = before.key_seq()[i];
    assert(after.pos(after.key_seq()[i]) == i);
    assert forall|j: u128| j != k && before.has(j) implies after.at(j) == before.at(j) by {
        assert(after.pos(j) == before.pos(j));
        assert(before.pos(j) != i);
    }
}

/// After removing `k`, it is absent and every other key is unchanged.
pub proof fn lemma_table_remove<V>(before: Table<V>, after: Table<V>, k: u128)
    requires
        before.wf(),
        after.wf(),
        before.has(k) ==> after.key_seq() == before.key_seq().remove(before.pos(k)) && after.val_seq()
            == before.val_seq().remove(before.pos(k)),
        !before.has(k) ==> after.key_seq() == before.key_seq() && after.val_seq() == before.val_seq(),
    ensures
        !after.has(k),
        forall|j: u128| j != k ==> (after.has(j) == before.has(j)),
        forall|j: u128| j != k && before.has(j) ==> after.at(j) == before.at(j),
{
    before.lemma_wf();
    after.lemma_wf();
    if before.has(k) {
        let p = before.pos(k);
        lemma_remove_keys(before.key_seq(), p);
        assert forall|j: u128| j != k && before.has(j) implies after.at(j) == before.at(j) by {
            let q = before.pos(j);
            assert(q != p);
            let q2 = if q < p { q } else { q - 1 };
            assert(after.key_seq()[q2] == j);
            assert(after.pos(after.key_seq()[q2]) == q2);
        }
    }
}

/// Filtering the first `i + 1` items extends the filtered first `i` items by
/// item `i` exactly when it passes.
pub proof fn lemma_filter_take_step<A>(s: Seq<A>, i: int, pred: spec_fn(A) -> bool)
    requires
        0 <= i < s.len(),
    ensures
        s.take(i + 1).filter(pred) == if pred(s[i]) {
            s.take(i).filter(pred).push(s[i])
        } else {
            s.take(i).filter(pred)
        },
{
    assert(s.take(i + 1) =~= s.take(i).push(s[i]));
    s.take(i).lemma_filter_push(s[i], pred);
}

} // verus!
