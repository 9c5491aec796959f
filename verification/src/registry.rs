//! Named fighter templates: manifests filed under their lower-cased names and
//! looked up without regard to case. Reading the templates from disk happens
//! outside; `register` files each one that was read.
use vstd::prelude::*;

use crate::table::StrMap;
use crate::tenants::TenantId;
use crate::text::{
    chars_of, lemma_text_lt_irreflexive, lemma_text_lt_total, lemma_text_lt_transitive, lowercase,
    string_from_chars, text_lt, text_lt_exec, to_lowercase_chars,
};

verus! {

/// How heavy a fighter is.
#[derive(Debug, Clone, Copy, PartialEq, Eq, Structural)]
pub enum WeightClass {
    /// Light and quick.
    Featherweight,
    /// The default.
    Middleweight,
    /// Large and thorough.
    Heavyweight,
}

/// What a fighter is spawned from.
#[derive(Debug, Clone)]
pub struct FighterManifest {
    /// Display name.
    pub name: String,
    /// What the fighter is for.
    pub description: String,
    /// The model it talks to.
    pub model: String,
    /// Its system prompt.
    pub system_prompt: String,
    /// Capabilities it is granted.
    pub capabilities: Vec<String>,
    /// Its weight class.
    pub weight_class: WeightClass,
    /// The tenant it belongs to, if any.
    pub tenant_id: Option<TenantId>,
}

/// The texts of a sequence of strings.
pub open spec fn texts(s: Seq<String>) -> Seq<Seq<char>> {
    s.map_values(|x: String| x@)
}

/// Strictly increasing in text order (so also free of repeats).
pub open spec fn strictly_sorted(s: Seq<Seq<char>>) -> bool {
    forall|i: int, j: int| 0 <= i < j < s.len() ==> text_lt(#[trigger] s[i], #[trigger] s[j])
}

/// Templates by lower-cased name.
pub struct AgentRegistry {
    templates: StrMap<FighterManifest>,
}

/// The key a name is filed under: `name` in lower case.
fn key_of(name: &str) -> (k: String)
    ensures
        k@ == lowercase(name@),
{
    let c = chars_of(name);
    let l = to_lowercase_chars(c.as_slice());
    string_from_chars(l.as_slice())
}

/// Whether `a` comes before `b` in text order.
fn precedes(a: &String, b: &String) -> (r: bool)
    ensures
        r == text_lt(a@, b@),
{
    let ac = chars_of(a.as_str());
    let bc = chars_of(b.as_str());
    text_lt_exec(ac.as_slice(), bc.as_slice())
}

/// Put `k` into the strictly sorted `out` at its place.
fn insert_sorted(out: &mut Vec<String>, k: String)
    requires
        strictly_sorted(texts(old(out)@)),
        !texts(old(out)@).contains(k@),
    ensures
        strictly_sorted(texts(final(out)@)),
        texts(final(out)@).to_set() == texts(old(out)@).to_set().insert(k@),
{
    let ghost s0 = texts(out@);
    let mut p: usize = 0;
    while p < out.len() && !precedes(&k, &out[p])
        invariant
            p <= out@.len(),
            texts(out@) == s0,
            strictly_sorted(s0),
            !s0.contains(k@),
            forall|j: int| 0 <= j < p ==> text_lt(#[trigger] s0[j], k@),
        decreases out@.len() - p,
    {
        proof {
            assert(s0[p as int] == out@[p as int]@);
            assert(s0.contains(s0[p as int]));
            lemma_text_lt_total(k@, s0[p as int]);
        }
        p = p + 1;
    }
    let ghost kv = k@;
    out.insert(p, k);
    proof {
        let n = texts(out@);
        assert(n =~= s0.insert(p as int, kv));
        assert forall|i: int, j: int| 0 <= i < j < n.len() implies text_lt(#[trigger] n[i], #[trigger] n[j]) by {
            if j < p {
                assert(n[i] == s0[i] && n[j] == s0[j]);
            } else if j == p {
                assert(n[i] == s0[i]);
            } else if i < p {
                assert(n[i] == s0[i] && n[j] == s0[j - 1]);
            } else if i == p {
                assert(n[j] == s0[j - 1]);
                assert(p < s0.len());
                assert(text_lt(kv, s0[p as int])) by {
                    assert(s0[p as int] == out@[p as int + 1]@);
                }
                if j - 1 > p {
                    lemma_text_lt_transitive(kv, s0[p as int], s0[j - 1]);
                }
            } else {
                assert(n[i] == s0[i - 1] && n[j] == s0[j - 1]);
            }
        }
        assert forall|q: Seq<char>| #[trigger] n.to_set().contains(q) <==> s0.to_set().insert(kv).contains(q) by {
            if n.contains(q) {
                let j = choose|j: int| 0 <= j < n.len() && n[j] == q;
                if j < p {
                    assert(s0[j] == q);
                } else if j > p {
                    assert(s0[j - 1] == q);
                }
            }
            if s0.contains(q) {
                let j = choose|j: int| 0 <= j < s0.len() && s0[j] == q;
                if j < p {
                    assert(n[j] == q);
                } else {
                    assert(n[j + 1] == q);
                }
            }
            if q == kv {
                assert(n[p as int] == q);
            }
        }
        assert(n.to_set() =~= s0.to_set().insert(kv));
    }
}

impl AgentRegistry {
    /// The templates by key.
    pub closed spec fn templates(&self) -> Map<Seq<char>, FighterManifest> {
        self.templates.map()
    }

    /// The backing map is well formed.
    pub closed spec fn wf(&self) -> bool {
        self.templates.wf()
    }

    /// An empty registry.
    pub fn new() -> (r: AgentRegistry)
        ensures
            r.wf(),
            r.templates() == Map::<Seq<char>, FighterManifest>::empty(),
    {
        AgentRegistry { templates: StrMap::new() }
    }

    /// The template filed under `name`, compared without regard to case.
    pub fn get_template(&self, name: &str) -> (r: Option<&FighterManifest>)
        requires
            self.wf(),
        ensures
            match r {
                Some(m) => self.templates().dom().contains(lowercase(name@)) && *m == self.templates()[lowercase(
                    name@,
                )],
                None => !self.templates().dom().contains(lowercase(name@)),
            },
    {
        let k = key_of(name);
        self.templates.get(&k)
    }

    /// The template names in text order.
    pub fn list_templates(&self) -> (r: Vec<String>)
        requires
            self.wf(),
        ensures
            strictly_sorted(texts(r@)),
            texts(r@).to_set() == self.templates().dom(),
    {
        let n = self.templates.size();
        let ghost kv = self.templates.key_views();
        proof { self.templates.lemma_map(); }
        let mut out: Vec<String> = Vec::new();
        let mut i: usize = 0;
        while i < n
            invariant
                self.wf(),
                kv == self.templates.key_views(),
                kv.no_duplicates(),
                n == kv.len(),
                i <= n,
                strictly_sorted(texts(out@)),
                texts(out@).to_set() == kv.take(i as int).to_set(),
            decreases n - i,
        {
            let k = self.templates.key_at(i).clone();
            proof {
                if texts(out@).contains(k@) {
                    assert(texts(out@).to_set().contains(k@));
                    let j = choose|j: int| 0 <= j < i && kv.take(i as int)[j] == k@;
                    assert(kv[j] == kv[i as int]);
                }
                assert(kv.take(i as int + 1) =~= kv.take(i as int).push(kv[i as int]));
                kv.take(i as int).lemma_push_to_set_commute(kv[i as int]);
            }
            insert_sorted(&mut out, k);
            i = i + 1;
        }
        proof {
            assert(kv.take(n as int) =~= kv);
            assert forall|q: Seq<char>| #[trigger] kv.to_set().contains(q) <==> self.templates().dom().contains(q) by {}
            assert(kv.to_set() =~= self.templates().dom());
        }
        out
    }

    /// File `manifest` under `name` in lower case, replacing an earlier one.
    pub fn register(&mut self, name: String, manifest: FighterManifest)
        requires
            old(self).wf(),
        ensures
            final(self).wf(),
            final(self).templates() == old(self).templates().insert(lowercase(name@), manifest),
    {
        let k = key_of(name.as_str());
        self.templates.insert(k, manifest);
    }

    /// Take out the template filed under `name` (compared without regard to
    /// case), if there is one.
    pub fn unregister(&mut self, name: &str) -> (r: Option<FighterManifest>)
        requires
            old(self).wf(),
        ensures
            final(self).wf(),
            final(self).templates() == old(self).templates().remove(lowercase(name@)),
            r == (if old(self).templates().dom().contains(lowercase(name@)) {
                Some(old(self).templates()[lowercase(name@)])
            } else {
                None::<FighterManifest>
            }),
    {
        let k = key_of(name);
        self.templates.remove(&k)
    }

    /// Number of templates.
    pub fn len(&self) -> (n: usize)
        requires
            self.wf(),
        ensures
            n == self.templates().len(),
    {
        proof {
            self.templates.lemma_map();
            let kv = self.templates.key_views();
            kv.unique_seq_to_set();
            assert(kv.to_set() =~= self.templates().dom());
        }
        self.templates.size()
    }

    /// Whether there are no templates.
    pub fn is_empty(&self) -> (b: bool)
        requires
            self.wf(),
        ensures
            b == (self.templates().len() == 0),
    {
        self.len() == 0
    }
}

impl Default for AgentRegistry {
    /// An empty registry.
    fn default() -> (r: AgentRegistry)
        ensures
            r.wf(),
            r.templates() == Map::<Seq<char>, FighterManifest>::empty(),
    {
        AgentRegistry::new()
    }
}

} // verus!
