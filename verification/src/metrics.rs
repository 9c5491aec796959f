//! A metrics registry of counters and gauges keyed by metric names with
//! labels, exported in the Prometheus text format.
use vstd::prelude::*;

use crate::table::StrMap;
use crate::text::{
    append_chars, chars_of, decimal, decimal_chars, joined, lemma_text_lt_irreflexive, lemma_text_lt_total, lemma_text_lt_transitive,
    string_from_chars, text_lt, text_lt_exec,
};

verus! {

// ---------------------------------------------------------------------------
// Keys
// ---------------------------------------------------------------------------

/// One label as text: `k="v"`.
pub open spec fn label_text(l: (Seq<char>, Seq<char>)) -> Seq<char> {
    l.0 + seq!['=', '"'] + l.1 + seq!['"']
}

/// A metric key: `name` alone without labels, else
/// `name{k1="v1",k2="v2"}`.
pub open spec fn encoded(name: Seq<char>, labels: Seq<(Seq<char>, Seq<char>)>) -> Seq<char> {
    if labels.len() == 0 {
        name
    } else {
        name + seq!['{'] + joined(labels.map_values(|l: (Seq<char>, Seq<char>)| label_text(l)), seq![',']) + seq!['}']
    }
}

/// The labels as pairs of texts.
pub open spec fn label_views(labels: Seq<(&str, &str)>) -> Seq<(Seq<char>, Seq<char>)> {
    labels.map_values(|l: (&str, &str)| (l.0@, l.1@))
}

/// Encode a metric name with labels (see `encoded`).
pub fn encode_key(name: &str, labels: &[(&str, &str)]) -> (r: String)
    ensures
        r@ == encoded(name@, label_views(labels@)),
{
    let mut out = chars_of(name);
    if labels.len() == 0 {
        return string_from_chars(out.as_slice());
    }
    out.push('{');
    let ghost head = out@;
    let ghost parts = label_views(labels@).map_values(|l: (Seq<char>, Seq<char>)| label_text(l));
    let mut i: usize = 0;
    while i < labels.len()
        invariant
            i <= labels@.len(),
            parts == label_views(labels@).map_values(|l: (Seq<char>, Seq<char>)| label_text(l)),
            out@ == head + joined(parts.take(i as int), seq![',']),
        decreases labels@.len() - i,
    {
        if i > 0 {
            out.push(',');
        }
        let (k, v) = labels[i];
        let kc = chars_of(k);
        append_chars(&mut out, kc.as_slice());
        out.push('=');
        out.push('"');
        let vc = chars_of(v);
        append_chars(&mut out, vc.as_slice());
        out.push('"');
        proof {
            assert(parts.take(i + 1).drop_last() =~= parts.take(i as int));
            assert(parts.take(i + 1).last() == label_text((k@, v@)));
            if i == 0 {
                assert(parts.take(1) =~= seq![label_text((k@, v@))]);
            }
        }
        i = i + 1;
        assert(out@ =~= head + joined(parts.take(i as int), seq![',']));
    }
    assert(parts.take(labels@.len() as int) =~= parts);
    out.push('}');
    string_from_chars(out.as_slice())
}

/// The position of the first `{` in `k` at or after `i`, if any.
pub open spec fn brace_from(k: Seq<char>, i: int) -> Option<int>
    decreases k.len() - i,
{
    if i < 0 || i >= k.len() {
        None
    } else if k[i] == '{' {
        Some(i)
    } else {
        brace_from(k, i + 1)
    }
}

/// The position of the first `{` in `k`, if any.
pub open spec fn brace_at(k: Seq<char>) -> Option<int> {
    brace_from(k, 0)
}

/// The base name of a key: the text before its first `{`.
pub open spec fn base_of(k: Seq<char>) -> Seq<char> {
    match brace_at(k) {
        Some(i) => k.take(i),
        None => k,
    }
}

/// The labels part of a key: from its first `{` on, or nothing.
pub open spec fn labels_of(k: Seq<char>) -> Seq<char> {
    match brace_at(k) {
        Some(i) => k.skip(i),
        None => Seq::empty(),
    }
}

/// Splitting a key and putting the parts back together gives the key.
pub proof fn lemma_split_rejoins(k: Seq<char>)
    ensures
        base_of(k) + labels_of(k) == k,
{
    match brace_at(k) {
        Some(i) => {
            lemma_brace_in_range(k, 0);
            assert(k.take(i) + k.skip(i) =~= k);
        },
        None => {
            assert(k + Seq::<char>::empty() =~= k);
        },
    }
}

proof fn lemma_brace_in_range(k: Seq<char>, i: int)
    requires
        0 <= i,
    ensures
        brace_from(k, i) matches Some(j) ==> i <= j < k.len() && k[j] == '{',
    decreases k.len() - i,
{
    if i < k.len() && k[i] != '{' {
        lemma_brace_in_range(k, i + 1);
    }
}

proof fn lemma_brace_skips_name(name: Seq<char>, rest: Seq<char>, i: int)
    requires
        0 <= i <= name.len(),
        !name.contains('{'),
    ensures
        brace_from(name + rest, i) == brace_from(name + rest, name.len() as int),
    decreases name.len() - i,
{
    if i < name.len() {
        assert((name + rest)[i] == name[i]);
        assert(name[i] != '{') by {
            if name[i] == '{' {
                assert(name.contains('{'));
            }
        }
        lemma_brace_skips_name(name, rest, i + 1);
    }
}

/// A key built from a name without `{` splits back into that name and the
/// labels part that was appended to it.
pub proof fn lemma_split_encoded(name: Seq<char>, labels: Seq<(Seq<char>, Seq<char>)>)
    requires
        !name.contains('{'),
    ensures
        base_of(encoded(name, labels)) == name,
        labels_of(encoded(name, labels)) == encoded(name, labels).skip(name.len() as int),
{
    let k = encoded(name, labels);
    let rest = k.skip(name.len() as int);
    assert(k =~= name + rest);
    lemma_brace_skips_name(name, rest, 0);
    if labels.len() == 0 {
        assert(k == name);
        assert(rest.len() == 0);
    } else {
        assert(k[name.len() as int] == '{');
        assert(brace_from(k, name.len() as int) == Some(name.len() as int));
        assert(k.take(name.len() as int) =~= name);
    }
}

/// The position of the first `{` in `k`, if any.
fn find_brace(k: &[char]) -> (r: Option<usize>)
    ensures
        match r {
            Some(i) => brace_at(k@) == Some(i as int) && i < k@.len(),
            None => brace_at(k@) is None,
        },
{
    let mut i: usize = 0;
    while i < k.len()
        invariant
            i <= k@.len(),
            brace_from(k@, 0) == brace_from(k@, i as int),
        decreases k@.len() - i,
    {
        if k[i] == '{' {
            return Some(i);
        }
        i = i + 1;
    }
    None
}

/// Split a key into its base name and its labels part (with braces).
pub fn split_key(key: &str) -> (r: (String, String))
    ensures
        r.0@ == base_of(key@),
        r.1@ == labels_of(key@),
{
    let k = chars_of(key);
    match find_brace(k.as_slice()) {
        Some(i) => {
            let a = crate::text::slice_range(k.as_slice(), 0, i);
            let b = crate::text::slice_range(k.as_slice(), i, k.len());
            assert(a@ =~= k@.take(i as int));
            assert(b@ =~= k@.skip(i as int));
            (string_from_chars(a.as_slice()), string_from_chars(b.as_slice()))
        },
        None => (crate::text::to_owned_string(key), String::new()),
    }
}

// ---------------------------------------------------------------------------
// Export order and rendering
// ---------------------------------------------------------------------------

/// Key `a` is exported before key `b`: families by base name, keys within a
/// family in text order.
pub open spec fn key_before(a: Seq<char>, b: Seq<char>) -> bool {
    text_lt(base_of(a), base_of(b)) || (base_of(a) == base_of(b) && text_lt(a, b))
}

/// The position at which entry `x` goes into `s`: before the first entry
/// that `x` comes before.
pub open spec fn place_key(s: Seq<(Seq<char>, Seq<char>)>, x: Seq<char>) -> int
    decreases s.len(),
{
    if s.len() == 0 {
        0
    } else if key_before(x, s[0].0) {
        0
    } else {
        1 + place_key(s.drop_first(), x)
    }
}

/// The entries in export order (insertion sort by `key_before`).
pub open spec fn export_order(e: Seq<(Seq<char>, Seq<char>)>) -> Seq<(Seq<char>, Seq<char>)>
    decreases e.len(),
{
    if e.len() == 0 {
        e
    } else {
        let s = export_order(e.drop_last());
        s.insert(place_key(s, e.last().0), e.last())
    }
}

/// Entries are in export order: no entry comes before an earlier one.
pub open spec fn in_export_order(s: Seq<(Seq<char>, Seq<char>)>) -> bool {
    forall|i: int, j: int| 0 <= i < j < s.len() ==> !key_before(#[trigger] s[j].0, #[trigger] s[i].0)
}

/// `key_before` is transitive.
pub proof fn lemma_key_before_transitive(a: Seq<char>, b: Seq<char>, c: Seq<char>)
    requires
        key_before(a, b),
        key_before(b, c),
    ensures
        key_before(a, c),
{
    if text_lt(base_of(a), base_of(b)) && text_lt(base_of(b), base_of(c)) {
        lemma_text_lt_transitive(base_of(a), base_of(b), base_of(c));
    } else if text_lt(a, b) && text_lt(b, c) {
        lemma_text_lt_transitive(a, b, c);
    }
}

/// `key_before` is asymmetric.
pub proof fn lemma_key_before_asymmetric(a: Seq<char>, b: Seq<char>)
    requires
        key_before(a, b),
    ensures
        !key_before(b, a),
{
    if key_before(b, a) {
        lemma_key_before_transitive(a, b, a);
        lemma_text_lt_irreflexive(base_of(a));
        lemma_text_lt_irreflexive(a);
    }
}

/// Where `place_key` puts `x`: after every entry `x` does not come before,
/// before the first one it does.
proof fn lemma_place_key(s: Seq<(Seq<char>, Seq<char>)>, x: Seq<char>)
    ensures
        0 <= place_key(s, x) <= s.len(),
        forall|i: int| 0 <= i < place_key(s, x) ==> !key_before(x, #[trigger] s[i].0),
        place_key(s, x) < s.len() ==> key_before(x, s[place_key(s, x)].0),
    decreases s.len(),
{
    if s.len() > 0 && !key_before(x, s[0].0) {
        lemma_place_key(s.drop_first(), x);
        assert forall|i: int| 0 <= i < place_key(s, x) implies !key_before(x, #[trigger] s[i].0) by {
            if i > 0 {
                assert(s[i] == s.drop_first()[i - 1]);
            }
        }
    }
}

/// The export order of entries is a reordering of them in which no entry
/// comes before an earlier one: families by base name, and within a family
/// the keys in text order.
pub proof fn lemma_export_order(e: Seq<(Seq<char>, Seq<char>)>)
    ensures
        export_order(e).to_multiset() == e.to_multiset(),
        in_export_order(export_order(e)),
    decreases e.len(),
{
    broadcast use vstd::seq_lib::group_to_multiset_ensures;
    if e.len() > 0 {
        let s = export_order(e.drop_last());
        let x = e.last();
        lemma_export_order(e.drop_last());
        lemma_place_key(s, x.0);
        let p = place_key(s, x.0);
        let t = s.insert(p, x);
        assert(t.remove(p) =~= s);
        assert(t[p] == x);
        assert(e.drop_last().push(x) =~= e);
        assert(t.to_multiset() =~= s.to_multiset().insert(x)) by {
            assert(t.remove(p).to_multiset() =~= t.to_multiset().remove(x));
        }
        assert forall|i: int, j: int| 0 <= i < j < t.len() implies !key_before(#[trigger] t[j].0, #[trigger] t[i].0) by {
            if j < p {
                assert(t[i] == s[i] && t[j] == s[j]);
            } else if j == p {
                assert(t[i] == s[i]);
                if key_before(x.0, s[i].0) {
                    assert(false);
                }
            } else if i > p {
                assert(t[i] == s[i - 1] && t[j] == s[j - 1]);
            } else if i == p {
                assert(t[j] == s[j - 1]);
                assert(key_before(x.0, s[p].0));
                if key_before(s[j - 1].0, x.0) {
                    lemma_key_before_transitive(s[j - 1].0, x.0, s[p].0);
                    if j - 1 > p {
                        assert(!key_before(s[j - 1].0, s[p].0));
                    } else {
                        lemma_key_before_asymmetric(x.0, s[p].0);
                    }
                }
            } else {
                assert(t[i] == s[i] && t[j] == s[j - 1]);
            }
        }
    }
}

/// No two entries share a key.
pub open spec fn distinct_keys(s: Seq<(Seq<char>, Seq<char>)>) -> bool {
    forall|i: int, j: int| 0 <= i < j < s.len() ==> (#[trigger] s[i]).0 != (#[trigger] s[j]).0
}

/// Every entry comes before every later one.
pub open spec fn strictly_in_export_order(s: Seq<(Seq<char>, Seq<char>)>) -> bool {
    forall|i: int, j: int| 0 <= i < j < s.len() ==> key_before(#[trigger] s[i].0, #[trigger] s[j].0)
}

/// Two different keys are ordered one way or the other.
proof fn lemma_key_before_total(a: Seq<char>, b: Seq<char>)
    requires
        a != b,
    ensures
        key_before(a, b) || key_before(b, a),
{
    if base_of(a) != base_of(b) {
        lemma_text_lt_total(base_of(a), base_of(b));
    } else {
        lemma_text_lt_total(a, b);
    }
}

/// An entry of a reordering of `e` is an entry of `e`.
proof fn lemma_entry_of_reordering(s: Seq<(Seq<char>, Seq<char>)>, e: Seq<(Seq<char>, Seq<char>)>, i: int)
    requires
        s.to_multiset() == e.to_multiset(),
        0 <= i < s.len(),
    ensures
        exists|k: int| 0 <= k < e.len() && #[trigger] e[k] == s[i],
{
    s.to_multiset_ensures();
    e.to_multiset_ensures();
    assert(s.contains(s[i]));
    assert(s.to_multiset().count(s[i]) > 0);
    assert(e.contains(s[i]));
}

/// With distinct keys, the export order puts every entry before every
/// later one.
pub proof fn lemma_export_order_strict(e: Seq<(Seq<char>, Seq<char>)>)
    requires
        distinct_keys(e),
    ensures
        strictly_in_export_order(export_order(e)),
{
    lemma_export_order(e);
    let s = export_order(e);
    assert(e.no_duplicates()) by {
        assert forall|i: int, j: int| 0 <= i < e.len() && 0 <= j < e.len() && i != j implies e[i] != e[j] by {
            if i < j {
                assert(e[i].0 != e[j].0);
            } else {
                assert(e[j].0 != e[i].0);
            }
        }
    }
    e.lemma_multiset_has_no_duplicates();
    s.lemma_multiset_has_no_duplicates_conv();
    assert forall|i: int, j: int| 0 <= i < j < s.len() implies key_before(#[trigger] s[i].0, #[trigger] s[j].0) by {
        lemma_entry_of_reordering(s, e, i);
        lemma_entry_of_reordering(s, e, j);
        let ki = choose|k: int| 0 <= k < e.len() && #[trigger] e[k] == s[i];
        let kj = choose|k: int| 0 <= k < e.len() && #[trigger] e[k] == s[j];
        assert(s[i] != s[j]);
        assert(ki != kj);
        if ki < kj {
            assert(e[ki].0 != e[kj].0);
        } else {
            assert(e[kj].0 != e[ki].0);
        }
        lemma_key_before_total(s[i].0, s[j].0);
    }
}

/// Two sequences of entries with distinct keys that hold the same entries
/// hold each the same number of times.
proof fn lemma_same_entries(e1: Seq<(Seq<char>, Seq<char>)>, e2: Seq<(Seq<char>, Seq<char>)>)
    requires
        distinct_keys(e1),
        distinct_keys(e2),
        forall|x: (Seq<char>, Seq<char>)| e1.contains(x) <==> e2.contains(x),
    ensures
        e1.to_multiset() == e2.to_multiset(),
{
    lemma_distinct_keys_no_duplicates(e1);
    lemma_distinct_keys_no_duplicates(e2);
    e1.lemma_multiset_has_no_duplicates();
    e2.lemma_multiset_has_no_duplicates();
    e1.to_multiset_ensures();
    e2.to_multiset_ensures();
    assert forall|x: (Seq<char>, Seq<char>)| e1.to_multiset().count(x) == e2.to_multiset().count(x) by {
        if e1.contains(x) {
            assert(e1.to_multiset().contains(x));
            assert(e2.to_multiset().contains(x));
        }
    }
    assert(e1.to_multiset() =~= e2.to_multiset());
}

/// Entries with distinct keys are distinct.
proof fn lemma_distinct_keys_no_duplicates(e: Seq<(Seq<char>, Seq<char>)>)
    requires
        distinct_keys(e),
    ensures
        e.no_duplicates(),
{
    assert forall|i: int, j: int| 0 <= i < e.len() && 0 <= j < e.len() && i != j implies e[i] != e[j] by {
        if i < j {
            assert(e[i].0 != e[j].0);
        } else {
            assert(e[j].0 != e[i].0);
        }
    }
}

/// With distinct keys, the export order depends only on which entries
/// there are, not on the order they were given in.
pub proof fn lemma_export_order_unique(e1: Seq<(Seq<char>, Seq<char>)>, e2: Seq<(Seq<char>, Seq<char>)>)
    requires
        distinct_keys(e1),
        distinct_keys(e2),
        e1.to_multiset() == e2.to_multiset(),
    ensures
        export_order(e1) == export_order(e2),
{
    lemma_export_order(e1);
    lemma_export_order(e2);
    lemma_export_order_strict(e1);
    lemma_export_order_strict(e2);
    lemma_strict_orders_equal(export_order(e1), export_order(e2));
}

/// Two sequences each in strict export order with the same entries are equal.
proof fn lemma_strict_orders_equal(a: Seq<(Seq<char>, Seq<char>)>, b: Seq<(Seq<char>, Seq<char>)>)
    requires
        strictly_in_export_order(a),
        strictly_in_export_order(b),
        a.to_multiset() == b.to_multiset(),
    ensures
        a == b,
    decreases a.len(),
{
    a.to_multiset_ensures();
    b.to_multiset_ensures();
    assert(a.len() == a.to_multiset().len() && b.len() == b.to_multiset().len());
    if a.len() == 0 {
        assert(b.len() == 0);
        assert(a =~= b);
    } else {
        assert(b.len() == a.len());
        assert(a.contains(a[0]));
        assert(a.to_multiset().count(a[0]) > 0);
        assert(b.contains(a[0]));
        assert(b.contains(b[0]));
        assert(b.to_multiset().count(b[0]) > 0);
        assert(a.contains(b[0]));
        let k = choose|k: int| 0 <= k < b.len() && b[k] == a[0];
        let m = choose|m: int| 0 <= m < a.len() && a[m] == b[0];
        if a[0] != b[0] {
            assert(k > 0 && m > 0);
            assert(key_before(a[0].0, a[m].0));
            assert(key_before(b[0].0, b[k].0));
            lemma_key_before_asymmetric(a[0].0, b[0].0);
        }
        assert(a.remove(0) =~= a.drop_first());
        assert(b.remove(0) =~= b.drop_first());
        assert(a.drop_first().to_multiset() == a.to_multiset().remove(a[0]));
        assert(b.drop_first().to_multiset() == b.to_multiset().remove(b[0]));
        assert(strictly_in_export_order(a.drop_first())) by {
            assert forall|i: int, j: int| 0 <= i < j < a.drop_first().len() implies key_before(
                #[trigger] a.drop_first()[i].0,
                #[trigger] a.drop_first()[j].0,
            ) by {
                assert(a.drop_first()[i] == a[i + 1] && a.drop_first()[j] == a[j + 1]);
            }
        }
        assert(strictly_in_export_order(b.drop_first())) by {
            assert forall|i: int, j: int| 0 <= i < j < b.drop_first().len() implies key_before(
                #[trigger] b.drop_first()[i].0,
                #[trigger] b.drop_first()[j].0,
            ) by {
                assert(b.drop_first()[i] == b[i + 1] && b.drop_first()[j] == b[j + 1]);
            }
        }
        lemma_strict_orders_equal(a.drop_first(), b.drop_first());
        assert forall|i: int| 0 <= i < a.len() implies a[i] == b[i] by {
            if i > 0 {
                assert(a[i] == a.drop_first()[i - 1] && b[i] == b.drop_first()[i - 1]);
            }
        }
        assert(a =~= b);
    }
}

/// The header of the family `base` of kind `kind`: its help line when it has
/// help text, then its type line.
pub open spec fn family_header(base: Seq<char>, kind: Seq<char>, help: Map<Seq<char>, Seq<char>>) -> Seq<char> {
    let type_line = "# TYPE "@ + base + seq![' '] + kind + seq!['\n'];
    if help.dom().contains(base) {
        "# HELP "@ + base + seq![' '] + help[base] + seq!['\n'] + type_line
    } else {
        type_line
    }
}

/// What comes before entry `j` of the ordered entries `s`: the family
/// header when it opens a family, after a blank line unless it is the first.
pub open spec fn opening(s: Seq<(Seq<char>, Seq<char>)>, j: int, kind: Seq<char>, help: Map<Seq<char>, Seq<char>>) -> Seq<char> {
    let b = base_of(s[j].0);
    if j == 0 {
        family_header(b, kind, help)
    } else if base_of(s[j - 1].0) != b {
        seq!['\n'] + family_header(b, kind, help)
    } else {
        Seq::empty()
    }
}

/// The line of entry `e`: `key value`.
pub open spec fn entry_line(e: (Seq<char>, Seq<char>)) -> Seq<char> {
    e.0 + seq![' '] + e.1 + seq!['\n']
}

/// The lines of the ordered entries `s`: a family header before the first
/// entry of each family, a blank line between families, and `key value` per
/// entry.
pub open spec fn render(s: Seq<(Seq<char>, Seq<char>)>, kind: Seq<char>, help: Map<Seq<char>, Seq<char>>) -> Seq<char>
    decreases s.len(),
{
    if s.len() == 0 {
        Seq::empty()
    } else {
        render(s.drop_last(), kind, help) + opening(s, s.len() - 1, kind, help) + entry_line(s.last())
    }
}

/// Rendering one more entry appends its opening and its line.
pub proof fn lemma_render_step(s: Seq<(Seq<char>, Seq<char>)>, j: int, kind: Seq<char>, help: Map<Seq<char>, Seq<char>>)
    requires
        0 <= j < s.len(),
    ensures
        render(s.take(j + 1), kind, help) == render(s.take(j), kind, help) + opening(s, j, kind, help) + entry_line(
            s[j],
        ),
{
    let t = s.take(j + 1);
    assert(t.drop_last() =~= s.take(j));
    assert(t.last() == s[j]);
    assert(t[j] == s[j]);
    if j > 0 {
        assert(t[j - 1] == s[j - 1]);
    }
    assert(opening(t, j, kind, help) == opening(s, j, kind, help));
}

/// The export of one kind of metric: its entries in export order, rendered,
/// with a blank line after the last family.
pub open spec fn export_section(
    e: Seq<(Seq<char>, Seq<char>)>,
    kind: Seq<char>,
    help: Map<Seq<char>, Seq<char>>,
) -> Seq<char> {
    let s = export_order(e);
    if s.len() == 0 {
        Seq::empty()
    } else {
        render(s, kind, help) + seq!['\n']
    }
}

/// The text of a signed value: its decimal digits, after a `-` when negative.
pub open spec fn signed_decimal(v: int) -> Seq<char> {
    if v < 0 {
        seq!['-'] + decimal((-v) as nat)
    } else {
        decimal(v as nat)
    }
}

fn signed_decimal_chars(v: i64) -> (r: Vec<char>)
    ensures
        r@ == signed_decimal(v as int),
{
    if v < 0 {
        let m: u64 = if v == i64::MIN {
            9_223_372_036_854_775_808u64
        } else {
            (-v) as u64
        };
        let d = decimal_chars(m);
        let mut r: Vec<char> = vec!['-'];
        append_chars(&mut r, d.as_slice());
        r
    } else {
        decimal_chars(v as u64)
    }
}

fn base_chars(k: &[char]) -> (r: Vec<char>)
    ensures
        r@ == base_of(k@),
{
    match find_brace(k) {
        Some(i) => {
            let a = crate::text::slice_range(k, 0, i);
            assert(a@ =~= k@.take(i as int));
            a
        },
        None => {
            let a = crate::text::slice_range(k, 0, k.len());
            assert(a@ =~= k@);
            a
        },
    }
}

fn key_before_exec(a: &[char], b: &[char]) -> (r: bool)
    ensures
        r == key_before(a@, b@),
{
    let ba = base_chars(a);
    let bb = base_chars(b);
    if text_lt_exec(ba.as_slice(), bb.as_slice()) {
        return true;
    }
    crate::text::chars_eq(ba.as_slice(), bb.as_slice()) && text_lt_exec(a, b)
}

/// The entries as pairs of texts.
pub open spec fn entry_views(e: Seq<(Vec<char>, Vec<char>)>) -> Seq<(Seq<char>, Seq<char>)> {
    e.map_values(|x: (Vec<char>, Vec<char>)| (x.0@, x.1@))
}

/// The help texts as a map to character sequences.
pub open spec fn help_views(help: Map<Seq<char>, String>) -> Map<Seq<char>, Seq<char>> {
    help.map_values(|s: String| s@)
}

/// Append the opening of entry `j` (see `opening`) to `out`.
fn emit_opening(sorted: &Vec<(Vec<char>, Vec<char>)>, j: usize, kind: &[char], help: &StrMap<String>, out: &mut Vec<char>)
    requires
        help.wf(),
        j < sorted@.len(),
    ensures
        final(out)@ == old(out)@ + opening(entry_views(sorted@), j as int, kind@, help_views(help.map())),
{
    let ghost s = entry_views(sorted@);
    let b = base_chars(sorted[j].0.as_slice());
    let open = if j == 0 {
        true
    } else {
        let pb = base_chars(sorted[j - 1].0.as_slice());
        !crate::text::chars_eq(pb.as_slice(), b.as_slice())
    };
    if !open {
        assert(opening(s, j as int, kind@, help_views(help.map())) =~= Seq::<char>::empty());
        assert(old(out)@ + Seq::<char>::empty() =~= old(out)@);
        return;
    }
    if j > 0 {
        out.push('\n');
    }
    let ghost mid = out@;
    let bs = string_from_chars(b.as_slice());
    proof {
        help.lemma_map();
    }
    match help.get(&bs) {
        Some(h) => {
            let hp = chars_of("# HELP ");
            append_chars(out, hp.as_slice());
            append_chars(out, b.as_slice());
            out.push(' ');
            let hc = chars_of(h.as_str());
            append_chars(out, hc.as_slice());
            out.push('\n');
        },
        None => {},
    }
    let tp = chars_of("# TYPE ");
    append_chars(out, tp.as_slice());
    append_chars(out, b.as_slice());
    out.push(' ');
    append_chars(out, kind);
    out.push('\n');
    proof {
        assert(out@ =~= mid + family_header(b@, kind@, help_views(help.map())));
        if j > 0 {
            assert(mid =~= old(out)@ + seq!['\n']);
        }
    }
}

/// Append the line of an entry (see `entry_line`) to `out`.
fn emit_line(k: &[char], v: &[char], out: &mut Vec<char>)
    ensures
        final(out)@ == old(out)@ + entry_line((k@, v@)),
{
    append_chars(out, k);
    out.push(' ');
    append_chars(out, v);
    out.push('\n');
    assert(out@ =~= old(out)@ + entry_line((k@, v@)));
}

/// Append the export of one kind of metric (see `export_section`) to `out`.
fn export_entries(
    entries: &Vec<(Vec<char>, Vec<char>)>,
    kind: &str,
    help: &StrMap<String>,
    out: &mut Vec<char>,
)
    requires
        help.wf(),
    ensures
        final(out)@ == old(out)@ + export_section(entry_views(entries@), kind@, help_views(help.map())),
{
    let ghost ev = entry_views(entries@);
    let ghost hv = help_views(help.map());
    // Order the entries.
    let mut sorted: Vec<(Vec<char>, Vec<char>)> = Vec::new();
    let mut i: usize = 0;
    while i < entries.len()
        invariant
            i <= entries@.len(),
            ev == entry_views(entries@),
            entry_views(sorted@) == export_order(ev.take(i as int)),
        decreases entries@.len() - i,
    {
        let ghost sv = entry_views(sorted@);
        let (k, v) = &entries[i];
        let mut p: usize = 0;
        assert(sv.skip(0) =~= sv);
        while p < sorted.len() && !key_before_exec(k.as_slice(), sorted[p].0.as_slice())
            invariant
                p <= sorted@.len(),
                sv == entry_views(sorted@),
                place_key(sv, k@) == p + place_key(sv.skip(p as int), k@),
            decreases sorted@.len() - p,
        {
            assert(sv.skip(p as int)[0] == sv[p as int]);
            assert(sv.skip(p as int).drop_first() =~= sv.skip(p + 1));
            p = p + 1;
        }
        assert(place_key(sv, k@) == p as int) by {
            if p < sorted@.len() {
                assert(sv.skip(p as int)[0] == sv[p as int]);
            } else {
                assert(sv.skip(p as int).len() == 0);
            }
        }
        let mut kc: Vec<char> = Vec::new();
        append_chars(&mut kc, k.as_slice());
        let mut vc: Vec<char> = Vec::new();
        append_chars(&mut vc, v.as_slice());
        let ghost item = (kc@, vc@);
        sorted.insert(p, (kc, vc));
        proof {
            assert(ev.take(i + 1).drop_last() =~= ev.take(i as int));
            assert(ev.take(i + 1).last() == item);
            assert(entry_views(sorted@) =~= sv.insert(p as int, item));
        }
        i = i + 1;
    }
    assert(ev.take(entries@.len() as int) =~= ev);
    let ghost s = entry_views(sorted@);
    if sorted.len() == 0 {
        return;
    }
    let ghost o0 = out@;
    let kind_chars = chars_of(kind);
    let mut j: usize = 0;
    while j < sorted.len()
        invariant
            j <= sorted@.len(),
            s == entry_views(sorted@),
            hv == help_views(help.map()),
            help.wf(),
            kind_chars@ == kind@,
            out@ == o0 + render(s.take(j as int), kind@, hv),
        decreases sorted@.len() - j,
    {
        let (k, v) = &sorted[j];
        proof {
            lemma_render_step(s, j as int, kind@, hv);
        }
        let ghost before = out@;
        emit_opening(&sorted, j, kind_chars.as_slice(), help, out);
        emit_line(k.as_slice(), v.as_slice(), out);
        j = j + 1;
        proof {
            assert(out@ =~= o0 + render(s.take(j as int), kind@, hv));
        }
    }
    assert(s.take(sorted@.len() as int) =~= s);
    out.push('\n');
}

// ---------------------------------------------------------------------------
// MetricsRegistry
// ---------------------------------------------------------------------------

/// Counters and gauges keyed by metric keys, with help texts and types of
/// metric families.
pub struct MetricsRegistry {
    counters: StrMap<u64>,
    gauges: StrMap<i64>,
    help: StrMap<String>,
    metric_type: StrMap<String>,
}

impl MetricsRegistry {
    /// The counters, by key.
    pub closed spec fn counters(&self) -> Map<Seq<char>, u64> {
        self.counters.map()
    }

    /// The gauges, by key.
    pub closed spec fn gauges(&self) -> Map<Seq<char>, i64> {
        self.gauges.map()
    }

    /// The help texts, by base name.
    pub closed spec fn help(&self) -> Map<Seq<char>, Seq<char>> {
        help_views(self.help.map())
    }

    /// The declared metric types, by base name.
    pub closed spec fn types(&self) -> Map<Seq<char>, Seq<char>> {
        help_views(self.metric_type.map())
    }

    /// The counter entries in insertion order, as (key, decimal value).
    pub closed spec fn counter_entries(&self) -> Seq<(Seq<char>, Seq<char>)> {
        Seq::new(
            self.counters.key_views().len(),
            |i: int| (self.counters.key_views()[i], decimal(self.counters.vals_seq()[i] as nat)),
        )
    }

    /// The gauge entries in insertion order, as (key, signed decimal value).
    pub closed spec fn gauge_entries(&self) -> Seq<(Seq<char>, Seq<char>)> {
        Seq::new(
            self.gauges.key_views().len(),
            |i: int| (self.gauges.key_views()[i], signed_decimal(self.gauges.vals_seq()[i] as int)),
        )
    }

    /// The counter entries are the counters, once each: every entry is a
    /// counter with its value in decimal, and every counter has an entry.
    pub proof fn lemma_counter_entries(&self)
        requires
            self.wf(),
        ensures
            self.counter_entries().len() == self.counters().dom().len(),
            forall|i: int, j: int|
                0 <= i < j < self.counter_entries().len() ==> (#[trigger] self.counter_entries()[i]).0
                    != (#[trigger] self.counter_entries()[j]).0,
            forall|i: int|
                0 <= i < self.counter_entries().len() ==> {
                    let e = #[trigger] self.counter_entries()[i];
                    &&& self.counters().dom().contains(e.0)
                    &&& e.1 == decimal(self.counters()[e.0] as nat)
                },
            forall|k: Seq<char>|
                #[trigger] self.counters().dom().contains(k) ==> exists|i: int|
                    0 <= i < self.counter_entries().len() && (#[trigger] self.counter_entries()[i]).0 == k,
    {
        self.counters.lemma_map();
        let kv = self.counters.key_views();
        kv.unique_seq_to_set();
        assert(kv.to_set() =~= self.counters().dom());
        assert forall|k: Seq<char>| #[trigger] self.counters().dom().contains(k) implies exists|i: int|
            0 <= i < self.counter_entries().len() && (#[trigger] self.counter_entries()[i]).0 == k by {
            let i = kv.index_of(k);
            assert(self.counter_entries()[i].0 == k);
        }
    }

    /// The gauge entries are the gauges, once each: every entry is a gauge
    /// with its value in signed decimal, and every gauge has an entry.
    pub proof fn lemma_gauge_entries(&self)
        requires
            self.wf(),
        ensures
            self.gauge_entries().len() == self.gauges().dom().len(),
            forall|i: int, j: int|
                0 <= i < j < self.gauge_entries().len() ==> (#[trigger] self.gauge_entries()[i]).0
                    != (#[trigger] self.gauge_entries()[j]).0,
            forall|i: int|
                0 <= i < self.gauge_entries().len() ==> {
                    let e = #[trigger] self.gauge_entries()[i];
                    &&& self.gauges().dom().contains(e.0)
                    &&& e.1 == signed_decimal(self.gauges()[e.0] as int)
                },
            forall|k: Seq<char>|
                #[trigger] self.gauges().dom().contains(k) ==> exists|i: int|
                    0 <= i < self.gauge_entries().len() && (#[trigger] self.gauge_entries()[i]).0 == k,
    {
        self.gauges.lemma_map();
        let kv = self.gauges.key_views();
        kv.unique_seq_to_set();
        assert(kv.to_set() =~= self.gauges().dom());
        assert forall|k: Seq<char>| #[trigger] self.gauges().dom().contains(k) implies exists|i: int|
            0 <= i < self.gauge_entries().len() && (#[trigger] self.gauge_entries()[i]).0 == k by {
            let i = kv.index_of(k);
            assert(self.gauge_entries()[i].0 == k);
        }
    }

    /// The export of a registry depends only on its counters, gauges and
    /// help texts: two registries that hold the same ones export the same
    /// text, whatever order their entries were made in.
    pub proof fn lemma_export_depends_on_contents(a: Self, b: Self)
        requires
            a.wf(),
            b.wf(),
            a.counters() == b.counters(),
            a.gauges() == b.gauges(),
            a.help() == b.help(),
        ensures
            export_section(a.counter_entries(), "counter"@, a.help()) == export_section(
                b.counter_entries(),
                "counter"@,
                b.help(),
            ),
            export_section(a.gauge_entries(), "gauge"@, a.help()) == export_section(
                b.gauge_entries(),
                "gauge"@,
                b.help(),
            ),
    {
        a.lemma_counter_entries();
        b.lemma_counter_entries();
        a.lemma_gauge_entries();
        b.lemma_gauge_entries();
        lemma_same_entries(a.counter_entries(), b.counter_entries());
        lemma_same_entries(a.gauge_entries(), b.gauge_entries());
        lemma_export_order_unique(a.counter_entries(), b.counter_entries());
        lemma_export_order_unique(a.gauge_entries(), b.gauge_entries());
    }

    /// All maps are well formed.
    pub closed spec fn wf(&self) -> bool {
        &&& self.counters.wf()
        &&& self.gauges.wf()
        &&& self.help.wf()
        &&& self.metric_type.wf()
    }

    /// An empty registry.
    pub fn new() -> (r: MetricsRegistry)
        ensures
            r.wf(),
            r.counters() == Map::<Seq<char>, u64>::empty(),
            r.gauges() == Map::<Seq<char>, i64>::empty(),
            r.help() == Map::<Seq<char>, Seq<char>>::empty(),
            r.types() == Map::<Seq<char>, Seq<char>>::empty(),
            r.counter_entries() == Seq::<(Seq<char>, Seq<char>)>::empty(),
            r.gauge_entries() == Seq::<(Seq<char>, Seq<char>)>::empty(),
    {
        let r = MetricsRegistry {
            counters: StrMap::new(),
            gauges: StrMap::new(),
            help: StrMap::new(),
            metric_type: StrMap::new(),
        };
        assert(r.help() =~= Map::<Seq<char>, Seq<char>>::empty());
        assert(r.types() =~= Map::<Seq<char>, Seq<char>>::empty());
        proof {
            r.counters.lemma_map();
            r.gauges.lemma_map();
            if r.counters.key_views().len() > 0 {
                assert(r.counters().dom().contains(r.counters.key_views()[0]));
            }
            if r.gauges.key_views().len() > 0 {
                assert(r.gauges().dom().contains(r.gauges.key_views()[0]));
            }
        }
        assert(r.counter_entries() =~= Seq::<(Seq<char>, Seq<char>)>::empty());
        assert(r.gauge_entries() =~= Seq::<(Seq<char>, Seq<char>)>::empty());
        r
    }

    /// Record the help text and type of a metric family.
    fn register(&mut self, name: &str, help: &str, kind: &str)
        requires
            old(self).wf(),
        ensures
            final(self).wf(),
            final(self).counters() == old(self).counters(),
            final(self).gauges() == old(self).gauges(),
            final(self).help() == old(self).help().insert(name@, help@),
            final(self).types() == old(self).types().insert(name@, kind@),
            final(self).counter_entries() == old(self).counter_entries(),
            final(self).gauge_entries() == old(self).gauge_entries(),
    {
        let h = crate::text::to_owned_string(help);
        let ghost hv = h@;
        self.help.insert(crate::text::to_owned_string(name), h);
        let t = crate::text::to_owned_string(kind);
        self.metric_type.insert(crate::text::to_owned_string(name), t);
        assert(self.help() =~= old(self).help().insert(name@, help@));
        assert(self.types() =~= old(self).types().insert(name@, kind@));
    }

    /// Register a counter family with help text.
    pub fn register_counter(&mut self, name: &str, help: &str)
        requires
            old(self).wf(),
        ensures
            final(self).wf(),
            final(self).counters() == old(self).counters(),
            final(self).gauges() == old(self).gauges(),
            final(self).help() == old(self).help().insert(name@, help@),
            final(self).types() == old(self).types().insert(name@, "counter"@),
            final(self).counter_entries() == old(self).counter_entries(),
            final(self).gauge_entries() == old(self).gauge_entries(),
    {
        self.register(name, help, "counter");
    }

    /// Register a gauge family with help text.
    pub fn register_gauge(&mut self, name: &str, help: &str)
        requires
            old(self).wf(),
        ensures
            final(self).wf(),
            final(self).counters() == old(self).counters(),
            final(self).gauges() == old(self).gauges(),
            final(self).help() == old(self).help().insert(name@, help@),
            final(self).types() == old(self).types().insert(name@, "gauge"@),
            final(self).counter_entries() == old(self).counter_entries(),
            final(self).gauge_entries() == old(self).gauge_entries(),
    {
        self.register(name, help, "gauge");
    }

    /// Register a histogram family with help text.
    pub fn register_histogram(&mut self, name: &str, help: &str)
        requires
            old(self).wf(),
        ensures
            final(self).wf(),
            final(self).counters() == old(self).counters(),
            final(self).gauges() == old(self).gauges(),
            final(self).help() == old(self).help().insert(name@, help@),
            final(self).types() == old(self).types().insert(name@, "histogram"@),
            final(self).counter_entries() == old(self).counter_entries(),
            final(self).gauge_entries() == old(self).gauge_entries(),
    {
        self.register(name, help, "histogram");
    }

    /// The help text of the metric family `name`, if registered.
    pub fn help_text(&self, name: &str) -> (r: Option<String>)
        requires
            self.wf(),
        ensures
            match r {
                Some(h) => self.help().dom().contains(name@) && self.help()[name@] == h@,
                None => !self.help().dom().contains(name@),
            },
    {
        let k = crate::text::to_owned_string(name);
        match self.help.get(&k) {
            Some(h) => Some(h.clone()),
            None => None,
        }
    }

    /// The declared type of the metric family `name`, if registered.
    pub fn metric_type(&self, name: &str) -> (r: Option<String>)
        requires
            self.wf(),
        ensures
            match r {
                Some(t) => self.types().dom().contains(name@) && self.types()[name@] == t@,
                None => !self.types().dom().contains(name@),
            },
    {
        let k = crate::text::to_owned_string(name);
        match self.metric_type.get(&k) {
            Some(t) => Some(t.clone()),
            None => None,
        }
    }

    /// The value of a counter; zero when it was never touched.
    pub fn counter_get(&self, key: &str) -> (v: u64)
        requires
            self.wf(),
        ensures
            v == if self.counters().dom().contains(key@) {
                self.counters()[key@]
            } else {
                0
            },
    {
        let k = crate::text::to_owned_string(key);
        match self.counters.get(&k) {
            Some(v) => *v,
            None => 0,
        }
    }

    /// Add `n` to a counter (wrapping around at `u64::MAX`), creating it at zero.
    pub fn counter_add(&mut self, key: &str, n: u64)
        requires
            old(self).wf(),
        ensures
            final(self).wf(),
            final(self).counters() == old(self).counters().insert(
                key@,
                (if old(self).counters().dom().contains(key@) {
                    old(self).counters()[key@]
                } else {
                    0u64
                }).wrapping_add(n),
            ),
            final(self).gauges() == old(self).gauges(),
            final(self).help() == old(self).help(),
    {
        let cur = self.counter_get(key);
        let k = crate::text::to_owned_string(key);
        self.counters.insert(k, cur.wrapping_add(n));
    }

    /// Add one to a counter.
    pub fn counter_inc(&mut self, key: &str)
        requires
            old(self).wf(),
        ensures
            final(self).wf(),
            final(self).counters() == old(self).counters().insert(
                key@,
                (if old(self).counters().dom().contains(key@) {
                    old(self).counters()[key@]
                } else {
                    0u64
                }).wrapping_add(1),
            ),
            final(self).gauges() == old(self).gauges(),
            final(self).help() == old(self).help(),
    {
        self.counter_add(key, 1);
    }

    /// Add one to the counter of `name` with `labels`.
    pub fn counter_with_labels(&mut self, name: &str, labels: &[(&str, &str)])
        requires
            old(self).wf(),
        ensures
            final(self).wf(),
            ({
                let k = encoded(name@, label_views(labels@));
                final(self).counters() == old(self).counters().insert(
                    k,
                    (if old(self).counters().dom().contains(k) {
                        old(self).counters()[k]
                    } else {
                        0u64
                    }).wrapping_add(1),
                )
            }),
            final(self).gauges() == old(self).gauges(),
    {
        let key = encode_key(name, labels);
        self.counter_inc(key.as_str());
    }

    /// Add `n` to the counter of `name` with `labels`.
    pub fn counter_add_with_labels(&mut self, name: &str, labels: &[(&str, &str)], n: u64)
        requires
            old(self).wf(),
        ensures
            final(self).wf(),
            ({
                let k = encoded(name@, label_views(labels@));
                final(self).counters() == old(self).counters().insert(
                    k,
                    (if old(self).counters().dom().contains(k) {
                        old(self).counters()[k]
                    } else {
                        0u64
                    }).wrapping_add(n),
                )
            }),
            final(self).gauges() == old(self).gauges(),
    {
        let key = encode_key(name, labels);
        self.counter_add(key.as_str(), n);
    }

    /// The value of a gauge; zero when it was never touched.
    pub fn gauge_get(&self, key: &str) -> (v: i64)
        requires
            self.wf(),
        ensures
            v == if self.gauges().dom().contains(key@) {
                self.gauges()[key@]
            } else {
                0
            },
    {
        let k = crate::text::to_owned_string(key);
        match self.gauges.get(&k) {
            Some(v) => *v,
            None => 0,
        }
    }

    /// Set a gauge.
    pub fn gauge_set(&mut self, key: &str, value: i64)
        requires
            old(self).wf(),
        ensures
            final(self).wf(),
            final(self).gauges() == old(self).gauges().insert(key@, value),
            final(self).counters() == old(self).counters(),
            final(self).help() == old(self).help(),
    {
        let k = crate::text::to_owned_string(key);
        self.gauges.insert(k, value);
    }

    /// Add `delta` to a gauge (wrapping around), creating it at zero.
    pub fn gauge_add(&mut self, key: &str, delta: i64)
        requires
            old(self).wf(),
        ensures
            final(self).wf(),
            final(self).gauges() == old(self).gauges().insert(
                key@,
                (if old(self).gauges().dom().contains(key@) {
                    old(self).gauges()[key@]
                } else {
                    0i64
                }).wrapping_add(delta),
            ),
            final(self).counters() == old(self).counters(),
            final(self).help() == old(self).help(),
    {
        let cur = self.gauge_get(key);
        self.gauge_set(key, cur.wrapping_add(delta));
    }

    /// Add one to a gauge.
    pub fn gauge_inc(&mut self, key: &str)
        requires
            old(self).wf(),
        ensures
            final(self).wf(),
            final(self).gauges() == old(self).gauges().insert(
                key@,
                (if old(self).gauges().dom().contains(key@) {
                    old(self).gauges()[key@]
                } else {
                    0i64
                }).wrapping_add(1),
            ),
            final(self).counters() == old(self).counters(),
    {
        self.gauge_add(key, 1);
    }

    /// Take one from a gauge.
    pub fn gauge_dec(&mut self, key: &str)
        requires
            old(self).wf(),
        ensures
            final(self).wf(),
            final(self).gauges() == old(self).gauges().insert(
                key@,
                (if old(self).gauges().dom().contains(key@) {
                    old(self).gauges()[key@]
                } else {
                    0i64
                }).wrapping_add(-1i64),
            ),
            final(self).counters() == old(self).counters(),
    {
        self.gauge_add(key, -1);
    }

    /// The Prometheus text of the counters and gauges: for each kind, the
    /// families in order of base name, each with its help line (when known)
    /// and type line, then its `key value` lines in key order, families
    /// separated by blank lines.
    pub fn export_prometheus(&self) -> (r: String)
        requires
            self.wf(),
        ensures
            r@ == export_section(self.counter_entries(), "counter"@, self.help()) + export_section(
                self.gauge_entries(),
                "gauge"@,
                self.help(),
            ),
    {
        let mut out: Vec<char> = Vec::new();
        let mut ce: Vec<(Vec<char>, Vec<char>)> = Vec::new();
        let mut i: usize = 0;
        while i < self.counters.size()
            invariant
                self.wf(),
                i <= self.counters.key_views().len(),
                entry_views(ce@) == self.counter_entries().take(i as int),
            decreases self.counters.key_views().len() - i,
        {
            let k = chars_of(self.counters.key_at(i).as_str());
            let v = decimal_chars(*self.counters.val_at(i));
            let ghost d = entry_views(ce@);
            let ghost item = (k@, v@);
            assert(item == self.counter_entries()[i as int]);
            ce.push((k, v));
            i = i + 1;
            assert(entry_views(ce@) =~= d.push(item));
            assert(self.counter_entries().take(i as int) =~= self.counter_entries().take(i - 1).push(item));
        }
        proof {
            self.counters.lemma_map();
        }
        assert(self.counter_entries().take(self.counters.key_views().len() as int) =~= self.counter_entries());
        export_entries(&ce, "counter", &self.help, &mut out);
        let mut ge: Vec<(Vec<char>, Vec<char>)> = Vec::new();
        let mut j: usize = 0;
        while j < self.gauges.size()
            invariant
                self.wf(),
                j <= self.gauges.key_views().len(),
                entry_views(ge@) == self.gauge_entries().take(j as int),
            decreases self.gauges.key_views().len() - j,
        {
            let k = chars_of(self.gauges.key_at(j).as_str());
            let v = signed_decimal_chars(*self.gauges.val_at(j));
            let ghost d = entry_views(ge@);
            let ghost item = (k@, v@);
            assert(item == self.gauge_entries()[j as int]);
            ge.push((k, v));
            j = j + 1;
            assert(entry_views(ge@) =~= d.push(item));
            assert(self.gauge_entries().take(j as int) =~= self.gauge_entries().take(j - 1).push(item));
        }
        proof {
            self.gauges.lemma_map();
        }
        assert(self.gauge_entries().take(self.gauges.key_views().len() as int) =~= self.gauge_entries());
        export_entries(&ge, "gauge", &self.help, &mut out);
        string_from_chars(out.as_slice())
    }
}

impl Default for MetricsRegistry {
    /// An empty registry.
    fn default() -> (r: MetricsRegistry)
        ensures
            r.wf(),
            r.counters() == Map::<Seq<char>, u64>::empty(),
    {
        MetricsRegistry::new()
    }
}

// ---------------------------------------------------------------------------
// Well-known metric names
// ---------------------------------------------------------------------------

/// Total API requests, labeled by method, path and status.
pub const REQUESTS_TOTAL: &'static str = "punch_requests_total";

/// Total LLM calls, labeled by provider and model.
pub const LLM_CALLS_TOTAL: &'static str = "punch_llm_calls_total";

/// Total tool executions, labeled by tool name and result.
pub const TOOL_EXECUTIONS_TOTAL: &'static str = "punch_tool_executions_total";

/// Fighters spawned.
pub const FIGHTER_SPAWNS_TOTAL: &'static str = "punch_fighter_spawns_total";

/// Gorilla runs.
pub const GORILLA_RUNS_TOTAL: &'static str = "punch_gorilla_runs_total";

/// Messages processed.
pub const MESSAGES_TOTAL: &'static str = "punch_messages_total";

/// Errors by type.
pub const ERRORS_TOTAL: &'static str = "punch_errors_total";

/// Total input tokens consumed.
pub const TOKENS_INPUT_TOTAL: &'static str = "punch_tokens_input_total";

/// Total output tokens consumed.
pub const TOKENS_OUTPUT_TOTAL: &'static str = "punch_tokens_output_total";

/// Currently active fighters.
pub const ACTIVE_FIGHTERS: &'static str = "punch_active_fighters";

/// Currently active gorillas.
pub const ACTIVE_GORILLAS: &'static str = "punch_active_gorillas";

/// Open bout sessions.
pub const ACTIVE_BOUTS: &'static str = "punch_active_bouts";

/// Total memory entries.
pub const MEMORY_ENTRIES: &'static str = "punch_memory_entries";

/// Task queue depth.
pub const QUEUE_DEPTH: &'static str = "punch_queue_depth";

/// API request latency.
pub const REQUEST_DURATION_SECONDS: &'static str = "punch_request_duration_seconds";

/// LLM call latency.
pub const LLM_LATENCY_SECONDS: &'static str = "punch_llm_latency_seconds";

/// Tool execution time.
pub const TOOL_EXECUTION_SECONDS: &'static str = "punch_tool_execution_seconds";

/// Register the well-known metric families with their help texts.
pub fn register_default_metrics(registry: &mut MetricsRegistry)
    requires
        old(registry).wf(),
    ensures
        final(registry).wf(),
        final(registry).counters() == old(registry).counters(),
        final(registry).gauges() == old(registry).gauges(),
        final(registry).help() == old(registry).help().insert(REQUESTS_TOTAL@, "Total API requests"@).insert(LLM_CALLS_TOTAL@, "Total LLM calls"@).insert(TOOL_EXECUTIONS_TOTAL@, "Total tool executions"@).insert(FIGHTER_SPAWNS_TOTAL@, "Total fighters spawned"@).insert(GORILLA_RUNS_TOTAL@, "Total gorilla executions"@).insert(MESSAGES_TOTAL@, "Total messages processed"@).insert(ERRORS_TOTAL@, "Total errors by type"@).insert(TOKENS_INPUT_TOTAL@, "Total input tokens consumed"@).insert(TOKENS_OUTPUT_TOTAL@, "Total output tokens consumed"@).insert(ACTIVE_FIGHTERS@, "Currently active fighters"@).insert(ACTIVE_GORILLAS@, "Currently rampaging gorillas"@).insert(ACTIVE_BOUTS@, "Open bout sessions"@).insert(MEMORY_ENTRIES@, "Total memory entries"@).insert(QUEUE_DEPTH@, "Task queue depth"@).insert(REQUEST_DURATION_SECONDS@, "API request latency"@).insert(LLM_LATENCY_SECONDS@, "LLM call latency"@).insert(TOOL_EXECUTION_SECONDS@, "Tool execution time"@),
        final(registry).types() == old(registry).types().insert(REQUESTS_TOTAL@, "counter"@).insert(LLM_CALLS_TOTAL@, "counter"@).insert(TOOL_EXECUTIONS_TOTAL@, "counter"@).insert(FIGHTER_SPAWNS_TOTAL@, "counter"@).insert(GORILLA_RUNS_TOTAL@, "counter"@).insert(MESSAGES_TOTAL@, "counter"@).insert(ERRORS_TOTAL@, "counter"@).insert(TOKENS_INPUT_TOTAL@, "counter"@).insert(TOKENS_OUTPUT_TOTAL@, "counter"@).insert(ACTIVE_FIGHTERS@, "gauge"@).insert(ACTIVE_GORILLAS@, "gauge"@).insert(ACTIVE_BOUTS@, "gauge"@).insert(MEMORY_ENTRIES@, "gauge"@).insert(QUEUE_DEPTH@, "gauge"@).insert(REQUEST_DURATION_SECONDS@, "histogram"@).insert(LLM_LATENCY_SECONDS@, "histogram"@).insert(TOOL_EXECUTION_SECONDS@, "histogram"@),
{
    registry.register_counter(REQUESTS_TOTAL, "Total API requests");
    registry.register_counter(LLM_CALLS_TOTAL, "Total LLM calls");
    registry.register_counter(TOOL_EXECUTIONS_TOTAL, "Total tool executions");
    registry.register_counter(FIGHTER_SPAWNS_TOTAL, "Total fighters spawned");
    registry.register_counter(GORILLA_RUNS_TOTAL, "Total gorilla executions");
    registry.register_counter(MESSAGES_TOTAL, "Total messages processed");
    registry.register_counter(ERRORS_TOTAL, "Total errors by type");
    registry.register_counter(TOKENS_INPUT_TOTAL, "Total input tokens consumed");
    registry.register_counter(TOKENS_OUTPUT_TOTAL, "Total output tokens consumed");
    registry.register_gauge(ACTIVE_FIGHTERS, "Currently active fighters");
    registry.register_gauge(ACTIVE_GORILLAS, "Currently rampaging gorillas");
    registry.register_gauge(ACTIVE_BOUTS, "Open bout sessions");
    registry.register_gauge(MEMORY_ENTRIES, "Total memory entries");
    registry.register_gauge(QUEUE_DEPTH, "Task queue depth");
    registry.register_histogram(REQUEST_DURATION_SECONDS, "API request latency");
    registry.register_histogram(LLM_LATENCY_SECONDS, "LLM call latency");
    registry.register_histogram(TOOL_EXECUTION_SECONDS, "Tool execution time");
}

} // verus!
