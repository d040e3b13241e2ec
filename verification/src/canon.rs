//! Canonical ordering of JSON objects.
//!
//! The same logical call descriptor must produce byte-identical keys in both
//! passes of a script, regardless of the order in which each pass happened
//! to list object keys. Canonicalization sorts every object's pairs by key,
//! recursively; this module defines that sorted form, proves it is the same
//! for any two reorder-equivalent values, and computes it executably.

use vstd::prelude::*;

use crate::json::{distinct_keys, equiv, JsonValue, JsonView};

verus! {

/// A key/value pair of an object, at the model level.
pub type KvPair = (Seq<char>, JsonView);

/// Lexicographic order on keys, by character code point. This is a total
/// order: the proofs below establish reflexivity through antisymmetry.
pub open spec fn key_le(a: Seq<char>, b: Seq<char>) -> bool
    decreases a.len(),
{
    if a.len() == 0 {
        true
    } else if b.len() == 0 {
        false
    } else if a[0] == b[0] {
        key_le(a.drop_first(), b.drop_first())
    } else {
        (a[0] as int) < (b[0] as int)
    }
}

pub proof fn lemma_key_le_total(a: Seq<char>, b: Seq<char>)
    ensures
        key_le(a, b) || key_le(b, a),
    decreases a.len(),
{
    if a.len() != 0 && b.len() != 0 {
        if a[0] == b[0] {
            lemma_key_le_total(a.drop_first(), b.drop_first());
        } else {
            assert((a[0] as int) != (b[0] as int));
        }
    }
}

pub proof fn lemma_key_le_antisymmetric(a: Seq<char>, b: Seq<char>)
    requires
        key_le(a, b),
        key_le(b, a),
    ensures
        a == b,
    decreases a.len(),
{
    if a.len() == 0 {
        assert(b.len() == 0);
        assert(a =~= b);
    } else {
        assert(b.len() != 0);
        if a[0] == b[0] {
            lemma_key_le_antisymmetric(a.drop_first(), b.drop_first());
            assert(a =~= seq![a[0]] + a.drop_first());
            assert(b =~= seq![b[0]] + b.drop_first());
        } else {
            assert((a[0] as int) < (b[0] as int) && (b[0] as int) < (a[0] as int));
            assert(false);
        }
    }
}

pub proof fn lemma_key_le_transitive(a: Seq<char>, b: Seq<char>, c: Seq<char>)
    requires
        key_le(a, b),
        key_le(b, c),
    ensures
        key_le(a, c),
    decreases a.len(),
{
    if a.len() != 0 && b.len() != 0 && c.len() != 0 {
        if a[0] == b[0] && b[0] == c[0] {
            lemma_key_le_transitive(a.drop_first(), b.drop_first(), c.drop_first());
        }
    }
}

/// The pair sequence is ordered by key.
pub open spec fn sorted_pairs(s: Seq<KvPair>) -> bool {
    forall|i: int, j: int| 0 <= i < j < s.len() ==> key_le(#[trigger] s[i].0, #[trigger] s[j].0)
}

/// Insert a pair into a key-ordered sequence, after every pair whose key is
/// less than or equal to its own.
pub open spec fn insert_pair(s: Seq<KvPair>, p: KvPair) -> Seq<KvPair>
    decreases s.len(),
{
    if s.len() == 0 {
        seq![p]
    } else if key_le(s[0].0, p.0) {
        seq![s[0]] + insert_pair(s.drop_first(), p)
    } else {
        seq![p] + s
    }
}

/// Sort a pair sequence by key, inserting the pairs in order.
pub open spec fn sort_pairs(s: Seq<KvPair>) -> Seq<KvPair>
    decreases s.len(),
{
    if s.len() == 0 {
        Seq::empty()
    } else {
        insert_pair(sort_pairs(s.drop_last()), s.last())
    }
}

/// Placing one pair in front of a sequence adds it to the multiset.
pub proof fn lemma_cons_multiset(p: KvPair, s: Seq<KvPair>)
    ensures
        (seq![p] + s).to_multiset() == s.to_multiset().insert(p),
{
    broadcast use vstd::seq_lib::group_to_multiset_ensures;

    assert(s.insert(0, p) =~= seq![p] + s);
}

pub proof fn lemma_insert_pair_multiset(s: Seq<KvPair>, p: KvPair)
    ensures
        insert_pair(s, p).to_multiset() == s.to_multiset().insert(p),
        insert_pair(s, p).len() == s.len() + 1,
    decreases s.len(),
{
    broadcast use vstd::seq_lib::group_to_multiset_ensures;
    broadcast use vstd::multiset::group_multiset_axioms;

    if s.len() == 0 {
        assert(insert_pair(s, p) =~= seq![p] + s);
        lemma_cons_multiset(p, s);
    } else if key_le(s[0].0, p.0) {
        lemma_insert_pair_multiset(s.drop_first(), p);
        let rest = insert_pair(s.drop_first(), p);
        assert(insert_pair(s, p) =~= seq![s[0]] + rest);
        lemma_cons_multiset(s[0], rest);
        lemma_cons_multiset(s[0], s.drop_first());
        assert(s =~= seq![s[0]] + s.drop_first());
        assert(s.drop_first().to_multiset().insert(p).insert(s[0])
            =~= s.drop_first().to_multiset().insert(s[0]).insert(p));
    } else {
        assert(insert_pair(s, p) =~= seq![p] + s);
        lemma_cons_multiset(p, s);
    }
}

pub proof fn lemma_insert_pair_sorted(s: Seq<KvPair>, p: KvPair)
    requires
        sorted_pairs(s),
    ensures
        sorted_pairs(insert_pair(s, p)),
    decreases s.len(),
{
    broadcast use vstd::seq_lib::group_to_multiset_ensures;
    broadcast use vstd::multiset::group_multiset_axioms;

    if s.len() == 0 {
    } else if key_le(s[0].0, p.0) {
        assert(sorted_pairs(s.drop_first()));
        lemma_insert_pair_sorted(s.drop_first(), p);
        let rest = insert_pair(s.drop_first(), p);
        lemma_insert_pair_multiset(s.drop_first(), p);
        let r = seq![s[0]] + rest;
        assert(insert_pair(s, p) =~= r);
        // every element of `rest` is a former element of s.drop_first(), or p;
        // either way s[0].0 is key_le to its key
        assert forall|j: int| 1 <= j < r.len() implies key_le(r[0].0, r[j].0) by {
            assert(rest.to_multiset().contains(rest[j - 1]));
            assert(rest[j - 1] == p || s.drop_first().to_multiset().contains(rest[j - 1]));
            if rest[j - 1] == p {
                assert(key_le(s[0].0, p.0));
            } else {
                assert(s.drop_first().contains(rest[j - 1]));
                let k = choose|k: int|
                    0 <= k < s.drop_first().len() && s.drop_first()[k] == rest[j - 1];
                assert(s[k + 1] == rest[j - 1]);
                assert(key_le(s[0].0, s[k + 1].0));
            }
        }
        assert forall|i: int, j: int| 0 <= i < j < r.len() implies key_le(r[i].0, r[j].0) by {
            if i == 0 {
            } else {
                assert(r[i] == rest[i - 1] && r[j] == rest[j - 1]);
                assert(key_le(rest[i - 1].0, rest[j - 1].0));
            }
        }
    } else {
        let r = seq![p] + s;
        assert(insert_pair(s, p) =~= r);
        lemma_key_le_total(s[0].0, p.0);
        assert(key_le(p.0, s[0].0));
        assert forall|i: int, j: int| 0 <= i < j < r.len() implies key_le(r[i].0, r[j].0) by {
            if i == 0 {
                if j >= 1 {
                    assert(r[j] == s[j - 1]);
                    if j == 1 {
                    } else {
                        assert(key_le(s[0].0, s[j - 1].0));
                        lemma_key_le_transitive(p.0, s[0].0, s[j - 1].0);
                    }
                }
            } else {
                assert(r[i] == s[i - 1] && r[j] == s[j - 1]);
                assert(key_le(s[i - 1].0, s[j - 1].0));
            }
        }
    }
}

pub proof fn lemma_sort_pairs_ensures(s: Seq<KvPair>)
    ensures
        sorted_pairs(sort_pairs(s)),
        sort_pairs(s).to_multiset() == s.to_multiset(),
        sort_pairs(s).len() == s.len(),
    decreases s.len(),
{
    broadcast use vstd::seq_lib::group_to_multiset_ensures;
    broadcast use vstd::multiset::group_multiset_axioms;

    if s.len() == 0 {
        assert(s =~= sort_pairs(s));
    } else {
        lemma_sort_pairs_ensures(s.drop_last());
        lemma_insert_pair_sorted(sort_pairs(s.drop_last()), s.last());
        lemma_insert_pair_multiset(sort_pairs(s.drop_last()), s.last());
        assert(s =~= s.drop_last().push(s.last()));
        assert(s.drop_last().push(s.last()).to_multiset() =~= s.drop_last().to_multiset().insert(
            s.last(),
        ));
    }
}

/// Two key-ordered pair sequences with the same pairs and no repeated keys
/// are identical.
pub proof fn lemma_sorted_pairs_unique(x: Seq<KvPair>, y: Seq<KvPair>)
    requires
        sorted_pairs(x),
        sorted_pairs(y),
        distinct_keys(x),
        distinct_keys(y),
        x.to_multiset() == y.to_multiset(),
    ensures
        x == y,
    decreases x.len(),
{
    broadcast use vstd::seq_lib::group_to_multiset_ensures;
    broadcast use vstd::multiset::group_multiset_axioms;

    x.to_multiset_ensures();
    y.to_multiset_ensures();
    if x.len() == 0 {
        assert(y.to_multiset().len() == 0);
        assert(x =~= y);
    } else {
        assert(y.len() == x.len());
        assert(x.to_multiset().contains(x[0]));
        assert(y.contains(x[0]));
        let jx = choose|j: int| 0 <= j < y.len() && y[j] == x[0];
        assert(y.to_multiset().contains(y[0]));
        assert(x.contains(y[0]));
        let jy = choose|j: int| 0 <= j < x.len() && x[j] == y[0];
        // keys of the two heads are mutually key_le, hence equal
        assert(key_le(y[0].0, x[0].0)) by {
            if jx == 0 {
                lemma_key_le_total(y[0].0, x[0].0);
            } else {
                assert(key_le(y[0].0, y[jx].0));
            }
        }
        assert(key_le(x[0].0, y[0].0)) by {
            if jy == 0 {
                lemma_key_le_total(x[0].0, y[0].0);
            } else {
                assert(key_le(x[0].0, x[jy].0));
            }
        }
        lemma_key_le_antisymmetric(x[0].0, y[0].0);
        assert(x[0].0 == y[0].0);
        // distinct keys force the heads to be the same pair
        assert(y[jx].0 == y[0].0);
        assert(jx == 0);
        assert(x[0] == y[0]);
        // drop the heads and recurse
        assert(x.remove(0) =~= x.drop_first());
        assert(y.remove(0) =~= y.drop_first());
        assert(x.drop_first().to_multiset() == x.to_multiset().remove(x[0]));
        assert(y.drop_first().to_multiset() == y.to_multiset().remove(y[0]));
        assert(sorted_pairs(x.drop_first())) by {
            assert(forall|i: int, j: int|
                0 <= i < j < x.drop_first().len() ==> key_le(
                    #[trigger] x.drop_first()[i].0,
                    #[trigger] x.drop_first()[j].0,
                ));
        }
        assert(sorted_pairs(y.drop_first()));
        assert(distinct_keys(x.drop_first()));
        assert(distinct_keys(y.drop_first()));
        lemma_sorted_pairs_unique(x.drop_first(), y.drop_first());
        assert(x =~= seq![x[0]] + x.drop_first());
        assert(y =~= seq![y[0]] + y.drop_first());
    }
}

/// The canonical form of a JSON value: scalars unchanged, array elements
/// canonicalized in place, and every object's pairs canonicalized and then
/// ordered by key. Two passes that construct the same logical descriptor in
/// different key orders agree on this form, and hence on its serialization.
pub open spec fn canon(v: JsonView) -> JsonView
    decreases v,
{
    match v {
        JsonView::Null => v,
        JsonView::Bool(_) => v,
        JsonView::Int(_) => v,
        JsonView::Num(_) => v,
        JsonView::Str(_) => v,
        JsonView::Arr(items) => JsonView::Arr(canon_items(items)),
        JsonView::Obj(pairs) => JsonView::Obj(sort_pairs(canon_pairs(pairs))),
    }
}

/// Each array element in canonical form.
pub open spec fn canon_items(items: Seq<JsonView>) -> Seq<JsonView>
    decreases items,
{
    Seq::new(
        items.len(),
        |i: int|
            if 0 <= i < items.len() {
                canon(items[i])
            } else {
                JsonView::Null
            },
    )
}

/// Each pair's value in canonical form; keys and order unchanged.
pub open spec fn canon_pairs(ps: Seq<KvPair>) -> Seq<KvPair>
    decreases ps,
{
    Seq::new(
        ps.len(),
        |i: int|
            if 0 <= i < ps.len() {
                (ps[i].0, canon(ps[i].1))
            } else {
                (Seq::<char>::empty(), JsonView::Null)
            },
    )
}

/// Key distinctness implies that no pair occurs twice.
pub proof fn lemma_distinct_keys_no_duplicates(s: Seq<KvPair>)
    requires
        distinct_keys(s),
    ensures
        s.no_duplicates(),
{
}

/// A permutation of a pair sequence with distinct keys again has distinct
/// keys.
pub proof fn lemma_distinct_keys_permutation(s1: Seq<KvPair>, s2: Seq<KvPair>)
    requires
        distinct_keys(s1),
        s1.to_multiset() == s2.to_multiset(),
    ensures
        distinct_keys(s2),
{
    broadcast use vstd::seq_lib::group_to_multiset_ensures;
    broadcast use vstd::multiset::group_multiset_axioms;

    lemma_distinct_keys_no_duplicates(s1);
    s1.lemma_multiset_has_no_duplicates();
    s2.lemma_multiset_has_no_duplicates_conv();
    assert(s2.no_duplicates());
    assert forall|i: int, j: int| 0 <= i < j < s2.len() implies s2[i].0 != s2[j].0 by {
        if s2[i].0 == s2[j].0 {
            assert(s2[i] != s2[j]);
            assert(s2.contains(s2[i]) && s2.contains(s2[j]));
            assert(s2.to_multiset().count(s2[i]) > 0 && s2.to_multiset().count(s2[j]) > 0);
            assert(s1.to_multiset().count(s2[i]) > 0 && s1.to_multiset().count(s2[j]) > 0);
            assert(s1.contains(s2[i]) && s1.contains(s2[j]));
            let k = choose|k: int| 0 <= k < s1.len() && s1[k] == s2[i];
            let l = choose|l: int| 0 <= l < s1.len() && s1[l] == s2[j];
            assert(k != l);
            assert(s1[k].0 == s1[l].0);
            assert(false);
        }
    }
}

/// Reorder-equivalent values have the same canonical form. This is the
/// determinism of the canonical key encoder: however a pass happened to
/// order the keys of each object in a descriptor, the canonical form — and
/// with it the serialized key — comes out the same.
pub proof fn lemma_equiv_canon(a: JsonView, b: JsonView)
    requires
        equiv(a, b),
    ensures
        canon(a) == canon(b),
    decreases a, b,
{
    broadcast use vstd::seq_lib::group_to_multiset_ensures;
    broadcast use vstd::multiset::group_multiset_axioms;

    match (a, b) {
        (JsonView::Arr(x), JsonView::Arr(y)) => {
            assert forall|i: int| 0 <= i < x.len() implies canon(x[i]) == canon(y[i]) by {
                assert(equiv(x[i], y[i]));
                lemma_equiv_canon(x[i], y[i]);
            }
            assert(canon_items(x) =~= canon_items(y));
        },
        (JsonView::Obj(x), JsonView::Obj(y)) => {
            let cx = canon_pairs(x);
            let cy = canon_pairs(y);
            assert(distinct_keys(cx));
            assert(distinct_keys(cy));
            lemma_distinct_keys_no_duplicates(cx);
            lemma_distinct_keys_no_duplicates(cy);
            cx.lemma_multiset_has_no_duplicates();
            cy.lemma_multiset_has_no_duplicates();
            assert forall|i: int| 0 <= i < cx.len() implies cy.contains(cx[i]) by {
                let j = choose|j: int|
                    0 <= j < y.len() && y[j].0 == x[i].0 && equiv(x[i].1, y[j].1);
                lemma_equiv_canon(x[i].1, y[j].1);
                assert(cy[j] == cx[i]);
            }
            assert forall|j: int| 0 <= j < cy.len() implies cx.contains(cy[j]) by {
                let i = choose|i: int|
                    0 <= i < x.len() && x[i].0 == y[j].0 && equiv(x[i].1, y[j].1);
                lemma_equiv_canon(x[i].1, y[j].1);
                assert(cx[i] == cy[j]);
            }
            assert forall|e: KvPair| true implies cx.to_multiset().count(e) == cy.to_multiset().count(
                e,
            ) by {
                if cx.to_multiset().count(e) > 0 {
                    assert(cx.contains(e));
                    let i = choose|i: int| 0 <= i < cx.len() && cx[i] == e;
                    assert(cy.contains(e));
                    assert(cx.to_multiset().count(e) == 1 && cy.to_multiset().count(e) == 1);
                } else if cy.to_multiset().count(e) > 0 {
                    assert(cy.contains(e));
                    let j = choose|j: int| 0 <= j < cy.len() && cy[j] == e;
                    assert(cx.contains(e));
                    assert(cx.to_multiset().count(e) > 0);
                    assert(false);
                }
            }
            assert(cx.to_multiset() =~= cy.to_multiset());
            lemma_sort_pairs_ensures(cx);
            lemma_sort_pairs_ensures(cy);
            lemma_distinct_keys_permutation(cx, sort_pairs(cx));
            lemma_distinct_keys_permutation(cy, sort_pairs(cy));
            lemma_sorted_pairs_unique(sort_pairs(cx), sort_pairs(cy));
        },
        _ => {},
    }
}

/// Where `insert_pair` places the new pair: at the first position whose key
/// is not below-or-equal the new key.
pub proof fn lemma_insert_pair_at(s: Seq<KvPair>, p: KvPair, j: int)
    requires
        0 <= j <= s.len(),
        forall|k: int| 0 <= k < j ==> key_le(#[trigger] s[k].0, p.0),
        j < s.len() ==> !key_le(s[j].0, p.0),
    ensures
        insert_pair(s, p) == s.insert(j, p),
    decreases s.len(),
{
    if j == 0 {
        if s.len() == 0 {
            assert(insert_pair(s, p) =~= s.insert(0, p));
        } else {
            assert(!key_le(s[0].0, p.0));
            assert(seq![p] + s =~= s.insert(0, p));
        }
    } else {
        assert(key_le(s[0].0, p.0));
        lemma_insert_pair_at(s.drop_first(), p, j - 1);
        assert(seq![s[0]] + s.drop_first().insert(j - 1, p) =~= s.insert(j, p));
    }
}

/// Lexicographic comparison of two strings, agreeing with `key_le` on the
/// character sequences.
pub fn str_le(a: &str, b: &str) -> (r: bool)
    ensures
        r == key_le(a@, b@),
{
    let alen = a.unicode_len();
    let blen = b.unicode_len();
    let mut i: usize = 0;
    proof {
        assert(a@.skip(0) =~= a@);
        assert(b@.skip(0) =~= b@);
    }
    loop
        invariant
            alen == a@.len(),
            blen == b@.len(),
            0 <= i <= alen,
            i <= blen,
            key_le(a@, b@) == key_le(a@.skip(i as int), b@.skip(i as int)),
        decreases alen - i,
    {
        if i == alen {
            proof {
                assert(a@.skip(i as int).len() == 0);
            }
            return true;
        }
        if i == blen {
            proof {
                assert(b@.skip(i as int).len() == 0 && a@.skip(i as int).len() > 0);
            }
            return false;
        }
        let ca = a.get_char(i);
        let cb = b.get_char(i);
        proof {
            assert(a@.skip(i as int)[0] == a@[i as int]);
            assert(b@.skip(i as int)[0] == b@[i as int]);
        }
        if ca != cb {
            return (ca as u32) < (cb as u32);
        }
        proof {
            assert(a@.skip(i as int).drop_first() =~= a@.skip(i + 1));
            assert(b@.skip(i as int).drop_first() =~= b@.skip(i + 1));
        }
        i += 1;
    }
}

/// Compute the canonical form of a value: the result models exactly
/// `canon` of the input's model.
pub fn canonicalize(v: &JsonValue) -> (r: JsonValue)
    ensures
        r.view() == canon(v.view()),
    decreases *v,
{
    match v {
        JsonValue::Null => JsonValue::Null,
        JsonValue::Bool(b) => JsonValue::Bool(*b),
        JsonValue::Int(i) => JsonValue::Int(*i),
        JsonValue::Num(t) => JsonValue::Num(crate::json::clone_string(t)),
        JsonValue::Str(s) => JsonValue::Str(crate::json::clone_string(s)),
        JsonValue::Arr(items) => {
            let mut out: Vec<JsonValue> = Vec::new();
            let mut i: usize = 0;
            while i < items.len()
                invariant
                    *v == JsonValue::Arr(*items),
                    0 <= i <= items@.len(),
                    out@.len() == i,
                    forall|k: int| 0 <= k < i ==> out@[k].view() == canon(items@[k].view()),
                decreases items@.len() - i,
            {
                proof {
                    assert(*items == v->Arr_0);
                    assert(decreases_to!(*v => v->Arr_0));
                    assert(decreases_to!(*items => items@[i as int]));
                    assert(decreases_to!(*v => items@[i as int]));
                }
                let item = canonicalize(&items[i]);
                out.push(item);
                i += 1;
            }
            proof {
                assert(JsonValue::items_view(out) =~= canon_items(
                    JsonValue::items_view(*items),
                ));
            }
            JsonValue::Arr(out)
        },
        JsonValue::Obj(pairs) => {
            let ghost cp = canon_pairs(JsonValue::pairs_view(*pairs));
            let mut out: Vec<(String, JsonValue)> = Vec::new();
            let mut i: usize = 0;
            while i < pairs.len()
                invariant
                    *v == JsonValue::Obj(*pairs),
                    cp == canon_pairs(JsonValue::pairs_view(*pairs)),
                    cp.len() == pairs@.len(),
                    0 <= i <= pairs@.len(),
                    JsonValue::pairs_view(out) == sort_pairs(cp.take(i as int)),
                    out@.len() == i,
                decreases pairs@.len() - i,
            {
                proof {
                    assert(*pairs == v->Obj_0);
                    assert(decreases_to!(*v => v->Obj_0));
                    assert(decreases_to!(*pairs => pairs@[i as int]));
                    assert(decreases_to!(*v => pairs@[i as int].1));
                }
                let cv = canonicalize(&pairs[i].1);
                let key = crate::json::clone_string(&pairs[i].0);
                let ghost p = (key@, cv.view());
                let ghost old_out = JsonValue::pairs_view(out);
                let mut j: usize = 0;
                while j < out.len() && str_le(out[j].0.as_str(), key.as_str())
                    invariant
                        old_out == JsonValue::pairs_view(out),
                        old_out.len() == out@.len(),
                        p == (key@, cv.view()),
                        0 <= j <= out@.len(),
                        forall|k: int| 0 <= k < j ==> key_le(#[trigger] old_out[k].0, p.0),
                    decreases out@.len() - j,
                {
                    proof {
                        assert(old_out[j as int].0 == out@[j as int].0@);
                    }
                    j += 1;
                }
                proof {
                    assert(j < out@.len() ==> !key_le(old_out[j as int].0, p.0));
                    lemma_insert_pair_at(old_out, p, j as int);
                }
                out.insert(j, (key, cv));
                proof {
                    assert(cp.take(i + 1).drop_last() =~= cp.take(i as int));
                    assert(cp.take(i + 1).last() == cp[i as int]);
                    assert(p == cp[i as int]);
                    assert(JsonValue::pairs_view(out) =~= old_out.insert(j as int, p));
                    assert(JsonValue::pairs_view(out) == sort_pairs(cp.take(i + 1)));
                }
                i += 1;
            }
            proof {
                assert(cp.take(pairs@.len() as int) =~= cp);
            }
            JsonValue::Obj(out)
        },
    }
}

} // verus!
