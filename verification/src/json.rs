//! The JSON data model of the core.
//!
//! Scripts exchange JSON values with the host: caller inputs flow in, call
//! descriptors and fetch outcomes flow through, and the final result flows
//! out. `JsonValue` is the executable representation; `JsonView` is its
//! mathematical model, used by every contract. Objects keep their pairs in
//! insertion order, so that canonical reordering is an explicit, specified
//! step rather than a side effect of the container. Numbers the core itself
//! produces are integers; a number merely carried through travels as its
//! decimal text, so nothing is narrowed on the way.

use vstd::prelude::*;

verus! {

/// Mathematical model of a JSON value. Object contents are modeled as an
/// ordered sequence of key/value pairs; key order is significant here, and
/// the canonical encoder is what removes that significance.
pub enum JsonView {
    Null,
    Bool(bool),
    Int(int),
    Num(Seq<char>),
    Str(Seq<char>),
    Arr(Seq<JsonView>),
    Obj(Seq<(Seq<char>, JsonView)>),
}

/// Executable JSON value. `Int` is for the numbers the core itself produces
/// and inspects (statuses, counters); `Num` carries any other JSON number
/// through as its decimal text, exactly as it appeared, so that fractional
/// and oversized values survive the trip and serialize verbatim.
#[derive(Debug, PartialEq, Eq)]
pub enum JsonValue {
    Null,
    Bool(bool),
    Int(i64),
    Num(String),
    Str(String),
    Arr(Vec<JsonValue>),
    Obj(Vec<(String, JsonValue)>),
}

impl JsonValue {
    /// The mathematical value this executable value represents.
    pub open spec fn view(self) -> JsonView
        decreases self,
    {
        match self {
            JsonValue::Null => JsonView::Null,
            JsonValue::Bool(b) => JsonView::Bool(b),
            JsonValue::Int(i) => JsonView::Int(i as int),
            JsonValue::Num(t) => JsonView::Num(t@),
            JsonValue::Str(s) => JsonView::Str(s@),
            JsonValue::Arr(items) => JsonView::Arr(
                Seq::new(
                    items@.len(),
                    |i: int|
                        if 0 <= i < items@.len() {
                            items@[i].view()
                        } else {
                            JsonView::Null
                        },
                ),
            ),
            JsonValue::Obj(pairs) => JsonView::Obj(
                Seq::new(
                    pairs@.len(),
                    |i: int|
                        if 0 <= i < pairs@.len() {
                            (pairs@[i].0@, pairs@[i].1.view())
                        } else {
                            (Seq::<char>::empty(), JsonView::Null)
                        },
                ),
            ),
        }
    }
    /// The pair sequence modeled by an object's pair vector.
    pub open spec fn pairs_view(pairs: Vec<(String, JsonValue)>) -> Seq<(Seq<char>, JsonView)> {
        JsonValue::Obj(pairs).view()->Obj_0
    }

    /// The element sequence modeled by an array's item vector.
    pub open spec fn items_view(items: Vec<JsonValue>) -> Seq<JsonView> {
        JsonValue::Arr(items).view()->Arr_0
    }
}

/// The binding a key has in an object's pair sequence: the last pair with
/// that key wins, matching how repeated keys behave in parsed JSON.
pub open spec fn obj_lookup(ps: Seq<(Seq<char>, JsonView)>, key: Seq<char>) -> Option<JsonView>
    decreases ps.len(),
{
    if ps.len() == 0 {
        None
    } else if ps.last().0 == key {
        Some(ps.last().1)
    } else {
        obj_lookup(ps.drop_last(), key)
    }
}

impl JsonView {
    /// Member lookup: the value bound to `key` if this is an object that
    /// binds it, `None` otherwise.
    pub open spec fn get(self, key: Seq<char>) -> Option<JsonView> {
        match self {
            JsonView::Obj(ps) => obj_lookup(ps, key),
            _ => None,
        }
    }
}

/// No two pairs of the sequence share a key.
pub open spec fn distinct_keys(ps: Seq<(Seq<char>, JsonView)>) -> bool {
    forall|i: int, j: int| 0 <= i < j < ps.len() ==> ps[i].0 != ps[j].0
}

/// `a` and `b` are the same logical JSON value up to the order in which each
/// object lists its keys: scalars equal, arrays pointwise equivalent, and
/// objects (with distinct keys on both sides) binding the same keys to
/// equivalent values. This is the sense in which two passes over a script
/// construct "the same" call descriptor.
pub open spec fn equiv(a: JsonView, b: JsonView) -> bool
    decreases a, b,
{
    match (a, b) {
        (JsonView::Null, JsonView::Null) => true,
        (JsonView::Bool(p), JsonView::Bool(q)) => p == q,
        (JsonView::Int(p), JsonView::Int(q)) => p == q,
        (JsonView::Num(p), JsonView::Num(q)) => p == q,
        (JsonView::Str(p), JsonView::Str(q)) => p == q,
        (JsonView::Arr(x), JsonView::Arr(y)) => {
            &&& x.len() == y.len()
            &&& forall|i: int| 0 <= i < x.len() ==> equiv(#[trigger] x[i], y[i])
        },
        (JsonView::Obj(x), JsonView::Obj(y)) => {
            &&& distinct_keys(x)
            &&& distinct_keys(y)
            &&& x.len() == y.len()
            &&& forall|i: int|
                0 <= i < x.len() ==> exists|j: int|
                    0 <= j < y.len() && (#[trigger] y[j]).0 == (#[trigger] x[i]).0 && equiv(
                        x[i].1,
                        y[j].1,
                    )
            &&& forall|j: int|
                0 <= j < y.len() ==> exists|i: int|
                    0 <= i < x.len() && (#[trigger] x[i]).0 == (#[trigger] y[j]).0 && equiv(
                        x[i].1,
                        y[j].1,
                    )
        },
        _ => false,
    }
}

/// Character-wise string comparison, so that contracts can speak of string
/// equality as equality of the character sequences.
pub fn str_eq(a: &str, b: &str) -> (r: bool)
    ensures
        r == (a@ == b@),
{
    let alen = a.unicode_len();
    let blen = b.unicode_len();
    if alen != blen {
        proof {
            assert(a@ != b@);
        }
        return false;
    }
    let mut i: usize = 0;
    while i < alen
        invariant
            alen == a@.len(),
            blen == b@.len(),
            alen == blen,
            0 <= i <= alen,
            forall|k: int| 0 <= k < i ==> a@[k] == b@[k],
        decreases alen - i,
    {
        if a.get_char(i) != b.get_char(i) {
            proof {
                assert(a@[i as int] != b@[i as int]);
            }
            return false;
        }
        i += 1;
    }
    proof {
        assert(a@ =~= b@);
    }
    true
}

/// Member lookup in an object's pair vector; the last pair with the key
/// wins, agreeing with `obj_lookup` on the views.
pub fn obj_get<'a>(pairs: &'a Vec<(String, JsonValue)>, key: &str) -> (r: Option<&'a JsonValue>)
    ensures
        match r {
            Some(v) => obj_lookup(JsonValue::pairs_view(*pairs), key@) == Some(v.view()),
            None => obj_lookup(JsonValue::pairs_view(*pairs), key@) is None,
        },
{
    let ghost ps = JsonValue::pairs_view(*pairs);
    let mut found: Option<&JsonValue> = None;
    let mut i: usize = 0;
    while i < pairs.len()
        invariant
            ps == JsonValue::pairs_view(*pairs),
            ps.len() == pairs@.len(),
            0 <= i <= pairs@.len(),
            forall|k: int| 0 <= k < ps.len() ==> ps[k] == (pairs@[k].0@, pairs@[k].1.view()),
            match found {
                Some(v) => obj_lookup(ps.take(i as int), key@) == Some(v.view()),
                None => obj_lookup(ps.take(i as int), key@) is None,
            },
        decreases pairs@.len() - i,
    {
        proof {
            assert(ps.take(i + 1).drop_last() =~= ps.take(i as int));
            assert(ps.take(i + 1).last() == ps[i as int]);
        }
        if str_eq(pairs[i].0.as_str(), key) {
            found = Some(&pairs[i].1);
        }
        i += 1;
    }
    proof {
        assert(ps.take(pairs@.len() as int) =~= ps);
    }
    found
}

/// Structural copy of a JSON value: the copy models the same `JsonView`.
pub fn clone_value(v: &JsonValue) -> (r: JsonValue)
    ensures
        r.view() == v.view(),
    decreases *v,
{
    match v {
        JsonValue::Null => JsonValue::Null,
        JsonValue::Bool(b) => JsonValue::Bool(*b),
        JsonValue::Int(i) => JsonValue::Int(*i),
        JsonValue::Num(t) => JsonValue::Num(clone_string(t)),
        JsonValue::Str(s) => JsonValue::Str(clone_string(s)),
        JsonValue::Arr(items) => {
            let mut out: Vec<JsonValue> = Vec::new();
            let mut i: usize = 0;
            while i < items.len()
                invariant
                    *v == JsonValue::Arr(*items),
                    0 <= i <= items@.len(),
                    out@.len() == i,
                    forall|k: int| 0 <= k < i ==> out@[k].view() == items@[k].view(),
                decreases items@.len() - i,
            {
                proof {
                    assert(*items == v->Arr_0);
                    assert(decreases_to!(*v => v->Arr_0));
                    assert(decreases_to!(*items => items@[i as int]));
                    assert(decreases_to!(*v => items@[i as int]));
                }
                let item = clone_value(&items[i]);
                out.push(item);
                i += 1;
            }
            proof {
                assert(JsonValue::items_view(out) =~= JsonValue::items_view(*items));
            }
            JsonValue::Arr(out)
        },
        JsonValue::Obj(pairs) => {
            let mut out: Vec<(String, JsonValue)> = Vec::new();
            let mut i: usize = 0;
            while i < pairs.len()
                invariant
                    *v == JsonValue::Obj(*pairs),
                    0 <= i <= pairs@.len(),
                    out@.len() == i,
                    forall|k: int|
                        0 <= k < i ==> out@[k].0@ == pairs@[k].0@ && out@[k].1.view()
                            == pairs@[k].1.view(),
                decreases pairs@.len() - i,
            {
                let k = clone_string(&pairs[i].0);
                proof {
                    assert(*pairs == v->Obj_0);
                    assert(decreases_to!(*v => v->Obj_0));
                    assert(decreases_to!(*pairs => pairs@[i as int]));
                    assert(decreases_to!(*v => pairs@[i as int].1));
                }
                let val = clone_value(&pairs[i].1);
                out.push((k, val));
                i += 1;
            }
            proof {
                assert(JsonValue::pairs_view(out) =~= JsonValue::pairs_view(*pairs));
            }
            JsonValue::Obj(out)
        },
    }
}

/// Copy of a string with the same character sequence.
pub fn clone_string(s: &String) -> (r: String)
    ensures
        r@ == s@,
{
    let mut out = String::new();
    out.append(s.as_str());
    out
}

} // verus!

