//! The replay cache.
//!
//! After dispatch, every discovered call's outcome is stored under the
//! call's canonical key; the second pass answers each capability invocation
//! from this table. The cache is built once, holds one entry per distinct
//! key — when two discovered calls share a key, the later outcome wins —
//! and is read-only afterwards.

use vstd::prelude::*;

use crate::descriptor::{descriptors_view, key_of, CallDescriptor};
use crate::fetch::{clone_outcome, FetchOutcome, FetchView};
use crate::json::equiv;

verus! {

/// The lookup table: entries as built, each a canonical key with the
/// outcome cached under it.
#[derive(Debug, PartialEq, Eq)]
pub struct ReplayCache {
    pub entries: Vec<(Vec<char>, FetchOutcome)>,
}

/// The models of a cache's entries.
pub open spec fn entries_view(es: Seq<(Vec<char>, FetchOutcome)>) -> Seq<(Seq<char>, FetchView)> {
    Seq::new(es.len(), |i: int| (es[i].0@, es[i].1.view()))
}

/// The mapping an entry sequence denotes: a later entry for a key
/// overrides an earlier one.
pub open spec fn entries_map(s: Seq<(Seq<char>, FetchView)>) -> Map<Seq<char>, FetchView>
    decreases s.len(),
{
    if s.len() == 0 {
        Map::empty()
    } else {
        entries_map(s.drop_last()).insert(s.last().0, s.last().1)
    }
}

impl ReplayCache {
    /// The models of this cache's entries, in storage order.
    pub open spec fn view(self) -> Seq<(Seq<char>, FetchView)> {
        entries_view(self.entries@)
    }

    /// No two entries share a key.
    pub open spec fn distinct(self) -> bool {
        forall|i: int, j: int|
            0 <= i < j < self.view().len() ==> (#[trigger] self.view()[i]).0 != (
            #[trigger] self.view()[j]).0
    }

    /// The mapping this cache denotes.
    pub open spec fn as_map(self) -> Map<Seq<char>, FetchView> {
        entries_map(self.view())
    }
}

/// The mapping that dispatch results build: each descriptor's outcome
/// entered under the descriptor's canonical key, in discovery order, so
/// that for descriptors sharing a key the later outcome wins.
pub open spec fn cache_spec(
    ds: Seq<(Seq<char>, crate::json::JsonView)>,
    os: Seq<FetchView>,
) -> Map<Seq<char>, FetchView>
    decreases ds.len(),
{
    if ds.len() == 0 || os.len() == 0 {
        Map::empty()
    } else {
        cache_spec(ds.drop_last(), os.drop_last()).insert(
            key_of(ds.last().0, ds.last().1),
            os.last(),
        )
    }
}

/// A key is in an entry mapping exactly when some entry carries it.
pub proof fn lemma_entries_map_dom(s: Seq<(Seq<char>, FetchView)>, k: Seq<char>)
    ensures
        entries_map(s).contains_key(k) == (exists|i: int| 0 <= i < s.len() && (#[trigger] s[i]).0
            == k),
    decreases s.len(),
{
    if s.len() > 0 {
        lemma_entries_map_dom(s.drop_last(), k);
        if s.last().0 == k {
            assert(s[s.len() - 1].0 == k);
        } else if entries_map(s).contains_key(k) {
            let i = choose|i: int| 0 <= i < s.drop_last().len() && (#[trigger] s.drop_last()[i]).0
                == k;
            assert(s[i].0 == k);
        } else {
            if exists|i: int| 0 <= i < s.len() && (#[trigger] s[i]).0 == k {
                let i = choose|i: int| 0 <= i < s.len() && (#[trigger] s[i]).0 == k;
                assert(i < s.len() - 1);
                assert(s.drop_last()[i].0 == k);
                assert(false);
            }
        }
    }
}

/// Removing the entry that carries a key removes exactly that key from the
/// mapping, provided keys are distinct.
pub proof fn lemma_entries_map_remove(s: Seq<(Seq<char>, FetchView)>, j: int)
    requires
        0 <= j < s.len(),
        forall|a: int, b: int| 0 <= a < b < s.len() ==> (#[trigger] s[a]).0 != (#[trigger] s[b]).0,
    ensures
        entries_map(s.remove(j)) == entries_map(s).remove(s[j].0),
    decreases s.len(),
{
    if j == s.len() - 1 {
        assert(s.remove(j) =~= s.drop_last());
        lemma_entries_map_dom(s.drop_last(), s[j].0);
        assert(!entries_map(s.drop_last()).contains_key(s[j].0));
        assert(entries_map(s.drop_last()).insert(s.last().0, s.last().1).remove(s[j].0)
            =~= entries_map(s.drop_last()));
        assert(entries_map(s.remove(j)) =~= entries_map(s).remove(s[j].0));
    } else {
        assert(s.remove(j).drop_last() =~= s.drop_last().remove(j));
        assert(s.remove(j).last() == s.last());
        lemma_entries_map_remove(s.drop_last(), j);
        assert(s.drop_last()[j].0 == s[j].0);
        assert(s[j].0 != s.last().0);
        assert(entries_map(s.remove(j)) =~= entries_map(s).remove(s[j].0));
    }
}

/// Character-sequence equality of two key vectors.
pub fn keys_eq(a: &Vec<char>, b: &Vec<char>) -> (r: bool)
    ensures
        r == (a@ == b@),
{
    if a.len() != b.len() {
        proof {
            assert(a@ != b@);
        }
        return false;
    }
    let mut i: usize = 0;
    while i < a.len()
        invariant
            a@.len() == b@.len(),
            0 <= i <= a@.len(),
            forall|k: int| 0 <= k < i ==> a@[k] == b@[k],
        decreases a@.len() - i,
    {
        if a[i] != b[i] {
            return false;
        }
        i += 1;
    }
    proof {
        assert(a@ =~= b@);
    }
    true
}

/// Build the replay cache from the dispatch results: one entry per
/// distinct canonical key, the later of two same-key outcomes winning.
pub fn build_cache(descs: &Vec<CallDescriptor>, outs: &Vec<FetchOutcome>) -> (c: ReplayCache)
    requires
        descs@.len() == outs@.len(),
    ensures
        c.distinct(),
        c.as_map() == cache_spec(
            descriptors_view(descs@),
            Seq::new(outs@.len(), |i: int| outs@[i].view()),
        ),
{
    let ghost dv = descriptors_view(descs@);
    let ghost ov = Seq::new(outs@.len(), |i: int| outs@[i].view());
    let mut entries: Vec<(Vec<char>, FetchOutcome)> = Vec::new();
    let mut i: usize = 0;
    proof {
        assert(entries_view(entries@) =~= Seq::<(Seq<char>, FetchView)>::empty());
        assert(entries_map(entries_view(entries@)) =~= cache_spec(dv.take(0), ov.take(0)));
    }
    while i < descs.len()
        invariant
            dv == descriptors_view(descs@),
            ov == Seq::new(outs@.len(), |k: int| outs@[k].view()),
            dv.len() == descs@.len(),
            ov.len() == outs@.len(),
            descs@.len() == outs@.len(),
            0 <= i <= descs@.len(),
            forall|a: int, b: int|
                0 <= a < b < entries_view(entries@).len() ==> (#[trigger] entries_view(
                    entries@,
                )[a]).0 != (#[trigger] entries_view(entries@)[b]).0,
            entries_map(entries_view(entries@)) == cache_spec(dv.take(i as int), ov.take(i as int)),
        decreases descs@.len() - i,
    {
        let key = crate::descriptor::canonical_key(&descs[i]);
        let out = clone_outcome(&outs[i]);
        let ghost ev = entries_view(entries@);
        proof {
            assert(dv[i as int] == descs@[i as int].view());
            assert(ov[i as int] == outs@[i as int].view());
            assert(key@ == key_of(dv[i as int].0, dv[i as int].1));
            assert(dv.take(i + 1).drop_last() =~= dv.take(i as int));
            assert(ov.take(i + 1).drop_last() =~= ov.take(i as int));
            assert(dv.take(i + 1).last() == dv[i as int]);
            assert(ov.take(i + 1).last() == ov[i as int]);
        }
        let mut j: usize = 0;
        let mut found = false;
        while j < entries.len() && !found
            invariant
                ev == entries_view(entries@),
                ev.len() == entries@.len(),
                0 <= j <= entries@.len(),
                forall|l: int| 0 <= l < j ==> (#[trigger] ev[l]).0 != key@,
                found ==> j < entries@.len() && ev[j as int].0 == key@,
            decreases entries@.len() - j + (if found {
                0int
            } else {
                1int
            }),
        {
            if keys_eq(&entries[j].0, &key) {
                found = true;
            } else {
                j += 1;
            }
        }
        if found {
            proof {
                assert(ev[j as int].0 == key@);
                lemma_entries_map_remove(ev, j as int);
                ev.remove_ensures(j as int);
            }
            let _removed = entries.remove(j);
            entries.push((key, out));
            proof {
                let nv = entries_view(entries@);
                let rv = ev.remove(j as int);
                assert(nv.drop_last() =~= rv);
                assert(nv.last() == (key@, out.view()));
                assert(entries_map(nv) =~= cache_spec(dv.take(i + 1), ov.take(i + 1)));
                // the removed entry was the only one with this key, so the
                // shifted sequence has no entry with it
                assert forall|l: int| 0 <= l < rv.len() implies (#[trigger] rv[l]).0 != key@ by {
                    if l < j {
                        assert(rv[l] == ev[l]);
                        assert(ev[l].0 != ev[j as int].0);
                    } else {
                        assert(rv[l] == ev[l + 1]);
                        assert(ev[l + 1].0 != ev[j as int].0);
                    }
                }
                assert forall|a: int, b: int| 0 <= a < b < rv.len() implies (#[trigger] rv[a]).0
                    != (#[trigger] rv[b]).0 by {
                    if b < j {
                        assert(rv[a] == ev[a] && rv[b] == ev[b]);
                    } else if a < j {
                        assert(rv[a] == ev[a] && rv[b] == ev[b + 1]);
                    } else {
                        assert(rv[a] == ev[a + 1] && rv[b] == ev[b + 1]);
                    }
                }
                assert forall|a: int, b: int| 0 <= a < b < nv.len() implies (#[trigger] nv[a]).0
                    != (#[trigger] nv[b]).0 by {
                    if b == nv.len() - 1 {
                        assert(nv[a] == rv[a]);
                        assert(nv[b] == (key@, out.view()));
                        assert(rv[a].0 != key@);
                    } else {
                        assert(nv[a] == rv[a] && nv[b] == rv[b]);
                    }
                }
            }
        } else {
            entries.push((key, out));
            proof {
                let nv = entries_view(entries@);
                assert(nv.drop_last() =~= ev);
                assert(nv.last() == (key@, out.view()));
                assert(entries_map(nv) =~= cache_spec(dv.take(i + 1), ov.take(i + 1)));
                assert forall|a: int, b: int| 0 <= a < b < nv.len() implies (#[trigger] nv[a]).0
                    != (#[trigger] nv[b]).0 by {
                    if b == nv.len() - 1 {
                        assert(nv[a] == ev[a]);
                        assert(nv[b] == (key@, out.view()));
                        assert(ev[a].0 != key@);
                    } else {
                        assert(nv[a] == ev[a] && nv[b] == ev[b]);
                    }
                }
            }
        }
        i += 1;
    }
    proof {
        assert(dv.take(descs@.len() as int) =~= dv);
        assert(ov.take(outs@.len() as int) =~= ov);
    }
    ReplayCache { entries }
}

impl ReplayCache {
    /// Find the outcome cached under a key: exactly the mapping's value,
    /// `None` for a key never entered. A miss is answered with `None`, not
    /// an error — replay shapes it as the script's undefined value.
    pub fn lookup(&self, key: &Vec<char>) -> (r: Option<&FetchOutcome>)
        ensures
            match r {
                Some(o) => self.as_map().contains_key(key@) && self.as_map()[key@] == o.view(),
                None => !self.as_map().contains_key(key@),
            },
    {
        let ghost ev = self.view();
        let mut r: Option<&FetchOutcome> = None;
        let mut i: usize = 0;
        proof {
            assert(ev.take(0) =~= Seq::<(Seq<char>, FetchView)>::empty());
        }
        while i < self.entries.len()
            invariant
                ev == self.view(),
                ev.len() == self.entries@.len(),
                0 <= i <= self.entries@.len(),
                match r {
                    Some(o) => entries_map(ev.take(i as int)).contains_key(key@) && entries_map(
                        ev.take(i as int),
                    )[key@] == o.view(),
                    None => !entries_map(ev.take(i as int)).contains_key(key@),
                },
            decreases self.entries@.len() - i,
        {
            proof {
                assert(ev.take(i + 1).drop_last() =~= ev.take(i as int));
                assert(ev.take(i + 1).last() == ev[i as int]);
            }
            if keys_eq(&self.entries[i].0, key) {
                r = Some(&self.entries[i].1);
            }
            i += 1;
        }
        proof {
            assert(ev.take(self.entries@.len() as int) =~= ev);
        }
        r
    }
}

/// The JSON object the replay pass is given: each canonical key bound to
/// the outcome object cached under it, in storage order.
pub open spec fn cache_json(c: Seq<(Seq<char>, FetchView)>) -> crate::json::JsonView {
    crate::json::JsonView::Obj(
        Seq::new(c.len(), |i: int| (c[i].0, crate::fetch::outcome_json(c[i].1))),
    )
}

/// Build the JSON object the replay pass is given.
pub fn cache_to_json(c: &ReplayCache) -> (v: crate::json::JsonValue)
    ensures
        v.view() == cache_json(c.view()),
{
    let ghost cv = c.view();
    let mut pairs: Vec<(String, crate::json::JsonValue)> = Vec::new();
    let mut i: usize = 0;
    while i < c.entries.len()
        invariant
            cv == c.view(),
            cv.len() == c.entries@.len(),
            0 <= i <= c.entries@.len(),
            pairs@.len() == i,
            forall|k: int|
                0 <= k < i ==> (#[trigger] pairs@[k]).0@ == cv[k].0 && pairs@[k].1.view()
                    == crate::fetch::outcome_json(cv[k].1),
        decreases c.entries@.len() - i,
    {
        let key_s = crate::ser::chars_to_string(&c.entries[i].0);
        let val = crate::fetch::outcome_to_json(&c.entries[i].1);
        pairs.push((key_s, val));
        i += 1;
    }
    let v = crate::json::JsonValue::Obj(pairs);
    proof {
        assert(v.view()->Obj_0 =~= cache_json(cv)->Obj_0);
    }
    v
}

/// Last write wins: when a later discovered call has the same canonical
/// key as an earlier one, the cache maps that key to the later outcome —
/// and so every replay invocation that computes this key observes it.
pub proof fn lemma_cache_last_wins(
    ds: Seq<(Seq<char>, crate::json::JsonView)>,
    os: Seq<FetchView>,
    j: int,
)
    requires
        ds.len() == os.len(),
        0 <= j < ds.len(),
        forall|l: int|
            j < l < ds.len() ==> key_of((#[trigger] ds[l]).0, ds[l].1) != key_of(
                ds[j].0,
                ds[j].1,
            ),
    ensures
        cache_spec(ds, os).contains_key(key_of(ds[j].0, ds[j].1)),
        cache_spec(ds, os)[key_of(ds[j].0, ds[j].1)] == os[j],
    decreases ds.len(),
{
    if j == ds.len() - 1 {
    } else {
        assert(ds.drop_last()[j] == ds[j]);
        lemma_cache_last_wins(ds.drop_last(), os.drop_last(), j);
        assert(key_of(ds.last().0, ds.last().1) != key_of(ds[j].0, ds[j].1));
    }
}

/// Network failure transparency: a call whose dispatch ended in a
/// transport failure still has an entry in the cache — the failure is
/// data the script can branch on, with `ok` false and status `0`, and
/// never aborts the pipeline.
pub proof fn lemma_network_failure_is_data(
    ds: Seq<(Seq<char>, crate::json::JsonView)>,
    os: Seq<FetchView>,
    j: int,
)
    requires
        ds.len() == os.len(),
        0 <= j < ds.len(),
        os[j].ok == false && os[j].status == 0,
        forall|l: int|
            j < l < ds.len() ==> key_of((#[trigger] ds[l]).0, ds[l].1) != key_of(
                ds[j].0,
                ds[j].1,
            ),
    ensures
        cache_spec(ds, os).contains_key(key_of(ds[j].0, ds[j].1)),
        cache_spec(ds, os)[key_of(ds[j].0, ds[j].1)].ok == false,
        cache_spec(ds, os)[key_of(ds[j].0, ds[j].1)].status == 0,
{
    lemma_cache_last_wins(ds, os, j);
}

/// Round-trip replay: a replay-pass call whose options are
/// reorder-equivalent to a dispatched descriptor's — the same logical call,
/// however each pass ordered its object keys — observes exactly the
/// outcome dispatch produced for that descriptor, provided no later
/// discovered call shares the key.
pub proof fn lemma_replay_observes_dispatch(
    ds: Seq<(Seq<char>, crate::json::JsonView)>,
    os: Seq<FetchView>,
    j: int,
    replay_options: crate::json::JsonView,
)
    requires
        ds.len() == os.len(),
        0 <= j < ds.len(),
        equiv(ds[j].1, replay_options),
        forall|l: int|
            j < l < ds.len() ==> key_of((#[trigger] ds[l]).0, ds[l].1) != key_of(
                ds[j].0,
                ds[j].1,
            ),
    ensures
        cache_spec(ds, os).contains_key(key_of(ds[j].0, replay_options)),
        cache_spec(ds, os)[key_of(ds[j].0, replay_options)] == os[j],
{
    crate::descriptor::lemma_key_deterministic(ds[j].0, ds[j].1, replay_options);
    lemma_cache_last_wins(ds, os, j);
}

} // verus!
