//! Call descriptors and their canonical keys.
//!
//! Every capability invocation a script makes during discovery is recorded
//! as a `(url, options)` descriptor. Its canonical key — the serialization
//! of the canonically ordered object `{options, url}` — is the identity
//! under which the dispatched outcome is cached and found again during
//! replay. The two passes build their descriptors independently, so the
//! key must not depend on the order in which either pass listed object
//! keys; `lemma_key_deterministic` states exactly that.

use vstd::prelude::*;

use crate::canon::canon;
use crate::json::{clone_string, clone_value, equiv, obj_lookup, JsonValue, JsonView};
use crate::ser::ser;

verus! {

/// One recorded capability call: the url and the options object the script
/// passed (an empty object when the script passed none).
#[derive(Debug, PartialEq, Eq)]
pub struct CallDescriptor {
    pub url: String,
    pub options: JsonValue,
}

impl CallDescriptor {
    /// The model of a descriptor: its url and options as mathematical
    /// values.
    pub open spec fn view(self) -> (Seq<char>, JsonView) {
        (self.url@, self.options.view())
    }
}

/// The `url` member name.
pub open spec fn url_key() -> Seq<char> {
    seq!['u', 'r', 'l']
}

/// The `options` member name.
pub open spec fn options_key() -> Seq<char> {
    seq!['o', 'p', 't', 'i', 'o', 'n', 's']
}

/// The object a descriptor serializes as: `options` and `url` as its two
/// members.
pub open spec fn descriptor_json(url: Seq<char>, options: JsonView) -> JsonView {
    JsonView::Obj(seq![(options_key(), options), (url_key(), JsonView::Str(url))])
}

/// The canonical key of a descriptor: the serialization of its object in
/// canonical order, which places `options` before `url` and orders every
/// nested object's keys alphabetically.
pub open spec fn key_of(url: Seq<char>, options: JsonView) -> Seq<char> {
    ser(canon(descriptor_json(url, options)))
}

/// Compute the canonical key of a descriptor.
pub fn canonical_key(d: &CallDescriptor) -> (r: Vec<char>)
    ensures
        r@ == key_of(d.url@, d.options.view()),
{
    proof {
        reveal_strlit("options");
        reveal_strlit("url");
        assert("options"@ =~= options_key());
        assert("url"@ =~= url_key());
    }
    let mut pairs: Vec<(String, JsonValue)> = Vec::new();
    pairs.push((String::from_str("options"), clone_value(&d.options)));
    pairs.push((String::from_str("url"), JsonValue::Str(clone_string(&d.url))));
    let obj = JsonValue::Obj(pairs);
    proof {
        let pw = JsonValue::pairs_view(obj->Obj_0);
        assert(pw[0] == (options_key(), d.options.view()));
        assert(obj->Obj_0@[1].0@ == url_key());
        assert(obj->Obj_0@[1].1.view() == JsonView::Str(d.url@));
        assert(pw[1] == (url_key(), JsonView::Str(d.url@)));
        assert(pw =~= descriptor_json(d.url@, d.options.view())->Obj_0);
    }
    let canonical = crate::canon::canonicalize(&obj);
    crate::ser::serialize(&canonical)
}

/// Determinism of canonical keys: descriptors with the same url and
/// reorder-equivalent options have the same canonical key, however each
/// pass ordered the keys of the options object and of every object nested
/// inside it.
pub proof fn lemma_key_deterministic(url: Seq<char>, options1: JsonView, options2: JsonView)
    requires
        equiv(options1, options2),
    ensures
        key_of(url, options1) == key_of(url, options2),
{
    let d1 = descriptor_json(url, options1);
    let d2 = descriptor_json(url, options2);
    assert(options_key() != url_key());
    assert(equiv(d1, d2)) by {
        let x = d1->Obj_0;
        let y = d2->Obj_0;
        assert(crate::json::distinct_keys(x));
        assert(crate::json::distinct_keys(y));
        assert(equiv(JsonView::Str(url), JsonView::Str(url)));
        assert forall|i: int| 0 <= i < x.len() implies exists|j: int|
            0 <= j < y.len() && (#[trigger] y[j]).0 == (#[trigger] x[i]).0 && equiv(
                x[i].1,
                y[j].1,
            ) by {
            assert(y[i].0 == x[i].0 && equiv(x[i].1, y[i].1));
        }
        assert forall|j: int| 0 <= j < y.len() implies exists|i: int|
            0 <= i < x.len() && (#[trigger] x[i]).0 == (#[trigger] y[j]).0 && equiv(
                x[i].1,
                y[j].1,
            ) by {
            assert(x[j].0 == y[j].0 && equiv(x[j].1, y[j].1));
        }
    }
    crate::canon::lemma_equiv_canon(d1, d2);
}

/// What one recorded item contributes to the descriptor list: an object
/// with a nonempty string `url` yields a descriptor, whose options are its
/// `options` member when that is an object and the empty object otherwise;
/// any other item yields nothing.
pub open spec fn descriptor_of_item(item: JsonView) -> Option<(Seq<char>, JsonView)> {
    match item {
        JsonView::Obj(ps) => match obj_lookup(ps, url_key()) {
            Some(JsonView::Str(u)) => {
                if u.len() > 0 {
                    Some(
                        (
                            u,
                            match obj_lookup(ps, options_key()) {
                                Some(JsonView::Obj(o)) => JsonView::Obj(o),
                                _ => JsonView::Obj(Seq::empty()),
                            },
                        ),
                    )
                } else {
                    None
                }
            },
            _ => None,
        },
        _ => None,
    }
}

/// The descriptors a recorded item sequence yields, in order.
pub open spec fn descriptors_of(items: Seq<JsonView>) -> Seq<(Seq<char>, JsonView)>
    decreases items.len(),
{
    if items.len() == 0 {
        Seq::empty()
    } else {
        descriptors_of(items.drop_last()) + match descriptor_of_item(items.last()) {
            Some(d) => seq![d],
            None => Seq::empty(),
        }
    }
}

/// The models of a descriptor vector.
pub open spec fn descriptors_view(ds: Seq<CallDescriptor>) -> Seq<(Seq<char>, JsonView)> {
    Seq::new(ds.len(), |i: int| ds[i].view())
}

/// Read the list the recording shim collected — a JSON array of
/// `{url, options}` items — into descriptors, keeping exactly the items
/// with a nonempty string url, in order.
pub fn parse_descriptors(recorded: &JsonValue) -> (ds: Vec<CallDescriptor>)
    ensures
        descriptors_view(ds@) == match *recorded {
            JsonValue::Arr(items) => descriptors_of(JsonValue::items_view(items)),
            _ => Seq::<(Seq<char>, JsonView)>::empty(),
        },
{
    proof {
        reveal_strlit("options");
        reveal_strlit("url");
        assert("options"@ =~= options_key());
        assert("url"@ =~= url_key());
    }
    let mut ds: Vec<CallDescriptor> = Vec::new();
    match recorded {
        JsonValue::Arr(items) => {
            let ghost iv = JsonValue::items_view(*items);
            let mut i: usize = 0;
            while i < items.len()
                invariant
                    "url"@ == url_key(),
                    "options"@ == options_key(),
                    iv == JsonValue::items_view(*items),
                    iv.len() == items@.len(),
                    0 <= i <= items@.len(),
                    descriptors_view(ds@) == descriptors_of(iv.take(i as int)),
                decreases items@.len() - i,
            {
                proof {
                    assert(iv.take(i + 1).drop_last() =~= iv.take(i as int));
                    assert(iv.take(i + 1).last() == iv[i as int]);
                    assert(iv[i as int] == items@[i as int].view());
                }
                match &items[i] {
                    JsonValue::Obj(pairs) => {
                        match crate::json::obj_get(pairs, "url") {
                            Some(uv) => {
                                match uv {
                                    JsonValue::Str(u) => {
                                        if !u.as_str().is_empty() {
                                            proof {
                                                assert(u@.len() > 0);
                                            }
                                            let ghost opt_spec = match obj_lookup(
                                                JsonValue::pairs_view(*pairs),
                                                options_key(),
                                            ) {
                                                Some(JsonView::Obj(o)) => JsonView::Obj(o),
                                                _ => JsonView::Obj(Seq::empty()),
                                            };
                                            let options: JsonValue = match crate::json::obj_get(
                                                pairs,
                                                "options",
                                            ) {
                                                Some(ov) => match ov {
                                                    JsonValue::Obj(_) => clone_value(ov),
                                                    _ => {
                                                        proof {
                                                            crate::fetch::lemma_view_is_obj(*ov);
                                                        }
                                                        let e = JsonValue::Obj(Vec::new());
                                                        proof {
                                                            assert(e.view()->Obj_0 =~= Seq::empty());
                                                        }
                                                        e
                                                    },
                                                },
                                                None => {
                                                    let e = JsonValue::Obj(Vec::new());
                                                    proof {
                                                        assert(e.view()->Obj_0 =~= Seq::empty());
                                                    }
                                                    e
                                                },
                                            };
                                            proof {
                                                assert(options.view() == opt_spec);
                                            }
                                            let d = CallDescriptor {
                                                url: clone_string(u),
                                                options,
                                            };
                                            proof {
                                                assert(iv[i as int] == JsonView::Obj(
                                                    JsonValue::pairs_view(*pairs),
                                                ));
                                                assert(descriptor_of_item(iv[i as int])
                                                    == Some(d.view()));
                                            }
                                            ds.push(d);
                                            proof {
                                                assert(descriptors_view(ds@)
                                                    =~= descriptors_of(iv.take(i + 1)));
                                            }
                                        } else {
                                            proof {
                                                assert(u@.len() == 0);
                                                assert(descriptor_of_item(iv[i as int]) is None);
                                                assert(descriptors_view(ds@)
                                                    =~= descriptors_of(iv.take(i + 1)));
                                            }
                                        }
                                    },
                                    _ => {
                                        proof {
                                            crate::fetch::lemma_view_is_str(*uv);
                                            assert(descriptor_of_item(iv[i as int]) is None);
                                            assert(descriptors_view(ds@) =~= descriptors_of(
                                                iv.take(i + 1),
                                            ));
                                        }
                                    },
                                }
                            },
                            None => {
                                proof {
                                    assert(descriptor_of_item(iv[i as int]) is None);
                                    assert(descriptors_view(ds@) =~= descriptors_of(
                                        iv.take(i + 1),
                                    ));
                                }
                            },
                        }
                    },
                    _ => {
                        proof {
                            crate::fetch::lemma_view_is_obj(items@[i as int]);
                            assert(descriptor_of_item(iv[i as int]) is None);
                            assert(descriptors_view(ds@) =~= descriptors_of(iv.take(i + 1)));
                        }
                    },
                }
                i += 1;
            }
            proof {
                assert(iv.take(items@.len() as int) =~= iv);
            }
        },
        _ => {
            proof {
                assert(descriptors_view(ds@) =~= Seq::<(Seq<char>, JsonView)>::empty());
            }
        },
    }
    ds
}

} // verus!
