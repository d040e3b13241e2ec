//! Normalized network-call outcomes.
//!
//! The fetch executor never raises to its caller: every way a network
//! attempt can end — success, an HTTP error status, or a transport failure —
//! becomes a `FetchOutcome` value. The functions here are the computing half
//! of that executor: resolving the request parameters a script supplied in
//! its options object, classifying the response status, and shaping the
//! outcome the script will observe. Performing the request itself is I/O
//! and lives outside the verified core.

use vstd::prelude::*;

use crate::json::{clone_string, clone_value, obj_get, obj_lookup, JsonValue, JsonView};

verus! {

/// The request methods a script can select.
#[derive(Debug, Clone, Copy, PartialEq, Eq, Structural)]
pub enum Method {
    Get,
    Post,
    Put,
    Delete,
}

/// Model of a normalized outcome.
pub struct FetchView {
    pub ok: bool,
    pub status: int,
    pub status_text: Seq<char>,
    pub headers: Seq<(Seq<char>, Seq<char>)>,
    pub data: JsonView,
}

/// One normalized network outcome, exactly the object shape the script
/// observes: `ok`, `status`, `statusText`, `headers`, `data`.
#[derive(Debug, PartialEq, Eq)]
pub struct FetchOutcome {
    pub ok: bool,
    pub status: u16,
    pub status_text: String,
    pub headers: Vec<(String, String)>,
    pub data: JsonValue,
}

impl FetchOutcome {
    /// The mathematical value of this outcome.
    pub open spec fn view(self) -> FetchView {
        FetchView {
            ok: self.ok,
            status: self.status as int,
            status_text: self.status_text@,
            headers: Seq::new(
                self.headers@.len(),
                |i: int| (self.headers@[i].0@, self.headers@[i].1@),
            ),
            data: self.data.view(),
        }
    }
}

/// The `method` member of an options object.
pub open spec fn method_key() -> Seq<char> {
    seq!['m', 'e', 't', 'h', 'o', 'd']
}

/// The `headers` member of an options object.
pub open spec fn headers_key() -> Seq<char> {
    seq!['h', 'e', 'a', 'd', 'e', 'r', 's']
}

/// The `body` member of an options object.
pub open spec fn body_key() -> Seq<char> {
    seq!['b', 'o', 'd', 'y']
}

/// Which method an options object selects: the string under `method` when
/// it names one of the known methods; anything else — another string, a
/// non-string, or no `method` member at all — falls back to GET.
pub open spec fn method_of(options: JsonView) -> Method {
    match options.get(method_key()) {
        Some(JsonView::Str(m)) => {
            if m == seq!['P', 'O', 'S', 'T'] {
                Method::Post
            } else if m == seq!['P', 'U', 'T'] {
                Method::Put
            } else if m == seq!['D', 'E', 'L', 'E', 'T', 'E'] {
                Method::Delete
            } else {
                Method::Get
            }
        },
        _ => Method::Get,
    }
}

/// The request body an options object supplies: only a string member
/// `body` is sent; non-string bodies are ignored.
pub open spec fn body_of(options: JsonView) -> Option<Seq<char>> {
    match options.get(body_key()) {
        Some(JsonView::Str(b)) => Some(b),
        _ => None,
    }
}

/// Every value of the pair sequence is a string.
pub open spec fn all_string_values(ps: Seq<(Seq<char>, JsonView)>) -> bool {
    forall|i: int| 0 <= i < ps.len() ==> (#[trigger] ps[i].1) is Str
}

/// The extra headers an options object supplies: the members of a
/// `headers` object whose values are all strings, attached verbatim; any
/// other shape contributes no headers.
pub open spec fn headers_of(options: JsonView) -> Seq<(Seq<char>, Seq<char>)> {
    match options.get(headers_key()) {
        Some(JsonView::Obj(ps)) => {
            if all_string_values(ps) {
                Seq::new(ps.len(), |i: int| (ps[i].0, ps[i].1->Str_0))
            } else {
                Seq::empty()
            }
        },
        _ => Seq::empty(),
    }
}

/// A status in the 2xx class counts as success.
pub open spec fn is_success_status(status: int) -> bool {
    200 <= status < 300
}

/// Resolve the method selected by a call's options.
pub fn resolve_method(options: &JsonValue) -> (m: Method)
    ensures
        m == method_of(options.view()),
{
    proof {
        reveal_strlit("method");
        assert("method"@ =~= method_key());
        reveal_strlit("POST");
        reveal_strlit("PUT");
        reveal_strlit("DELETE");
        assert("POST"@ =~= seq!['P', 'O', 'S', 'T']);
        assert("PUT"@ =~= seq!['P', 'U', 'T']);
        assert("DELETE"@ =~= seq!['D', 'E', 'L', 'E', 'T', 'E']);
    }
    match options {
        JsonValue::Obj(pairs) => {
            match obj_get(pairs, "method") {
                Some(JsonValue::Str(m)) => {
                    if crate::json::str_eq(m.as_str(), "POST") {
                        proof {
                            assert(m@ =~= seq!['P', 'O', 'S', 'T']);
                        }
                        Method::Post
                    } else if crate::json::str_eq(m.as_str(), "PUT") {
                        proof {
                            assert(m@ =~= seq!['P', 'U', 'T']);
                        }
                        Method::Put
                    } else if crate::json::str_eq(m.as_str(), "DELETE") {
                        proof {
                            assert(m@ =~= seq!['D', 'E', 'L', 'E', 'T', 'E']);
                        }
                        Method::Delete
                    } else {
                        proof {
                            assert(m@ != seq!['P', 'O', 'S', 'T']);
                            assert(m@ != seq!['P', 'U', 'T']);
                            assert(m@ != seq!['D', 'E', 'L', 'E', 'T', 'E']);
                        }
                        Method::Get
                    }
                },
                _ => Method::Get,
            }
        },
        _ => Method::Get,
    }
}

/// Extract the request body a call's options supply, if any.
pub fn extract_body(options: &JsonValue) -> (b: Option<String>)
    ensures
        match b {
            Some(s) => body_of(options.view()) == Some(s@),
            None => body_of(options.view()) is None,
        },
{
    proof {
        reveal_strlit("body");
        assert("body"@ =~= body_key());
    }
    match options {
        JsonValue::Obj(pairs) => {
            match obj_get(pairs, "body") {
                Some(JsonValue::Str(b)) => Some(clone_string(b)),
                _ => None,
            }
        },
        _ => None,
    }
}

/// A value's model is a string exactly when the value is.
pub proof fn lemma_view_is_str(v: JsonValue)
    ensures
        (v.view() is Str) == (v is Str),
{
    match v {
        JsonValue::Null => {},
        JsonValue::Bool(_) => {},
        JsonValue::Int(_) => {},
        JsonValue::Num(_) => {},
        JsonValue::Str(_) => {},
        JsonValue::Arr(_) => {},
        JsonValue::Obj(_) => {},
    }
}

/// Extract the extra headers a call's options supply.
pub fn extract_headers(options: &JsonValue) -> (h: Vec<(String, String)>)
    ensures
        Seq::new(h@.len(), |i: int| (h@[i].0@, h@[i].1@)) == headers_of(options.view()),
{
    proof {
        reveal_strlit("headers");
        assert("headers"@ =~= headers_key());
    }
    let ghost g = options.view();
    let empty_result: Vec<(String, String)> = Vec::new();
    proof {
        assert(Seq::new(empty_result@.len(), |i: int| (empty_result@[i].0@, empty_result@[i].1@))
            =~= Seq::<(Seq<char>, Seq<char>)>::empty());
    }
    match options {
        JsonValue::Obj(pairs) => {
            match obj_get(pairs, "headers") {
                Some(hv) => {
                    match hv {
                        JsonValue::Obj(hps) => {
                            let ghost pv = JsonValue::pairs_view(*hps);
                            proof {
                                assert(g.get(headers_key()) == Some(JsonView::Obj(pv)));
                            }
                            let mut out: Vec<(String, String)> = Vec::new();
                            let mut i: usize = 0;
                            while i < hps.len()
                                invariant
                                    g == options.view(),
                                    g.get(headers_key()) == Some(JsonView::Obj(pv)),
                                    pv == JsonValue::pairs_view(*hps),
                                    pv.len() == hps@.len(),
                                    0 <= i <= hps@.len(),
                                    out@.len() == i,
                                    forall|k: int|
                                        0 <= k < i ==> (#[trigger] pv[k]).1 is Str && out@[k].0@
                                            == pv[k].0 && out@[k].1@ == pv[k].1->Str_0,
                                decreases hps@.len() - i,
                            {
                                proof {
                                    assert(pv[i as int] == (hps@[i as int].0@, hps@[
                                    i as int].1.view()));
                                    lemma_view_is_str(hps@[i as int].1);
                                }
                                match &hps[i].1 {
                                    JsonValue::Str(s) => {
                                        let k = clone_string(&hps[i].0);
                                        let val = clone_string(s);
                                        out.push((k, val));
                                    },
                                    _ => {
                                        proof {
                                            assert(!((pv[i as int]).1 is Str));
                                            assert(!all_string_values(pv));
                                            assert(headers_of(g) =~= Seq::<(
                                                Seq<char>,
                                                Seq<char>,
                                            )>::empty());
                                        }
                                        let none_result: Vec<(String, String)> = Vec::new();
                                        proof {
                                            assert(Seq::new(
                                                none_result@.len(),
                                                |k: int| (none_result@[k].0@, none_result@[k].1@),
                                            ) =~= Seq::<(Seq<char>, Seq<char>)>::empty());
                                        }
                                        return none_result;
                                    },
                                }
                                i += 1;
                            }
                            proof {
                                assert(all_string_values(pv));
                                assert(Seq::new(out@.len(), |k: int| (out@[k].0@, out@[k].1@))
                                    =~= headers_of(g));
                            }
                            out
                        },
                        _ => {
                            proof {
                                match hv.view() {
                                    JsonView::Obj(_) => {
                                        lemma_view_is_obj(*hv);
                                        assert(false);
                                    },
                                    _ => {},
                                }
                            }
                            empty_result
                        },
                    }
                },
                None => { empty_result },
            }
        },
        _ => { empty_result },
    }
}

/// A value's model is an object exactly when the value is.
pub proof fn lemma_view_is_obj(v: JsonValue)
    ensures
        (v.view() is Obj) == (v is Obj),
{
    match v {
        JsonValue::Null => {},
        JsonValue::Bool(_) => {},
        JsonValue::Int(_) => {},
        JsonValue::Num(_) => {},
        JsonValue::Str(_) => {},
        JsonValue::Arr(_) => {},
        JsonValue::Obj(_) => {},
    }
}

/// Everything the transport needs for one dispatch call, resolved from a
/// descriptor: the url, the selected method, the headers to attach and the
/// body to send.
#[derive(Debug, PartialEq, Eq)]
pub struct PreparedRequest {
    pub url: String,
    pub method: Method,
    pub headers: Vec<(String, String)>,
    pub body: Option<String>,
}

/// Resolve one descriptor into the concrete request to perform.
pub fn prepare_request(d: &crate::descriptor::CallDescriptor) -> (r: PreparedRequest)
    ensures
        r.url@ == d.url@,
        r.method == method_of(d.options.view()),
        Seq::new(r.headers@.len(), |i: int| (r.headers@[i].0@, r.headers@[i].1@)) == headers_of(
            d.options.view(),
        ),
        match r.body {
            Some(b) => body_of(d.options.view()) == Some(b@),
            None => body_of(d.options.view()) is None,
        },
{
    PreparedRequest {
        url: clone_string(&d.url),
        method: resolve_method(&d.options),
        headers: extract_headers(&d.options),
        body: extract_body(&d.options),
    }
}

/// Shape a transport response into the outcome the script observes:
/// success is exactly the 2xx class, the status line is mirrored, and an
/// unparseable body degrades to the empty string rather than an error.
pub fn normalize_response(
    status: u16,
    status_text: String,
    headers: Vec<(String, String)>,
    body: Option<JsonValue>,
) -> (o: FetchOutcome)
    ensures
        o.view().ok == is_success_status(status as int),
        o.view().status == status as int,
        o.view().status_text == status_text@,
        o.view().headers == Seq::new(headers@.len(), |i: int| (headers@[i].0@, headers@[i].1@)),
        o.view().data == match body {
            Some(v) => v.view(),
            None => JsonView::Str(Seq::<char>::empty()),
        },
{
    let ok = 200 <= status && status < 300;
    let data = match body {
        Some(v) => v,
        None => JsonValue::Str(String::new()),
    };
    let o = FetchOutcome { ok, status, status_text, headers, data };
    proof {
        assert(o.view().headers =~= Seq::new(
            o.headers@.len(),
            |i: int| (o.headers@[i].0@, o.headers@[i].1@),
        ));
    }
    o
}

/// The outcome of a transport-level failure (name resolution, connect,
/// timeout): never an exception, but data the script can branch on —
/// `ok` false, status `0`, status text `Error`, and the diagnostic as the
/// payload.
pub fn transport_failure(message: String) -> (o: FetchOutcome)
    ensures
        o.view().ok == false,
        o.view().status == 0,
        o.view().status_text == "Error"@,
        o.view().headers == Seq::<(Seq<char>, Seq<char>)>::empty(),
        o.view().data == JsonView::Str(message@),
{
    let o = FetchOutcome {
        ok: false,
        status: 0,
        status_text: String::from_str("Error"),
        headers: Vec::new(),
        data: JsonValue::Str(message),
    };
    proof {
        assert(o.view().headers =~= Seq::<(Seq<char>, Seq<char>)>::empty());
    }
    o
}

/// Structural copy of an outcome: the copy models the same value.
pub fn clone_outcome(o: &FetchOutcome) -> (r: FetchOutcome)
    ensures
        r.view() == o.view(),
{
    let mut headers: Vec<(String, String)> = Vec::new();
    let mut i: usize = 0;
    while i < o.headers.len()
        invariant
            0 <= i <= o.headers@.len(),
            headers@.len() == i,
            forall|k: int|
                0 <= k < i ==> (#[trigger] headers@[k]).0@ == o.headers@[k].0@ && headers@[k].1@
                    == o.headers@[k].1@,
        decreases o.headers@.len() - i,
    {
        let k = clone_string(&o.headers[i].0);
        let val = clone_string(&o.headers[i].1);
        headers.push((k, val));
        i += 1;
    }
    let r = FetchOutcome {
        ok: o.ok,
        status: o.status,
        status_text: clone_string(&o.status_text),
        headers,
        data: clone_value(&o.data),
    };
    proof {
        assert(r.view().headers =~= o.view().headers);
    }
    r
}

/// The JSON object a script observes for an outcome, with the members in
/// the fixed order `ok`, `status`, `statusText`, `headers`, `data`.
pub open spec fn outcome_json(o: FetchView) -> JsonView {
    JsonView::Obj(
        seq![
            (seq!['o', 'k'], JsonView::Bool(o.ok)),
            (seq!['s', 't', 'a', 't', 'u', 's'], JsonView::Int(o.status)),
            (
                seq!['s', 't', 'a', 't', 'u', 's', 'T', 'e', 'x', 't'],
                JsonView::Str(o.status_text),
            ),
            (
                seq!['h', 'e', 'a', 'd', 'e', 'r', 's'],
                JsonView::Obj(Seq::new(o.headers.len(), |i: int| (o.headers[i].0, JsonView::Str(o.headers[i].1)))),
            ),
            (seq!['d', 'a', 't', 'a'], o.data),
        ],
    )
}

/// Build the JSON value a script observes for an outcome.
pub fn outcome_to_json(o: &FetchOutcome) -> (v: JsonValue)
    ensures
        v.view() == outcome_json(o.view()),
{
    proof {
        reveal_strlit("ok");
        reveal_strlit("status");
        reveal_strlit("statusText");
        reveal_strlit("headers");
        reveal_strlit("data");
    }
    let mut hdr_pairs: Vec<(String, JsonValue)> = Vec::new();
    let mut i: usize = 0;
    while i < o.headers.len()
        invariant
            0 <= i <= o.headers@.len(),
            hdr_pairs@.len() == i,
            forall|k: int|
                0 <= k < i ==> (#[trigger] hdr_pairs@[k]).0@ == o.headers@[k].0@
                    && hdr_pairs@[k].1.view() == JsonView::Str(o.headers@[k].1@),
        decreases o.headers@.len() - i,
    {
        let k = clone_string(&o.headers[i].0);
        let val = clone_string(&o.headers[i].1);
        hdr_pairs.push((k, JsonValue::Str(val)));
        i += 1;
    }
    let mut pairs: Vec<(String, JsonValue)> = Vec::new();
    pairs.push((String::from_str("ok"), JsonValue::Bool(o.ok)));
    pairs.push((String::from_str("status"), JsonValue::Int(o.status as i64)));
    pairs.push((String::from_str("statusText"), JsonValue::Str(clone_string(&o.status_text))));
    pairs.push((String::from_str("headers"), JsonValue::Obj(hdr_pairs)));
    pairs.push((String::from_str("data"), clone_value(&o.data)));
    let v = JsonValue::Obj(pairs);
    proof {
        assert("ok"@ =~= seq!['o', 'k']);
        assert("status"@ =~= seq!['s', 't', 'a', 't', 'u', 's']);
        assert("statusText"@ =~= seq!['s', 't', 'a', 't', 'u', 's', 'T', 'e', 'x', 't']);
        assert("headers"@ =~= seq!['h', 'e', 'a', 'd', 'e', 'r', 's']);
        assert("data"@ =~= seq!['d', 'a', 't', 'a']);
        let pw = JsonValue::pairs_view(pairs);
        let tw = outcome_json(o.view())->Obj_0;
        assert(pairs@.len() == 5);
        assert(pw[0] == (pairs@[0].0@, pairs@[0].1.view()));
        assert(pw[1] == (pairs@[1].0@, pairs@[1].1.view()));
        assert(pw[2] == (pairs@[2].0@, pairs@[2].1.view()));
        assert(pw[3] == (pairs@[3].0@, pairs@[3].1.view()));
        assert(pw[4] == (pairs@[4].0@, pairs@[4].1.view()));
        assert(pw[3].1->Obj_0 =~= tw[3].1->Obj_0);
        assert(pw[3] == tw[3]);
        assert(pw =~= tw);
    }
    v
}

} // verus!
