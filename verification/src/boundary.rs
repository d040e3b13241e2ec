//! What the core hands the thin transport layer.
//!
//! The HTTP front door itself is out of scope, but everything it says is
//! computed here: the admission check on a request's code, the exact
//! response bodies for success, failure and liveness, and the script text
//! that injects caller inputs and the replay cache into a sandbox.

use vstd::prelude::*;

use crate::cache::{cache_json, ReplayCache};
use crate::json::{JsonValue, JsonView};
use crate::ser::ser;

verus! {

/// The body `{error, message}` every failure is rendered as.
pub open spec fn error_body_spec(error: Seq<char>, message: Seq<char>) -> JsonView {
    JsonView::Obj(
        seq![
            (seq!['e', 'r', 'r', 'o', 'r'], JsonView::Str(error)),
            (seq!['m', 'e', 's', 's', 'a', 'g', 'e'], JsonView::Str(message)),
        ],
    )
}

/// The body `{result: value}` a successful execution is rendered as.
pub open spec fn success_body_spec(result: JsonView) -> JsonView {
    JsonView::Obj(seq![(seq!['r', 'e', 's', 'u', 'l', 't'], result)])
}

/// The liveness body `{status: "ok"}`.
pub open spec fn health_body_spec() -> JsonView {
    JsonView::Obj(seq![(seq!['s', 't', 'a', 't', 'u', 's'], JsonView::Str(seq!['o', 'k']))])
}

/// Build an `{error, message}` body.
pub fn error_body(error: &str, message: &str) -> (v: JsonValue)
    ensures
        v.view() == error_body_spec(error@, message@),
{
    proof {
        reveal_strlit("error");
        reveal_strlit("message");
        assert("error"@ =~= seq!['e', 'r', 'r', 'o', 'r']);
        assert("message"@ =~= seq!['m', 'e', 's', 's', 'a', 'g', 'e']);
    }
    let mut pairs: Vec<(String, JsonValue)> = Vec::new();
    pairs.push((String::from_str("error"), JsonValue::Str(String::from_str(error))));
    pairs.push((String::from_str("message"), JsonValue::Str(String::from_str(message))));
    let v = JsonValue::Obj(pairs);
    proof {
        let pw = v.view()->Obj_0;
        assert(pw[0] == (pairs@[0].0@, pairs@[0].1.view()));
        assert(pw[1] == (pairs@[1].0@, pairs@[1].1.view()));
        assert(pw[0] == (seq!['e', 'r', 'r', 'o', 'r'], JsonView::Str(error@)));
        assert(pw[1] == (seq!['m', 'e', 's', 's', 'a', 'g', 'e'], JsonView::Str(message@)));
        assert(pw =~= error_body_spec(error@, message@)->Obj_0);
    }
    v
}

/// Build the `{result: value}` body around an execution's value.
pub fn success_body(result: JsonValue) -> (v: JsonValue)
    ensures
        v.view() == success_body_spec(result.view()),
{
    proof {
        reveal_strlit("result");
        assert("result"@ =~= seq!['r', 'e', 's', 'u', 'l', 't']);
    }
    let ghost rv = result.view();
    let mut pairs: Vec<(String, JsonValue)> = Vec::new();
    pairs.push((String::from_str("result"), result));
    let v = JsonValue::Obj(pairs);
    proof {
        let pw = v.view()->Obj_0;
        assert(pw[0] == (pairs@[0].0@, pairs@[0].1.view()));
        assert(pw =~= success_body_spec(rv)->Obj_0);
    }
    v
}

/// Build the liveness body.
pub fn health_body() -> (v: JsonValue)
    ensures
        v.view() == health_body_spec(),
{
    proof {
        reveal_strlit("status");
        reveal_strlit("ok");
        assert("status"@ =~= seq!['s', 't', 'a', 't', 'u', 's']);
        assert("ok"@ =~= seq!['o', 'k']);
    }
    let mut pairs: Vec<(String, JsonValue)> = Vec::new();
    pairs.push((String::from_str("status"), JsonValue::Str(String::from_str("ok"))));
    let v = JsonValue::Obj(pairs);
    proof {
        let pw = v.view()->Obj_0;
        assert(pw[0] == (pairs@[0].0@, pairs@[0].1.view()));
        assert(pw[0] == (
            seq!['s', 't', 'a', 't', 'u', 's'],
            JsonView::Str(seq!['o', 'k']),
        ));
        assert(pw =~= health_body_spec()->Obj_0);
    }
    v
}

/// Admit a request's code to the orchestrator, or reject it: empty code
/// never reaches the orchestrator — it is answered at the boundary with
/// the client-error body, and nothing else is rejected here.
pub fn accept_code(code: &str) -> (r: Result<(), JsonValue>)
    ensures
        r is Err <==> code@.len() == 0,
        r matches Err(e) ==> e.view() == error_body_spec(
            "Invalid code parameter"@,
            "Code cannot be empty"@,
        ),
{
    if code.is_empty() {
        Err(error_body("Invalid code parameter", "Code cannot be empty"))
    } else {
        Ok(())
    }
}

/// The injection line that makes the caller's inputs visible to the
/// script as the global `INPUTS`.
pub open spec fn inputs_script_spec(inputs: JsonView) -> Seq<char> {
    "var INPUTS = "@ + ser(inputs) + ";"@
}

/// Build the `INPUTS` injection line for a sandbox.
pub fn inputs_script(inputs: &JsonValue) -> (r: Vec<char>)
    ensures
        r@ == inputs_script_spec(inputs.view()),
{
    let mut out: Vec<char> = Vec::new();
    crate::ser::push_chars("var INPUTS = ", &mut out);
    let body = crate::ser::serialize(inputs);
    let ghost before = out@;
    let mut i: usize = 0;
    while i < body.len()
        invariant
            0 <= i <= body@.len(),
            out@ == before + body@.take(i as int),
        decreases body@.len() - i,
    {
        out.push(body[i]);
        proof {
            assert(body@.take(i + 1) =~= body@.take(i as int).push(body@[i as int]));
            assert(out@ =~= before + body@.take(i + 1));
        }
        i += 1;
    }
    proof {
        assert(body@.take(body@.len() as int) =~= body@);
    }
    crate::ser::push_chars(";", &mut out);
    out
}

/// The injection line that hands the replay pass its cache, under the
/// global the replaying shim reads.
pub open spec fn results_script_spec(cache: Seq<(Seq<char>, crate::fetch::FetchView)>) -> Seq<
    char,
> {
    "var __httpResults = "@ + ser(cache_json(cache)) + ";"@
}

/// Build the cache injection line for the replay sandbox.
pub fn results_script(cache: &ReplayCache) -> (r: Vec<char>)
    ensures
        r@ == results_script_spec(cache.view()),
{
    let cache_value = crate::cache::cache_to_json(cache);
    let mut out: Vec<char> = Vec::new();
    crate::ser::push_chars("var __httpResults = ", &mut out);
    let body = crate::ser::serialize(&cache_value);
    let ghost before = out@;
    let mut i: usize = 0;
    while i < body.len()
        invariant
            0 <= i <= body@.len(),
            out@ == before + body@.take(i as int),
        decreases body@.len() - i,
    {
        out.push(body[i]);
        proof {
            assert(body@.take(i + 1) =~= body@.take(i as int).push(body@[i as int]));
            assert(out@ =~= before + body@.take(i + 1));
        }
        i += 1;
    }
    proof {
        assert(body@.take(body@.len() as int) =~= body@);
    }
    crate::ser::push_chars(";", &mut out);
    out
}

} // verus!
