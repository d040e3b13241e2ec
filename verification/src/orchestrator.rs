//! The execution orchestrator's state machine.
//!
//! One request runs through `Discover`, then — unless discovery found no
//! capability calls — `Dispatch` and `Replay`, ending in `Done`. The state
//! value doubles as the instruction to the surrounding runtime: a
//! `Dispatch` state carries the calls to fan out, a `Replay` state the
//! cache to answer the second pass from, a `Done` state the result to
//! return. The transitions here are pure; the runtime performs the pass
//! evaluations and network calls between them and reports their outcomes
//! back.

use vstd::prelude::*;

use crate::cache::{build_cache, cache_spec, ReplayCache};
use crate::descriptor::{descriptors_view, CallDescriptor};
use crate::fetch::{prepare_request, FetchOutcome, PreparedRequest};
use crate::json::JsonValue;

verus! {

/// Why a request failed.
#[derive(Debug, Clone, Copy, PartialEq, Eq, Structural)]
pub enum FailureKind {
    /// The request itself was unusable; rejected at the boundary.
    ClientInput,
    /// An interpreter or context could not be constructed.
    SandboxInit,
    /// Caller input could not be serialized into the sandbox.
    Injection,
    /// The script failed during the replay pass.
    ScriptEval,
}

/// The terminal result of one request: the script's value, or a failure
/// with its kind and diagnostic. Exactly one of the two exists.
#[derive(Debug, PartialEq, Eq)]
pub enum ExecutionResult {
    Success(JsonValue),
    Failure(FailureKind, String),
}

/// Where one request's orchestration stands.
#[derive(Debug, PartialEq, Eq)]
pub enum OrchestratorState {
    /// Run the discovery pass next.
    Discover,
    /// Fan out one fetch per discovered descriptor, all concurrently.
    Dispatch(Vec<CallDescriptor>),
    /// Run the replay pass next, answering from this cache.
    Replay(ReplayCache),
    /// Return this result.
    Done(ExecutionResult),
}

/// How the discovery pass ended, as reported by the runtime.
#[derive(Debug)]
pub enum DiscoveryOutcome {
    /// The pass could not run at all: constructing the sandbox or
    /// injecting the inputs failed. Script exceptions are not reported
    /// this way — they are swallowed during discovery.
    Failed(FailureKind, String),
    /// The pass ran; these calls were recorded, and `direct` is the
    /// script's own evaluation outcome, used as the final result when no
    /// calls were recorded.
    Completed(Vec<CallDescriptor>, Result<JsonValue, String>),
}

/// A fresh request starts in `Discover`.
pub fn start() -> (s: OrchestratorState)
    ensures
        s == OrchestratorState::Discover,
{
    OrchestratorState::Discover
}

/// Leave `Discover`. A pass that could not run aborts the request with
/// its failure. Otherwise, with no recorded calls the discovery result is
/// itself the final result — the fast path: dispatch and replay never run
/// and cannot alter it — and with recorded calls the request moves to
/// `Dispatch` carrying exactly those calls, in discovery order.
pub fn on_discovered(s: OrchestratorState, outcome: DiscoveryOutcome) -> (next: OrchestratorState)
    requires
        s is Discover,
    ensures
        next == match outcome {
            DiscoveryOutcome::Failed(kind, message) => OrchestratorState::Done(
                ExecutionResult::Failure(kind, message),
            ),
            DiscoveryOutcome::Completed(calls, direct) => {
                if calls@.len() == 0 {
                    OrchestratorState::Done(
                        match direct {
                            Ok(v) => ExecutionResult::Success(v),
                            Err(m) => ExecutionResult::Failure(FailureKind::ScriptEval, m),
                        },
                    )
                } else {
                    OrchestratorState::Dispatch(calls)
                }
            },
        },
{
    match outcome {
        DiscoveryOutcome::Failed(kind, message) => OrchestratorState::Done(
            ExecutionResult::Failure(kind, message),
        ),
        DiscoveryOutcome::Completed(calls, direct) => {
            if calls.is_empty() {
                OrchestratorState::Done(
                    match direct {
                        Ok(v) => ExecutionResult::Success(v),
                        Err(m) => ExecutionResult::Failure(FailureKind::ScriptEval, m),
                    },
                )
            } else {
                OrchestratorState::Dispatch(calls)
            }
        },
    }
}

/// Resolve every descriptor of a `Dispatch` state into its concrete
/// request: exactly one request per discovered call, in order. The runtime
/// performs them all concurrently; no ordering between them is required.
pub fn dispatch_requests(descs: &Vec<CallDescriptor>) -> (rs: Vec<PreparedRequest>)
    ensures
        rs@.len() == descs@.len(),
        forall|i: int|
            0 <= i < descs@.len() ==> {
                &&& (#[trigger] rs@[i]).url@ == descs@[i].url@
                &&& rs@[i].method == crate::fetch::method_of(descs@[i].options.view())
                &&& Seq::new(
                    rs@[i].headers@.len(),
                    |k: int| (rs@[i].headers@[k].0@, rs@[i].headers@[k].1@),
                ) == crate::fetch::headers_of(descs@[i].options.view())
                &&& match rs@[i].body {
                    Some(b) => crate::fetch::body_of(descs@[i].options.view()) == Some(b@),
                    None => crate::fetch::body_of(descs@[i].options.view()) is None,
                }
            },
{
    let mut rs: Vec<PreparedRequest> = Vec::new();
    let mut i: usize = 0;
    while i < descs.len()
        invariant
            0 <= i <= descs@.len(),
            rs@.len() == i,
            forall|k: int|
                0 <= k < i ==> {
                    &&& (#[trigger] rs@[k]).url@ == descs@[k].url@
                    &&& rs@[k].method == crate::fetch::method_of(descs@[k].options.view())
                    &&& Seq::new(
                        rs@[k].headers@.len(),
                        |l: int| (rs@[k].headers@[l].0@, rs@[k].headers@[l].1@),
                    ) == crate::fetch::headers_of(descs@[k].options.view())
                    &&& match rs@[k].body {
                        Some(b) => crate::fetch::body_of(descs@[k].options.view()) == Some(b@),
                        None => crate::fetch::body_of(descs@[k].options.view()) is None,
                    }
                },
        decreases descs@.len() - i,
    {
        let r = prepare_request(&descs[i]);
        rs.push(r);
        i += 1;
    }
    rs
}

/// Leave `Dispatch` once every fetch has come back, each outcome at its
/// descriptor's position. Dispatch failures never abort the request: they
/// arrive as failed outcomes like any other. The cache built here maps
/// each discovered call's canonical key to its outcome, a later same-key
/// call overriding an earlier one.
pub fn on_dispatched(s: OrchestratorState, outcomes: Vec<FetchOutcome>) -> (next: OrchestratorState)
    requires
        s is Dispatch,
        outcomes@.len() == s->Dispatch_0@.len(),
    ensures
        next is Replay,
        next->Replay_0.distinct(),
        next->Replay_0.as_map() == cache_spec(
            descriptors_view(s->Dispatch_0@),
            Seq::new(outcomes@.len(), |i: int| outcomes@[i].view()),
        ),
{
    match s {
        OrchestratorState::Dispatch(descs) => {
            let cache = build_cache(&descs, &outcomes);
            OrchestratorState::Replay(cache)
        },
        _ => OrchestratorState::Replay(ReplayCache { entries: Vec::new() }),
    }
}

/// Leave `Replay`: the second pass's value is the request's result, and a
/// second-pass evaluation failure is the request's terminal failure —
/// nothing shields the caller from a script bug once real data is present.
pub fn on_replayed(s: OrchestratorState, outcome: Result<JsonValue, String>) -> (next:
    OrchestratorState)
    requires
        s is Replay,
    ensures
        next == match outcome {
            Ok(v) => OrchestratorState::Done(ExecutionResult::Success(v)),
            Err(m) => OrchestratorState::Done(
                ExecutionResult::Failure(FailureKind::ScriptEval, m),
            ),
        },
{
    match outcome {
        Ok(v) => OrchestratorState::Done(ExecutionResult::Success(v)),
        Err(m) => OrchestratorState::Done(ExecutionResult::Failure(FailureKind::ScriptEval, m)),
    }
}

} // verus!
