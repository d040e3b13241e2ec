use sandbox_replay::cache::build_cache;
use sandbox_replay::descriptor::{canonical_key, CallDescriptor};
use sandbox_replay::fetch::{normalize_response, transport_failure, FetchOutcome};
use sandbox_replay::json::JsonValue;
use sandbox_replay::orchestrator::{
    dispatch_requests, on_discovered, on_dispatched, on_replayed, start, DiscoveryOutcome,
    ExecutionResult, FailureKind, OrchestratorState,
};

fn obj(pairs: Vec<(&str, JsonValue)>) -> JsonValue {
    JsonValue::Obj(pairs.into_iter().map(|(k, v)| (k.to_string(), v)).collect())
}

fn get_descriptor(url: &str) -> CallDescriptor {
    CallDescriptor { url: url.to_string(), options: obj(vec![]) }
}

fn ok_outcome(status: u16, data: JsonValue) -> FetchOutcome {
    normalize_response(status, "OK".to_string(), vec![], Some(data))
}

#[test]
fn fast_path_returns_the_discovery_result() {
    // a script with no capability calls: its own value is the final result,
    // dispatch and replay never run
    let s = start();
    let next = on_discovered(s, DiscoveryOutcome::Completed(vec![], Ok(JsonValue::Int(4))));
    assert_eq!(next, OrchestratorState::Done(ExecutionResult::Success(JsonValue::Int(4))));
}

#[test]
fn fast_path_carries_fractional_results() {
    // a script like 0.5 + 0.25: the interpreter's fractional value flows
    // through as its decimal text, never narrowed
    let s = start();
    let next = on_discovered(
        s,
        DiscoveryOutcome::Completed(vec![], Ok(JsonValue::Num("0.75".to_string()))),
    );
    match next {
        OrchestratorState::Done(ExecutionResult::Success(v)) => {
            let body = sandbox_replay::boundary::success_body(v);
            let text: String = sandbox_replay::ser::serialize(&body).into_iter().collect();
            assert_eq!(text, "{\"result\":0.75}");
        }
        other => panic!("expected success, got {:?}", other),
    }
}

#[test]
fn fast_path_surfaces_a_failing_script() {
    let s = start();
    let next = on_discovered(
        s,
        DiscoveryOutcome::Completed(vec![], Err("Evaluation error: x is not defined".to_string())),
    );
    assert_eq!(
        next,
        OrchestratorState::Done(ExecutionResult::Failure(
            FailureKind::ScriptEval,
            "Evaluation error: x is not defined".to_string()
        ))
    );
}

#[test]
fn discovery_init_failure_aborts_the_request() {
    let s = start();
    let next = on_discovered(
        s,
        DiscoveryOutcome::Failed(FailureKind::SandboxInit, "Runtime error".to_string()),
    );
    assert_eq!(
        next,
        OrchestratorState::Done(ExecutionResult::Failure(
            FailureKind::SandboxInit,
            "Runtime error".to_string()
        ))
    );
}

#[test]
fn discovered_calls_move_to_dispatch_in_order() {
    let s = start();
    let calls = vec![get_descriptor("https://a"), get_descriptor("https://b")];
    let next = on_discovered(s, DiscoveryOutcome::Completed(calls, Ok(JsonValue::Null)));
    match next {
        OrchestratorState::Dispatch(ds) => {
            assert_eq!(ds.len(), 2);
            assert_eq!(ds[0].url, "https://a");
            assert_eq!(ds[1].url, "https://b");
        }
        other => panic!("expected Dispatch, got {:?}", other),
    }
}

#[test]
fn three_calls_mean_three_requests() {
    // the fan-out is one fetch per discovered call, no more, no fewer
    let descs = vec![
        get_descriptor("https://a"),
        get_descriptor("https://b"),
        get_descriptor("https://c"),
    ];
    let rs = dispatch_requests(&descs);
    assert_eq!(rs.len(), 3);
    assert_eq!(rs[0].url, "https://a");
    assert_eq!(rs[1].url, "https://b");
    assert_eq!(rs[2].url, "https://c");
}

#[test]
fn replay_observes_the_dispatched_outcome() {
    // const r = httpGet(U); r.status — with dispatch returning 200 for U,
    // the replay lookup under the canonical key finds status 200, never the
    // discovery placeholder
    let descs = vec![get_descriptor("https://u")];
    let outs = vec![ok_outcome(200, JsonValue::Null)];
    let s = on_discovered(
        start(),
        DiscoveryOutcome::Completed(descs, Ok(JsonValue::Null)),
    );
    let s = on_dispatched(s, outs);
    match &s {
        OrchestratorState::Replay(cache) => {
            // the replaying shim reconstructs the descriptor independently
            let replay_side = get_descriptor("https://u");
            let found = cache.lookup(&canonical_key(&replay_side)).unwrap();
            assert_eq!(found.status, 200);
            assert!(found.ok);
        }
        other => panic!("expected Replay, got {:?}", other),
    }
    let done = on_replayed(s, Ok(JsonValue::Int(200)));
    assert_eq!(done, OrchestratorState::Done(ExecutionResult::Success(JsonValue::Int(200))));
}

#[test]
fn replay_lookup_ignores_option_key_order() {
    let dispatched = CallDescriptor {
        url: "https://u".to_string(),
        options: obj(vec![
            ("method", JsonValue::Str("POST".to_string())),
            ("body", JsonValue::Str("x".to_string())),
        ]),
    };
    let cache = build_cache(&vec![dispatched], &vec![ok_outcome(201, JsonValue::Null)]);
    let replay_side = CallDescriptor {
        url: "https://u".to_string(),
        options: obj(vec![
            ("body", JsonValue::Str("x".to_string())),
            ("method", JsonValue::Str("POST".to_string())),
        ]),
    };
    let found = cache.lookup(&canonical_key(&replay_side)).unwrap();
    assert_eq!(found.status, 201);
}

#[test]
fn duplicate_calls_cache_one_entry_and_the_last_outcome_wins() {
    // httpGet(U) twice: two descriptors, one cache entry, both replay calls
    // observing the later dispatch result
    let descs = vec![get_descriptor("https://u"), get_descriptor("https://u")];
    let outs = vec![
        ok_outcome(200, JsonValue::Str("first".to_string())),
        ok_outcome(200, JsonValue::Str("second".to_string())),
    ];
    let cache = build_cache(&descs, &outs);
    assert_eq!(cache.entries.len(), 1);
    let key = canonical_key(&get_descriptor("https://u"));
    let found = cache.lookup(&key).unwrap();
    assert_eq!(found.data, JsonValue::Str("second".to_string()));
}

#[test]
fn network_failure_flows_into_replay_as_data() {
    // a connect failure for U: the pipeline proceeds, the script observes
    // ok === false with status 0, and the request still succeeds with
    // whatever the script computes from that
    let descs = vec![get_descriptor("https://down")];
    let outs = vec![transport_failure("Fetch failed: connect refused".to_string())];
    let s = on_discovered(
        start(),
        DiscoveryOutcome::Completed(descs, Ok(JsonValue::Null)),
    );
    let s = on_dispatched(s, outs);
    match &s {
        OrchestratorState::Replay(cache) => {
            let key = canonical_key(&get_descriptor("https://down"));
            let found = cache.lookup(&key).unwrap();
            assert!(!found.ok);
            assert_eq!(found.status, 0);
            assert_eq!(found.status_text, "Error");
        }
        other => panic!("expected Replay, got {:?}", other),
    }
    let done = on_replayed(s, Ok(JsonValue::Bool(false)));
    assert_eq!(done, OrchestratorState::Done(ExecutionResult::Success(JsonValue::Bool(false))));
}

#[test]
fn cache_misses_answer_none() {
    let cache = build_cache(
        &vec![get_descriptor("https://u")],
        &vec![ok_outcome(200, JsonValue::Null)],
    );
    let other = canonical_key(&get_descriptor("https://elsewhere"));
    assert!(cache.lookup(&other).is_none());
}

#[test]
fn replay_failure_is_the_terminal_failure() {
    let s = on_discovered(
        start(),
        DiscoveryOutcome::Completed(vec![get_descriptor("https://u")], Ok(JsonValue::Null)),
    );
    let s = on_dispatched(s, vec![ok_outcome(200, JsonValue::Null)]);
    let done = on_replayed(s, Err("Evaluation error: boom".to_string()));
    assert_eq!(
        done,
        OrchestratorState::Done(ExecutionResult::Failure(
            FailureKind::ScriptEval,
            "Evaluation error: boom".to_string()
        ))
    );
}
