use sandbox_replay::boundary::{
    accept_code, error_body, health_body, inputs_script, results_script, success_body,
};
use sandbox_replay::cache::build_cache;
use sandbox_replay::descriptor::CallDescriptor;
use sandbox_replay::fetch::normalize_response;
use sandbox_replay::json::JsonValue;
use sandbox_replay::ser::serialize;

fn chars(s: &str) -> Vec<char> {
    s.chars().collect()
}

fn obj(pairs: Vec<(&str, JsonValue)>) -> JsonValue {
    JsonValue::Obj(pairs.into_iter().map(|(k, v)| (k.to_string(), v)).collect())
}

#[test]
fn empty_code_is_rejected_at_the_boundary() {
    let r = accept_code("");
    let e = r.unwrap_err();
    assert_eq!(
        serialize(&e),
        chars("{\"error\":\"Invalid code parameter\",\"message\":\"Code cannot be empty\"}")
    );
}

#[test]
fn nonempty_code_reaches_the_core() {
    assert!(accept_code("2+2").is_ok());
    assert!(accept_code(" ").is_ok());
}

#[test]
fn response_bodies() {
    assert_eq!(
        serialize(&success_body(JsonValue::Int(4))),
        chars("{\"result\":4}")
    );
    assert_eq!(
        serialize(&error_body("Execution failed", "boom")),
        chars("{\"error\":\"Execution failed\",\"message\":\"boom\"}")
    );
    assert_eq!(serialize(&health_body()), chars("{\"status\":\"ok\"}"));
}

#[test]
fn inputs_injection_line() {
    // execute("INPUTS.x + 1", {x: 41}): the sandbox sees exactly this global
    let inputs = obj(vec![("x", JsonValue::Int(41))]);
    assert_eq!(inputs_script(&inputs), chars("var INPUTS = {\"x\":41};"));
}

#[test]
fn results_injection_line() {
    let d = CallDescriptor { url: "u".to_string(), options: obj(vec![]) };
    let out = normalize_response(200, "OK".to_string(), vec![], Some(JsonValue::Int(1)));
    let cache = build_cache(&vec![d], &vec![out]);
    assert_eq!(
        results_script(&cache),
        chars(
            "var __httpResults = {\"{\\\"options\\\":{},\\\"url\\\":\\\"u\\\"}\":\
             {\"ok\":true,\"status\":200,\"statusText\":\"OK\",\"headers\":{},\"data\":1}};"
        )
    );
}
