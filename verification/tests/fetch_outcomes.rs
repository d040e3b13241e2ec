use sandbox_replay::fetch::{
    extract_body, extract_headers, normalize_response, outcome_to_json, prepare_request,
    resolve_method, transport_failure, Method,
};
use sandbox_replay::descriptor::CallDescriptor;
use sandbox_replay::json::JsonValue;
use sandbox_replay::ser::serialize;

fn chars(s: &str) -> Vec<char> {
    s.chars().collect()
}

fn obj(pairs: Vec<(&str, JsonValue)>) -> JsonValue {
    JsonValue::Obj(pairs.into_iter().map(|(k, v)| (k.to_string(), v)).collect())
}

#[test]
fn method_defaults_to_get() {
    assert_eq!(resolve_method(&obj(vec![])), Method::Get);
    assert_eq!(resolve_method(&JsonValue::Null), Method::Get);
}

#[test]
fn method_selects_known_names() {
    let m = |name: &str| {
        resolve_method(&obj(vec![("method", JsonValue::Str(name.to_string()))]))
    };
    assert_eq!(m("POST"), Method::Post);
    assert_eq!(m("PUT"), Method::Put);
    assert_eq!(m("DELETE"), Method::Delete);
    assert_eq!(m("GET"), Method::Get);
}

#[test]
fn method_falls_back_on_unrecognized_values() {
    assert_eq!(
        resolve_method(&obj(vec![("method", JsonValue::Str("PATCH".to_string()))])),
        Method::Get
    );
    assert_eq!(resolve_method(&obj(vec![("method", JsonValue::Int(1))])), Method::Get);
}

#[test]
fn body_only_when_string() {
    assert_eq!(
        extract_body(&obj(vec![("body", JsonValue::Str("payload".to_string()))])),
        Some("payload".to_string())
    );
    assert_eq!(extract_body(&obj(vec![("body", JsonValue::Int(3))])), None);
    assert_eq!(extract_body(&obj(vec![])), None);
}

#[test]
fn headers_attached_verbatim() {
    let h = extract_headers(&obj(vec![(
        "headers",
        obj(vec![
            ("x-a", JsonValue::Str("1".to_string())),
            ("x-b", JsonValue::Str("2".to_string())),
        ]),
    )]));
    assert_eq!(h, vec![
        ("x-a".to_string(), "1".to_string()),
        ("x-b".to_string(), "2".to_string()),
    ]);
}

#[test]
fn headers_with_non_string_value_contribute_nothing() {
    let h = extract_headers(&obj(vec![(
        "headers",
        obj(vec![
            ("x-a", JsonValue::Str("1".to_string())),
            ("x-b", JsonValue::Int(2)),
        ]),
    )]));
    assert_eq!(h, Vec::<(String, String)>::new());
    assert_eq!(extract_headers(&obj(vec![("headers", JsonValue::Int(1))])), vec![]);
    assert_eq!(extract_headers(&obj(vec![])), vec![]);
}

#[test]
fn prepare_request_resolves_all_parts() {
    let d = CallDescriptor {
        url: "https://example.com/x".to_string(),
        options: obj(vec![
            ("method", JsonValue::Str("POST".to_string())),
            ("headers", obj(vec![("x-k", JsonValue::Str("v".to_string()))])),
            ("body", JsonValue::Str("data".to_string())),
        ]),
    };
    let r = prepare_request(&d);
    assert_eq!(r.url, "https://example.com/x");
    assert_eq!(r.method, Method::Post);
    assert_eq!(r.headers, vec![("x-k".to_string(), "v".to_string())]);
    assert_eq!(r.body, Some("data".to_string()));
}

#[test]
fn success_is_exactly_the_2xx_class() {
    let o = |status: u16| normalize_response(status, String::new(), vec![], None);
    assert!(o(200).ok);
    assert!(o(204).ok);
    assert!(o(299).ok);
    assert!(!o(199).ok);
    assert!(!o(300).ok);
    assert!(!o(404).ok);
    assert!(!o(500).ok);
}

#[test]
fn unparseable_body_degrades_to_empty_string() {
    let o = normalize_response(200, "OK".to_string(), vec![], None);
    assert_eq!(o.data, JsonValue::Str("".to_string()));
    let o2 = normalize_response(200, "OK".to_string(), vec![], Some(JsonValue::Int(7)));
    assert_eq!(o2.data, JsonValue::Int(7));
}

#[test]
fn transport_failure_is_data_not_an_error() {
    let o = transport_failure("Fetch failed: connect refused".to_string());
    assert!(!o.ok);
    assert_eq!(o.status, 0);
    assert_eq!(o.status_text, "Error");
    assert!(o.headers.is_empty());
    assert_eq!(o.data, JsonValue::Str("Fetch failed: connect refused".to_string()));
}

#[test]
fn outcome_json_has_the_script_visible_shape() {
    let o = normalize_response(
        201,
        "Created".to_string(),
        vec![("content-type".to_string(), "application/json".to_string())],
        Some(JsonValue::Int(5)),
    );
    let v = outcome_to_json(&o);
    assert_eq!(
        serialize(&v),
        chars(
            "{\"ok\":true,\"status\":201,\"statusText\":\"Created\",\
             \"headers\":{\"content-type\":\"application/json\"},\"data\":5}"
        )
    );
}
