use sandbox_replay::descriptor::{canonical_key, parse_descriptors, CallDescriptor};
use sandbox_replay::json::JsonValue;

fn chars(s: &str) -> Vec<char> {
    s.chars().collect()
}

fn obj(pairs: Vec<(&str, JsonValue)>) -> JsonValue {
    JsonValue::Obj(pairs.into_iter().map(|(k, v)| (k.to_string(), v)).collect())
}

#[test]
fn key_of_empty_options() {
    let d = CallDescriptor { url: "https://example.com/a".to_string(), options: obj(vec![]) };
    assert_eq!(canonical_key(&d), chars("{\"options\":{},\"url\":\"https://example.com/a\"}"));
}

#[test]
fn key_orders_top_level_members() {
    // `options` always serializes before `url`, whatever the descriptor held
    let d = CallDescriptor {
        url: "u".to_string(),
        options: obj(vec![("method", JsonValue::Str("POST".to_string()))]),
    };
    assert_eq!(canonical_key(&d), chars("{\"options\":{\"method\":\"POST\"},\"url\":\"u\"}"));
}

#[test]
fn key_ignores_option_key_order() {
    let d1 = CallDescriptor {
        url: "https://example.com".to_string(),
        options: obj(vec![
            ("method", JsonValue::Str("POST".to_string())),
            ("body", JsonValue::Str("x".to_string())),
        ]),
    };
    let d2 = CallDescriptor {
        url: "https://example.com".to_string(),
        options: obj(vec![
            ("body", JsonValue::Str("x".to_string())),
            ("method", JsonValue::Str("POST".to_string())),
        ]),
    };
    assert_eq!(canonical_key(&d1), canonical_key(&d2));
    assert_eq!(
        canonical_key(&d1),
        chars("{\"options\":{\"body\":\"x\",\"method\":\"POST\"},\"url\":\"https://example.com\"}")
    );
}

#[test]
fn key_ignores_nested_key_order() {
    let d1 = CallDescriptor {
        url: "u".to_string(),
        options: obj(vec![(
            "headers",
            obj(vec![
                ("b", JsonValue::Str("2".to_string())),
                ("a", JsonValue::Str("1".to_string())),
            ]),
        )]),
    };
    let d2 = CallDescriptor {
        url: "u".to_string(),
        options: obj(vec![(
            "headers",
            obj(vec![
                ("a", JsonValue::Str("1".to_string())),
                ("b", JsonValue::Str("2".to_string())),
            ]),
        )]),
    };
    assert_eq!(canonical_key(&d1), canonical_key(&d2));
    assert_eq!(
        canonical_key(&d1),
        chars("{\"options\":{\"headers\":{\"a\":\"1\",\"b\":\"2\"}},\"url\":\"u\"}")
    );
}

#[test]
fn keys_differ_for_different_calls() {
    let base = CallDescriptor { url: "u".to_string(), options: obj(vec![]) };
    let other_url = CallDescriptor { url: "v".to_string(), options: obj(vec![]) };
    let other_method = CallDescriptor {
        url: "u".to_string(),
        options: obj(vec![("method", JsonValue::Str("POST".to_string()))]),
    };
    assert_ne!(canonical_key(&base), canonical_key(&other_url));
    assert_ne!(canonical_key(&base), canonical_key(&other_method));
    assert_ne!(canonical_key(&other_url), canonical_key(&other_method));
}

#[test]
fn key_carries_fractional_numbers_verbatim() {
    let d1 = CallDescriptor {
        url: "u".to_string(),
        options: obj(vec![
            ("timeout", JsonValue::Num("1.5".to_string())),
            ("body", JsonValue::Str("x".to_string())),
        ]),
    };
    let d2 = CallDescriptor {
        url: "u".to_string(),
        options: obj(vec![
            ("body", JsonValue::Str("x".to_string())),
            ("timeout", JsonValue::Num("1.5".to_string())),
        ]),
    };
    assert_eq!(canonical_key(&d1), canonical_key(&d2));
    assert_eq!(
        canonical_key(&d1),
        chars("{\"options\":{\"body\":\"x\",\"timeout\":1.5},\"url\":\"u\"}")
    );
}

#[test]
fn key_with_unicode_url() {
    let d = CallDescriptor { url: "https://ex.com/héllo✓".to_string(), options: obj(vec![]) };
    assert_eq!(
        canonical_key(&d),
        chars("{\"options\":{},\"url\":\"https://ex.com/héllo✓\"}")
    );
}

#[test]
fn parse_descriptors_keeps_items_with_urls() {
    let recorded = JsonValue::Arr(vec![
        obj(vec![
            ("url", JsonValue::Str("https://a".to_string())),
            ("options", obj(vec![("method", JsonValue::Str("POST".to_string()))])),
        ]),
        obj(vec![("url", JsonValue::Str("https://b".to_string()))]),
    ]);
    let ds = parse_descriptors(&recorded);
    assert_eq!(ds.len(), 2);
    assert_eq!(ds[0].url, "https://a");
    assert_eq!(
        ds[0].options,
        obj(vec![("method", JsonValue::Str("POST".to_string()))])
    );
    assert_eq!(ds[1].url, "https://b");
    // an absent options member defaults to the empty object
    assert_eq!(ds[1].options, obj(vec![]));
}

#[test]
fn parse_descriptors_skips_unusable_items() {
    let recorded = JsonValue::Arr(vec![
        // no url member
        obj(vec![("options", obj(vec![]))]),
        // empty url
        obj(vec![("url", JsonValue::Str("".to_string()))]),
        // url not a string
        obj(vec![("url", JsonValue::Int(3))]),
        // not an object at all
        JsonValue::Str("https://a".to_string()),
        // non-object options degrade to the empty object
        obj(vec![
            ("url", JsonValue::Str("https://keep".to_string())),
            ("options", JsonValue::Int(1)),
        ]),
    ]);
    let ds = parse_descriptors(&recorded);
    assert_eq!(ds.len(), 1);
    assert_eq!(ds[0].url, "https://keep");
    assert_eq!(ds[0].options, obj(vec![]));
}

#[test]
fn parse_descriptors_of_non_array_is_empty() {
    assert_eq!(parse_descriptors(&JsonValue::Null).len(), 0);
    assert_eq!(parse_descriptors(&obj(vec![])).len(), 0);
}
