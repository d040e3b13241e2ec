use sandbox_replay::canon::canonicalize;
use sandbox_replay::json::JsonValue;
use sandbox_replay::ser::{chars_to_string, serialize};

fn chars(s: &str) -> Vec<char> {
    s.chars().collect()
}

fn obj(pairs: Vec<(&str, JsonValue)>) -> JsonValue {
    JsonValue::Obj(pairs.into_iter().map(|(k, v)| (k.to_string(), v)).collect())
}

#[test]
fn scalars() {
    assert_eq!(serialize(&JsonValue::Null), chars("null"));
    assert_eq!(serialize(&JsonValue::Bool(true)), chars("true"));
    assert_eq!(serialize(&JsonValue::Bool(false)), chars("false"));
    assert_eq!(serialize(&JsonValue::Int(0)), chars("0"));
    assert_eq!(serialize(&JsonValue::Int(42)), chars("42"));
    assert_eq!(serialize(&JsonValue::Int(-5)), chars("-5"));
    assert_eq!(serialize(&JsonValue::Int(i64::MAX)), chars("9223372036854775807"));
    assert_eq!(serialize(&JsonValue::Int(i64::MIN)), chars("-9223372036854775808"));
}

#[test]
fn carried_numbers_are_emitted_verbatim() {
    assert_eq!(serialize(&JsonValue::Num("0.75".to_string())), chars("0.75"));
    assert_eq!(serialize(&JsonValue::Num("-1.5e10".to_string())), chars("-1.5e10"));
    assert_eq!(
        serialize(&obj(vec![("price", JsonValue::Num("9.99".to_string()))])),
        chars("{\"price\":9.99}")
    );
}

#[test]
fn fractional_numbers_round_trip_through_a_json_parser() {
    let v = obj(vec![
        ("f", JsonValue::Num("0.5".to_string())),
        ("big", JsonValue::Num("343412345678910111213141516171819202122".to_string())),
    ]);
    let text: String = serialize(&v).into_iter().collect();
    let parsed: serde_json::Value = serde_json::from_str(&text).unwrap();
    let direct: serde_json::Value =
        serde_json::from_str("{\"f\":0.5,\"big\":343412345678910111213141516171819202122}")
            .unwrap();
    assert_eq!(parsed, direct);
}

#[test]
fn strings_and_escapes() {
    assert_eq!(serialize(&JsonValue::Str("abc".to_string())), chars("\"abc\""));
    assert_eq!(
        serialize(&JsonValue::Str("a\"b\\c".to_string())),
        chars("\"a\\\"b\\\\c\"")
    );
    assert_eq!(
        serialize(&JsonValue::Str("\u{08}\t\n\u{0C}\r".to_string())),
        chars("\"\\b\\t\\n\\f\\r\"")
    );
    assert_eq!(
        serialize(&JsonValue::Str("\u{01}\u{1f}".to_string())),
        chars("\"\\u0001\\u001f\"")
    );
    // non-ASCII stands as itself
    assert_eq!(serialize(&JsonValue::Str("héllo".to_string())), chars("\"héllo\""));
}

#[test]
fn containers() {
    let v = JsonValue::Arr(vec![
        JsonValue::Int(1),
        JsonValue::Arr(vec![]),
        obj(vec![("k", JsonValue::Null)]),
    ]);
    assert_eq!(serialize(&v), chars("[1,[],{\"k\":null}]"));
    assert_eq!(serialize(&obj(vec![])), chars("{}"));
}

#[test]
fn serialization_preserves_stored_member_order() {
    let v = obj(vec![("b", JsonValue::Int(1)), ("a", JsonValue::Int(2))]);
    assert_eq!(serialize(&v), chars("{\"b\":1,\"a\":2}"));
}

#[test]
fn canonicalize_orders_members_recursively() {
    let v = obj(vec![
        ("b", JsonValue::Int(1)),
        ("a", obj(vec![("z", JsonValue::Int(3)), ("y", JsonValue::Int(4))])),
    ]);
    let c = canonicalize(&v);
    assert_eq!(serialize(&c), chars("{\"a\":{\"y\":4,\"z\":3},\"b\":1}"));
}

#[test]
fn canonicalize_reaches_objects_inside_arrays() {
    let v = JsonValue::Arr(vec![obj(vec![
        ("b", JsonValue::Int(1)),
        ("a", JsonValue::Int(2)),
    ])]);
    let c = canonicalize(&v);
    assert_eq!(serialize(&c), chars("[{\"a\":2,\"b\":1}]"));
}

#[test]
fn round_trips_through_a_json_parser() {
    // the serialized text is real JSON: an independent parser reads back
    // the same structure
    let v = obj(vec![
        ("text", JsonValue::Str("a\"b\\c\nd".to_string())),
        ("n", JsonValue::Int(-12)),
        ("items", JsonValue::Arr(vec![JsonValue::Bool(true), JsonValue::Null])),
    ]);
    let text: String = serialize(&v).into_iter().collect();
    let parsed: serde_json::Value = serde_json::from_str(&text).unwrap();
    assert_eq!(parsed["text"], serde_json::Value::String("a\"b\\c\nd".to_string()));
    assert_eq!(parsed["n"], serde_json::Value::from(-12i64));
    assert_eq!(parsed["items"][0], serde_json::Value::Bool(true));
    assert_eq!(parsed["items"][1], serde_json::Value::Null);
}

#[test]
fn canonical_order_is_lexicographic() {
    let v = obj(vec![
        ("ab", JsonValue::Int(2)),
        ("a", JsonValue::Int(1)),
        ("", JsonValue::Int(0)),
        ("b", JsonValue::Int(3)),
    ]);
    let c = canonicalize(&v);
    assert_eq!(serialize(&c), chars("{\"\":0,\"a\":1,\"ab\":2,\"b\":3}"));
}

#[test]
fn canonical_order_keeps_repeated_keys_in_arrival_order() {
    // repeated keys cannot come out of a script's object, but the encoder
    // is total: it sorts stably, keeping same-key pairs as they arrived
    let v = obj(vec![
        ("b", JsonValue::Int(1)),
        ("a", JsonValue::Int(2)),
        ("b", JsonValue::Int(3)),
    ]);
    let c = canonicalize(&v);
    assert_eq!(serialize(&c), chars("{\"a\":2,\"b\":1,\"b\":3}"));
}

#[test]
fn chars_to_string_returns_exactly_the_characters() {
    assert_eq!(chars_to_string(&vec!['a', 'b', 'c']), "abc");
    assert_eq!(chars_to_string(&vec![]), "");
    assert_eq!(chars_to_string(&chars("héllo\n")), "héllo\n");
}
