use toon::json_stream::json_stream_from_events;
use toon::json_stringify::json_stringify_lines;
use toon::types::{JsonPrimitive, JsonStreamEvent, JsonValue};

fn join(chunks: &[String]) -> String {
    chunks.concat()
}

fn prim(p: JsonPrimitive) -> JsonValue {
    JsonValue::Primitive(p)
}

fn sample_tree() -> JsonValue {
    JsonValue::Object(vec![
        (
            "a".to_string(),
            JsonValue::Array(vec![
                prim(JsonPrimitive::Number("1".to_string())),
                prim(JsonPrimitive::Bool(true)),
                prim(JsonPrimitive::Null),
            ]),
        ),
        ("b".to_string(), JsonValue::Object(vec![])),
        ("c".to_string(), prim(JsonPrimitive::Str("x\"y".to_string()))),
    ])
}

/// The depth-first walk of `sample_tree`, written out by hand.
fn sample_events() -> Vec<JsonStreamEvent> {
    vec![
        JsonStreamEvent::StartObject,
        JsonStreamEvent::Key { key: "a".to_string() },
        JsonStreamEvent::StartArray,
        JsonStreamEvent::Primitive { value: JsonPrimitive::Number("1".to_string()) },
        JsonStreamEvent::Primitive { value: JsonPrimitive::Bool(true) },
        JsonStreamEvent::Primitive { value: JsonPrimitive::Null },
        JsonStreamEvent::EndArray,
        JsonStreamEvent::Key { key: "b".to_string() },
        JsonStreamEvent::StartObject,
        JsonStreamEvent::EndObject,
        JsonStreamEvent::Key { key: "c".to_string() },
        JsonStreamEvent::Primitive { value: JsonPrimitive::Str("x\"y".to_string()) },
        JsonStreamEvent::EndObject,
    ]
}

#[test]
fn scalar_tokens() {
    assert_eq!(join(&json_stringify_lines(&prim(JsonPrimitive::Null), 0)), "null");
    assert_eq!(join(&json_stringify_lines(&prim(JsonPrimitive::Bool(true)), 0)), "true");
    assert_eq!(join(&json_stringify_lines(&prim(JsonPrimitive::Bool(false)), 0)), "false");
    assert_eq!(
        join(&json_stringify_lines(&prim(JsonPrimitive::Number("2.5".to_string())), 0)),
        "2.5"
    );
    assert_eq!(
        join(&json_stringify_lines(&prim(JsonPrimitive::Str("a b".to_string())), 0)),
        "\"a b\""
    );
}

#[test]
fn empty_containers() {
    assert_eq!(join(&json_stringify_lines(&JsonValue::Array(vec![]), 2)), "[]");
    assert_eq!(join(&json_stringify_lines(&JsonValue::Object(vec![]), 2)), "{}");
}

#[test]
fn tree_compact() {
    assert_eq!(
        join(&json_stringify_lines(&sample_tree(), 0)),
        "{\"a\":[1,true,null],\"b\":{},\"c\":\"x\\\"y\"}"
    );
}

#[test]
fn tree_pretty() {
    assert_eq!(
        join(&json_stringify_lines(&sample_tree(), 2)),
        "{\n  \"a\": [\n    1,\n    true,\n    null\n  ],\n  \"b\": {},\n  \"c\": \"x\\\"y\"\n}"
    );
}

#[test]
fn tree_matches_stream_compact() {
    let from_tree = join(&json_stringify_lines(&sample_tree(), 0));
    let from_stream = join(&json_stream_from_events(&sample_events(), 0).unwrap());
    assert_eq!(from_tree, from_stream);
}

#[test]
fn tree_matches_stream_pretty() {
    let from_tree = join(&json_stringify_lines(&sample_tree(), 3));
    let from_stream = join(&json_stream_from_events(&sample_events(), 3).unwrap());
    assert_eq!(from_tree, from_stream);
}

#[test]
fn escaped_keys_match_serde() {
    // The key token must be exactly what the JSON encoder produces.
    let tree = JsonValue::Object(vec![(
        "tab\there".to_string(),
        prim(JsonPrimitive::Number("0".to_string())),
    )]);
    let rendered = join(&json_stringify_lines(&tree, 0));
    let expected_key = serde_json::to_string("tab\there").unwrap();
    assert_eq!(rendered, format!("{{{expected_key}:0}}"));
}
