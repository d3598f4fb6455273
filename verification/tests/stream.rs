use toon::json_stream::json_stream_from_events;
use toon::types::{JsonPrimitive, JsonStreamEvent, ToonError};

fn cat(chunks: &[String]) -> String {
    chunks.concat()
}

fn key(k: &str) -> JsonStreamEvent {
    JsonStreamEvent::Key { key: k.to_string() }
}

fn num(n: &str) -> JsonStreamEvent {
    JsonStreamEvent::Primitive { value: JsonPrimitive::Number(n.to_string()) }
}

fn text(s: &str) -> JsonStreamEvent {
    JsonStreamEvent::Primitive { value: JsonPrimitive::Str(s.to_string()) }
}

#[test]
fn object_compact() {
    let events = vec![
        JsonStreamEvent::StartObject,
        key("a"),
        num("1"),
        JsonStreamEvent::EndObject,
    ];
    let out = json_stream_from_events(&events, 0).unwrap();
    assert_eq!(cat(&out), "{\"a\":1}");
}

#[test]
fn object_pretty() {
    let events = vec![
        JsonStreamEvent::StartObject,
        key("a"),
        num("1"),
        JsonStreamEvent::EndObject,
    ];
    let out = json_stream_from_events(&events, 2).unwrap();
    assert_eq!(cat(&out), "{\n  \"a\": 1\n}");
}

#[test]
fn array_compact() {
    let events = vec![
        JsonStreamEvent::StartArray,
        JsonStreamEvent::Primitive { value: JsonPrimitive::Null },
        JsonStreamEvent::Primitive { value: JsonPrimitive::Bool(true) },
        JsonStreamEvent::EndArray,
    ];
    let out = json_stream_from_events(&events, 0).unwrap();
    assert_eq!(cat(&out), "[null,true]");
}

#[test]
fn array_pretty() {
    let events = vec![
        JsonStreamEvent::StartArray,
        JsonStreamEvent::Primitive { value: JsonPrimitive::Null },
        JsonStreamEvent::Primitive { value: JsonPrimitive::Bool(false) },
        JsonStreamEvent::EndArray,
    ];
    let out = json_stream_from_events(&events, 2).unwrap();
    assert_eq!(cat(&out), "[\n  null,\n  false\n]");
}

#[test]
fn stray_end_array_is_mismatched_close() {
    let events = vec![JsonStreamEvent::EndArray];
    assert_eq!(
        json_stream_from_events(&events, 0),
        Err(ToonError::MismatchedClose)
    );
}

#[test]
fn stray_end_object_is_mismatched_close() {
    let events = vec![JsonStreamEvent::EndObject];
    assert_eq!(
        json_stream_from_events(&events, 0),
        Err(ToonError::MismatchedClose)
    );
}

#[test]
fn wrong_kind_close_is_mismatched_close() {
    let events = vec![JsonStreamEvent::StartArray, JsonStreamEvent::EndObject];
    assert_eq!(
        json_stream_from_events(&events, 0),
        Err(ToonError::MismatchedClose)
    );
}

#[test]
fn primitive_without_key_is_value_without_key() {
    let events = vec![JsonStreamEvent::StartObject, text("x")];
    assert_eq!(
        json_stream_from_events(&events, 0),
        Err(ToonError::ValueWithoutKey)
    );
}

#[test]
fn key_in_array_is_key_outside_object() {
    let events = vec![JsonStreamEvent::StartArray, key("k")];
    assert_eq!(
        json_stream_from_events(&events, 0),
        Err(ToonError::KeyOutsideObject)
    );
}

#[test]
fn key_at_root_is_key_outside_object() {
    let events = vec![key("k")];
    assert_eq!(
        json_stream_from_events(&events, 0),
        Err(ToonError::KeyOutsideObject)
    );
}

#[test]
fn unclosed_object_is_unterminated_stream() {
    let events = vec![JsonStreamEvent::StartObject];
    assert_eq!(
        json_stream_from_events(&events, 0),
        Err(ToonError::UnterminatedStream)
    );
}

#[test]
fn empty_stream_is_empty_output() {
    let events: Vec<JsonStreamEvent> = vec![];
    let out = json_stream_from_events(&events, 0).unwrap();
    assert_eq!(cat(&out), "");
}

#[test]
fn root_values_concatenate_without_separator() {
    let events = vec![num("1"), num("2")];
    let out = json_stream_from_events(&events, 2).unwrap();
    assert_eq!(cat(&out), "12");
}

#[test]
fn strings_are_escaped() {
    let events = vec![
        JsonStreamEvent::StartObject,
        key("quote\"newline\n"),
        text("tab\tback\\slash"),
        JsonStreamEvent::EndObject,
    ];
    let out = json_stream_from_events(&events, 0).unwrap();
    assert_eq!(
        cat(&out),
        "{\"quote\\\"newline\\n\":\"tab\\tback\\\\slash\"}"
    );
}

#[test]
fn nested_containers_compact() {
    let events = vec![
        JsonStreamEvent::StartObject,
        key("a"),
        JsonStreamEvent::StartArray,
        num("1"),
        JsonStreamEvent::StartObject,
        key("b"),
        text("c"),
        JsonStreamEvent::EndObject,
        JsonStreamEvent::EndArray,
        key("d"),
        JsonStreamEvent::StartArray,
        JsonStreamEvent::EndArray,
        JsonStreamEvent::EndObject,
    ];
    let out = json_stream_from_events(&events, 0).unwrap();
    assert_eq!(cat(&out), "{\"a\":[1,{\"b\":\"c\"}],\"d\":[]}");
}

#[test]
fn nested_containers_pretty() {
    let events = vec![
        JsonStreamEvent::StartObject,
        key("a"),
        JsonStreamEvent::StartArray,
        num("1"),
        num("2"),
        JsonStreamEvent::EndArray,
        JsonStreamEvent::EndObject,
    ];
    let out = json_stream_from_events(&events, 2).unwrap();
    assert_eq!(cat(&out), "{\n  \"a\": [\n    1,\n    2\n  ]\n}");
}

#[test]
fn dangling_key_is_kept() {
    // An object closed while a key still awaits its value is accepted,
    // and the colon stays without a value token.
    let events = vec![
        JsonStreamEvent::StartObject,
        key("a"),
        JsonStreamEvent::EndObject,
    ];
    let out = json_stream_from_events(&events, 0).unwrap();
    assert_eq!(cat(&out), "{\"a\":}");
}

#[test]
fn identical_inputs_give_identical_fragments() {
    let events = vec![
        JsonStreamEvent::StartArray,
        num("1"),
        text("two"),
        JsonStreamEvent::EndArray,
    ];
    let first = json_stream_from_events(&events, 3);
    let second = json_stream_from_events(&events, 3);
    assert_eq!(first, second);
}

#[test]
fn malformed_input_classifies_the_same_every_time() {
    let events = vec![JsonStreamEvent::StartArray, key("k")];
    let first = json_stream_from_events(&events, 0);
    let second = json_stream_from_events(&events, 4);
    assert_eq!(first, Err(ToonError::KeyOutsideObject));
    assert_eq!(second, Err(ToonError::KeyOutsideObject));
}

#[test]
fn well_nested_output_parses_as_json() {
    let events = vec![
        JsonStreamEvent::StartObject,
        key("list"),
        JsonStreamEvent::StartArray,
        num("1"),
        JsonStreamEvent::Primitive { value: JsonPrimitive::Null },
        text("x y"),
        JsonStreamEvent::EndArray,
        JsonStreamEvent::EndObject,
    ];
    let out = json_stream_from_events(&events, 0).unwrap();
    let parsed: serde_json::Value = serde_json::from_str(&cat(&out)).unwrap();
    assert!(parsed.is_object());
}

#[test]
fn compact_and_pretty_parse_to_the_same_value() {
    let events = vec![
        JsonStreamEvent::StartObject,
        key("a"),
        JsonStreamEvent::StartArray,
        num("1"),
        JsonStreamEvent::Primitive { value: JsonPrimitive::Bool(true) },
        text("s p a c e"),
        JsonStreamEvent::EndArray,
        key("b"),
        JsonStreamEvent::StartObject,
        JsonStreamEvent::EndObject,
        JsonStreamEvent::EndObject,
    ];
    let compact = cat(&json_stream_from_events(&events, 0).unwrap());
    let pretty = cat(&json_stream_from_events(&events, 4).unwrap());
    let from_compact: serde_json::Value = serde_json::from_str(&compact).unwrap();
    let from_pretty: serde_json::Value = serde_json::from_str(&pretty).unwrap();
    assert_eq!(from_compact, from_pretty);
}

#[test]
fn run_is_unimplemented() {
    assert_eq!(toon::run(), Err(ToonError::Unimplemented));
}
