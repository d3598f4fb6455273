use vstd::prelude::*;

verus! {

/// A scalar JSON value.
///
/// Numbers are carried as their canonical decimal token text, already
/// rendered by whatever produced the event stream; a number with no JSON
/// representation is delivered here as `Null`.
#[derive(Debug)]
pub enum JsonPrimitive {
    Null,
    Bool(bool),
    /// Canonical decimal token text of a finite number.
    Number(String),
    /// Arbitrary text, quoted and escaped on output.
    Str(String),
}

/// One structural step of a JSON document being built left-to-right,
/// depth-first.
#[derive(Debug)]
pub enum JsonStreamEvent {
    StartObject,
    EndObject,
    StartArray,
    EndArray,
    Key { key: String },
    Primitive { value: JsonPrimitive },
}

/// The state of one currently-open container on the emitter's stack.
///
/// `needs_comma` is true once the container has emitted at least one
/// member; `expect_value` is true exactly from a `Key` event until the
/// value-producing event for that key.
#[derive(Debug, Clone, Copy, PartialEq, Eq, Structural)]
pub enum JsonContext {
    Object { needs_comma: bool, expect_value: bool },
    Array { needs_comma: bool },
}

/// Why a run over an event stream was aborted.
#[derive(Debug, Clone, Copy, PartialEq, Eq, Structural)]
pub enum ToonError {
    /// An `EndObject`/`EndArray` event with an empty stack, or whose kind
    /// does not match the open container.
    MismatchedClose,
    /// A `Key` event while the innermost open container is not an object.
    KeyOutsideObject,
    /// A `Primitive` event inside an object with no preceding `Key`.
    ValueWithoutKey,
    /// The event stream ended while containers were still open.
    UnterminatedStream,
    /// The requested entry point has no wiring yet.
    Unimplemented,
}

/// A JSON document held as a tree, for the non-streaming renderer.
#[derive(Debug)]
pub enum JsonValue {
    Primitive(JsonPrimitive),
    Array(Vec<JsonValue>),
    Object(Vec<(String, JsonValue)>),
}

} // verus!
