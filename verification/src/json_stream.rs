use vstd::prelude::*;

use crate::fragments::{
    frag_views, json_quoted, make_spaces, primitive_token, push_frag, quote_text, spaces,
    stringify_primitive,
};
use crate::types::{JsonContext, JsonStreamEvent, ToonError};

verus! {

// ------------------------------------------------------------------
// The mathematical model of one run: what fragments each event emits
// and how it changes the stack of open containers.
// ------------------------------------------------------------------

pub open spec fn is_object_ctx(c: JsonContext) -> bool {
    match c {
        JsonContext::Object { .. } => true,
        JsonContext::Array { .. } => false,
    }
}

pub open spec fn ctx_needs_comma(c: JsonContext) -> bool {
    match c {
        JsonContext::Object { needs_comma, .. } => needs_comma,
        JsonContext::Array { needs_comma } => needs_comma,
    }
}

pub open spec fn ctx_expect_value(c: JsonContext) -> bool {
    match c {
        JsonContext::Object { expect_value, .. } => expect_value,
        JsonContext::Array { .. } => false,
    }
}

/// In pretty mode, a newline and the indentation of nesting level
/// `depth`; in compact mode, nothing.
pub open spec fn pretty_break(depth: nat, indent: nat) -> Seq<Seq<char>> {
    if indent > 0 {
        seq!["\n"@, spaces(depth * indent)]
    } else {
        Seq::empty()
    }
}

/// The fragments due before an element (a primitive or a container
/// start): when the innermost open container is an array, a comma if
/// the array already has members, then a pretty-mode line break at the
/// element's own nesting level. At the root, or inside an object
/// (where the `Key` event emitted the separators), nothing is due.
pub open spec fn sep_before_element(stack: Seq<JsonContext>, indent: nat) -> Seq<Seq<char>> {
    if stack.len() > 0 && !is_object_ctx(stack.last()) {
        let comma: Seq<Seq<char>> = if ctx_needs_comma(stack.last()) {
            seq![","@]
        } else {
            Seq::empty()
        };
        comma + pretty_break(stack.len(), indent)
    } else {
        Seq::empty()
    }
}

/// After a member of the innermost container has been completed by a
/// container close: the parent owes a comma before its next member,
/// and an object parent's pending key is resolved.
pub open spec fn mark_member_done(stack: Seq<JsonContext>) -> Seq<JsonContext> {
    if stack.len() > 0 {
        let top = match stack.last() {
            JsonContext::Object { .. } => JsonContext::Object {
                needs_comma: true,
                expect_value: false,
            },
            JsonContext::Array { .. } => JsonContext::Array { needs_comma: true },
        };
        stack.update(stack.len() - 1, top)
    } else {
        stack
    }
}

/// After a primitive member: an array parent owes a comma before its
/// next member; an object parent's pending key is resolved, its comma
/// already owed since the `Key` event.
pub open spec fn mark_value_done(stack: Seq<JsonContext>) -> Seq<JsonContext> {
    if stack.len() > 0 {
        let top = match stack.last() {
            JsonContext::Object { needs_comma, .. } => JsonContext::Object {
                needs_comma,
                expect_value: false,
            },
            JsonContext::Array { .. } => JsonContext::Array { needs_comma: true },
        };
        stack.update(stack.len() - 1, top)
    } else {
        stack
    }
}

/// One step of the emitter: the fragments `ev` appends and the stack
/// after it, or the error that aborts the run.
pub open spec fn step(stack: Seq<JsonContext>, ev: JsonStreamEvent, indent: nat) -> Result<
    (Seq<JsonContext>, Seq<Seq<char>>),
    ToonError,
> {
    match ev {
        JsonStreamEvent::StartObject => Ok(
            (
                stack.push(JsonContext::Object { needs_comma: false, expect_value: false }),
                sep_before_element(stack, indent) + seq!["{"@],
            ),
        ),
        JsonStreamEvent::StartArray => Ok(
            (
                stack.push(JsonContext::Array { needs_comma: false }),
                sep_before_element(stack, indent) + seq!["["@],
            ),
        ),
        JsonStreamEvent::EndObject => {
            if stack.len() == 0 || !is_object_ctx(stack.last()) {
                Err(ToonError::MismatchedClose)
            } else {
                let closing = if ctx_needs_comma(stack.last()) {
                    pretty_break((stack.len() - 1) as nat, indent)
                } else {
                    Seq::empty()
                };
                Ok((mark_member_done(stack.drop_last()), closing + seq!["}"@]))
            }
        },
        JsonStreamEvent::EndArray => {
            if stack.len() == 0 || is_object_ctx(stack.last()) {
                Err(ToonError::MismatchedClose)
            } else {
                let closing = if ctx_needs_comma(stack.last()) {
                    pretty_break((stack.len() - 1) as nat, indent)
                } else {
                    Seq::empty()
                };
                Ok((mark_member_done(stack.drop_last()), closing + seq!["]"@]))
            }
        },
        JsonStreamEvent::Key { key } => {
            if stack.len() == 0 || !is_object_ctx(stack.last()) {
                Err(ToonError::KeyOutsideObject)
            } else {
                let comma: Seq<Seq<char>> = if ctx_needs_comma(stack.last()) {
                    seq![","@]
                } else {
                    Seq::empty()
                };
                let colon: Seq<char> = if indent > 0 {
                    ": "@
                } else {
                    ":"@
                };
                Ok(
                    (
                        stack.update(
                            stack.len() - 1,
                            JsonContext::Object { needs_comma: true, expect_value: true },
                        ),
                        comma + pretty_break(stack.len(), indent) + seq![json_quoted(key@), colon],
                    ),
                )
            }
        },
        JsonStreamEvent::Primitive { value } => {
            if stack.len() > 0 && is_object_ctx(stack.last()) && !ctx_expect_value(stack.last()) {
                Err(ToonError::ValueWithoutKey)
            } else {
                Ok(
                    (
                        mark_value_done(stack),
                        sep_before_element(stack, indent) + seq![primitive_token(value)],
                    ),
                )
            }
        },
    }
}

/// Runs the emitter over `events` starting from `stack`, giving the
/// final stack and every fragment appended, or the first error.
pub open spec fn run_from(
    events: Seq<JsonStreamEvent>,
    stack: Seq<JsonContext>,
    indent: nat,
) -> Result<(Seq<JsonContext>, Seq<Seq<char>>), ToonError>
    decreases events.len(),
{
    if events.len() == 0 {
        Ok((stack, Seq::empty()))
    } else {
        match step(stack, events[0], indent) {
            Err(e) => Err(e),
            Ok((st, fr)) => match run_from(events.drop_first(), st, indent) {
                Err(e) => Err(e),
                Ok((st2, fr2)) => Ok((st2, fr + fr2)),
            },
        }
    }
}

/// A whole run: starts from an empty stack, and the stack must be
/// empty again once the events are exhausted.
pub open spec fn emit_run(events: Seq<JsonStreamEvent>, indent: nat) -> Result<
    Seq<Seq<char>>,
    ToonError,
> {
    match run_from(events, Seq::empty(), indent) {
        Err(e) => Err(e),
        Ok((stack, fr)) => if stack.len() == 0 {
            Ok(fr)
        } else {
            Err(ToonError::UnterminatedStream)
        },
    }
}

/// The fragment texts of a successful run, or its error.
pub open spec fn rendered_result(r: Result<Vec<String>, ToonError>) -> Result<
    Seq<Seq<char>>,
    ToonError,
> {
    match r {
        Ok(v) => Ok(frag_views(v@)),
        Err(e) => Err(e),
    }
}

/// Splitting a run: the events of `a` run first, and `b` goes on from
/// the stack `a` left behind, appending its fragments after `a`'s.
pub proof fn lemma_run_from_concat(
    a: Seq<JsonStreamEvent>,
    b: Seq<JsonStreamEvent>,
    stack: Seq<JsonContext>,
    indent: nat,
)
    ensures
        run_from(a + b, stack, indent) == (match run_from(a, stack, indent) {
            Err(e) => Err::<(Seq<JsonContext>, Seq<Seq<char>>), ToonError>(e),
            Ok((st, fr)) => match run_from(b, st, indent) {
                Err(e) => Err(e),
                Ok((st2, fr2)) => Ok((st2, fr + fr2)),
            },
        }),
    decreases a.len(),
{
    if a.len() == 0 {
        assert(a + b =~= b);
        match run_from(b, stack, indent) {
            Ok((st2, fr2)) => {
                assert(Seq::<Seq<char>>::empty() + fr2 =~= fr2);
            },
            Err(_) => {},
        }
    } else {
        assert((a + b)[0] == a[0]);
        assert((a + b).drop_first() =~= a.drop_first() + b);
        match step(stack, a[0], indent) {
            Err(_) => {},
            Ok((st1, fr1)) => {
                lemma_run_from_concat(a.drop_first(), b, st1, indent);
                match run_from(a.drop_first(), st1, indent) {
                    Err(_) => {},
                    Ok((sta, fra)) => {
                        match run_from(b, sta, indent) {
                            Err(_) => {},
                            Ok((stb, frb)) => {
                                assert(fr1 + (fra + frb) =~= (fr1 + fra) + frb);
                            },
                        }
                    },
                }
            },
        }
    }
}

// ------------------------------------------------------------------
// The executable emitter.
// ------------------------------------------------------------------

/// Emits the separator fragments due before an element.
fn emit_element_sep(stack: &Vec<JsonContext>, indent: usize, out: &mut Vec<String>)
    requires
        (stack@.len() as int) * (indent as int) <= usize::MAX as int,
    ensures
        frag_views(final(out)@) == frag_views(old(out)@) + sep_before_element(
            stack@,
            indent as nat,
        ),
{
    let n = stack.len();
    if n > 0 {
        let top = stack[n - 1];
        match top {
            JsonContext::Array { needs_comma } => {
                if needs_comma {
                    push_frag(out, ",".to_owned());
                }
                if indent > 0 {
                    push_frag(out, "\n".to_owned());
                    push_frag(out, make_spaces(n * indent));
                }
            },
            JsonContext::Object { .. } => {},
        }
    }
    proof {
        assert(frag_views(out@) =~= frag_views(old(out)@) + sep_before_element(
            stack@,
            indent as nat,
        ));
    }
}

/// Marks the innermost container's current member finished after a
/// container close.
fn mark_member_done_exec(stack: &mut Vec<JsonContext>)
    ensures
        final(stack)@ == mark_member_done(old(stack)@),
{
    let n = stack.len();
    if n > 0 {
        let top = stack[n - 1];
        let updated = match top {
            JsonContext::Object { .. } => JsonContext::Object {
                needs_comma: true,
                expect_value: false,
            },
            JsonContext::Array { .. } => JsonContext::Array { needs_comma: true },
        };
        let _ = stack.pop();
        stack.push(updated);
        proof {
            assert(stack@ =~= mark_member_done(old(stack)@));
        }
    }
}

/// Marks the innermost container's current member finished after a
/// primitive.
fn mark_value_done_exec(stack: &mut Vec<JsonContext>)
    ensures
        final(stack)@ == mark_value_done(old(stack)@),
{
    let n = stack.len();
    if n > 0 {
        let top = stack[n - 1];
        let updated = match top {
            JsonContext::Object { needs_comma, .. } => JsonContext::Object {
                needs_comma,
                expect_value: false,
            },
            JsonContext::Array { .. } => JsonContext::Array { needs_comma: true },
        };
        let _ = stack.pop();
        stack.push(updated);
        proof {
            assert(stack@ =~= mark_value_done(old(stack)@));
        }
    }
}

/// Handles one event: validates it, appends its fragments, updates the
/// stack; on an error, leaves both untouched.
fn process_event(
    stack: &mut Vec<JsonContext>,
    ev: &JsonStreamEvent,
    indent: usize,
    out: &mut Vec<String>,
) -> (r: Result<(), ToonError>)
    requires
        (old(stack)@.len() as int) * (indent as int) <= usize::MAX as int,
    ensures
        (match step(old(stack)@, *ev, indent as nat) {
            Ok((st, fr)) => {
                &&& r is Ok
                &&& final(stack)@ == st
                &&& frag_views(final(out)@) == frag_views(old(out)@) + fr
            },
            Err(e) => {
                &&& r == Err::<(), ToonError>(e)
                &&& final(stack)@ == old(stack)@
                &&& final(out)@ == old(out)@
            },
        }),
{
    match ev {
        JsonStreamEvent::StartObject => {
            emit_element_sep(stack, indent, out);
            push_frag(out, "{".to_owned());
            stack.push(JsonContext::Object { needs_comma: false, expect_value: false });
            proof {
                assert(frag_views(out@) =~= frag_views(old(out)@) + (sep_before_element(
                    old(stack)@,
                    indent as nat,
                ) + seq!["{"@]));
            }
            Ok(())
        },
        JsonStreamEvent::StartArray => {
            emit_element_sep(stack, indent, out);
            push_frag(out, "[".to_owned());
            stack.push(JsonContext::Array { needs_comma: false });
            proof {
                assert(frag_views(out@) =~= frag_views(old(out)@) + (sep_before_element(
                    old(stack)@,
                    indent as nat,
                ) + seq!["["@]));
            }
            Ok(())
        },
        JsonStreamEvent::EndObject => {
            let n = stack.len();
            if n == 0 {
                return Err(ToonError::MismatchedClose);
            }
            let top = stack[n - 1];
            match top {
                JsonContext::Object { needs_comma, .. } => {
                    let _ = stack.pop();
                    if indent > 0 && needs_comma {
                        push_frag(out, "\n".to_owned());
                        proof {
                            assert(((n - 1) as int) * (indent as int) <= (n as int) * (
                            indent as int)) by (nonlinear_arith)
                                requires
                                    n >= 1,
                                    indent >= 0,
                            ;
                        }
                        push_frag(out, make_spaces((n - 1) * indent));
                    }
                    push_frag(out, "}".to_owned());
                    mark_member_done_exec(stack);
                    proof {
                        let closing: Seq<Seq<char>> = if ctx_needs_comma(old(stack)@.last()) {
                            pretty_break((old(stack)@.len() - 1) as nat, indent as nat)
                        } else {
                            Seq::empty()
                        };
                        assert(frag_views(out@) =~= frag_views(old(out)@) + (closing
                            + seq!["}"@]));
                    }
                    Ok(())
                },
                JsonContext::Array { .. } => Err(ToonError::MismatchedClose),
            }
        },
        JsonStreamEvent::EndArray => {
            let n = stack.len();
            if n == 0 {
                return Err(ToonError::MismatchedClose);
            }
            let top = stack[n - 1];
            match top {
                JsonContext::Array { needs_comma } => {
                    let _ = stack.pop();
                    if indent > 0 && needs_comma {
                        push_frag(out, "\n".to_owned());
                        proof {
                            assert(((n - 1) as int) * (indent as int) <= (n as int) * (
                            indent as int)) by (nonlinear_arith)
                                requires
                                    n >= 1,
                                    indent >= 0,
                            ;
                        }
                        push_frag(out, make_spaces((n - 1) * indent));
                    }
                    push_frag(out, "]".to_owned());
                    mark_member_done_exec(stack);
                    proof {
                        let closing: Seq<Seq<char>> = if ctx_needs_comma(old(stack)@.last()) {
                            pretty_break((old(stack)@.len() - 1) as nat, indent as nat)
                        } else {
                            Seq::empty()
                        };
                        assert(frag_views(out@) =~= frag_views(old(out)@) + (closing
                            + seq!["]"@]));
                    }
                    Ok(())
                },
                JsonContext::Object { .. } => Err(ToonError::MismatchedClose),
            }
        },
        JsonStreamEvent::Key { key } => {
            let n = stack.len();
            if n == 0 {
                return Err(ToonError::KeyOutsideObject);
            }
            let top = stack[n - 1];
            match top {
                JsonContext::Object { needs_comma, .. } => {
                    if needs_comma {
                        push_frag(out, ",".to_owned());
                    }
                    if indent > 0 {
                        push_frag(out, "\n".to_owned());
                        push_frag(out, make_spaces(n * indent));
                    }
                    push_frag(out, quote_text(key.as_str()));
                    push_frag(
                        out,
                        if indent > 0 {
                            ": ".to_owned()
                        } else {
                            ":".to_owned()
                        },
                    );
                    let _ = stack.pop();
                    stack.push(JsonContext::Object { needs_comma: true, expect_value: true });
                    proof {
                        let comma: Seq<Seq<char>> = if ctx_needs_comma(old(stack)@.last()) {
                            seq![","@]
                        } else {
                            Seq::empty()
                        };
                        let colon: Seq<char> = if indent > 0 {
                            ": "@
                        } else {
                            ":"@
                        };
                        assert(stack@ =~= old(stack)@.update(
                            old(stack)@.len() - 1,
                            JsonContext::Object { needs_comma: true, expect_value: true },
                        ));
                        assert(frag_views(out@) =~= frag_views(old(out)@) + (comma
                            + pretty_break(old(stack)@.len(), indent as nat) + seq![
                            json_quoted(key@),
                            colon,
                        ]));
                    }
                    Ok(())
                },
                JsonContext::Array { .. } => Err(ToonError::KeyOutsideObject),
            }
        },
        JsonStreamEvent::Primitive { value } => {
            let n = stack.len();
            if n > 0 {
                let top = stack[n - 1];
                if let JsonContext::Object { expect_value, .. } = top {
                    if !expect_value {
                        return Err(ToonError::ValueWithoutKey);
                    }
                }
            }
            emit_element_sep(stack, indent, out);
            push_frag(out, stringify_primitive(value));
            mark_value_done_exec(stack);
            proof {
                assert(frag_views(out@) =~= frag_views(old(out)@) + (sep_before_element(
                    old(stack)@,
                    indent as nat,
                ) + seq![primitive_token(*value)]));
            }
            Ok(())
        },
    }
}

/// Converts JSON stream events into JSON string chunks: concatenated,
/// the chunks are the document's text. `indent == 0` selects compact
/// output; a positive `indent` selects pretty output with that many
/// spaces per nesting level.
///
/// # Errors
///
/// Returns an error if the event stream is malformed (mismatched
/// start/end events, keys outside objects, primitives without keys in
/// an object, or open containers left at the end of the stream).
pub fn json_stream_from_events(events: &Vec<JsonStreamEvent>, indent: usize) -> (r: Result<
    Vec<String>,
    ToonError,
>)
    requires
        (events@.len() as int) * (indent as int) <= usize::MAX as int,
    ensures
        rendered_result(r) == emit_run(events@, indent as nat),
{
    let mut stack: Vec<JsonContext> = Vec::new();
    let mut out: Vec<String> = Vec::new();
    let n = events.len();
    let mut i: usize = 0;
    proof {
        assert(events@.take(0) =~= Seq::<JsonStreamEvent>::empty());
        assert(frag_views(out@) =~= Seq::<Seq<char>>::empty());
    }
    while i < n
        invariant
            i <= n,
            n == events@.len(),
            (events@.len() as int) * (indent as int) <= usize::MAX as int,
            stack@.len() <= i,
            run_from(events@.take(i as int), Seq::empty(), indent as nat) == Ok::<
                (Seq<JsonContext>, Seq<Seq<char>>),
                ToonError,
            >((stack@, frag_views(out@))),
        decreases n - i,
    {
        let ev = &events[i];
        proof {
            assert((stack@.len() as int) * (indent as int) <= (events@.len() as int) * (
            indent as int)) by (nonlinear_arith)
                requires
                    stack@.len() <= events@.len(),
                    indent >= 0,
            ;
        }
        let ghost prev_stack = stack@;
        let ghost prev_out = frag_views(out@);
        let res = process_event(&mut stack, ev, indent, &mut out);
        proof {
            assert(events@.take(i as int + 1) =~= events@.take(i as int) + seq![events@[i as int]]);
            lemma_run_from_concat(
                events@.take(i as int),
                seq![events@[i as int]],
                Seq::empty(),
                indent as nat,
            );
            assert(seq![events@[i as int]].drop_first() =~= Seq::<JsonStreamEvent>::empty());
            match step(prev_stack, events@[i as int], indent as nat) {
                Ok((st, fr)) => {
                    assert(fr + Seq::<Seq<char>>::empty() =~= fr);
                    assert(run_from(Seq::<JsonStreamEvent>::empty(), st, indent as nat) == Ok::<
                        (Seq<JsonContext>, Seq<Seq<char>>),
                        ToonError,
                    >((st, Seq::empty())));
                    assert(run_from(seq![events@[i as int]], prev_stack, indent as nat) == Ok::<
                        (Seq<JsonContext>, Seq<Seq<char>>),
                        ToonError,
                    >((st, fr)));
                },
                Err(_) => {},
            }
        }
        match res {
            Ok(()) => {},
            Err(e) => {
                proof {
                    lemma_run_from_concat(
                        events@.take(i as int + 1),
                        events@.skip(i as int + 1),
                        Seq::empty(),
                        indent as nat,
                    );
                    assert(events@.take(i as int + 1) + events@.skip(i as int + 1) =~= events@);
                }
                return Err(e);
            },
        }
        i = i + 1;
    }
    proof {
        assert(events@.take(n as int) =~= events@);
    }
    if stack.len() == 0 {
        Ok(out)
    } else {
        Err(ToonError::UnterminatedStream)
    }
}

} // verus!
