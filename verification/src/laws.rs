use vstd::prelude::*;

use crate::fragments::{concat_frags, json_quoted, primitive_token, spaces};
use crate::json_stream::{
    ctx_expect_value, ctx_needs_comma, emit_run, is_object_ctx,
    pretty_break, run_from, sep_before_element, step, lemma_run_from_concat,
};
use crate::json_stringify::{
    array_items, array_value_frags, colon_token, object_items, object_value_frags, value_frags,
};
use crate::types::{JsonContext, JsonStreamEvent, JsonValue, ToonError};

verus! {

// ------------------------------------------------------------------
// The depth-first event walk of a tree: the event sequence that
// describes the same document the tree renderer receives whole.
// ------------------------------------------------------------------

/// The events of a depth-first, left-to-right walk of `v`.
pub open spec fn events_of(v: JsonValue) -> Seq<JsonStreamEvent>
    decreases v, 0int,
{
    match v {
        JsonValue::Primitive(p) => seq![JsonStreamEvent::Primitive { value: p }],
        JsonValue::Array(elems) => seq![JsonStreamEvent::StartArray] + array_events(
            elems@,
            elems@.len() as int,
        ) + seq![JsonStreamEvent::EndArray],
        JsonValue::Object(entries) => seq![JsonStreamEvent::StartObject] + object_events(
            entries@,
            entries@.len() as int,
        ) + seq![JsonStreamEvent::EndObject],
    }
}

/// The events of the first `i` elements of an array.
pub open spec fn array_events(elems: Seq<JsonValue>, i: int) -> Seq<JsonStreamEvent>
    decreases elems, i,
{
    if i <= 0 || i > elems.len() {
        Seq::empty()
    } else {
        array_events(elems, i - 1) + events_of(elems[i - 1])
    }
}

/// The events of the first `i` members of an object: each value is
/// preceded by its key.
pub open spec fn object_events(entries: Seq<(String, JsonValue)>, i: int) -> Seq<JsonStreamEvent>
    decreases entries, i,
{
    if i <= 0 || i > entries.len() {
        Seq::empty()
    } else {
        object_events(entries, i - 1) + seq![JsonStreamEvent::Key { key: entries[i - 1].0 }]
            + events_of(entries[i - 1].1)
    }
}

// ------------------------------------------------------------------
// Stacks from which a value may legally begin, and what a completed
// value leaves behind.
// ------------------------------------------------------------------

/// A value may begin at the root, inside an array, or inside an object
/// right after its key (when the key has also owed the comma).
pub open spec fn value_ok(stack: Seq<JsonContext>) -> bool {
    ||| stack.len() == 0
    ||| !is_object_ctx(stack.last())
    ||| (ctx_expect_value(stack.last()) && ctx_needs_comma(stack.last()))
}

/// The stack after a complete value: the parent container owes a comma
/// before its next member, and an object parent's key is resolved.
pub open spec fn value_done(stack: Seq<JsonContext>) -> Seq<JsonContext> {
    if stack.len() == 0 {
        stack
    } else if is_object_ctx(stack.last()) {
        stack.update(
            stack.len() - 1,
            JsonContext::Object { needs_comma: true, expect_value: false },
        )
    } else {
        stack.update(stack.len() - 1, JsonContext::Array { needs_comma: true })
    }
}

// ------------------------------------------------------------------
// Concatenation distributes over splitting a fragment sequence.
// ------------------------------------------------------------------

pub proof fn lemma_concat_frags_app(a: Seq<Seq<char>>, b: Seq<Seq<char>>)
    ensures
        concat_frags(a + b) == concat_frags(a) + concat_frags(b),
    decreases a.len(),
{
    if a.len() == 0 {
        assert(a + b =~= b);
        assert(Seq::<char>::empty() + concat_frags(b) =~= concat_frags(b));
    } else {
        assert((a + b)[0] == a[0]);
        assert((a + b).drop_first() =~= a.drop_first() + b);
        lemma_concat_frags_app(a.drop_first(), b);
        assert(a[0] + (concat_frags(a.drop_first()) + concat_frags(b)) =~= (a[0] + concat_frags(
            a.drop_first(),
        )) + concat_frags(b));
    }
}

proof fn lemma_concat_one(x: Seq<char>)
    ensures
        concat_frags(seq![x]) == x,
{
    assert(seq![x].drop_first() =~= Seq::<Seq<char>>::empty());
    assert(concat_frags(Seq::<Seq<char>>::empty()) == Seq::<char>::empty());
    assert(x + Seq::<char>::empty() =~= x);
}

/// A run over one event alone.
proof fn lemma_run_one(ev: JsonStreamEvent, stack: Seq<JsonContext>, indent: nat)
    ensures
        run_from(seq![ev], stack, indent) == (match step(stack, ev, indent) {
            Err(e) => Err::<(Seq<JsonContext>, Seq<Seq<char>>), ToonError>(e),
            Ok((st, fr)) => Ok((st, fr)),
        }),
{
    assert(seq![ev].drop_first() =~= Seq::<JsonStreamEvent>::empty());
    match step(stack, ev, indent) {
        Err(_) => {},
        Ok((st, fr)) => {
            assert(run_from(Seq::<JsonStreamEvent>::empty(), st, indent) == Ok::<
                (Seq<JsonContext>, Seq<Seq<char>>),
                ToonError,
            >((st, Seq::empty())));
            assert(fr + Seq::<Seq<char>>::empty() =~= fr);
        },
    }
}

// ------------------------------------------------------------------
// The master correspondence: running the event walk of a value from
// any stack that may receive a value succeeds, completes exactly that
// value on the stack, and emits the same text the tree renderer
// emits for the value at that nesting level.
// ------------------------------------------------------------------

pub proof fn lemma_value_run(v: JsonValue, stack: Seq<JsonContext>, indent: nat)
    requires
        value_ok(stack),
    ensures
        (match run_from(events_of(v), stack, indent) {
            Ok((st2, fr)) => st2 == value_done(stack) && concat_frags(fr) == concat_frags(
                sep_before_element(stack, indent),
            ) + concat_frags(value_frags(v, stack.len(), indent)),
            Err(_) => false,
        }),
    decreases v, 0int,
{
    match v {
        JsonValue::Primitive(p) => {
            let ev = JsonStreamEvent::Primitive { value: p };
            lemma_run_one(ev, stack, indent);
            match step(stack, ev, indent) {
                Err(_) => {
                    assert(false);
                },
                Ok((st2, fr)) => {
                    assert(st2 =~= value_done(stack));
                    lemma_concat_frags_app(
                        sep_before_element(stack, indent),
                        seq![primitive_token(p)],
                    );
                    lemma_concat_one(primitive_token(p));
                },
            }
        },
        JsonValue::Array(elems) => {
            lemma_container_run_array(elems@, stack, indent);
        },
        JsonValue::Object(entries) => {
            lemma_container_run_object(entries@, stack, indent);
        },
    }
}

/// The array part of the master correspondence.
proof fn lemma_container_run_array(elems: Seq<JsonValue>, stack: Seq<JsonContext>, indent: nat)
    requires
        value_ok(stack),
    ensures
        (match run_from(
            seq![JsonStreamEvent::StartArray] + array_events(elems, elems.len() as int)
                + seq![JsonStreamEvent::EndArray],
            stack,
            indent,
        ) {
            Ok((st2, fr)) => st2 == value_done(stack) && concat_frags(fr) == concat_frags(
                sep_before_element(stack, indent),
            ) + concat_frags(array_value_frags(elems, stack.len(), indent)),
            Err(_) => false,
        }),
    decreases elems, elems.len() as int + 2,
{
    let n = elems.len() as int;
    let start = seq![JsonStreamEvent::StartArray];
    let end = seq![JsonStreamEvent::EndArray];
    let body = array_events(elems, n);
    let s1 = stack.push(JsonContext::Array { needs_comma: false });

    lemma_run_from_concat(start + body, end, stack, indent);
    lemma_run_from_concat(start, body, stack, indent);
    assert((start + body) + end =~= start + body + end);
    lemma_run_one(JsonStreamEvent::StartArray, stack, indent);
    let start_fr = sep_before_element(stack, indent) + seq!["["@];

    lemma_array_items_run(elems, n, s1, indent);
    let s2 = if n == 0 {
        s1
    } else {
        s1.update(s1.len() - 1, JsonContext::Array { needs_comma: true })
    };
    match run_from(body, s1, indent) {
        Err(_) => {
            assert(false);
        },
        Ok((st_b, fr_b)) => {
            assert(st_b == s2);
            // the closing event
            lemma_run_one(JsonStreamEvent::EndArray, s2, indent);
            assert(!is_object_ctx(s2.last()));
            match step(s2, JsonStreamEvent::EndArray, indent) {
                Err(_) => {
                    assert(false);
                },
                Ok((st_e, fr_e)) => {
                    assert(s2.drop_last() =~= stack);
                    assert(st_e =~= value_done(stack));
                    let closing: Seq<Seq<char>> = if ctx_needs_comma(s2.last()) {
                        pretty_break(stack.len(), indent)
                    } else {
                        Seq::empty()
                    };
                    assert(fr_e == closing + seq!["]"@]);
                    // concatenation bookkeeping
                    lemma_concat_frags_app(start_fr, fr_b);
                    lemma_concat_frags_app(start_fr + fr_b, fr_e);
                    lemma_concat_frags_app(sep_before_element(stack, indent), seq!["["@]);
                    lemma_concat_frags_app(closing, seq!["]"@]);
                    lemma_concat_one("["@);
                    lemma_concat_one("]"@);
                    let sep_text = concat_frags(sep_before_element(stack, indent));
                    if n == 0 {
                        assert(concat_frags(fr_b) =~= Seq::<char>::empty());
                        assert(closing =~= Seq::<Seq<char>>::empty());
                        assert(concat_frags(closing) =~= Seq::<char>::empty());
                        lemma_concat_one("[]"@);
                        proof_strlit_brackets();
                        assert(concat_frags((start_fr + fr_b) + fr_e) =~= sep_text + "[]"@);
                        assert(concat_frags(array_value_frags(elems, stack.len(), indent))
                            == "[]"@);
                    } else {
                        assert(ctx_needs_comma(s2.last()));
                        assert(closing == pretty_break(stack.len(), indent));
                        let items = array_items(elems, n, stack.len(), indent);
                        assert(concat_frags(fr_b) + Seq::<char>::empty() =~= concat_frags(fr_b));
                        assert(concat_frags(fr_b) == concat_frags(items));
                        lemma_concat_frags_app(seq!["["@], items);
                        lemma_concat_frags_app(seq!["["@] + items, closing);
                        lemma_concat_frags_app((seq!["["@] + items) + closing, seq!["]"@]);
                        assert(array_value_frags(elems, stack.len(), indent) == ((seq!["["@]
                            + items) + closing) + seq!["]"@]);
                        assert(concat_frags((start_fr + fr_b) + fr_e) =~= sep_text
                            + concat_frags(array_value_frags(elems, stack.len(), indent)));
                    }
                },
            }
        },
    }
}

proof fn proof_strlit_brackets()
    ensures
        "["@ + "]"@ == "[]"@,
        "{"@ + "}"@ == "{}"@,
{
    reveal_strlit("[");
    reveal_strlit("]");
    reveal_strlit("[]");
    reveal_strlit("{");
    reveal_strlit("}");
    reveal_strlit("{}");
    assert("["@ + "]"@ =~= "[]"@);
    assert("{"@ + "}"@ =~= "{}"@);
}

/// Running the first `i` elements of an array body from a freshly
/// opened array: the array's comma flag records whether any member has
/// been emitted, and the text matches the tree renderer's, short of
/// the comma the tree renderer already places after a member that is
/// not the array's last.
proof fn lemma_array_items_run(
    elems: Seq<JsonValue>,
    i: int,
    stack: Seq<JsonContext>,
    indent: nat,
)
    requires
        0 <= i <= elems.len(),
        stack.len() > 0,
        stack.last() == (JsonContext::Array { needs_comma: false }),
    ensures
        (match run_from(array_events(elems, i), stack, indent) {
            Ok((st2, fr)) => st2 == (if i == 0 {
                stack
            } else {
                stack.update(stack.len() - 1, JsonContext::Array { needs_comma: true })
            }) && concat_frags(fr) + (if 0 < i < elems.len() {
                ","@
            } else {
                Seq::<char>::empty()
            }) == concat_frags(array_items(elems, i, (stack.len() - 1) as nat, indent)),
            Err(_) => false,
        }),
    decreases elems, i,
{
    let depth = (stack.len() - 1) as nat;
    if i == 0 {
        assert(concat_frags(Seq::<Seq<char>>::empty()) + Seq::<char>::empty() =~= concat_frags(
            array_items(elems, 0, depth, indent),
        ));
    } else {
        let prev = array_events(elems, i - 1);
        let this = events_of(elems[i - 1]);
        lemma_run_from_concat(prev, this, stack, indent);
        lemma_array_items_run(elems, i - 1, stack, indent);
        let s_prev = if i - 1 == 0 {
            stack
        } else {
            stack.update(stack.len() - 1, JsonContext::Array { needs_comma: true })
        };
        match run_from(prev, stack, indent) {
            Err(_) => {
                assert(false);
            },
            Ok((st_p, fr_p)) => {
                assert(st_p == s_prev);
                assert(!is_object_ctx(s_prev.last()));
                lemma_value_run(elems[i - 1], s_prev, indent);
                match run_from(this, s_prev, indent) {
                    Err(_) => {
                        assert(false);
                    },
                    Ok((st_v, fr_v)) => {
                        assert(st_v =~= stack.update(
                            stack.len() - 1,
                            JsonContext::Array { needs_comma: true },
                        ));
                        assert(s_prev.len() == stack.len());
                        // the separator the streaming side emits before this element
                        let sep = sep_before_element(s_prev, indent);
                        let comma_part: Seq<Seq<char>> = if ctx_needs_comma(s_prev.last()) {
                            seq![","@]
                        } else {
                            Seq::empty()
                        };
                        assert(sep == comma_part + pretty_break(stack.len(), indent));
                        lemma_concat_frags_app(comma_part, pretty_break(stack.len(), indent));
                        if i - 1 > 0 {
                            lemma_concat_one(","@);
                        } else {
                            assert(concat_frags(comma_part) =~= Seq::<char>::empty());
                        }
                        // the tree renderer's fragments for elements 0..i
                        let items_prev = array_items(elems, i - 1, depth, indent);
                        let brk = pretty_break(depth + 1, indent);
                        let vf = value_frags(elems[i - 1], (depth + 1) as nat, indent);
                        let trail: Seq<Seq<char>> = if i < elems.len() {
                            seq![","@]
                        } else {
                            Seq::empty()
                        };
                        assert(array_items(elems, i, depth, indent) == ((items_prev + brk) + vf)
                            + trail);
                        lemma_concat_frags_app(items_prev, brk);
                        lemma_concat_frags_app(items_prev + brk, vf);
                        lemma_concat_frags_app((items_prev + brk) + vf, trail);
                        if i < elems.len() {
                            lemma_concat_one(","@);
                        } else {
                            assert(concat_frags(trail) =~= Seq::<char>::empty());
                        }
                        assert(depth + 1 == stack.len());
                        assert(vf == value_frags(elems[i - 1], s_prev.len(), indent));
                        lemma_concat_frags_app(fr_p, fr_v);
                        // stitch the two texts together
                        assert(concat_frags(fr_p + fr_v) + (if 0 < i < elems.len() {
                            ","@
                        } else {
                            Seq::<char>::empty()
                        }) =~= concat_frags(array_items(elems, i, depth, indent)));
                    },
                }
            },
        }
    }
}

// ------------------------------------------------------------------
// The public laws.
// ------------------------------------------------------------------

/// Every well-nested event sequence — here, the depth-first walk of
/// any document tree — runs to completion: no error, and the stack is
/// empty again at the end.
pub proof fn lemma_well_nested_run_ok(v: JsonValue, indent: nat)
    ensures
        emit_run(events_of(v), indent) is Ok,
{
    lemma_value_run(v, Seq::empty(), indent);
}

/// The events of the first `i` documents of a row of documents laid
/// side by side at the root.
pub open spec fn forest_events(vs: Seq<JsonValue>, i: int) -> Seq<JsonStreamEvent>
    decreases i,
{
    if i <= 0 || i > vs.len() {
        Seq::empty()
    } else {
        forest_events(vs, i - 1) + events_of(vs[i - 1])
    }
}

proof fn lemma_forest_run(vs: Seq<JsonValue>, i: int, indent: nat)
    requires
        0 <= i <= vs.len(),
    ensures
        (match run_from(forest_events(vs, i), Seq::empty(), indent) {
            Ok((st, fr)) => st.len() == 0,
            Err(_) => false,
        }),
    decreases i,
{
    if i > 0 {
        lemma_forest_run(vs, i - 1, indent);
        lemma_run_from_concat(
            forest_events(vs, i - 1),
            events_of(vs[i - 1]),
            Seq::empty(),
            indent,
        );
        match run_from(forest_events(vs, i - 1), Seq::empty(), indent) {
            Err(_) => {
                assert(false);
            },
            Ok((st, fr)) => {
                assert(st =~= Seq::<JsonContext>::empty());
                lemma_value_run(vs[i - 1], Seq::empty(), indent);
            },
        }
    }
}

/// Any row of whole documents laid side by side at the root runs to
/// completion too, with an empty stack at the end: the emitter puts no
/// separator between root-level documents and owes none.
pub proof fn lemma_well_nested_forest_ok(vs: Seq<JsonValue>, indent: nat)
    ensures
        emit_run(forest_events(vs, vs.len() as int), indent) is Ok,
{
    lemma_forest_run(vs, vs.len() as int, indent);
}

/// The streaming emitter and the tree renderer agree: for a document
/// representable both as an event walk and as a tree, the same indent
/// width yields the same concatenated text.
pub proof fn lemma_tree_equivalence(v: JsonValue, indent: nat)
    ensures
        (match emit_run(events_of(v), indent) {
            Ok(fr) => concat_frags(fr) == concat_frags(value_frags(v, 0, indent)),
            Err(_) => false,
        }),
{
    lemma_value_run(v, Seq::empty(), indent);
    match run_from(events_of(v), Seq::empty(), indent) {
        Err(_) => {
            assert(false);
        },
        Ok((st, fr)) => {
            assert(sep_before_element(Seq::empty(), indent) =~= Seq::<Seq<char>>::empty());
            assert(concat_frags(Seq::<Seq<char>>::empty()) == Seq::<char>::empty());
            assert(Seq::<char>::empty() + concat_frags(value_frags(v, 0, indent)) =~= concat_frags(
                value_frags(v, 0, indent),
            ));
        },
    }
}

/// A run is a function of the event sequence and the indent width
/// alone: equal inputs give equal fragment sequences on success, and
/// equal error kinds on failure.
pub proof fn lemma_run_deterministic(
    events1: Seq<JsonStreamEvent>,
    events2: Seq<JsonStreamEvent>,
    indent1: nat,
    indent2: nat,
)
    requires
        events1 == events2,
        indent1 == indent2,
    ensures
        emit_run(events1, indent1) == emit_run(events2, indent2),
{
}

// ------------------------------------------------------------------
// Whitespace independence: a pretty run differs from the compact run
// of the same events only by inserted whitespace.
// ------------------------------------------------------------------

/// A fragment made of spaces and newlines alone.
pub open spec fn is_ws_frag(f: Seq<char>) -> bool {
    forall|k: int| 0 <= k < f.len() ==> f[k] == ' ' || f[k] == '\n'
}

/// One fragment with the pretty key/value separator narrowed to the
/// compact one.
pub open spec fn norm_frag(f: Seq<char>) -> Seq<char> {
    if f == ": "@ {
        ":"@
    } else {
        f
    }
}

/// A fragment sequence with the inserted whitespace dropped:
/// whitespace-only fragments removed, every other fragment narrowed.
pub open spec fn strip_ws(fr: Seq<Seq<char>>) -> Seq<Seq<char>>
    decreases fr.len(),
{
    if fr.len() == 0 {
        Seq::empty()
    } else if is_ws_frag(fr[0]) {
        strip_ws(fr.drop_first())
    } else {
        seq![norm_frag(fr[0])] + strip_ws(fr.drop_first())
    }
}

pub proof fn lemma_strip_ws_app(a: Seq<Seq<char>>, b: Seq<Seq<char>>)
    ensures
        strip_ws(a + b) == strip_ws(a) + strip_ws(b),
    decreases a.len(),
{
    if a.len() == 0 {
        assert(a + b =~= b);
        assert(Seq::<Seq<char>>::empty() + strip_ws(b) =~= strip_ws(b));
    } else {
        assert((a + b)[0] == a[0]);
        assert((a + b).drop_first() =~= a.drop_first() + b);
        lemma_strip_ws_app(a.drop_first(), b);
        if !is_ws_frag(a[0]) {
            assert(seq![norm_frag(a[0])] + (strip_ws(a.drop_first()) + strip_ws(b)) =~= (seq![
                norm_frag(a[0]),
            ] + strip_ws(a.drop_first())) + strip_ws(b));
        }
    }
}

proof fn lemma_strip_one(x: Seq<char>)
    ensures
        strip_ws(seq![x]) == (if is_ws_frag(x) {
            Seq::<Seq<char>>::empty()
        } else {
            seq![norm_frag(x)]
        }),
{
    assert(seq![x].drop_first() =~= Seq::<Seq<char>>::empty());
    assert(strip_ws(Seq::<Seq<char>>::empty()) == Seq::<Seq<char>>::empty());
    if !is_ws_frag(x) {
        assert(seq![norm_frag(x)] + Seq::<Seq<char>>::empty() =~= seq![norm_frag(x)]);
    }
}

proof fn lemma_spaces_ws(n: nat)
    ensures
        is_ws_frag(spaces(n)),
    decreases n,
{
    if n > 0 {
        lemma_spaces_ws((n - 1) as nat);
    }
}

/// The punctuation tokens are kept by the narrowing untouched, and the
/// whitespace fragments vanish.
proof fn lemma_tok_facts()
    ensures
        is_ws_frag("\n"@),
        !is_ws_frag(","@),
        !is_ws_frag(":"@),
        !is_ws_frag(": "@),
        !is_ws_frag("{"@),
        !is_ws_frag("}"@),
        !is_ws_frag("["@),
        !is_ws_frag("]"@),
        norm_frag(","@) == ","@,
        norm_frag(":"@) == ":"@,
        norm_frag(": "@) == ":"@,
        norm_frag("{"@) == "{"@,
        norm_frag("}"@) == "}"@,
        norm_frag("["@) == "["@,
        norm_frag("]"@) == "]"@,
{
    reveal_strlit("\n");
    reveal_strlit(",");
    reveal_strlit(":");
    reveal_strlit(": ");
    reveal_strlit("{");
    reveal_strlit("}");
    reveal_strlit("[");
    reveal_strlit("]");
    assert(","@[0] == ',');
    assert(":"@[0] == ':');
    assert(": "@[0] == ':');
    assert("{"@[0] == '{');
    assert("}"@[0] == '}');
    assert("["@[0] == '[');
    assert("]"@[0] == ']');
}

/// Stripping a pretty-mode line break leaves nothing.
proof fn lemma_strip_break(depth: nat, indent: nat)
    ensures
        strip_ws(pretty_break(depth, indent)) == Seq::<Seq<char>>::empty(),
{
    lemma_tok_facts();
    lemma_spaces_ws(depth * indent);
    if indent > 0 {
        assert(pretty_break(depth, indent) =~= seq!["\n"@] + seq![spaces(depth * indent)]);
        lemma_strip_ws_app(seq!["\n"@], seq![spaces(depth * indent)]);
        lemma_strip_one("\n"@);
        lemma_strip_one(spaces(depth * indent));
        assert(Seq::<Seq<char>>::empty() + Seq::<Seq<char>>::empty() =~= Seq::<
            Seq<char>,
        >::empty());
    }
}

/// One step emits, short of inserted whitespace, the same fragments in
/// pretty mode as in compact mode, and agrees on the stack and on any
/// error.
proof fn lemma_step_strip(stack: Seq<JsonContext>, ev: JsonStreamEvent, indent: nat)
    ensures
        (match (step(stack, ev, indent), step(stack, ev, 0)) {
            (Ok((sp, fp)), Ok((sc, fc))) => sp == sc && strip_ws(fp) == strip_ws(fc),
            (Err(ep), Err(ec)) => ep == ec,
            _ => false,
        }),
{
    lemma_tok_facts();
    let sep_p = sep_before_element(stack, indent);
    let sep_c = sep_before_element(stack, 0);
    let comma: Seq<Seq<char>> = if stack.len() > 0 && !is_object_ctx(stack.last())
        && ctx_needs_comma(stack.last()) {
        seq![","@]
    } else {
        Seq::empty()
    };
    if stack.len() > 0 && !is_object_ctx(stack.last()) {
        lemma_strip_ws_app(comma, pretty_break(stack.len(), indent));
        lemma_strip_ws_app(comma, pretty_break(stack.len(), 0));
        lemma_strip_break(stack.len(), indent);
        lemma_strip_break(stack.len(), 0);
        assert(strip_ws(sep_p) =~= strip_ws(comma) + Seq::<Seq<char>>::empty());
        assert(strip_ws(sep_c) =~= strip_ws(comma) + Seq::<Seq<char>>::empty());
    } else {
        assert(sep_p =~= Seq::<Seq<char>>::empty());
        assert(sep_c =~= Seq::<Seq<char>>::empty());
    }
    assert(strip_ws(sep_p) == strip_ws(sep_c));
    match ev {
        JsonStreamEvent::StartObject => {
            lemma_strip_ws_app(sep_p, seq!["{"@]);
            lemma_strip_ws_app(sep_c, seq!["{"@]);
        },
        JsonStreamEvent::StartArray => {
            lemma_strip_ws_app(sep_p, seq!["["@]);
            lemma_strip_ws_app(sep_c, seq!["["@]);
        },
        JsonStreamEvent::EndObject => {
            if !(stack.len() == 0 || !is_object_ctx(stack.last())) {
                let closing_p: Seq<Seq<char>> = if ctx_needs_comma(stack.last()) {
                    pretty_break((stack.len() - 1) as nat, indent)
                } else {
                    Seq::empty()
                };
                let closing_c: Seq<Seq<char>> = if ctx_needs_comma(stack.last()) {
                    pretty_break((stack.len() - 1) as nat, 0)
                } else {
                    Seq::empty()
                };
                lemma_strip_break((stack.len() - 1) as nat, indent);
                lemma_strip_break((stack.len() - 1) as nat, 0);
                lemma_strip_ws_app(closing_p, seq!["}"@]);
                lemma_strip_ws_app(closing_c, seq!["}"@]);
                assert(strip_ws(closing_p) =~= Seq::<Seq<char>>::empty());
                assert(strip_ws(closing_c) =~= Seq::<Seq<char>>::empty());
            }
        },
        JsonStreamEvent::EndArray => {
            if !(stack.len() == 0 || is_object_ctx(stack.last())) {
                let closing_p: Seq<Seq<char>> = if ctx_needs_comma(stack.last()) {
                    pretty_break((stack.len() - 1) as nat, indent)
                } else {
                    Seq::empty()
                };
                let closing_c: Seq<Seq<char>> = if ctx_needs_comma(stack.last()) {
                    pretty_break((stack.len() - 1) as nat, 0)
                } else {
                    Seq::empty()
                };
                lemma_strip_break((stack.len() - 1) as nat, indent);
                lemma_strip_break((stack.len() - 1) as nat, 0);
                lemma_strip_ws_app(closing_p, seq!["]"@]);
                lemma_strip_ws_app(closing_c, seq!["]"@]);
                assert(strip_ws(closing_p) =~= Seq::<Seq<char>>::empty());
                assert(strip_ws(closing_c) =~= Seq::<Seq<char>>::empty());
            }
        },
        JsonStreamEvent::Key { key } => {
            if !(stack.len() == 0 || !is_object_ctx(stack.last())) {
                let kcomma: Seq<Seq<char>> = if ctx_needs_comma(stack.last()) {
                    seq![","@]
                } else {
                    Seq::empty()
                };
                let qk = json_quoted(key@);
                let toks_p = seq![qk, ": "@];
                let toks_c = seq![qk, ":"@];
                assert(toks_p =~= seq![qk] + seq![": "@]);
                assert(toks_c =~= seq![qk] + seq![":"@]);
                lemma_strip_ws_app(seq![qk], seq![": "@]);
                lemma_strip_ws_app(seq![qk], seq![":"@]);
                lemma_strip_one(": "@);
                lemma_strip_one(":"@);
                assert(strip_ws(toks_p) == strip_ws(seq![qk]) + seq![":"@]);
                assert(strip_ws(toks_c) == strip_ws(seq![qk]) + seq![":"@]);
                lemma_strip_break(stack.len(), indent);
                lemma_strip_break(stack.len(), 0);
                lemma_strip_ws_app(kcomma, pretty_break(stack.len(), indent));
                lemma_strip_ws_app(kcomma, pretty_break(stack.len(), 0));
                lemma_strip_ws_app(kcomma + pretty_break(stack.len(), indent), toks_p);
                lemma_strip_ws_app(kcomma + pretty_break(stack.len(), 0), toks_c);
                assert(strip_ws((kcomma + pretty_break(stack.len(), indent)) + toks_p)
                    =~= strip_ws((kcomma + pretty_break(stack.len(), 0)) + toks_c));
            }
        },
        JsonStreamEvent::Primitive { value } => {
            if !(stack.len() > 0 && is_object_ctx(stack.last()) && !ctx_expect_value(
                stack.last(),
            )) {
                lemma_strip_ws_app(sep_p, seq![primitive_token(value)]);
                lemma_strip_ws_app(sep_c, seq![primitive_token(value)]);
            }
        },
    }
}

/// Running one event sequence pretty and compact: the stacks evolve
/// alike, any error agrees, and the fragments agree short of inserted
/// whitespace.
proof fn lemma_run_strip(events: Seq<JsonStreamEvent>, stack: Seq<JsonContext>, indent: nat)
    ensures
        (match (run_from(events, stack, indent), run_from(events, stack, 0)) {
            (Ok((sp, fp)), Ok((sc, fc))) => sp == sc && strip_ws(fp) == strip_ws(fc),
            (Err(ep), Err(ec)) => ep == ec,
            _ => false,
        }),
    decreases events.len(),
{
    if events.len() > 0 {
        lemma_step_strip(stack, events[0], indent);
        match (step(stack, events[0], indent), step(stack, events[0], 0)) {
            (Ok((sp, fp)), Ok((sc, fc))) => {
                lemma_run_strip(events.drop_first(), sp, indent);
                match (run_from(events.drop_first(), sp, indent), run_from(
                    events.drop_first(),
                    sp,
                    0,
                )) {
                    (Ok((sp2, fp2)), Ok((sc2, fc2))) => {
                        lemma_strip_ws_app(fp, fp2);
                        lemma_strip_ws_app(fc, fc2);
                    },
                    _ => {},
                }
            },
            _ => {},
        }
    }
}

/// Whitespace independence: for one event sequence, the pretty run and
/// the compact run fail with the same error or both succeed, and the
/// pretty fragments, once the inserted whitespace is dropped and the
/// key/value separator narrowed, are exactly the compact fragments.
/// Only whitespace distinguishes the two texts, so a JSON parser
/// recovers the same value from either.
pub proof fn lemma_whitespace_independence(events: Seq<JsonStreamEvent>, indent: nat)
    ensures
        (match (emit_run(events, indent), emit_run(events, 0)) {
            (Ok(fp), Ok(fc)) => strip_ws(fp) == strip_ws(fc),
            (Err(ep), Err(ec)) => ep == ec,
            _ => false,
        }),
{
    lemma_run_strip(events, Seq::empty(), indent);
}

/// The object part of the master correspondence.
proof fn lemma_container_run_object(
    entries: Seq<(String, JsonValue)>,
    stack: Seq<JsonContext>,
    indent: nat,
)
    requires
        value_ok(stack),
    ensures
        (match run_from(
            seq![JsonStreamEvent::StartObject] + object_events(entries, entries.len() as int)
                + seq![JsonStreamEvent::EndObject],
            stack,
            indent,
        ) {
            Ok((st2, fr)) => st2 == value_done(stack) && concat_frags(fr) == concat_frags(
                sep_before_element(stack, indent),
            ) + concat_frags(object_value_frags(entries, stack.len(), indent)),
            Err(_) => false,
        }),
    decreases entries, entries.len() as int + 2,
{
    let n = entries.len() as int;
    let start = seq![JsonStreamEvent::StartObject];
    let end = seq![JsonStreamEvent::EndObject];
    let body = object_events(entries, n);
    let s1 = stack.push(JsonContext::Object { needs_comma: false, expect_value: false });

    lemma_run_from_concat(start + body, end, stack, indent);
    lemma_run_from_concat(start, body, stack, indent);
    assert((start + body) + end =~= start + body + end);
    lemma_run_one(JsonStreamEvent::StartObject, stack, indent);
    let start_fr = sep_before_element(stack, indent) + seq!["{"@];

    lemma_object_items_run(entries, n, s1, indent);
    let s2 = if n == 0 {
        s1
    } else {
        s1.update(s1.len() - 1, JsonContext::Object { needs_comma: true, expect_value: false })
    };
    match run_from(body, s1, indent) {
        Err(_) => {
            assert(false);
        },
        Ok((st_b, fr_b)) => {
            assert(st_b == s2);
            lemma_run_one(JsonStreamEvent::EndObject, s2, indent);
            assert(is_object_ctx(s2.last()));
            match step(s2, JsonStreamEvent::EndObject, indent) {
                Err(_) => {
                    assert(false);
                },
                Ok((st_e, fr_e)) => {
                    assert(s2.drop_last() =~= stack);
                    assert(st_e =~= value_done(stack));
                    let closing: Seq<Seq<char>> = if ctx_needs_comma(s2.last()) {
                        pretty_break(stack.len(), indent)
                    } else {
                        Seq::empty()
                    };
                    assert(fr_e == closing + seq!["}"@]);
                    lemma_concat_frags_app(start_fr, fr_b);
                    lemma_concat_frags_app(start_fr + fr_b, fr_e);
                    lemma_concat_frags_app(sep_before_element(stack, indent), seq!["{"@]);
                    lemma_concat_frags_app(closing, seq!["}"@]);
                    lemma_concat_one("{"@);
                    lemma_concat_one("}"@);
                    let sep_text = concat_frags(sep_before_element(stack, indent));
                    if n == 0 {
                        assert(concat_frags(fr_b) =~= Seq::<char>::empty());
                        assert(closing =~= Seq::<Seq<char>>::empty());
                        assert(concat_frags(closing) =~= Seq::<char>::empty());
                        lemma_concat_one("{}"@);
                        proof_strlit_brackets();
                        assert(concat_frags((start_fr + fr_b) + fr_e) =~= sep_text + "{}"@);
                        assert(concat_frags(object_value_frags(entries, stack.len(), indent))
                            == "{}"@);
                    } else {
                        assert(ctx_needs_comma(s2.last()));
                        assert(closing == pretty_break(stack.len(), indent));
                        let items = object_items(entries, n, stack.len(), indent);
                        assert(concat_frags(fr_b) + Seq::<char>::empty() =~= concat_frags(fr_b));
                        assert(concat_frags(fr_b) == concat_frags(items));
                        lemma_concat_frags_app(seq!["{"@], items);
                        lemma_concat_frags_app(seq!["{"@] + items, closing);
                        lemma_concat_frags_app((seq!["{"@] + items) + closing, seq!["}"@]);
                        assert(object_value_frags(entries, stack.len(), indent) == ((seq!["{"@]
                            + items) + closing) + seq!["}"@]);
                        assert(concat_frags((start_fr + fr_b) + fr_e) =~= sep_text
                            + concat_frags(object_value_frags(entries, stack.len(), indent)));
                    }
                },
            }
        },
    }
}

/// Running the first `i` members of an object body from a freshly
/// opened object.
proof fn lemma_object_items_run(
    entries: Seq<(String, JsonValue)>,
    i: int,
    stack: Seq<JsonContext>,
    indent: nat,
)
    requires
        0 <= i <= entries.len(),
        stack.len() > 0,
        stack.last() == (JsonContext::Object { needs_comma: false, expect_value: false }),
    ensures
        (match run_from(object_events(entries, i), stack, indent) {
            Ok((st2, fr)) => st2 == (if i == 0 {
                stack
            } else {
                stack.update(
                    stack.len() - 1,
                    JsonContext::Object { needs_comma: true, expect_value: false },
                )
            }) && concat_frags(fr) + (if 0 < i < entries.len() {
                ","@
            } else {
                Seq::<char>::empty()
            }) == concat_frags(object_items(entries, i, (stack.len() - 1) as nat, indent)),
            Err(_) => false,
        }),
    decreases entries, i,
{
    let depth = (stack.len() - 1) as nat;
    if i == 0 {
        assert(concat_frags(Seq::<Seq<char>>::empty()) + Seq::<char>::empty() =~= concat_frags(
            object_items(entries, 0, depth, indent),
        ));
    } else {
        let prev = object_events(entries, i - 1);
        let key_ev = seq![JsonStreamEvent::Key { key: entries[i - 1].0 }];
        let this = events_of(entries[i - 1].1);
        assert(object_events(entries, i) == (prev + key_ev) + this);
        lemma_run_from_concat(prev + key_ev, this, stack, indent);
        lemma_run_from_concat(prev, key_ev, stack, indent);
        lemma_object_items_run(entries, i - 1, stack, indent);
        let s_prev = if i - 1 == 0 {
            stack
        } else {
            stack.update(
                stack.len() - 1,
                JsonContext::Object { needs_comma: true, expect_value: false },
            )
        };
        match run_from(prev, stack, indent) {
            Err(_) => {
                assert(false);
            },
            Ok((st_p, fr_p)) => {
                assert(st_p == s_prev);
                assert(is_object_ctx(s_prev.last()));
                lemma_run_one(JsonStreamEvent::Key { key: entries[i - 1].0 }, s_prev, indent);
                match step(s_prev, JsonStreamEvent::Key { key: entries[i - 1].0 }, indent) {
                    Err(_) => {
                        assert(false);
                    },
                    Ok((st_k, fr_k)) => {
                        let s_key = s_prev.update(
                            s_prev.len() - 1,
                            JsonContext::Object { needs_comma: true, expect_value: true },
                        );
                        assert(st_k == s_key);
                        assert(value_ok(s_key));
                        lemma_value_run(entries[i - 1].1, s_key, indent);
                        match run_from(this, s_key, indent) {
                            Err(_) => {
                                assert(false);
                            },
                            Ok((st_v, fr_v)) => {
                                assert(st_v =~= stack.update(
                                    stack.len() - 1,
                                    JsonContext::Object {
                                        needs_comma: true,
                                        expect_value: false,
                                    },
                                ));
                                assert(s_key.len() == stack.len());
                                // no separator is due right after a key
                                assert(is_object_ctx(s_key.last()));
                                assert(sep_before_element(s_key, indent) =~= Seq::<
                                    Seq<char>,
                                >::empty());
                                assert(concat_frags(sep_before_element(s_key, indent)) =~= Seq::<
                                    char,
                                >::empty());
                                // the key's own fragments
                                let comma_part: Seq<Seq<char>> = if ctx_needs_comma(
                                    s_prev.last(),
                                ) {
                                    seq![","@]
                                } else {
                                    Seq::empty()
                                };
                                let key_toks = seq![
                                    json_quoted(entries[i - 1].0@),
                                    colon_token(indent),
                                ];
                                assert(fr_k == (comma_part + pretty_break(stack.len(), indent))
                                    + key_toks);
                                lemma_concat_frags_app(comma_part, pretty_break(stack.len(), indent));
                                lemma_concat_frags_app(
                                    comma_part + pretty_break(stack.len(), indent),
                                    key_toks,
                                );
                                if i - 1 > 0 {
                                    lemma_concat_one(","@);
                                } else {
                                    assert(concat_frags(comma_part) =~= Seq::<char>::empty());
                                }
                                // the tree renderer's fragments for members 0..i
                                let items_prev = object_items(entries, i - 1, depth, indent);
                                let brk = pretty_break(depth + 1, indent);
                                let vf = value_frags(entries[i - 1].1, (depth + 1) as nat, indent);
                                let trail: Seq<Seq<char>> = if i < entries.len() {
                                    seq![","@]
                                } else {
                                    Seq::empty()
                                };
                                assert(object_items(entries, i, depth, indent) == (((items_prev
                                    + brk) + key_toks) + vf) + trail);
                                lemma_concat_frags_app(items_prev, brk);
                                lemma_concat_frags_app(items_prev + brk, key_toks);
                                lemma_concat_frags_app((items_prev + brk) + key_toks, vf);
                                lemma_concat_frags_app(((items_prev + brk) + key_toks) + vf, trail);
                                if i < entries.len() {
                                    lemma_concat_one(","@);
                                } else {
                                    assert(concat_frags(trail) =~= Seq::<char>::empty());
                                }
                                assert(depth + 1 == stack.len());
                                assert(vf == value_frags(entries[i - 1].1, s_key.len(), indent));
                                lemma_concat_frags_app(fr_p, fr_k);
                                lemma_concat_frags_app(fr_p + fr_k, fr_v);
                                assert(concat_frags((fr_p + fr_k) + fr_v) + (if 0 < i
                                    < entries.len() {
                                    ","@
                                } else {
                                    Seq::<char>::empty()
                                }) =~= concat_frags(object_items(entries, i, depth, indent)));
                            },
                        }
                    },
                }
            },
        }
    }
}

} // verus!
