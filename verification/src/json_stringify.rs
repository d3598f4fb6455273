use vstd::prelude::*;

use crate::fragments::{frag_views, json_quoted, make_spaces, push_frag, quote_text,
    primitive_token, stringify_primitive};
use crate::json_stream::pretty_break;
use crate::types::JsonValue;

verus! {

use vstd::arithmetic::mul::lemma_mul_inequality;

// ------------------------------------------------------------------
// The mathematical model of the tree renderer: the fragments emitted
// for a value held as a tree, at a given nesting level.
// ------------------------------------------------------------------

/// The key/value separator token: `": "` in pretty mode, `":"` in
/// compact mode.
pub open spec fn colon_token(indent: nat) -> Seq<char> {
    if indent > 0 {
        ": "@
    } else {
        ":"@
    }
}

/// The fragments of one value rendered at nesting level `depth`.
pub open spec fn value_frags(v: JsonValue, depth: nat, indent: nat) -> Seq<Seq<char>>
    decreases v, 0int,
{
    match v {
        JsonValue::Primitive(p) => seq![primitive_token(p)],
        JsonValue::Array(elems) => array_value_frags(elems@, depth, indent),
        JsonValue::Object(entries) => object_value_frags(entries@, depth, indent),
    }
}

/// The fragments of an array rendered at nesting level `depth`.
pub open spec fn array_value_frags(elems: Seq<JsonValue>, depth: nat, indent: nat) -> Seq<
    Seq<char>,
>
    decreases elems, elems.len() as int + 1,
{
    if elems.len() == 0 {
        seq!["[]"@]
    } else {
        seq!["["@] + array_items(elems, elems.len() as int, depth, indent) + pretty_break(
            depth,
            indent,
        ) + seq!["]"@]
    }
}

/// The fragments of the first `i` elements of an array whose own
/// nesting level is `depth`: each element is preceded by a pretty-mode
/// line break and followed by a comma unless it is the array's last.
pub open spec fn array_items(elems: Seq<JsonValue>, i: int, depth: nat, indent: nat) -> Seq<
    Seq<char>,
>
    decreases elems, i,
{
    if i <= 0 || i > elems.len() {
        Seq::empty()
    } else {
        array_items(elems, i - 1, depth, indent) + pretty_break(depth + 1, indent) + value_frags(
            elems[i - 1],
            (depth + 1) as nat,
            indent,
        ) + (if i < elems.len() {
            seq![","@]
        } else {
            Seq::empty()
        })
    }
}

/// The fragments of an object rendered at nesting level `depth`.
pub open spec fn object_value_frags(entries: Seq<(String, JsonValue)>, depth: nat, indent: nat) -> Seq<
    Seq<char>,
>
    decreases entries, entries.len() as int + 1,
{
    if entries.len() == 0 {
        seq!["{}"@]
    } else {
        seq!["{"@] + object_items(entries, entries.len() as int, depth, indent) + pretty_break(
            depth,
            indent,
        ) + seq!["}"@]
    }
}

/// The fragments of the first `i` members of an object whose own
/// nesting level is `depth`.
pub open spec fn object_items(
    entries: Seq<(String, JsonValue)>,
    i: int,
    depth: nat,
    indent: nat,
) -> Seq<Seq<char>>
    decreases entries, i,
{
    if i <= 0 || i > entries.len() {
        Seq::empty()
    } else {
        object_items(entries, i - 1, depth, indent) + pretty_break(depth + 1, indent) + seq![
            json_quoted(entries[i - 1].0@),
            colon_token(indent),
        ] + value_frags(entries[i - 1].1, (depth + 1) as nat, indent) + (if i < entries.len() {
            seq![","@]
        } else {
            Seq::empty()
        })
    }
}

// ------------------------------------------------------------------
// The nesting depth of a value, which bounds the indentation the
// renderer can ask for.
// ------------------------------------------------------------------

/// The deepest nesting inside `v`: a scalar has none, a container one
/// more than its deepest member.
pub open spec fn value_depth(v: JsonValue) -> nat
    decreases v, 0int,
{
    match v {
        JsonValue::Primitive(_) => 0,
        JsonValue::Array(elems) => 1 + items_depth(elems@, elems@.len() as int),
        JsonValue::Object(entries) => 1 + entries_depth(entries@, entries@.len() as int),
    }
}

/// The deepest nesting among the first `i` elements.
pub open spec fn items_depth(elems: Seq<JsonValue>, i: int) -> nat
    decreases elems, i,
{
    if i <= 0 || i > elems.len() {
        0
    } else {
        let rest = items_depth(elems, i - 1);
        let here = value_depth(elems[i - 1]);
        if here > rest {
            here
        } else {
            rest
        }
    }
}

/// The deepest nesting among the first `i` members' values.
pub open spec fn entries_depth(entries: Seq<(String, JsonValue)>, i: int) -> nat
    decreases entries, i,
{
    if i <= 0 || i > entries.len() {
        0
    } else {
        let rest = entries_depth(entries, i - 1);
        let here = value_depth(entries[i - 1].1);
        if here > rest {
            here
        } else {
            rest
        }
    }
}

proof fn lemma_items_depth_bound(elems: Seq<JsonValue>, i: int, j: int)
    requires
        0 <= j < i <= elems.len(),
    ensures
        value_depth(elems[j]) <= items_depth(elems, i),
    decreases i,
{
    if j < i - 1 {
        lemma_items_depth_bound(elems, i - 1, j);
    }
}

proof fn lemma_entries_depth_bound(entries: Seq<(String, JsonValue)>, i: int, j: int)
    requires
        0 <= j < i <= entries.len(),
    ensures
        value_depth(entries[j].1) <= entries_depth(entries, i),
    decreases i,
{
    if j < i - 1 {
        lemma_entries_depth_bound(entries, i - 1, j);
    }
}

// ------------------------------------------------------------------
// The executable tree renderer.
// ------------------------------------------------------------------

/// Stream JSON stringification chunks for a `JsonValue`: concatenated,
/// the chunks are the document's text.
pub fn json_stringify_lines(value: &JsonValue, indent: usize) -> (out: Vec<String>)
    requires
        value_depth(*value) <= usize::MAX,
        (value_depth(*value) as int) * (indent as int) <= usize::MAX as int,
    ensures
        frag_views(out@) == value_frags(*value, 0, indent as nat),
{
    let mut out: Vec<String> = Vec::new();
    proof {
        assert(frag_views(out@) =~= Seq::<Seq<char>>::empty());
    }
    stringify_value(value, 0, indent, &mut out);
    proof {
        assert(frag_views(out@) =~= value_frags(*value, 0, indent as nat));
    }
    out
}

fn stringify_value(value: &JsonValue, depth: usize, indent: usize, out: &mut Vec<String>)
    requires
        depth + value_depth(*value) <= usize::MAX,
        ((depth + value_depth(*value)) as int) * (indent as int) <= usize::MAX as int,
    ensures
        frag_views(final(out)@) == frag_views(old(out)@) + value_frags(
            *value,
            depth as nat,
            indent as nat,
        ),
    decreases *value,
{
    match value {
        JsonValue::Primitive(primitive) => {
            push_frag(out, stringify_primitive(primitive));
            proof {
                assert(frag_views(out@) =~= frag_views(old(out)@) + value_frags(
                    *value,
                    depth as nat,
                    indent as nat,
                ));
            }
        },
        JsonValue::Array(values) => stringify_array(values, depth, indent, out),
        JsonValue::Object(entries) => stringify_object(entries, depth, indent, out),
    }
}

fn stringify_array(values: &Vec<JsonValue>, depth: usize, indent: usize, out: &mut Vec<String>)
    requires
        depth + 1 + items_depth(values@, values@.len() as int) <= usize::MAX,
        ((depth + 1 + items_depth(values@, values@.len() as int)) as int) * (indent as int)
            <= usize::MAX as int,
    ensures
        frag_views(final(out)@) == frag_views(old(out)@) + array_value_frags(
            values@,
            depth as nat,
            indent as nat,
        ),
    decreases *values,
{
    let ghost out0 = frag_views(out@);
    let n = values.len();
    if n == 0 {
        push_frag(out, "[]".to_owned());
        proof {
            assert(frag_views(out@) =~= out0 + array_value_frags(
                values@,
                depth as nat,
                indent as nat,
            ));
        }
        return ;
    }
    push_frag(out, "[".to_owned());

    let mut idx: usize = 0;
    while idx < n
        invariant
            idx <= n,
            n == values@.len(),
            depth + 1 + items_depth(values@, values@.len() as int) <= usize::MAX,
            ((depth + 1 + items_depth(values@, values@.len() as int)) as int) * (indent as int)
                <= usize::MAX as int,
            frag_views(out@) == out0 + seq!["["@] + array_items(
                values@,
                idx as int,
                depth as nat,
                indent as nat,
            ),
        decreases n - idx,
    {
        if indent > 0 {
            push_frag(out, "\n".to_owned());
            proof {
                lemma_mul_inequality(
                    (depth + 1) as int,
                    (depth + 1 + items_depth(values@, values@.len() as int)) as int,
                    indent as int,
                );
            }
            push_frag(out, make_spaces((depth + 1) * indent));
        }
        proof {
            lemma_items_depth_bound(values@, values@.len() as int, idx as int);
            lemma_mul_inequality(
                (depth + 1 + value_depth(values@[idx as int])) as int,
                (depth + 1 + items_depth(values@, values@.len() as int)) as int,
                indent as int,
            );
        }
        stringify_value(&values[idx], depth + 1, indent, out);
        if idx + 1 < n {
            push_frag(out, ",".to_owned());
        }
        idx = idx + 1;
        proof {
            assert(frag_views(out@) =~= out0 + seq!["["@] + array_items(
                values@,
                idx as int,
                depth as nat,
                indent as nat,
            ));
        }
    }
    if indent > 0 {
        push_frag(out, "\n".to_owned());
        proof {
            lemma_mul_inequality(
                depth as int,
                (depth + 1 + items_depth(values@, values@.len() as int)) as int,
                indent as int,
            );
        }
        push_frag(out, make_spaces(depth * indent));
    }
    push_frag(out, "]".to_owned());
    proof {
        assert(frag_views(out@) =~= out0 + array_value_frags(
            values@,
            depth as nat,
            indent as nat,
        ));
    }
}

fn stringify_object(
    entries: &Vec<(String, JsonValue)>,
    depth: usize,
    indent: usize,
    out: &mut Vec<String>,
)
    requires
        depth + 1 + entries_depth(entries@, entries@.len() as int) <= usize::MAX,
        ((depth + 1 + entries_depth(entries@, entries@.len() as int)) as int) * (indent as int)
            <= usize::MAX as int,
    ensures
        frag_views(final(out)@) == frag_views(old(out)@) + object_value_frags(
            entries@,
            depth as nat,
            indent as nat,
        ),
    decreases *entries,
{
    let ghost out0 = frag_views(out@);
    let n = entries.len();
    if n == 0 {
        push_frag(out, "{}".to_owned());
        proof {
            assert(frag_views(out@) =~= out0 + object_value_frags(
                entries@,
                depth as nat,
                indent as nat,
            ));
        }
        return ;
    }
    push_frag(out, "{".to_owned());

    let mut idx: usize = 0;
    while idx < n
        invariant
            idx <= n,
            n == entries@.len(),
            depth + 1 + entries_depth(entries@, entries@.len() as int) <= usize::MAX,
            ((depth + 1 + entries_depth(entries@, entries@.len() as int)) as int) * (indent as int)
                <= usize::MAX as int,
            frag_views(out@) == out0 + seq!["{"@] + object_items(
                entries@,
                idx as int,
                depth as nat,
                indent as nat,
            ),
        decreases n - idx,
    {
        if indent > 0 {
            push_frag(out, "\n".to_owned());
            proof {
                lemma_mul_inequality(
                    (depth + 1) as int,
                    (depth + 1 + entries_depth(entries@, entries@.len() as int)) as int,
                    indent as int,
                );
            }
            push_frag(out, make_spaces((depth + 1) * indent));
        }
        push_frag(out, quote_text(entries[idx].0.as_str()));
        push_frag(
            out,
            if indent > 0 {
                ": ".to_owned()
            } else {
                ":".to_owned()
            },
        );
        proof {
            lemma_entries_depth_bound(entries@, entries@.len() as int, idx as int);
            lemma_mul_inequality(
                (depth + 1 + value_depth(entries@[idx as int].1)) as int,
                (depth + 1 + entries_depth(entries@, entries@.len() as int)) as int,
                indent as int,
            );
        }
        stringify_value(&entries[idx].1, depth + 1, indent, out);
        if idx + 1 < n {
            push_frag(out, ",".to_owned());
        }
        idx = idx + 1;
        proof {
            assert(frag_views(out@) =~= out0 + seq!["{"@] + object_items(
                entries@,
                idx as int,
                depth as nat,
                indent as nat,
            ));
        }
    }
    if indent > 0 {
        push_frag(out, "\n".to_owned());
        proof {
            lemma_mul_inequality(
                depth as int,
                (depth + 1 + entries_depth(entries@, entries@.len() as int)) as int,
                indent as int,
            );
        }
        push_frag(out, make_spaces(depth * indent));
    }
    push_frag(out, "}".to_owned());
    proof {
        assert(frag_views(out@) =~= out0 + object_value_frags(
            entries@,
            depth as nat,
            indent as nat,
        ));
    }
}

} // verus!
