use vstd::prelude::*;

use crate::types::JsonPrimitive;

verus! {

use vstd::string::StringExecFns;

/// The JSON string-literal token (quotes and escapes included) that the
/// underlying encoder produces for the characters `s`.
pub uninterp spec fn json_quoted(s: Seq<char>) -> Seq<char>;

/// `n` spaces.
pub open spec fn spaces(n: nat) -> Seq<char>
    decreases n,
{
    if n == 0 {
        Seq::empty()
    } else {
        spaces((n - 1) as nat).push(' ')
    }
}

/// The canonical token text of one scalar value.
pub open spec fn primitive_token(p: JsonPrimitive) -> Seq<char> {
    match p {
        JsonPrimitive::Null => "null"@,
        JsonPrimitive::Bool(b) => if b {
            "true"@
        } else {
            "false"@
        },
        JsonPrimitive::Number(t) => t@,
        JsonPrimitive::Str(s) => json_quoted(s@),
    }
}

/// The text of each fragment in a fragment sequence.
pub open spec fn frag_views(v: Seq<String>) -> Seq<Seq<char>> {
    v.map_values(|s: String| s@)
}

/// The document text: the concatenation of a fragment sequence.
pub open spec fn concat_frags(fr: Seq<Seq<char>>) -> Seq<char>
    decreases fr.len(),
{
    if fr.len() == 0 {
        Seq::empty()
    } else {
        fr[0] + concat_frags(fr.drop_first())
    }
}

/// Relies on `serde_json::to_string` applied to a string value: the
/// quoted, escaped token depends on the characters alone, begins and
/// ends with a quote, and serializing a string never fails (its
/// documentation allows failure only from a `Serialize` impl that
/// decides to fail or from a map with non-string keys, and a string
/// does neither).
#[verifier::external_body]
fn quote_text_raw(s: &str) -> (r: Result<String, serde_json::Error>)
    ensures
        r is Ok,
        (r matches Ok(t) ==> t@ == json_quoted(s@) && t@.len() >= 2 && t@[0] == '"'),
{
    serde_json::to_string(s)
}

#[verifier::external_type_specification]
#[verifier::external_body]
pub struct ExSerdeJsonError(serde_json::Error);

/// The JSON string-literal token for `s`. If the underlying encoder
/// could fail, an empty string literal would stand in, so that building
/// a token never aborts a run.
pub(crate) fn quote_text(s: &str) -> (r: String)
    ensures
        r@ == json_quoted(s@),
        r@.len() >= 2,
        r@[0] == '"',
{
    match quote_text_raw(s) {
        Ok(t) => t,
        Err(_) => {
            let mut fallback = String::new();
            fallback.append("\"");
            fallback.append("\"");
            fallback
        },
    }
}

/// A run of `n` spaces, for indentation.
pub(crate) fn make_spaces(n: usize) -> (r: String)
    ensures
        r@ == spaces(n as nat),
{
    let mut s = String::new();
    let mut i: usize = 0;
    while i < n
        invariant
            i <= n,
            s@ == spaces(i as nat),
        decreases n - i,
    {
        s.append(" ");
        i = i + 1;
        proof {
            reveal_strlit(" ");
            assert(s@ =~= spaces(i as nat));
        }
    }
    s
}

/// The canonical text token of one scalar value.
pub(crate) fn stringify_primitive(value: &JsonPrimitive) -> (r: String)
    ensures
        r@ == primitive_token(*value),
{
    match value {
        JsonPrimitive::Null => "null".to_owned(),
        JsonPrimitive::Bool(b) => if *b {
            "true".to_owned()
        } else {
            "false".to_owned()
        },
        JsonPrimitive::Number(t) => t.clone(),
        JsonPrimitive::Str(s) => quote_text(s.as_str()),
    }
}

/// Appends one fragment to the output sequence.
pub(crate) fn push_frag(out: &mut Vec<String>, s: String)
    ensures
        frag_views(final(out)@) == frag_views(old(out)@).push(s@),
{
    let ghost sv = s@;
    out.push(s);
    proof {
        assert(frag_views(out@) =~= frag_views(old(out)@).push(sv));
    }
}

} // verus!
