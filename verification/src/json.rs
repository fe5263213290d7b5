//! A JSON value model and its display form, as used when rendering
//! message-template holes and property values.

use vstd::prelude::*;
use crate::text::{chars_of, push_chars, push_str, same_text, string_of};

verus! {

/// A JSON value together with its compact serialised text.
#[derive(Debug)]
pub struct JsonValue {
    /// The structure of the value.
    pub node: JsonNode,
    /// The compact JSON text of the value.
    pub text: String,
}

/// The structure of a JSON value. Object members keep the order in which
/// the decoder yields them; keys are distinct.
#[derive(Debug)]
pub enum JsonNode {
    Null,
    Bool(bool),
    /// A number (its text is in the enclosing `JsonValue`): `integer` holds it
    /// when it is an integer that fits an `i64`, `float_bits` holds the bits
    /// of its nearest `f64`.
    Number { integer: Option<i64>, float_bits: Option<u64> },
    String(String),
    Array(Vec<JsonValue>),
    Object(Vec<(String, JsonValue)>),
}

/// The value stored under `key` in the members `entries` (the first one
/// with that key).
pub open spec fn lookup(entries: Seq<(String, JsonValue)>, key: Seq<char>) -> Option<JsonValue>
    decreases entries.len(),
{
    if entries.len() == 0 {
        None
    } else if entries[0].0@ == key {
        Some(entries[0].1)
    } else {
        lookup(entries.drop_first(), key)
    }
}

/// The string held under `key`, if the member exists and is a string.
pub open spec fn lookup_str(entries: Seq<(String, JsonValue)>, key: Seq<char>) -> Option<Seq<char>> {
    match lookup(entries, key) {
        Some(v) => match v.node {
            JsonNode::String(s) => Some(s@),
            _ => None,
        },
        None => None,
    }
}

/// `parts` joined by `sep`.
pub open spec fn join(parts: Seq<Seq<char>>, sep: Seq<char>) -> Seq<char>
    decreases parts.len(),
{
    if parts.len() == 0 {
        Seq::empty()
    } else if parts.len() == 1 {
        parts[0]
    } else {
        join(parts.drop_last(), sep) + sep + parts.last()
    }
}

/// The separator between the items of a displayed array or object.
pub open spec fn comma_space() -> Seq<char> {
    seq![',', ' ']
}

/// The escape sequence for one character inside a quoted display string:
/// backslashes and double quotes are preceded by a backslash.
pub open spec fn escape_char(c: char) -> Seq<char> {
    if c == '\\' {
        seq!['\\', '\\']
    } else if c == '"' {
        seq!['\\', '"']
    } else {
        seq![c]
    }
}

/// `s` with every backslash and double quote escaped.
pub open spec fn escape(s: Seq<char>) -> Seq<char>
    decreases s.len(),
{
    if s.len() == 0 {
        Seq::empty()
    } else {
        escape(s.drop_last()) + escape_char(s.last())
    }
}

/// The display form of a value: strings bare, `null`, `true`/`false`,
/// numbers as written, arrays as `[a, b]` of quoted items, objects as
/// `{k:v, ...}` of quoted members without `$type`, or the `$type` string
/// alone when that is the only member.
pub open spec fn display(v: JsonValue) -> Seq<char>
    decreases v, 1int,
{
    match v.node {
        JsonNode::Null => "null"@,
        JsonNode::Bool(b) => if b { "true"@ } else { "false"@ },
        JsonNode::Number { .. } => v.text@,
        JsonNode::String(s) => s@,
        JsonNode::Array(items) => seq!['['] + join(quoted_all(items@), comma_space()) + seq![']'],
        JsonNode::Object(entries) => {
            let parts = member_parts(entries@);
            if parts.len() == 0 {
                match lookup_str(entries@, "$type"@) {
                    Some(t) => t,
                    None => Seq::empty(),
                }
            } else {
                seq!['{'] + join(parts, comma_space()) + seq!['}']
            }
        },
    }
}

/// The display form of a value nested in an array or object: strings are
/// quoted and escaped, other values display as usual.
pub open spec fn quoted(v: JsonValue) -> Seq<char>
    decreases v, 2int,
{
    match v.node {
        JsonNode::String(s) => seq!['"'] + escape(s@) + seq!['"'],
        _ => display(v),
    }
}

/// The quoted forms of `items`.
pub open spec fn quoted_all(items: Seq<JsonValue>) -> Seq<Seq<char>>
    decreases items, 0int,
{
    if items.len() == 0 {
        Seq::empty()
    } else {
        quoted_all(items.drop_last()).push(quoted(items.last()))
    }
}

/// The `key:value` parts of displayed object members, skipping `$type`.
pub open spec fn member_parts(entries: Seq<(String, JsonValue)>) -> Seq<Seq<char>>
    decreases entries, 0int,
{
    if entries.len() == 0 {
        Seq::empty()
    } else {
        let prev = member_parts(entries.drop_last());
        let e = entries.last();
        if e.0@ == "$type"@ {
            prev
        } else {
            prev.push(e.0@ + seq![':'] + quoted(e.1))
        }
    }
}

/// Joining one more part appends the separator and the part.
pub proof fn lemma_join_push(parts: Seq<Seq<char>>, x: Seq<char>, sep: Seq<char>)
    ensures
        join(parts.push(x), sep) == if parts.len() == 0 { x } else { join(parts, sep) + sep + x },
{
    assert(parts.push(x).drop_last() =~= parts);
}

/// The member stored under `key` in `entries`, the first with that key.
pub fn object_get<'a>(entries: &'a Vec<(String, JsonValue)>, key: &[char]) -> (r: Option<&'a JsonValue>)
    ensures
        match r {
            Some(v) => lookup(entries@, key@) == Some(*v),
            None => lookup(entries@, key@) is None,
        },
{
    let mut i: usize = 0;
    assert(entries@.skip(0) =~= entries@);
    while i < entries.len()
        invariant
            i <= entries.len(),
            lookup(entries@, key@) == lookup(entries@.skip(i as int), key@),
        decreases entries.len() - i,
    {
        let ghost rest = entries@.skip(i as int);
        if same_text(key, entries[i].0.as_str()) {
            assert(rest[0] == entries@[i as int]);
            return Some(&entries[i].1);
        }
        assert(rest.drop_first() =~= entries@.skip(i + 1));
        i = i + 1;
    }
    assert(entries@.skip(i as int).len() == 0);
    None
}

/// Appends `escape(s)` to `out`.
fn write_escaped(s: &str, out: &mut Vec<char>)
    ensures
        final(out)@ == old(out)@ + escape(s@),
{
    let c = chars_of(s);
    let ghost start = out@;
    let mut i: usize = 0;
    while i < c.len()
        invariant
            i <= c.len(),
            c@ == s@,
            out@ == start + escape(c@.take(i as int)),
        decreases c.len() - i,
    {
        let ch = c[i];
        if ch == '\\' {
            out.push('\\');
            out.push('\\');
        } else if ch == '"' {
            out.push('\\');
            out.push('"');
        } else {
            out.push(ch);
        }
        proof {
            let t = c@.take(i + 1);
            assert(t.drop_last() =~= c@.take(i as int));
            assert(t.last() == ch);
            assert(out@ =~= start + escape(t));
        }
        i = i + 1;
    }
    assert(c@.take(i as int) =~= c@);
}

/// Appends `display(*v)` to `out`.
pub(crate) fn write_display(v: &JsonValue, out: &mut Vec<char>)
    ensures
        final(out)@ == old(out)@ + display(*v),
    decreases *v, 1int,
{
    let ghost start = out@;
    match &v.node {
        JsonNode::Null => push_str(out, "null"),
        JsonNode::Bool(b) => {
            if *b {
                push_str(out, "true")
            } else {
                push_str(out, "false")
            }
        },
        JsonNode::Number { .. } => push_str(out, v.text.as_str()),
        JsonNode::String(s) => push_str(out, s.as_str()),
        JsonNode::Array(items) => {
            out.push('[');
            let mut i: usize = 0;
            while i < items.len()
                invariant
                    i <= items.len(),
                    v.node == JsonNode::Array(*items),
                    out@ == start + seq!['['] + join(quoted_all(items@.take(i as int)), comma_space()),
                decreases items.len() - i,
            {
                let ghost before = out@;
                if i > 0 {
                    out.push(',');
                    out.push(' ');
                }
                proof {
                    assert(decreases_to!(*v => v.node));
                    assert(decreases_to!(v.node => v.node->Array_0));
                    assert(decreases_to!(*items => items@));
                    assert(decreases_to!(items@ => items@[i as int]));
                }
                write_quoted(&items[i], out);
                proof {
                    let t = items@.take(i + 1);
                    assert(t.drop_last() =~= items@.take(i as int));
                    assert(t.last() == items@[i as int]);
                    lemma_join_push(quoted_all(items@.take(i as int)), quoted(items@[i as int]), comma_space());
                    assert(out@ =~= start + seq!['['] + join(quoted_all(t), comma_space()));
                }
                i = i + 1;
            }
            out.push(']');
            assert(items@.take(i as int) =~= items@);
        },
        JsonNode::Object(entries) => {
            let mut inner: Vec<char> = Vec::new();
            let mut n: usize = 0;
            let mut i: usize = 0;
            let type_key = chars_of("$type");
            while i < entries.len()
                invariant
                    i <= entries.len(),
                    n <= i,
                    v.node == JsonNode::Object(*entries),
                    type_key@ == "$type"@,
                    n == member_parts(entries@.take(i as int)).len(),
                    inner@ == join(member_parts(entries@.take(i as int)), comma_space()),
                decreases entries.len() - i,
            {
                let ghost prev = member_parts(entries@.take(i as int));
                let ghost t = entries@.take(i + 1);
                proof {
                    assert(t.drop_last() =~= entries@.take(i as int));
                    assert(t.last() == entries@[i as int]);
                }
                if !same_text(&type_key, entries[i].0.as_str()) {
                    if n > 0 {
                        inner.push(',');
                        inner.push(' ');
                    }
                    let ghost before = inner@;
                    push_str(&mut inner, entries[i].0.as_str());
                    inner.push(':');
                    proof {
                        assert(decreases_to!(*v => v.node));
                        assert(decreases_to!(v.node => v.node->Object_0));
                        assert(decreases_to!(*entries => entries@));
                        assert(decreases_to!(entries@ => entries@[i as int]));
                        assert(decreases_to!(entries@[i as int] => entries@[i as int].1));
                    }
                    write_quoted(&entries[i].1, &mut inner);
                    proof {
                        let part = entries@[i as int].0@ + seq![':'] + quoted(entries@[i as int].1);
                        lemma_join_push(prev, part, comma_space());
                        assert(inner@ =~= join(prev.push(part), comma_space()));
                    }
                    n = n + 1;
                }
                i = i + 1;
            }
            assert(entries@.take(i as int) =~= entries@);
            if n == 0 {
                match object_get(entries, &type_key) {
                    Some(t) => {
                        match &t.node {
                            JsonNode::String(s) => push_str(out, s.as_str()),
                            _ => {},
                        }
                    },
                    None => {},
                }
                assert(out@ =~= start + display(*v));
            } else {
                out.push('{');
                push_chars(out, &inner);
                out.push('}');
                assert(out@ =~= start + display(*v));
            }
        },
    }
}

/// Appends `quoted(*v)` to `out`.
pub(crate) fn write_quoted(v: &JsonValue, out: &mut Vec<char>)
    ensures
        final(out)@ == old(out)@ + quoted(*v),
    decreases *v, 2int,
{
    match &v.node {
        JsonNode::String(s) => {
            let ghost start = out@;
            out.push('"');
            write_escaped(s.as_str(), out);
            out.push('"');
            assert(out@ =~= start + quoted(*v));
        },
        _ => write_display(v, out),
    }
}

/// The display form of a value (see `display`).
pub fn value_to_display(v: &JsonValue) -> (r: String)
    ensures
        r@ == display(*v),
{
    let mut out: Vec<char> = Vec::new();
    write_display(v, &mut out);
    assert(out@ =~= display(*v));
    string_of(&out)
}

/// The display form of a value nested in an array or object (see `quoted`).
pub fn value_to_display_quoted(v: &JsonValue) -> (r: String)
    ensures
        r@ == quoted(*v),
{
    let mut out: Vec<char> = Vec::new();
    write_quoted(v, &mut out);
    assert(out@ =~= quoted(*v));
    string_of(&out)
}

#[verifier::external_type_specification]
#[verifier::external_body]
pub struct ExSerdeValue(serde_json::Value);

/// What serde_json's `from_str::<Value>` decodes a text to, in the
/// library's form (see `json_of`); `None` when it is not JSON.
pub uninterp spec fn json_decoded(text: Seq<char>) -> Option<JsonValue>;

/// Converts a serde_json value to the library's form, node by node: numbers
/// by `as_i64` and the bits of `as_f64`, members in the order serde_json's
/// map yields them, and every node with its compact text (`to_string`).
#[verifier::external_body]
fn json_of(v: &serde_json::Value) -> JsonValue {
    let node = match v {
        serde_json::Value::Null => JsonNode::Null,
        serde_json::Value::Bool(b) => JsonNode::Bool(*b),
        serde_json::Value::Number(n) => JsonNode::Number { integer: n.as_i64(), float_bits: n.as_f64().map(|f| f.to_bits()) },
        serde_json::Value::String(s) => JsonNode::String(s.clone()),
        serde_json::Value::Array(a) => JsonNode::Array(a.iter().map(json_of).collect()),
        serde_json::Value::Object(m) => JsonNode::Object(m.iter().map(|(k, x)| (k.clone(), json_of(x))).collect()),
    };
    JsonValue { node, text: v.to_string() }
}

/// Calls serde_json's `from_str::<Value>` and converts what it decodes (see
/// `json_of`); the contract names the result `json_decoded`.
#[verifier::external_body]
pub(crate) fn decode_json(text: &str) -> (r: Option<JsonValue>)
    ensures
        r == json_decoded(text@),
{
    match serde_json::from_str::<serde_json::Value>(text) {
        Ok(v) => Some(json_of(&v)),
        Err(_) => None,
    }
}

} // verus!
