//! An owned, ordered JSON document model. Incoming payloads are decoded into
//! this shape once, at the edge, and every rule of the pipeline is then a
//! plain function over it. An object is an ordered member list: whatever
//! order the decoder hands over is the order kept, through serialization.

use vstd::prelude::*;

use crate::text::str_eq;
use vstd::string::StrSliceExecFns;
use vstd::string::StringExecFns;

verus! {

/// One JSON value. A number is kept as its decimal rendering (its lexeme),
/// so no precision is lost in the core; an object is an ordered member list.
pub enum JsonValue {
    Null,
    Bool(bool),
    /// The number's decimal text, e.g. `"12"` or `"-3.5"`.
    Num(String),
    Str(String),
    Arr(Vec<JsonValue>),
    Obj(Vec<(String, JsonValue)>),
}

/// The value of the first member of `fields` named `key`, if any.
pub open spec fn spec_obj_get(fields: Seq<(String, JsonValue)>, key: Seq<char>) -> Option<
    JsonValue,
>
    decreases fields.len(),
{
    if fields.len() == 0 {
        None
    } else if fields[0].0@ == key {
        Some(fields[0].1)
    } else {
        spec_obj_get(fields.skip(1), key)
    }
}

/// First member of `fields` named `key`, or `None`.
pub fn obj_get<'a>(fields: &'a Vec<(String, JsonValue)>, key: &str) -> (r: Option<&'a JsonValue>)
    ensures
        match r {
            Some(v) => spec_obj_get(fields@, key@) == Some(*v),
            None => spec_obj_get(fields@, key@) is None,
        },
{
    let mut i: usize = 0;
    assert(fields@.skip(0) =~= fields@);
    while i < fields.len()
        invariant
            i <= fields.len(),
            spec_obj_get(fields@, key@) == spec_obj_get(fields@.skip(i as int), key@),
        decreases fields.len() - i,
    {
        assert(fields@.skip(i as int)[0] == fields@[i as int]);
        if str_eq(fields[i].0.as_str(), key) {
            return Some(&fields[i].1);
        }
        assert(fields@.skip(i as int).skip(1) =~= fields@.skip(i as int + 1));
        i = i + 1;
    }
    None
}

/// The hexadecimal digit character for `d` (lower case).
pub open spec fn spec_hex_char(d: int) -> char {
    if d == 0 {
        '0'
    } else if d == 1 {
        '1'
    } else if d == 2 {
        '2'
    } else if d == 3 {
        '3'
    } else if d == 4 {
        '4'
    } else if d == 5 {
        '5'
    } else if d == 6 {
        '6'
    } else if d == 7 {
        '7'
    } else if d == 8 {
        '8'
    } else if d == 9 {
        '9'
    } else if d == 10 {
        'a'
    } else if d == 11 {
        'b'
    } else if d == 12 {
        'c'
    } else if d == 13 {
        'd'
    } else if d == 14 {
        'e'
    } else {
        'f'
    }
}

/// How one character appears inside a JSON string literal: quotes and
/// backslashes are escaped, control characters take the `\u00XX` form, and
/// everything else stands for itself.
pub open spec fn spec_esc_char(c: char) -> Seq<char> {
    if c == '"' {
        seq!['\\', '"']
    } else if c == '\\' {
        seq!['\\', '\\']
    } else if (c as int) < 32 {
        seq!['\\', 'u', '0', '0', spec_hex_char(c as int / 16), spec_hex_char(c as int % 16)]
    } else {
        seq![c]
    }
}

/// The body of a JSON string literal spelling `s`.
pub open spec fn spec_escaped(s: Seq<char>) -> Seq<char>
    decreases s.len(),
{
    if s.len() == 0 {
        Seq::<char>::empty()
    } else {
        spec_escaped(s.drop_last()) + spec_esc_char(s.last())
    }
}

/// The compact serialized text of `v`. A number lexeme is emitted as it is
/// held, object members keep their order, and no whitespace is added.
pub open spec fn spec_json_text(v: JsonValue) -> Seq<char>
    decreases v, 0int, 0int,
{
    match v {
        JsonValue::Null => "null"@,
        JsonValue::Bool(b) => if b {
            "true"@
        } else {
            "false"@
        },
        JsonValue::Num(s) => s@,
        JsonValue::Str(s) => seq!['"'] + spec_escaped(s@) + seq!['"'],
        JsonValue::Arr(items) => seq!['['] + spec_json_items(items@, 0) + seq![']'],
        JsonValue::Obj(fields) => seq!['{'] + spec_json_members(fields@, 0) + seq!['}'],
    }
}

/// The serialized items of an array from position `i` on, comma-separated.
pub open spec fn spec_json_items(s: Seq<JsonValue>, i: int) -> Seq<char>
    decreases s, 1int, s.len() - i,
{
    if i < 0 || i >= s.len() {
        Seq::<char>::empty()
    } else {
        let sep = if i > 0 {
            seq![',']
        } else {
            Seq::<char>::empty()
        };
        sep + spec_json_text(s[i]) + spec_json_items(s, i + 1)
    }
}

/// The serialized members of an object from position `i` on, comma-separated.
pub open spec fn spec_json_members(s: Seq<(String, JsonValue)>, i: int) -> Seq<char>
    decreases s, 1int, s.len() - i,
{
    if i < 0 || i >= s.len() {
        Seq::<char>::empty()
    } else {
        let sep = if i > 0 {
            seq![',']
        } else {
            Seq::<char>::empty()
        };
        sep + seq!['"'] + spec_escaped(s[i].0@) + seq!['"', ':'] + spec_json_text(s[i].1)
            + spec_json_members(s, i + 1)
    }
}

fn hex_str(d: u32) -> (r: &'static str)
    requires
        d <= 15,
    ensures
        r@ =~= seq![spec_hex_char(d as int)],
{
    proof {
        reveal_strlit("a");
        reveal_strlit("b");
        reveal_strlit("c");
        reveal_strlit("d");
        reveal_strlit("e");
        reveal_strlit("f");
    }
    if d <= 9 {
        crate::text::digit_str_pub(d as u64)
    } else if d == 10 {
        "a"
    } else if d == 11 {
        "b"
    } else if d == 12 {
        "c"
    } else if d == 13 {
        "d"
    } else if d == 14 {
        "e"
    } else {
        "f"
    }
}

/// Appends the escaped body of a JSON string literal spelling `s`.
fn push_escaped(out: &mut String, s: &str)
    ensures
        final(out)@ == old(out)@ + spec_escaped(s@),
{
    let n: usize = s.unicode_len();
    let mut i: usize = 0;
    assert(out@ + spec_escaped(s@.subrange(0, 0)) =~= out@);
    while i < n
        invariant
            i <= n,
            n == s@.len(),
            out@ == old(out)@ + spec_escaped(s@.subrange(0, i as int)),
        decreases n - i,
    {
        let c: char = s.get_char(i);
        let cv: u32 = c as u32;
        proof {
            reveal_strlit("\\\"");
            reveal_strlit("\\\\");
            reveal_strlit("\\u00");
        }
        if cv == 34 {
            assert(c == '"');
            out.append("\\\"");
        } else if cv == 92 {
            assert(c == '\\');
            out.append("\\\\");
        } else if cv < 32 {
            out.append("\\u00");
            out.append(hex_str(cv / 16));
            out.append(hex_str(cv % 16));
        } else {
            let piece: &str = s.substring_char(i, i + 1);
            assert(piece@ =~= seq![s@[i as int]]);
            out.append(piece);
        }
        proof {
            assert(s@.subrange(0, i + 1).drop_last() =~= s@.subrange(0, i as int));
            assert(s@.subrange(0, i + 1).last() == s@[i as int]);
            assert(out@ =~= old(out)@ + spec_escaped(s@.subrange(0, i + 1)));
        }
        i = i + 1;
    }
    assert(s@.subrange(0, n as int) =~= s@);
}

/// Appends the compact serialized text of `v`.
pub fn push_json(out: &mut String, v: &JsonValue)
    ensures
        final(out)@ == old(out)@ + spec_json_text(*v),
    decreases v, 0int, 0int,
{
    proof {
        reveal_strlit("null");
        reveal_strlit("true");
        reveal_strlit("false");
        reveal_strlit("\"");
        reveal_strlit("[");
        reveal_strlit("]");
        reveal_strlit("{");
        reveal_strlit("}");
    }
    match v {
        JsonValue::Null => {
            out.append("null");
        },
        JsonValue::Bool(b) => {
            if *b {
                out.append("true");
            } else {
                out.append("false");
            }
        },
        JsonValue::Num(s) => {
            out.append(s.as_str());
        },
        JsonValue::Str(s) => {
            out.append("\"");
            assert("\""@ =~= seq!['"']);
            push_escaped(out, s.as_str());
            out.append("\"");
            assert(out@ =~= old(out)@ + spec_json_text(*v));
        },
        JsonValue::Arr(items) => {
            out.append("[");
            assert("["@ =~= seq!['[']);
            push_json_items(out, items, 0);
            out.append("]");
            assert("]"@ =~= seq![']']);
            assert(out@ =~= old(out)@ + spec_json_text(*v));
        },
        JsonValue::Obj(fields) => {
            out.append("{");
            assert("{"@ =~= seq!['{']);
            push_json_members(out, fields, 0);
            out.append("}");
            assert("}"@ =~= seq!['}']);
            assert(out@ =~= old(out)@ + spec_json_text(*v));
        },
    }
}

fn push_json_items(out: &mut String, items: &Vec<JsonValue>, i: usize)
    requires
        i <= items@.len(),
    ensures
        final(out)@ == old(out)@ + spec_json_items(items@, i as int),
    decreases items@, 1int, items@.len() - i,
{
    proof {
        reveal_strlit(",");
    }
    if i < items.len() {
        if i > 0 {
            out.append(",");
            assert(","@ =~= seq![',']);
        }
        push_json(out, &items[i]);
        push_json_items(out, items, i + 1);
        assert(out@ =~= old(out)@ + spec_json_items(items@, i as int));
    } else {
        assert(out@ =~= old(out)@ + spec_json_items(items@, i as int));
    }
}

fn push_json_members(out: &mut String, fields: &Vec<(String, JsonValue)>, i: usize)
    requires
        i <= fields@.len(),
    ensures
        final(out)@ == old(out)@ + spec_json_members(fields@, i as int),
    decreases fields@, 1int, fields@.len() - i,
{
    proof {
        reveal_strlit(",");
        reveal_strlit("\"");
        reveal_strlit("\":");
    }
    if i < fields.len() {
        if i > 0 {
            out.append(",");
            assert(","@ =~= seq![',']);
        }
        out.append("\"");
        assert("\""@ =~= seq!['"']);
        push_escaped(out, fields[i].0.as_str());
        out.append("\":");
        assert("\":"@ =~= seq!['"', ':']);
        push_json(out, &fields[i].1);
        push_json_members(out, fields, i + 1);
        assert(out@ =~= old(out)@ + spec_json_members(fields@, i as int));
    } else {
        assert(out@ =~= old(out)@ + spec_json_members(fields@, i as int));
    }
}

/// The compact serialized text of `v` as a fresh string.
pub fn json_to_text(v: &JsonValue) -> (r: String)
    ensures
        r@ == spec_json_text(*v),
{
    let mut out = String::new();
    push_json(&mut out, v);
    assert(Seq::<char>::empty() + spec_json_text(*v) =~= spec_json_text(*v));
    out
}

/// An empty JSON object, the default for the optional open-document fields.
pub fn empty_object() -> (r: JsonValue)
    ensures
        (r matches JsonValue::Obj(fields) && fields@.len() == 0),
{
    JsonValue::Obj(Vec::new())
}

/// The member named `key` of an object extended on the right: the earlier
/// members win.
pub proof fn lemma_obj_get_push(s: Seq<(String, JsonValue)>, p: (String, JsonValue), key: Seq<char>)
    ensures
        spec_obj_get(s.push(p), key) == (match spec_obj_get(s, key) {
            Some(x) => Some(x),
            None => if p.0@ == key {
                Some(p.1)
            } else {
                None
            },
        }),
    decreases s.len(),
{
    if s.len() == 0 {
        assert(s.push(p).len() == 1);
        assert(s.push(p)[0] == p);
        assert(s.push(p).skip(1) =~= Seq::<(String, JsonValue)>::empty());
        assert(spec_obj_get(s, key) is None);
        assert(spec_obj_get(s.push(p).skip(1), key) is None);
        if p.0@ == key {
            assert(spec_obj_get(s.push(p), key) == Some(p.1));
        } else {
            assert(spec_obj_get(s.push(p), key) is None);
        }
    } else {
        assert(s.push(p)[0] == s[0]);
        assert(s.push(p).skip(1) =~= s.skip(1).push(p));
        lemma_obj_get_push(s.skip(1), p, key);
        if s[0].0@ == key {
            assert(spec_obj_get(s.push(p), key) == Some(s[0].1));
            assert(spec_obj_get(s, key) == Some(s[0].1));
        } else {
            assert(spec_obj_get(s.push(p), key) == spec_obj_get(s.skip(1).push(p), key));
            assert(spec_obj_get(s, key) == spec_obj_get(s.skip(1), key));
        }
    }
}

/// The value of the member named `key`, when `v` is an object that has one.
pub open spec fn spec_field(v: JsonValue, key: Seq<char>) -> Option<JsonValue> {
    match v {
        JsonValue::Obj(fields) => spec_obj_get(fields@, key),
        _ => None,
    }
}

} // verus!
