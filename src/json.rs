//! JSON documents as plain library values, parsed by `serde_json`.

use vstd::prelude::*;
use crate::crypto::hex_digit;
use crate::text::{chars_eq, string_of, to_chars};

verus! {

/// A JSON number: its compact text, and its value where it is an integer
/// that fits `i64` or `u64`.
#[derive(Debug, Clone)]
pub struct JsonNumber {
    pub text: String,
    pub int: Option<i64>,
    pub uint: Option<u64>,
}

/// A parsed JSON value. Arrays and objects carry their compact JSON text;
/// an object holds its member names and values in two lists of equal length.
#[derive(Debug)]
pub enum Json {
    Null,
    Bool(bool),
    Num(JsonNumber),
    Str(String),
    Arr(Vec<Json>, String),
    Obj(Vec<String>, Vec<Json>, String),
}

/// The value `serde_json::from_str` parses from a text, if it parses.
pub uninterp spec fn json_parsed(text: Seq<char>) -> Option<Json>;

/// The value `serde_json::from_slice` parses from bytes, if they parse.
pub uninterp spec fn json_parsed_bytes(bytes: Seq<u8>) -> Option<Json>;

/// How `serde_json` writes one character inside a string: `"`, `\` and the
/// control characters below U+0020 escaped (short forms for backspace, form
/// feed, newline, carriage return and tab, `\u00xx` otherwise), all others as they are.
pub open spec fn escape_char(c: char) -> Seq<char> {
    let u = c as u32;
    if c == '"' {
        seq!['\\', '"']
    } else if c == '\\' {
        seq!['\\', '\\']
    } else if u == 8 {
        seq!['\\', 'b']
    } else if u == 12 {
        seq!['\\', 'f']
    } else if u == 10 {
        seq!['\\', 'n']
    } else if u == 13 {
        seq!['\\', 'r']
    } else if u == 9 {
        seq!['\\', 't']
    } else if u < 32 {
        seq!['\\', 'u', '0', '0', hex_digit((u / 16) as u8), hex_digit((u % 16) as u8)]
    } else {
        seq![c]
    }
}

/// The characters of a string, each escaped.
pub open spec fn escaped(s: Seq<char>) -> Seq<char>
    decreases s.len(),
{
    if s.len() == 0 {
        Seq::empty()
    } else {
        escaped(s.drop_last()) + escape_char(s.last())
    }
}

/// The compact JSON text of a string: quotes around its escaped characters.
pub open spec fn json_quoted(s: Seq<char>) -> Seq<char> {
    seq!['"'] + escaped(s) + seq!['"']
}

#[verifier::external_type_specification]
#[verifier::external_body]
pub struct ExValue(serde_json::Value);

/// Moves a parsed `serde_json::Value` into a `Json`, variant by variant. Only
/// the two parsing wrappers below call it; their named results cover it.
#[verifier::external_body]
fn json_from_value(v: serde_json::Value) -> Json {
    let text = v.to_string();
    match v {
        serde_json::Value::Null => Json::Null,
        serde_json::Value::Bool(b) => Json::Bool(b),
        serde_json::Value::Number(n) => Json::Num(JsonNumber { text, int: n.as_i64(), uint: n.as_u64() }),
        serde_json::Value::String(s) => Json::Str(s),
        serde_json::Value::Array(a) => Json::Arr(a.into_iter().map(json_from_value).collect(), text),
        serde_json::Value::Object(m) => {
            let (keys, values): (Vec<String>, Vec<serde_json::Value>) = m.into_iter().unzip();
            Json::Obj(keys, values.into_iter().map(json_from_value).collect(), text)
        },
    }
}

/// Relies on `serde_json::from_str` into `serde_json::Value`: the document, or `None` on a syntax error.
#[verifier::external_body]
pub fn parse_json(text: &str) -> (r: Option<Json>)
    ensures
        r == json_parsed(text@),
{
    serde_json::from_str::<serde_json::Value>(text).ok().map(json_from_value)
}

/// Relies on `serde_json::from_slice` into `serde_json::Value`: the document, or `None` on a syntax error.
#[verifier::external_body]
pub fn parse_json_bytes(bytes: &[u8]) -> (r: Option<Json>)
    ensures
        r == json_parsed_bytes(bytes@),
{
    serde_json::from_slice::<serde_json::Value>(bytes).ok().map(json_from_value)
}

/// The JSON text of a string, as `serde_json` writes it.
pub fn json_quote(s: &str) -> (r: String)
    ensures
        r@ == json_quoted(s@),
{
    let digits: [char; 16] = [
        '0', '1', '2', '3', '4', '5', '6', '7', '8', '9', 'a', 'b', 'c', 'd', 'e', 'f',
    ];
    assert(digits@ =~= seq![
        '0', '1', '2', '3', '4', '5', '6', '7', '8', '9', 'a', 'b', 'c', 'd', 'e', 'f',
    ]);
    let cs = to_chars(s);
    let mut out: Vec<char> = Vec::new();
    out.push('"');
    let mut i: usize = 0;
    assert(cs@.take(0) =~= Seq::<char>::empty());
    while i < cs.len()
        invariant
            i <= cs@.len(),
            cs@ == s@,
            digits@ == seq![
                '0', '1', '2', '3', '4', '5', '6', '7', '8', '9', 'a', 'b', 'c', 'd', 'e', 'f',
            ],
            out@ == seq!['"'] + escaped(cs@.take(i as int)),
        decreases cs@.len() - i,
    {
        let c = cs[i];
        let u = c as u32;
        let ghost before = out@;
        if c == '"' {
            out.push('\\');
            out.push('"');
        } else if c == '\\' {
            out.push('\\');
            out.push('\\');
        } else if u == 8 {
            out.push('\\');
            out.push('b');
        } else if u == 12 {
            out.push('\\');
            out.push('f');
        } else if u == 10 {
            out.push('\\');
            out.push('n');
        } else if u == 13 {
            out.push('\\');
            out.push('r');
        } else if u == 9 {
            out.push('\\');
            out.push('t');
        } else if u < 32 {
            out.push('\\');
            out.push('u');
            out.push('0');
            out.push('0');
            out.push(digits[(u / 16) as usize]);
            out.push(digits[(u % 16) as usize]);
        } else {
            out.push(c);
        }
        proof {
            let t = cs@.take(i as int + 1);
            assert(t.drop_last() =~= cs@.take(i as int));
            assert(t.last() == c);
            assert(out@ =~= before + escape_char(c));
        }
        i += 1;
    }
    assert(cs@.take(i as int) =~= cs@);
    out.push('"');
    string_of(&out)
}

/// Compact JSON text of a value.
pub open spec fn json_text(j: Json) -> Seq<char> {
    match j {
        Json::Null => "null"@,
        Json::Bool(b) => if b {
            "true"@
        } else {
            "false"@
        },
        Json::Num(n) => n.text@,
        Json::Str(s) => json_quoted(s@),
        Json::Arr(_, t) => t@,
        Json::Obj(_, _, t) => t@,
    }
}

/// Compact JSON text of a value.
pub fn json_text_exec(j: &Json) -> (r: String)
    ensures
        r@ == json_text(*j),
{
    match j {
        Json::Null => "null".to_owned(),
        Json::Bool(b) => if *b {
            "true".to_owned()
        } else {
            "false".to_owned()
        },
        Json::Num(n) => n.text.clone(),
        Json::Str(s) => json_quote(s.as_str()),
        Json::Arr(_, t) => t.clone(),
        Json::Obj(_, _, t) => t.clone(),
    }
}

/// The first member named `key` among `ms`.
pub open spec fn first_member(keys: Seq<String>, values: Seq<Json>, key: Seq<char>) -> Option<Json>
    decreases keys.len(),
{
    if keys.len() == 0 || values.len() == 0 {
        None
    } else if keys[0]@ == key {
        Some(values[0])
    } else {
        first_member(keys.drop_first(), values.drop_first(), key)
    }
}

/// The member `key` of an object; `None` for other values.
pub open spec fn member_of(j: Json, key: Seq<char>) -> Option<Json> {
    match j {
        Json::Obj(ks, vs, _) => first_member(ks@, vs@, key),
        _ => None,
    }
}

/// A string value.
pub open spec fn as_str_of(o: Option<Json>) -> Option<Seq<char>> {
    match o {
        Some(Json::Str(s)) => Some(s@),
        _ => None,
    }
}

/// A boolean value.
pub open spec fn as_bool_of(o: Option<Json>) -> Option<bool> {
    match o {
        Some(Json::Bool(b)) => Some(b),
        _ => None,
    }
}

/// Whether a value is an object.
pub open spec fn is_obj(o: Option<Json>) -> bool {
    match o {
        Some(Json::Obj(_, _, _)) => true,
        _ => false,
    }
}

/// The string items of an array, in order; others are skipped.
pub open spec fn str_items(items: Seq<Json>) -> Seq<Seq<char>>
    decreases items.len(),
{
    if items.len() == 0 {
        Seq::empty()
    } else {
        match items.last() {
            Json::Str(s) => str_items(items.drop_last()).push(s@),
            _ => str_items(items.drop_last()),
        }
    }
}

/// The string items of an array value; empty for other values.
pub open spec fn strings_of(o: Option<Json>) -> Seq<Seq<char>> {
    match o {
        Some(Json::Arr(items, _)) => str_items(items@),
        _ => Seq::empty(),
    }
}

/// The member `key` of an object.
pub fn get_member<'a>(j: &'a Json, key: &str) -> (r: Option<&'a Json>)
    ensures
        match r {
            Some(x) => member_of(*j, key@) == Some(*x),
            None => member_of(*j, key@) is None,
        },
{
    match j {
        Json::Obj(ks, vs, _) => {
            let k = to_chars(key);
            let mut i: usize = 0;
            assert(ks@.skip(0) =~= ks@);
            assert(vs@.skip(0) =~= vs@);
            while i < ks.len() && i < vs.len()
                invariant
                    i <= ks@.len(),
                    i <= vs@.len(),
                    k@ == key@,
                    member_of(*j, key@) == first_member(
                        ks@.skip(i as int),
                        vs@.skip(i as int),
                        key@,
                    ),
                decreases ks@.len() - i,
            {
                assert(ks@.skip(i as int).drop_first() =~= ks@.skip(i as int + 1));
                assert(vs@.skip(i as int).drop_first() =~= vs@.skip(i as int + 1));
                if chars_eq(&to_chars(ks[i].as_str()), &k) {
                    assert(ks@.skip(i as int)[0] == ks@[i as int]);
                    assert(vs@.skip(i as int)[0] == vs@[i as int]);
                    return Some(&vs[i]);
                }
                i += 1;
            }
            None
        },
        _ => None,
    }
}

/// A copy of a string value.
pub fn str_value(o: Option<&Json>) -> (r: Option<String>)
    ensures
        match r {
            Some(s) => as_str_of(
                match o {
                    Some(x) => Some(*x),
                    None => None,
                },
            ) == Some(s@),
            None => as_str_of(
                match o {
                    Some(x) => Some(*x),
                    None => None,
                },
            ) is None,
        },
{
    match o {
        Some(Json::Str(s)) => Some(s.clone()),
        _ => None,
    }
}

/// A boolean value.
pub fn bool_value(o: Option<&Json>) -> (r: Option<bool>)
    ensures
        r == as_bool_of(
            match o {
                Some(x) => Some(*x),
                None => None,
            },
        ),
{
    match o {
        Some(Json::Bool(b)) => Some(*b),
        _ => None,
    }
}

/// The string items of an array value.
pub fn string_items(o: Option<&Json>) -> (r: Vec<String>)
    ensures
        r@.map_values(|s: String| s@) == strings_of(
            match o {
                Some(x) => Some(*x),
                None => None,
            },
        ),
{
    let mut out: Vec<String> = Vec::new();
    match o {
        Some(Json::Arr(items, _)) => {
            let mut i: usize = 0;
            assert(items@.take(0) =~= Seq::<Json>::empty());
            assert(out@.map_values(|s: String| s@) =~= Seq::<Seq<char>>::empty());
            while i < items.len()
                invariant
                    i <= items@.len(),
                    out@.map_values(|s: String| s@) == str_items(items@.take(i as int)),
                decreases items@.len() - i,
            {
                let ghost t = items@.take(i as int + 1);
                assert(t.drop_last() =~= items@.take(i as int));
                assert(t.last() == items@[i as int]);
                match &items[i] {
                    Json::Str(s) => {
                        let ghost before = out@;
                        out.push(s.clone());
                        assert(out@.map_values(|s: String| s@) =~= before.map_values(
                            |s: String| s@,
                        ).push(s@));
                    },
                    _ => {},
                }
                i += 1;
            }
            assert(items@.take(i as int) =~= items@);
            out
        },
        _ => {
            assert(out@.map_values(|s: String| s@) =~= Seq::<Seq<char>>::empty());
            out
        },
    }
}

} // verus!
