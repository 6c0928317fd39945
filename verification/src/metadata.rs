//! Flattening of the auth service's dynamic metadata (a nested struct of
//! values) into escaped property paths and their values.
use crate::text::owned;
use vstd::prelude::*;

verus! {

/// A metadata value, as far as flattening reads it.
#[derive(Debug)]
pub enum MetaValue {
    /// A string.
    Str(String),
    /// A nested struct: its fields in order.
    Struct(Vec<(String, MetaValue)>),
    /// A number, boolean or null, with the JSON text that stands for it.
    Scalar(String),
    /// A list or a value of no kind.
    Other,
}

/// The path of a field under `prefix`: the key alone at the top, the
/// prefix, an escaped dot and the key below.
pub open spec fn field_path(prefix: Seq<char>, key: Seq<char>) -> Seq<char> {
    if prefix.len() == 0 {
        key
    } else {
        prefix + "\\."@ + key
    }
}

/// The string fields of a struct, nested structs flattened in place, as
/// (path, value) pairs in field order.
pub open spec fn flatten_strings(fields: Seq<(String, MetaValue)>, prefix: Seq<char>) -> Seq<(Seq<char>, Seq<char>)>
    decreases fields,
{
    if fields.len() == 0 {
        Seq::empty()
    } else {
        let init = flatten_strings(fields.drop_last(), prefix);
        let (key, value) = fields.last();
        let path = field_path(prefix, key@);
        match value {
            MetaValue::Str(s) => init.push((path, s@)),
            MetaValue::Struct(inner) => init + flatten_strings(inner@, path),
            _ => init,
        }
    }
}

fn field_path_exec(prefix: &String, key: &String) -> (res: String)
    ensures
        res@ == field_path(prefix@, key@),
{
    if prefix.as_str().is_empty() {
        key.clone()
    } else {
        let mut r = prefix.clone();
        r.push_str("\\.");
        r.push_str(key.as_str());
        r
    }
}

/// Flattens the string fields of a struct into (path, value) pairs.
pub fn process_metadata(fields: &Vec<(String, MetaValue)>, prefix: String) -> (res: Vec<(String, String)>)
    ensures
        res@.map_values(|p: (String, String)| (p.0@, p.1@)) == flatten_strings(fields@, prefix@),
    decreases fields@,
{
    let mut result: Vec<(String, String)> = Vec::new();
    let n = fields.len();
    for i in 0..n
        invariant
            n == fields@.len(),
            result@.map_values(|p: (String, String)| (p.0@, p.1@)) == flatten_strings(fields@.take(i as int), prefix@),
    {
        assert(fields@.take(i + 1).drop_last() =~= fields@.take(i as int));
        let key = &fields[i].0;
        let path = field_path_exec(&prefix, key);
        let ghost before = result@.map_values(|p: (String, String)| (p.0@, p.1@));
        match &fields[i].1 {
            MetaValue::Str(s) => {
                result.push((path, s.clone()));
                assert(result@.map_values(|p: (String, String)| (p.0@, p.1@)) =~= before.push((field_path(prefix@, key@), s@)));
            },
            MetaValue::Struct(inner) => {
                assert(decreases_to!(fields@ => fields@[i as int]));
                let nested = process_metadata(inner, path);
                let m = nested.len();
                for j in 0..m
                    invariant
                        m == nested@.len(),
                        result@.map_values(|p: (String, String)| (p.0@, p.1@)) == before + nested@.take(j as int).map_values(|p: (String, String)| (p.0@, p.1@)),
                {
                    let ghost b2 = result@.map_values(|p: (String, String)| (p.0@, p.1@));
                    result.push((nested[j].0.clone(), nested[j].1.clone()));
                    assert(result@.map_values(|p: (String, String)| (p.0@, p.1@)) =~= b2.push((nested@[j as int].0@, nested@[j as int].1@)));
                    assert(nested@.take(j + 1).map_values(|p: (String, String)| (p.0@, p.1@)) =~= nested@.take(j as int).map_values(|p: (String, String)| (p.0@, p.1@)).push((nested@[j as int].0@, nested@[j as int].1@)));
                }
                assert(nested@.take(m as int) =~= nested@);
            },
            _ => {},
        }
    }
    assert(fields@.take(n as int) =~= fields@);
    result
}

/// The key under which a flattened field is stored: `kuadrant\.` then its path.
pub open spec fn metadata_attribute(path: Seq<char>) -> Seq<char> {
    "kuadrant\\."@ + path
}

/// The attributes under which the plugin stores the auth metadata, with
/// their values, in order.
pub fn metadata_attributes(fields: &Vec<(String, MetaValue)>) -> (res: Vec<(String, String)>)
    ensures
        res@.len() == flatten_strings(fields@, Seq::empty()).len(),
        forall|i: int| 0 <= i < res@.len() ==> #[trigger] res@[i].0@ == metadata_attribute(flatten_strings(fields@, Seq::empty())[i].0)
            && res@[i].1@ == flatten_strings(fields@, Seq::empty())[i].1,
{
    let flat = process_metadata(fields, String::new());
    let ghost fv = flat@.map_values(|p: (String, String)| (p.0@, p.1@));
    let mut res: Vec<(String, String)> = Vec::new();
    let n = flat.len();
    for i in 0..n
        invariant
            n == flat@.len(),
            fv == flat@.map_values(|p: (String, String)| (p.0@, p.1@)),
            fv == flatten_strings(fields@, Seq::empty()),
            res@.len() == i,
            forall|k: int| #![trigger res@[k]] 0 <= k < i ==> res@[k].0@ == metadata_attribute(fv[k].0) && res@[k].1@ == fv[k].1,
    {
        let mut attr = String::from_str("kuadrant\\.");
        attr.push_str(flat[i].0.as_str());
        assert(fv[i as int] == (flat@[i as int].0@, flat@[i as int].1@));
        let v = flat[i].1.clone();
        let ghost old_res = res@;
        res.push((attr, v));
        assert forall|k: int| #![trigger res@[k]] 0 <= k < i + 1 implies res@[k].0@ == metadata_attribute(fv[k].0) && res@[k].1@ == fv[k].1 by {
            if k < i {
                assert(res@[k] == old_res[k]);
            }
        }
    }
    assert forall|i: int| 0 <= i < res@.len() implies #[trigger] res@[i].0@ == metadata_attribute(flatten_strings(fields@, Seq::empty())[i].0)
        && res@[i].1@ == flatten_strings(fields@, Seq::empty())[i].1 by {
        assert(res@[i].0@ == metadata_attribute(fv[i].0));
    }
    res
}

/// The lowercase hex digit of `d`, for `d < 16`.
pub open spec fn hex_digit(d: u32) -> char {
    if d < 10 {
        ((d + 48) as u8) as char
    } else {
        ((d + 87) as u8) as char
    }
}

/// The JSON escape of one character.
pub open spec fn json_escape_char(c: char) -> Seq<char> {
    if c == '"' {
        seq!['\\', '"']
    } else if c == '\\' {
        seq!['\\', '\\']
    } else if c == '\u{8}' {
        seq!['\\', 'b']
    } else if c == '\t' {
        seq!['\\', 't']
    } else if c == '\n' {
        seq!['\\', 'n']
    } else if c == '\u{c}' {
        seq!['\\', 'f']
    } else if c == '\r' {
        seq!['\\', 'r']
    } else if (c as u32) < 0x20 {
        seq!['\\', 'u', '0', '0', hex_digit((c as u32) / 16), hex_digit((c as u32) % 16)]
    } else {
        seq![c]
    }
}

/// The JSON string literal of `s`.
pub open spec fn json_escaped(s: Seq<char>) -> Seq<char>
    decreases s.len(),
{
    if s.len() == 0 {
        Seq::empty()
    } else {
        json_escaped(s.drop_last()) + json_escape_char(s.last())
    }
}

/// The JSON string literal of `s`, quotes included.
pub open spec fn json_text(s: Seq<char>) -> Seq<char> {
    seq!['"'] + json_escaped(s) + seq!['"']
}

/// `serde_json::to_string` of a string: the string between double quotes,
/// with `"` and `\` escaped by a backslash, backspace, tab, line feed, form
/// feed and carriage return as `\b \t \n \f \r`, the other control
/// characters below U+0020 as `\u00` and two lowercase hex digits, and every
/// other character as itself. Serializing a string does not fail.
#[verifier::external_body]
pub(crate) fn json_string(s: &str) -> (res: Result<String, serde_json::Error>)
    ensures
        res is Ok,
        res matches Ok(t) ==> t@ == json_text(s@),
{
    serde_json::to_string(s)
}

/// `serde_json::Error`, why a value could not be serialized.
#[verifier::external_type_specification]
#[verifier::external_body]
pub struct ExJsonError(serde_json::Error);

/// The fields of a struct, nested structs flattened in place, as (path,
/// JSON text) pairs in field order: strings quoted as JSON, numbers,
/// booleans and null as their JSON text, lists and kindless values left out.
pub open spec fn flatten_json(fields: Seq<(String, MetaValue)>, prefix: Seq<char>) -> Seq<(Seq<char>, Seq<char>)>
    decreases fields,
{
    if fields.len() == 0 {
        Seq::empty()
    } else {
        let init = flatten_json(fields.drop_last(), prefix);
        let (key, value) = fields.last();
        let path = field_path(prefix, key@);
        match value {
            MetaValue::Str(s) => init.push((path, json_text(s@))),
            MetaValue::Scalar(t) => init.push((path, t@)),
            MetaValue::Struct(inner) => init + flatten_json(inner@, path),
            MetaValue::Other => init,
        }
    }
}

/// Flattens a struct into (path, JSON text) pairs.
pub fn process_metadata_json(fields: &Vec<(String, MetaValue)>, prefix: String) -> (res: Vec<(String, String)>)
    ensures
        res@.map_values(|p: (String, String)| (p.0@, p.1@)) == flatten_json(fields@, prefix@),
    decreases fields@,
{
    let mut result: Vec<(String, String)> = Vec::new();
    let n = fields.len();
    for i in 0..n
        invariant
            n == fields@.len(),
            result@.map_values(|p: (String, String)| (p.0@, p.1@)) == flatten_json(fields@.take(i as int), prefix@),
    {
        assert(fields@.take(i + 1).drop_last() =~= fields@.take(i as int));
        let key = &fields[i].0;
        let path = field_path_exec(&prefix, key);
        let ghost before = result@.map_values(|p: (String, String)| (p.0@, p.1@));
        match &fields[i].1 {
            MetaValue::Str(s) => {
                match json_string(s.as_str()) {
                    Ok(t) => {
                        result.push((path, t));
                        assert(result@.map_values(|p: (String, String)| (p.0@, p.1@)) =~= before.push((field_path(prefix@, key@), json_text(s@))));
                    },
                    Err(_) => {},
                }
            },
            MetaValue::Scalar(t) => {
                result.push((path, t.clone()));
                assert(result@.map_values(|p: (String, String)| (p.0@, p.1@)) =~= before.push((field_path(prefix@, key@), t@)));
            },
            MetaValue::Struct(inner) => {
                assert(decreases_to!(fields@ => fields@[i as int]));
                let nested = process_metadata_json(inner, path);
                let m = nested.len();
                for j in 0..m
                    invariant
                        m == nested@.len(),
                        result@.map_values(|p: (String, String)| (p.0@, p.1@)) == before + nested@.take(j as int).map_values(|p: (String, String)| (p.0@, p.1@)),
                {
                    let ghost b2 = result@.map_values(|p: (String, String)| (p.0@, p.1@));
                    result.push((nested[j].0.clone(), nested[j].1.clone()));
                    assert(result@.map_values(|p: (String, String)| (p.0@, p.1@)) =~= b2.push((nested@[j as int].0@, nested@[j as int].1@)));
                    assert(nested@.take(j + 1).map_values(|p: (String, String)| (p.0@, p.1@)) =~= nested@.take(j as int).map_values(|p: (String, String)| (p.0@, p.1@)).push((nested@[j as int].0@, nested@[j as int].1@)));
                }
                assert(nested@.take(m as int) =~= nested@);
            },
            MetaValue::Other => {},
        }
    }
    assert(fields@.take(n as int) =~= fields@);
    result
}

} // verus!
