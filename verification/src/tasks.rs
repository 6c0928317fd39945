//! Pure parts of the request pipeline's tasks: naming the variable that a
//! gRPC reply is bound to, reading headers out of a CEL map, and writing
//! the rate limit request as CEL.
use crate::attribute::{decimal, to_decimal};
use crate::cel::{CelKey, CelValue};
use crate::legacy_translation::{escape_cel_string, escaped};
use crate::responses::pairs_view;
use crate::text::{join, join_seq, owned, views};
use vstd::prelude::*;

verus! {

/// What `char::to_lowercase` yields for `c`: its Unicode lower case
/// mapping, one or more characters.
pub uninterp spec fn char_lowercase(c: char) -> Seq<char>;

/// `char::to_lowercase`, collected into a string. Trusted: the result is
/// the named mapping of `c`; an ASCII character maps to its ASCII lower
/// case.
#[verifier::external_body]
fn lowercase_of(c: char) -> (res: String)
    ensures
        res@ == char_lowercase(c),
        (c as u32) < 0x80 ==> res@ == seq![crate::cel::strings::ascii_lower(c)],
{
    c.to_lowercase().collect::<String>()
}

/// A name in camel case from one in Pascal case: the first character in
/// lower case, the rest as it is.
pub open spec fn camel_case(s: Seq<char>) -> Seq<char> {
    if s.len() == 0 {
        Seq::empty()
    } else {
        char_lowercase(s[0]) + s.drop_first()
    }
}

/// The camel-case form of a Pascal-case name: `AssessResponse` becomes
/// `assessResponse`.
pub fn to_camel_case(pascal_case: &str) -> (res: String)
    ensures
        res@ == camel_case(pascal_case@),
        pascal_case@.len() > 0 && (pascal_case@[0] as u32) < 0x80
            ==> res@ == seq![crate::cel::strings::ascii_lower(pascal_case@[0])] + pascal_case@.drop_first(),
{
    let chars = crate::text::chars_of(pascal_case);
    if chars.len() == 0 {
        return String::new();
    }
    let mut out = lowercase_of(chars[0]);
    let n = chars.len();
    let ghost first = out@;
    for i in 1..n
        invariant
            n == chars@.len(),
            chars@ == pascal_case@,
            out@ == first + chars@.subrange(1, i as int),
    {
        out.push(chars[i]);
        assert(chars@.subrange(1, i + 1) =~= chars@.subrange(1, i as int).push(chars@[i as int]));
    }
    assert(chars@.subrange(1, n as int) =~= pascal_case@.drop_first());
    out
}

/// The decimal text of a signed integer.
pub open spec fn int_decimal(n: int) -> Seq<char> {
    if n < 0 {
        seq!['-'] + decimal((-n) as nat)
    } else {
        decimal(n as nat)
    }
}

fn i64_decimal(n: i64) -> (res: String)
    ensures
        res@ == int_decimal(n as int),
{
    if n < 0 {
        let magnitude = ((-(n + 1)) as u64) + 1;
        let digits = to_decimal(magnitude);
        let mut r = String::new();
        r.push('-');
        r.push_str(digits.as_str());
        assert(r@ =~= seq!['-'] + decimal((-n) as nat));
        r
    } else {
        to_decimal(n as u64)
    }
}

/// The text of a header value: strings as they are, numbers and booleans
/// as their text; other values have none.
pub open spec fn header_text(v: CelValue) -> Option<Seq<char>> {
    match v {
        CelValue::Str(s) => Some(s@),
        CelValue::Int(n) => Some(int_decimal(n as int)),
        CelValue::UInt(n) => Some(decimal(n as nat)),
        CelValue::Float(t) => Some(t@),
        CelValue::Bool(b) => Some(if b { "true"@ } else { "false"@ }),
        _ => None,
    }
}

/// The headers that the entries of a CEL map stand for, in order: none
/// when a key is not a string or a value has no text.
pub open spec fn map_headers(entries: Seq<(CelKey, CelValue)>) -> Option<Seq<(Seq<char>, Seq<char>)>>
    decreases entries.len(),
{
    if entries.len() == 0 {
        Some(Seq::empty())
    } else {
        match map_headers(entries.drop_last()) {
            None => None,
            Some(init) => match (entries.last().0, header_text(entries.last().1)) {
                (CelKey::Str(k), Some(t)) => Some(init.push((k@, t))),
                _ => None,
            },
        }
    }
}

pub(crate) fn header_text_of(v: &CelValue) -> (res: Option<String>)
    ensures
        match header_text(*v) {
            Some(t) => res matches Some(r) && r@ == t,
            None => res is None,
        },
{
    match v {
        CelValue::Str(s) => Some(owned(s.as_str())),
        CelValue::Int(n) => Some(i64_decimal(*n)),
        CelValue::UInt(n) => Some(to_decimal(*n)),
        CelValue::Float(t) => Some(owned(t.as_str())),
        CelValue::Bool(b) => Some(if *b { owned("true") } else { owned("false") }),
        _ => None,
    }
}

/// The headers that a CEL map of strings stands for: each key a string,
/// each value a string, number or boolean (taken as its text). `None` for
/// a value that is no map or a map with another key or value.
pub fn extract_headers(value: &CelValue) -> (res: Option<Vec<(String, String)>>)
    ensures
        match value {
            CelValue::Entries(entries) => match map_headers(entries@) {
                Some(h) => res matches Some(r) && pairs_view(r@) == h,
                None => res is None,
            },
            _ => res is None,
        },
{
    match value {
        CelValue::Entries(entries) => {
            let mut headers: Vec<(String, String)> = Vec::new();
            let n = entries.len();
            for i in 0..n
                invariant
                    n == entries@.len(),
                    *value == CelValue::Entries(*entries),
                    map_headers(entries@.take(i as int)) == Some(pairs_view(headers@)),
            {
                assert(entries@.take(i + 1).drop_last() =~= entries@.take(i as int));
                assert(entries@.take(i + 1).last() == entries@[i as int]);
                let key = match &entries[i].0 {
                    CelKey::Str(s) => owned(s.as_str()),
                    _ => {
                        assert(map_headers(entries@.take(i + 1)) is None);
                        proof {
                            lemma_map_headers_none(entries@, i + 1);
                        }
                        return None;
                    },
                };
                let text = match header_text_of(&entries[i].1) {
                    Some(t) => t,
                    None => {
                        assert(map_headers(entries@.take(i + 1)) is None);
                        proof {
                            lemma_map_headers_none(entries@, i + 1);
                        }
                        return None;
                    },
                };
                let ghost before = pairs_view(headers@);
                let ghost kv = (key@, text@);
                headers.push((key, text));
                assert(pairs_view(headers@) =~= before.push(kv));
            }
            assert(entries@.take(n as int) =~= entries@);
            Some(headers)
        },
        _ => None,
    }
}

/// Once a prefix of the entries has no headers, no longer prefix has.
proof fn lemma_map_headers_none(entries: Seq<(CelKey, CelValue)>, k: int)
    requires
        0 <= k <= entries.len(),
        map_headers(entries.take(k)) is None,
    ensures
        map_headers(entries) is None,
    decreases entries.len() - k,
{
    if k < entries.len() {
        assert(entries.take(k + 1).drop_last() =~= entries.take(k));
        assert(map_headers(entries.take(k + 1)) is None);
        lemma_map_headers_none(entries, k + 1);
    } else {
        assert(entries.take(k) =~= entries);
    }
}

/// An entry of a rate limit descriptor.
#[derive(Debug)]
pub struct RateLimitDescriptorEntry {
    pub key: String,
    pub value: String,
}

/// A rate limit descriptor: its entries in order.
#[derive(Debug)]
pub struct RateLimitDescriptor {
    pub entries: Vec<RateLimitDescriptorEntry>,
}

/// The CEL message of a descriptor entry.
pub open spec fn entry_cel(e: RateLimitDescriptorEntry) -> Seq<char> {
    "envoy.extensions.common.ratelimit.v3.RateLimitDescriptor.Entry { key: \""@ + escaped(e.key@)
        + "\", value: \""@ + escaped(e.value@) + "\" }"@
}

/// The CEL message of a descriptor.
pub open spec fn descriptor_cel(d: RateLimitDescriptor) -> Seq<char> {
    "envoy.extensions.common.ratelimit.v3.RateLimitDescriptor { entries: ["@
        + join_seq(d.entries@.map_values(|e: RateLimitDescriptorEntry| entry_cel(e)), ", "@) + "] }"@
}

/// The CEL message of a rate limit request.
pub open spec fn ratelimit_request_cel(domain: Seq<char>, hits_addend: u32, descriptors: Seq<RateLimitDescriptor>) -> Seq<char> {
    "envoy.service.ratelimit.v3.RateLimitRequest {\n    domain: \""@ + escaped(domain)
        + "\",\n    hits_addend: "@ + decimal(hits_addend as nat)
        + "u,\n    descriptors: ["@
        + join_seq(descriptors.map_values(|d: RateLimitDescriptor| descriptor_cel(d)), ", "@)
        + "]\n}"@
}

fn entry_cel_exec(e: &RateLimitDescriptorEntry) -> (res: String)
    ensures
        res@ == entry_cel(*e),
{
    let mut r = owned("envoy.extensions.common.ratelimit.v3.RateLimitDescriptor.Entry { key: \"");
    r.push_str(escape_cel_string(e.key.as_str()).as_str());
    r.push_str("\", value: \"");
    r.push_str(escape_cel_string(e.value.as_str()).as_str());
    r.push_str("\" }");
    r
}

fn descriptor_cel_exec(d: &RateLimitDescriptor) -> (res: String)
    ensures
        res@ == descriptor_cel(*d),
{
    let mut parts: Vec<String> = Vec::new();
    let n = d.entries.len();
    for i in 0..n
        invariant
            n == d.entries@.len(),
            views(parts@) == d.entries@.take(i as int).map_values(|e: RateLimitDescriptorEntry| entry_cel(e)),
    {
        let ghost before = parts@;
        parts.push(entry_cel_exec(&d.entries[i]));
        assert(views(parts@) =~= views(before).push(entry_cel(d.entries@[i as int])));
        assert(d.entries@.take(i + 1).map_values(|e: RateLimitDescriptorEntry| entry_cel(e))
            =~= d.entries@.take(i as int).map_values(|e: RateLimitDescriptorEntry| entry_cel(e)).push(entry_cel(d.entries@[i as int])));
    }
    assert(d.entries@.take(n as int) =~= d.entries@);
    let mut r = owned("envoy.extensions.common.ratelimit.v3.RateLimitDescriptor { entries: [");
    r.push_str(join(&parts, ", ").as_str());
    r.push_str("] }");
    r
}

/// The CEL source of the rate limit request for `domain`, `hits_addend`
/// and `descriptors`, strings escaped.
pub fn generate_ratelimit_request_cel(domain: &str, hits_addend: u32, descriptors: &[RateLimitDescriptor]) -> (res: String)
    ensures
        res@ == ratelimit_request_cel(domain@, hits_addend, descriptors@),
{
    let mut parts: Vec<String> = Vec::new();
    let n = descriptors.len();
    for i in 0..n
        invariant
            n == descriptors@.len(),
            views(parts@) == descriptors@.take(i as int).map_values(|d: RateLimitDescriptor| descriptor_cel(d)),
    {
        let ghost before = parts@;
        parts.push(descriptor_cel_exec(&descriptors[i]));
        assert(views(parts@) =~= views(before).push(descriptor_cel(descriptors@[i as int])));
        assert(descriptors@.take(i + 1).map_values(|d: RateLimitDescriptor| descriptor_cel(d))
            =~= descriptors@.take(i as int).map_values(|d: RateLimitDescriptor| descriptor_cel(d)).push(descriptor_cel(descriptors@[i as int])));
    }
    assert(descriptors@.take(n as int) =~= descriptors@);
    let mut r = owned("envoy.service.ratelimit.v3.RateLimitRequest {\n    domain: \"");
    r.push_str(escape_cel_string(domain).as_str());
    r.push_str("\",\n    hits_addend: ");
    r.push_str(to_decimal(hits_addend as u64).as_str());
    r.push_str("u,\n    descriptors: [");
    r.push_str(join(&parts, ", ").as_str());
    r.push_str("]\n}");
    r
}

} // verus!
