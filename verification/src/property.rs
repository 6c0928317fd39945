//! Where the properties of a request are read from: most from the host as
//! they are named, `auth.*` from the plugin's own filter state, and the
//! client's remote address from the host's `source.address`.
use crate::property_path::{Path, tokenize};
use crate::text::{join_seq, lemma_join_step, owned};
use vstd::prelude::*;
use vstd::utf8::valid_utf8;

verus! {

/// The namespace of the plugin's own properties.
pub const KUADRANT_NAMESPACE: &'static str = "kuadrant";

/// The text of the filter-state path that stores the plugin's property
/// `tokens`: `filter_state.wasm\.kuadrant\.` then the tokens joined by `\.`.
pub open spec fn wasm_prop_text(tokens: Seq<Seq<char>>) -> Seq<char> {
    "filter_state.wasm\\.kuadrant\\."@ + join_seq(tokens, "\\."@)
}

/// The path under which the plugin stores its property `tokens` in the
/// host's filter state: one flat, escaped key under `filter_state`.
pub fn wasm_prop(tokens: &[&str]) -> (res: Path)
    ensures
        res@ == tokenize(wasm_prop_text(tokens@.map_values(|t: &str| t@))),
{
    let ghost ts = tokens@.map_values(|t: &str| t@);
    let mut text = String::from_str("filter_state.wasm\\.kuadrant\\.");
    let ghost head = text@;
    let mut joined = String::new();
    let n = tokens.len();
    for i in 0..n
        invariant
            n == tokens@.len(),
            ts == tokens@.map_values(|t: &str| t@),
            joined@ == join_seq(ts.take(i as int), "\\."@),
    {
        proof {
            lemma_join_step(ts, "\\."@, i as int);
        }
        if i > 0 {
            joined.push_str("\\.");
        }
        joined.push_str(tokens[i]);
    }
    assert(ts.take(n as int) =~= ts);
    text.push_str(joined.as_str());
    Path::parse(text.as_str())
}

/// The text of the host path under which the plugin sets its attribute
/// `tokens`: `kuadrant\.` then the tokens joined by `\.`.
pub open spec fn stored_attribute_text(tokens: Seq<Seq<char>>) -> Seq<char> {
    "kuadrant\\."@ + join_seq(tokens, "\\."@)
}

/// The host path under which the plugin sets its attribute `tokens`; the
/// attribute keeps its own path in the plugin's cache.
pub fn stored_attribute_path(tokens: &[&str]) -> (res: String)
    ensures
        res@ == stored_attribute_text(tokens@.map_values(|t: &str| t@)),
{
    let ghost ts = tokens@.map_values(|t: &str| t@);
    let mut joined = String::new();
    let n = tokens.len();
    for i in 0..n
        invariant
            n == tokens@.len(),
            ts == tokens@.map_values(|t: &str| t@),
            joined@ == join_seq(ts.take(i as int), "\\."@),
    {
        proof {
            lemma_join_step(ts, "\\."@, i as int);
        }
        if i > 0 {
            joined.push_str("\\.");
        }
        joined.push_str(tokens[i]);
    }
    assert(ts.take(n as int) =~= ts);
    let mut text = owned("kuadrant\\.");
    text.push_str(joined.as_str());
    text
}

/// Which header map a path names, if any: `request.headers` or
/// `response.headers`; headers can be set on no other path.
pub fn header_map_of(path: &Path) -> (res: Option<crate::headers::HeadersType>)
    ensures
        path@ == seq!["request"@, "headers"@] ==> res == Some(crate::headers::HeadersType::HttpRequestHeaders),
        path@ == seq!["response"@, "headers"@] ==> res == Some(crate::headers::HeadersType::HttpResponseHeaders),
        path@ != seq!["request"@, "headers"@] && path@ != seq!["response"@, "headers"@] ==> res is None,
{
    assert(seq!["request", "headers"].map_values(|t: &str| t@) =~= seq!["request"@, "headers"@]);
    assert(seq!["response", "headers"].map_values(|t: &str| t@) =~= seq!["response"@, "headers"@]);
    proof {
        reveal_strlit("request");
        reveal_strlit("response");
        assert("request"@.len() == 7);
        assert("response"@.len() == 8);
        assert(seq!["request"@, "headers"@][0] != seq!["response"@, "headers"@][0]);
    }
    if path.is(&["request", "headers"]) {
        Some(crate::headers::HeadersType::HttpRequestHeaders)
    } else if path.is(&["response", "headers"]) {
        Some(crate::headers::HeadersType::HttpResponseHeaders)
    } else {
        None
    }
}

/// Where a property is read from.
pub enum PropertySource {
    /// The client's address, taken from the host's `source.address`.
    RemoteAddress,
    /// The host property at the given path.
    Host(Path),
}

/// The path `source.remote_address`.
pub open spec fn is_remote_address(p: Seq<Seq<char>>) -> bool {
    p == seq!["source"@, "remote_address"@]
}

/// Decides where the property at `path` is read from: the remote address
/// is derived from `source.address`; a path starting with `auth` is one of
/// the plugin's own properties, read from its filter-state key; any other
/// is read from the host as named.
pub fn property_source(path: &Path) -> (res: PropertySource)
    ensures
        is_remote_address(path@) ==> res is RemoteAddress,
        !is_remote_address(path@) && path@.len() > 0 && path@[0] == "auth"@ ==> (res matches PropertySource::Host(p) && p@ == tokenize(wasm_prop_text(path@))),
        !is_remote_address(path@) && !(path@.len() > 0 && path@[0] == "auth"@) ==> (res matches PropertySource::Host(p) && p@ == path@),
{
    let ghost sr = seq!["source", "remote_address"];
    if path.is(&["source", "remote_address"]) {
        assert(seq!["source", "remote_address"].map_values(|t: &str| t@) =~= seq!["source"@, "remote_address"@]);
        return PropertySource::RemoteAddress;
    }
    assert(seq!["source", "remote_address"].map_values(|t: &str| t@) =~= seq!["source"@, "remote_address"@]);
    if path.starts_with("auth") {
        let tokens = path.tokens();
        let p = wasm_prop(tokens.as_slice());
        assert(tokens@.map_values(|t: &str| t@) =~= path@);
        PropertySource::Host(p)
    } else {
        PropertySource::Host(path.duplicate())
    }
}

/// `std::str::from_utf8` succeeds exactly on valid UTF-8.
#[verifier::external_body]
fn is_utf8(bytes: &[u8]) -> (res: bool)
    ensures
        res == valid_utf8(bytes@),
{
    std::str::from_utf8(bytes).is_ok()
}

/// The bytes before the first `:`, or all of them when there is none.
pub open spec fn before_colon(bytes: Seq<u8>) -> Seq<u8>
    decreases bytes.len(),
{
    if bytes.len() == 0 {
        Seq::empty()
    } else if bytes[0] == 58u8 {
        Seq::empty()
    } else {
        seq![bytes[0]] + before_colon(bytes.drop_first())
    }
}

/// The client's address without its port, from the raw value of
/// `source.address` (`address:port`): none when that is not UTF-8 text.
pub fn remote_address_host(raw: &[u8]) -> (res: Option<Vec<u8>>)
    ensures
        match res {
            Some(v) => valid_utf8(raw@) && v@ == before_colon(raw@),
            None => !valid_utf8(raw@),
        },
{
    if !is_utf8(raw) {
        return None;
    }
    let mut out: Vec<u8> = Vec::new();
    let n = raw.len();
    let mut i: usize = 0;
    assert(raw@.skip(0) =~= raw@);
    while i < n && raw[i] != 58u8
        invariant
            n == raw@.len(),
            i <= n,
            before_colon(raw@) == out@ + before_colon(raw@.skip(i as int)),
        decreases n - i,
    {
        assert(raw@.skip(i as int)[0] == raw@[i as int]);
        assert(raw@.skip(i as int).drop_first() =~= raw@.skip(i + 1));
        assert(out@.push(raw@[i as int]) + before_colon(raw@.skip(i + 1)) =~= out@ + (seq![raw@[i as int]] + before_colon(raw@.skip(i + 1))));
        out.push(raw[i]);
        i += 1;
    }
    if i < n {
        assert(raw@.skip(i as int)[0] == raw@[i as int]);
    }
    assert(out@ + Seq::<u8>::empty() =~= out@);
    Some(out)
}

/// Which host map a map property names.
pub enum MapSource {
    /// The request's headers.
    RequestHeaders,
    /// No map is known by that name.
    Unknown,
}

/// Decides which host map the property at `path` names: only
/// `request.headers` is known.
pub fn map_source(path: &Path) -> (res: MapSource)
    ensures
        res is RequestHeaders <==> path@ == seq!["request"@, "headers"@],
{
    assert(seq!["request", "headers"].map_values(|t: &str| t@) =~= seq!["request"@, "headers"@]);
    if path.is(&["request", "headers"]) {
        MapSource::RequestHeaders
    } else {
        MapSource::Unknown
    }
}

} // verus!
