//! What the plugin makes of the replies of the auth and rate limit
//! services: headers to add, data to store, or a reply that ends the
//! request.
use crate::metadata::{json_string, json_text, MetaValue};
use crate::text::owned;
use vstd::prelude::*;

verus! {

/// A header of an envoy reply.
#[derive(Debug)]
pub struct HeaderValue {
    pub key: String,
    pub value: String,
}

/// A header option of an envoy reply, which may carry no header.
#[derive(Debug)]
pub struct HeaderValueOption {
    pub header: Option<HeaderValue>,
}

/// The (name, value) pairs of a list of headers.
pub open spec fn pairs_view(v: Seq<(String, String)>) -> Seq<(Seq<char>, Seq<char>)> {
    v.map_values(|p: (String, String)| (p.0@, p.1@))
}

/// The headers that a list of header options carries, in order.
pub open spec fn envoy_headers(opts: Seq<HeaderValueOption>) -> Seq<(Seq<char>, Seq<char>)>
    decreases opts.len(),
{
    if opts.len() == 0 {
        Seq::empty()
    } else {
        let init = envoy_headers(opts.drop_last());
        match opts.last().header {
            Some(h) => init.push((h.key@, h.value@)),
            None => init,
        }
    }
}

/// The headers that a list of envoy header options carries, in order.
pub fn from_envoy_headers(headers: &[HeaderValueOption]) -> (res: Vec<(String, String)>)
    ensures
        pairs_view(res@) == envoy_headers(headers@),
{
    let mut out: Vec<(String, String)> = Vec::new();
    let n = headers.len();
    for i in 0..n
        invariant
            n == headers@.len(),
            pairs_view(out@) == envoy_headers(headers@.take(i as int)),
    {
        assert(headers@.take(i + 1).drop_last() =~= headers@.take(i as int));
        match &headers[i].header {
            Some(h) => {
                let ghost before = out@;
                out.push((owned(h.key.as_str()), owned(h.value.as_str())));
                assert(pairs_view(out@) =~= pairs_view(before).push((h.key@, h.value@)));
            },
            None => {},
        }
    }
    assert(headers@.take(n as int) =~= headers@);
    out
}

/// The reply of the auth service that lets a request through.
#[derive(Debug)]
pub struct OkHttpResponse {
    /// Headers to add to the request.
    pub headers: Vec<HeaderValueOption>,
    /// Headers to add to the response.
    pub response_headers_to_add: Vec<HeaderValueOption>,
    /// Request headers to remove.
    pub headers_to_remove: Vec<String>,
    /// Query parameters to set, as (name, value).
    pub query_parameters_to_set: Vec<(String, String)>,
    /// Query parameters to remove.
    pub query_parameters_to_remove: Vec<String>,
}

/// The reply of the auth service that refuses a request.
#[derive(Debug)]
pub struct DeniedHttpResponse {
    /// The HTTP status code, if set.
    pub status: Option<i32>,
    /// Headers of the reply.
    pub headers: Vec<HeaderValueOption>,
    /// The body of the reply.
    pub body: String,
}

/// The verdict of the auth service.
#[derive(Debug)]
pub enum HttpResponse {
    Accepted(OkHttpResponse),
    Denied(DeniedHttpResponse),
}

/// The reply of the auth service.
#[derive(Debug)]
pub struct CheckResponse {
    /// Dynamic metadata, a struct of values.
    pub dynamic_metadata: Option<Vec<(String, MetaValue)>>,
    /// The verdict, if the reply has one.
    pub http_response: Option<HttpResponse>,
}

/// What to do with the reply of the auth service.
#[derive(Debug)]
pub enum AuthOutcome {
    /// The reply cannot be acted on.
    Failed,
    /// Nothing more to do.
    Done,
    /// Store data under paths (values are JSON texts) and append headers
    /// to the request, where present, in that order.
    FollowUp { store: Option<Vec<(String, String)>>, append_request_headers: Option<Vec<(String, String)>> },
    /// End the request with this reply.
    Deny { status_code: u32, headers: Vec<(String, String)>, body: Option<String> },
}

/// The path of a metadata field under `prefix`.
pub open spec fn dotted(prefix: Seq<char>, key: Seq<char>) -> Seq<char> {
    prefix + "."@ + key
}

/// The fields of the auth metadata, nested structs flattened in place, as
/// (path, JSON text) pairs in field order: lists and kindless values left
/// out.
pub open spec fn auth_metadata(fields: Seq<(String, MetaValue)>, prefix: Seq<char>) -> Seq<(Seq<char>, Seq<char>)>
    decreases fields,
{
    if fields.len() == 0 {
        Seq::empty()
    } else {
        let init = auth_metadata(fields.drop_last(), prefix);
        let (key, value) = fields.last();
        let path = dotted(prefix, key@);
        match value {
            MetaValue::Str(s) => init.push((path, json_text(s@))),
            MetaValue::Scalar(t) => init.push((path, t@)),
            MetaValue::Struct(inner) => init + auth_metadata(inner@, path),
            MetaValue::Other => init,
        }
    }
}

/// Flattens the auth metadata under `prefix` into (path, JSON text) pairs.
pub fn process_metadata(fields: &Vec<(String, MetaValue)>, prefix: &str) -> (res: Vec<(String, String)>)
    ensures
        pairs_view(res@) == auth_metadata(fields@, prefix@),
    decreases fields@,
{
    let mut result: Vec<(String, String)> = Vec::new();
    let n = fields.len();
    for i in 0..n
        invariant
            n == fields@.len(),
            pairs_view(result@) == auth_metadata(fields@.take(i as int), prefix@),
    {
        assert(fields@.take(i + 1).drop_last() =~= fields@.take(i as int));
        let key = &fields[i].0;
        let mut path = owned(prefix);
        path.push_str(".");
        path.push_str(key.as_str());
        let ghost before = pairs_view(result@);
        match &fields[i].1 {
            MetaValue::Str(s) => {
                match json_string(s.as_str()) {
                    Ok(t) => {
                        result.push((path, t));
                        assert(pairs_view(result@) =~= before.push((dotted(prefix@, key@), json_text(s@))));
                    },
                    Err(_) => {},
                }
            },
            MetaValue::Scalar(t) => {
                result.push((path, owned(t.as_str())));
                assert(pairs_view(result@) =~= before.push((dotted(prefix@, key@), t@)));
            },
            MetaValue::Struct(inner) => {
                assert(decreases_to!(fields@ => fields@[i as int]));
                let nested = process_metadata(inner, path.as_str());
                let ghost nested_view = pairs_view(nested@);
                let mut nested = nested;
                result.append(&mut nested);
                assert(pairs_view(result@) =~= before + nested_view);
            },
            MetaValue::Other => {},
        }
    }
    assert(fields@.take(n as int) =~= fields@);
    result
}

/// Whether an accepting reply asks for something the plugin does not do.
pub open spec fn unsupported(ok: OkHttpResponse) -> bool {
    ||| ok.response_headers_to_add@.len() > 0
    ||| ok.headers_to_remove@.len() > 0
    ||| ok.query_parameters_to_set@.len() > 0
    ||| ok.query_parameters_to_remove@.len() > 0
}

/// The metadata entries of a reply, under `auth`.
pub open spec fn reply_metadata(r: CheckResponse) -> Seq<(Seq<char>, Seq<char>)> {
    match r.dynamic_metadata {
        Some(fields) => auth_metadata(fields@, "auth"@),
        None => Seq::empty(),
    }
}

/// What the plugin does with the reply of the auth service: nothing it can
/// act on without a verdict or when an accepting verdict asks for what it
/// does not support; when accepted, store the metadata (if any) and append
/// the reply's headers to the request (if it has any header options); when
/// denied, reply with the given status (403 without one), headers and body
/// (none when empty).
pub fn process_auth_response(response: &CheckResponse) -> (res: AuthOutcome)
    ensures
        match response.http_response {
            None => res is Failed,
            Some(HttpResponse::Accepted(ok)) => if unsupported(ok) {
                res is Failed
            } else if reply_metadata(*response).len() == 0 && ok.headers@.len() == 0 {
                res is Done
            } else {
                res matches AuthOutcome::FollowUp { store, append_request_headers } && (
                    match store {
                        Some(data) => reply_metadata(*response).len() > 0 && pairs_view(data@) == reply_metadata(*response),
                        None => reply_metadata(*response).len() == 0,
                    }) && (
                    match append_request_headers {
                        Some(h) => ok.headers@.len() > 0 && pairs_view(h@) == envoy_headers(ok.headers@),
                        None => ok.headers@.len() == 0,
                    })
            },
            Some(HttpResponse::Denied(d)) => res matches AuthOutcome::Deny { status_code, headers, body } && status_code == (
                match d.status {
                    Some(code) => code as u32,
                    None => 403u32,
                }) && pairs_view(headers@) == envoy_headers(d.headers@) && (
                if d.body@.len() == 0 {
                    body is None
                } else {
                    body matches Some(b) && b@ == d.body@
                }),
        },
{
    let store = match &response.dynamic_metadata {
        Some(fields) => {
            proof {
                reveal_strlit("auth");
            }
            let data = process_metadata(fields, "auth");
            if data.len() > 0 {
                Some(data)
            } else {
                None
            }
        },
        None => None,
    };
    match &response.http_response {
        None => AuthOutcome::Failed,
        Some(HttpResponse::Accepted(ok)) => {
            if ok.response_headers_to_add.len() > 0 || ok.headers_to_remove.len() > 0
                || ok.query_parameters_to_set.len() > 0 || ok.query_parameters_to_remove.len() > 0 {
                return AuthOutcome::Failed;
            }
            let append = if ok.headers.len() > 0 {
                Some(from_envoy_headers(ok.headers.as_slice()))
            } else {
                None
            };
            if store.is_none() && append.is_none() {
                AuthOutcome::Done
            } else {
                AuthOutcome::FollowUp { store, append_request_headers: append }
            }
        },
        Some(HttpResponse::Denied(d)) => {
            let status_code = match d.status {
                Some(code) => code as u32,
                None => 403,
            };
            let headers = from_envoy_headers(d.headers.as_slice());
            let body = if d.body.as_str().is_empty() {
                None
            } else {
                Some(owned(d.body.as_str()))
            };
            AuthOutcome::Deny { status_code, headers, body }
        },
    }
}

/// A field value of a reflected protobuf message, as far as the plugin
/// reads it.
#[derive(Debug)]
pub enum ProtoValue {
    I32(i32),
    EnumNumber(i32),
    Str(String),
    List(Vec<ProtoValue>),
    /// A message: its fields by name.
    Message(Vec<(String, ProtoValue)>),
    /// A value of a kind that is not read.
    Other,
}

/// The value of the field `name` of a message, the first of that name.
pub open spec fn field_of(fields: Seq<(String, ProtoValue)>, name: Seq<char>) -> Option<ProtoValue>
    decreases fields.len(),
{
    if fields.len() == 0 {
        None
    } else if fields[0].0@ == name {
        Some(fields[0].1)
    } else {
        field_of(fields.drop_first(), name)
    }
}

fn get_field<'a>(fields: &'a Vec<(String, ProtoValue)>, name: &str) -> (res: Option<&'a ProtoValue>)
    ensures
        match field_of(fields@, name@) {
            Some(v) => res matches Some(r) && *r == v,
            None => res is None,
        },
{
    let n = fields.len();
    assert(fields@.skip(0) =~= fields@);
    for i in 0..n
        invariant
            n == fields@.len(),
            field_of(fields@, name@) == field_of(fields@.skip(i as int), name@),
    {
        assert(fields@.skip(i as int)[0] == fields@[i as int]);
        assert(fields@.skip(i as int).drop_first() =~= fields@.skip(i + 1));
        if crate::text::str_eq(fields[i].0.as_str(), name) {
            return Some(&fields[i].1);
        }
    }
    assert(fields@.skip(n as int).len() == 0);
    None
}

/// The string value of the field `name` of a message.
pub open spec fn string_field(fields: Seq<(String, ProtoValue)>, name: Seq<char>) -> Option<Seq<char>> {
    match field_of(fields, name) {
        Some(ProtoValue::Str(s)) => Some(s@),
        _ => None,
    }
}

/// The headers of a list of header messages: those with a string `key`
/// and a string `value`, in order.
pub open spec fn header_messages(items: Seq<ProtoValue>) -> Seq<(Seq<char>, Seq<char>)>
    decreases items.len(),
{
    if items.len() == 0 {
        Seq::empty()
    } else {
        let init = header_messages(items.drop_last());
        match items.last() {
            ProtoValue::Message(h) => match (string_field(h@, "key"@), string_field(h@, "value"@)) {
                (Some(k), Some(v)) => init.push((k, v)),
                _ => init,
            },
            _ => init,
        }
    }
}

/// Whether an item of `response_headers_to_add` is a header message: a
/// message with a string `key` and a string `value`.
pub open spec fn is_header_message(m: ProtoValue) -> bool {
    match m {
        ProtoValue::Message(h) => string_field(h@, "key"@) is Some && string_field(h@, "value"@) is Some,
        _ => false,
    }
}

/// The header a header message stands for: its key and its value.
pub open spec fn header_of_message(m: ProtoValue) -> (Seq<char>, Seq<char>) {
    match m {
        ProtoValue::Message(h) => (string_field(h@, "key"@)->Some_0, string_field(h@, "value"@)->Some_0),
        _ => (Seq::empty(), Seq::empty()),
    }
}

/// Every header message of the list gives one header, in order, and
/// nothing else does: the headers are the header messages, each read as
/// its key and value. So there are as many headers as header messages.
pub proof fn lemma_header_messages_keep_every_header(items: Seq<ProtoValue>)
    ensures
        header_messages(items) == items.filter(|m: ProtoValue| is_header_message(m)).map_values(
            |m: ProtoValue| header_of_message(m),
        ),
        header_messages(items).len() == items.filter(|m: ProtoValue| is_header_message(m)).len(),
    decreases items.len(),
{
    reveal(Seq::filter);
    let p = |m: ProtoValue| is_header_message(m);
    let f = |m: ProtoValue| header_of_message(m);
    if items.len() == 0 {
        assert(items.filter(p) =~= Seq::<ProtoValue>::empty());
        assert(items.filter(p).map_values(f) =~= Seq::<(Seq<char>, Seq<char>)>::empty());
    } else {
        let init = items.drop_last();
        lemma_header_messages_keep_every_header(init);
        assert(items.filter(p) == if p(items.last()) {
            init.filter(p).push(items.last())
        } else {
            init.filter(p)
        });
        if p(items.last()) {
            assert(init.filter(p).push(items.last()).map_values(f) =~= init.filter(p).map_values(f).push(
                f(items.last()),
            ));
        }
    }
}

/// The headers of two lists one after the other are the headers of the
/// first, then those of the second: adding header messages to a reply adds
/// their headers after the earlier ones, which are kept.
pub proof fn lemma_header_messages_append(a: Seq<ProtoValue>, b: Seq<ProtoValue>)
    ensures
        header_messages(a + b) == header_messages(a) + header_messages(b),
    decreases b.len(),
{
    if b.len() == 0 {
        assert(a + b =~= a);
        assert(header_messages(a) + header_messages(b) =~= header_messages(a));
    } else {
        lemma_header_messages_append(a, b.drop_last());
        assert((a + b).drop_last() =~= a + b.drop_last());
        assert((a + b).last() == b.last());
        let x = header_messages(a);
        let y = header_messages(b.drop_last());
        match b.last() {
            ProtoValue::Message(h) => match (string_field(h@, "key"@), string_field(h@, "value"@)) {
                (Some(k), Some(v)) => {
                    assert((x + y).push((k, v)) =~= x + y.push((k, v)));
                },
                _ => {},
            },
            _ => {},
        }
    }
}

/// The headers that a rate limit reply asks to add to the response.
pub open spec fn reply_headers(fields: Seq<(String, ProtoValue)>) -> Seq<(Seq<char>, Seq<char>)> {
    match field_of(fields, "response_headers_to_add"@) {
        Some(ProtoValue::List(items)) => header_messages(items@),
        _ => Seq::empty(),
    }
}

/// The overall code of a rate limit reply, if it is an integer.
pub open spec fn overall_code(fields: Seq<(String, ProtoValue)>) -> Option<i32> {
    match field_of(fields, "overall_code"@) {
        Some(ProtoValue::I32(c)) => Some(c),
        Some(ProtoValue::EnumNumber(c)) => Some(c),
        _ => None,
    }
}

/// The overall code of a reply under the limit.
pub const CODE_OK: i32 = 1;

/// The overall code of a reply over the limit.
pub const CODE_OVER_LIMIT: i32 = 2;

/// The HTTP status of a request over the limit.
pub const TOO_MANY_REQUESTS: u32 = 429;

/// What to do with the reply of the rate limit service.
#[derive(Debug)]
pub enum RateLimitOutcome {
    /// The reply cannot be acted on.
    Failed,
    /// Nothing more to do.
    Done,
    /// Set these headers on the response.
    SetResponseHeaders(Vec<(String, String)>),
    /// End the request with this reply.
    Deny { status_code: u32, headers: Vec<(String, String)>, body: String },
}

fn string_of(v: Option<&ProtoValue>) -> (res: Option<String>)
    ensures
        match v {
            Some(ProtoValue::Str(s)) => res matches Some(r) && r@ == s@,
            _ => res is None,
        },
{
    match v {
        Some(ProtoValue::Str(s)) => Some(owned(s.as_str())),
        _ => None,
    }
}

fn collect_headers(items: &Vec<ProtoValue>) -> (res: Vec<(String, String)>)
    ensures
        pairs_view(res@) == header_messages(items@),
{
    proof {
        reveal_strlit("key");
        reveal_strlit("value");
    }
    let mut out: Vec<(String, String)> = Vec::new();
    let n = items.len();
    for i in 0..n
        invariant
            n == items@.len(),
            pairs_view(out@) == header_messages(items@.take(i as int)),
    {
        assert(items@.take(i + 1).drop_last() =~= items@.take(i as int));
        if let ProtoValue::Message(h) = &items[i] {
            let key = string_of(get_field(h, "key"));
            let value = string_of(get_field(h, "value"));
            match (key, value) {
                (Some(k), Some(v)) => {
                    let ghost before = pairs_view(out@);
                    let ghost kv = (k@, v@);
                    out.push((k, v));
                    assert(pairs_view(out@) =~= before.push(kv));
                },
                _ => {},
            }
        }
    }
    assert(items@.take(n as int) =~= items@);
    out
}

/// What the plugin does with the reply of the rate limit service: under
/// the limit, set the reply's headers on the response (or nothing when it
/// has none); over the limit, reply 429 with those headers and a short
/// body; with another code, or no integer code, nothing it can act on.
pub fn process_rl_response(response: &Vec<(String, ProtoValue)>) -> (res: RateLimitOutcome)
    ensures
        match overall_code(response@) {
            None => res is Failed,
            Some(c) => if c == CODE_OK {
                if reply_headers(response@).len() == 0 {
                    res is Done
                } else {
                    res matches RateLimitOutcome::SetResponseHeaders(h) && pairs_view(h@) == reply_headers(response@)
                }
            } else if c == CODE_OVER_LIMIT {
                res matches RateLimitOutcome::Deny { status_code, headers, body } && status_code == TOO_MANY_REQUESTS
                    && pairs_view(headers@) == reply_headers(response@) && body@ == "Too Many Requests\n"@
            } else {
                res is Failed
            },
        },
{
    proof {
        reveal_strlit("overall_code");
        reveal_strlit("response_headers_to_add");
    }
    let code = match get_field(response, "overall_code") {
        Some(ProtoValue::I32(c)) => *c,
        Some(ProtoValue::EnumNumber(c)) => *c,
        _ => return RateLimitOutcome::Failed,
    };
    let headers = match get_field(response, "response_headers_to_add") {
        Some(ProtoValue::List(items)) => collect_headers(items),
        _ => Vec::new(),
    };
    if code == CODE_OK {
        if headers.len() > 0 {
            RateLimitOutcome::SetResponseHeaders(headers)
        } else {
            RateLimitOutcome::Done
        }
    } else if code == CODE_OVER_LIMIT {
        RateLimitOutcome::Deny { status_code: TOO_MANY_REQUESTS, headers, body: owned("Too Many Requests\n") }
    } else {
        RateLimitOutcome::Failed
    }
}

} // verus!
