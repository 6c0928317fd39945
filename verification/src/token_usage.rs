//! Reading token usage out of a model server's response: how the body is
//! read (a stream of server-sent events or one JSON document), and where
//! the count of used tokens sits in the JSON.
use crate::attribute::string_from_utf8;
use crate::body_parser::{parse_i64, parsed_i64};
use crate::text::{contains_seq, contains_str, str_eq, views};
use vstd::prelude::*;
use vstd::utf8::{decode_utf8, valid_utf8};

verus! {

/// How a response body is read.
#[derive(Debug, Clone, Copy, PartialEq, Eq, Structural)]
pub enum StrategyKind {
    /// Server-sent events; the usage is in the event before the last.
    Sse,
    /// One JSON document.
    Json,
}

/// The value of the first header named `name`, if any.
pub open spec fn header_named(headers: Seq<(String, String)>, name: Seq<char>) -> Option<Seq<char>>
    decreases headers.len(),
{
    if headers.len() == 0 {
        None
    } else if headers[0].0@ == name {
        Some(headers[0].1@)
    } else {
        header_named(headers.drop_first(), name)
    }
}

/// How to read the body of a response with `headers`: as events when its
/// content type mentions `text/event-stream`, as JSON otherwise.
pub open spec fn strategy_for(headers: Seq<(String, String)>) -> StrategyKind {
    match header_named(headers, "content-type"@) {
        Some(ct) => if contains_seq(ct, "text/event-stream"@) { StrategyKind::Sse } else { StrategyKind::Json },
        None => StrategyKind::Json,
    }
}

/// Picks how to read the body of a response with `headers`.
pub fn select_strategy(headers: &Vec<(String, String)>) -> (res: StrategyKind)
    ensures
        res == strategy_for(headers@),
{
    let n = headers.len();
    assert(headers@.skip(0) =~= headers@);
    for i in 0..n
        invariant
            n == headers@.len(),
            header_named(headers@, "content-type"@) == header_named(headers@.skip(i as int), "content-type"@),
    {
        assert(headers@.skip(i as int)[0] == headers@[i as int]);
        assert(headers@.skip(i as int).drop_first() =~= headers@.skip(i + 1));
        if str_eq(headers[i].0.as_str(), "content-type") {
            if contains_str(headers[i].1.as_str(), "text/event-stream") {
                return StrategyKind::Sse;
            } else {
                return StrategyKind::Json;
            }
        }
    }
    assert(headers@.skip(n as int).len() == 0);
    StrategyKind::Json
}

/// Keeps the last two events of a stream.
pub struct SseStrategy<E> {
    last: Option<E>,
    second_to_last: Option<E>,
}

impl<E> SseStrategy<E> {
    /// The last event seen, if any.
    pub closed spec fn last_event(&self) -> Option<E> {
        self.last
    }

    /// The event before the last, if any.
    pub closed spec fn previous_event(&self) -> Option<E> {
        self.second_to_last
    }

    /// No event seen yet.
    pub fn new() -> (res: Self)
        ensures
            res.last_event() is None,
            res.previous_event() is None,
    {
        SseStrategy { last: None, second_to_last: None }
    }

    /// Records one more event: it becomes the last, and the last becomes
    /// the one before.
    pub fn push_event(&mut self, event: E)
        ensures
            final(self).last_event() == Some(event),
            final(self).previous_event() == old(self).last_event(),
    {
        let mut previous = None;
        std::mem::swap(&mut previous, &mut self.last);
        self.second_to_last = previous;
        self.last = Some(event);
    }

    /// The event before the last, where the usage is reported.
    pub fn usage_event(&self) -> (res: Option<&E>)
        ensures
            match self.previous_event() {
                Some(e) => res matches Some(r) && *r == e,
                None => res is None,
            },
    {
        match &self.second_to_last {
            Some(e) => Some(e),
            None => None,
        }
    }
}

/// Collects a JSON body chunk by chunk.
pub struct JsonStrategy {
    buffer: Vec<u8>,
}

impl JsonStrategy {
    /// The bytes collected so far.
    pub closed spec fn bytes(&self) -> Seq<u8> {
        self.buffer@
    }

    /// Nothing collected yet.
    pub fn new() -> (res: Self)
        ensures
            res.bytes() == Seq::<u8>::empty(),
    {
        JsonStrategy { buffer: Vec::new() }
    }

    /// Appends a chunk of the body.
    pub fn feed_buffer(&mut self, bytes: Vec<u8>)
        ensures
            final(self).bytes() == old(self).bytes() + bytes@,
    {
        let mut bytes = bytes;
        let mut buffer = Vec::new();
        std::mem::swap(&mut buffer, &mut self.buffer);
        buffer.append(&mut bytes);
        self.buffer = buffer;
    }

    /// The body collected.
    pub fn buffer(&self) -> (res: &Vec<u8>)
        ensures
            res@ == self.bytes(),
    {
        &self.buffer
    }
}

/// A JSON number: a non-negative or negative integer, or a float.
#[derive(Debug, Clone, Copy, PartialEq, Eq, Structural)]
pub enum JsonNumber {
    PosInt(u64),
    NegInt(i64),
    Float,
}

/// A JSON value; an object keeps its members in order, names distinct.
#[derive(Debug)]
pub enum JsonValue {
    Null,
    Bool(bool),
    Number(JsonNumber),
    Str(String),
    Array(Vec<JsonValue>),
    Object(Vec<(String, JsonValue)>),
}

/// The number as an `i64`, where it is an integer that fits.
pub open spec fn number_as_i64(n: JsonNumber) -> Option<i64> {
    match n {
        JsonNumber::PosInt(u) => if u <= i64::MAX { Some(u as i64) } else { None },
        JsonNumber::NegInt(i) => Some(i),
        JsonNumber::Float => None,
    }
}

/// The member `key` of an object, the first of that name; nothing for
/// other values.
pub open spec fn json_get(v: JsonValue, key: Seq<char>) -> Option<JsonValue> {
    match v {
        JsonValue::Object(members) => member_of(members@, key),
        _ => None,
    }
}

/// The value of the first member named `key`.
pub open spec fn member_of(members: Seq<(String, JsonValue)>, key: Seq<char>) -> Option<JsonValue>
    decreases members.len(),
{
    if members.len() == 0 {
        None
    } else if members[0].0@ == key {
        Some(members[0].1)
    } else {
        member_of(members.drop_first(), key)
    }
}

/// The value reached from `v` by following the member names of `path`.
pub open spec fn json_walk(v: JsonValue, path: Seq<Seq<char>>) -> Option<JsonValue>
    decreases path.len(),
{
    if path.len() == 0 {
        Some(v)
    } else {
        match json_get(v, path[0]) {
            Some(c) => json_walk(c, path.drop_first()),
            None => None,
        }
    }
}

/// A count read from a JSON value: an integer number that fits in an
/// `i64`, or a string that reads as one.
pub open spec fn json_count(v: JsonValue) -> Option<i64> {
    match v {
        JsonValue::Number(n) => number_as_i64(n),
        JsonValue::Str(s) => parsed_i64(s@),
        _ => None,
    }
}

fn get_member<'a>(v: &'a JsonValue, key: &str) -> (res: Option<&'a JsonValue>)
    ensures
        match json_get(*v, key@) {
            Some(c) => res matches Some(r) && *r == c,
            None => res is None,
        },
{
    match v {
        JsonValue::Object(members) => {
            let n = members.len();
            assert(members@.skip(0) =~= members@);
            for i in 0..n
                invariant
                    n == members@.len(),
                    *v == JsonValue::Object(*members),
                    member_of(members@, key@) == member_of(members@.skip(i as int), key@),
            {
                assert(members@.skip(i as int)[0] == members@[i as int]);
                assert(members@.skip(i as int).drop_first() =~= members@.skip(i + 1));
                if str_eq(members[i].0.as_str(), key) {
                    return Some(&members[i].1);
                }
            }
            assert(members@.skip(n as int).len() == 0);
            None
        },
        _ => None,
    }
}

/// The count at the end of `path` in `json`: the value reached by
/// following the member names, read as an integer.
pub fn extract_json_path(json: &JsonValue, path: &[&str]) -> (res: Option<i64>)
    ensures
        res == match json_walk(*json, path@.map_values(|p: &str| p@)) {
            Some(v) => json_count(v),
            None => None,
        },
{
    let ghost names = path@.map_values(|p: &str| p@);
    let mut current: &JsonValue = json;
    let n = path.len();
    assert(names.skip(0) =~= names);
    for i in 0..n
        invariant
            n == path@.len(),
            names == path@.map_values(|p: &str| p@),
            json_walk(*json, names) == json_walk(*current, names.skip(i as int)),
    {
        assert(names.skip(i as int)[0] == path@[i as int]@);
        assert(names.skip(i as int).drop_first() =~= names.skip(i + 1));
        match get_member(current, path[i]) {
            Some(c) => {
                current = c;
            },
            None => {
                return None;
            },
        }
    }
    assert(names.skip(n as int).len() == 0);
    match current {
        JsonValue::Number(JsonNumber::PosInt(u)) => {
            if *u <= 0x7fff_ffff_ffff_ffff {
                Some(*u as i64)
            } else {
                None
            }
        },
        JsonValue::Number(JsonNumber::NegInt(i)) => Some(*i),
        JsonValue::Str(s) => parse_i64(s.as_str()),
        _ => None,
    }
}

/// The total of tokens used that a response body reports, at
/// `usage.total_tokens`.
pub fn token_count(json: &JsonValue) -> (res: Option<i64>)
    ensures
        res == match json_walk(*json, seq!["usage"@, "total_tokens"@]) {
            Some(v) => json_count(v),
            None => None,
        },
{
    let path: [&str; 2] = ["usage", "total_tokens"];
    let r = extract_json_path(json, &path);
    assert(path@.map_values(|p: &str| p@) =~= seq!["usage"@, "total_tokens"@]);
    r
}

/// `serde_json::Value`, a parsed JSON document.
#[verifier::external_type_specification]
#[verifier::external_body]
pub struct ExJsonValue(serde_json::Value);

/// What `serde_json::from_str::<serde_json::Value>` makes of `text`, in
/// the library's terms: the document, or nothing when `text` is not one
/// JSON document. It depends on the text alone.
pub uninterp spec fn json_parsed(text: Seq<char>) -> Option<JsonValue>;

/// The library's JSON value for one of `serde_json`, variant by variant;
/// a number is kept as an integer where it is one.
#[verifier::external_body]
fn json_value_from(v: &serde_json::Value) -> JsonValue {
    match v {
        serde_json::Value::Null => JsonValue::Null,
        serde_json::Value::Bool(b) => JsonValue::Bool(*b),
        serde_json::Value::Number(n) => JsonValue::Number(match (n.as_u64(), n.as_i64()) {
            (Some(u), _) => JsonNumber::PosInt(u),
            (None, Some(i)) => JsonNumber::NegInt(i),
            _ => JsonNumber::Float,
        }),
        serde_json::Value::String(s) => JsonValue::Str(s.clone()),
        serde_json::Value::Array(a) => JsonValue::Array(a.iter().map(json_value_from).collect()),
        serde_json::Value::Object(m) => JsonValue::Object(m.iter().map(|(k, x)| (k.clone(), json_value_from(x))).collect()),
    }
}

/// `serde_json::from_str::<serde_json::Value>`: the document `text` holds,
/// as the library's JSON value, or nothing when it holds none.
#[verifier::external_body]
fn parse_json_text(text: &str) -> (res: Option<JsonValue>)
    ensures
        res == json_parsed(text@),
{
    match serde_json::from_str::<serde_json::Value>(text) {
        Ok(v) => Some(json_value_from(&v)),
        Err(_) => None,
    }
}

/// The JSON document a body holds: its text parsed as JSON, where it is
/// UTF-8.
pub open spec fn body_json(body: Seq<u8>) -> Option<JsonValue> {
    if valid_utf8(body) {
        json_parsed(decode_utf8(body))
    } else {
        None
    }
}

/// Parses a body as JSON: nothing when it is not UTF-8 text or not one
/// JSON document.
pub fn parse_json(body: &[u8]) -> (res: Option<JsonValue>)
    ensures
        res == body_json(body@),
{
    let raw = vstd::slice::slice_to_vec(body);
    match string_from_utf8(raw) {
        Ok(text) => parse_json_text(text.as_str()),
        Err(_) => None,
    }
}

/// The total of tokens used that a response body reports: the body read
/// as JSON, the count at `usage.total_tokens`.
pub fn token_count_of_body(body: &[u8]) -> (res: Option<i64>)
    ensures
        res == match body_json(body@) {
            Some(j) => match json_walk(j, seq!["usage"@, "total_tokens"@]) {
                Some(v) => json_count(v),
                None => None,
            },
            None => None,
        },
{
    match parse_json(body) {
        Some(j) => token_count(&j),
        None => None,
    }
}

/// Whether two JSON values are the same value: the same variant with the
/// same contents, element by element and member by member.
pub open spec fn same_json(a: JsonValue, b: JsonValue) -> bool
    decreases a,
{
    match a {
        JsonValue::Null => b is Null,
        JsonValue::Bool(x) => b matches JsonValue::Bool(y) && x == y,
        JsonValue::Number(x) => b matches JsonValue::Number(y) && x == y,
        JsonValue::Str(x) => b matches JsonValue::Str(y) && x@ == y@,
        JsonValue::Array(xs) => b matches JsonValue::Array(ys) && xs@.len() == ys@.len()
            && forall|i: int| 0 <= i < xs@.len() ==> same_json(#[trigger] xs@[i], ys@[i]),
        JsonValue::Object(xs) => b matches JsonValue::Object(ys) && xs@.len() == ys@.len()
            && forall|i: int| 0 <= i < xs@.len() ==> (#[trigger] xs@[i]).0@ == ys@[i].0@ && same_json(xs@[i].1, ys@[i].1),
    }
}

/// Whether an optional value is the same as another.
pub open spec fn same_json_opt(a: Option<JsonValue>, b: Option<JsonValue>) -> bool {
    match a {
        Some(x) => b matches Some(y) && same_json(x, y),
        None => b is None,
    }
}

proof fn lemma_array_decreases(v: JsonValue, xs: Vec<JsonValue>, i: int)
    requires
        v == JsonValue::Array(xs),
        0 <= i < xs@.len(),
    ensures
        decreases_to!(v => xs@[i]),
{
    match v {
        JsonValue::Array(ys) => {
            assert(decreases_to!(v => ys@[i]));
        },
        _ => {},
    }
}

proof fn lemma_object_decreases(v: JsonValue, xs: Vec<(String, JsonValue)>, i: int)
    requires
        v == JsonValue::Object(xs),
        0 <= i < xs@.len(),
    ensures
        decreases_to!(v => xs@[i].1),
{
    match v {
        JsonValue::Object(ys) => {
            assert(decreases_to!(v => ys@[i].1));
        },
        _ => {},
    }
}

impl JsonValue {
    /// A deep copy of the value.
    pub fn duplicate(&self) -> (res: JsonValue)
        ensures
            same_json(*self, res),
        decreases self,
    {
        match self {
            JsonValue::Null => JsonValue::Null,
            JsonValue::Bool(x) => JsonValue::Bool(*x),
            JsonValue::Number(x) => JsonValue::Number(*x),
            JsonValue::Str(x) => JsonValue::Str(crate::text::owned(x.as_str())),
            JsonValue::Array(xs) => {
                let mut out: Vec<JsonValue> = Vec::new();
                let n = xs.len();
                for i in 0..n
                    invariant
                        n == xs@.len(),
                        *self == JsonValue::Array(*xs),
                        out@.len() == i,
                        forall|j: int| 0 <= j < i ==> same_json(#[trigger] xs@[j], out@[j]),
                {
                    proof {
                        lemma_array_decreases(*self, *xs, i as int);
                    }
                    out.push(xs[i].duplicate());
                }
                JsonValue::Array(out)
            },
            JsonValue::Object(xs) => {
                let mut out: Vec<(String, JsonValue)> = Vec::new();
                let n = xs.len();
                for i in 0..n
                    invariant
                        n == xs@.len(),
                        *self == JsonValue::Object(*xs),
                        out@.len() == i,
                        forall|j: int| #![trigger out@[j]] 0 <= j < i ==> xs@[j].0@ == out@[j].0@ && same_json(
                            xs@[j].1,
                            out@[j].1,
                        ),
                {
                    proof {
                        lemma_object_decreases(*self, *xs, i as int);
                    }
                    let k = crate::text::owned(xs[i].0.as_str());
                    let v = xs[i].1.duplicate();
                    out.push((k, v));
                }
                JsonValue::Object(out)
            },
        }
    }
}

/// The value reached from `json` by following the member names `path`.
pub fn walk_path<'a>(json: &'a JsonValue, path: &Vec<String>) -> (res: Option<&'a JsonValue>)
    ensures
        match json_walk(*json, views(path@)) {
            Some(v) => res matches Some(r) && *r == v,
            None => res is None,
        },
{
    let ghost names = views(path@);
    let mut current: &JsonValue = json;
    let n = path.len();
    assert(names.skip(0) =~= names);
    for i in 0..n
        invariant
            n == path@.len(),
            names == views(path@),
            json_walk(*json, names) == json_walk(*current, names.skip(i as int)),
    {
        assert(names.skip(i as int)[0] == path@[i as int]@);
        assert(names.skip(i as int).drop_first() =~= names.skip(i + 1));
        match get_member(current, path[i].as_str()) {
            Some(c) => {
                current = c;
            },
            None => {
                return None;
            },
        }
    }
    assert(names.skip(n as int).len() == 0);
    Some(current)
}

/// What extracting properties from a body gives: the value at each
/// expected path (nothing where there is none), whether none was found,
/// and whether none was expected.
#[derive(Debug)]
pub struct Extracted {
    pub values: Vec<Option<JsonValue>>,
    pub found_none: bool,
    pub expected_none: bool,
}

/// Reads the values at `paths` (each a list of member names) out of a
/// body: the body is read as JSON, and each path followed in it; where the
/// body is no JSON document, nothing is found.
pub fn extract_properties(buffer: &[u8], paths: &Vec<Vec<String>>) -> (res: Extracted)
    ensures
        res.values@.len() == paths@.len(),
        forall|i: int|
            0 <= i < paths@.len() ==> same_json_opt(
                match body_json(buffer@) {
                    Some(j) => json_walk(j, views(paths@[i]@)),
                    None => None,
                },
                #[trigger] res.values@[i],
            ),
        res.found_none == forall|i: int| 0 <= i < res.values@.len() ==> (#[trigger] res.values@[i]) is None,
        res.expected_none == (paths@.len() == 0),
{
    let parsed = parse_json(buffer);
    let n = paths.len();
    let mut values: Vec<Option<JsonValue>> = Vec::new();
    let mut found_none = true;
    for i in 0..n
        invariant
            n == paths@.len(),
            parsed == body_json(buffer@),
            values@.len() == i,
            forall|k: int|
                0 <= k < i ==> same_json_opt(
                    match body_json(buffer@) {
                        Some(j) => json_walk(j, views(paths@[k]@)),
                        None => None,
                    },
                    #[trigger] values@[k],
                ),
            found_none == forall|k: int| 0 <= k < i ==> (#[trigger] values@[k]) is None,
    {
        let v = match &parsed {
            Some(j) => match walk_path(j, &paths[i]) {
                Some(r) => Some(r.duplicate()),
                None => None,
            },
            None => None,
        };
        if v.is_some() {
            found_none = false;
        }
        let ghost before = values@;
        let ghost gv = v;
        values.push(v);
        proof {
            assert(values@ == before.push(gv));
            assert(values@[i as int] == gv);
            assert forall|k: int| 0 <= k < i implies values@[k] == before[k] by {}
        }
    }
    Extracted { values, found_none, expected_none: n == 0 }
}

} // verus!
