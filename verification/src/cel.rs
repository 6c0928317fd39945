//! The values that CEL expressions compute, as far as the library's own
//! extension functions read and build them.
use crate::cel::strings::{split_all, split_of};
use crate::property_path::{tokenize, Path};
use crate::text::{owned, views};
use vstd::prelude::*;

pub mod strings;

verus! {

/// A key of a CEL map.
#[derive(Debug)]
pub enum CelKey {
    Int(i64),
    UInt(u64),
    Bool(bool),
    Str(String),
}

/// A CEL value, as the library reads and builds them. A float is held as
/// its decimal text; values of the kinds that nothing here reads
/// (timestamps, durations, bytes) are `Other`.
#[derive(Debug)]
pub enum CelValue {
    Null,
    Bool(bool),
    Int(i64),
    UInt(u64),
    /// A floating-point number, by its text.
    Float(String),
    Str(String),
    List(Vec<CelValue>),
    /// A map: its entries in the order they are walked.
    Entries(Vec<(CelKey, CelValue)>),
    Other,
}

/// Whether two map keys are the same key.
pub open spec fn same_key(a: CelKey, b: CelKey) -> bool {
    match (a, b) {
        (CelKey::Int(x), CelKey::Int(y)) => x == y,
        (CelKey::UInt(x), CelKey::UInt(y)) => x == y,
        (CelKey::Bool(x), CelKey::Bool(y)) => x == y,
        (CelKey::Str(x), CelKey::Str(y)) => x@ == y@,
        _ => false,
    }
}

/// Whether two values are the same value: the same variant, with the same
/// contents, element by element.
pub open spec fn same_value(a: CelValue, b: CelValue) -> bool
    decreases a,
{
    match a {
        CelValue::Null => b is Null,
        CelValue::Bool(x) => b matches CelValue::Bool(y) && x == y,
        CelValue::Int(x) => b matches CelValue::Int(y) && x == y,
        CelValue::UInt(x) => b matches CelValue::UInt(y) && x == y,
        CelValue::Float(x) => b matches CelValue::Float(y) && x@ == y@,
        CelValue::Str(x) => b matches CelValue::Str(y) && x@ == y@,
        CelValue::List(xs) => b matches CelValue::List(ys) && xs@.len() == ys@.len()
            && forall|i: int| 0 <= i < xs@.len() ==> same_value(#[trigger] xs@[i], ys@[i]),
        CelValue::Entries(xs) => b matches CelValue::Entries(ys) && xs@.len() == ys@.len()
            && forall|i: int| 0 <= i < xs@.len() ==> same_key(#[trigger] xs@[i].0, ys@[i].0)
                && same_value(xs@[i].1, ys@[i].1),
        CelValue::Other => b is Other,
    }
}

proof fn lemma_list_decreases(v: CelValue, xs: Vec<CelValue>, i: int)
    requires
        v == CelValue::List(xs),
        0 <= i < xs@.len(),
    ensures
        decreases_to!(v => xs@[i]),
{
    match v {
        CelValue::List(ys) => {
            assert(decreases_to!(v => ys@[i]));
        },
        _ => {},
    }
}

proof fn lemma_entries_decreases(v: CelValue, xs: Vec<(CelKey, CelValue)>, i: int)
    requires
        v == CelValue::Entries(xs),
        0 <= i < xs@.len(),
    ensures
        decreases_to!(v => xs@[i].1),
{
    match v {
        CelValue::Entries(ys) => {
            assert(decreases_to!(v => ys@[i].1));
        },
        _ => {},
    }
}

impl CelKey {
    /// A copy of the key.
    pub fn duplicate(&self) -> (res: CelKey)
        ensures
            same_key(res, *self),
    {
        match self {
            CelKey::Int(x) => CelKey::Int(*x),
            CelKey::UInt(x) => CelKey::UInt(*x),
            CelKey::Bool(x) => CelKey::Bool(*x),
            CelKey::Str(x) => CelKey::Str(owned(x.as_str())),
        }
    }
}

impl CelValue {
    /// A deep copy of the value.
    pub fn duplicate(&self) -> (res: CelValue)
        ensures
            same_value(*self, res),
        decreases self,
    {
        match self {
            CelValue::Null => CelValue::Null,
            CelValue::Bool(x) => CelValue::Bool(*x),
            CelValue::Int(x) => CelValue::Int(*x),
            CelValue::UInt(x) => CelValue::UInt(*x),
            CelValue::Float(x) => CelValue::Float(owned(x.as_str())),
            CelValue::Str(x) => CelValue::Str(owned(x.as_str())),
            CelValue::List(xs) => {
                let mut out: Vec<CelValue> = Vec::new();
                let n = xs.len();
                for i in 0..n
                    invariant
                        n == xs@.len(),
                        *self == CelValue::List(*xs),
                        out@.len() == i,
                        forall|j: int| 0 <= j < i ==> same_value(#[trigger] xs@[j], out@[j]),
                {
                    proof {
                        lemma_list_decreases(*self, *xs, i as int);
                    }
                    out.push(xs[i].duplicate());
                }
                CelValue::List(out)
            },
            CelValue::Entries(xs) => {
                let mut out: Vec<(CelKey, CelValue)> = Vec::new();
                let n = xs.len();
                for i in 0..n
                    invariant
                        n == xs@.len(),
                        *self == CelValue::Entries(*xs),
                        out@.len() == i,
                        forall|j: int| #![trigger out@[j]] 0 <= j < i ==> same_key(xs@[j].0, out@[j].0)
                            && same_value(xs@[j].1, out@[j].1),
                {
                    proof {
                        lemma_entries_decreases(*self, *xs, i as int);
                    }
                    let k = xs[i].0.duplicate();
                    let v = xs[i].1.duplicate();
                    out.push((k, v));
                }
                CelValue::Entries(out)
            },
            CelValue::Other => CelValue::Other,
        }
    }
}

/// Why an extension function refused its arguments.
#[derive(Debug, Clone, Copy, PartialEq, Eq)]
pub enum FunctionErrorKind {
    /// The index is past the end of the string.
    NoSuchIndex,
    /// The argument at this position has the wrong type.
    WrongArgumentType(usize),
    /// The function was given a number of arguments it does not take.
    WrongArgumentCount,
    /// A range whose end lies before its start.
    EndBeforeStart,
    /// A list that should hold strings only holds something else.
    NotAllStrings,
}

/// An error of a CEL extension function: which function, and why.
#[derive(Debug, Clone)]
pub struct FunctionError {
    pub function: String,
    pub kind: FunctionErrorKind,
}

/// What `urlencoding::decode` makes of a string: the percent-decoded text,
/// or nothing when the decoded bytes are not UTF-8.
pub uninterp spec fn url_decoded(s: Seq<char>) -> Option<Seq<char>>;

/// `urlencoding::decode`, made owned. Trusted: the result is the named
/// decoding of `s`; a string without `%` comes back as it is.
#[verifier::external_body]
fn url_decode(s: &str) -> (res: Option<String>)
    ensures
        match res {
            Some(d) => url_decoded(s@) == Some(d@),
            None => url_decoded(s@) is None,
        },
        res is None ==> s@.contains('%'),
        res is Some && !s@.contains('%') ==> res->0@ == s@,
{
    match urlencoding::decode(s) {
        Ok(d) => Some(d.into_owned()),
        Err(_) => None,
    }
}

/// A query parameter's text, decoded where it decodes and kept as it is
/// where it does not.
pub open spec fn decoded_or_raw(s: Seq<char>) -> Seq<char> {
    match url_decoded(s) {
        Some(d) => d,
        None => s,
    }
}

fn decode_or_keep(s: &str) -> (res: String)
    ensures
        res@ == decoded_or_raw(s@),
{
    match url_decode(s) {
        Some(d) => d,
        None => owned(s),
    }
}

/// The decoded name of a `name=value` part of a query string.
pub open spec fn query_key(part: Seq<char>) -> Seq<char> {
    decoded_or_raw(split_of(part, seq!['='], None)[0])
}

/// The decoded value of a `name=value` part of a query string: the text
/// between the first `=` and the next, empty without a `=`.
pub open spec fn query_value(part: Seq<char>) -> Seq<char> {
    let pieces = split_of(part, seq!['='], None);
    decoded_or_raw(if pieces.len() >= 2 { pieces[1] } else { Seq::empty() })
}

/// The values of each name of the query string parts, in order: only the
/// first when repeats are not allowed.
pub open spec fn query_map(parts: Seq<Seq<char>>, allow_repeats: bool) -> Map<Seq<char>, Seq<Seq<char>>>
    decreases parts.len(),
{
    if parts.len() == 0 {
        Map::empty()
    } else {
        let m = query_map(parts.drop_last(), allow_repeats);
        let k = query_key(parts.last());
        let v = query_value(parts.last());
        if m.contains_key(k) {
            if allow_repeats {
                m.insert(k, m[k].push(v))
            } else {
                m
            }
        } else {
            m.insert(k, seq![v])
        }
    }
}

/// The value of a query parameter: one string, or the list of the strings
/// given for a repeated name.
#[derive(Debug)]
pub enum QueryValue {
    One(String),
    Many(Vec<String>),
}

/// The strings of a query value.
pub open spec fn query_value_strings(v: QueryValue) -> Seq<Seq<char>> {
    match v {
        QueryValue::One(s) => seq![s@],
        QueryValue::Many(l) => views(l@),
    }
}

/// Whether a query value is a list of at least two strings or one string.
pub open spec fn well_shaped(v: QueryValue) -> bool {
    v matches QueryValue::Many(l) ==> l@.len() >= 2
}

/// The map that a list of named query values stands for.
pub open spec fn entries_map(v: Seq<(String, QueryValue)>) -> Map<Seq<char>, Seq<Seq<char>>>
    decreases v.len(),
{
    if v.len() == 0 {
        Map::empty()
    } else {
        entries_map(v.drop_last()).insert(v.last().0@, query_value_strings(v.last().1))
    }
}

/// Whether the names of a list of named query values are distinct and its
/// values well shaped.
pub open spec fn entries_ok(v: Seq<(String, QueryValue)>) -> bool {
    &&& forall|i: int, j: int| 0 <= i < j < v.len() ==> #[trigger] v[i].0@ != #[trigger] v[j].0@
    &&& forall|i: int| 0 <= i < v.len() ==> well_shaped(#[trigger] v[i].1)
}

proof fn lemma_entries_ok_drop_last(v: Seq<(String, QueryValue)>)
    requires
        entries_ok(v),
        v.len() > 0,
    ensures
        entries_ok(v.drop_last()),
{
    let w = v.drop_last();
    assert forall|i: int, j: int| 0 <= i < j < w.len() implies #[trigger] w[i].0@ != #[trigger] w[j].0@ by {
        assert(w[i] == v[i] && w[j] == v[j]);
    }
    assert forall|i: int| 0 <= i < w.len() implies well_shaped(#[trigger] w[i].1) by {
        assert(w[i] == v[i]);
    }
}

proof fn lemma_entries_map_lookup(v: Seq<(String, QueryValue)>, j: int)
    requires
        entries_ok(v),
        0 <= j < v.len(),
    ensures
        entries_map(v).contains_key(v[j].0@),
        entries_map(v)[v[j].0@] == query_value_strings(v[j].1),
    decreases v.len(),
{
    if j < v.len() - 1 {
        assert(v.drop_last()[j] == v[j]);
        lemma_entries_ok_drop_last(v);
        lemma_entries_map_lookup(v.drop_last(), j);
        assert(v[j].0@ != v.last().0@);
    }
}

proof fn lemma_entries_map_absent(v: Seq<(String, QueryValue)>, k: Seq<char>)
    requires
        forall|j: int| 0 <= j < v.len() ==> #[trigger] v[j].0@ != k,
    ensures
        !entries_map(v).contains_key(k),
    decreases v.len(),
{
    if v.len() > 0 {
        assert forall|j: int| 0 <= j < v.drop_last().len() implies #[trigger] v.drop_last()[j].0@ != k by {
            assert(v.drop_last()[j] == v[j]);
        }
        lemma_entries_map_absent(v.drop_last(), k);
    }
}

proof fn lemma_entries_map_update(v: Seq<(String, QueryValue)>, j: int, e: (String, QueryValue))
    requires
        entries_ok(v),
        0 <= j < v.len(),
        e.0@ == v[j].0@,
    ensures
        entries_map(v.update(j, e)) == entries_map(v).insert(e.0@, query_value_strings(e.1)),
    decreases v.len(),
{
    let w = v.update(j, e);
    if j == v.len() - 1 {
        assert(w.drop_last() =~= v.drop_last());
        assert(entries_map(w) =~= entries_map(v).insert(e.0@, query_value_strings(e.1)));
    } else {
        assert(w.drop_last() =~= v.drop_last().update(j, e));
        assert(v.drop_last()[j] == v[j]);
        lemma_entries_ok_drop_last(v);
        lemma_entries_map_update(v.drop_last(), j, e);
        assert(v[j].0@ != v.last().0@);
        assert(entries_map(w) =~= entries_map(v).insert(e.0@, query_value_strings(e.1)));
    }
}

/// Finds the entry named `key`.
fn find_entry(v: &Vec<(String, QueryValue)>, key: &String) -> (res: Option<usize>)
    ensures
        match res {
            Some(j) => j < v@.len() && v@[j as int].0@ == key@,
            None => forall|j: int| 0 <= j < v@.len() ==> #[trigger] v@[j].0@ != key@,
        },
{
    let n = v.len();
    for j in 0..n
        invariant
            n == v@.len(),
            forall|i: int| 0 <= i < j ==> #[trigger] v@[i].0@ != key@,
    {
        if v[j].0 == *key {
            return Some(j);
        }
    }
    None
}

/// Copies the strings of a query value.
fn strings_of(v: &QueryValue) -> (res: Vec<String>)
    ensures
        views(res@) == query_value_strings(*v),
{
    match v {
        QueryValue::One(s) => {
            let mut out = Vec::new();
            out.push(owned(s.as_str()));
            assert(views(out@) =~= seq![s@]);
            out
        },
        QueryValue::Many(l) => {
            let mut out: Vec<String> = Vec::new();
            let n = l.len();
            for i in 0..n
                invariant
                    n == l@.len(),
                    views(out@) == views(l@).take(i as int),
            {
                let ghost before = out@;
                out.push(owned(l[i].as_str()));
                assert(views(out@) =~= views(before).push(l@[i as int]@));
                assert(views(l@).take(i + 1) =~= views(l@).take(i as int).push(l@[i as int]@));
            }
            assert(views(l@).take(n as int) =~= views(l@));
            out
        },
    }
}

/// Whether the arguments of `queryMap` ask for all values of a repeated
/// name: a second argument that is the boolean `true`.
pub open spec fn repeats_allowed(args: Seq<CelValue>) -> bool {
    args.len() == 2 && (args[1] matches CelValue::Bool(b) && b)
}

/// `queryMap(query)` or `queryMap(query, repeats)`: the parameters of a
/// query string, split at `&` into `name=value` parts, names and values
/// percent-decoded (kept as they are where that fails). A repeated name
/// keeps its first value, or, when `args[1]` is the boolean `true`, all
/// its values in order as a list. `args` are all the arguments, the query
/// string among them.
pub fn decode_query_string(s: &str, args: &[CelValue]) -> (res: Vec<(String, QueryValue)>)
    ensures
        entries_ok(res@),
        entries_map(res@) == query_map(split_of(s@, seq!['&'], None), repeats_allowed(args@)),
{
    let allow_repeats = if args.len() == 2 {
        match &args[1] {
            CelValue::Bool(b) => *b,
            _ => false,
        }
    } else {
        false
    };
    proof {
        reveal_strlit("&");
        reveal_strlit("=");
    }
    let parts = split_all(s, "&");
    let ghost ps = views(parts@);
    assert("&"@ =~= seq!['&']);
    assert(ps == split_of(s@, seq!['&'], None));
    let mut entries: Vec<(String, QueryValue)> = Vec::new();
    let n = parts.len();
    for i in 0..n
        invariant
            n == parts@.len(),
            ps == views(parts@),
            ps == split_of(s@, seq!['&'], None),
            entries_ok(entries@),
            entries_map(entries@) == query_map(ps.take(i as int), allow_repeats),
    {
        let part = parts[i].as_str();
        proof {
            reveal_strlit("=");
            assert("="@ =~= seq!['=']);
        }
        let kv = split_all(part, "=");
        proof {
            crate::cel::strings::lemma_split_pieces_nonempty(part@, seq!['='], Seq::empty());
        }
        let key = decode_or_keep(kv[0].as_str());
        let value = if kv.len() >= 2 {
            decode_or_keep(kv[1].as_str())
        } else {
            let empty = String::new();
            decode_or_keep(empty.as_str())
        };
        let ghost kg = key@;
        let ghost vg = value@;
        assert(ps.take(i + 1).drop_last() =~= ps.take(i as int));
        assert(ps.take(i + 1).last() == part@);
        assert(kg == query_key(part@));
        assert(vg == query_value(part@));
        let ghost m = query_map(ps.take(i as int), allow_repeats);
        match find_entry(&entries, &key) {
            Some(j) => {
                proof {
                    lemma_entries_map_lookup(entries@, j as int);
                }
                if allow_repeats {
                    let mut list = strings_of(&entries[j].1);
                    let ghost before = list@;
                    list.push(value);
                    assert(views(list@) =~= views(before).push(vg));
                    let ghost old_entries = entries@;
                    let e = (key, QueryValue::Many(list));
                    let ghost eg = e;
                    entries.set(j, e);
                    proof {
                        lemma_entries_map_update(old_entries, j as int, eg);
                        assert(entries@ == old_entries.update(j as int, eg));
                        assert forall|a: int, b: int| 0 <= a < b < entries@.len() implies #[trigger] entries@[a].0@ != #[trigger] entries@[b].0@ by {
                            assert(old_entries[a].0@ != old_entries[b].0@);
                        }
                        assert forall|a: int| 0 <= a < entries@.len() implies well_shaped(#[trigger] entries@[a].1) by {
                            if a != j {
                                assert(well_shaped(old_entries[a].1));
                            }
                        }
                    }
                }
            },
            None => {
                proof {
                    lemma_entries_map_absent(entries@, kg);
                }
                let ghost old_entries = entries@;
                entries.push((key, QueryValue::One(value)));
                proof {
                    assert(entries@.drop_last() =~= old_entries);
                    assert forall|a: int, b: int| 0 <= a < b < entries@.len() implies #[trigger] entries@[a].0@ != #[trigger] entries@[b].0@ by {
                        if b < old_entries.len() {
                            assert(old_entries[a].0@ != old_entries[b].0@);
                        } else {
                            assert(old_entries[a].0@ != kg);
                        }
                    }
                    assert forall|a: int| 0 <= a < entries@.len() implies well_shaped(#[trigger] entries@[a].1) by {
                        if a < old_entries.len() {
                            assert(well_shaped(old_entries[a].1));
                        }
                    }
                }
            },
        }
    }
    assert(ps.take(n as int) =~= ps);
    entries
}

/// The type of a CEL value.
#[derive(Debug, Clone, Copy, PartialEq, Eq)]
pub enum ValueKind {
    List,
    /// A map.
    Mapping,
    Function,
    Int,
    UInt,
    Float,
    /// A string.
    Str,
    Bytes,
    Bool,
    /// A duration.
    Timespan,
    Timestamp,
    Null,
}

/// An attribute that an expression reads: its path, and its type where the
/// attribute is a well-known one.
#[derive(Debug)]
pub struct Attribute {
    pub path: Path,
    pub cel_type: Option<ValueKind>,
}

/// The well-known attributes, by their dotted names, and their types.
pub open spec fn well_known_table() -> Seq<(&'static str, ValueKind)> {
    seq![
        ("request.time", ValueKind::Timestamp),
        ("request.id", ValueKind::Str),
        ("request.protocol", ValueKind::Str),
        ("request.scheme", ValueKind::Str),
        ("request.host", ValueKind::Str),
        ("request.method", ValueKind::Str),
        ("request.path", ValueKind::Str),
        ("request.url_path", ValueKind::Str),
        ("request.query", ValueKind::Str),
        ("request.referer", ValueKind::Str),
        ("request.size", ValueKind::Int),
        ("request.useragent", ValueKind::Str),
        ("request.body", ValueKind::Str),
        ("source.address", ValueKind::Str),
        ("source.remote_address", ValueKind::Str),
        ("source.port", ValueKind::Int),
        ("source.service", ValueKind::Str),
        ("source.principal", ValueKind::Str),
        ("source.certificate", ValueKind::Str),
        ("destination.address", ValueKind::Str),
        ("destination.port", ValueKind::Int),
        ("destination.service", ValueKind::Str),
        ("destination.principal", ValueKind::Str),
        ("destination.certificate", ValueKind::Str),
        ("connection.requested_server_name", ValueKind::Str),
        ("connection.tls_session.sni", ValueKind::Str),
        ("connection.tls_version", ValueKind::Str),
        ("connection.subject_local_certificate", ValueKind::Str),
        ("connection.subject_peer_certificate", ValueKind::Str),
        ("connection.dns_san_local_certificate", ValueKind::Str),
        ("connection.dns_san_peer_certificate", ValueKind::Str),
        ("connection.uri_san_local_certificate", ValueKind::Str),
        ("connection.uri_san_peer_certificate", ValueKind::Str),
        ("connection.sha256_peer_certificate_digest", ValueKind::Str),
        ("ratelimit.domain", ValueKind::Str),
        ("connection.id", ValueKind::UInt),
        ("ratelimit.hits_addend", ValueKind::Int),
        ("request.headers", ValueKind::Mapping),
        ("request.context_extensions", ValueKind::Mapping),
        ("source.labels", ValueKind::Mapping),
        ("destination.labels", ValueKind::Mapping),
        ("filter_state", ValueKind::Mapping),
        ("connection.mtls", ValueKind::Bool),
        ("request.raw_body", ValueKind::Bytes),
    ]
}

/// The type of the first entry of `table` whose name reads as the path
/// `tokens`.
pub open spec fn lookup_kind(table: Seq<(&'static str, ValueKind)>, tokens: Seq<Seq<char>>) -> Option<ValueKind>
    decreases table.len(),
{
    if table.len() == 0 {
        None
    } else if tokenize(table[0].0@) == tokens {
        Some(table[0].1)
    } else {
        lookup_kind(table.drop_first(), tokens)
    }
}

/// The well-known attributes and their types.
pub fn well_known_names() -> (res: Vec<(&'static str, ValueKind)>)
    ensures
        res@ == well_known_table(),
{
    vec![
        ("request.time", ValueKind::Timestamp),
        ("request.id", ValueKind::Str),
        ("request.protocol", ValueKind::Str),
        ("request.scheme", ValueKind::Str),
        ("request.host", ValueKind::Str),
        ("request.method", ValueKind::Str),
        ("request.path", ValueKind::Str),
        ("request.url_path", ValueKind::Str),
        ("request.query", ValueKind::Str),
        ("request.referer", ValueKind::Str),
        ("request.size", ValueKind::Int),
        ("request.useragent", ValueKind::Str),
        ("request.body", ValueKind::Str),
        ("source.address", ValueKind::Str),
        ("source.remote_address", ValueKind::Str),
        ("source.port", ValueKind::Int),
        ("source.service", ValueKind::Str),
        ("source.principal", ValueKind::Str),
        ("source.certificate", ValueKind::Str),
        ("destination.address", ValueKind::Str),
        ("destination.port", ValueKind::Int),
        ("destination.service", ValueKind::Str),
        ("destination.principal", ValueKind::Str),
        ("destination.certificate", ValueKind::Str),
        ("connection.requested_server_name", ValueKind::Str),
        ("connection.tls_session.sni", ValueKind::Str),
        ("connection.tls_version", ValueKind::Str),
        ("connection.subject_local_certificate", ValueKind::Str),
        ("connection.subject_peer_certificate", ValueKind::Str),
        ("connection.dns_san_local_certificate", ValueKind::Str),
        ("connection.dns_san_peer_certificate", ValueKind::Str),
        ("connection.uri_san_local_certificate", ValueKind::Str),
        ("connection.uri_san_peer_certificate", ValueKind::Str),
        ("connection.sha256_peer_certificate_digest", ValueKind::Str),
        ("ratelimit.domain", ValueKind::Str),
        ("connection.id", ValueKind::UInt),
        ("ratelimit.hits_addend", ValueKind::Int),
        ("request.headers", ValueKind::Mapping),
        ("request.context_extensions", ValueKind::Mapping),
        ("source.labels", ValueKind::Mapping),
        ("destination.labels", ValueKind::Mapping),
        ("filter_state", ValueKind::Mapping),
        ("connection.mtls", ValueKind::Bool),
        ("request.raw_body", ValueKind::Bytes),
    ]
}

/// The map that `table` makes when its entries are inserted in order, by
/// the path each name reads as: a later entry takes the place of an
/// earlier one with the same path.
pub open spec fn table_map(table: Seq<(&'static str, ValueKind)>) -> Map<Seq<Seq<char>>, ValueKind>
    decreases table.len(),
{
    if table.len() == 0 {
        Map::empty()
    } else {
        table_map(table.drop_last()).insert(tokenize(table.last().0@), table.last().1)
    }
}

/// Whether no path occurs twice.
pub open spec fn distinct_paths(v: Seq<(Path, ValueKind)>) -> bool {
    forall|i: int, j: int| 0 <= i < j < v.len() ==> (#[trigger] v[i]).0@ != (#[trigger] v[j]).0@
}

/// Whether `v`, whose paths occur once each, holds exactly the entries of
/// the map `m`.
pub open spec fn holds_map(v: Seq<(Path, ValueKind)>, m: Map<Seq<Seq<char>>, ValueKind>) -> bool {
    &&& distinct_paths(v)
    &&& forall|i: int| 0 <= i < v.len() ==> #[trigger] m.contains_key(v[i].0@) && m[v[i].0@] == v[i].1
    &&& forall|p: Seq<Seq<char>>| #[trigger] m.contains_key(p) ==> exists|i: int| 0 <= i < v.len() && (#[trigger] v[i]).0@ == p
}

/// The well-known attributes as paths, with their types: the map of
/// `well_known_table`, each path once.
pub fn new_well_known_attribute_map() -> (res: Vec<(Path, ValueKind)>)
    ensures
        holds_map(res@, table_map(well_known_table())),
{
    let names = well_known_names();
    let mut res: Vec<(Path, ValueKind)> = Vec::new();
    let n = names.len();
    for i in 0..n
        invariant
            n == names@.len(),
            names@ == well_known_table(),
            holds_map(res@, table_map(well_known_table().take(i as int))),
    {
        let (name, kind) = names[i];
        let path = Path::parse(name);
        let ghost before = res@;
        let ghost m = table_map(well_known_table().take(i as int));
        proof {
            assert(well_known_table().take(i + 1).drop_last() =~= well_known_table().take(i as int));
            assert(well_known_table().take(i + 1).last() == well_known_table()[i as int]);
        }
        let mut found: Option<usize> = None;
        let len = res.len();
        for j in 0..len
            invariant
                len == res@.len(),
                res@ == before,
                found is None ==> forall|k: int| 0 <= k < j ==> (#[trigger] res@[k]).0@ != path@,
                found matches Some(f) ==> f < len && res@[f as int].0@ == path@,
        {
            if found.is_none() && res[j].0.same_as(&path) {
                found = Some(j);
            }
        }
        let ghost pv = path@;
        let ghost m2 = m.insert(pv, kind);
        match found {
            Some(f) => {
                res.set(f, (path, kind));
                proof {
                    assert forall|a: int, b: int| 0 <= a < b < res@.len() implies (#[trigger] res@[a]).0@ != (#[trigger] res@[b]).0@ by {
                        if a != f && b != f {
                            assert(before[a].0@ != before[b].0@);
                        } else if a == f {
                            assert(before[a].0@ != before[b].0@);
                        } else {
                            assert(before[a].0@ != before[b].0@);
                        }
                    }
                    assert forall|p: Seq<Seq<char>>| #[trigger] m2.contains_key(p) implies exists|k: int| 0 <= k < res@.len() && (#[trigger] res@[k]).0@ == p by {
                        if p == path@ {
                            assert(res@[f as int].0@ == p);
                        } else {
                            let k = choose|k: int| 0 <= k < before.len() && (#[trigger] before[k]).0@ == p;
                            assert(res@[k].0@ == p);
                        }
                    }
                    assert forall|k: int| 0 <= k < res@.len() implies #[trigger] m2.contains_key(res@[k].0@) && m2[res@[k].0@] == res@[k].1 by {
                        if k != f {
                            assert(res@[k] == before[k]);
                            assert(before[k].0@ != before[f as int].0@);
                        }
                    }
                }
            },
            None => {
                res.push((path, kind));
                proof {
                    assert forall|a: int, b: int| 0 <= a < b < res@.len() implies (#[trigger] res@[a]).0@ != (#[trigger] res@[b]).0@ by {
                        if b < before.len() {
                            assert(before[a].0@ != before[b].0@);
                        } else {
                            assert(res@[a] == before[a]);
                        }
                    }
                    assert forall|p: Seq<Seq<char>>| #[trigger] m2.contains_key(p) implies exists|k: int| 0 <= k < res@.len() && (#[trigger] res@[k]).0@ == p by {
                        if p == path@ {
                            assert(res@[before.len() as int].0@ == p);
                        } else {
                            let k = choose|k: int| 0 <= k < before.len() && (#[trigger] before[k]).0@ == p;
                            assert(res@[k] == before[k]);
                        }
                    }
                    assert forall|k: int| 0 <= k < res@.len() implies #[trigger] m2.contains_key(res@[k].0@) && m2[res@[k].0@] == res@[k].1 by {
                        if k < before.len() {
                            assert(res@[k] == before[k]);
                            assert(before[k].0@ != pv);
                            assert(m.contains_key(before[k].0@));
                        } else {
                            assert(res@[k].0@ == pv && res@[k].1 == kind);
                        }
                    }
                }
            },
        }
    }
    proof {
        assert(well_known_table().take(n as int) =~= well_known_table());
    }
    res
}

/// The well-known attribute at `path`, with its type, if there is one.
pub fn known_attribute_for(path: &Path) -> (res: Option<Attribute>)
    ensures
        match res {
            Some(a) => a.path@ == path@ && lookup_kind(well_known_table(), path@) == Some(a.cel_type->0)
                && a.cel_type is Some,
            None => lookup_kind(well_known_table(), path@) is None,
        },
{
    let names = well_known_names();
    let n = names.len();
    assert(well_known_table().skip(0) =~= well_known_table());
    for i in 0..n
        invariant
            n == names@.len(),
            names@ == well_known_table(),
            lookup_kind(well_known_table(), path@) == lookup_kind(well_known_table().skip(i as int), path@),
    {
        let (name, kind) = names[i];
        let candidate = Path::parse(name);
        let ghost rest = well_known_table().skip(i as int);
        assert(rest[0] == well_known_table()[i as int]);
        assert(rest.drop_first() =~= well_known_table().skip(i + 1));
        if candidate.same_as(path) {
            return Some(Attribute { path: path.duplicate(), cel_type: Some(kind) });
        }
    }
    assert(well_known_table().skip(n as int).len() == 0);
    None
}

} // verus!
