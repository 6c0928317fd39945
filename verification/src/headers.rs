//! Header operations: which header map they target and how they change it.
use crate::property_path::Path;
use crate::text::same_text;
use vstd::prelude::*;

verus! {

/// The header map an operation targets.
#[derive(Debug, Clone, Copy, PartialEq, Eq, Structural)]
pub enum HeadersType {
    HttpRequestHeaders,
    HttpResponseHeaders,
}

/// Headers: name and value pairs, in order.
pub type Headers = Vec<(String, String)>;

/// The view of headers.
pub open spec fn headers_view(h: Seq<(String, String)>) -> Seq<(Seq<char>, Seq<char>)> {
    h.map_values(|p: (String, String)| (p.0@, p.1@))
}

/// A change to a header map.
#[derive(Debug, Clone)]
pub enum HeaderOperation {
    /// Adds the headers after the existing ones.
    Append(Headers),
    /// Sets each header, replacing the value of the first one of that name.
    SetValue(Headers),
    /// Removes every header of each name.
    Remove(Vec<String>),
}

/// The property path of a header map.
pub fn headers_path(header_type: HeadersType) -> (res: Path)
    ensures
        res@ == match header_type {
            HeadersType::HttpRequestHeaders => seq!["request"@, "headers"@],
            HeadersType::HttpResponseHeaders => seq!["response"@, "headers"@],
        },
{
    let p = match header_type {
        HeadersType::HttpRequestHeaders => Path::from_tokens(&["request", "headers"]),
        HeadersType::HttpResponseHeaders => Path::from_tokens(&["response", "headers"]),
    };
    assert(seq!["request", "headers"].map_values(|t: &str| t@) =~= seq!["request"@, "headers"@]);
    assert(seq!["response", "headers"].map_values(|t: &str| t@) =~= seq!["response"@, "headers"@]);
    p
}

/// The index of the first header named `name`.
pub open spec fn first_named(h: Seq<(Seq<char>, Seq<char>)>, name: Seq<char>) -> Option<int> {
    if exists|i: int| 0 <= i < h.len() && h[i].0 == name {
        Some(choose|i: int| 0 <= i < h.len() && h[i].0 == name && forall|j: int| 0 <= j < i ==> h[j].0 != name)
    } else {
        None
    }
}

/// The headers with `name` set to `value`: the first header of that name
/// gets the value, or the header is added at the end when there is none.
pub open spec fn set_header(h: Seq<(Seq<char>, Seq<char>)>, name: Seq<char>, value: Seq<char>) -> Seq<(Seq<char>, Seq<char>)> {
    match first_named(h, name) {
        Some(i) => h.update(i, (name, value)),
        None => h.push((name, value)),
    }
}

/// The headers with each of `new` set in turn.
pub open spec fn set_headers(h: Seq<(Seq<char>, Seq<char>)>, new: Seq<(Seq<char>, Seq<char>)>) -> Seq<(Seq<char>, Seq<char>)>
    decreases new.len(),
{
    if new.len() == 0 {
        h
    } else {
        set_header(set_headers(h, new.drop_last()), new.last().0, new.last().1)
    }
}

/// The headers without those named in `names`.
pub open spec fn remove_headers(h: Seq<(Seq<char>, Seq<char>)>, names: Seq<Seq<char>>) -> Seq<(Seq<char>, Seq<char>)>
    decreases h.len(),
{
    if h.len() == 0 {
        Seq::empty()
    } else if names.contains(h.last().0) {
        remove_headers(h.drop_last(), names)
    } else {
        remove_headers(h.drop_last(), names).push(h.last())
    }
}

/// Removing headers by name keeps exactly the headers whose name is not
/// listed, in their order: no header named by any of `names` is left, and
/// every other one stays where it was relative to the rest.
pub proof fn lemma_remove_headers_by_every_name(h: Seq<(Seq<char>, Seq<char>)>, names: Seq<Seq<char>>)
    ensures
        remove_headers(h, names) == h.filter(|p: (Seq<char>, Seq<char>)| !names.contains(p.0)),
        forall|i: int| 0 <= i < remove_headers(h, names).len() ==> !names.contains(#[trigger] remove_headers(h, names)[i].0),
    decreases h.len(),
{
    reveal(Seq::filter);
    let keep = |p: (Seq<char>, Seq<char>)| !names.contains(p.0);
    if h.len() == 0 {
        assert(h.filter(keep) =~= Seq::<(Seq<char>, Seq<char>)>::empty());
    } else {
        lemma_remove_headers_by_every_name(h.drop_last(), names);
        assert(h.filter(keep) == if keep(h.last()) {
            h.drop_last().filter(keep).push(h.last())
        } else {
            h.drop_last().filter(keep)
        });
        let r = remove_headers(h, names);
        let r0 = remove_headers(h.drop_last(), names);
        assert forall|i: int| 0 <= i < r.len() implies !names.contains(#[trigger] r[i].0) by {
            if i < r0.len() {
                assert(r[i] == r0[i]);
            }
        }
    }
}

/// The headers after an operation.
pub open spec fn apply_spec(h: Seq<(Seq<char>, Seq<char>)>, op: HeaderOperation) -> Seq<(Seq<char>, Seq<char>)> {
    match op {
        HeaderOperation::Append(new) => h + headers_view(new@),
        HeaderOperation::SetValue(new) => set_headers(h, headers_view(new@)),
        HeaderOperation::Remove(names) => remove_headers(h, names@.map_values(|n: String| n@)),
    }
}

fn copy_pair(p: &(String, String)) -> (res: (String, String))
    ensures
        res.0@ == p.0@,
        res.1@ == p.1@,
{
    (p.0.clone(), p.1.clone())
}

/// Sets one header.
fn set_one(headers: &mut Headers, name: &String, value: &String)
    ensures
        headers_view(final(headers)@) == set_header(headers_view(old(headers)@), name@, value@),
{
    let ghost hv = headers_view(headers@);
    let n = headers.len();
    for i in 0..n
        invariant
            n == headers@.len(),
            hv == headers_view(headers@),
            headers@ == old(headers)@,
            forall|j: int| 0 <= j < i ==> hv[j].0 != name@,
    {
        if headers[i].0 == *name {
            assert(first_named(hv, name@) == Some(i as int)) by {
                assert(hv[i as int].0 == name@);
                let c = choose|c: int| 0 <= c < hv.len() && hv[c].0 == name@ && forall|j: int| 0 <= j < c ==> hv[j].0 != name@;
                assert(c == i) by {
                    if c < i {
                    } else if c > i {
                    }
                }
            }
            headers.set(i, (name.clone(), value.clone()));
            assert(headers_view(headers@) =~= hv.update(i as int, (name@, value@)));
            return;
        }
    }
    assert(first_named(hv, name@) is None);
    headers.push((name.clone(), value.clone()));
    assert(headers_view(headers@) =~= hv.push((name@, value@)));
}

/// Whether `name` is among `names`.
fn is_named(names: &Vec<String>, name: &String) -> (res: bool)
    ensures
        res == names@.map_values(|n: String| n@).contains(name@),
{
    let ghost nv = names@.map_values(|n: String| n@);
    let n = names.len();
    for i in 0..n
        invariant
            n == names@.len(),
            nv == names@.map_values(|n: String| n@),
            forall|j: int| 0 <= j < i ==> nv[j] != name@,
    {
        if names[i] == *name {
            assert(nv[i as int] == name@);
            return true;
        }
    }
    false
}

/// Applies a header operation to a header map.
pub fn apply_header_operation(headers: &mut Headers, operation: &HeaderOperation)
    ensures
        headers_view(final(headers)@) == apply_spec(headers_view(old(headers)@), *operation),
{
    match operation {
        HeaderOperation::Append(new) => {
            let n = new.len();
            for i in 0..n
                invariant
                    n == new@.len(),
                    headers_view(headers@) == headers_view(old(headers)@) + headers_view(new@.take(i as int)),
            {
                let ghost before = headers_view(headers@);
                headers.push(copy_pair(&new[i]));
                assert(headers_view(headers@) =~= before.push((new@[i as int].0@, new@[i as int].1@)));
                assert(headers_view(new@.take(i + 1)) =~= headers_view(new@.take(i as int)).push((new@[i as int].0@, new@[i as int].1@)));
            }
            assert(new@.take(n as int) =~= new@);
        },
        HeaderOperation::SetValue(new) => {
            let n = new.len();
            for i in 0..n
                invariant
                    n == new@.len(),
                    headers_view(headers@) == set_headers(headers_view(old(headers)@), headers_view(new@.take(i as int))),
            {
                assert(headers_view(new@.take(i + 1)).drop_last() =~= headers_view(new@.take(i as int)));
                set_one(headers, &new[i].0, &new[i].1);
            }
            assert(new@.take(n as int) =~= new@);
        },
        HeaderOperation::Remove(names) => {
            let ghost nv = names@.map_values(|n: String| n@);
            let mut kept: Headers = Vec::new();
            let n = headers.len();
            for i in 0..n
                invariant
                    n == headers@.len(),
                    headers@ == old(headers)@,
                    nv == names@.map_values(|n: String| n@),
                    headers_view(kept@) == remove_headers(headers_view(headers@.take(i as int)), nv),
            {
                assert(headers_view(headers@.take(i + 1)).drop_last() =~= headers_view(headers@.take(i as int)));
                if !is_named(names, &headers[i].0) {
                    let ghost before = headers_view(kept@);
                    kept.push(copy_pair(&headers[i]));
                    assert(headers_view(kept@) =~= before.push((headers@[i as int].0@, headers@[i as int].1@)));
                }
            }
            assert(headers@.take(n as int) =~= headers@);
            *headers = kept;
        },
    }
}

/// Headers to add to the request or the response once a gRPC reply is processed.
pub struct HeadersOperation {
    headers: Vec<(String, String)>,
}

impl HeadersOperation {
    /// The operation adding `headers`.
    pub fn new(headers: Vec<(String, String)>) -> (res: Self)
        ensures
            res.headers_spec() == headers@,
    {
        Self { headers }
    }

    /// The headers to add.
    pub closed spec fn headers_spec(&self) -> Seq<(String, String)> {
        self.headers@
    }

    /// The headers to add.
    pub fn headers(self) -> (res: Vec<(String, String)>)
        ensures
            res@ == self.headers_spec(),
    {
        self.headers
    }
}

/// What a teardown action left to wait for.
#[derive(Debug, Clone, Copy, PartialEq, Eq, Structural)]
pub enum TeardownOutcome {
    Done,
    Deferred(u32),
}

/// Headers to add once a gRPC reply has been processed.
#[derive(Debug)]
pub enum EventualOperation {
    AddRequestHeaders(Headers),
    AddResponseHeaders(Headers),
}

/// A remove operation leaves no header named by any of its names, and
/// keeps every other header, in order.
pub proof fn lemma_remove_operation(h: Seq<(Seq<char>, Seq<char>)>, names: Vec<String>)
    ensures
        apply_spec(h, HeaderOperation::Remove(names)) == h.filter(
            |p: (Seq<char>, Seq<char>)| !names@.map_values(|n: String| n@).contains(p.0),
        ),
{
    lemma_remove_headers_by_every_name(h, names@.map_values(|n: String| n@));
}

} // verus!
