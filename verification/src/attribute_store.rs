//! A tree of values by property path: each token of a path names a node,
//! the last one the value. A value on a path stands for everything below
//! it, so nothing is stored under a value.
use crate::cel::{same_value, Attribute, CelKey, CelValue};
use crate::property_path::Path;
use crate::text::owned;
use vstd::prelude::*;

verus! {

/// A node of the tree: nested entries, or a value.
#[derive(Debug)]
pub enum Token<V> {
    Node(Vec<(String, Token<V>)>),
    Value(V),
}

/// The index of the entry named `name` among `nodes`, or -1.
pub open spec fn find_entry<V>(nodes: Seq<(String, Token<V>)>, name: Seq<char>) -> int
    decreases nodes.len(),
{
    if nodes.len() == 0 {
        -1
    } else if nodes.last().0@ == name {
        nodes.len() - 1
    } else {
        find_entry(nodes.drop_last(), name)
    }
}

proof fn lemma_find_entry<V>(nodes: Seq<(String, Token<V>)>, name: Seq<char>)
    ensures
        -1 <= find_entry(nodes, name) < nodes.len(),
        find_entry(nodes, name) >= 0 ==> nodes[find_entry(nodes, name)].0@ == name,
        find_entry(nodes, name) < 0 ==> forall|i: int| 0 <= i < nodes.len() ==> (#[trigger] nodes[i]).0@ != name,
    decreases nodes.len(),
{
    if nodes.len() > 0 && nodes.last().0@ != name {
        lemma_find_entry(nodes.drop_last(), name);
        assert forall|i: int| 0 <= i < nodes.len() - 1 implies nodes.drop_last()[i] == nodes[i] by {}
    }
}

/// The value stored at `path` below `nodes`, if any.
pub open spec fn leaf_at<V>(nodes: Seq<(String, Token<V>)>, path: Seq<Seq<char>>) -> Option<V>
    decreases nodes, path.len(),
{
    if path.len() == 0 {
        None
    } else {
        let i = find_entry(nodes, path[0]);
        if 0 <= i < nodes.len() {
            match nodes[i].1 {
                Token::Value(v) => if path.len() == 1 { Some(v) } else { None },
                Token::Node(inner) => {
                    proof {
                        assert(decreases_to!(nodes => nodes[i]));
                    }
                    leaf_at(inner@, path.drop_first())
                },
            }
        } else {
            None
        }
    }
}

/// An update of an entry that keeps its name finds the same entries.
proof fn lemma_find_update<V>(nodes: Seq<(String, Token<V>)>, i: int, e: (String, Token<V>), name: Seq<char>)
    requires
        0 <= i < nodes.len(),
        e.0@ == nodes[i].0@,
    ensures
        find_entry(nodes.update(i, e), name) == find_entry(nodes, name),
    decreases nodes.len(),
{
    let u = nodes.update(i, e);
    if i < nodes.len() - 1 {
        assert(u.drop_last() =~= nodes.drop_last().update(i, e));
        assert(u.last() == nodes.last());
        lemma_find_update(nodes.drop_last(), i, e, name);
    } else {
        assert(u.drop_last() =~= nodes.drop_last());
    }
}

/// A new entry is found by its name; other names find what they found.
proof fn lemma_find_push<V>(nodes: Seq<(String, Token<V>)>, e: (String, Token<V>), name: Seq<char>)
    ensures
        name == e.0@ ==> find_entry(nodes.push(e), name) == nodes.len(),
        name != e.0@ ==> find_entry(nodes.push(e), name) == find_entry(nodes, name),
{
    assert(nodes.push(e).drop_last() =~= nodes);
}

/// Paths that do not start with the name of entry `i` keep their values
/// when that entry changes but keeps its name; paths that do now read
/// through the new entry.
proof fn lemma_leaf_update<V>(nodes: Seq<(String, Token<V>)>, i: int, e: (String, Token<V>), r: Seq<Seq<char>>)
    requires
        0 <= i < nodes.len(),
        e.0@ == nodes[i].0@,
        find_entry(nodes, nodes[i].0@) == i,
    ensures
        (r.len() == 0 || r[0] != e.0@) ==> leaf_at(nodes.update(i, e), r) == leaf_at(nodes, r),
        r.len() > 0 && r[0] == e.0@ ==> leaf_at(nodes.update(i, e), r) == match e.1 {
            Token::Value(v) => if r.len() == 1 { Some(v) } else { None },
            Token::Node(inner) => leaf_at(inner@, r.drop_first()),
        },
{
    if r.len() > 0 {
        lemma_find_update(nodes, i, e, r[0]);
        lemma_find_entry(nodes, r[0]);
        let u = nodes.update(i, e);
        if r[0] == e.0@ {
            assert(find_entry(u, r[0]) == i);
        } else {
            let j = find_entry(nodes, r[0]);
            if 0 <= j {
                assert(j != i);
                assert(u[j] == nodes[j]);
            }
        }
    }
}

/// Paths that do not start with the name of a new entry keep their values;
/// paths that do read through it.
proof fn lemma_leaf_push<V>(nodes: Seq<(String, Token<V>)>, e: (String, Token<V>), r: Seq<Seq<char>>)
    requires
        find_entry(nodes, e.0@) < 0,
    ensures
        (r.len() == 0 || r[0] != e.0@) ==> leaf_at(nodes.push(e), r) == leaf_at(nodes, r),
        r.len() > 0 && r[0] == e.0@ ==> leaf_at(nodes.push(e), r) == match e.1 {
            Token::Value(v) => if r.len() == 1 { Some(v) } else { None },
            Token::Node(inner) => leaf_at(inner@, r.drop_first()),
        },
{
    if r.len() > 0 {
        lemma_find_push(nodes, e, r[0]);
        lemma_find_entry(nodes, r[0]);
        let j = find_entry(nodes, r[0]);
        if 0 <= j && r[0] != e.0@ {
            assert(nodes.push(e)[j] == nodes[j]);
        }
    }
}

/// Whether a proper prefix of `path` holds a value below `nodes`.
pub open spec fn blocked<V>(nodes: Seq<(String, Token<V>)>, path: Seq<Seq<char>>) -> bool {
    exists|k: int| 1 <= k < path.len() && #[trigger] leaf_at(nodes, path.take(k)) is Some
}

/// Whether `p` is a proper prefix of `r`.
pub open spec fn proper_prefix(p: Seq<Seq<char>>, r: Seq<Seq<char>>) -> bool {
    p.len() < r.len() && r.take(p.len() as int) == p
}

/// What storing `v` at a non-empty `path` does to the values below `nodes`:
/// nothing when a proper prefix of the path already holds a value;
/// otherwise the path holds `v`, the paths below it hold nothing, and the
/// other paths keep their values.
pub open spec fn stored<V>(before: Seq<(String, Token<V>)>, path: Seq<Seq<char>>, v: V, after: Seq<(String, Token<V>)>) -> bool {
    if blocked(before, path) {
        forall|r: Seq<Seq<char>>| #[trigger] leaf_at(after, r) == leaf_at(before, r)
    } else {
        &&& leaf_at(after, path) == Some(v)
        &&& forall|r: Seq<Seq<char>>| #[trigger] proper_prefix(path, r) ==> leaf_at(after, r) is None
        &&& forall|r: Seq<Seq<char>>| r != path && !proper_prefix(path, r) ==> #[trigger] leaf_at(after, r) == leaf_at(before, r)
    }
}

fn find_last<V>(nodes: &Vec<(String, Token<V>)>, name: &String) -> (res: Option<usize>)
    ensures
        match res {
            Some(i) => i == find_entry(nodes@, name@),
            None => find_entry(nodes@, name@) < 0,
        },
{
    let n = nodes.len();
    let mut i = n;
    assert(nodes@.take(n as int) =~= nodes@);
    while i > 0
        invariant
            i <= n,
            n == nodes@.len(),
            find_entry(nodes@, name@) == find_entry(nodes@.take(i as int), name@),
        decreases i,
    {
        assert(nodes@.take(i as int).last() == nodes@[i - 1]);
        assert(nodes@.take(i as int).drop_last() =~= nodes@.take(i - 1));
        if nodes[i - 1].0 == *name {
            return Some(i - 1);
        }
        i -= 1;
    }
    None
}


/// The character views of a path's tokens.
pub open spec fn token_views(toks: Seq<&str>) -> Seq<Seq<char>> {
    toks.map_values(|t: &str| t@)
}

/// Two non-empty paths with the same first token: they are equal, and one
/// is a proper prefix of the other, exactly when the same holds of what
/// follows that token.
proof fn lemma_cons_prefix(p: Seq<Seq<char>>, r: Seq<Seq<char>>)
    requires
        p.len() > 0,
        r.len() > 0,
        r[0] == p[0],
    ensures
        (r == p) == (r.drop_first() == p.drop_first()),
        proper_prefix(p, r) == proper_prefix(p.drop_first(), r.drop_first()),
{
    if r.drop_first() == p.drop_first() {
        assert forall|j: int| 0 <= j < r.len() implies r[j] == p[j] by {
            if j > 0 {
                assert(r[j] == r.drop_first()[j - 1]);
                assert(p[j] == p.drop_first()[j - 1]);
            }
        }
        assert(r =~= p);
    }
    if p.len() < r.len() {
        let q = p.drop_first();
        let t = r.drop_first();
        if r.take(p.len() as int) == p {
            assert(t.take(q.len() as int) =~= q);
        }
        if t.take(q.len() as int) == q {
            assert forall|j: int| 0 <= j < p.len() implies r.take(p.len() as int)[j] == p[j] by {
                if j > 0 {
                    assert(r[j] == t[j - 1]);
                    assert(p[j] == q[j - 1]);
                    assert(t.take(q.len() as int)[j - 1] == t[j - 1]);
                }
            }
            assert(r.take(p.len() as int) =~= p);
        }
    }
}

/// Entry `i`, a node named by the first token of `p`, is where a store
/// through `p` descends: storing below it as `inner1` stores in the whole.
proof fn lemma_store_through<V>(
    b: Seq<(String, Token<V>)>,
    i: int,
    inner0: Vec<(String, Token<V>)>,
    inner1: Vec<(String, Token<V>)>,
    p: Seq<Seq<char>>,
    v: V,
)
    requires
        0 <= i < b.len(),
        p.len() >= 2,
        find_entry(b, p[0]) == i,
        b[i].0@ == p[0],
        b[i].1 == Token::Node(inner0),
        stored(inner0@, p.drop_first(), v, inner1@),
    ensures
        stored(b, p, v, b.update(i, (b[i].0, Token::Node(inner1)))),
{
    let e = (b[i].0, Token::<V>::Node(inner1));
    let after = b.update(i, e);
    let rest = p.drop_first();
    assert forall|r: Seq<Seq<char>>| r.len() > 0 && r[0] == p[0] implies #[trigger] leaf_at(b, r) == leaf_at(inner0@, r.drop_first()) by {}
    assert(blocked(b, p) == blocked(inner0@, rest)) by {
        if blocked(b, p) {
            let j = choose|j: int| 1 <= j < p.len() && #[trigger] leaf_at(b, p.take(j)) is Some;
            assert(p.take(j)[0] == p[0]);
            assert(p.take(j).drop_first() =~= rest.take(j - 1));
            assert(leaf_at(inner0@, rest.take(j - 1)) is Some);
        }
        if blocked(inner0@, rest) {
            let j = choose|j: int| 1 <= j < rest.len() && #[trigger] leaf_at(inner0@, rest.take(j)) is Some;
            assert(p.take(j + 1)[0] == p[0]);
            assert(p.take(j + 1).drop_first() =~= rest.take(j));
            assert(leaf_at(b, p.take(j + 1)) is Some);
        }
    }
    assert forall|r: Seq<Seq<char>>| r.len() > 0 && r[0] == p[0] implies #[trigger] leaf_at(after, r) == leaf_at(inner1@, r.drop_first()) by {
        lemma_leaf_update(b, i, e, r);
    }
    assert forall|r: Seq<Seq<char>>| r.len() == 0 || r[0] != p[0] implies #[trigger] leaf_at(after, r) == leaf_at(b, r) by {
        lemma_leaf_update(b, i, e, r);
    }
    if blocked(b, p) {
        assert forall|r: Seq<Seq<char>>| #[trigger] leaf_at(after, r) == leaf_at(b, r) by {
            if r.len() > 0 && r[0] == p[0] {
                assert(leaf_at(inner1@, r.drop_first()) == leaf_at(inner0@, r.drop_first()));
            }
        }
    } else {
        assert(leaf_at(after, p) == Some(v));
        assert forall|r: Seq<Seq<char>>| #[trigger] proper_prefix(p, r) implies leaf_at(after, r) is None by {
            assert(r.take(p.len() as int)[0] == r[0]);
            lemma_cons_prefix(p, r);
            assert(proper_prefix(rest, r.drop_first()));
        }
        assert forall|r: Seq<Seq<char>>| r != p && !proper_prefix(p, r) implies #[trigger] leaf_at(after, r) == leaf_at(b, r) by {
            if r.len() > 0 && r[0] == p[0] {
                lemma_cons_prefix(p, r);
                assert(leaf_at(inner1@, r.drop_first()) == leaf_at(inner0@, r.drop_first()));
            }
        }
    }
}

/// Replacing or adding the entry of the single token of `p` with a value
/// stores that value at `p`.
proof fn lemma_store_leaf<V>(b: Seq<(String, Token<V>)>, after: Seq<(String, Token<V>)>, p: Seq<Seq<char>>, v: V)
    requires
        p.len() == 1,
        forall|r: Seq<Seq<char>>| (r.len() == 0 || r[0] != p[0]) ==> #[trigger] leaf_at(after, r) == leaf_at(b, r),
        forall|r: Seq<Seq<char>>| r.len() > 0 && r[0] == p[0] ==> #[trigger] leaf_at(after, r) == (if r.len() == 1 { Some(v) } else { None::<V> }),
    ensures
        stored(b, p, v, after),
{
    assert(!blocked(b, p));
    assert(leaf_at(after, p) == Some(v));
    assert forall|r: Seq<Seq<char>>| #[trigger] proper_prefix(p, r) implies leaf_at(after, r) is None by {
        assert(r.take(1)[0] == r[0]);
    }
    assert forall|r: Seq<Seq<char>>| r != p && !proper_prefix(p, r) implies #[trigger] leaf_at(after, r) == leaf_at(b, r) by {
        if r.len() > 0 && r[0] == p[0] {
            if r.len() == 1 {
                assert(r =~= p);
            } else {
                assert(r.take(1) =~= p);
            }
        }
    }
}

/// Storing into a tree that holds the same values as `b` does what storing
/// into `b` does.
proof fn lemma_stored_same_leaves<V>(
    b0: Seq<(String, Token<V>)>,
    b: Seq<(String, Token<V>)>,
    p: Seq<Seq<char>>,
    v: V,
    after: Seq<(String, Token<V>)>,
)
    requires
        forall|r: Seq<Seq<char>>| #[trigger] leaf_at(b, r) == leaf_at(b0, r),
        stored(b, p, v, after),
    ensures
        stored(b0, p, v, after),
{
    if blocked(b, p) {
        let j = choose|j: int| 1 <= j < p.len() && #[trigger] leaf_at(b, p.take(j)) is Some;
        assert(leaf_at(b0, p.take(j)) is Some);
    } else {
        assert forall|j: int| 1 <= j < p.len() implies !(#[trigger] leaf_at(b0, p.take(j)) is Some) by {
            assert(leaf_at(b, p.take(j)) == leaf_at(b0, p.take(j)));
        }
    }
}

/// Stores `val` at the path made of the tokens from position `k` on: the
/// insertion of the store, by one token at a time.
fn add_rec<V>(nodes: &mut Vec<(String, Token<V>)>, toks: &Vec<&str>, k: usize, val: V)
    requires
        k < toks@.len(),
    ensures
        stored(old(nodes)@, token_views(toks@).skip(k as int), val, final(nodes)@),
    decreases toks@.len() - k,
{
    let ghost p = token_views(toks@).skip(k as int);
    let ghost b0 = nodes@;
    let name = owned(toks[k]);
    assert(p[0] == name@);
    let found = find_last(nodes, &name);
    proof {
        lemma_find_entry(nodes@, name@);
    }
    if k == toks.len() - 1 {
        let e = (name, Token::Value(val));
        proof {
            assert(p.len() == 1);
        }
        match found {
            Some(i) => {
                proof {
                    assert forall|r: Seq<Seq<char>>| (r.len() == 0 || r[0] != p[0]) implies #[trigger] leaf_at(b0.update(i as int, e), r) == leaf_at(b0, r) by {
                        lemma_leaf_update(b0, i as int, e, r);
                    }
                    assert forall|r: Seq<Seq<char>>| r.len() > 0 && r[0] == p[0] implies #[trigger] leaf_at(b0.update(i as int, e), r) == (if r.len() == 1 { Some(val) } else { None::<V> }) by {
                        lemma_leaf_update(b0, i as int, e, r);
                    }
                    lemma_store_leaf(b0, b0.update(i as int, e), p, val);
                }
                nodes.set(i, e);
            },
            None => {
                proof {
                    assert forall|r: Seq<Seq<char>>| (r.len() == 0 || r[0] != p[0]) implies #[trigger] leaf_at(b0.push(e), r) == leaf_at(b0, r) by {
                        lemma_leaf_push(b0, e, r);
                    }
                    assert forall|r: Seq<Seq<char>>| r.len() > 0 && r[0] == p[0] implies #[trigger] leaf_at(b0.push(e), r) == (if r.len() == 1 { Some(val) } else { None::<V> }) by {
                        lemma_leaf_push(b0, e, r);
                    }
                    lemma_store_leaf(b0, b0.push(e), p, val);
                }
                nodes.push(e);
            },
        }
        return;
    }
    let i = match found {
        Some(i) => i,
        None => {
            let e = (name, Token::Node(Vec::new()));
            proof {
                assert forall|r: Seq<Seq<char>>| #[trigger] leaf_at(b0.push(e), r) == leaf_at(b0, r) by {
                    lemma_leaf_push(b0, e, r);
                    if r.len() > 0 && r[0] == e.0@ {
                        lemma_find_entry(b0, r[0]);
                    }
                }
                lemma_find_push(b0, e, name@);
            }
            nodes.push(e);
            nodes.len() - 1
        },
    };
    let ghost b = nodes@;
    assert(find_entry(b, p[0]) == i);
    let (nm, tok) = nodes.remove(i);
    match tok {
        Token::Value(v) => {
            nodes.insert(i, (nm, Token::Value(v)));
            proof {
                assert(nodes@ =~= b);
                assert(b == b0);
                assert(p.take(1)[0] == p[0]);
                assert(leaf_at(b0, p.take(1)) is Some);
            }
        },
        Token::Node(inner) => {
            let ghost inner0 = inner;
            let mut inner = inner;
            add_rec(&mut inner, toks, k + 1, val);
            proof {
                assert(token_views(toks@).skip(k + 1) =~= p.drop_first());
                lemma_store_through(b, i as int, inner0, inner, p, val);
                lemma_stored_same_leaves(b0, b, p, val, b.update(i as int, (nm, Token::Node(inner))));
            }
            nodes.insert(i, (nm, Token::Node(inner)));
            proof {
                assert(nodes@ =~= b.update(i as int, (nm, Token::Node(inner))));
            }
        },
    }
}


/// What storing `v` at `path` does, for any path: nothing when the path is
/// empty, else as `stored` says.
pub open spec fn stored_at<V>(before: Seq<(String, Token<V>)>, path: Seq<Seq<char>>, v: V, after: Seq<(String, Token<V>)>) -> bool {
    if path.len() == 0 {
        forall|r: Seq<Seq<char>>| #[trigger] leaf_at(after, r) == leaf_at(before, r)
    } else {
        stored(before, path, v, after)
    }
}

/// Whether a tree holds no value at all.
pub open spec fn holds_nothing<V>(nodes: Seq<(String, Token<V>)>) -> bool {
    forall|r: Seq<Seq<char>>| #[trigger] leaf_at(nodes, r) is None
}

proof fn lemma_empty_holds_nothing<V>(nodes: Seq<(String, Token<V>)>)
    requires
        nodes.len() == 0,
    ensures
        holds_nothing(nodes),
{
    assert forall|r: Seq<Seq<char>>| #[trigger] leaf_at(nodes, r) is None by {
        if r.len() > 0 {
            lemma_find_entry(nodes, r[0]);
        }
    }
}

/// Whether the value at `path` is found, the lookup of the store, by one
/// token at a time.
fn contains_rec<V>(nodes: &Vec<(String, Token<V>)>, toks: &Vec<&str>, k: usize) -> (res: bool)
    requires
        k <= toks@.len(),
    ensures
        res == leaf_at(nodes@, token_views(toks@).skip(k as int)) is Some,
    decreases toks@.len() - k,
{
    let ghost p = token_views(toks@).skip(k as int);
    if k == toks.len() {
        return false;
    }
    let name = owned(toks[k]);
    assert(p[0] == name@);
    let found = find_last(nodes, &name);
    proof {
        lemma_find_entry(nodes@, name@);
    }
    match found {
        None => false,
        Some(i) => match &nodes[i].1 {
            Token::Value(_) => k == toks.len() - 1,
            Token::Node(inner) => {
                proof {
                    assert(token_views(toks@).skip(k + 1) =~= p.drop_first());
                }
                contains_rec(inner, toks, k + 1)
            },
        },
    }
}

/// Whether `v` is the map that the tree `nodes` stands for: one entry per
/// node, in order, keyed by the node's name, whose value is the node's
/// value or, for an inner node, the map of its children.
pub open spec fn mirrors(nodes: Seq<(String, Token<CelValue>)>, v: CelValue) -> bool
    decreases nodes,
{
    &&& v matches CelValue::Entries(es)
    &&& es@.len() == nodes.len()
    &&& forall|j: int| 0 <= j < nodes.len() ==> {
        &&& (es@[j].0 matches CelKey::Str(k) && k@ == (#[trigger] nodes[j]).0@)
        &&& match nodes[j].1 {
            Token::Value(x) => same_value(x, es@[j].1),
            Token::Node(inner) => mirrors(inner@, es@[j].1),
        }
    }
}

proof fn lemma_node_decreases<V>(nodes: Vec<(String, Token<V>)>, j: int, inner: Vec<(String, Token<V>)>)
    requires
        0 <= j < nodes@.len(),
        nodes@[j].1 == Token::Node(inner),
    ensures
        decreases_to!(nodes => inner),
{
    assert(decreases_to!(nodes => nodes[j]));
    match nodes@[j].1 {
        Token::Node(x) => {
            assert(decreases_to!(nodes@[j].1 => x));
        },
        _ => {},
    }
}

/// The map that a tree stands for.
fn cel_map_rec(nodes: &Vec<(String, Token<CelValue>)>) -> (res: CelValue)
    ensures
        mirrors(nodes@, res),
    decreases nodes,
{
    let mut out: Vec<(CelKey, CelValue)> = Vec::new();
    let n = nodes.len();
    for j in 0..n
        invariant
            n == nodes@.len(),
            out@.len() == j,
            forall|t: int| 0 <= t < j ==> {
                &&& (out@[t].0 matches CelKey::Str(k) && k@ == (#[trigger] nodes@[t]).0@)
                &&& match nodes@[t].1 {
                    Token::Value(x) => same_value(x, out@[t].1),
                    Token::Node(inner) => mirrors(inner@, out@[t].1),
                }
            },
    {
        let key = CelKey::Str(owned(nodes[j].0.as_str()));
        let value = match &nodes[j].1 {
            Token::Value(x) => x.duplicate(),
            Token::Node(inner) => {
                proof {
                    lemma_node_decreases(*nodes, j as int, *inner);
                }
                cel_map_rec(inner)
            },
        };
        out.push((key, value));
    }
    CelValue::Entries(out)
}

/// Values stored by property path, read back by path or as one CEL map.
pub struct AttributeStore {
    data: Vec<(String, Token<CelValue>)>,
}

impl AttributeStore {
    /// The tree of stored values.
    pub closed spec fn tree(&self) -> Seq<(String, Token<CelValue>)> {
        self.data@
    }

    /// The value stored at `path`, if any.
    pub open spec fn value_at(&self, path: Seq<Seq<char>>) -> Option<CelValue> {
        leaf_at(self.tree(), path)
    }

    /// An empty store.
    pub fn new() -> (res: AttributeStore)
        ensures
            holds_nothing(res.tree()),
            res.tree().len() == 0,
    {
        let res = AttributeStore { data: Vec::new() };
        proof {
            lemma_empty_holds_nothing(res.data@);
        }
        res
    }

    /// The tree of stored values, by first token.
    pub fn data(&self) -> (res: &Vec<(String, Token<CelValue>)>)
        ensures
            res@ == self.tree(),
    {
        &self.data
    }

    /// Stores `val` at `path`, unless a value is already stored at a proper
    /// prefix of the path: that value stands for everything below it.
    pub fn add(&mut self, path: Path, val: CelValue)
        ensures
            stored_at(old(self).tree(), path@, val, final(self).tree()),
    {
        let toks = path.tokens();
        proof {
            assert(token_views(toks@) =~= path@);
            assert(token_views(toks@).skip(0) =~= path@);
        }
        if toks.len() > 0 {
            add_rec(&mut self.data, &toks, 0, val);
        }
    }

    /// Whether a value is stored at `path` itself.
    pub fn contains_path(&self, path: &Path) -> (res: bool)
        ensures
            res == self.value_at(path@) is Some,
    {
        let toks = path.tokens();
        proof {
            assert(token_views(toks@).skip(0) =~= path@);
        }
        contains_rec(&self.data, &toks, 0)
    }

    /// The stored values as one CEL map, nested by path.
    pub fn cel_map(&self) -> (res: CelValue)
        ensures
            mirrors(self.tree(), res),
    {
        cel_map_rec(&self.data)
    }
}

/// The attributes that an expression reads, nested by path.
pub struct AttributeMap {
    data: Vec<(String, Token<Attribute>)>,
}

impl AttributeMap {
    /// The tree of attributes.
    pub closed spec fn tree(&self) -> Seq<(String, Token<Attribute>)> {
        self.data@
    }

    /// The map of the attributes, each stored at its path in turn, as
    /// `AttributeStore::add` stores values.
    pub fn new(attributes: Vec<Attribute>) -> (res: AttributeMap)
        ensures
            exists|trees: Seq<Seq<(String, Token<Attribute>)>>| {
                &&& trees.len() == attributes@.len() + 1
                &&& holds_nothing(trees[0])
                &&& trees.last() == res.tree()
                &&& forall|i: int| 0 <= i < attributes@.len() ==> stored_at(
                    #[trigger] trees[i], attributes@[i].path@, attributes@[i], trees[i + 1])
            },
    {
        let mut root: Vec<(String, Token<Attribute>)> = Vec::new();
        let mut rest = attributes;
        let n = rest.len();
        let ghost mut trees: Seq<Seq<(String, Token<Attribute>)>> = seq![root@];
        proof {
            lemma_empty_holds_nothing(root@);
        }
        for i in 0..n
            invariant
                n == attributes@.len(),
                rest@ == attributes@.skip(i as int),
                trees.len() == i + 1,
                holds_nothing(trees[0]),
                trees.last() == root@,
                forall|t: int| 0 <= t < i ==> stored_at(
                    #[trigger] trees[t], attributes@[t].path@, attributes@[t], trees[t + 1]),
        {
            let attr = rest.remove(0);
            assert(attr == attributes@[i as int]);
            let path = attr.path.duplicate();
            let toks = path.tokens();
            let ghost before = root@;
            proof {
                assert(token_views(toks@) =~= attr.path@);
                assert(token_views(toks@).skip(0) =~= attr.path@);
                assert(rest@ =~= attributes@.skip(i + 1));
            }
            if toks.len() > 0 {
                add_rec(&mut root, &toks, 0, attr);
            }
            proof {
                assert(stored_at(before, attributes@[i as int].path@, attributes@[i as int], root@));
                trees = trees.push(root@);
            }
        }
        AttributeMap { data: root }
    }

    /// The tree of attributes, by first token.
    pub fn data(&self) -> (res: &Vec<(String, Token<Attribute>)>)
        ensures
            res@ == self.tree(),
    {
        &self.data
    }
}


/// What `add` stores is what `contains_path` and `value_at` read back: the
/// value at its own path, when no value at a proper prefix of the path
/// stands for it already, and otherwise no change at all.
pub proof fn law_read_after_add(s1: AttributeStore, path: Seq<Seq<char>>, v: CelValue, s2: AttributeStore)
    requires
        stored_at(s1.tree(), path, v, s2.tree()),
    ensures
        path.len() > 0 && !blocked(s1.tree(), path) ==> s2.value_at(path) == Some(v),
        path.len() == 0 || blocked(s1.tree(), path) ==> forall|r: Seq<Seq<char>>| #[trigger] s2.value_at(r) == s1.value_at(r),
{
}

} // verus!
