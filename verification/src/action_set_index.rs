//! The index of action sets by hostname: each hostname pattern (exact, or
//! a `*.` wildcard over its subdomains) is kept reversed in a radix trie,
//! so that the longest matching pattern is the longest stored prefix of
//! the reversed hostname.
use radix_trie::Trie;
use vstd::prelude::*;

verus! {

/// `radix_trie::Trie`, a radix tree from keys to values.
#[verifier::external_type_specification]
#[verifier::external_body]
#[verifier::reject_recursive_types(K)]
#[verifier::reject_recursive_types(V)]
pub struct ExTrie<K, V>(Trie<K, V>);

/// The contents of a trie of reversed hostname patterns: from each key to
/// the indices of the action sets stored under it.
pub uninterp spec fn trie_contents(t: Trie<String, Vec<usize>>) -> Map<Seq<char>, Seq<usize>>;

/// The contents of an empty trie.
pub open spec fn no_contents() -> Map<Seq<char>, Seq<usize>> {
    Map::empty()
}

/// `Trie::new`: an empty trie.
#[verifier::external_body]
fn trie_new() -> (res: Trie<String, Vec<usize>>)
    ensures
        trie_contents(res) == no_contents(),
{
    Trie::new()
}

/// `Trie::get`, the value cloned: the value stored under `key`.
#[verifier::external_body]
fn trie_get(t: &Trie<String, Vec<usize>>, key: &String) -> (res: Option<Vec<usize>>)
    ensures
        match res {
            Some(v) => trie_contents(*t).contains_key(key@) && v@ == trie_contents(*t)[key@],
            None => !trie_contents(*t).contains_key(key@),
        },
{
    t.get(key).cloned()
}

/// `Trie::insert`: stores `value` under `key`, replacing what was there.
#[verifier::external_body]
fn trie_insert(t: &mut Trie<String, Vec<usize>>, key: String, value: Vec<usize>)
    ensures
        trie_contents(*final(t)) == trie_contents(*old(t)).insert(key@, value@),
{
    t.insert(key, value);
}

/// Whether `p` is a prefix of `s`.
pub open spec fn is_prefix(p: Seq<char>, s: Seq<char>) -> bool {
    p.len() <= s.len() && s.subrange(0, p.len() as int) == p
}

/// Whether `k` is the longest key of `m` that is a prefix of `key`.
pub open spec fn is_longest_prefix_key<V>(m: Map<Seq<char>, V>, key: Seq<char>, k: Seq<char>) -> bool {
    &&& m.contains_key(k)
    &&& is_prefix(k, key)
    &&& forall|k2: Seq<char>| m.contains_key(k2) && is_prefix(k2, key) ==> k2.len() <= k.len()
}

/// `Trie::get_ancestor_value`, the value cloned: the value stored under the
/// longest key that is a prefix of `key`. The trie compares UTF-8 bytes; a
/// byte prefix of valid UTF-8 that is itself valid UTF-8 is a character
/// prefix, so this is stated over characters.
#[verifier::external_body]
fn trie_get_ancestor_value(t: &Trie<String, Vec<usize>>, key: &String) -> (res: Option<Vec<usize>>)
    ensures
        match res {
            Some(v) => exists|k: Seq<char>| is_longest_prefix_key(trie_contents(*t), key@, k) && v@ == trie_contents(*t)[k],
            None => forall|k: Seq<char>| trie_contents(*t).contains_key(k) ==> !is_prefix(k, key@),
        },
{
    t.get_ancestor_value(key.as_str()).cloned()
}

/// The trie key of a hostname pattern or a hostname: a trailing `.` added,
/// then a leading `*` dropped (a wildcard) or a `$` put in front (an exact
/// name), and the whole reversed.
pub open spec fn reversed_subdomain(subdomain: Seq<char>) -> Seq<char> {
    let s = subdomain + "."@;
    let t = if s[0] == '*' { s.drop_first() } else { seq!['$'] + s };
    t.reverse()
}

/// The index of action sets by hostname pattern.
pub struct ActionSetIndex<T> {
    raw_tree: Trie<String, Vec<usize>>,
    action_sets: Vec<T>,
}

impl<T> ActionSetIndex<T> {
    /// Every index stored in the trie names an action set.
    #[verifier::type_invariant]
    closed spec fn inv(&self) -> bool {
        forall|k: Seq<char>, i: int|
            #![trigger trie_contents(self.raw_tree)[k][i]]
            trie_contents(self.raw_tree).contains_key(k) && 0 <= i < trie_contents(self.raw_tree)[k].len()
                ==> trie_contents(self.raw_tree)[k][i] < self.action_sets@.len()
    }

    /// The action sets stored under each trie key, in the order inserted.
    pub closed spec fn entries(&self) -> Map<Seq<char>, Seq<T>> {
        Map::new(
            |k: Seq<char>| trie_contents(self.raw_tree).contains_key(k),
            |k: Seq<char>| trie_contents(self.raw_tree)[k].map_values(|i: usize| self.action_sets@[i as int]),
        )
    }

    /// An empty index.
    pub fn new() -> (res: Self)
        ensures
            res.entries() == Map::<Seq<char>, Seq<T>>::empty(),
    {
        let res = ActionSetIndex { raw_tree: trie_new(), action_sets: Vec::new() };
        assert(res.entries() =~= Map::<Seq<char>, Seq<T>>::empty());
        res
    }

    /// Adds an action set under a hostname pattern, after those already there.
    pub fn insert(&mut self, subdomain: &str, action_set: T)
        ensures
            final(self).entries() == old(self).entries().insert(
                reversed_subdomain(subdomain@),
                if old(self).entries().contains_key(reversed_subdomain(subdomain@)) {
                    old(self).entries()[reversed_subdomain(subdomain@)].push(action_set)
                } else {
                    seq![action_set]
                },
            ),
    {
        proof {
            use_type_invariant(&*self);
        }
        let rev = Self::reverse_subdomain(subdomain);
        let idx = self.action_sets.len();
        let ghost old_sets = self.action_sets@;
        let ghost old_contents = trie_contents(self.raw_tree);
        let current = trie_get(&self.raw_tree, &rev);
        let mut tree = trie_new();
        std::mem::swap(&mut tree, &mut self.raw_tree);
        let mut sets: Vec<T> = Vec::new();
        std::mem::swap(&mut sets, &mut self.action_sets);
        sets.push(action_set);
        let value = match current {
            Some(mut v) => {
                v.push(idx);
                v
            },
            None => {
                let mut v = Vec::new();
                v.push(idx);
                v
            },
        };
        let ghost vv = value@;
        let ghost rk = rev@;
        trie_insert(&mut tree, rev, value);
        proof {
            assert forall|k: Seq<char>, i: int|
                trie_contents(tree).contains_key(k) && 0 <= i < trie_contents(tree)[k].len()
                    implies #[trigger] trie_contents(tree)[k][i] < sets@.len() by {
                if k != rk {
                    assert(trie_contents(tree)[k] == old_contents[k]);
                    assert(old_contents[k][i] < old_sets.len());
                } else if i < vv.len() - 1 {
                    assert(old_contents[k][i] < old_sets.len());
                }
            }
        }
        self.action_sets = sets;
        self.raw_tree = tree;
        proof {
            let new_entries = old(self).entries().insert(
                reversed_subdomain(subdomain@),
                if old(self).entries().contains_key(reversed_subdomain(subdomain@)) {
                    old(self).entries()[reversed_subdomain(subdomain@)].push(action_set)
                } else {
                    seq![action_set]
                },
            );
            assert forall|k: Seq<char>| #[trigger] self.entries().contains_key(k) implies self.entries()[k] =~= new_entries[k] by {
                if k != rk {
                    assert forall|i: int| 0 <= i < old_contents[k].len() implies self.action_sets@[old_contents[k][i] as int] == old_sets[old_contents[k][i] as int] by {
                        assert(old_contents[k][i] < old_sets.len());
                    }
                } else {
                    if old_contents.contains_key(k) {
                        assert forall|i: int| 0 <= i < old_contents[k].len() implies self.action_sets@[old_contents[k][i] as int] == old_sets[old_contents[k][i] as int] by {
                            assert(old_contents[k][i] < old_sets.len());
                        }
                    }
                }
            }
            assert(self.entries().dom() =~= new_entries.dom());
            assert(self.entries() =~= new_entries);
        }
    }

    /// The action sets of the longest pattern that matches `subdomain`.
    pub fn get_longest_match_action_sets(&self, subdomain: &str) -> (res: Option<Vec<&T>>)
        ensures
            match res {
                Some(v) => exists|k: Seq<char>|
                    #[trigger] is_longest_prefix_key(self.entries(), reversed_subdomain(subdomain@), k)
                    && v@.len() == self.entries()[k].len()
                    && (forall|i: int| 0 <= i < v@.len() ==> *v@[i] == #[trigger] self.entries()[k][i]),
                None => forall|k: Seq<char>| #[trigger] self.entries().contains_key(k) ==> !is_prefix(k, reversed_subdomain(subdomain@)),
            },
    {
        proof {
            use_type_invariant(self);
        }
        let rev = Self::reverse_subdomain(subdomain);
        match trie_get_ancestor_value(&self.raw_tree, &rev) {
            None => None,
            Some(indices) => {
                let ghost k = choose|k: Seq<char>| is_longest_prefix_key(trie_contents(self.raw_tree), rev@, k) && indices@ == trie_contents(self.raw_tree)[k];
                let mut res: Vec<&T> = Vec::new();
                let n = indices.len();
                for i in 0..n
                    invariant
                        n == indices@.len(),
                        indices@ == trie_contents(self.raw_tree)[k],
                        trie_contents(self.raw_tree).contains_key(k),
                        forall|j: int| 0 <= j < n ==> indices@[j] < self.action_sets@.len(),
                        res@.len() == i,
                        forall|j: int| 0 <= j < i ==> *res@[j] == self.action_sets@[indices@[j] as int],
                {
                    res.push(&self.action_sets[indices[i]]);
                }
                assert(self.entries().contains_key(k));
                assert(is_longest_prefix_key(self.entries(), reversed_subdomain(subdomain@), k));
                Some(res)
            },
        }
    }

    /// The trie key of a hostname pattern or a hostname.
    pub fn reverse_subdomain(subdomain: &str) -> (res: String)
        ensures
            res@ == reversed_subdomain(subdomain@),
    {
        let mut chars = crate::text::chars_of(subdomain);
        chars.push('.');
        let ghost s = subdomain@ + "."@;
        proof {
            reveal_strlit(".");
        }
        assert(chars@ =~= s);
        let t: Vec<char> = if chars[0] == '*' {
            let mut t = Vec::new();
            let n = chars.len();
            for i in 1..n
                invariant
                    n == chars@.len(),
                    t@ == chars@.subrange(1, i as int),
            {
                t.push(chars[i]);
                assert(chars@.subrange(1, i + 1) =~= chars@.subrange(1, i as int).push(chars@[i as int]));
            }
            assert(t@ =~= s.drop_first());
            t
        } else {
            let mut t = Vec::new();
            t.push('$');
            let n = chars.len();
            for i in 0..n
                invariant
                    n == chars@.len(),
                    t@ == seq!['$'] + chars@.take(i as int),
            {
                t.push(chars[i]);
                assert(chars@.take(i + 1) =~= chars@.take(i as int).push(chars@[i as int]));
            }
            assert(t@ =~= seq!['$'] + s);
            t
        };
        let mut r = String::new();
        let m = t.len();
        let mut i = m;
        while i > 0
            invariant
                m == t@.len(),
                i <= m,
                r@ == t@.subrange(i as int, m as int).reverse(),
            decreases i,
        {
            r.push(t[i - 1]);
            assert(t@.subrange(i - 1, m as int).reverse() =~= t@.subrange(i as int, m as int).reverse().push(t@[i - 1]));
            i -= 1;
        }
        assert(t@.subrange(0, m as int) =~= t@);
        r
    }
}

/// The index of policies by hostname pattern: the same index, over policies.
pub struct PolicyIndex<T>(ActionSetIndex<T>);

impl<T> PolicyIndex<T> {
    /// The policies stored under each trie key, in the order inserted.
    pub closed spec fn entries(&self) -> Map<Seq<char>, Seq<T>> {
        self.0.entries()
    }

    /// An empty index.
    pub fn new() -> (res: Self)
        ensures
            res.entries() == Map::<Seq<char>, Seq<T>>::empty(),
    {
        PolicyIndex(ActionSetIndex::new())
    }

    /// Adds a policy under a hostname pattern, after those already there.
    pub fn insert(&mut self, subdomain: &str, policy: T)
        ensures
            final(self).entries() == old(self).entries().insert(
                reversed_subdomain(subdomain@),
                if old(self).entries().contains_key(reversed_subdomain(subdomain@)) {
                    old(self).entries()[reversed_subdomain(subdomain@)].push(policy)
                } else {
                    seq![policy]
                },
            ),
    {
        self.0.insert(subdomain, policy);
    }

    /// The policies of the longest pattern that matches `subdomain`.
    pub fn get_longest_match_policies(&self, subdomain: &str) -> (res: Option<Vec<&T>>)
        ensures
            match res {
                Some(v) => exists|k: Seq<char>|
                    #[trigger] is_longest_prefix_key(self.entries(), reversed_subdomain(subdomain@), k)
                    && v@.len() == self.entries()[k].len()
                    && (forall|i: int| 0 <= i < v@.len() ==> *v@[i] == #[trigger] self.entries()[k][i]),
                None => forall|k: Seq<char>| #[trigger] self.entries().contains_key(k) ==> !is_prefix(k, reversed_subdomain(subdomain@)),
            },
    {
        let res = self.0.get_longest_match_action_sets(subdomain);
        proof {
            if res is Some {
                let v = res->0;
                let k = choose|k: Seq<char>|
                    #[trigger] is_longest_prefix_key(self.0.entries(), reversed_subdomain(subdomain@), k)
                    && v@.len() == self.0.entries()[k].len()
                    && (forall|i: int| 0 <= i < v@.len() ==> *v@[i] == #[trigger] self.0.entries()[k][i]);
                assert(is_longest_prefix_key(self.entries(), reversed_subdomain(subdomain@), k));
            }
        }
        res
    }
}

} // verus!
