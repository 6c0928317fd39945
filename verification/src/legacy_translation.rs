//! Translation of legacy actions into typed actions whose gRPC messages are
//! built by CEL expressions. Everything here builds CEL source text.
use crate::text::{join_seq, lemma_join_step, views};
use vstd::prelude::*;

pub mod auth;
pub mod ratelimit;

verus! {

/// The CEL string-literal escape of one character.
pub open spec fn escape_char(c: char) -> Seq<char> {
    if c == '\\' {
        seq!['\\', '\\']
    } else if c == '"' {
        seq!['\\', '"']
    } else if c == '\n' {
        seq!['\\', 'n']
    } else if c == '\r' {
        seq!['\\', 'r']
    } else if c == '\t' {
        seq!['\\', 't']
    } else {
        seq![c]
    }
}

/// `s` with backslash, double quote, newline, carriage return and tab
/// escaped, character by character.
pub open spec fn escaped(s: Seq<char>) -> Seq<char>
    decreases s.len(),
{
    if s.len() == 0 {
        Seq::empty()
    } else {
        escaped(s.drop_last()) + escape_char(s.last())
    }
}

/// The character that `\\` followed by `c` stands for in a CEL string
/// literal: newline, carriage return and tab for `n`, `r` and `t`, and `c`
/// itself otherwise.
pub open spec fn unescape_char(c: char) -> char {
    if c == 'n' {
        '\n'
    } else if c == 'r' {
        '\r'
    } else if c == 't' {
        '\t'
    } else {
        c
    }
}

/// The characters that the body `t` of a CEL string literal stands for,
/// read left to right: a backslash and the character after it stand for
/// one character, as `unescape_char` says; any other character stands for
/// itself.
pub open spec fn unescaped(t: Seq<char>) -> Seq<char>
    decreases t.len(),
{
    if t.len() == 0 {
        Seq::empty()
    } else if t[0] == '\\' && t.len() >= 2 {
        seq![unescape_char(t[1])] + unescaped(t.subrange(2, t.len() as int))
    } else {
        seq![t[0]] + unescaped(t.drop_first())
    }
}

/// Whether escaping `c` puts a backslash before it.
pub open spec fn is_escaped_special(c: char) -> bool {
    c == '\\' || c == '"' || c == '\n' || c == '\r' || c == '\t'
}

/// How many characters of `s` escaping puts a backslash before.
pub open spec fn special_count(s: Seq<char>) -> nat
    decreases s.len(),
{
    if s.len() == 0 {
        0
    } else {
        special_count(s.drop_last()) + if is_escaped_special(s.last()) {
            1nat
        } else {
            0nat
        }
    }
}

/// Escaping a concatenation escapes each part.
proof fn lemma_escaped_append(a: Seq<char>, b: Seq<char>)
    ensures
        escaped(a + b) == escaped(a) + escaped(b),
    decreases b.len(),
{
    if b.len() == 0 {
        assert(a + b =~= a);
        assert(escaped(a) + escaped(b) =~= escaped(a));
    } else {
        assert((a + b).drop_last() =~= a + b.drop_last());
        assert((a + b).last() == b.last());
        lemma_escaped_append(a, b.drop_last());
        assert(escaped(a) + escaped(b.drop_last()) + escape_char(b.last()) =~= escaped(a) + (escaped(
            b.drop_last(),
        ) + escape_char(b.last())));
    }
}

/// Escaping, then reading the literal back, gives back the string; the
/// escaped text is one character longer for each backslash, double quote,
/// newline, carriage return and tab, and holds no newline, carriage return
/// or tab.
pub proof fn lemma_escaped_round_trip(s: Seq<char>)
    ensures
        unescaped(escaped(s)) == s,
        escaped(s).len() == s.len() + special_count(s),
        forall|i: int|
            0 <= i < escaped(s).len() ==> #[trigger] escaped(s)[i] != '\n' && escaped(s)[i] != '\r'
                && escaped(s)[i] != '\t',
    decreases s.len(),
{
    if s.len() == 0 {
        assert(unescaped(Seq::<char>::empty()) == Seq::<char>::empty());
    } else {
        let c = s[0];
        let rest = s.drop_first();
        lemma_escaped_round_trip(rest);
        lemma_escaped_append(seq![c], rest);
        assert(seq![c] + rest =~= s);
        assert(seq![c].drop_last() =~= Seq::<char>::empty());
        assert(seq![c].last() == c);
        assert(escaped(Seq::<char>::empty()) == Seq::<char>::empty());
        assert(escaped(seq![c]) == escaped(seq![c].drop_last()) + escape_char(c));
        assert(escaped(seq![c]) =~= escape_char(c));
        let t = escaped(s);
        assert(t == escape_char(c) + escaped(rest));
        if is_escaped_special(c) {
            assert(t.subrange(2, t.len() as int) =~= escaped(rest));
            assert(t[0] == '\\' && t.len() >= 2);
            assert(unescape_char(t[1]) == c);
        } else {
            assert(t.drop_first() =~= escaped(rest));
            assert(t[0] == c);
        }
        assert(unescaped(t) =~= s);
        lemma_special_count_front(s);
        assert forall|i: int| 0 <= i < t.len() implies #[trigger] t[i] != '\n' && t[i] != '\r' && t[i] != '\t' by {
            let k = escape_char(c).len() as int;
            if i >= k {
                assert(t[i] == escaped(rest)[i - k]);
            }
        }
    }
}

/// Counting the special characters from the front.
proof fn lemma_special_count_front(s: Seq<char>)
    requires
        s.len() > 0,
    ensures
        special_count(s) == special_count(s.drop_first()) + if is_escaped_special(s[0]) {
            1nat
        } else {
            0nat
        },
    decreases s.len(),
{
    if s.len() > 1 {
        lemma_special_count_front(s.drop_last());
        assert(s.drop_last().drop_first() =~= s.drop_first().drop_last());
        assert(s.drop_first().last() == s.last());
    } else {
        assert(s.drop_first() =~= Seq::<char>::empty());
        assert(s.drop_last() =~= Seq::<char>::empty());
    }
}

/// `s` escaped and put between double quotes: a CEL string literal.
pub open spec fn quoted(s: Seq<char>) -> Seq<char> {
    seq!['"'] + escaped(s) + seq!['"']
}

/// Escapes `s` for use inside a double-quoted CEL string literal.
pub fn escape_cel_string(s: &str) -> (res: String)
    ensures
        res@ == escaped(s@),
{
    broadcast use vstd::string::group_string_axioms;

    let mut r = String::new();
    for c in it: s.chars()
        invariant
            it.seq() == s@,
            r@ == escaped(s@.take(it.index() as int)),
    {
        assert(s@.take(it.index() + 1).drop_last() =~= s@.take(it.index() as int));
        if c == '\\' {
            r.push('\\');
            r.push('\\');
        } else if c == '"' {
            r.push('\\');
            r.push('"');
        } else if c == '\n' {
            r.push('\\');
            r.push('n');
        } else if c == '\r' {
            r.push('\\');
            r.push('r');
        } else if c == '\t' {
            r.push('\\');
            r.push('t');
        } else {
            r.push(c);
        }
    }
    assert(s@.take(s@.len() as int) =~= s@);
    r
}

/// Each predicate between parentheses.
pub open spec fn parenthesized(preds: Seq<Seq<char>>) -> Seq<Seq<char>> {
    preds.map_values(|p: Seq<char>| seq!['('] + p + seq![')'])
}

/// The CEL conjunction (or other combination by `op`) of `preds`: `true`
/// when there are none, the predicate itself when there is one, and each
/// predicate parenthesized and separated by ` op ` otherwise.
pub open spec fn joined_predicates(preds: Seq<Seq<char>>, op: Seq<char>) -> Seq<char> {
    if preds.len() == 0 {
        "true"@
    } else if preds.len() == 1 {
        preds[0]
    } else {
        join_seq(parenthesized(preds), seq![' '] + op + seq![' '])
    }
}

/// Combines predicates with the operator `op`.
pub fn join_predicates(predicates: &[String], op: &str) -> (res: String)
    ensures
        res@ == joined_predicates(views(predicates@), op@),
{
    let n = predicates.len();
    if n == 0 {
        return String::from_str("true");
    }
    if n == 1 {
        return predicates[0].clone();
    }
    let mut sep = String::new();
    sep.push(' ');
    sep.push_str(op);
    sep.push(' ');
    let ghost parts = parenthesized(views(predicates@));
    let mut r = String::new();
    for i in 0..n
        invariant
            n == predicates@.len(),
            parts == parenthesized(views(predicates@)),
            sep@ == seq![' '] + op@ + seq![' '],
            r@ == join_seq(parts.take(i as int), sep@),
    {
        proof {
            lemma_join_step(parts, sep@, i as int);
        }
        if i > 0 {
            r.push_str(sep.as_str());
        }
        r.push('(');
        r.push_str(predicates[i].as_str());
        r.push(')');
        assert(parts[i as int] == seq!['('] + predicates@[i as int]@ + seq![')']);
    }
    assert(parts.take(n as int) =~= parts);
    r
}

/// The predicate of an action: the conjunction of its predicates.
pub fn build_action_predicate(action_predicates: &[String]) -> (res: String)
    ensures
        res@ == joined_predicates(views(action_predicates@), "&&"@),
{
    join_predicates(action_predicates, "&&")
}

} // verus!
