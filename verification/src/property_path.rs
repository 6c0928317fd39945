//! Property paths: dot-separated tokens, where a backslash makes the next
//! character part of the current token.
use crate::text::{join, join_seq, lemma_join_step, views};
use vstd::prelude::*;

verus! {

/// A property path: a non-empty sequence of tokens.
#[derive(Debug)]
pub struct Path {
    tokens: Vec<String>,
}

impl View for Path {
    type V = Seq<Seq<char>>;

    closed spec fn view(&self) -> Seq<Seq<char>> {
        views(self.tokens@)
    }
}

/// The state of the tokenizer: tokens completed, the token being read, and
/// whether the previous character was an unconsumed backslash.
pub type ScanState = (Seq<Seq<char>>, Seq<char>, bool);

/// The tokenizer's step on one character.
pub open spec fn scan_step(st: ScanState, c: char) -> ScanState {
    if st.2 {
        (st.0, st.1.push(c), false)
    } else if c == '.' {
        (st.0.push(st.1), Seq::empty(), false)
    } else if c == '\\' {
        (st.0, st.1, true)
    } else {
        (st.0, st.1.push(c), false)
    }
}

/// The tokenizer's state after reading `s` from `st`.
pub open spec fn scan_from(st: ScanState, s: Seq<char>) -> ScanState
    decreases s.len(),
{
    if s.len() == 0 {
        st
    } else {
        scan_step(scan_from(st, s.drop_last()), s.last())
    }
}

/// The state the tokenizer starts from.
pub open spec fn scan_start() -> ScanState {
    (Seq::empty(), Seq::empty(), false)
}

/// The tokens of a path's text: split at each `.` that is not escaped,
/// with each backslash dropped and the character after it kept; a
/// trailing backslash is dropped.
pub open spec fn tokenize(s: Seq<char>) -> Seq<Seq<char>> {
    let st = scan_from(scan_start(), s);
    st.0.push(st.1)
}

/// A token with each `.` escaped by a backslash.
pub open spec fn escape_dots(t: Seq<char>) -> Seq<char>
    decreases t.len(),
{
    if t.len() == 0 {
        Seq::empty()
    } else if t.last() == '.' {
        escape_dots(t.drop_last()) + seq!['\\', '.']
    } else {
        escape_dots(t.drop_last()).push(t.last())
    }
}

/// The text of a path: its tokens with dots escaped, joined by `.`.
pub open spec fn path_text(tokens: Seq<Seq<char>>) -> Seq<char> {
    join_seq(tokens.map_values(|t: Seq<char>| escape_dots(t)), "."@)
}

impl Path {
    /// A path has at least one token.
    #[verifier::type_invariant]
    closed spec fn has_a_token(&self) -> bool {
        self.tokens@.len() >= 1
    }

    /// Reads a path from its text.
    pub fn parse(value: &str) -> (res: Path)
        ensures
            res@ == tokenize(value@),
    {
        broadcast use vstd::string::group_string_axioms;

        let mut token = String::new();
        let mut tokens: Vec<String> = Vec::new();
        let mut escaping = false;
        for ch in it: value.chars()
            invariant
                it.seq() == value@,
                scan_from(scan_start(), value@.take(it.index() as int)) == (
                    views(tokens@),
                    token@,
                    escaping,
                ),
        {
            assert(value@.take(it.index() + 1).drop_last() =~= value@.take(it.index() as int));
            if escaping {
                token.push(ch);
                escaping = false;
            } else if ch == '.' {
                let ghost old_tokens = views(tokens@);
                let ghost t = token@;
                tokens.push(token);
                token = String::new();
                assert(views(tokens@) =~= old_tokens.push(t));
            } else if ch == '\\' {
                escaping = true;
            } else {
                token.push(ch);
            }
        }
        assert(value@.take(value@.len() as int) =~= value@);
        let ghost old_tokens = views(tokens@);
        let ghost t = token@;
        tokens.push(token);
        assert(views(tokens@) =~= old_tokens.push(t));
        Path { tokens }
    }

    /// The path made of exactly the given tokens, of which there is at
    /// least one.
    pub fn from_tokens(tokens: &[&str]) -> (res: Path)
        requires
            tokens@.len() >= 1,
        ensures
            res@ == tokens@.map_values(|t: &str| t@),
    {
        let n = tokens.len();
        let mut ts: Vec<String> = Vec::new();
        for i in 0..n
            invariant
                n == tokens@.len(),
                ts@.len() == i,
                forall|k: int| 0 <= k < i ==> #[trigger] ts@[k]@ == tokens@[k]@,
        {
            ts.push(crate::text::owned(tokens[i]));
        }
        let res = Path { tokens: ts };
        assert(res@ =~= tokens@.map_values(|t: &str| t@));
        res
    }

    /// A copy of the path.
    pub fn duplicate(&self) -> (res: Path)
        ensures
            res@ == self@,
    {
        proof {
            use_type_invariant(self);
        }
        let n = self.tokens.len();
        let mut tokens: Vec<String> = Vec::new();
        for i in 0..n
            invariant
                n == self.tokens@.len(),
                tokens@.len() == i,
                forall|k: int| 0 <= k < i ==> #[trigger] tokens@[k]@ == self.tokens@[k]@,
        {
            tokens.push(self.tokens[i].clone());
        }
        let res = Path { tokens };
        assert(res@ =~= self@);
        res
    }

    /// The number of tokens.
    pub fn len(&self) -> (res: usize)
        ensures
            res == self@.len(),
            res >= 1,
    {
        proof {
            use_type_invariant(self);
        }
        self.tokens.len()
    }

    /// Whether the path is exactly the given tokens.
    pub fn is(&self, tokens: &[&str]) -> (res: bool)
        ensures
            res == (self@ == tokens@.map_values(|t: &str| t@)),
    {
        let ghost ts = tokens@.map_values(|t: &str| t@);
        if self.tokens.len() != tokens.len() {
            assert(self@.len() != ts.len());
            return false;
        }
        let n = tokens.len();
        for i in 0..n
            invariant
                n == tokens@.len(),
                n == self.tokens@.len(),
                ts == tokens@.map_values(|t: &str| t@),
                forall|k: int| 0 <= k < i ==> self@[k] == ts[k],
        {
            if !crate::text::same_text(&self.tokens[i], tokens[i]) {
                assert(self@[i as int] != ts[i as int]);
                return false;
            }
        }
        assert(self@ =~= ts);
        true
    }

    /// Whether two paths have the same tokens.
    pub fn same_as(&self, other: &Path) -> (res: bool)
        ensures
            res == (self@ == other@),
    {
        if self.tokens.len() != other.tokens.len() {
            assert(self@.len() != other@.len());
            return false;
        }
        let n = self.tokens.len();
        for i in 0..n
            invariant
                n == self.tokens@.len(),
                n == other.tokens@.len(),
                forall|k: int| 0 <= k < i ==> self@[k] == other@[k],
        {
            if self.tokens[i] != other.tokens[i] {
                assert(self@[i as int] != other@[i as int]);
                return false;
            }
        }
        assert(self@ =~= other@);
        true
    }

    /// Whether the path's first token is `first`.
    pub fn starts_with(&self, first: &str) -> (res: bool)
        ensures
            res == (self@.len() > 0 && self@[0] == first@),
    {
        self.tokens.len() > 0 && crate::text::same_text(&self.tokens[0], first)
    }

    /// The tokens of the path.
    pub fn tokens(&self) -> (res: Vec<&str>)
        ensures
            res@.len() == self@.len(),
            forall|i: int| 0 <= i < res@.len() ==> #[trigger] res@[i]@ == self@[i],
            res@.len() >= 1,
    {
        proof {
            use_type_invariant(self);
        }
        let mut res: Vec<&str> = Vec::new();
        let n = self.tokens.len();
        for i in 0..n
            invariant
                n == self.tokens@.len(),
                res@.len() == i,
                forall|k: int| 0 <= k < i ==> #[trigger] res@[k]@ == self@[k],
        {
            res.push(self.tokens[i].as_str());
        }
        res
    }

    /// The path's text, with dots inside tokens escaped. Read back, the
    /// text gives the path again when no token holds a backslash.
    pub fn to_string(&self) -> (res: String)
        ensures
            res@ == path_text(self@),
            self@.len() >= 1,
            backslash_free(self@) ==> tokenize(res@) == self@,
    {
        proof {
            use_type_invariant(self);
            if backslash_free(self@) {
                lemma_path_text_roundtrip(self@);
            }
        }
        let n = self.tokens.len();
        let mut parts: Vec<String> = Vec::new();
        for i in 0..n
            invariant
                n == self.tokens@.len(),
                parts@.len() == i,
                forall|k: int| 0 <= k < i ==> #[trigger] parts@[k]@ == escape_dots(self@[k]),
        {
            parts.push(escape_token_dots(self.tokens[i].as_str()));
        }
        assert(views(parts@) =~= self@.map_values(|t: Seq<char>| escape_dots(t)));
        join(&parts, ".")
    }
}

impl<'a> From<&'a str> for Path {
    /// Reads a path from its text: `Path::parse`.
    fn from(value: &'a str) -> (res: Path)
        ensures
            res@ == tokenize(value@),
    {
        Path::parse(value)
    }
}

impl<'a> vstd::std_specs::convert::FromSpecImpl<&'a str> for Path {
    open spec fn obeys_from_spec() -> bool {
        false
    }

    open spec fn from_spec(v: &'a str) -> Path {
        arbitrary()
    }
}

/// Escapes each `.` of a token with a backslash.
fn escape_token_dots(t: &str) -> (res: String)
    ensures
        res@ == escape_dots(t@),
{
    broadcast use vstd::string::group_string_axioms;

    let mut r = String::new();
    for c in it: t.chars()
        invariant
            it.seq() == t@,
            r@ == escape_dots(t@.take(it.index() as int)),
    {
        assert(t@.take(it.index() + 1).drop_last() =~= t@.take(it.index() as int));
        if c == '.' {
            r.push('\\');
            r.push('.');
        } else {
            r.push(c);
        }
    }
    assert(t@.take(t@.len() as int) =~= t@);
    r
}

/// Whether no token holds a backslash.
pub open spec fn backslash_free(tokens: Seq<Seq<char>>) -> bool {
    forall|i: int, j: int| 0 <= i < tokens.len() && 0 <= j < tokens[i].len() ==> tokens[i][j] != '\\'
}

/// Reading `a + b` is reading `a`, then `b`.
pub proof fn lemma_scan_append(st: ScanState, a: Seq<char>, b: Seq<char>)
    ensures
        scan_from(st, a + b) == scan_from(scan_from(st, a), b),
    decreases b.len(),
{
    if b.len() == 0 {
        assert(a + b =~= a);
    } else {
        assert((a + b).drop_last() =~= a + b.drop_last());
        assert((a + b).last() == b.last());
        lemma_scan_append(st, a, b.drop_last());
    }
}

/// Reading an escaped backslash-free token appends it to the current token.
proof fn lemma_scan_escaped_token(st: ScanState, t: Seq<char>)
    requires
        !st.2,
        forall|j: int| 0 <= j < t.len() ==> t[j] != '\\',
    ensures
        scan_from(st, escape_dots(t)) == (st.0, st.1 + t, false),
    decreases t.len(),
{
    if t.len() == 0 {
        assert(st.1 + t =~= st.1);
    } else {
        let tp = t.drop_last();
        let c = t.last();
        assert(c == t[t.len() - 1]);
        assert(c != '\\');
        assert forall|j: int| 0 <= j < tp.len() implies tp[j] != '\\' by {
            assert(tp[j] == t[j]);
        }
        lemma_scan_escaped_token(st, tp);
        let mid = (st.0, st.1 + tp, false);
        assert(scan_from(mid, Seq::<char>::empty()) == mid);
        if c == '.' {
            lemma_scan_append(st, escape_dots(tp), seq!['\\', '.']);
            assert(seq!['\\', '.'].drop_last() =~= seq!['\\']);
            assert(seq!['\\'].drop_last() =~= Seq::<char>::empty());
            assert(scan_from(mid, seq!['\\']) == scan_step(mid, '\\'));
            assert(scan_from(mid, seq!['\\']) == (st.0, st.1 + tp, true));
            assert(scan_from(mid, seq!['\\', '.']) == scan_step(scan_from(mid, seq!['\\']), '.'));
        } else {
            lemma_scan_append(st, escape_dots(tp), seq![c]);
            assert(seq![c].drop_last() =~= Seq::<char>::empty());
            assert(scan_from(mid, seq![c]) == scan_step(mid, c));
            assert(escape_dots(t) == escape_dots(tp).push(c));
            assert(escape_dots(tp).push(c) =~= escape_dots(tp) + seq![c]);
        }
        assert((st.1 + tp).push(c) =~= st.1 + t);
    }
}

/// Reading the text of non-empty backslash-free tokens completes all of
/// them but the last, which is being read.
proof fn lemma_scan_path_text(tokens: Seq<Seq<char>>)
    requires
        tokens.len() >= 1,
        backslash_free(tokens),
    ensures
        scan_from(scan_start(), path_text(tokens)) == (tokens.drop_last(), tokens.last(), false),
    decreases tokens.len(),
{
    let es = tokens.map_values(|t: Seq<char>| escape_dots(t));
    let last = tokens.last();
    assert(forall|j: int| 0 <= j < last.len() ==> last[j] != '\\') by {
        assert forall|j: int| 0 <= j < last.len() implies last[j] != '\\' by {
            assert(tokens[tokens.len() - 1] == last);
        }
    }
    if tokens.len() == 1 {
        lemma_scan_escaped_token(scan_start(), tokens[0]);
        assert(Seq::<char>::empty() + tokens[0] =~= tokens[0]);
        assert(tokens.drop_last() =~= Seq::<Seq<char>>::empty());
    } else {
        let init = tokens.drop_last();
        assert(backslash_free(init)) by {
            assert forall|i: int, j: int| 0 <= i < init.len() && 0 <= j < init[i].len() implies init[i][j] != '\\' by {
                assert(init[i] == tokens[i]);
            }
        }
        lemma_scan_path_text(init);
        assert(es.drop_last() =~= init.map_values(|t: Seq<char>| escape_dots(t)));
        reveal_strlit(".");
        let j = join_seq(es.drop_last(), "."@);
        assert(path_text(tokens) == j + "."@ + escape_dots(last));
        lemma_scan_append(scan_start(), j + "."@, escape_dots(last));
        lemma_scan_append(scan_start(), j, "."@);
        assert("."@.drop_last() =~= Seq::<char>::empty());
        let before_dot = scan_from(scan_start(), j);
        assert(scan_from(before_dot, Seq::<char>::empty()) == before_dot);
        assert(scan_from(before_dot, "."@) == scan_step(before_dot, '.'));
        let after_dot = scan_from(scan_start(), j + "."@);
        assert(init.drop_last().push(init.last()) =~= init);
        assert(after_dot == (init, Seq::<char>::empty(), false));
        lemma_scan_escaped_token(after_dot, last);
        assert(Seq::<char>::empty() + last =~= last);
    }
}

/// Whether `s` ends in a backslash that escapes the character after it:
/// one that is not itself escaped.
pub open spec fn pending_backslash(s: Seq<char>) -> bool
    decreases s.len(),
{
    if s.len() == 0 {
        false
    } else if pending_backslash(s.drop_last()) {
        false
    } else {
        s.last() == '\\'
    }
}

/// The number of dots of `s` that no backslash escapes.
pub open spec fn unescaped_dots(s: Seq<char>) -> nat
    decreases s.len(),
{
    if s.len() == 0 {
        0
    } else {
        unescaped_dots(s.drop_last()) + if s.last() == '.' && !pending_backslash(s.drop_last()) {
            1nat
        } else {
            0nat
        }
    }
}

/// The tokenizer completes a token at each unescaped dot, and is left
/// escaping exactly after a pending backslash.
proof fn lemma_scan_counts(s: Seq<char>)
    ensures
        scan_from(scan_start(), s).0.len() == unescaped_dots(s),
        scan_from(scan_start(), s).2 == pending_backslash(s),
    decreases s.len(),
{
    if s.len() > 0 {
        lemma_scan_counts(s.drop_last());
    }
}

/// A path's text has one token more than it has unescaped dots.
pub proof fn lemma_token_count(s: Seq<char>)
    ensures
        tokenize(s).len() == 1 + unescaped_dots(s),
{
    lemma_scan_counts(s);
}

/// Reading the text of a path gives back its tokens, when no token holds a
/// backslash: the text escapes only dots.
pub proof fn lemma_path_text_roundtrip(tokens: Seq<Seq<char>>)
    requires
        tokens.len() >= 1,
        backslash_free(tokens),
    ensures
        tokenize(path_text(tokens)) == tokens,
{
    lemma_scan_path_text(tokens);
    assert(tokens.drop_last().push(tokens.last()) =~= tokens);
}

} // verus!
