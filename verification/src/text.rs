//! Text building blocks shared by the rest of the crate: character-level
//! string building, joining, substring search and the order of strings.
use vstd::prelude::*;

verus! {

/// `String::push` appends one character.
pub assume_specification[ String::push ](s: &mut String, ch: char)
    ensures
        final(s)@ == old(s)@.push(ch),
;

/// `String::push_str` appends the characters of a string slice.
pub assume_specification[ String::push_str ](s: &mut String, string: &str)
    ensures
        final(s)@ == old(s)@ + string@,
;

/// The number of bytes of the UTF-8 encoding of `s`.
pub open spec fn byte_len(s: Seq<char>) -> nat {
    vstd::utf8::encode_utf8(s).len()
}

/// The UTF-8 width of a character: the length of its encoding.
pub fn utf8_width_of(c: char) -> (res: usize)
    ensures
        res == vstd::utf8::encode_scalar(c as u32).len(),
{
    proof {
        vstd::utf8::char_is_scalar(c);
    }
    let v = c as u32;
    if v < 0x80 {
        1
    } else if v < 0x800 {
        2
    } else if v < 0x10000 {
        3
    } else {
        4
    }
}

/// The encoding of a concatenation is the concatenation of the encodings.
pub proof fn lemma_encode_concat(a: Seq<char>, b: Seq<char>)
    ensures
        vstd::utf8::encode_utf8(a + b) == vstd::utf8::encode_utf8(a) + vstd::utf8::encode_utf8(b),
    decreases a.len(),
{
    if a.len() == 0 {
        assert(a + b =~= b);
        assert(vstd::utf8::encode_utf8(a) =~= Seq::<u8>::empty());
        assert(vstd::utf8::encode_utf8(a) + vstd::utf8::encode_utf8(b) =~= vstd::utf8::encode_utf8(b));
    } else {
        assert((a + b).drop_first() =~= a.drop_first() + b);
        lemma_encode_concat(a.drop_first(), b);
        assert(vstd::utf8::encode_utf8(a + b) =~= vstd::utf8::encode_utf8(a) + vstd::utf8::encode_utf8(b));
    }
}

/// One more character adds its width to the byte length of a prefix.
pub proof fn lemma_byte_len_step(s: Seq<char>, k: int)
    requires
        0 <= k < s.len(),
    ensures
        byte_len(s.take(k + 1)) == byte_len(s.take(k)) + vstd::utf8::encode_scalar(s[k] as u32).len(),
{
    assert(s.take(k + 1) =~= s.take(k) + seq![s[k]]);
    lemma_encode_concat(s.take(k), seq![s[k]]);
    let one = seq![s[k]];
    assert(one.drop_first() =~= Seq::<char>::empty());
    assert(vstd::utf8::encode_utf8(one.drop_first()) =~= Seq::<u8>::empty());
    assert(vstd::utf8::encode_utf8(one) =~= vstd::utf8::encode_scalar(s[k] as u32));
}

/// Longer prefixes have strictly more bytes.
pub proof fn lemma_byte_len_increasing(s: Seq<char>, j: int, k: int)
    requires
        0 <= j < k <= s.len(),
    ensures
        byte_len(s.take(j)) < byte_len(s.take(k)),
    decreases k - j,
{
    lemma_byte_len_step(s, k - 1);
    vstd::utf8::char_is_scalar(s[k - 1]);
    if j < k - 1 {
        lemma_byte_len_increasing(s, j, k - 1);
    }
}

/// A prefix has at most the bytes of the whole.
pub proof fn lemma_byte_len_prefix(s: Seq<char>, k: int)
    requires
        0 <= k <= s.len(),
    ensures
        byte_len(s.take(k)) <= byte_len(s),
{
    assert(s.take(s.len() as int) =~= s);
    if k < s.len() {
        lemma_byte_len_increasing(s, k, s.len() as int);
    }
}

/// The byte length of the first `k` characters, for `k` up to the length.
pub fn byte_offset(s: &Vec<char>, k: usize) -> (res: usize)
    requires
        k <= s@.len(),
        byte_len(s@) <= usize::MAX,
    ensures
        res == byte_len(s@.take(k as int)),
{
    let mut off: usize = 0;
    assert(s@.take(0) =~= Seq::<char>::empty());
    for i in 0..k
        invariant
            k <= s@.len(),
            byte_len(s@) <= usize::MAX,
            off == byte_len(s@.take(i as int)),
    {
        proof {
            lemma_byte_len_step(s@, i as int);
            lemma_byte_len_prefix(s@, i + 1);
        }
        off = off + utf8_width_of(s[i]);
    }
    off
}

/// Builds a `String` holding exactly the characters of a string slice.
pub fn owned(s: &str) -> (res: String)
    ensures
        res@ == s@,
{
    let mut r = String::new();
    r.push_str(s);
    r
}

/// A copy of each string of `v`, in order.
pub fn owned_all(v: &Vec<String>) -> (res: Vec<String>)
    ensures
        views(res@) == views(v@),
{
    let n = v.len();
    let mut out: Vec<String> = Vec::new();
    for i in 0..n
        invariant
            n == v@.len(),
            out@.len() == i,
            forall|j: int| 0 <= j < i ==> #[trigger] out@[j]@ == v@[j]@,
    {
        out.push(owned(v[i].as_str()));
    }
    assert(views(out@) =~= views(v@));
    out
}

/// Whether a `String` holds exactly the characters of a string slice.
pub fn same_text(a: &String, b: &str) -> (res: bool)
    ensures
        res == (a@ == b@),
{
    let other = owned(b);
    *a == other
}

/// Whether two string slices hold the same characters.
pub fn str_eq(a: &str, b: &str) -> (res: bool)
    ensures
        res == (a@ == b@),
{
    let x = owned(a);
    same_text(&x, b)
}

/// The character views of a sequence of strings.
pub open spec fn views(v: Seq<String>) -> Seq<Seq<char>> {
    v.map_values(|s: String| s@)
}

/// `parts` joined with `sep` between consecutive parts.
pub open spec fn join_seq(parts: Seq<Seq<char>>, sep: Seq<char>) -> Seq<char>
    decreases parts.len(),
{
    if parts.len() == 0 {
        Seq::empty()
    } else if parts.len() == 1 {
        parts[0]
    } else {
        join_seq(parts.drop_last(), sep) + sep + parts.last()
    }
}

/// Joining one more part extends the join of a prefix.
pub proof fn lemma_join_step(parts: Seq<Seq<char>>, sep: Seq<char>, i: int)
    requires
        0 <= i < parts.len(),
    ensures
        join_seq(parts.take(i + 1), sep) == if i == 0 {
            parts[0]
        } else {
            join_seq(parts.take(i), sep) + sep + parts[i]
        },
{
    assert(parts.take(i + 1).drop_last() =~= parts.take(i));
}

/// Joins the strings of `parts` with `sep` between consecutive ones.
pub fn join(parts: &Vec<String>, sep: &str) -> (res: String)
    ensures
        res@ == join_seq(views(parts@), sep@),
{
    let mut r = String::new();
    let n = parts.len();
    let ghost vs = views(parts@);
    for i in 0..n
        invariant
            n == parts@.len(),
            vs == views(parts@),
            r@ == join_seq(vs.take(i as int), sep@),
    {
        proof {
            lemma_join_step(vs, sep@, i as int);
        }
        if i > 0 {
            r.push_str(sep);
        }
        r.push_str(parts[i].as_str());
    }
    assert(vs.take(n as int) =~= vs);
    r
}

/// Whether `pat` occurs in `s` starting at index `i`.
pub open spec fn occurs_at(s: Seq<char>, pat: Seq<char>, i: int) -> bool {
    0 <= i && i + pat.len() <= s.len() && s.subrange(i, i + pat.len()) == pat
}

/// Whether `pat` occurs anywhere in `s`.
pub open spec fn contains_seq(s: Seq<char>, pat: Seq<char>) -> bool {
    exists|i: int| occurs_at(s, pat, i)
}

/// Collects the characters of a string slice.
pub fn chars_of(s: &str) -> (res: Vec<char>)
    ensures
        res@ == s@,
{
    broadcast use vstd::string::group_string_axioms;

    let mut v: Vec<char> = Vec::new();
    for c in it: s.chars()
        invariant
            it.seq() == s@,
            v@ == s@.take(it.index() as int),
    {
        assert(s@.take(it.index() + 1) =~= s@.take(it.index() as int).push(c));
        v.push(c);
    }
    assert(s@.take(s@.len() as int) =~= s@);
    v
}

/// Whether `pat` occurs in `s` at index `i`, decided on character vectors.
pub fn occurs_at_exec(s: &Vec<char>, pat: &Vec<char>, i: usize) -> (res: bool)
    ensures
        res == occurs_at(s@, pat@, i as int),
{
    if pat.len() > s.len() || i > s.len() - pat.len() {
        return false;
    }
    let mut j: usize = 0;
    assert(s@.len() == s.len());
    while j < pat.len()
        invariant
            i + pat@.len() <= s@.len(),
            s@.len() <= usize::MAX,
            j <= pat@.len(),
            forall|k: int| 0 <= k < j ==> s@[i + k] == pat@[k],
        decreases pat@.len() - j,
    {
        assert(i + j < s@.len());
        if s[i + j] != pat[j] {
            assert(s@.subrange(i as int, i + pat@.len())[j as int] != pat@[j as int]);
            return false;
        }
        j += 1;
    }
    assert(s@.subrange(i as int, i + pat@.len()) =~= pat@);
    true
}

/// Whether `pat` occurs anywhere in `s`.
pub fn contains_str(s: &str, pat: &str) -> (res: bool)
    ensures
        res == contains_seq(s@, pat@),
{
    let sv = chars_of(s);
    let pv = chars_of(pat);
    if pv.len() > sv.len() {
        assert forall|i: int| !occurs_at(s@, pat@, i) by {}
        return false;
    }
    let last = sv.len() - pv.len();
    for i in 0..last
        invariant
            sv@ == s@,
            pv@ == pat@,
            last == sv@.len() - pv@.len(),
            forall|k: int| 0 <= k < i ==> !occurs_at(s@, pat@, k),
    {
        if occurs_at_exec(&sv, &pv, i) {
            return true;
        }
    }
    occurs_at_exec(&sv, &pv, last)
}

/// Strict lexicographic order of character sequences, characters compared
/// by their code points.
pub open spec fn chars_lt(a: Seq<char>, b: Seq<char>) -> bool
    decreases a.len(),
{
    if a.len() == 0 {
        b.len() > 0
    } else if b.len() == 0 {
        false
    } else if a[0] != b[0] {
        (a[0] as int) < (b[0] as int)
    } else {
        chars_lt(a.drop_first(), b.drop_first())
    }
}

/// No sequence precedes itself.
pub proof fn lemma_chars_lt_irreflexive(a: Seq<char>)
    ensures
        !chars_lt(a, a),
    decreases a.len(),
{
    if a.len() > 0 {
        lemma_chars_lt_irreflexive(a.drop_first());
    }
}

/// Of two distinct sequences, one precedes the other.
pub proof fn lemma_chars_lt_total(a: Seq<char>, b: Seq<char>)
    requires
        a != b,
    ensures
        chars_lt(a, b) || chars_lt(b, a),
    decreases a.len(),
{
    if a.len() > 0 && b.len() > 0 && a[0] == b[0] {
        if a.drop_first() == b.drop_first() {
            assert(a =~= seq![a[0]] + a.drop_first());
            assert(b =~= seq![b[0]] + b.drop_first());
        }
        lemma_chars_lt_total(a.drop_first(), b.drop_first());
    } else if a.len() == 0 && b.len() == 0 {
        assert(a =~= b);
    }
}

/// The order is asymmetric.
pub proof fn lemma_chars_lt_asymmetric(a: Seq<char>, b: Seq<char>)
    requires
        chars_lt(a, b),
    ensures
        !chars_lt(b, a),
    decreases a.len(),
{
    if a.len() > 0 && b.len() > 0 && a[0] == b[0] {
        lemma_chars_lt_asymmetric(a.drop_first(), b.drop_first());
    }
}

/// The order is transitive.
pub proof fn lemma_chars_lt_transitive(a: Seq<char>, b: Seq<char>, c: Seq<char>)
    requires
        chars_lt(a, b),
        chars_lt(b, c),
    ensures
        chars_lt(a, c),
    decreases a.len(),
{
    if a.len() > 0 && b.len() > 0 && c.len() > 0 && a[0] == b[0] && b[0] == c[0] {
        lemma_chars_lt_transitive(a.drop_first(), b.drop_first(), c.drop_first());
    }
}

/// Decides `chars_lt` on two strings.
pub fn str_lt(a: &str, b: &str) -> (res: bool)
    ensures
        res == chars_lt(a@, b@),
{
    let av = chars_of(a);
    let bv = chars_of(b);
    let mut i: usize = 0;
    assert(a@.skip(0) =~= a@);
    assert(b@.skip(0) =~= b@);
    while i < av.len() && i < bv.len()
        invariant
            av@ == a@,
            bv@ == b@,
            i <= av@.len(),
            i <= bv@.len(),
            chars_lt(a@, b@) == chars_lt(a@.skip(i as int), b@.skip(i as int)),
        decreases av@.len() - i,
    {
        let x = av[i];
        let y = bv[i];
        if x != y {
            assert(a@.skip(i as int)[0] == x);
            assert(b@.skip(i as int)[0] == y);
            return x < y;
        }
        assert(a@.skip(i as int).drop_first() =~= a@.skip(i + 1));
        assert(b@.skip(i as int).drop_first() =~= b@.skip(i + 1));
        i += 1;
    }
    i < bv.len()
}

} // verus!
