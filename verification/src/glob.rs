//! Glob patterns over regular expressions. Only three characters are
//! special in a glob: `?` (0 or 1 characters), `*` (0 or more) and `+`
//! (1 or more); everything else matches itself, and a backslash escapes.
use regex::{Regex, RegexSet};
use vstd::prelude::*;

verus! {

/// `regex::Regex`, a compiled regular expression.
#[verifier::external_type_specification]
#[verifier::external_body]
pub struct ExRegex(Regex);

/// `regex::RegexSet`, a compiled set of regular expressions.
#[verifier::external_type_specification]
#[verifier::external_body]
pub struct ExRegexSet(RegexSet);

/// `regex::Error`, why a regular expression did not compile.
#[verifier::external_type_specification]
#[verifier::external_body]
pub struct ExRegexError(regex::Error);

/// The characters that `regex::escape` escapes.
pub open spec fn is_regex_meta(c: char) -> bool {
    c == '\\' || c == '.' || c == '+' || c == '*' || c == '?' || c == '(' || c == ')' || c == '|'
        || c == '[' || c == ']' || c == '{' || c == '}' || c == '^' || c == '$' || c == '#' || c
        == '&' || c == '-' || c == '~'
}

/// `text` with a backslash before each regex meta character.
pub open spec fn regex_escaped(text: Seq<char>) -> Seq<char>
    decreases text.len(),
{
    if text.len() == 0 {
        Seq::empty()
    } else if is_regex_meta(text.last()) {
        regex_escaped(text.drop_last()) + seq!['\\', text.last()]
    } else {
        regex_escaped(text.drop_last()).push(text.last())
    }
}

/// `regex::escape`: puts a backslash before each of the meta characters
/// `\ . + * ? ( ) | [ ] { } ^ $ # & - ~` and keeps every other character.
/// Its documentation promises that the result can be used as a literal in
/// a regex, so, anchored by `\A` and `\z`, it matches exactly `text`.
#[verifier::external_body]
fn regex_escape(text: &str) -> (res: String)
    ensures
        res@ == regex_escaped(text@),
        matches_only("\\A"@ + res@ + "\\z"@, text@),
{
    regex::escape(text)
}

/// The unescaper's state: how many backslashes were just seen and whether
/// one was already written out.
#[derive(Debug, Clone, Copy, PartialEq, Eq, Structural)]
pub enum Escaped {
    Nope,
    One,
    Preceded,
    OnePreceded,
}

/// The unescaper's configuration: its state, what it wrote, and whether
/// it met a special character that was not escaped.
pub type UnescapeState = (Escaped, Seq<char>, bool);

/// One step of the unescaper on character `c`.
pub open spec fn unescape_step(specials: Seq<char>, st: UnescapeState, c: char) -> UnescapeState {
    let (e, out, stuck) = st;
    if stuck {
        st
    } else if c != '\\' && !specials.contains(c) {
        if e == Escaped::One {
            (Escaped::Nope, out.push('\\').push(c), false)
        } else {
            (Escaped::Nope, out.push(c), false)
        }
    } else if c == '\\' {
        match e {
            Escaped::Nope => (Escaped::One, out, false),
            Escaped::One => (Escaped::Preceded, out.push('\\'), false),
            Escaped::OnePreceded => (Escaped::Nope, out.push('\\'), false),
            Escaped::Preceded => (Escaped::OnePreceded, out, false),
        }
    } else {
        match e {
            Escaped::One | Escaped::Preceded => (Escaped::Nope, out.push('.').push(c), false),
            Escaped::OnePreceded => (Escaped::Nope, out.push(c), false),
            Escaped::Nope => (Escaped::Nope, out, true),
        }
    }
}

/// The unescaper's configuration after reading `s` from `st`.
pub open spec fn unescape_from(specials: Seq<char>, st: UnescapeState, s: Seq<char>) -> UnescapeState
    decreases s.len(),
{
    if s.len() == 0 {
        st
    } else {
        unescape_step(specials, unescape_from(specials, st, s.drop_last()), s.last())
    }
}

/// The unescaper's configuration after reading all of `s`.
pub open spec fn unescape_run(specials: Seq<char>, s: Seq<char>) -> UnescapeState {
    unescape_from(specials, (Escaped::Nope, Seq::empty(), false), s)
}

/// Turns the escaped specials of an escaped regex back into their glob
/// meaning: `\*` becomes `.*` (likewise `?`, `+`), `\\\*` stays a literal
/// `*`, and backslash pairs are kept. The input must have each special
/// character escaped, as `regex::escape` leaves it.
pub fn regex_unescape_specials(specials: &[char], regex_s: &str) -> (res: String)
    requires
        !unescape_run(specials@, regex_s@).2,
    ensures
        res@ == unescape_run(specials@, regex_s@).1,
{
    broadcast use vstd::string::group_string_axioms;

    let mut escaped = Escaped::Nope;
    let mut acc = String::new();
    let ghost sp = specials@;
    for c in it: regex_s.chars()
        invariant
            it.seq() == regex_s@,
            sp == specials@,
            !unescape_run(sp, regex_s@).2,
            unescape_from(sp, (Escaped::Nope, Seq::empty(), false), regex_s@.take(it.index() as int))
                == (escaped, acc@, false),
    {
        assert(regex_s@.take(it.index() + 1).drop_last() =~= regex_s@.take(it.index() as int));
        proof {
            lemma_unescape_stuck_stays(sp, regex_s@, it.index() + 1);
        }
        let is_special = contains_char(specials, c);
        if c != '\\' && !is_special {
            if escaped == Escaped::One {
                acc.push('\\');
            }
            acc.push(c);
            escaped = Escaped::Nope;
        } else if c == '\\' {
            match escaped {
                Escaped::Nope => {
                    escaped = Escaped::One;
                },
                Escaped::One => {
                    acc.push('\\');
                    escaped = Escaped::Preceded;
                },
                Escaped::OnePreceded => {
                    acc.push('\\');
                    escaped = Escaped::Nope;
                },
                Escaped::Preceded => {
                    escaped = Escaped::OnePreceded;
                },
            }
        } else {
            match escaped {
                Escaped::One | Escaped::Preceded => {
                    acc.push('.');
                    acc.push(c);
                    escaped = Escaped::Nope;
                },
                Escaped::OnePreceded => {
                    acc.push(c);
                    escaped = Escaped::Nope;
                },
                Escaped::Nope => {
                    assert(false);
                },
            }
        }
    }
    assert(regex_s@.take(regex_s@.len() as int) =~= regex_s@);
    acc
}

/// Once stuck, the unescaper stays stuck: a run that ends unstuck was
/// unstuck on every prefix.
proof fn lemma_unescape_stuck_stays(specials: Seq<char>, s: Seq<char>, k: int)
    requires
        0 <= k <= s.len(),
        !unescape_run(specials, s).2,
    ensures
        !unescape_run(specials, s.take(k)).2,
    decreases s.len() - k,
{
    if k < s.len() {
        lemma_unescape_stuck_stays(specials, s, k + 1);
        assert(s.take(k + 1).drop_last() =~= s.take(k));
    } else {
        assert(s.take(k) =~= s);
    }
}

/// Whether `c` is among `cs`.
fn contains_char(cs: &[char], c: char) -> (res: bool)
    ensures
        res == cs@.contains(c),
{
    let n = cs.len();
    for i in 0..n
        invariant
            n == cs@.len(),
            forall|k: int| 0 <= k < i ==> cs@[k] != c,
    {
        if cs[i] == c {
            assert(cs@[i as int] == c);
            return true;
        }
    }
    false
}

/// Whether every special character is a regex meta character.
pub open spec fn specials_are_meta(specials: Seq<char>) -> bool {
    forall|i: int| 0 <= i < specials.len() ==> is_regex_meta(#[trigger] specials[i])
}

/// Unescaping an escaped text never meets an unescaped special: between
/// two escaped characters of the text the unescaper is never waiting for
/// the second half of an escape.
pub proof fn lemma_escaped_text_unescapes(specials: Seq<char>, text: Seq<char>)
    requires
        specials_are_meta(specials),
    ensures
        !unescape_run(specials, regex_escaped(text)).2,
        unescape_run(specials, regex_escaped(text)).0 == Escaped::Nope
            || unescape_run(specials, regex_escaped(text)).0 == Escaped::Preceded,
    decreases text.len(),
{
    if text.len() > 0 {
        let init = text.drop_last();
        let c = text.last();
        lemma_escaped_text_unescapes(specials, init);
        let st = unescape_run(specials, regex_escaped(init));
        assert(!specials.contains(c) ==> true);
        if is_regex_meta(c) {
            let pair = seq!['\\', c];
            lemma_unescape_append(specials, (Escaped::Nope, Seq::empty(), false), regex_escaped(init), pair);
            assert(pair.drop_last() =~= seq!['\\']);
            assert(seq!['\\'].drop_last() =~= Seq::<char>::empty());
            assert(unescape_from(specials, st, Seq::<char>::empty()) == st);
            assert(unescape_from(specials, st, seq!['\\']) == unescape_step(specials, st, '\\'));
            assert(unescape_from(specials, st, pair) == unescape_step(
                specials,
                unescape_step(specials, st, '\\'),
                c,
            ));
        } else {
            assert(!specials.contains(c)) by {
                if specials.contains(c) {
                    let i = choose|i: int| 0 <= i < specials.len() && specials[i] == c;
                    assert(is_regex_meta(specials[i]));
                }
            }
            lemma_unescape_append(specials, (Escaped::Nope, Seq::empty(), false), regex_escaped(init), seq![c]);
            assert(seq![c].drop_last() =~= Seq::<char>::empty());
            assert(unescape_from(specials, st, Seq::<char>::empty()) == st);
            assert(regex_escaped(text) == regex_escaped(init).push(c));
            assert(regex_escaped(init).push(c) =~= regex_escaped(init) + seq![c]);
        }
    }
}

/// Reading `a + b` is reading `a`, then `b`.
proof fn lemma_unescape_append(specials: Seq<char>, st: UnescapeState, a: Seq<char>, b: Seq<char>)
    ensures
        unescape_from(specials, st, a + b) == unescape_from(specials, unescape_from(specials, st, a), b),
    decreases b.len(),
{
    if b.len() == 0 {
        assert(a + b =~= a);
    } else {
        assert((a + b).drop_last() =~= a + b.drop_last());
        assert((a + b).last() == b.last());
        lemma_unescape_append(specials, st, a, b.drop_last());
    }
}

/// Whether the regex `pattern` matches exactly the text `text` and no
/// other.
pub open spec fn matches_only(pattern: Seq<char>, text: Seq<char>) -> bool {
    forall|h: Seq<char>| #[trigger] regex_matches(pattern, h) == (h == text)
}

/// Whether a glob holds no wildcard and no backslash: it stands for
/// itself.
pub open spec fn is_literal_glob(p: Seq<char>) -> bool {
    forall|i: int| 0 <= i < p.len() ==> #[trigger] p[i] != '*' && p[i] != '?' && p[i] != '+' && p[i] != '\\'
}

/// Unescaping the escaped text of a literal glob gives the escaped text
/// back.
proof fn lemma_literal_glob_unescapes(p: Seq<char>)
    requires
        is_literal_glob(p),
    ensures
        unescape_run(glob_specials(), regex_escaped(p)) == (Escaped::Nope, regex_escaped(p), false),
    decreases p.len(),
{
    let specials = glob_specials();
    if p.len() == 0 {
        assert(regex_escaped(p) =~= Seq::<char>::empty());
    } else {
        let init = p.drop_last();
        let c = p.last();
        assert(c == p[p.len() - 1]);
        assert(is_literal_glob(init)) by {
            assert forall|i: int| 0 <= i < init.len() implies #[trigger] init[i] != '*' && init[i] != '?' && init[i]
                != '+' && init[i] != '\\' by {
                assert(init[i] == p[i]);
            }
        }
        lemma_literal_glob_unescapes(init);
        let st = unescape_run(specials, regex_escaped(init));
        assert(!specials.contains(c)) by {
            if specials.contains(c) {
                let i = choose|i: int| 0 <= i < specials.len() && specials[i] == c;
                assert(specials[i] == '*' || specials[i] == '?' || specials[i] == '+');
            }
        }
        if is_regex_meta(c) {
            let pair = seq!['\\', c];
            lemma_unescape_append(specials, (Escaped::Nope, Seq::empty(), false), regex_escaped(init), pair);
            assert(pair.drop_last() =~= seq!['\\']);
            assert(seq!['\\'].drop_last() =~= Seq::<char>::empty());
            assert(unescape_from(specials, st, Seq::<char>::empty()) == st);
            assert(unescape_from(specials, st, seq!['\\']) == unescape_step(specials, st, '\\'));
            assert(unescape_from(specials, st, pair) == unescape_step(
                specials,
                unescape_step(specials, st, '\\'),
                c,
            ));
            assert(regex_escaped(init).push('\\').push(c) =~= regex_escaped(init) + pair);
        } else {
            lemma_unescape_append(specials, (Escaped::Nope, Seq::empty(), false), regex_escaped(init), seq![c]);
            assert(seq![c].drop_last() =~= Seq::<char>::empty());
            assert(unescape_from(specials, st, Seq::<char>::empty()) == st);
            assert(regex_escaped(p) == regex_escaped(init).push(c));
            assert(regex_escaped(init).push(c) =~= regex_escaped(init) + seq![c]);
        }
    }
}

/// The glob specials.
pub open spec fn glob_specials() -> Seq<char> {
    seq!['*', '?', '+']
}

/// The regex of a glob: anchored at both ends, the glob escaped, and the
/// specials turned back into their glob meaning.
pub open spec fn glob_regex(pattern: Seq<char>) -> Seq<char> {
    "\\A"@ + unescape_run(glob_specials(), regex_escaped(pattern)).1 + "\\z"@
}

/// `regex::Regex::new` compiles a regex, or fails with a `regex::Error`;
/// whether it fails depends on the pattern alone.
pub uninterp spec fn regex_compiles(pattern: Seq<char>) -> bool;

/// `regex::Regex::new`: compiles `pattern`, failing exactly when
/// `regex_compiles` says it does not compile.
#[verifier::external_body]
fn regex_new(pattern: &str) -> (res: Result<Regex, regex::Error>)
    ensures
        res is Ok == regex_compiles(pattern@),
        res is Ok ==> regex_source(res->Ok_0) == pattern@,
{
    Regex::new(pattern)
}

/// What a compiled `regex::Regex` holds: the pattern it was compiled from,
/// which `regex::Regex::as_str` hands back.
pub uninterp spec fn regex_source(re: Regex) -> Seq<char>;

/// `regex::Regex::is_match` on a regex compiled from `pattern`: whether
/// `pattern` matches somewhere in `text`; it depends on the two alone.
pub uninterp spec fn regex_matches(pattern: Seq<char>, text: Seq<char>) -> bool;

/// `regex::Regex::is_match`: whether the regex, by the pattern it was
/// compiled from, matches somewhere in `s`.
#[verifier::external_body]
fn regex_is_match(re: &Regex, s: &str) -> (res: bool)
    ensures
        res == regex_matches(regex_source(*re), s@),
{
    re.is_match(s)
}

/// `regex::RegexSet::new` builds a set of regexes, or fails with a
/// `regex::Error`; whether it fails depends on the patterns alone.
pub uninterp spec fn regex_set_compiles(patterns: Seq<Seq<char>>) -> bool;

/// `regex::RegexSet::new`: builds the set of `patterns`, failing exactly
/// when `regex_set_compiles` says they do not all compile.
#[verifier::external_body]
fn regex_set_new(patterns: &Vec<String>) -> (res: Result<RegexSet, regex::Error>)
    ensures
        res is Ok == regex_set_compiles(patterns@.map_values(|p: String| p@)),
        res is Ok ==> regex_set_sources(res->Ok_0) == patterns@.map_values(|p: String| p@),
{
    RegexSet::new(patterns)
}

/// What a compiled `regex::RegexSet` holds: the patterns it was built
/// from, in their order, which `regex::RegexSet::patterns` hands back.
pub uninterp spec fn regex_set_sources(set: RegexSet) -> Seq<Seq<char>>;

/// Whether one of `patterns` matches somewhere in `text`.
pub open spec fn some_regex_matches(patterns: Seq<Seq<char>>, text: Seq<char>) -> bool {
    exists|i: int| 0 <= i < patterns.len() && regex_matches(#[trigger] patterns[i], text)
}

/// `regex::RegexSet::is_match`: whether one of the regexes of the set
/// matches somewhere in `s`.
#[verifier::external_body]
fn regex_set_is_match(set: &RegexSet, s: &str) -> (res: bool)
    ensures
        res == some_regex_matches(regex_set_sources(*set), s@),
{
    set.is_match(s)
}

/// `regex::RegexSet::patterns`: the patterns the set was built from, in
/// their order.
#[verifier::external_body]
fn regex_set_patterns(set: &RegexSet) -> (res: Vec<String>)
    ensures
        res@.map_values(|p: String| p@) == regex_set_sources(*set),
{
    set.patterns().to_vec()
}

/// `regex::Regex::as_str`: the pattern the regex was compiled from.
#[verifier::external_body]
fn regex_as_string(re: &Regex) -> (res: String)
    ensures
        res@ == regex_source(*re),
{
    re.as_str().to_string()
}

/// Why a glob could not be built.
#[derive(Debug)]
pub enum GlobError {
    /// The regular expression did not compile.
    Regex(regex::Error),
}

/// A glob pattern, compiled to a regex.
#[derive(Debug)]
pub struct GlobPattern(Regex);

impl GlobPattern {
    /// The compiled regex.
    pub closed spec fn compiled(&self) -> Regex {
        self.0
    }

    /// The regex source the glob was compiled from.
    pub open spec fn source(&self) -> Seq<char> {
        regex_source(self.compiled())
    }

    /// The regex of a glob pattern.
    pub fn glob_pattern(pattern: &str) -> (res: String)
        ensures
            res@ == glob_regex(pattern@),
            is_literal_glob(pattern@) ==> matches_only(res@, pattern@),
    {
        let escaped_pattern = regex_escape(pattern);
        let specials = ['*', '?', '+'];
        proof {
            assert(specials@ =~= glob_specials());
            assert(specials_are_meta(glob_specials()));
            lemma_escaped_text_unescapes(glob_specials(), pattern@);
        }
        let regex_pattern = regex_unescape_specials(&specials, escaped_pattern.as_str());
        let mut r = String::from_str("\\A");
        r.push_str(regex_pattern.as_str());
        r.push_str("\\z");
        proof {
            if is_literal_glob(pattern@) {
                lemma_literal_glob_unescapes(pattern@);
                assert(r@ =~= "\\A"@ + escaped_pattern@ + "\\z"@);
            }
        }
        r
    }

    /// Compiles a glob pattern; fails exactly when its regex does not
    /// compile. A glob without wildcards or backslashes matches exactly
    /// itself.
    pub fn new(pattern: &str) -> (res: Result<GlobPattern, GlobError>)
        ensures
            res is Ok == regex_compiles(glob_regex(pattern@)),
            res is Ok ==> res->Ok_0.source() == glob_regex(pattern@),
            res is Ok && is_literal_glob(pattern@) ==> matches_only(res->Ok_0.source(), pattern@),
    {
        let regex_pattern = Self::glob_pattern(pattern);
        match regex_new(regex_pattern.as_str()) {
            Ok(re) => Ok(GlobPattern(re)),
            Err(e) => Err(GlobError::Regex(e)),
        }
    }

    /// Whether the glob matches the whole of `s`.
    pub fn is_match(&self, s: &str) -> (res: bool)
        ensures
            res == regex_matches(self.source(), s@),
    {
        regex_is_match(&self.0, s)
    }

    /// The compiled regex.
    pub fn regex(&self) -> (res: &Regex)
        ensures
            *res == self.compiled(),
    {
        &self.0
    }

    /// The compiled regex.
    pub fn into_inner(self) -> (res: Regex)
        ensures
            res == self.compiled(),
    {
        self.0
    }

    /// The regex source of the glob.
    pub fn to_regex_string(&self) -> (res: String)
        ensures
            res@ == self.source(),
    {
        regex_as_string(&self.0)
    }
}

/// A set of glob patterns.
#[derive(Debug)]
pub struct GlobPatternSet(RegexSet);

impl GlobPatternSet {
    /// The compiled regex set.
    pub closed spec fn compiled(&self) -> RegexSet {
        self.0
    }

    /// The regex sources of the globs, in their order.
    pub open spec fn sources(&self) -> Seq<Seq<char>> {
        regex_set_sources(self.compiled())
    }

    /// Compiles a set of globs; fails exactly when their regexes do not
    /// all compile.
    pub fn new(patterns: &Vec<String>) -> (res: Result<GlobPatternSet, GlobError>)
        ensures
            res is Ok == regex_set_compiles(patterns@.map_values(|p: String| glob_regex(p@))),
            res is Ok ==> res->Ok_0.sources() == patterns@.map_values(|p: String| glob_regex(p@)),
    {
        let n = patterns.len();
        let mut regexes: Vec<String> = Vec::new();
        for i in 0..n
            invariant
                n == patterns@.len(),
                regexes@.len() == i,
                forall|k: int| 0 <= k < i ==> #[trigger] regexes@[k]@ == glob_regex(patterns@[k]@),
        {
            regexes.push(GlobPattern::glob_pattern(patterns[i].as_str()));
        }
        assert(regexes@.map_values(|p: String| p@) =~= patterns@.map_values(|p: String| glob_regex(p@)));
        match regex_set_new(&regexes) {
            Ok(set) => Ok(GlobPatternSet(set)),
            Err(e) => Err(GlobError::Regex(e)),
        }
    }

    /// Whether some glob of the set matches the whole of `s`.
    pub fn is_match(&self, s: &str) -> (res: bool)
        ensures
            res == some_regex_matches(self.sources(), s@),
    {
        regex_set_is_match(&self.0, s)
    }

    /// The compiled regex set.
    pub fn regex_set(&self) -> (res: &RegexSet)
        ensures
            *res == self.compiled(),
    {
        &self.0
    }

    /// The compiled regex set.
    pub fn into_inner(self) -> (res: RegexSet)
        ensures
            res == self.compiled(),
    {
        self.0
    }

    /// The regex sources of the globs, in their order.
    pub fn patterns(&self) -> (res: Vec<String>)
        ensures
            res@.map_values(|p: String| p@) == self.sources(),
    {
        regex_set_patterns(&self.0)
    }
}

} // verus!
