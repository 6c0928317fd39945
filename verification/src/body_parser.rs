//! Scalars read out of a JSON body: `null`, booleans, integers and floats
//! by their text, and strings for the rest.
use crate::cel::CelValue;
use crate::text::owned;
use vstd::prelude::*;

verus! {

/// Whether a character is an ASCII digit.
pub open spec fn is_digit(c: char) -> bool {
    '0' <= c && c <= '9'
}

/// Whether every character of `s` is an ASCII digit.
pub open spec fn all_digits(s: Seq<char>) -> bool {
    forall|i: int| 0 <= i < s.len() ==> is_digit(#[trigger] s[i])
}

/// The value of a string of ASCII digits.
pub open spec fn digits_value(s: Seq<char>) -> nat
    decreases s.len(),
{
    if s.len() == 0 {
        0
    } else {
        digits_value(s.drop_last()) * 10 + ((s.last() as u32) - ('0' as u32)) as nat
    }
}

/// Whether a character is a sign.
pub open spec fn is_sign(c: char) -> bool {
    c == '+' || c == '-'
}

/// The integer that `s` reads as: an optional sign and at least one ASCII
/// digit, nothing else.
pub open spec fn signed_decimal(s: Seq<char>) -> Option<int> {
    if s.len() == 0 {
        None
    } else if is_sign(s[0]) {
        let d = s.drop_first();
        if d.len() > 0 && all_digits(d) {
            Some(if s[0] == '-' { -(digits_value(d) as int) } else { digits_value(d) as int })
        } else {
            None
        }
    } else if all_digits(s) {
        Some(digits_value(s) as int)
    } else {
        None
    }
}

/// What `str::parse::<i64>` gives: the integer that `s` reads as, when it
/// fits.
pub open spec fn parsed_i64(s: Seq<char>) -> Option<i64> {
    match signed_decimal(s) {
        Some(v) => if i64::MIN <= v <= i64::MAX { Some(v as i64) } else { None },
        None => None,
    }
}

/// What `str::parse::<u64>` gives: the integer that `s` reads as, when it
/// has no minus sign and fits.
pub open spec fn parsed_u64(s: Seq<char>) -> Option<u64> {
    if s.len() > 0 && s[0] == '-' {
        None
    } else {
        match signed_decimal(s) {
            Some(v) => if 0 <= v <= u64::MAX { Some(v as u64) } else { None },
            None => None,
        }
    }
}

proof fn lemma_digits_step(s: Seq<char>, i: int)
    requires
        0 <= i < s.len(),
    ensures
        digits_value(s.take(i + 1)) == digits_value(s.take(i)) * 10 + ((s[i] as u32) - ('0' as u32)) as nat,
{
    assert(s.take(i + 1).drop_last() =~= s.take(i));
}

proof fn lemma_digits_grow(s: Seq<char>, i: int, k: int)
    requires
        0 <= i <= k <= s.len(),
        all_digits(s),
    ensures
        digits_value(s.take(i)) <= digits_value(s.take(k)),
    decreases k - i,
{
    if i < k {
        lemma_digits_grow(s, i, k - 1);
        lemma_digits_step(s, k - 1);
        assert(is_digit(s[k - 1]));
    }
}

/// The magnitude of the digits of `s` from index `start`, when it is at
/// most `limit`; `None` when a character is not a digit, there is no digit,
/// or the value passes the limit.
fn digits_up_to(s: &Vec<char>, start: usize, limit: u64) -> (res: Option<u64>)
    requires
        start <= s@.len(),
    ensures
        match res {
            Some(v) => s@.skip(start as int).len() > 0 && all_digits(s@.skip(start as int))
                && v == digits_value(s@.skip(start as int)) && v <= limit,
            None => !(s@.skip(start as int).len() > 0 && all_digits(s@.skip(start as int))
                && digits_value(s@.skip(start as int)) <= limit),
        },
{
    let ghost d = s@.skip(start as int);
    let n = s.len();
    if start == n {
        return None;
    }
    let mut acc: u64 = 0;
    let mut over = false;
    let mut i = start;
    assert(d.take(0) =~= Seq::<char>::empty());
    while i < n
        invariant
            start <= i <= n,
            n == s@.len(),
            d == s@.skip(start as int),
            all_digits(d.take(i - start)),
            !over ==> acc == digits_value(d.take(i - start)) && acc <= limit,
            over ==> digits_value(d.take(i - start)) > limit,
        decreases n - i,
    {
        let c = s[i];
        assert(d[i - start] == c);
        if !('0' <= c && c <= '9') {
            assert(!is_digit(d[i - start]));
            return None;
        }
        proof {
            lemma_digits_step(d, i - start);
        }
        let digit = (c as u32 - '0' as u32) as u64;
        if !over {
            if digit > limit || acc > (limit - digit) / 10 {
                over = true;
                if digit <= limit {
                    assert(acc * 10 + digit > limit) by (nonlinear_arith)
                        requires acc > (limit - digit) / 10, digit <= limit;
                }
            } else {
                assert(acc * 10 + digit <= limit) by (nonlinear_arith)
                    requires acc <= (limit - digit) / 10, digit <= 9;
                acc = acc * 10 + digit;
            }
        } else {
            assert(digits_value(d.take(i - start + 1)) >= digits_value(d.take(i - start)) * 10);
        }
        assert(d.take(i - start + 1) =~= d.take(i - start).push(c));
        i += 1;
    }
    assert(d.take(n - start) =~= d);
    if over {
        None
    } else {
        Some(acc)
    }
}

/// `str::parse::<i64>`: the integer that `s` reads as, when it fits.
pub fn parse_i64(s: &str) -> (res: Option<i64>)
    ensures
        res == parsed_i64(s@),
{
    let chars = crate::text::chars_of(s);
    if chars.len() == 0 {
        return None;
    }
    let first = chars[0];
    if first == '+' || first == '-' {
        assert(s@.skip(1) =~= s@.drop_first());
        let limit: u64 = if first == '-' { 0x8000_0000_0000_0000 } else { 0x7fff_ffff_ffff_ffff };
        match digits_up_to(&chars, 1, limit) {
            Some(v) => {
                if first == '-' {
                    if v == 0x8000_0000_0000_0000 {
                        Some(i64::MIN)
                    } else {
                        Some(-(v as i64))
                    }
                } else {
                    Some(v as i64)
                }
            },
            None => None,
        }
    } else {
        assert(s@.skip(0) =~= s@);
        match digits_up_to(&chars, 0, 0x7fff_ffff_ffff_ffff) {
            Some(v) => Some(v as i64),
            None => None,
        }
    }
}

/// `str::parse::<u64>`: the integer that `s` reads as, when it has no
/// minus sign and fits.
pub fn parse_u64(s: &str) -> (res: Option<u64>)
    ensures
        res == parsed_u64(s@),
{
    let chars = crate::text::chars_of(s);
    if chars.len() == 0 {
        return None;
    }
    let first = chars[0];
    if first == '-' {
        None
    } else if first == '+' {
        assert(s@.skip(1) =~= s@.drop_first());
        digits_up_to(&chars, 1, u64::MAX)
    } else {
        assert(s@.skip(0) =~= s@);
        digits_up_to(&chars, 0, u64::MAX)
    }
}

/// Whether `s` is `word` (given in lower case) up to ASCII case.
pub open spec fn ci_equal(s: Seq<char>, word: Seq<char>) -> bool {
    s.len() == word.len() && forall|i: int| 0 <= i < s.len() ==> crate::cel::strings::ascii_lower(#[trigger] s[i]) == word[i]
}

/// Whether `m` is the digits of a float: digits, or digits around a dot
/// with at least one digit.
pub open spec fn is_mantissa(m: Seq<char>) -> bool {
    ||| m.len() > 0 && all_digits(m)
    ||| exists|i: int| 0 <= i < m.len() && #[trigger] m[i] == '.' && m.len() >= 2 && all_digits(m.take(i)) && all_digits(m.skip(i + 1))
}

/// Whether `x` is the exponent of a float: an optional sign and digits.
pub open spec fn is_exponent(x: Seq<char>) -> bool {
    let d = if x.len() > 0 && is_sign(x[0]) { x.drop_first() } else { x };
    d.len() > 0 && all_digits(d)
}

/// Whether a character starts an exponent.
pub open spec fn is_exp_mark(c: char) -> bool {
    c == 'e' || c == 'E'
}

/// Whether `b` is an unsigned decimal float: a mantissa, and an exponent
/// after `e` or `E` where there is one.
pub open spec fn is_number_text(b: Seq<char>) -> bool {
    ||| is_mantissa(b)
    ||| exists|e: int| 0 <= e < b.len() && is_exp_mark(#[trigger] b[e]) && is_mantissa(b.take(e)) && is_exponent(b.skip(e + 1))
}

/// Whether `str::parse::<f64>` accepts `s`: an optional sign, then `inf`,
/// `infinity` or `nan` in any ASCII case, or a decimal number.
pub open spec fn is_float_text(s: Seq<char>) -> bool {
    let b = if s.len() > 0 && is_sign(s[0]) { s.drop_first() } else { s };
    ||| ci_equal(b, "inf"@)
    ||| ci_equal(b, "infinity"@)
    ||| ci_equal(b, "nan"@)
    ||| is_number_text(b)
}

fn digits_in(v: &Vec<char>, a: usize, b: usize) -> (res: bool)
    requires
        a <= b <= v@.len(),
    ensures
        res == all_digits(v@.subrange(a as int, b as int)),
{
    for i in a..b
        invariant
            b <= v@.len(),
            forall|k: int| a <= k < i ==> is_digit(v@[k]),
    {
        let c = v[i];
        if !('0' <= c && c <= '9') {
            assert(v@.subrange(a as int, b as int)[i - a] == c);
            return false;
        }
    }
    assert forall|k: int| 0 <= k < b - a implies is_digit(#[trigger] v@.subrange(a as int, b as int)[k]) by {
        assert(v@.subrange(a as int, b as int)[k] == v@[a + k]);
    }
    true
}

fn first_of(v: &Vec<char>, a: usize, b: usize, c1: char, c2: char) -> (res: Option<usize>)
    requires
        a <= b <= v@.len(),
    ensures
        match res {
            Some(i) => a <= i < b && (v@[i as int] == c1 || v@[i as int] == c2)
                && forall|k: int| a <= k < i ==> v@[k] != c1 && v@[k] != c2,
            None => forall|k: int| a <= k < b ==> v@[k] != c1 && v@[k] != c2,
        },
{
    for i in a..b
        invariant
            b <= v@.len(),
            forall|k: int| a <= k < i ==> v@[k] != c1 && v@[k] != c2,
    {
        if v[i] == c1 || v[i] == c2 {
            return Some(i);
        }
    }
    None
}

fn mantissa_in(v: &Vec<char>, a: usize, b: usize) -> (res: bool)
    requires
        a <= b <= v@.len(),
    ensures
        res == is_mantissa(v@.subrange(a as int, b as int)),
{
    let ghost m = v@.subrange(a as int, b as int);
    match first_of(v, a, b, '.', '.') {
        None => {
            if a == b {
                return false;
            }
            let r = digits_in(v, a, b);
            assert forall|i: int| 0 <= i < m.len() implies #[trigger] m[i] != '.' by {
                assert(m[i] == v@[a + i]);
            }
            r
        },
        Some(d) => {
            assert(m[d - a] == '.');
            assert(!is_digit(m[d - a]));
            let left = digits_in(v, a, d);
            let right = digits_in(v, d + 1, b);
            assert(m.take(d - a) =~= v@.subrange(a as int, d as int));
            assert(m.skip(d - a + 1) =~= v@.subrange(d + 1, b as int));
            let r = b - a >= 2 && left && right;
            proof {
                if r {
                    assert(m[d - a] == '.' && m.len() >= 2 && all_digits(m.take(d - a)) && all_digits(m.skip(d - a + 1)));
                } else {
                    assert forall|i: int| 0 <= i < m.len() && #[trigger] m[i] == '.' && m.len() >= 2
                        implies !(all_digits(m.take(i)) && all_digits(m.skip(i + 1))) by {
                        assert(m[i] == v@[a + i]);
                        if i > d - a {
                            assert(m.take(i)[d - a] == '.');
                        } else if i < d - a {
                            assert(v@[a + i] != '.');
                        }
                    }
                }
            }
            r
        },
    }
}

fn exponent_in(v: &Vec<char>, a: usize, b: usize) -> (res: bool)
    requires
        a <= b <= v@.len(),
    ensures
        res == is_exponent(v@.subrange(a as int, b as int)),
{
    let ghost x = v@.subrange(a as int, b as int);
    if a < b && (v[a] == '+' || v[a] == '-') {
        assert(x.drop_first() =~= v@.subrange(a + 1, b as int));
        a + 1 < b && digits_in(v, a + 1, b)
    } else {
        a < b && digits_in(v, a, b)
    }
}

fn ci_equal_in(v: &Vec<char>, a: usize, word: &str) -> (res: bool)
    requires
        a <= v@.len(),
    ensures
        res == ci_equal(v@.skip(a as int), word@),
{
    let w = crate::text::chars_of(word);
    let n = v.len();
    if n - a != w.len() {
        return false;
    }
    let ghost b = v@.skip(a as int);
    for i in 0..w.len()
        invariant
            n == v@.len(),
            a <= n,
            n - a == w@.len(),
            b == v@.skip(a as int),
            w@ == word@,
            b.len() == w@.len(),
            forall|k: int| 0 <= k < i ==> crate::cel::strings::ascii_lower(#[trigger] b[k]) == w@[k],
    {
        let c = v[a + i];
        assert(b[i as int] == c);
        let l = if 'A' <= c && c <= 'Z' { ((c as u8) + 32) as char } else { c };
        if l != w[i] {
            return false;
        }
    }
    true
}

/// Whether `str::parse::<f64>` accepts `s`.
pub fn is_float(s: &str) -> (res: bool)
    ensures
        res == is_float_text(s@),
{
    let v = crate::text::chars_of(s);
    let n = v.len();
    let a: usize = if n > 0 && (v[0] == '+' || v[0] == '-') { 1 } else { 0 };
    let ghost b = v@.skip(a as int);
    assert(a == 1 ==> b =~= s@.drop_first());
    assert(a == 0 ==> b =~= s@);
    if ci_equal_in(&v, a, "inf") || ci_equal_in(&v, a, "infinity") || ci_equal_in(&v, a, "nan") {
        return true;
    }
    assert(v@.subrange(a as int, n as int) =~= b);
    match first_of(&v, a, n, 'e', 'E') {
        None => {
            assert forall|e: int| 0 <= e < b.len() implies !is_exp_mark(#[trigger] b[e]) by {
                assert(b[e] == v@[a + e]);
            }
            mantissa_in(&v, a, n)
        },
        Some(e) => {
            let k = e - a;
            assert(b[k as int] == v@[e as int]);
            assert(b.take(k as int) =~= v@.subrange(a as int, e as int));
            assert(b.skip(k + 1) =~= v@.subrange(e + 1, n as int));
            let r = mantissa_in(&v, a, e) && exponent_in(&v, e + 1, n);
            proof {
                if !is_mantissa(b) {
                } else {
                    assert(!is_mantissa(b)) by {
                        assert(!is_digit(b[k as int]) && b[k as int] != '.');
                        if b.len() > 0 && all_digits(b) {
                            assert(is_digit(b[k as int]));
                        }
                        assert forall|i: int| 0 <= i < b.len() && #[trigger] b[i] == '.' && b.len() >= 2
                            implies !(all_digits(b.take(i)) && all_digits(b.skip(i + 1))) by {
                            if i > k {
                                assert(b.take(i)[k as int] == b[k as int]);
                            } else {
                                assert(b.skip(i + 1)[k - i - 1] == b[k as int]);
                            }
                        }
                    }
                }
                if r {
                    assert(is_exp_mark(b[k as int]) && is_mantissa(b.take(k as int)) && is_exponent(b.skip(k + 1)));
                } else {
                    assert forall|e2: int| 0 <= e2 < b.len() && is_exp_mark(#[trigger] b[e2])
                        implies !(is_mantissa(b.take(e2)) && is_exponent(b.skip(e2 + 1))) by {
                        assert(b[e2] == v@[a + e2]);
                        if e2 > k {
                            let m = b.take(e2);
                            assert(m[k as int] == b[k as int]);
                            if m.len() > 0 && all_digits(m) {
                                assert(is_digit(m[k as int]));
                            }
                            assert forall|i: int| 0 <= i < m.len() && #[trigger] m[i] == '.' && m.len() >= 2
                                implies !(all_digits(m.take(i)) && all_digits(m.skip(i + 1))) by {
                                if i > k {
                                    assert(m.take(i)[k as int] == m[k as int]);
                                } else {
                                    assert(m.skip(i + 1)[k - i - 1] == m[k as int]);
                                }
                            }
                        }
                    }
                }
            }
            r
        },
    }
}

/// Whether `v` is what a raw JSON scalar reads as: `null`, `true` and
/// `false` as themselves, then an `i64`, then a `u64`, then a float (kept
/// as its text), and otherwise the text as a string.
pub open spec fn reads_as(raw: Seq<char>, v: CelValue) -> bool {
    if raw == "null"@ {
        v is Null
    } else if raw == "true"@ {
        v == CelValue::Bool(true)
    } else if raw == "false"@ {
        v == CelValue::Bool(false)
    } else if parsed_i64(raw) is Some {
        v == CelValue::Int(parsed_i64(raw)->0)
    } else if parsed_u64(raw) is Some {
        v == CelValue::UInt(parsed_u64(raw)->0)
    } else if is_float_text(raw) {
        v matches CelValue::Float(t) && t@ == raw
    } else {
        v matches CelValue::Str(t) && t@ == raw
    }
}

/// Reads a raw JSON scalar: `null`, a boolean, an integer, a float (kept as
/// its text) or, failing those, a string.
pub fn parse_json_scalar(raw: &str) -> (res: CelValue)
    ensures
        reads_as(raw@, res),
{
    if crate::text::str_eq(raw, "null") {
        return CelValue::Null;
    }
    if crate::text::str_eq(raw, "true") {
        return CelValue::Bool(true);
    }
    if crate::text::str_eq(raw, "false") {
        return CelValue::Bool(false);
    }
    if let Some(i) = parse_i64(raw) {
        return CelValue::Int(i);
    }
    if let Some(u) = parse_u64(raw) {
        return CelValue::UInt(u);
    }
    if is_float(raw) {
        return CelValue::Float(owned(raw));
    }
    CelValue::Str(owned(raw))
}

} // verus!
