//! The string extension functions of CEL expressions: `charAt`, `indexOf`,
//! `lastIndexOf`, `join`, `lowerAscii`, `upperAscii`, `trim`, `replace`,
//! `split` and `substring`.
use crate::cel::{CelValue, FunctionError, FunctionErrorKind};
use crate::text::owned;
use vstd::prelude::*;

verus! {

/// The error of `function` for the reason `kind`.
pub open spec fn is_error(r: Result<CelValue, FunctionError>, function: Seq<char>, kind: FunctionErrorKind) -> bool {
    r matches Err(e) && e.function@ == function && e.kind == kind
}

/// Whether `r` is the string value `s`.
pub open spec fn is_str(r: Result<CelValue, FunctionError>, s: Seq<char>) -> bool {
    r matches Ok(CelValue::Str(v)) && v@ == s
}

fn error(function: &str, kind: FunctionErrorKind) -> (res: Result<CelValue, FunctionError>)
    ensures
        is_error(res, function@, kind),
{
    Err(FunctionError { function: owned(function), kind })
}

/// `charAt`: the character at index `arg` of `this`, as a string.
pub fn char_at(this: &str, arg: i64) -> (res: Result<CelValue, FunctionError>)
    ensures
        (arg as usize) < this@.len() ==> is_str(res, seq![this@[(arg as usize) as int]]),
        (arg as usize) >= this@.len() ==> is_error(res, "String.charAt"@, FunctionErrorKind::NoSuchIndex),
{
    let chars = crate::text::chars_of(this);
    let idx = arg as usize;
    if idx < chars.len() {
        let mut s = String::new();
        s.push(chars[idx]);
        assert(s@ =~= seq![this@[idx as int]]);
        Ok(CelValue::Str(s))
    } else {
        error("String.charAt", FunctionErrorKind::NoSuchIndex)
    }
}

/// An integer argument taken as an index: a signed one is reinterpreted
/// as unsigned, as a cast does.
pub open spec fn index_arg(v: CelValue) -> Option<usize> {
    match v {
        CelValue::Int(i) => Some(i as usize),
        CelValue::UInt(u) => Some(u as usize),
        _ => None,
    }
}

fn get_index_arg(v: &CelValue) -> (res: Option<usize>)
    ensures
        res == index_arg(*v),
{
    match v {
        CelValue::Int(i) => Some(*i as usize),
        CelValue::UInt(u) => Some(*u as usize),
        _ => None,
    }
}

/// The ASCII lower case of a character; other characters stay.
pub open spec fn ascii_lower(c: char) -> char {
    if 'A' <= c && c <= 'Z' {
        ((c as u32) + 32) as char
    } else {
        c
    }
}

/// The ASCII upper case of a character; other characters stay.
pub open spec fn ascii_upper(c: char) -> char {
    if 'a' <= c && c <= 'z' {
        ((c as u32) - 32) as char
    } else {
        c
    }
}

/// `lowerAscii`: `this` with its ASCII letters in lower case.
pub fn lower_ascii(this: &str) -> (res: Result<CelValue, FunctionError>)
    ensures
        is_str(res, this@.map_values(|c: char| ascii_lower(c))),
{
    let chars = crate::text::chars_of(this);
    let mut out = String::new();
    let n = chars.len();
    for i in 0..n
        invariant
            n == chars@.len(),
            chars@ == this@,
            out@ == this@.take(i as int).map_values(|c: char| ascii_lower(c)),
    {
        let c = chars[i];
        let l = if 'A' <= c && c <= 'Z' { ((c as u8) + 32) as char } else { c };
        out.push(l);
        assert(this@.take(i + 1).map_values(|c: char| ascii_lower(c)) =~= this@.take(i as int).map_values(|c: char| ascii_lower(c)).push(ascii_lower(c)));
    }
    assert(this@.take(n as int) =~= this@);
    Ok(CelValue::Str(out))
}

/// `upperAscii`: `this` with its ASCII letters in upper case.
pub fn upper_ascii(this: &str) -> (res: Result<CelValue, FunctionError>)
    ensures
        is_str(res, this@.map_values(|c: char| ascii_upper(c))),
{
    let chars = crate::text::chars_of(this);
    let mut out = String::new();
    let n = chars.len();
    for i in 0..n
        invariant
            n == chars@.len(),
            chars@ == this@,
            out@ == this@.take(i as int).map_values(|c: char| ascii_upper(c)),
    {
        let c = chars[i];
        let u = if 'a' <= c && c <= 'z' { ((c as u8) - 32) as char } else { c };
        out.push(u);
        assert(this@.take(i + 1).map_values(|c: char| ascii_upper(c)) =~= this@.take(i as int).map_values(|c: char| ascii_upper(c)).push(ascii_upper(c)));
    }
    assert(this@.take(n as int) =~= this@);
    Ok(CelValue::Str(out))
}

/// Whether a character has the Unicode `White_Space` property.
pub open spec fn is_white_space(c: char) -> bool {
    ||| '\t' <= c && c <= '\r'
    ||| c == ' '
    ||| c == '\u{85}'
    ||| c == '\u{a0}'
    ||| c == '\u{1680}'
    ||| '\u{2000}' <= c && c <= '\u{200a}'
    ||| c == '\u{2028}'
    ||| c == '\u{2029}'
    ||| c == '\u{202f}'
    ||| c == '\u{205f}'
    ||| c == '\u{3000}'
}

fn white_space(c: char) -> (res: bool)
    ensures
        res == is_white_space(c),
{
    ('\t' <= c && c <= '\r') || c == ' ' || c == '\u{85}' || c == '\u{a0}' || c == '\u{1680}'
        || ('\u{2000}' <= c && c <= '\u{200a}') || c == '\u{2028}' || c == '\u{2029}'
        || c == '\u{202f}' || c == '\u{205f}' || c == '\u{3000}'
}

/// `s` without its leading white space.
pub open spec fn trim_start(s: Seq<char>) -> Seq<char>
    decreases s.len(),
{
    if s.len() > 0 && is_white_space(s[0]) {
        trim_start(s.drop_first())
    } else {
        s
    }
}

/// `s` without its trailing white space.
pub open spec fn trim_end(s: Seq<char>) -> Seq<char>
    decreases s.len(),
{
    if s.len() > 0 && is_white_space(s.last()) {
        trim_end(s.drop_last())
    } else {
        s
    }
}

/// `trim`: `this` without leading and trailing white space.
pub fn trim(this: &str) -> (res: Result<CelValue, FunctionError>)
    ensures
        is_str(res, trim_end(trim_start(this@))),
{
    let chars = crate::text::chars_of(this);
    let n = chars.len();
    let mut a: usize = 0;
    assert(this@.subrange(0, n as int) =~= this@);
    while a < n && white_space(chars[a])
        invariant
            n == chars@.len(),
            chars@ == this@,
            a <= n,
            trim_start(this@) == trim_start(this@.subrange(a as int, n as int)),
        decreases n - a,
    {
        assert(this@.subrange(a as int, n as int).drop_first() =~= this@.subrange(a + 1, n as int));
        a += 1;
    }
    assert(trim_start(this@) == this@.subrange(a as int, n as int));
    let mut b: usize = n;
    while b > a && white_space(chars[b - 1])
        invariant
            n == chars@.len(),
            chars@ == this@,
            a <= b <= n,
            trim_end(trim_start(this@)) == trim_end(this@.subrange(a as int, b as int)),
        decreases b,
    {
        assert(this@.subrange(a as int, b as int).drop_last() =~= this@.subrange(a as int, b - 1));
        b -= 1;
    }
    let mut out = String::new();
    for i in a..b
        invariant
            n == chars@.len(),
            chars@ == this@,
            a <= b <= n,
            out@ == this@.subrange(a as int, i as int),
    {
        out.push(chars[i]);
        assert(this@.subrange(a as int, i + 1) =~= this@.subrange(a as int, i as int).push(this@[i as int]));
    }
    Ok(CelValue::Str(out))
}

/// `substring`: the characters of `this` from index `args[0]` up to index
/// `args[1]` (or the end), both clamped to the length.
pub open spec fn substring_of(s: Seq<char>, start: usize, end: usize) -> Seq<char> {
    let a = if start < s.len() { start as int } else { s.len() as int };
    let b = if end < s.len() { end as int } else { s.len() as int };
    s.subrange(a, b)
}

/// `substring(start)` or `substring(start, end)` over the characters of
/// `this`; integer arguments are taken as indices.
pub fn substring(this: &str, args: &[CelValue]) -> (res: Result<CelValue, FunctionError>)
    ensures
        !(1 <= args@.len() <= 2) ==> is_error(res, "String.substring"@, FunctionErrorKind::WrongArgumentCount),
        1 <= args@.len() <= 2 ==> {
            let start = index_arg(args@[0]);
            let end = if args@.len() == 2 { index_arg(args@[1]) } else { Some(this@.len() as usize) };
            if start is None {
                is_error(res, "String.substring"@, FunctionErrorKind::WrongArgumentType(0))
            } else if end is None {
                is_error(res, "String.substring"@, FunctionErrorKind::WrongArgumentType(1))
            } else if end->0 < start->0 {
                is_error(res, "String.substring"@, FunctionErrorKind::EndBeforeStart)
            } else {
                is_str(res, substring_of(this@, start->0, end->0))
            }
        },
{
    if args.len() < 1 || args.len() > 2 {
        return error("String.substring", FunctionErrorKind::WrongArgumentCount);
    }
    let chars = crate::text::chars_of(this);
    let start = match get_index_arg(&args[0]) {
        Some(v) => v,
        None => return error("String.substring", FunctionErrorKind::WrongArgumentType(0)),
    };
    let end = if args.len() == 2 {
        match get_index_arg(&args[1]) {
            Some(v) => v,
            None => return error("String.substring", FunctionErrorKind::WrongArgumentType(1)),
        }
    } else {
        chars.len()
    };
    if end < start {
        return error("String.substring", FunctionErrorKind::EndBeforeStart);
    }
    let n = chars.len();
    let a = if start < n { start } else { n };
    let b = if end < n { end } else { n };
    let mut out = String::new();
    for i in a..b
        invariant
            n == chars@.len(),
            chars@ == this@,
            a <= b <= n,
            out@ == this@.subrange(a as int, i as int),
    {
        out.push(chars[i]);
        assert(this@.subrange(a as int, i + 1) =~= this@.subrange(a as int, i as int).push(this@[i as int]));
    }
    Ok(CelValue::Str(out))
}

/// One fewer of an optional count; no count stays no count.
pub open spec fn one_fewer(n: Option<nat>) -> Option<nat> {
    match n {
        Some(k) => Some((k - 1) as nat),
        None => None,
    }
}

/// `s` with its first `n` matches of `from` replaced by `to` (all of them
/// when `n` is `None`). Matches are taken from left to right without
/// overlapping; an empty `from` matches before each character and at the
/// end.
pub open spec fn replaced(s: Seq<char>, from: Seq<char>, to: Seq<char>, n: Option<nat>) -> Seq<char>
    decreases s.len(),
{
    if n == Some(0nat) {
        s
    } else if from.len() == 0 {
        if s.len() == 0 {
            to
        } else {
            to + seq![s[0]] + replaced(s.drop_first(), from, to, one_fewer(n))
        }
    } else if crate::text::occurs_at(s, from, 0) {
        to + replaced(s.skip(from.len() as int), from, to, one_fewer(n))
    } else if s.len() == 0 {
        s
    } else {
        seq![s[0]] + replaced(s.drop_first(), from, to, n)
    }
}

/// A string argument.
pub open spec fn str_arg(v: CelValue) -> Option<Seq<char>> {
    match v {
        CelValue::Str(s) => Some(s@),
        _ => None,
    }
}

/// Replaces the first `limit` matches (all when `limit` is `None`).
fn replace_chars(s: &Vec<char>, from: &Vec<char>, to: &str, limit: Option<usize>) -> (res: String)
    ensures
        res@ == replaced(s@, from@, to@, match limit {
            Some(k) => Some(k as nat),
            None => None::<nat>,
        }),
{
    let ghost target = replaced(s@, from@, to@, match limit {
        Some(k) => Some(k as nat),
        None => None::<nat>,
    });
    let n = s.len();
    let fl = from.len();
    let mut out = String::new();
    let mut i: usize = 0;
    let mut rem = limit;
    let mut done = false;
    assert(s@.skip(0) =~= s@);
    while !done
        invariant
            n == s@.len(),
            fl == from@.len(),
            i <= n,
            done ==> out@ == target,
            !done ==> out@ + replaced(s@.skip(i as int), from@, to@, match rem {
                Some(k) => Some(k as nat),
                None => None::<nat>,
            }) == target,
        decreases n - i + if done { 0int } else { 1int },
    {
        let ghost r = match rem {
            Some(k) => Some(k as nat),
            None => None::<nat>,
        };
        let ghost rest = s@.skip(i as int);
        if rem == Some(0usize) {
            let ghost before = out@;
            for j in i..n
                invariant
                    n == s@.len(),
                    out@ == before + s@.subrange(i as int, j as int),
            {
                out.push(s[j]);
                assert(s@.subrange(i as int, j + 1) =~= s@.subrange(i as int, j as int).push(s@[j as int]));
            }
            assert(s@.subrange(i as int, n as int) =~= rest);
            done = true;
        } else if fl == 0 {
            out.push_str(to);
            if i == n {
                assert(rest.len() == 0);
                done = true;
            } else {
                out.push(s[i]);
                assert(rest.drop_first() =~= s@.skip(i + 1));
                rem = match rem {
                    Some(k) => Some(k - 1),
                    None => None,
                };
                i += 1;
            }
        } else if crate::text::occurs_at_exec(s, from, i) {
            assert(rest.subrange(0, fl as int) =~= s@.subrange(i as int, i + fl));
            assert(rest.skip(fl as int) =~= s@.skip(i + fl));
            out.push_str(to);
            rem = match rem {
                Some(k) => Some(k - 1),
                None => None,
            };
            i += fl;
        } else if i == n {
            done = true;
        } else {
            assert(i + fl <= n ==> rest.subrange(0, fl as int) =~= s@.subrange(i as int, i + fl));
            assert(rest.drop_first() =~= s@.skip(i + 1));
            out.push(s[i]);
            i += 1;
        }
    }
    out
}

/// `replace(from, to)` or `replace(from, to, n)`: `this` with its matches
/// of `from` (the first `n` of them, an integer taken as a count)
/// replaced by `to`.
pub fn replace(this: &str, args: &[CelValue]) -> (res: Result<CelValue, FunctionError>)
    ensures
        !(2 <= args@.len() <= 3) ==> is_error(res, "String.replace"@, FunctionErrorKind::WrongArgumentCount),
        2 <= args@.len() <= 3 ==> {
            if str_arg(args@[0]) is None {
                is_error(res, "String.replace"@, FunctionErrorKind::WrongArgumentType(0))
            } else if str_arg(args@[1]) is None {
                is_error(res, "String.replace"@, FunctionErrorKind::WrongArgumentType(1))
            } else if args@.len() == 3 && index_arg(args@[2]) is None {
                is_error(res, "String.replace"@, FunctionErrorKind::WrongArgumentType(2))
            } else {
                is_str(res, replaced(this@, str_arg(args@[0])->0, str_arg(args@[1])->0,
                    if args@.len() == 3 { Some(index_arg(args@[2])->0 as nat) } else { None }))
            }
        },
{
    if args.len() < 2 || args.len() > 3 {
        return error("String.replace", FunctionErrorKind::WrongArgumentCount);
    }
    let from = match &args[0] {
        CelValue::Str(s) => s,
        _ => return error("String.replace", FunctionErrorKind::WrongArgumentType(0)),
    };
    let to = match &args[1] {
        CelValue::Str(s) => s,
        _ => return error("String.replace", FunctionErrorKind::WrongArgumentType(1)),
    };
    let limit = if args.len() == 3 {
        match get_index_arg(&args[2]) {
            Some(k) => Some(k),
            None => return error("String.replace", FunctionErrorKind::WrongArgumentType(2)),
        }
    } else {
        None
    };
    let chars = crate::text::chars_of(this);
    let from_chars = crate::text::chars_of(from.as_str());
    Ok(CelValue::Str(replace_chars(&chars, &from_chars, to.as_str(), limit)))
}

/// The pieces of `s` split at matches of a non-empty `sep`, the current
/// piece having begun with `cur`; at most `n` pieces (`None`: no limit),
/// the last of which holds the rest of `s`.
pub open spec fn split_pieces(s: Seq<char>, sep: Seq<char>, cur: Seq<char>, n: Option<nat>) -> Seq<Seq<char>>
    decreases s.len(),
{
    if n == Some(1nat) {
        seq![cur + s]
    } else if s.len() == 0 {
        seq![cur]
    } else if sep.len() > 0 && crate::text::occurs_at(s, sep, 0) {
        seq![cur] + split_pieces(s.skip(sep.len() as int), sep, Seq::empty(), one_fewer(n))
    } else {
        split_pieces(s.drop_first(), sep, cur.push(s[0]), n)
    }
}

/// The pieces of `s` split between its characters: one per character, and
/// an empty one at the end; at most `n` pieces, the last holding the rest.
pub open spec fn split_chars(s: Seq<char>, n: Option<nat>) -> Seq<Seq<char>>
    decreases s.len(),
{
    if n == Some(1nat) {
        seq![s]
    } else if s.len() == 0 {
        seq![Seq::empty()]
    } else {
        seq![seq![s[0]]] + split_chars(s.drop_first(), one_fewer(n))
    }
}

/// `s` split at the matches of `sep` into at most `n` pieces (`None`: no
/// limit), the last piece holding the rest of `s`. An empty `sep` matches
/// at the start, between characters and at the end.
pub open spec fn split_of(s: Seq<char>, sep: Seq<char>, n: Option<nat>) -> Seq<Seq<char>> {
    if n == Some(0nat) {
        Seq::empty()
    } else if sep.len() > 0 {
        split_pieces(s, sep, Seq::empty(), n)
    } else if n == Some(1nat) {
        seq![s]
    } else {
        seq![Seq::<char>::empty()] + split_chars(s, one_fewer(n))
    }
}

/// Whether `r` is a list of the string values `items`.
pub open spec fn is_str_list(r: Result<CelValue, FunctionError>, items: Seq<Seq<char>>) -> bool {
    r matches Ok(CelValue::List(l)) && l@.len() == items.len() && forall|k: int|
        0 <= k < items.len() ==> (#[trigger] l@[k] matches CelValue::Str(x) && x@ == items[k])
}

/// The strings of `v`, which are all string values.
pub open spec fn holds_strs(v: Seq<CelValue>, items: Seq<Seq<char>>) -> bool {
    v.len() == items.len() && forall|k: int| 0 <= k < items.len() ==> (#[trigger] v[k] matches CelValue::Str(x) && x@ == items[k])
}

fn push_str_value(v: &mut Vec<CelValue>, s: String, items: Ghost<Seq<Seq<char>>>)
    requires
        holds_strs(old(v)@, items@),
    ensures
        holds_strs(final(v)@, items@.push(s@)),
{
    v.push(CelValue::Str(s));
    assert forall|k: int| 0 <= k < items@.push(s@).len() implies (#[trigger] v@[k] matches CelValue::Str(x) && x@ == items@.push(s@)[k]) by {
        if k < items@.len() {
            assert(v@[k] == old(v)@[k]);
        }
    }
}

fn split_chars_exec(s: &Vec<char>, sep: &Vec<char>, limit: Option<usize>) -> (res: Vec<CelValue>)
    requires
        sep@.len() > 0,
        limit != Some(0usize),
    ensures
        holds_strs(res@, split_pieces(s@, sep@, Seq::empty(), match limit {
            Some(k) => Some(k as nat),
            None => None::<nat>,
        })),
{
    let ghost target = split_pieces(s@, sep@, Seq::empty(), match limit {
        Some(k) => Some(k as nat),
        None => None::<nat>,
    });
    let n = s.len();
    let fl = sep.len();
    let mut pieces: Vec<CelValue> = Vec::new();
    let ghost mut items: Seq<Seq<char>> = Seq::empty();
    let mut cur = String::new();
    let mut i: usize = 0;
    let mut rem = limit;
    let mut done = false;
    assert(s@.skip(0) =~= s@);
    while !done
        invariant
            n == s@.len(),
            fl == sep@.len(),
            fl > 0,
            i <= n,
            rem != Some(0usize),
            holds_strs(pieces@, items),
            done ==> items == target,
            !done ==> items + split_pieces(s@.skip(i as int), sep@, cur@, match rem {
                Some(k) => Some(k as nat),
                None => None::<nat>,
            }) == target,
        decreases n - i + if done { 0int } else { 1int },
    {
        let ghost rest = s@.skip(i as int);
        if rem == Some(1usize) {
            let ghost before = cur@;
            for j in i..n
                invariant
                    n == s@.len(),
                    cur@ == before + s@.subrange(i as int, j as int),
            {
                cur.push(s[j]);
                assert(s@.subrange(i as int, j + 1) =~= s@.subrange(i as int, j as int).push(s@[j as int]));
            }
            assert(s@.subrange(i as int, n as int) =~= rest);
            let ghost piece = cur@;
            let mut last = String::new();
            std::mem::swap(&mut last, &mut cur);
            push_str_value(&mut pieces, last, Ghost(items));
            proof {
                items = items.push(piece);
            }
            done = true;
        } else if i == n {
            let ghost piece = cur@;
            let mut last = String::new();
            std::mem::swap(&mut last, &mut cur);
            push_str_value(&mut pieces, last, Ghost(items));
            proof {
                items = items.push(piece);
            }
            done = true;
        } else if crate::text::occurs_at_exec(s, sep, i) {
            assert(rest.subrange(0, fl as int) =~= s@.subrange(i as int, i + fl));
            assert(rest.skip(fl as int) =~= s@.skip(i + fl));
            let ghost piece = cur@;
            let mut last = String::new();
            std::mem::swap(&mut last, &mut cur);
            push_str_value(&mut pieces, last, Ghost(items));
            proof {
                items = items.push(piece);
            }
            rem = match rem {
                Some(k) => Some(k - 1),
                None => None,
            };
            i += fl;
        } else {
            assert(i + fl <= n ==> rest.subrange(0, fl as int) =~= s@.subrange(i as int, i + fl));
            assert(rest.drop_first() =~= s@.skip(i + 1));
            cur.push(s[i]);
            i += 1;
        }
    }
    pieces
}

fn split_between_chars(s: &Vec<char>, limit: Option<usize>) -> (res: Vec<CelValue>)
    requires
        limit != Some(0usize),
    ensures
        holds_strs(res@, split_chars(s@, match limit {
            Some(k) => Some(k as nat),
            None => None::<nat>,
        })),
{
    let ghost target = split_chars(s@, match limit {
        Some(k) => Some(k as nat),
        None => None::<nat>,
    });
    let n = s.len();
    let mut pieces: Vec<CelValue> = Vec::new();
    let ghost mut items: Seq<Seq<char>> = Seq::empty();
    let mut i: usize = 0;
    let mut rem = limit;
    let mut done = false;
    assert(s@.skip(0) =~= s@);
    while !done
        invariant
            n == s@.len(),
            i <= n,
            rem != Some(0usize),
            holds_strs(pieces@, items),
            done ==> items == target,
            !done ==> items + split_chars(s@.skip(i as int), match rem {
                Some(k) => Some(k as nat),
                None => None::<nat>,
            }) == target,
        decreases n - i + if done { 0int } else { 1int },
    {
        let ghost rest = s@.skip(i as int);
        let mut piece = String::new();
        if rem == Some(1usize) {
            for j in i..n
                invariant
                    n == s@.len(),
                    piece@ == s@.subrange(i as int, j as int),
            {
                piece.push(s[j]);
                assert(s@.subrange(i as int, j + 1) =~= s@.subrange(i as int, j as int).push(s@[j as int]));
            }
            assert(s@.subrange(i as int, n as int) =~= rest);
            done = true;
        } else if i == n {
            done = true;
        } else {
            piece.push(s[i]);
            assert(rest.drop_first() =~= s@.skip(i + 1));
            rem = match rem {
                Some(k) => Some(k - 1),
                None => None,
            };
            i += 1;
        }
        let ghost pv = piece@;
        push_str_value(&mut pieces, piece, Ghost(items));
        proof {
            items = items.push(pv);
        }
    }
    pieces
}

/// `split(sep)` or `split(sep, n)`: `this` split at the matches of `sep`,
/// into at most `n` pieces when `n` is given (an integer taken as a count).
pub fn split(this: &str, args: &[CelValue]) -> (res: Result<CelValue, FunctionError>)
    ensures
        !(1 <= args@.len() <= 2) ==> is_error(res, "String.split"@, FunctionErrorKind::WrongArgumentCount),
        1 <= args@.len() <= 2 ==> {
            if str_arg(args@[0]) is None {
                is_error(res, "String.split"@, FunctionErrorKind::WrongArgumentType(0))
            } else if args@.len() == 2 && index_arg(args@[1]) is None {
                is_error(res, "String.split"@, FunctionErrorKind::WrongArgumentType(1))
            } else {
                is_str_list(res, split_of(this@, str_arg(args@[0])->0,
                    if args@.len() == 2 { Some(index_arg(args@[1])->0 as nat) } else { None }))
            }
        },
{
    if args.len() < 1 || args.len() > 2 {
        return error("String.split", FunctionErrorKind::WrongArgumentCount);
    }
    let sep = match &args[0] {
        CelValue::Str(s) => s,
        _ => return error("String.split", FunctionErrorKind::WrongArgumentType(0)),
    };
    let limit = if args.len() == 2 {
        match get_index_arg(&args[1]) {
            Some(k) => Some(k),
            None => return error("String.split", FunctionErrorKind::WrongArgumentType(1)),
        }
    } else {
        None
    };
    let chars = crate::text::chars_of(this);
    let sep_chars = crate::text::chars_of(sep.as_str());
    let list = if limit == Some(0usize) {
        Vec::new()
    } else if sep_chars.len() > 0 {
        split_chars_exec(&chars, &sep_chars, limit)
    } else if limit == Some(1usize) {
        let mut v = Vec::new();
        push_str_value(&mut v, crate::text::owned(this), Ghost(Seq::empty()));
        assert(Seq::<Seq<char>>::empty().push(this@) =~= seq![this@]);
        v
    } else {
        let mut v = Vec::new();
        push_str_value(&mut v, String::new(), Ghost(Seq::empty()));
        let rest = split_between_chars(&chars, match limit {
            Some(k) => Some(k - 1),
            None => None,
        });
        let ghost items = seq![Seq::<char>::empty()];
        assert(Seq::<Seq<char>>::empty().push(Seq::<char>::empty()) =~= items);
        let ghost rest_items = split_chars(this@, one_fewer(match limit {
            Some(k) => Some(k as nat),
            None => None::<nat>,
        }));
        let ghost rest_values = rest@;
        let mut rest = rest;
        v.append(&mut rest);
        assert forall|k: int| 0 <= k < (items + rest_items).len() implies (#[trigger] v@[k] matches CelValue::Str(x) && x@ == (items + rest_items)[k]) by {
            if k >= 1 {
                assert(v@[k] == rest_values[k - 1]);
            }
        }
        v
    };
    Ok(CelValue::List(list))
}

/// Whether every item of `v` is a string value.
pub open spec fn all_strs(v: Seq<CelValue>) -> bool {
    forall|k: int| 0 <= k < v.len() ==> #[trigger] v[k] is Str
}

/// The strings of the string values of `v`.
pub open spec fn strs_of(v: Seq<CelValue>) -> Seq<Seq<char>> {
    v.map_values(|x: CelValue| match x {
        CelValue::Str(s) => s@,
        _ => Seq::<char>::empty(),
    })
}

/// `join()` or `join(sep)`: the strings of the list `this` joined with
/// `sep` (or nothing) between them.
pub fn join(this: &Vec<CelValue>, args: &[CelValue]) -> (res: Result<CelValue, FunctionError>)
    ensures
        args@.len() >= 1 && str_arg(args@[0]) is None ==> is_error(res, "List.join"@, FunctionErrorKind::WrongArgumentType(0)),
        !(args@.len() >= 1 && str_arg(args@[0]) is None) ==> {
            if !all_strs(this@) {
                is_error(res, "List.join"@, FunctionErrorKind::NotAllStrings)
            } else {
                is_str(res, crate::text::join_seq(strs_of(this@),
                    if args@.len() >= 1 { str_arg(args@[0])->0 } else { Seq::empty() }))
            }
        },
{
    let sep: String = if args.len() >= 1 {
        match &args[0] {
            CelValue::Str(s) => owned(s.as_str()),
            _ => return error("List.join", FunctionErrorKind::WrongArgumentType(0)),
        }
    } else {
        String::new()
    };
    let mut parts: Vec<String> = Vec::new();
    let n = this.len();
    for i in 0..n
        invariant
            n == this@.len(),
            all_strs(this@.take(i as int)),
            crate::text::views(parts@) == strs_of(this@.take(i as int)),
            args@.len() >= 1 ==> str_arg(args@[0]) is Some,
    {
        match &this[i] {
            CelValue::Str(s) => {
                let ghost old_parts = parts@;
                parts.push(owned(s.as_str()));
                assert(crate::text::views(parts@) =~= crate::text::views(old_parts).push(s@));
                assert(this@.take(i + 1) =~= this@.take(i as int).push(this@[i as int]));
                assert(crate::text::views(parts@) =~= strs_of(this@.take(i + 1)));
            },
            _ => {
                assert(!(this@[i as int] is Str));
                return error("List.join", FunctionErrorKind::NotAllStrings);
            },
        }
    }
    assert(this@.take(n as int) =~= this@);
    let joined = crate::text::join(&parts, sep.as_str());
    Ok(CelValue::Str(joined))
}

/// The first index at or after `i` where `p` occurs in `s`, or -1.
pub open spec fn find_from(s: Seq<char>, p: Seq<char>, i: int) -> int
    decreases s.len() + 1 - i,
{
    if i < 0 || i > s.len() {
        -1
    } else if crate::text::occurs_at(s, p, i) {
        i
    } else {
        find_from(s, p, i + 1)
    }
}

/// The last index at or before `i` where `p` occurs in `s`, or -1.
pub open spec fn rfind_upto(s: Seq<char>, p: Seq<char>, i: int) -> int
    decreases i + 1,
{
    if i < 0 {
        -1
    } else if i <= s.len() && crate::text::occurs_at(s, p, i) {
        i
    } else {
        rfind_upto(s, p, i - 1)
    }
}

/// The characters of `s` from byte `base` on.
pub open spec fn chars_from_byte(s: Seq<char>, base: int) -> Seq<char> {
    vstd::utf8::decode_utf8(vstd::utf8::encode_utf8(s).subrange(base, crate::text::byte_len(s) as int))
}

/// Whether `res` reports a match at character index `j` of `s` (none when
/// `j` is negative) as its byte index plus `base`.
pub open spec fn reports_match(res: Result<CelValue, FunctionError>, s: Seq<char>, j: int, base: int) -> bool {
    if j < 0 {
        res matches Ok(CelValue::Int(v)) && v == -1
    } else {
        res matches Ok(CelValue::UInt(v)) && v == base + crate::text::byte_len(s.take(j))
    }
}

fn find_chars(s: &Vec<char>, p: &Vec<char>) -> (res: Option<usize>)
    ensures
        match res {
            Some(j) => j == find_from(s@, p@, 0) && j <= s@.len(),
            None => find_from(s@, p@, 0) < 0,
        },
{
    let n = s.len();
    for i in 0..n
        invariant
            n == s@.len(),
            find_from(s@, p@, 0) == find_from(s@, p@, i as int),
    {
        if crate::text::occurs_at_exec(s, p, i) {
            return Some(i);
        }
    }
    if crate::text::occurs_at_exec(s, p, n) {
        Some(n)
    } else {
        assert(find_from(s@, p@, n + 1) == -1);
        None
    }
}

fn rfind_chars(s: &Vec<char>, p: &Vec<char>) -> (res: Option<usize>)
    ensures
        match res {
            Some(j) => j == rfind_upto(s@, p@, s@.len() as int) && j <= s@.len(),
            None => rfind_upto(s@, p@, s@.len() as int) < 0,
        },
{
    let n = s.len();
    let mut i = n;
    loop
        invariant
            n == s@.len(),
            i <= n,
            rfind_upto(s@, p@, n as int) == rfind_upto(s@, p@, i as int),
        decreases i,
    {
        if crate::text::occurs_at_exec(s, p, i) {
            return Some(i);
        }
        if i == 0 {
            assert(rfind_upto(s@, p@, -1) == -1);
            return None;
        }
        i -= 1;
    }
}

/// The characters of `s` from byte `base`, which starts a character.
fn tail_chars(s: &str, base: usize) -> (res: Vec<char>)
    requires
        vstd::utf8::is_char_boundary(vstd::utf8::encode_utf8(s@), base as int),
    ensures
        res@ == chars_from_byte(s@, base as int),
{
    broadcast use vstd::utf8::group_utf8_lib;

    let (_, tail) = s.split_at(base);
    let res = crate::text::chars_of(tail);
    assert(vstd::utf8::decode_utf8(vstd::utf8::encode_utf8(tail@)) == tail@);
    res
}

/// The number of bytes of a string slice, which fits in a `usize`.
fn byte_count(s: &str) -> (res: usize)
    ensures
        res == crate::text::byte_len(s@),
{
    let bytes = s.as_bytes();
    bytes.len()
}

/// The byte index of the first match of `p` in the characters `s`.
fn report_first(s: &Vec<char>, p: &Vec<char>, base: usize) -> (res: Result<CelValue, FunctionError>)
    requires
        base + crate::text::byte_len(s@) <= usize::MAX,
    ensures
        reports_match(res, s@, find_from(s@, p@, 0), base as int),
{
    match find_chars(s, p) {
        None => Ok(CelValue::Int(-1)),
        Some(j) => {
            proof {
                crate::text::lemma_byte_len_prefix(s@, j as int);
            }
            let off = crate::text::byte_offset(s, j);
            Ok(CelValue::UInt((base + off) as u64))
        },
    }
}

/// The byte index of the last match of `p` in the characters `s`.
fn report_last(s: &Vec<char>, p: &Vec<char>) -> (res: Result<CelValue, FunctionError>)
    requires
        crate::text::byte_len(s@) <= usize::MAX,
    ensures
        reports_match(res, s@, rfind_upto(s@, p@, s@.len() as int), 0),
{
    match rfind_chars(s, p) {
        None => Ok(CelValue::Int(-1)),
        Some(j) => {
            let off = crate::text::byte_offset(s, j);
            Ok(CelValue::UInt(off as u64))
        },
    }
}

/// `indexOf(arg)` or `indexOf(arg, base)`: the byte index in `this` of the
/// first occurrence of `arg` (at or after byte `base`), or -1. `args` are
/// all the arguments, `arg` among them.
pub fn index_of(this: &str, arg: &str, args: &[CelValue]) -> (res: Result<CelValue, FunctionError>)
    requires
        args@.len() == 2 && index_arg(args@[1]) is Some && index_arg(args@[1])->0 < crate::text::byte_len(this@)
            ==> vstd::utf8::is_char_boundary(vstd::utf8::encode_utf8(this@), index_arg(args@[1])->0 as int),
    ensures
        args@.len() == 1 ==> reports_match(res, this@, find_from(this@, arg@, 0), 0),
        args@.len() == 2 ==> {
            let base = index_arg(args@[1]);
            if base is None {
                is_error(res, "String.indexOf"@, FunctionErrorKind::WrongArgumentType(1))
            } else if base->0 >= crate::text::byte_len(this@) {
                res matches Ok(CelValue::Int(v)) && v == -1
            } else {
                let t = chars_from_byte(this@, base->0 as int);
                reports_match(res, t, find_from(t, arg@, 0), base->0 as int)
            }
        },
        !(1 <= args@.len() <= 2) ==> is_error(res, "String.indexOf"@, FunctionErrorKind::WrongArgumentCount),
{
    let total = byte_count(this);
    let pat = crate::text::chars_of(arg);
    if args.len() == 1 {
        let chars = crate::text::chars_of(this);
        report_first(&chars, &pat, 0)
    } else if args.len() == 2 {
        let base = match get_index_arg(&args[1]) {
            Some(b) => b,
            None => return error("String.indexOf", FunctionErrorKind::WrongArgumentType(1)),
        };
        if base >= total {
            return Ok(CelValue::Int(-1));
        }
        let tail = tail_chars(this, base);
        proof {
            broadcast use vstd::utf8::group_utf8_lib;
            let bytes = vstd::utf8::encode_utf8(this@);
            let rest = bytes.subrange(base as int, bytes.len() as int);
            assert(vstd::utf8::encode_utf8(tail@) == rest);
        }
        report_first(&tail, &pat, base)
    } else {
        error("String.indexOf", FunctionErrorKind::WrongArgumentCount)
    }
}

/// `lastIndexOf(arg)` or `lastIndexOf(arg, base)`: the byte index of the
/// last occurrence of `arg` in `this`, or -1; with `base`, the search runs
/// over the bytes from `base` on and the index is counted from `base`.
pub fn last_index_of(this: &str, arg: &str, args: &[CelValue]) -> (res: Result<CelValue, FunctionError>)
    requires
        args@.len() == 2 && index_arg(args@[1]) is Some && index_arg(args@[1])->0 < crate::text::byte_len(this@)
            ==> vstd::utf8::is_char_boundary(vstd::utf8::encode_utf8(this@), index_arg(args@[1])->0 as int),
    ensures
        args@.len() == 1 ==> reports_match(res, this@, rfind_upto(this@, arg@, this@.len() as int), 0),
        args@.len() == 2 ==> {
            let base = index_arg(args@[1]);
            if base is None {
                is_error(res, "String.lastIndexOf"@, FunctionErrorKind::WrongArgumentType(1))
            } else if base->0 >= crate::text::byte_len(this@) {
                res matches Ok(CelValue::Int(v)) && v == -1
            } else {
                let t = chars_from_byte(this@, base->0 as int);
                reports_match(res, t, rfind_upto(t, arg@, t.len() as int), 0)
            }
        },
        !(1 <= args@.len() <= 2) ==> is_error(res, "String.lastIndexOf"@, FunctionErrorKind::WrongArgumentCount),
{
    let total = byte_count(this);
    let pat = crate::text::chars_of(arg);
    if args.len() == 1 {
        let chars = crate::text::chars_of(this);
        report_last(&chars, &pat)
    } else if args.len() == 2 {
        let base = match get_index_arg(&args[1]) {
            Some(b) => b,
            None => return error("String.lastIndexOf", FunctionErrorKind::WrongArgumentType(1)),
        };
        if base >= total {
            return Ok(CelValue::Int(-1));
        }
        let tail = tail_chars(this, base);
        proof {
            broadcast use vstd::utf8::group_utf8_lib;
            let bytes = vstd::utf8::encode_utf8(this@);
            let rest = bytes.subrange(base as int, bytes.len() as int);
            assert(vstd::utf8::encode_utf8(tail@) == rest);
        }
        report_last(&tail, &pat)
    } else {
        error("String.lastIndexOf", FunctionErrorKind::WrongArgumentCount)
    }
}

/// Joining a first part onto a non-empty rest puts the separator between.
pub proof fn lemma_join_cons(a: Seq<char>, rest: Seq<Seq<char>>, sep: Seq<char>)
    requires
        rest.len() > 0,
    ensures
        crate::text::join_seq(seq![a] + rest, sep) == a + sep + crate::text::join_seq(rest, sep),
    decreases rest.len(),
{
    let x = seq![a] + rest;
    assert(x.len() >= 2);
    assert(x.last() == rest.last());
    assert(crate::text::join_seq(x, sep) == crate::text::join_seq(x.drop_last(), sep) + sep + x.last());
    if rest.len() == 1 {
        assert(x.drop_last() =~= seq![a]);
        assert(crate::text::join_seq(seq![a], sep) == a);
        assert(crate::text::join_seq(rest, sep) == rest[0]);
    } else {
        assert(x.drop_last() =~= seq![a] + rest.drop_last());
        lemma_join_cons(a, rest.drop_last(), sep);
        assert(crate::text::join_seq(rest, sep) == crate::text::join_seq(rest.drop_last(), sep) + sep + rest.last());
        assert(a + sep + crate::text::join_seq(rest.drop_last(), sep) + sep + rest.last()
            =~= a + sep + (crate::text::join_seq(rest.drop_last(), sep) + sep + rest.last()));
    }
}

/// A split always yields at least one piece.
pub proof fn lemma_split_pieces_nonempty(s: Seq<char>, sep: Seq<char>, cur: Seq<char>)
    ensures
        split_pieces(s, sep, cur, None).len() > 0,
    decreases s.len(),
{
    if s.len() == 0 {
    } else if sep.len() > 0 && crate::text::occurs_at(s, sep, 0) {
    } else {
        lemma_split_pieces_nonempty(s.drop_first(), sep, cur.push(s[0]));
    }
}

proof fn lemma_split_pieces_join(s: Seq<char>, sep: Seq<char>, cur: Seq<char>)
    requires
        sep.len() > 0,
    ensures
        crate::text::join_seq(split_pieces(s, sep, cur, None), sep) == cur + s,
    decreases s.len(),
{
    if s.len() == 0 {
        assert(cur + s =~= cur);
    } else if crate::text::occurs_at(s, sep, 0) {
        let rest = s.skip(sep.len() as int);
        lemma_split_pieces_join(rest, sep, Seq::empty());
        lemma_split_pieces_nonempty(rest, sep, Seq::empty());
        lemma_join_cons(cur, split_pieces(rest, sep, Seq::empty(), None), sep);
        assert(Seq::<char>::empty() + rest =~= rest);
        assert(s =~= sep + rest);
        assert(cur + sep + rest =~= cur + s);
    } else {
        lemma_split_pieces_join(s.drop_first(), sep, cur.push(s[0]));
        assert(cur.push(s[0]) + s.drop_first() =~= cur + s);
    }
}

proof fn lemma_split_chars_join(s: Seq<char>)
    ensures
        split_chars(s, None).len() > 0,
        crate::text::join_seq(split_chars(s, None), Seq::empty()) == s,
    decreases s.len(),
{
    if s.len() > 0 {
        lemma_split_chars_join(s.drop_first());
        lemma_join_cons(seq![s[0]], split_chars(s.drop_first(), None), Seq::empty());
        assert(seq![s[0]] + Seq::<char>::empty() + s.drop_first() =~= s);
    }
}

/// Splitting a string at a separator, without a limit, and joining the
/// pieces with that separator gives back the string.
pub proof fn lemma_split_then_join(s: Seq<char>, sep: Seq<char>)
    ensures
        crate::text::join_seq(split_of(s, sep, None), sep) == s,
{
    if sep.len() > 0 {
        lemma_split_pieces_join(s, sep, Seq::empty());
        assert(Seq::<char>::empty() + s =~= s);
    } else {
        lemma_split_chars_join(s);
        lemma_join_cons(Seq::empty(), split_chars(s, None), sep);
        assert(Seq::<char>::empty() + sep + s =~= s);
    }
}

/// `this` split at every match of a non-empty `sep`, as strings.
pub fn split_all(this: &str, sep: &str) -> (res: Vec<String>)
    requires
        sep@.len() > 0,
    ensures
        crate::text::views(res@) == split_of(this@, sep@, None),
{
    let chars = crate::text::chars_of(this);
    let sep_chars = crate::text::chars_of(sep);
    let values = split_chars_exec(&chars, &sep_chars, None);
    let ghost items = split_pieces(this@, sep@, Seq::empty(), None);
    let mut out: Vec<String> = Vec::new();
    let n = values.len();
    for i in 0..n
        invariant
            n == values@.len(),
            holds_strs(values@, items),
            crate::text::views(out@) == items.take(i as int),
    {
        match &values[i] {
            CelValue::Str(v) => {
                let ghost before = out@;
                out.push(owned(v.as_str()));
                assert(crate::text::views(out@) =~= crate::text::views(before).push(v@));
                assert(items.take(i + 1) =~= items.take(i as int).push(items[i as int]));
            },
            _ => {
                assert(values@[i as int] is Str);
            },
        }
    }
    assert(items.take(n as int) =~= items);
    out
}

} // verus!
