//! How the store task reads a body: which body it needs (the request's
//! before the response's), the fields it waits for, sorted without
//! repeats, and which parser reads it.
use crate::text::{chars_lt, lemma_chars_lt_total, lemma_chars_lt_transitive, lemma_chars_lt_irreflexive, str_lt, views};
use crate::token_usage::{strategy_for, StrategyKind};
use vstd::prelude::*;

verus! {

/// Whether `s` is in strictly increasing order.
pub open spec fn strictly_sorted(s: Seq<Seq<char>>) -> bool {
    forall|i: int, j: int| 0 <= i < j < s.len() ==> chars_lt(#[trigger] s[i], #[trigger] s[j])
}

/// The strings of `v` sorted, each once.
pub fn sorted_unique(v: &Vec<String>) -> (res: Vec<String>)
    ensures
        strictly_sorted(views(res@)),
        forall|x: Seq<char>| #[trigger] views(res@).contains(x) <==> views(v@).contains(x),
{
    let mut out: Vec<String> = Vec::new();
    let n = v.len();
    for i in 0..n
        invariant
            n == v@.len(),
            strictly_sorted(views(out@)),
            forall|x: Seq<char>| #[trigger] views(out@).contains(x) <==> views(v@.take(i as int)).contains(x),
    {
        let item = &v[i];
        let ghost before = views(out@);
        let m = out.len();
        let mut pos: usize = 0;
        while pos < m && str_lt(out[pos].as_str(), item.as_str())
            invariant
                m == out@.len(),
                pos <= m,
                before == views(out@),
                forall|k: int| 0 <= k < pos ==> chars_lt(#[trigger] before[k], item@),
            decreases m - pos,
        {
            pos += 1;
        }
        assert(v@.take(i + 1) =~= v@.take(i as int).push(v@[i as int]));
        assert(views(v@.take(i + 1)) =~= views(v@.take(i as int)).push(item@));
        proof {
            crate::pipeline::lemma_push_contains(views(v@.take(i as int)), item@);
        }
        let dup = pos < m && out[pos] == *item;
        if !dup {
            out.insert(pos, crate::text::owned(item.as_str()));
            proof {
                let now = views(out@);
                assert(now =~= before.insert(pos as int, item@));
                assert forall|a: int, b: int| 0 <= a < b < now.len() implies chars_lt(#[trigger] now[a], #[trigger] now[b]) by {
                    if pos < m {
                        lemma_chars_lt_total(before[pos as int], item@);
                        lemma_chars_lt_irreflexive(item@);
                    }
                    if a < pos && b == pos {
                    } else if a == pos && b > pos {
                        assert(now[b] == before[b - 1]);
                        if b - 1 > pos {
                            assert(chars_lt(before[pos as int], before[b - 1]));
                            if chars_lt(item@, before[pos as int]) {
                                lemma_chars_lt_transitive(item@, before[pos as int], before[b - 1]);
                            }
                        }
                        if pos < m && !chars_lt(item@, before[pos as int]) {
                            assert(chars_lt(before[pos as int], item@) || before[pos as int] == item@);
                        }
                    } else {
                        let a2 = if a < pos { a } else { a - 1 };
                        let b2 = if b < pos { b } else { b - 1 };
                        assert(now[a] == before[a2] && now[b] == before[b2]);
                    }
                }
                assert forall|x: Seq<char>| #[trigger] now.contains(x) <==> (before.contains(x) || x == item@) by {
                    if now.contains(x) {
                        let j = choose|j: int| 0 <= j < now.len() && now[j] == x;
                        if j < pos {
                            assert(before[j] == x);
                        } else if j > pos {
                            assert(before[j - 1] == x);
                        }
                    }
                    if before.contains(x) {
                        let j = choose|j: int| 0 <= j < before.len() && before[j] == x;
                        if j < pos {
                            assert(now[j] == x);
                        } else {
                            assert(now[j + 1] == x);
                        }
                    }
                    if x == item@ {
                        assert(now[pos as int] == x);
                    }
                }
            }
        } else {
            proof {
                assert(before[pos as int] == item@);
            }
        }
    }
    assert(v@.take(n as int) =~= v@);
    out
}

/// Which body the store task reads.
#[derive(Debug, Clone, Copy, PartialEq, Eq, Structural)]
pub enum BodySource {
    Request,
    Response,
}

/// What the store task needs of a body before it can run.
#[derive(Debug)]
pub enum BodyParseState {
    /// No body field is read.
    NotNeeded,
    /// These fields of that body, sorted and without repeats, are awaited.
    Pending(BodySource, Vec<String>),
    /// A parser reads that body.
    Active(BodySource),
}

/// What the store task waits for, given the body fields its predicate and
/// expression read: the request body's fields when there are any, else the
/// response body's, else nothing.
pub fn initial_body_state(request_fields: &Vec<String>, response_fields: &Vec<String>) -> (res: BodyParseState)
    ensures
        request_fields@.len() > 0 ==> (res matches BodyParseState::Pending(src, f) && src == BodySource::Request
            && strictly_sorted(views(f@))
            && forall|x: Seq<char>| #[trigger] views(f@).contains(x) <==> views(request_fields@).contains(x)),
        request_fields@.len() == 0 && response_fields@.len() > 0 ==> (res matches BodyParseState::Pending(src, f)
            && src == BodySource::Response && strictly_sorted(views(f@))
            && forall|x: Seq<char>| #[trigger] views(f@).contains(x) <==> views(response_fields@).contains(x)),
        request_fields@.len() == 0 && response_fields@.len() == 0 ==> res is NotNeeded,
{
    if request_fields.len() > 0 {
        BodyParseState::Pending(BodySource::Request, sorted_unique(request_fields))
    } else if response_fields.len() > 0 {
        BodyParseState::Pending(BodySource::Response, sorted_unique(response_fields))
    } else {
        BodyParseState::NotNeeded
    }
}

/// What became of reading the response headers.
#[derive(Debug)]
pub enum HeaderLookup {
    /// The headers.
    Available(Vec<(String, String)>),
    /// The host has none.
    Missing,
    /// Not available yet.
    Pending,
    /// Reading them failed.
    Failed,
}

/// Which parser reads a body: the request body is JSON; the response body
/// is read as events when its content type says so (as JSON when the
/// headers are missing or could not be read); none yet while the response
/// headers are not available.
pub fn parser_for(source: BodySource, headers: &HeaderLookup) -> (res: Option<StrategyKind>)
    ensures
        source == BodySource::Request ==> res == Some(StrategyKind::Json),
        source == BodySource::Response ==> res == match headers {
            HeaderLookup::Available(h) => Some(strategy_for(h@)),
            HeaderLookup::Pending => None,
            _ => Some(StrategyKind::Json),
        },
{
    match source {
        BodySource::Request => Some(StrategyKind::Json),
        BodySource::Response => match headers {
            HeaderLookup::Available(h) => Some(crate::token_usage::select_strategy(h)),
            HeaderLookup::Pending => None,
            _ => Some(StrategyKind::Json),
        },
    }
}

} // verus!
