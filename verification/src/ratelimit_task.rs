//! The rate limit task's decisions, made on what its expressions evaluated
//! to: which descriptor entries go to the rate limit service, which domain
//! and hits addend the request carries, and what the task does next.
use crate::cel::CelValue;
use crate::tasks::{
    generate_ratelimit_request_cel, header_text, header_text_of, ratelimit_request_cel, RateLimitDescriptor,
    RateLimitDescriptorEntry,
};
use crate::text::owned;
use vstd::prelude::*;

verus! {

/// A value that may still be on its way.
#[derive(Debug)]
pub enum AttributeState<T> {
    Available(T),
    Pending,
}

/// What evaluating the expression of a data item gave.
#[derive(Debug)]
pub struct DataEvaluation {
    /// The item's key.
    pub key: String,
    /// Its value, a value still pending, or why the evaluation failed.
    pub value: Result<AttributeState<CelValue>, String>,
}

/// What evaluating a set of conditional data gave: its predicates, all of
/// which must hold for its data to count, and its data items.
#[derive(Debug)]
pub struct ConditionalDataEvaluation {
    pub predicates: Result<AttributeState<bool>, String>,
    pub data: Vec<DataEvaluation>,
}

/// Whether a data key names one of the attributes that configure the
/// request rather than describe it.
pub open spec fn is_known_key(k: Seq<char>) -> bool {
    k == "ratelimit.domain"@ || k == "ratelimit.hits_addend"@
}

fn known_key(k: &str) -> (res: bool)
    ensures
        res == is_known_key(k@),
{
    crate::text::str_eq(k, "ratelimit.domain") || crate::text::str_eq(k, "ratelimit.hits_addend")
}

/// The text a scalar value is sent as: strings as they are, numbers and
/// booleans as their text, null as `null`; other values have none.
pub open spec fn scalar_text(v: CelValue) -> Option<Seq<char>> {
    match v {
        CelValue::Null => Some("null"@),
        _ => header_text(v),
    }
}

/// The message of an evaluation error for the item `key`.
pub open spec fn evaluation_failed(key: Seq<char>, e: Seq<char>) -> Seq<char> {
    "CEL evaluation error for '"@ + key + "': "@ + e
}

/// The message for a data item whose value is not a scalar.
pub open spec fn not_scalar() -> Seq<char> {
    "Only scalar values can be sent as data"@
}

/// Entries gathered from data items, in order: an error message, `None`
/// while a value is pending, or the (key, value) texts of the items whose
/// key is not a known attribute.
pub open spec fn items_outcome(items: Seq<DataEvaluation>) -> Result<Option<Seq<(Seq<char>, Seq<char>)>>, Seq<char>>
    decreases items.len(),
{
    if items.len() == 0 {
        Ok(Some(seq![]))
    } else {
        match items_outcome(items.drop_last()) {
            Ok(Some(acc)) => {
                let it = items.last();
                match it.value {
                    Err(e) => Err(evaluation_failed(it.key@, e@)),
                    Ok(AttributeState::Pending) => Ok(None),
                    Ok(AttributeState::Available(v)) => match scalar_text(v) {
                        None => Err(not_scalar()),
                        Some(t) => Ok(Some(if is_known_key(it.key@) { acc } else { acc.push((it.key@, t)) })),
                    },
                }
            },
            other => other,
        }
    }
}

/// Entries gathered from sets of conditional data, in order: sets whose
/// predicates do not hold are passed over; the first error or pending
/// value stops the gathering.
pub open spec fn sets_outcome(sets: Seq<ConditionalDataEvaluation>) -> Result<Option<Seq<(Seq<char>, Seq<char>)>>, Seq<char>>
    decreases sets.len(),
{
    if sets.len() == 0 {
        Ok(Some(seq![]))
    } else {
        match sets_outcome(sets.drop_last()) {
            Ok(Some(acc)) => {
                let set = sets.last();
                match set.predicates {
                    Err(e) => Err(e@),
                    Ok(AttributeState::Pending) => Ok(None),
                    Ok(AttributeState::Available(false)) => Ok(Some(acc)),
                    Ok(AttributeState::Available(true)) => match items_outcome(set.data@) {
                        Ok(Some(es)) => Ok(Some(acc + es)),
                        other => other,
                    },
                }
            },
            other => other,
        }
    }
}

/// The (key, value) texts of descriptor entries.
pub open spec fn entry_views(es: Seq<RateLimitDescriptorEntry>) -> Seq<(Seq<char>, Seq<char>)> {
    es.map_values(|e: RateLimitDescriptorEntry| (e.key@, e.value@))
}

fn scalar_text_of(v: &CelValue) -> (res: Option<String>)
    ensures
        match scalar_text(*v) {
            Some(t) => res matches Some(r) && r@ == t,
            None => res is None,
        },
{
    match v {
        CelValue::Null => Some(owned("null")),
        _ => header_text_of(v),
    }
}

/// Appends the entries of `items` to `entries`: `Ok(true)` when all are
/// available, `Ok(false)` when one is pending.
fn gather_items(items: &Vec<DataEvaluation>, entries: &mut Vec<RateLimitDescriptorEntry>) -> (res: Result<bool, String>)
    ensures
        match items_outcome(items@) {
            Err(m) => res matches Err(r) && r@ == m,
            Ok(None) => res == Ok::<bool, String>(false),
            Ok(Some(es)) => res == Ok::<bool, String>(true) && entry_views(final(entries)@) == entry_views(old(entries)@) + es,
        },
{
    let ghost start = entry_views(entries@);
    let n = items.len();
    for j in 0..n
        invariant
            n == items@.len(),
            items_outcome(items@.take(j as int)) matches Ok(Some(acc)) && entry_views(entries@) == start + acc,
    {
        let ghost prefix = items@.take(j as int);
        let ghost before = entries@;
        proof {
            assert(items@.take(j + 1).drop_last() =~= prefix);
            assert(items@.take(j + 1).last() == items@[j as int]);
        }
        let it = &items[j];
        match &it.value {
            Err(e) => {
                let mut m = owned("CEL evaluation error for '");
                m.push_str(it.key.as_str());
                m.push_str("': ");
                m.push_str(e.as_str());
                proof {
                    lemma_items_outcome_stops(items@, j + 1);
                }
                return Err(m);
            },
            Ok(AttributeState::Pending) => {
                proof {
                    lemma_items_outcome_stops(items@, j + 1);
                }
                return Ok(false);
            },
            Ok(AttributeState::Available(v)) => match scalar_text_of(v) {
                None => {
                    proof {
                        lemma_items_outcome_stops(items@, j + 1);
                    }
                    return Err(owned("Only scalar values can be sent as data"));
                },
                Some(t) => {
                    if !known_key(it.key.as_str()) {
                        entries.push(RateLimitDescriptorEntry { key: owned(it.key.as_str()), value: t });
                        proof {
                            assert(entry_views(entries@) =~= entry_views(before).push((it.key@, t@)));
                        }
                    }
                },
            },
        }
    }
    proof {
        assert(items@.take(n as int) =~= items@);
    }
    Ok(true)
}

/// Once the items up to `k` stop the gathering, all of them do.
proof fn lemma_items_outcome_stops(items: Seq<DataEvaluation>, k: int)
    requires
        0 <= k <= items.len(),
        !(items_outcome(items.take(k)) is Ok && items_outcome(items.take(k))->Ok_0 is Some),
    ensures
        items_outcome(items) == items_outcome(items.take(k)),
    decreases items.len() - k,
{
    if k < items.len() {
        assert(items.take(k + 1).drop_last() =~= items.take(k));
        lemma_items_outcome_stops(items, k + 1);
    } else {
        assert(items.take(k) =~= items);
    }
}


/// Once the sets up to `k` stop the gathering, all of them do.
proof fn lemma_sets_outcome_stops(sets: Seq<ConditionalDataEvaluation>, k: int)
    requires
        0 <= k <= sets.len(),
        !(sets_outcome(sets.take(k)) is Ok && sets_outcome(sets.take(k))->Ok_0 is Some),
    ensures
        sets_outcome(sets) == sets_outcome(sets.take(k)),
    decreases sets.len() - k,
{
    if k < sets.len() {
        assert(sets.take(k + 1).drop_last() =~= sets.take(k));
        lemma_sets_outcome_stops(sets, k + 1);
    } else {
        assert(sets.take(k) =~= sets);
    }
}

/// Whether `res` is what the gathered outcome `o` makes of the
/// descriptors: the error, pending, no descriptor for no entries, and one
/// descriptor holding the entries otherwise.
pub open spec fn descriptors_match(o: Result<Option<Seq<(Seq<char>, Seq<char>)>>, Seq<char>>, res: Result<AttributeState<Vec<RateLimitDescriptor>>, String>) -> bool {
    match o {
        Err(m) => res matches Err(r) && r@ == m,
        Ok(None) => res matches Ok(AttributeState::Pending),
        Ok(Some(es)) => res matches Ok(AttributeState::Available(ds)) && if es.len() == 0 {
            ds@.len() == 0
        } else {
            ds@.len() == 1 && entry_views(ds@[0].entries@) == es
        },
    }
}

/// The descriptors of a rate limit request: the entries of every set of
/// conditional data whose predicates hold, known attributes left out, in
/// one descriptor; none when there are no entries.
pub fn build_descriptors(sets: &Vec<ConditionalDataEvaluation>) -> (res: Result<AttributeState<Vec<RateLimitDescriptor>>, String>)
    ensures
        descriptors_match(sets_outcome(sets@), res),
{
    let mut entries: Vec<RateLimitDescriptorEntry> = Vec::new();
    let n = sets.len();
    for i in 0..n
        invariant
            n == sets@.len(),
            sets_outcome(sets@.take(i as int)) matches Ok(Some(acc)) && entry_views(entries@) == acc,
    {
        let ghost prefix = sets@.take(i as int);
        proof {
            assert(sets@.take(i + 1).drop_last() =~= prefix);
            assert(sets@.take(i + 1).last() == sets@[i as int]);
        }
        let set = &sets[i];
        match &set.predicates {
            Err(e) => {
                proof {
                    lemma_sets_outcome_stops(sets@, i + 1);
                }
                return Err(owned(e.as_str()));
            },
            Ok(AttributeState::Pending) => {
                proof {
                    lemma_sets_outcome_stops(sets@, i + 1);
                }
                return Ok(AttributeState::Pending);
            },
            Ok(AttributeState::Available(false)) => {},
            Ok(AttributeState::Available(true)) => {
                match gather_items(&set.data, &mut entries) {
                    Err(m) => {
                        proof {
                            lemma_sets_outcome_stops(sets@, i + 1);
                        }
                        return Err(m);
                    },
                    Ok(false) => {
                        proof {
                            lemma_sets_outcome_stops(sets@, i + 1);
                        }
                        return Ok(AttributeState::Pending);
                    },
                    Ok(true) => {},
                }
            },
        }
    }
    proof {
        assert(sets@.take(n as int) =~= sets@);
    }
    if entries.len() > 0 {
        let mut ds: Vec<RateLimitDescriptor> = Vec::new();
        ds.push(RateLimitDescriptor { entries });
        Ok(AttributeState::Available(ds))
    } else {
        Ok(AttributeState::Available(Vec::new()))
    }
}


/// Why reading a known attribute failed.
#[derive(Debug)]
pub enum AttributeError {
    /// The value has the wrong type or range.
    Parse(String),
    /// The value is still pending.
    NotAvailable(String),
    /// Evaluating the expression failed.
    Retrieval(String),
}

/// The kinds of `AttributeError`.
#[derive(Debug, Clone, Copy, PartialEq, Eq, Structural)]
pub enum AttributeErrorKind {
    Parse,
    NotAvailable,
    Retrieval,
}

/// The kind and message of an error.
pub open spec fn error_parts(e: AttributeError) -> (AttributeErrorKind, Seq<char>) {
    match e {
        AttributeError::Parse(m) => (AttributeErrorKind::Parse, m@),
        AttributeError::NotAvailable(m) => (AttributeErrorKind::NotAvailable, m@),
        AttributeError::Retrieval(m) => (AttributeErrorKind::Retrieval, m@),
    }
}

/// The data items of all sets, in order, whatever their predicates.
pub open spec fn all_items(sets: Seq<ConditionalDataEvaluation>) -> Seq<DataEvaluation>
    decreases sets.len(),
{
    if sets.len() == 0 {
        seq![]
    } else {
        all_items(sets.drop_last()) + sets.last().data@
    }
}

/// The hits addend and domain that the known attributes among `items` set,
/// the last one winning (1 and the empty domain when none does), or the
/// first failure.
pub open spec fn known_outcome(items: Seq<DataEvaluation>) -> Result<(u32, Seq<char>), (AttributeErrorKind, Seq<char>)>
    decreases items.len(),
{
    if items.len() == 0 {
        Ok((1u32, seq![]))
    } else {
        match known_outcome(items.drop_last()) {
            Err(e) => Err(e),
            Ok((h, d)) => {
                let it = items.last();
                if !is_known_key(it.key@) {
                    Ok((h, d))
                } else {
                    match it.value {
                        Ok(AttributeState::Available(v)) => if it.key@ == "ratelimit.domain"@ {
                            match v {
                                CelValue::Str(t) => if t@.len() == 0 {
                                    Err((AttributeErrorKind::Parse, "ratelimit.domain cannot be empty"@))
                                } else {
                                    Ok((h, t@))
                                },
                                _ => Err((AttributeErrorKind::Parse, "ratelimit.domain must be string"@)),
                            }
                        } else {
                            match v {
                                CelValue::Int(x) if 0 <= x <= u32::MAX => Ok((x as u32, d)),
                                CelValue::UInt(x) if x <= u32::MAX => Ok((x as u32, d)),
                                _ => Err((AttributeErrorKind::Parse, "ratelimit.hits_addend must be 0 <= X <= u32::MAX"@)),
                            }
                        },
                        Ok(AttributeState::Pending) => Err((AttributeErrorKind::NotAvailable, "Attribute "@ + it.key@ + " is pending"@)),
                        Err(e) => Err((AttributeErrorKind::Retrieval, "CEL evaluation error: "@ + e@)),
                    }
                }
            },
        }
    }
}

/// A failure among the first items is the outcome of all of them.
proof fn lemma_known_outcome_stops(p: Seq<DataEvaluation>, r: Seq<DataEvaluation>)
    requires
        known_outcome(p) is Err,
    ensures
        known_outcome(p + r) == known_outcome(p),
    decreases r.len(),
{
    if r.len() > 0 {
        assert((p + r).drop_last() =~= p + r.drop_last());
        lemma_known_outcome_stops(p, r.drop_last());
    } else {
        assert(p + r =~= p);
    }
}

/// Reads the known attributes, `ratelimit.domain` and
/// `ratelimit.hits_addend`, of all data items of all sets.
pub fn get_known_attributes(sets: &Vec<ConditionalDataEvaluation>) -> (res: Result<(u32, String), AttributeError>)
    ensures
        match known_outcome(all_items(sets@)) {
            Ok((h, d)) => res matches Ok((rh, rd)) && rh == h && rd@ == d,
            Err(e) => res matches Err(re) && error_parts(re) == e,
        },
{
    let mut hits_addend: u32 = 1;
    let mut domain = String::new();
    let n = sets.len();
    for i in 0..n
        invariant
            n == sets@.len(),
            known_outcome(all_items(sets@.take(i as int))) == Ok::<(u32, Seq<char>), (AttributeErrorKind, Seq<char>)>((hits_addend, domain@)),
    {
        let ghost done = all_items(sets@.take(i as int));
        proof {
            assert(sets@.take(i + 1).drop_last() =~= sets@.take(i as int));
            assert(all_items(sets@.take(i + 1)) == done + sets@[i as int].data@);
        }
        let data = &sets[i].data;
        let m = data.len();
        for j in 0..m
            invariant
                m == data@.len(),
                i < n,
                n == sets@.len(),
                *data == sets@[i as int].data,
                done == all_items(sets@.take(i as int)),
                known_outcome(done + data@.take(j as int)) == Ok::<(u32, Seq<char>), (AttributeErrorKind, Seq<char>)>((hits_addend, domain@)),
        {
            let ghost upto = done + data@.take(j as int);
            proof {
                assert((done + data@.take(j + 1)).drop_last() =~= upto);
                assert((done + data@.take(j + 1)).last() == data@[j as int]);
            }
            let it = &data[j];
            if known_key(it.key.as_str()) {
                let failure: Option<AttributeError> = match &it.value {
                    Ok(AttributeState::Available(v)) => if crate::text::str_eq(it.key.as_str(), "ratelimit.domain") {
                        match v {
                            CelValue::Str(t) => if t.as_str().is_empty() {
                                Some(AttributeError::Parse(owned("ratelimit.domain cannot be empty")))
                            } else {
                                domain = owned(t.as_str());
                                None
                            },
                            _ => Some(AttributeError::Parse(owned("ratelimit.domain must be string"))),
                        }
                    } else {
                        match v {
                            CelValue::Int(x) if *x >= 0 && *x <= 4294967295i64 => {
                                hits_addend = *x as u32;
                                None
                            },
                            CelValue::UInt(x) if *x <= 4294967295u64 => {
                                hits_addend = *x as u32;
                                None
                            },
                            _ => Some(AttributeError::Parse(owned("ratelimit.hits_addend must be 0 <= X <= u32::MAX"))),
                        }
                    },
                    Ok(AttributeState::Pending) => {
                        let mut msg = owned("Attribute ");
                        msg.push_str(it.key.as_str());
                        msg.push_str(" is pending");
                        Some(AttributeError::NotAvailable(msg))
                    },
                    Err(e) => {
                        let mut msg = owned("CEL evaluation error: ");
                        msg.push_str(e.as_str());
                        Some(AttributeError::Retrieval(msg))
                    },
                };
                if let Some(err) = failure {
                    proof {
                        let whole = all_items(sets@);
                        let p = done + data@.take(j + 1);
                        lemma_all_items_split(sets@, i as int);
                        assert(whole =~= p + (data@.skip(j + 1) + all_items(sets@.skip(i + 1))));
                        lemma_known_outcome_stops(p, data@.skip(j + 1) + all_items(sets@.skip(i + 1)));
                    }
                    return Err(err);
                }
            }
        }
        proof {
            assert(data@.take(m as int) =~= data@);
        }
    }
    proof {
        assert(sets@.take(n as int) =~= sets@);
    }
    Ok((hits_addend, domain))
}

/// The items of all sets are those of the sets before `i`, those of set
/// `i`, and those of the sets after it.
proof fn lemma_all_items_split(sets: Seq<ConditionalDataEvaluation>, i: int)
    requires
        0 <= i < sets.len(),
    ensures
        all_items(sets) == all_items(sets.take(i)) + sets[i].data@ + all_items(sets.skip(i + 1)),
    decreases sets.len(),
{
    if i < sets.len() - 1 {
        let d = sets.drop_last();
        lemma_all_items_split(d, i);
        assert(d.take(i) =~= sets.take(i));
        assert(d[i] == sets[i]);
        assert(sets.skip(i + 1).drop_last() =~= d.skip(i + 1));
        assert(sets.skip(i + 1).last() == sets.last());
        assert(all_items(sets) == all_items(d) + sets.last().data@);
        assert(all_items(sets.skip(i + 1)) == all_items(d.skip(i + 1)) + sets.last().data@);
        assert(all_items(sets) =~= all_items(sets.take(i)) + sets[i].data@ + all_items(sets.skip(i + 1)));
    } else {
        assert(sets.drop_last() =~= sets.take(i));
        assert(sets.skip(i + 1).len() == 0);
        assert(all_items(sets.skip(i + 1)) =~= Seq::<DataEvaluation>::empty());
        assert(all_items(sets) =~= all_items(sets.take(i)) + sets[i].data@ + all_items(sets.skip(i + 1)));
    }
}


/// A request data item, evaluated: its domain, its field, and what its
/// expression gave.
#[derive(Debug)]
pub struct RequestDataEntry {
    pub domain: String,
    pub field: String,
    pub result: Result<AttributeState<CelValue>, String>,
}

/// The descriptor key of a request data item: the field alone in the
/// default domains (none, or `metrics.labels`), else the domain, a dot and
/// the field.
pub open spec fn request_data_key(domain: Seq<char>, field: Seq<char>) -> Seq<char> {
    if domain.len() == 0 || domain == "metrics.labels"@ {
        field
    } else {
        domain + "."@ + field
    }
}

/// The (key, value) texts of the request data items whose value is an
/// available string, in order.
pub open spec fn request_data_pairs(rd: Seq<RequestDataEntry>) -> Seq<(Seq<char>, Seq<char>)>
    decreases rd.len(),
{
    if rd.len() == 0 {
        seq![]
    } else {
        let e = rd.last();
        let init = request_data_pairs(rd.drop_last());
        match e.result {
            Ok(AttributeState::Available(CelValue::Str(v))) => init.push((request_data_key(e.domain@, e.field@), v@)),
            _ => init,
        }
    }
}

/// Adds a descriptor of the request data items whose value is an
/// available string, when there is any.
pub fn add_request_data_entries(descriptors: Vec<RateLimitDescriptor>, request_data: &Vec<RequestDataEntry>) -> (res: Vec<RateLimitDescriptor>)
    ensures
        request_data_pairs(request_data@).len() == 0 ==> res@ == descriptors@,
        request_data_pairs(request_data@).len() > 0 ==> {
            &&& res@.len() == descriptors@.len() + 1
            &&& res@.take(descriptors@.len() as int) == descriptors@
            &&& entry_views(res@.last().entries@) == request_data_pairs(request_data@)
        },
{
    let mut entries: Vec<RateLimitDescriptorEntry> = Vec::new();
    let n = request_data.len();
    for i in 0..n
        invariant
            n == request_data@.len(),
            entry_views(entries@) == request_data_pairs(request_data@.take(i as int)),
    {
        let ghost before = entries@;
        proof {
            assert(request_data@.take(i + 1).drop_last() =~= request_data@.take(i as int));
            assert(request_data@.take(i + 1).last() == request_data@[i as int]);
        }
        let e = &request_data[i];
        if let Ok(AttributeState::Available(CelValue::Str(v))) = &e.result {
            let key = if e.domain.as_str().is_empty() || crate::text::str_eq(e.domain.as_str(), "metrics.labels") {
                owned(e.field.as_str())
            } else {
                let mut k = owned(e.domain.as_str());
                k.push_str(".");
                k.push_str(e.field.as_str());
                k
            };
            entries.push(RateLimitDescriptorEntry { key, value: owned(v.as_str()) });
            proof {
                assert(entry_views(entries@) =~= entry_views(before).push((request_data_key(e.domain@, e.field@), v@)));
            }
        }
    }
    proof {
        assert(request_data@.take(n as int) =~= request_data@);
    }
    let mut descriptors = descriptors;
    if entries.len() > 0 {
        descriptors.push(RateLimitDescriptor { entries });
    }
    descriptors
}

/// What the rate limit task does next.
#[derive(Debug)]
pub enum RateLimitStep {
    /// Nothing to limit: the task is done.
    Done,
    /// The task failed.
    Failed,
    /// A value is still pending: the task goes back in the queue.
    Requeue,
    /// Send the rate limit request, written in CEL, for these descriptors.
    Dispatch { domain: String, hits_addend: u32, descriptors: Vec<RateLimitDescriptor>, request: String },
}

/// Failing at the end of the stream, or waiting for more otherwise.
pub open spec fn wait_or_fail(end_of_stream: bool, res: RateLimitStep) -> bool {
    if end_of_stream {
        res is Failed
    } else {
        res is Requeue
    }
}

/// What the rate limit task does with what its expressions evaluated to:
/// its own predicates first, then the descriptors of its conditional data,
/// then the known attributes and the request data, and at last the
/// request, for the domain (the configured one unless overridden) and hits
/// addend.
pub fn decide(
    scope: &str,
    predicates: &Result<AttributeState<bool>, String>,
    sets: &Vec<ConditionalDataEvaluation>,
    request_data: &Vec<RequestDataEntry>,
    end_of_stream: bool,
) -> (res: RateLimitStep)
    ensures
        match *predicates {
            Ok(AttributeState::Pending) => wait_or_fail(end_of_stream, res),
            Ok(AttributeState::Available(false)) => res is Done,
            Err(_) => res is Failed,
            Ok(AttributeState::Available(true)) => match sets_outcome(sets@) {
                Ok(None) => wait_or_fail(end_of_stream, res),
                Err(_) => res is Failed,
                Ok(Some(es)) => if es.len() == 0 {
                    res is Done
                } else {
                    match known_outcome(all_items(sets@)) {
                        Err(_) => res is Failed,
                        Ok((h, d)) => res matches RateLimitStep::Dispatch { domain, hits_addend, descriptors, request } && {
                            let pairs = request_data_pairs(request_data@);
                            &&& hits_addend == h
                            &&& domain@ == (if d.len() == 0 { scope@ } else { d })
                            &&& descriptors@.len() == (if pairs.len() == 0 { 1int } else { 2int })
                            &&& entry_views(descriptors@[0].entries@) == es
                            &&& pairs.len() > 0 ==> entry_views(descriptors@[1].entries@) == pairs
                            &&& request@ == ratelimit_request_cel(domain@, hits_addend, descriptors@)
                        },
                    }
                },
            },
        },
{
    match predicates {
        Ok(AttributeState::Pending) => {
            return if end_of_stream { RateLimitStep::Failed } else { RateLimitStep::Requeue };
        },
        Ok(AttributeState::Available(false)) => {
            return RateLimitStep::Done;
        },
        Err(_) => {
            return RateLimitStep::Failed;
        },
        Ok(AttributeState::Available(true)) => {},
    }
    let descriptors = match build_descriptors(sets) {
        Ok(AttributeState::Available(ds)) => ds,
        Ok(AttributeState::Pending) => {
            return if end_of_stream { RateLimitStep::Failed } else { RateLimitStep::Requeue };
        },
        Err(_) => {
            return RateLimitStep::Failed;
        },
    };
    if descriptors.len() == 0 {
        return RateLimitStep::Done;
    }
    let (hits_addend, domain_override) = match get_known_attributes(sets) {
        Ok(attrs) => attrs,
        Err(_) => {
            return RateLimitStep::Failed;
        },
    };
    let domain = if domain_override.as_str().is_empty() {
        owned(scope)
    } else {
        domain_override
    };
    let descriptors = add_request_data_entries(descriptors, request_data);
    proof {
        if request_data_pairs(request_data@).len() > 0 {
            assert(descriptors@[0] == descriptors@.take(1)[0]);
        }
    }
    let request = generate_ratelimit_request_cel(domain.as_str(), hits_addend, descriptors.as_slice());
    RateLimitStep::Dispatch { domain, hits_addend, descriptors, request }
}


/// A data item of a legacy action, resolved: a fixed value, or the value
/// its expression evaluated to.
#[derive(Debug)]
pub enum ResolvedData {
    Static { key: String, value: String },
    Evaluated { key: String, value: CelValue },
}

/// The (key, value) texts of a resolved item: none for a value that is no
/// scalar.
pub open spec fn resolved_entry(d: ResolvedData) -> Option<(Seq<char>, Seq<char>)> {
    match d {
        ResolvedData::Static { key, value } => Some((key@, value@)),
        ResolvedData::Evaluated { key, value } => match scalar_text(value) {
            Some(t) => Some((key@, t)),
            None => None,
        },
    }
}

/// The descriptor of a legacy action's data: one entry per item, in
/// order. Every value must be a scalar.
pub fn build_single_descriptor(items: &Vec<ResolvedData>) -> (res: RateLimitDescriptor)
    requires
        forall|i: int| 0 <= i < items@.len() ==> resolved_entry(#[trigger] items@[i]) is Some,
    ensures
        entry_views(res.entries@) == items@.map_values(|d: ResolvedData| resolved_entry(d)->0),
{
    let mut entries: Vec<RateLimitDescriptorEntry> = Vec::new();
    let n = items.len();
    for i in 0..n
        invariant
            n == items@.len(),
            forall|k: int| 0 <= k < items@.len() ==> resolved_entry(#[trigger] items@[k]) is Some,
            entry_views(entries@) == items@.take(i as int).map_values(|d: ResolvedData| resolved_entry(d)->0),
    {
        let ghost before = entries@;
        let entry = match &items[i] {
            ResolvedData::Static { key, value } => RateLimitDescriptorEntry { key: owned(key.as_str()), value: owned(value.as_str()) },
            ResolvedData::Evaluated { key, value } => {
                assert(resolved_entry(items@[i as int]) is Some);
                match scalar_text_of(value) {
                    Some(t) => RateLimitDescriptorEntry { key: owned(key.as_str()), value: t },
                    None => vstd::pervasive::unreached(),
                }
            },
        };
        entries.push(entry);
        proof {
            assert(entry_views(entries@) =~= entry_views(before).push(resolved_entry(items@[i as int])->0));
            assert(items@.take(i + 1).map_values(|d: ResolvedData| resolved_entry(d)->0)
                =~= items@.take(i as int).map_values(|d: ResolvedData| resolved_entry(d)->0).push(resolved_entry(items@[i as int])->0));
        }
    }
    proof {
        assert(items@.take(n as int) =~= items@);
    }
    RateLimitDescriptor { entries }
}

} // verus!
