//! Translation of legacy auth actions: the CEL expression that builds the
//! `CheckRequest` sent to the authorization service.
use super::escape_cel_string;
use super::escaped;
use super::ratelimit::RequestDataEntry;
use crate::text::{
    chars_lt, contains_seq, contains_str, join, join_seq, lemma_chars_lt_asymmetric,
    lemma_chars_lt_irreflexive, lemma_chars_lt_total, lemma_chars_lt_transitive, owned, str_lt,
    views,
};
use vstd::prelude::*;

verus! {

/// The CEL `google.protobuf.Value` of a request data expression: an
/// expression mentioning `auth.` is passed as its own source text, to be
/// evaluated by the authorization service; any other is evaluated here and
/// passed as a string.
pub open spec fn request_data_value_cel(expr: Seq<char>) -> Seq<char> {
    if contains_seq(expr, "auth."@) {
        "google.protobuf.Value{struct_value: google.protobuf.Struct{fields: {\"cel_expr\": google.protobuf.Value{string_value: \""@
            + escaped(expr) + "\"}}}}"@
    } else {
        "google.protobuf.Value{string_value: string("@ + expr + ")}"@
    }
}

/// A request data expression that does not mention `auth.` is evaluated
/// by the plugin: its value is the CEL call `string(..)` applied to the
/// expression's own text, unchanged and unquoted, as the `string_value` of
/// a `google.protobuf.Value`. One that mentions `auth.` is sent as text,
/// escaped into a string literal, for the authorization service.
pub proof fn lemma_request_data_value_evaluates_expression(expr: Seq<char>)
    ensures
        !contains_seq(expr, "auth."@) ==> request_data_value_cel(expr) == "google.protobuf.Value{string_value: "@
            + "string("@ + expr + seq![')'] + seq!['}'],
        contains_seq(expr, "auth."@) ==> request_data_value_cel(expr)
            == "google.protobuf.Value{struct_value: google.protobuf.Struct{fields: {\"cel_expr\": google.protobuf.Value{string_value: "@
            + seq!['"'] + escaped(expr) + seq!['"'] + "}}}}"@,
{
    reveal_strlit("google.protobuf.Value{string_value: string(");
    reveal_strlit("google.protobuf.Value{string_value: ");
    reveal_strlit("string(");
    reveal_strlit(")}");
    reveal_strlit("google.protobuf.Value{struct_value: google.protobuf.Struct{fields: {\"cel_expr\": google.protobuf.Value{string_value: \"");
    reveal_strlit("google.protobuf.Value{struct_value: google.protobuf.Struct{fields: {\"cel_expr\": google.protobuf.Value{string_value: ");
    reveal_strlit("\"}}}}");
    reveal_strlit("}}}}");
    assert("google.protobuf.Value{string_value: string("@ + expr + ")}"@ =~= "google.protobuf.Value{string_value: "@
        + "string("@ + expr + seq![')'] + seq!['}']);
    assert("google.protobuf.Value{struct_value: google.protobuf.Struct{fields: {\"cel_expr\": google.protobuf.Value{string_value: \""@
        + escaped(expr) + "\"}}}}"@
        =~= "google.protobuf.Value{struct_value: google.protobuf.Struct{fields: {\"cel_expr\": google.protobuf.Value{string_value: "@
        + seq!['"'] + escaped(expr) + seq!['"'] + "}}}}"@);
}

/// Builds the CEL value of a request data expression.
pub fn build_request_data_value_cel(field_expr: &str) -> (res: String)
    ensures
        res@ == request_data_value_cel(field_expr@),
{
    if contains_str(field_expr, "auth.") {
        let mut r = String::from_str(
            "google.protobuf.Value{struct_value: google.protobuf.Struct{fields: {\"cel_expr\": google.protobuf.Value{string_value: \"",
        );
        r.push_str(escape_cel_string(field_expr).as_str());
        r.push_str("\"}}}}");
        r
    } else {
        let mut r = String::from_str("google.protobuf.Value{string_value: string(");
        r.push_str(field_expr);
        r.push_str(")}");
        r
    }
}

/// The metadata namespace of a request data domain.
pub open spec fn domain_key(domain: Seq<char>) -> Seq<char> {
    if domain.len() == 0 {
        "io.kuadrant"@
    } else {
        "io.kuadrant."@ + domain
    }
}

/// The set of metadata namespaces of the request data.
pub open spec fn domain_keys(rd: Seq<RequestDataEntry>) -> Set<Seq<char>> {
    Set::new(|k: Seq<char>| exists|i: int| 0 <= i < rd.len() && domain_key(#[trigger] rd[i].0.0@) == k)
}

/// The metadata field of one request data entry.
pub open spec fn field_entry_cel(e: RequestDataEntry) -> Seq<char> {
    "\""@ + escaped(e.0.1@) + "\": "@ + request_data_value_cel(e.1@)
}

/// The fields of the entries in namespace `k`, in order.
pub open spec fn fields_in(rd: Seq<RequestDataEntry>, k: Seq<char>) -> Seq<Seq<char>>
    decreases rd.len(),
{
    if rd.len() == 0 {
        Seq::empty()
    } else if domain_key(rd.last().0.0@) == k {
        fields_in(rd.drop_last(), k).push(field_entry_cel(rd.last()))
    } else {
        fields_in(rd.drop_last(), k)
    }
}

/// The metadata entry of namespace `k`.
pub open spec fn namespace_entry_cel(rd: Seq<RequestDataEntry>, k: Seq<char>) -> Seq<char> {
    "\""@ + escaped(k) + "\": google.protobuf.Struct{fields: {"@ + join_seq(fields_in(rd, k), ", "@)
        + "}}"@
}

/// Whether the sequence is strictly increasing.
pub open spec fn strictly_sorted(ks: Seq<Seq<char>>) -> bool {
    forall|i: int, j: int| 0 <= i < j < ks.len() ==> chars_lt(#[trigger] ks[i], #[trigger] ks[j])
}

/// The metadata context with the namespaces in the order `ks`.
pub open spec fn metadata_cel_with(rd: Seq<RequestDataEntry>, ks: Seq<Seq<char>>) -> Seq<char> {
    if rd.len() == 0 {
        "envoy.config.core.v3.Metadata{}"@
    } else {
        "envoy.config.core.v3.Metadata{filter_metadata: {"@ + join_seq(
            ks.map_values(|k: Seq<char>| namespace_entry_cel(rd, k)),
            ", "@,
        ) + "}}"@
    }
}

/// Whether `m` is the CEL metadata context of the request data: one
/// `google.protobuf.Struct` per namespace, namespaces in increasing order,
/// each holding the fields of its entries in the order they were given.
pub open spec fn is_metadata_cel(rd: Seq<RequestDataEntry>, m: Seq<char>) -> bool {
    exists|ks: Seq<Seq<char>>|
        strictly_sorted(ks) && ks.to_set() == domain_keys(rd) && m == #[trigger] metadata_cel_with(
            rd,
            ks,
        )
}

/// The CEL metadata context of the request data, where there is one.
pub open spec fn metadata_cel(rd: Seq<RequestDataEntry>) -> Seq<char> {
    choose|m: Seq<char>| is_metadata_cel(rd, m)
}

/// Two strictly increasing sequences with the same elements are the same.
pub proof fn lemma_sorted_keys_unique(a: Seq<Seq<char>>, b: Seq<Seq<char>>)
    requires
        strictly_sorted(a),
        strictly_sorted(b),
        a.to_set() == b.to_set(),
    ensures
        a == b,
    decreases a.len(),
{
    if a.len() == 0 {
        if b.len() > 0 {
            assert(b.to_set().contains(b[0]));
        }
        assert(a =~= b);
    } else {
        if b.len() == 0 {
            assert(a.to_set().contains(a[0]));
        }
        assert(b.to_set().contains(a[0]));
        let j = choose|j: int| 0 <= j < b.len() && b[j] == a[0];
        assert(a.to_set().contains(b[0]));
        let i = choose|i: int| 0 <= i < a.len() && a[i] == b[0];
        if i > 0 && j > 0 {
            assert(chars_lt(a[0], a[i]));
            assert(chars_lt(b[0], b[j]));
            lemma_chars_lt_asymmetric(a[0], b[0]);
        } else if i > 0 {
            assert(chars_lt(a[0], a[i]));
            lemma_chars_lt_irreflexive(a[0]);
        } else if j > 0 {
            assert(chars_lt(b[0], b[j]));
            lemma_chars_lt_irreflexive(b[0]);
        }
        assert(a[0] == b[0]);
        let ra = a.drop_first();
        let rb = b.drop_first();
        assert(strictly_sorted(ra)) by {
            assert forall|x: int, y: int| 0 <= x < y < ra.len() implies chars_lt(#[trigger] ra[x], #[trigger] ra[y]) by {
                assert(ra[x] == a[x + 1] && ra[y] == a[y + 1]);
            }
        }
        assert(strictly_sorted(rb)) by {
            assert forall|x: int, y: int| 0 <= x < y < rb.len() implies chars_lt(#[trigger] rb[x], #[trigger] rb[y]) by {
                assert(rb[x] == b[x + 1] && rb[y] == b[y + 1]);
            }
        }
        assert(ra.to_set() =~= rb.to_set()) by {
            assert forall|x: Seq<char>| ra.to_set().contains(x) implies rb.to_set().contains(x) by {
                let k = choose|k: int| 0 <= k < ra.len() && ra[k] == x;
                assert(a[k + 1] == x);
                assert(chars_lt(a[0], a[k + 1]));
                lemma_chars_lt_irreflexive(x);
                assert(a.to_set().contains(x));
                let l = choose|l: int| 0 <= l < b.len() && b[l] == x;
                assert(l != 0);
                assert(rb[l - 1] == x);
            }
            assert forall|x: Seq<char>| rb.to_set().contains(x) implies ra.to_set().contains(x) by {
                let k = choose|k: int| 0 <= k < rb.len() && rb[k] == x;
                assert(b[k + 1] == x);
                assert(chars_lt(b[0], b[k + 1]));
                lemma_chars_lt_irreflexive(x);
                assert(b.to_set().contains(x));
                let l = choose|l: int| 0 <= l < a.len() && a[l] == x;
                assert(l != 0);
                assert(ra[l - 1] == x);
            }
        }
        lemma_sorted_keys_unique(ra, rb);
        assert(a =~= seq![a[0]] + ra);
        assert(b =~= seq![b[0]] + rb);
    }
}

/// The metadata context depends on the request data only through its
/// namespaces and the fields of each, in order: two lists of request data
/// with the same namespaces, and in each namespace the same fields in the
/// same order, have the same metadata context, whatever the order in which
/// the namespaces are interleaved.
pub proof fn lemma_metadata_cel_by_namespace(
    rd1: Seq<RequestDataEntry>,
    rd2: Seq<RequestDataEntry>,
    m1: Seq<char>,
    m2: Seq<char>,
)
    requires
        domain_keys(rd1) == domain_keys(rd2),
        forall|k: Seq<char>| #[trigger] fields_in(rd1, k) == fields_in(rd2, k),
        is_metadata_cel(rd1, m1),
        is_metadata_cel(rd2, m2),
    ensures
        m1 == m2,
{
    let ks1 = choose|ks: Seq<Seq<char>>|
        strictly_sorted(ks) && ks.to_set() == domain_keys(rd1) && m1 == #[trigger] metadata_cel_with(rd1, ks);
    let ks2 = choose|ks: Seq<Seq<char>>|
        strictly_sorted(ks) && ks.to_set() == domain_keys(rd2) && m2 == #[trigger] metadata_cel_with(rd2, ks);
    lemma_sorted_keys_unique(ks1, ks2);
    if rd1.len() > 0 && rd2.len() == 0 {
        assert(domain_keys(rd1).contains(domain_key(rd1[0].0.0@)));
    }
    if rd2.len() > 0 && rd1.len() == 0 {
        assert(domain_keys(rd2).contains(domain_key(rd2[0].0.0@)));
    }
    assert(ks1.map_values(|k: Seq<char>| namespace_entry_cel(rd1, k)) =~= ks2.map_values(
        |k: Seq<char>| namespace_entry_cel(rd2, k),
    )) by {
        assert forall|i: int| 0 <= i < ks1.len() implies namespace_entry_cel(rd1, ks1[i]) == namespace_entry_cel(
            rd2,
            ks2[i],
        ) by {
            assert(fields_in(rd1, ks1[i]) == fields_in(rd2, ks1[i]));
        }
    }
}

/// The entries of the request data in domain `d`, in order.
pub open spec fn entries_in_domain(rd: Seq<RequestDataEntry>, d: Seq<char>) -> Seq<RequestDataEntry>
    decreases rd.len(),
{
    if rd.len() == 0 {
        Seq::empty()
    } else if rd.last().0.0@ == d {
        entries_in_domain(rd.drop_last(), d).push(rd.last())
    } else {
        entries_in_domain(rd.drop_last(), d)
    }
}

/// Different domains have different namespaces.
proof fn lemma_domain_key_injective(a: Seq<char>, b: Seq<char>)
    requires
        domain_key(a) == domain_key(b),
    ensures
        a == b,
{
    reveal_strlit("io.kuadrant");
    reveal_strlit("io.kuadrant.");
    let p = "io.kuadrant."@;
    if a.len() > 0 && b.len() > 0 {
        assert(a =~= (p + a).subrange(12, (p + a).len() as int));
        assert(b =~= (p + b).subrange(12, (p + b).len() as int));
    } else if a.len() > 0 || b.len() > 0 {
        assert("io.kuadrant"@.len() == 11);
        assert(p.len() == 12);
        assert(domain_key(a).len() != domain_key(b).len());
    } else {
        assert(a =~= b);
    }
}

/// The fields of the namespace of domain `d` are those of the entries in
/// domain `d`, in order.
proof fn lemma_fields_in_domain(rd: Seq<RequestDataEntry>, d: Seq<char>)
    ensures
        fields_in(rd, domain_key(d)) == entries_in_domain(rd, d).map_values(|e: RequestDataEntry| field_entry_cel(e)),
    decreases rd.len(),
{
    if rd.len() == 0 {
        assert(entries_in_domain(rd, d).map_values(|e: RequestDataEntry| field_entry_cel(e)) =~= Seq::<Seq<char>>::empty());
    } else {
        lemma_fields_in_domain(rd.drop_last(), d);
        let e = rd.last();
        if domain_key(e.0.0@) == domain_key(d) {
            lemma_domain_key_injective(e.0.0@, d);
            assert(entries_in_domain(rd, d).map_values(|e: RequestDataEntry| field_entry_cel(e)) =~= entries_in_domain(
                rd.drop_last(),
                d,
            ).map_values(|e: RequestDataEntry| field_entry_cel(e)).push(field_entry_cel(e)));
        } else {
            assert(e.0.0@ != d);
        }
    }
}

/// A namespace that is no domain's has no fields.
proof fn lemma_fields_in_no_domain(rd: Seq<RequestDataEntry>, k: Seq<char>)
    requires
        forall|d: Seq<char>| domain_key(d) != k,
    ensures
        fields_in(rd, k) == Seq::<Seq<char>>::empty(),
    decreases rd.len(),
{
    if rd.len() > 0 {
        lemma_fields_in_no_domain(rd.drop_last(), k);
        assert(domain_key(rd.last().0.0@) != k);
    }
}

/// A namespace is one of the request data exactly when it has fields.
proof fn lemma_namespace_has_fields(rd: Seq<RequestDataEntry>, k: Seq<char>)
    ensures
        domain_keys(rd).contains(k) <==> fields_in(rd, k).len() > 0,
    decreases rd.len(),
{
    if rd.len() > 0 {
        let init = rd.drop_last();
        lemma_namespace_has_fields(init, k);
        if domain_keys(rd).contains(k) {
            let i = choose|i: int| 0 <= i < rd.len() && domain_key(#[trigger] rd[i].0.0@) == k;
            if i < rd.len() - 1 {
                assert(init[i] == rd[i]);
                assert(domain_keys(init).contains(k));
            }
        }
        if domain_keys(init).contains(k) {
            let i = choose|i: int| 0 <= i < init.len() && domain_key(#[trigger] init[i].0.0@) == k;
            assert(rd[i] == init[i]);
        }
        if domain_key(rd.last().0.0@) == k {
            assert(rd[rd.len() - 1] == rd.last());
        }
    }
}

/// The metadata context does not depend on the order of the request data
/// beyond the order within each domain: two lists of request data that
/// hold, for every domain, the same entries in the same order (one a
/// reordering of the other that keeps each domain's entries in order) have
/// the same metadata context.
pub proof fn lemma_metadata_cel_permutation(
    rd1: Seq<RequestDataEntry>,
    rd2: Seq<RequestDataEntry>,
    m1: Seq<char>,
    m2: Seq<char>,
)
    requires
        forall|d: Seq<char>| #[trigger] entries_in_domain(rd1, d) == entries_in_domain(rd2, d),
        is_metadata_cel(rd1, m1),
        is_metadata_cel(rd2, m2),
    ensures
        m1 == m2,
{
    assert forall|k: Seq<char>| #[trigger] fields_in(rd1, k) == fields_in(rd2, k) by {
        if exists|d: Seq<char>| domain_key(d) == k {
            let d = choose|d: Seq<char>| domain_key(d) == k;
            lemma_fields_in_domain(rd1, d);
            lemma_fields_in_domain(rd2, d);
            assert(entries_in_domain(rd1, d) == entries_in_domain(rd2, d));
        } else {
            lemma_fields_in_no_domain(rd1, k);
            lemma_fields_in_no_domain(rd2, k);
        }
    }
    assert(domain_keys(rd1) =~= domain_keys(rd2)) by {
        assert forall|k: Seq<char>| domain_keys(rd1).contains(k) == domain_keys(rd2).contains(k) by {
            lemma_namespace_has_fields(rd1, k);
            lemma_namespace_has_fields(rd2, k);
            assert(fields_in(rd1, k) == fields_in(rd2, k));
        }
    }
    lemma_metadata_cel_by_namespace(rd1, rd2, m1, m2);
}

/// The request data has one metadata context at most.
pub proof fn lemma_metadata_cel_unique(rd: Seq<RequestDataEntry>, m1: Seq<char>, m2: Seq<char>)
    requires
        is_metadata_cel(rd, m1),
        is_metadata_cel(rd, m2),
    ensures
        m1 == m2,
{
    lemma_metadata_cel_by_namespace(rd, rd, m1, m2);
}

fn domain_key_exec(domain: &String) -> (res: String)
    ensures
        res@ == domain_key(domain@),
{
    if domain.as_str().is_empty() {
        String::from_str("io.kuadrant")
    } else {
        let mut r = String::from_str("io.kuadrant.");
        r.push_str(domain.as_str());
        r
    }
}

/// Inserts `k` into the strictly sorted `ks`, unless it is there already.
fn insert_sorted(ks: &mut Vec<String>, k: String)
    requires
        strictly_sorted(views(old(ks)@)),
    ensures
        strictly_sorted(views(final(ks)@)),
        views(final(ks)@).to_set() == views(old(ks)@).to_set().insert(k@),
{
    let n = ks.len();
    let mut p: usize = 0;
    while p < n && str_lt(ks[p].as_str(), k.as_str())
        invariant
            n == ks@.len(),
            p <= n,
            forall|i: int| 0 <= i < p ==> chars_lt(#[trigger] ks@[i]@, k@),
        decreases n - p,
    {
        p += 1;
    }
    let ghost old_views = views(ks@);
    if p < n && ks[p] == k {
        assert(old_views[p as int] == k@);
        assert(views(ks@).to_set().insert(k@) =~= views(ks@).to_set());
        return;
    }
    proof {
        if p < n {
            lemma_chars_lt_total(ks@[p as int]@, k@);
            assert forall|j: int| p <= j < n implies chars_lt(k@, #[trigger] ks@[j]@) by {
                if j > p {
                    assert(chars_lt(old_views[p as int], old_views[j]));
                    lemma_chars_lt_transitive(k@, ks@[p as int]@, ks@[j]@);
                }
            }
        }
    }
    let ghost kv = k@;
    ks.insert(p, k);
    assert(views(ks@) =~= old_views.take(p as int).push(kv) + old_views.skip(p as int));
    assert(views(ks@).to_set() =~= old_views.to_set().insert(kv)) by {
        assert forall|x: Seq<char>| views(ks@).to_set().contains(x) implies old_views.to_set().insert(kv).contains(x) by {
            let i = choose|i: int| 0 <= i < views(ks@).len() && views(ks@)[i] == x;
            if i < p {
                assert(old_views[i] == x);
            } else if i > p {
                assert(old_views[i - 1] == x);
            }
        }
        assert forall|x: Seq<char>| old_views.to_set().insert(kv).contains(x) implies views(ks@).to_set().contains(x) by {
            if x == kv {
                assert(views(ks@)[p as int] == x);
            } else {
                let i = choose|i: int| 0 <= i < old_views.len() && old_views[i] == x;
                if i < p {
                    assert(views(ks@)[i] == x);
                } else {
                    assert(views(ks@)[i + 1] == x);
                }
            }
        }
    }
}

/// The fields of the entries in namespace `k`, in the order given.
fn fields_for(request_data: &[RequestDataEntry], k: &String) -> (res: Vec<String>)
    ensures
        views(res@) == fields_in(request_data@, k@),
{
    let n = request_data.len();
    let mut res: Vec<String> = Vec::new();
    for i in 0..n
        invariant
            n == request_data@.len(),
            views(res@) == fields_in(request_data@.take(i as int), k@),
    {
        assert(request_data@.take(i + 1).drop_last() =~= request_data@.take(i as int));
        let e = &request_data[i];
        let key = domain_key_exec(&e.0.0);
        if key == *k {
            let mut f = String::from_str("\"");
            f.push_str(escape_cel_string(e.0.1.as_str()).as_str());
            f.push_str("\": ");
            f.push_str(build_request_data_value_cel(e.1.as_str()).as_str());
            let ghost old_res = res@;
            res.push(f);
            assert(f@ =~= field_entry_cel(*e));
            assert(views(res@) =~= views(old_res).push(f@));
        }
    }
    assert(request_data@.take(n as int) =~= request_data@);
    res
}

/// Builds the CEL `envoy.config.core.v3.Metadata` that carries the request
/// data to the authorization service.
pub fn build_metadata_context_cel(request_data: &[RequestDataEntry]) -> (res: String)
    ensures
        is_metadata_cel(request_data@, res@),
        res@ == metadata_cel(request_data@),
{
    let n = request_data.len();
    if n == 0 {
        let r = String::from_str("envoy.config.core.v3.Metadata{}");
        assert(Seq::<Seq<char>>::empty().to_set() =~= domain_keys(request_data@));
        assert(strictly_sorted(Seq::<Seq<char>>::empty()));
        assert(r@ == metadata_cel_with(request_data@, Seq::<Seq<char>>::empty()));
        proof {
            assert(is_metadata_cel(request_data@, r@));
            lemma_metadata_cel_unique(request_data@, r@, metadata_cel(request_data@));
        }
        return r;
    }
    let mut keys: Vec<String> = Vec::new();
    for i in 0..n
        invariant
            n == request_data@.len(),
            strictly_sorted(views(keys@)),
            views(keys@).to_set() == domain_keys(request_data@.take(i as int)),
    {
        let k = domain_key_exec(&request_data[i].0.0);
        insert_sorted(&mut keys, k);
        assert(domain_keys(request_data@.take(i + 1)) =~= domain_keys(request_data@.take(i as int)).insert(
            domain_key(request_data@[i as int].0.0@),
        )) by {
            let t = request_data@.take(i + 1);
            assert forall|x: Seq<char>| domain_keys(t).contains(x) implies domain_keys(
                request_data@.take(i as int),
            ).insert(domain_key(request_data@[i as int].0.0@)).contains(x) by {
                let j = choose|j: int| 0 <= j < t.len() && domain_key(#[trigger] t[j].0.0@) == x;
                if j < i {
                    assert(request_data@.take(i as int)[j] == t[j]);
                }
            }
            assert forall|x: Seq<char>| domain_keys(request_data@.take(i as int)).insert(
                domain_key(request_data@[i as int].0.0@),
            ).contains(x) implies domain_keys(t).contains(x) by {
                if x == domain_key(request_data@[i as int].0.0@) {
                    assert(t[i as int] == request_data@[i as int]);
                } else {
                    let j = choose|j: int|
                        0 <= j < request_data@.take(i as int).len() && domain_key(
                            #[trigger] request_data@.take(i as int)[j].0.0@,
                        ) == x;
                    assert(t[j] == request_data@.take(i as int)[j]);
                }
            }
        }
    }
    assert(request_data@.take(n as int) =~= request_data@);
    let ghost ks = views(keys@);
    let m = keys.len();
    let mut entries: Vec<String> = Vec::new();
    for j in 0..m
        invariant
            m == keys@.len(),
            ks == views(keys@),
            entries@.len() == j,
            forall|t: int| 0 <= t < j ==> #[trigger] entries@[t]@ == namespace_entry_cel(request_data@, ks[t]),
    {
        let k = &keys[j];
        let fields = fields_for(request_data, k);
        let mut e = String::from_str("\"");
        e.push_str(escape_cel_string(k.as_str()).as_str());
        e.push_str("\": google.protobuf.Struct{fields: {");
        e.push_str(join(&fields, ", ").as_str());
        e.push_str("}}");
        assert(e@ =~= namespace_entry_cel(request_data@, ks[j as int]));
        entries.push(e);
    }
    assert(views(entries@) =~= ks.map_values(|k: Seq<char>| namespace_entry_cel(request_data@, k)));
    let mut r = String::from_str("envoy.config.core.v3.Metadata{filter_metadata: {");
    r.push_str(join(&entries, ", ").as_str());
    r.push_str("}}");
    assert(r@ =~= metadata_cel_with(request_data@, ks));
    proof {
        assert(is_metadata_cel(request_data@, r@));
        lemma_metadata_cel_unique(request_data@, r@, metadata_cel(request_data@));
    }
    r
}

/// The CEL text of the `CheckRequest` before the scope.
pub open spec fn check_request_head() -> Seq<char> {
    "envoy.service.auth.v3.CheckRequest {\n  attributes: envoy.service.auth.v3.AttributeContext {\n    request: envoy.service.auth.v3.AttributeContext.Request {\n      time: request.time,\n      http: envoy.service.auth.v3.AttributeContext.HttpRequest {\n        host: request.host,\n        method: request.method,\n        scheme: request.scheme,\n        path: request.path,\n        protocol: request.protocol,\n        headers: request.headers\n      }\n    },\n    destination: envoy.service.auth.v3.AttributeContext.Peer {\n      address: envoy.config.core.v3.Address {\n        socket_address: envoy.config.core.v3.SocketAddress {\n          address: destination.address,\n          port_value: uint(destination.port)\n        }\n      }\n    },\n    source: envoy.service.auth.v3.AttributeContext.Peer {\n      address: envoy.config.core.v3.Address {\n        socket_address: envoy.config.core.v3.SocketAddress {\n          address: source.address,\n          port_value: uint(source.port)\n        }\n      }\n    },\n    context_extensions: {\"host\": \""@
}

/// The CEL text of the `CheckRequest` between the scope and the metadata.
pub open spec fn check_request_mid() -> Seq<char> {
    "\"},\n    metadata_context: "@
}

/// The CEL text that closes the `CheckRequest`.
pub open spec fn check_request_tail() -> Seq<char> {
    "\n  }\n}"@
}

/// Builds the CEL expression of the `CheckRequest` of a legacy auth action:
/// the request's attributes, the scope as the `host` context extension,
/// and the request data as metadata context.
pub fn build_auth_message_builder(scope: &str, request_data: &[RequestDataEntry]) -> (res: String)
    ensures
        res@ == check_request_head() + escaped(scope@) + check_request_mid() + metadata_cel(request_data@)
            + check_request_tail(),
        is_metadata_cel(request_data@, metadata_cel(request_data@)),
{
    let metadata_context = build_metadata_context_cel(request_data);
    let mut r = String::from_str(
        "envoy.service.auth.v3.CheckRequest {\n  attributes: envoy.service.auth.v3.AttributeContext {\n    request: envoy.service.auth.v3.AttributeContext.Request {\n      time: request.time,\n      http: envoy.service.auth.v3.AttributeContext.HttpRequest {\n        host: request.host,\n        method: request.method,\n        scheme: request.scheme,\n        path: request.path,\n        protocol: request.protocol,\n        headers: request.headers\n      }\n    },\n    destination: envoy.service.auth.v3.AttributeContext.Peer {\n      address: envoy.config.core.v3.Address {\n        socket_address: envoy.config.core.v3.SocketAddress {\n          address: destination.address,\n          port_value: uint(destination.port)\n        }\n      }\n    },\n    source: envoy.service.auth.v3.AttributeContext.Peer {\n      address: envoy.config.core.v3.Address {\n        socket_address: envoy.config.core.v3.SocketAddress {\n          address: source.address,\n          port_value: uint(source.port)\n        }\n      }\n    },\n    context_extensions: {\"host\": \"",
    );
    r.push_str(escape_cel_string(scope).as_str());
    r.push_str("\"},\n    metadata_context: ");
    r.push_str(metadata_context.as_str());
    r.push_str("\n  }\n}");
    assert(r@ =~= check_request_head() + escaped(scope@) + check_request_mid() + metadata_context@
        + check_request_tail());
    r
}

} // verus!
