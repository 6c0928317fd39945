//! Translation of legacy rate limit actions into a typed gRPC action whose
//! message is a CEL expression building a `RateLimitRequest`.
use super::{escape_cel_string, escaped, join_predicates, joined_predicates, quoted, build_action_predicate};
use crate::config::{
    Action, ConditionalData, DataItem, DataType, DenyOperation, FailOperation, GrpcOperation,
    HeadersOperation, HeadersTarget, Operation, TypedAction,
};
use crate::text::{join, join_seq, lemma_join_step, owned, owned_all, same_text, views};
use vstd::prelude::*;

verus! {

/// The key of a data item.
pub open spec fn item_key(item: DataItem) -> Seq<char> {
    match item.item {
        DataType::Static(s) => s.key@,
        DataType::Expression(e) => e.key@,
    }
}

/// Whether a key names one of the attributes that configure the request
/// itself rather than a descriptor entry.
pub open spec fn is_known_key(key: Seq<char>) -> bool {
    key == "ratelimit.domain"@ || key == "ratelimit.hits_addend"@
}

/// Whether a data item is a known rate limit attribute.
pub fn is_ratelimit_known_attr(item: &DataItem) -> (res: bool)
    ensures
        res == is_known_key(item_key(*item)),
{
    let key = match &item.item {
        DataType::Static(s) => &s.key,
        DataType::Expression(e) => &e.key,
    };
    same_text(key, "ratelimit.domain") || same_text(key, "ratelimit.hits_addend")
}

/// The CEL value of a data item: a string literal for a static item, the
/// expression itself for an expression item.
pub open spec fn item_value_cel(item: DataItem) -> Seq<char> {
    match item.item {
        DataType::Static(s) => quoted(s.value@),
        DataType::Expression(e) => e.value@,
    }
}

/// The value of the first item with key `key` among `items`.
pub open spec fn find_in_items(items: Seq<DataItem>, key: Seq<char>) -> Option<Seq<char>>
    decreases items.len(),
{
    if items.len() == 0 {
        None
    } else {
        match find_in_items(items.drop_last(), key) {
            Some(v) => Some(v),
            None => if item_key(items.last()) == key {
                Some(item_value_cel(items.last()))
            } else {
                None
            },
        }
    }
}

/// The value of the first item with key `key` over all blocks, in order.
pub open spec fn find_known(cds: Seq<ConditionalData>, key: Seq<char>) -> Option<Seq<char>>
    decreases cds.len(),
{
    if cds.len() == 0 {
        None
    } else {
        match find_known(cds.drop_last(), key) {
            Some(v) => Some(v),
            None => find_in_items(cds.last().data@, key),
        }
    }
}

/// The CEL value of a data item, as `find_ratelimit_known_attr_cel` builds it.
fn item_value_cel_exec(item: &DataItem) -> (res: String)
    ensures
        res@ == item_value_cel(*item),
{
    match &item.item {
        DataType::Static(s) => {
            let mut r = String::new();
            r.push('"');
            r.push_str(escape_cel_string(s.value.as_str()).as_str());
            r.push('"');
            assert(r@ =~= quoted(s.value@));
            r
        },
        DataType::Expression(e) => e.value.clone(),
    }
}

/// The CEL value of the first data item, over all blocks in order, whose
/// key is `attr_key`.
pub fn find_ratelimit_known_attr_cel(conditional_data: &[ConditionalData], attr_key: &str) -> (res:
    Option<String>)
    ensures
        match res {
            Some(v) => find_known(conditional_data@, attr_key@) == Some(v@),
            None => find_known(conditional_data@, attr_key@) is None,
        },
{
    let n = conditional_data.len();
    for i in 0..n
        invariant
            n == conditional_data@.len(),
            find_known(conditional_data@.take(i as int), attr_key@) is None,
    {
        assert(conditional_data@.take(i + 1).drop_last() =~= conditional_data@.take(i as int));
        let items = &conditional_data[i].data;
        let m = items.len();
        for j in 0..m
            invariant
                n == conditional_data@.len(),
                i < n,
                *items == conditional_data@[i as int].data,
                find_known(conditional_data@.take(i as int), attr_key@) is None,
                m == items@.len(),
                find_in_items(items@.take(j as int), attr_key@) is None,
        {
            assert(items@.take(j + 1).drop_last() =~= items@.take(j as int));
            let key = match &items[j].item {
                DataType::Static(s) => &s.key,
                DataType::Expression(e) => &e.key,
            };
            if same_text(key, attr_key) {
                let v = item_value_cel_exec(&items[j]);
                assert(items@.take(m as int) =~= items@);
                proof {
                    assert(item_key(items@[j as int]) == attr_key@);
                    assert(items@.take(j + 1).last() == items@[j as int]);
                    assert(find_in_items(items@.take(j + 1), attr_key@) == Some(v@));
                    lemma_find_in_items_prefix(items@, attr_key@, j + 1);
                    assert(conditional_data@.take(i + 1).last() == conditional_data@[i as int]);
                    assert(find_in_items(items@, attr_key@) == Some(v@));
                    assert(conditional_data@.take(i + 1).drop_last() =~= conditional_data@.take(i as int));
                    assert(conditional_data@.take(i + 1).last() == conditional_data@[i as int]);
                    assert(find_known(conditional_data@.take(i + 1), attr_key@) == Some(v@));
                    lemma_find_known_prefix(conditional_data@, attr_key@, i + 1);
                }
                return Some(v);
            }
        }
        assert(items@.take(m as int) =~= items@);
    }
    assert(conditional_data@.take(n as int) =~= conditional_data@);
    None
}

/// A match found in a prefix of the items is the first match overall.
proof fn lemma_find_in_items_prefix(items: Seq<DataItem>, key: Seq<char>, k: int)
    requires
        0 <= k <= items.len(),
        find_in_items(items.take(k), key) is Some,
    ensures
        find_in_items(items, key) == find_in_items(items.take(k), key),
    decreases items.len() - k,
{
    if k < items.len() {
        assert(items.take(k + 1).drop_last() =~= items.take(k));
        lemma_find_in_items_prefix(items, key, k + 1);
    } else {
        assert(items.take(k) =~= items);
    }
}

/// A match found in a prefix of the blocks is the first match overall.
proof fn lemma_find_known_prefix(cds: Seq<ConditionalData>, key: Seq<char>, k: int)
    requires
        0 <= k <= cds.len(),
        find_known(cds.take(k), key) is Some,
    ensures
        find_known(cds, key) == find_known(cds.take(k), key),
    decreases cds.len() - k,
{
    if k < cds.len() {
        assert(cds.take(k + 1).drop_last() =~= cds.take(k));
        lemma_find_known_prefix(cds, key, k + 1);
    } else {
        assert(cds.take(k) =~= cds);
    }
}

/// The CEL text that opens a descriptor entry.
pub open spec fn entry_open() -> Seq<char> {
    "envoy.extensions.common.ratelimit.v3.RateLimitDescriptor.Entry { key: \""@
}

/// A descriptor entry with the given key and CEL value.
pub open spec fn entry_cel(key: Seq<char>, value_cel: Seq<char>) -> Seq<char> {
    entry_open() + escaped(key) + "\", value: "@ + value_cel + " }"@
}

/// `string(expr)` in CEL.
pub open spec fn string_of(expr: Seq<char>) -> Seq<char> {
    "string("@ + expr + ")"@
}

/// The descriptor entry of a data item.
pub open spec fn item_entry_cel(item: DataItem) -> Seq<char> {
    match item.item {
        DataType::Static(s) => entry_cel(s.key@, quoted(s.value@)),
        DataType::Expression(e) => entry_cel(e.key@, string_of(e.value@)),
    }
}

fn entry_cel_exec(key: &str, value_cel: &str) -> (res: String)
    ensures
        res@ == entry_cel(key@, value_cel@),
{
    let mut r = String::from_str("envoy.extensions.common.ratelimit.v3.RateLimitDescriptor.Entry { key: \"");
    r.push_str(escape_cel_string(key).as_str());
    r.push_str("\", value: ");
    r.push_str(value_cel);
    r.push_str(" }");
    assert(r@ =~= entry_cel(key@, value_cel@));
    r
}

/// The CEL descriptor entry of a data item.
pub fn build_ratelimit_descriptor_entry_cel(item: &DataItem) -> (res: String)
    ensures
        res@ == item_entry_cel(*item),
{
    match &item.item {
        DataType::Static(s) => {
            let mut v = String::new();
            v.push('"');
            v.push_str(escape_cel_string(s.value.as_str()).as_str());
            v.push('"');
            assert(v@ =~= quoted(s.value@));
            entry_cel_exec(s.key.as_str(), v.as_str())
        },
        DataType::Expression(e) => {
            let mut v = String::from_str("string(");
            v.push_str(e.value.as_str());
            v.push_str(")");
            assert(v@ =~= string_of(e.value@));
            entry_cel_exec(e.key.as_str(), v.as_str())
        },
    }
}

/// The descriptor entries of the items that are not known attributes, in order.
pub open spec fn entries_of(items: Seq<DataItem>) -> Seq<Seq<char>>
    decreases items.len(),
{
    if items.len() == 0 {
        Seq::empty()
    } else if is_known_key(item_key(items.last())) {
        entries_of(items.drop_last())
    } else {
        entries_of(items.drop_last()).push(item_entry_cel(items.last()))
    }
}

/// The CEL list of a block's entries, guarded by the block's predicates;
/// none when the block has no entries.
pub open spec fn entry_list_cel(cd: ConditionalData) -> Option<Seq<char>> {
    let es = entries_of(cd.data@);
    if es.len() == 0 {
        None
    } else {
        let list = "["@ + join_seq(es, ", "@) + "]"@;
        if cd.predicates@.len() == 0 {
            Some(list)
        } else {
            Some("(("@ + joined_predicates(views(cd.predicates@), "&&"@) + ") ? "@ + list
                + " : [])"@)
        }
    }
}

/// Builds the CEL list of a block's descriptor entries.
pub fn build_ratelimit_entry_list_cel(cd: &ConditionalData) -> (res: Option<String>)
    ensures
        match res {
            Some(v) => entry_list_cel(*cd) == Some(v@),
            None => entry_list_cel(*cd) is None,
        },
{
    let items = &cd.data;
    let m = items.len();
    let mut entries: Vec<String> = Vec::new();
    for j in 0..m
        invariant
            m == items@.len(),
            views(entries@) == entries_of(items@.take(j as int)),
    {
        assert(items@.take(j + 1).drop_last() =~= items@.take(j as int));
        if !is_ratelimit_known_attr(&items[j]) {
            let e = build_ratelimit_descriptor_entry_cel(&items[j]);
            entries.push(e);
            assert(views(entries@) =~= entries_of(items@.take(j as int)).push(item_entry_cel(items@[j as int])));
        }
    }
    assert(items@.take(m as int) =~= items@);
    if entries.len() == 0 {
        return None;
    }
    let mut list = String::from_str("[");
    list.push_str(join(&entries, ", ").as_str());
    list.push_str("]");
    assert(list@ =~= "["@ + join_seq(entries_of(items@), ", "@) + "]"@);
    if cd.predicates.len() == 0 {
        Some(list)
    } else {
        let pred = join_predicates(cd.predicates.as_slice(), "&&");
        let mut r = String::from_str("((");
        r.push_str(pred.as_str());
        r.push_str(") ? ");
        r.push_str(list.as_str());
        r.push_str(" : [])");
        assert(r@ =~= "(("@ + joined_predicates(views(cd.predicates@), "&&"@) + ") ? "@ + list@ + " : [])"@);
        Some(r)
    }
}

/// The entry lists of the blocks that have entries, in order.
pub open spec fn entry_lists(cds: Seq<ConditionalData>) -> Seq<Seq<char>>
    decreases cds.len(),
{
    if cds.len() == 0 {
        Seq::empty()
    } else {
        match entry_list_cel(cds.last()) {
            Some(l) => entry_lists(cds.drop_last()).push(l),
            None => entry_lists(cds.drop_last()),
        }
    }
}

/// The descriptor of all blocks' entries; none when no block has entries.
pub open spec fn descriptors_cel(cds: Seq<ConditionalData>) -> Option<Seq<char>> {
    let parts = entry_lists(cds);
    if parts.len() == 0 {
        None
    } else {
        Some("envoy.extensions.common.ratelimit.v3.RateLimitDescriptor { entries: "@ + join_seq(
            parts,
            " + "@,
        ) + " }"@)
    }
}

/// Builds the CEL descriptor of the blocks' entries.
pub fn build_ratelimit_descriptors_cel(conditional_data: &[ConditionalData]) -> (res: Option<String>)
    ensures
        match res {
            Some(v) => descriptors_cel(conditional_data@) == Some(v@),
            None => descriptors_cel(conditional_data@) is None,
        },
{
    let n = conditional_data.len();
    let mut parts: Vec<String> = Vec::new();
    for i in 0..n
        invariant
            n == conditional_data@.len(),
            views(parts@) == entry_lists(conditional_data@.take(i as int)),
    {
        assert(conditional_data@.take(i + 1).drop_last() =~= conditional_data@.take(i as int));
        match build_ratelimit_entry_list_cel(&conditional_data[i]) {
            Some(l) => {
                parts.push(l);
                assert(views(parts@) =~= entry_lists(conditional_data@.take(i as int)).push(
                    entry_list_cel(conditional_data@[i as int])->0,
                ));
            },
            None => {},
        }
    }
    assert(conditional_data@.take(n as int) =~= conditional_data@);
    if parts.len() == 0 {
        return None;
    }
    let mut r = String::from_str("envoy.extensions.common.ratelimit.v3.RateLimitDescriptor { entries: ");
    r.push_str(join(&parts, " + ").as_str());
    r.push_str(" }");
    Some(r)
}

/// A request data entry: ((domain, field), CEL expression).
pub type RequestDataEntry = ((String, String), String);

/// The descriptor key of a request data entry: the field alone when the
/// domain is empty or `metrics.labels`, `domain.field` otherwise.
pub open spec fn request_data_key(domain: Seq<char>, field: Seq<char>) -> Seq<char> {
    if domain.len() == 0 || domain == "metrics.labels"@ {
        field
    } else {
        domain + "."@ + field
    }
}

/// The descriptor entry of a request data entry.
pub open spec fn request_data_entry_cel(e: RequestDataEntry) -> Seq<char> {
    entry_cel(request_data_key(e.0.0@, e.0.1@), string_of(e.1@))
}

/// The entries of all request data, in order.
pub open spec fn request_data_entries(rd: Seq<RequestDataEntry>) -> Seq<Seq<char>> {
    rd.map_values(|e: RequestDataEntry| request_data_entry_cel(e))
}

/// The descriptors of a rate limit request: that of the blocks' entries
/// when there is one, then that of the request data when there is any.
pub open spec fn all_descriptors(cds: Seq<ConditionalData>, rd: Seq<RequestDataEntry>) -> Seq<Seq<char>> {
    let first: Seq<Seq<char>> = match descriptors_cel(cds) {
        Some(d) => seq![d],
        None => Seq::empty(),
    };
    if rd.len() == 0 {
        first
    } else {
        first.push("envoy.extensions.common.ratelimit.v3.RateLimitDescriptor { entries: ["@
            + join_seq(request_data_entries(rd), ", "@) + "] }"@)
    }
}

/// The CEL expression that builds the `RateLimitRequest` of an action.
pub open spec fn message_builder_cel(scope: Seq<char>, cds: Seq<ConditionalData>, rd: Seq<RequestDataEntry>) -> Seq<char> {
    let domain = match find_known(cds, "ratelimit.domain"@) {
        Some(v) => v,
        None => quoted(scope),
    };
    let hits = match find_known(cds, "ratelimit.hits_addend"@) {
        Some(v) => v,
        None => "1u"@,
    };
    let descs = all_descriptors(cds, rd);
    let descs_cel = if descs.len() == 0 {
        "[]"@
    } else {
        "["@ + join_seq(descs, ", "@) + "]"@
    };
    "envoy.service.ratelimit.v3.RateLimitRequest {\n    domain: "@ + domain + ",\n    hits_addend: "@
        + hits + ",\n    descriptors: "@ + descs_cel + "\n}"@
}

fn request_data_entry_exec(e: &RequestDataEntry) -> (res: String)
    ensures
        res@ == request_data_entry_cel(*e),
{
    let domain = &e.0.0;
    let field = &e.0.1;
    let mut key = String::new();
    if domain.as_str().is_empty() || same_text(domain, "metrics.labels") {
        key.push_str(field.as_str());
    } else {
        key.push_str(domain.as_str());
        key.push_str(".");
        key.push_str(field.as_str());
    }
    let mut v = String::from_str("string(");
    v.push_str(e.1.as_str());
    v.push_str(")");
    assert(v@ =~= string_of(e.1@));
    assert(key@ =~= request_data_key(domain@, field@));
    entry_cel_exec(key.as_str(), v.as_str())
}

/// Builds the CEL expression of the `RateLimitRequest` of a legacy action.
pub fn build_ratelimit_message_builder(
    scope: &str,
    conditional_data: &[ConditionalData],
    request_data: &[RequestDataEntry],
) -> (res: String)
    ensures
        res@ == message_builder_cel(scope@, conditional_data@, request_data@),
{
    let domain_cel = match find_ratelimit_known_attr_cel(conditional_data, "ratelimit.domain") {
        Some(v) => v,
        None => {
            let mut q = String::new();
            q.push('"');
            q.push_str(escape_cel_string(scope).as_str());
            q.push('"');
            assert(q@ =~= quoted(scope@));
            q
        },
    };
    let hits_addend_cel = match find_ratelimit_known_attr_cel(conditional_data, "ratelimit.hits_addend") {
        Some(v) => v,
        None => String::from_str("1u"),
    };
    let mut descriptors: Vec<String> = Vec::new();
    match build_ratelimit_descriptors_cel(conditional_data) {
        Some(d) => descriptors.push(d),
        None => {},
    }
    if request_data.len() > 0 {
        let n = request_data.len();
        let mut entries: Vec<String> = Vec::new();
        for i in 0..n
            invariant
                n == request_data@.len(),
                entries@.len() == i,
                views(entries@) =~= request_data_entries(request_data@.take(i as int)),
        {
            let e = request_data_entry_exec(&request_data[i]);
            let ghost old_entries = entries@;
            entries.push(e);
            assert forall|k: int| 0 <= k < i implies views(entries@)[k] == views(old_entries)[k] by {
                assert(entries@[k] == old_entries[k]);
            }
            assert(request_data@.take(i + 1) =~= request_data@.take(i as int).push(request_data@[i as int]));
            assert forall|k: int| 0 <= k < i + 1 implies views(entries@)[k] == request_data_entries(request_data@.take(i + 1))[k] by {
                if k < i {
                    assert(views(old_entries)[k] == request_data_entries(request_data@.take(i as int))[k]);
                }
            }
            assert(views(entries@) =~= request_data_entries(request_data@.take(i + 1)));
        }
        assert(request_data@.take(n as int) =~= request_data@);
        let mut d = String::from_str("envoy.extensions.common.ratelimit.v3.RateLimitDescriptor { entries: [");
        d.push_str(join(&entries, ", ").as_str());
        d.push_str("] }");
        descriptors.push(d);
    }
    assert(views(descriptors@) =~= all_descriptors(conditional_data@, request_data@));
    let descriptors_cel = if descriptors.len() == 0 {
        String::from_str("[]")
    } else {
        let mut c = String::from_str("[");
        c.push_str(join(&descriptors, ", ").as_str());
        c.push_str("]");
        assert(c@ =~= "["@ + join_seq(views(descriptors@), ", "@) + "]"@);
        c
    };
    let mut r = String::from_str("envoy.service.ratelimit.v3.RateLimitRequest {\n    domain: ");
    r.push_str(domain_cel.as_str());
    r.push_str(",\n    hits_addend: ");
    r.push_str(hits_addend_cel.as_str());
    r.push_str(",\n    descriptors: ");
    r.push_str(descriptors_cel.as_str());
    r.push_str("\n}");
    assert(r@ =~= message_builder_cel(scope@, conditional_data@, request_data@));
    r
}


/// The predicate of one block of a descriptor: its single predicate, or
/// the parenthesized conjunction of its predicates.
pub open spec fn block_predicate(cd: ConditionalData) -> Seq<char> {
    if cd.predicates@.len() == 1 {
        cd.predicates@[0]@
    } else {
        "("@ + joined_predicates(views(cd.predicates@), "&&"@) + ")"@
    }
}

/// Whether some block has no predicates, and so always contributes.
pub open spec fn has_unconditional_block(cds: Seq<ConditionalData>) -> bool {
    exists|i: int| 0 <= i < cds.len() && #[trigger] cds[i].predicates@.len() == 0
}

/// When any of the blocks applies: `true` when there is no block or some
/// block is unconditional, otherwise the disjunction of the blocks' predicates.
pub open spec fn descriptor_predicate(cds: Seq<ConditionalData>) -> Seq<char> {
    if cds.len() == 0 || has_unconditional_block(cds) {
        "true"@
    } else if cds.len() == 1 {
        block_predicate(cds[0])
    } else {
        join_seq(cds.map_values(|cd: ConditionalData| block_predicate(cd)), " || "@)
    }
}

/// Builds the predicate under which some block of descriptors applies.
pub fn build_descriptor_predicate(conditional_data: &[ConditionalData]) -> (res: String)
    ensures
        res@ == descriptor_predicate(conditional_data@),
{
    let n = conditional_data.len();
    if n == 0 {
        return String::from_str("true");
    }
    for i in 0..n
        invariant
            n == conditional_data@.len(),
            forall|k: int| 0 <= k < i ==> conditional_data@[k].predicates@.len() != 0,
    {
        if conditional_data[i].predicates.len() == 0 {
            assert(has_unconditional_block(conditional_data@));
            return String::from_str("true");
        }
    }
    let ghost blocks = conditional_data@.map_values(|cd: ConditionalData| block_predicate(cd));
    let mut parts: Vec<String> = Vec::new();
    for i in 0..n
        invariant
            n == conditional_data@.len(),
            blocks == conditional_data@.map_values(|cd: ConditionalData| block_predicate(cd)),
            parts@.len() == i,
            forall|k: int| 0 <= k < i ==> #[trigger] parts@[k]@ == blocks[k],
    {
        let preds = &conditional_data[i].predicates;
        let b = if preds.len() == 1 {
            preds[0].clone()
        } else {
            let mut r = String::from_str("(");
            r.push_str(join_predicates(preds.as_slice(), "&&").as_str());
            r.push_str(")");
            r
        };
        parts.push(b);
    }
    assert(views(parts@) =~= blocks);
    if n == 1 {
        parts[0].clone()
    } else {
        join(&parts, " || ")
    }
}

/// The predicate of a translated rate limit action: the conjunction of
/// the action's predicate and the descriptors' predicate, leaving out
/// whichever of the two is `true`.
pub open spec fn ratelimit_predicate(action_predicates: Seq<Seq<char>>, cds: Seq<ConditionalData>) -> Seq<char> {
    let a = joined_predicates(action_predicates, "&&"@);
    let c = descriptor_predicate(cds);
    if a == "true"@ && c == "true"@ {
        "true"@
    } else if a == "true"@ {
        c
    } else if c == "true"@ {
        a
    } else {
        "("@ + a + ") && ("@ + c + ")"@
    }
}

/// The predicate of a translated rate limit action holds exactly when the
/// action's predicate and the descriptors' predicate both hold. Where
/// neither is `true`, each is kept whole as one operand of the `&&`, in
/// parentheses of its own, so that no `||` inside either binds across it;
/// a part that is `true` is left out, and the predicate is the other one.
pub proof fn lemma_ratelimit_predicate_is_conjunction(action_predicates: Seq<Seq<char>>, cds: Seq<ConditionalData>)
    ensures
        ({
            let a = joined_predicates(action_predicates, "&&"@);
            let c = descriptor_predicate(cds);
            let r = ratelimit_predicate(action_predicates, cds);
            &&& a != "true"@ && c != "true"@ ==> r == seq!['('] + a + seq![')'] + " && "@ + seq!['('] + c + seq![')']
            &&& a == "true"@ ==> r == c
            &&& a != "true"@ && c == "true"@ ==> r == a
        }),
{
    let a = joined_predicates(action_predicates, "&&"@);
    let c = descriptor_predicate(cds);
    reveal_strlit("(");
    reveal_strlit(") && (");
    reveal_strlit(")");
    reveal_strlit(" && ");
    assert("("@ + a + ") && ("@ + c + ")"@ =~= seq!['('] + a + seq![')'] + " && "@ + seq!['('] + c + seq![')']);
}

/// Builds the predicate of a translated rate limit action.
pub fn build_ratelimit_predicate(action_predicates: &[String], conditional_data: &[ConditionalData]) -> (res: String)
    ensures
        res@ == ratelimit_predicate(views(action_predicates@), conditional_data@),
{
    let action_pred = build_action_predicate(action_predicates);
    let conditional_pred = build_descriptor_predicate(conditional_data);
    let a_true = same_text(&action_pred, "true");
    let c_true = same_text(&conditional_pred, "true");
    if a_true && c_true {
        String::from_str("true")
    } else if a_true {
        conditional_pred
    } else if c_true {
        action_pred
    } else {
        let mut r = String::from_str("(");
        r.push_str(action_pred.as_str());
        r.push_str(") && (");
        r.push_str(conditional_pred.as_str());
        r.push_str(")");
        assert(r@ =~= "("@ + action_pred@ + ") && ("@ + conditional_pred@ + ")"@);
        r
    }
}

/// The deny response sent when the service answers over limit.
pub open spec fn over_limit_response(name: Seq<char>) -> Seq<char> {
    "DenyResponse{status: 429u, headers: "@ + name
        + ".response_headers_to_add, body: \"Too Many Requests\\n\"}"@
}

/// The reply actions of a translated rate limit action that binds the
/// service's reply to `name`: deny with 429 when over limit (code 2),
/// add the response headers when OK (code 1), fail on any other code.
pub open spec fn is_ratelimit_on_reply(actions: Seq<TypedAction>, name: Seq<char>) -> bool {
    &&& actions.len() == 3
    &&& forall|i: int| 0 <= i < 3 ==> !(#[trigger] actions[i]).is_guard && actions[i].sources@.len() == 0
    &&& actions[0].predicate@ == name + ".overall_code == 2"@
    &&& actions[0].terminal
    &&& actions[0].operation matches Operation::Deny(d) && d.deny_with@ == over_limit_response(name)
    &&& actions[1].predicate@ == name + ".overall_code == 1"@
    &&& !actions[1].terminal
    &&& actions[1].operation matches Operation::Headers(h) && h.target == HeadersTarget::Response
        && h.headers@ == name + ".response_headers_to_add"@
    &&& actions[2].predicate@ == name + ".overall_code != 1 && "@ + name + ".overall_code != 2"@
    &&& actions[2].terminal
    &&& actions[2].operation matches Operation::Fail(f) && f.log_message@
        == "Unknown rate limit response code from "@ + name
}

/// Builds the reply actions of a translated rate limit action.
pub fn build_ratelimit_on_reply(name: &str) -> (res: Vec<TypedAction>)
    ensures
        is_ratelimit_on_reply(res@, name@),
{
    let mut p0 = owned(name);
    p0.push_str(".overall_code == 2");
    let mut deny_with = String::from_str("DenyResponse{status: 429u, headers: ");
    deny_with.push_str(name);
    deny_with.push_str(".response_headers_to_add, body: \"Too Many Requests\\n\"}");
    assert(deny_with@ =~= over_limit_response(name@));
    let mut p1 = owned(name);
    p1.push_str(".overall_code == 1");
    let mut headers = owned(name);
    headers.push_str(".response_headers_to_add");
    let mut p2 = owned(name);
    p2.push_str(".overall_code != 1 && ");
    p2.push_str(name);
    p2.push_str(".overall_code != 2");
    assert(p2@ =~= name@ + ".overall_code != 1 && "@ + name@ + ".overall_code != 2"@);
    let mut log_message = String::from_str("Unknown rate limit response code from ");
    log_message.push_str(name);
    let mut res: Vec<TypedAction> = Vec::new();
    res.push(TypedAction {
        predicate: p0,
        terminal: true,
        is_guard: false,
        sources: Vec::new(),
        operation: Operation::Deny(DenyOperation { deny_with }),
    });
    res.push(TypedAction {
        predicate: p1,
        terminal: false,
        is_guard: false,
        sources: Vec::new(),
        operation: Operation::Headers(HeadersOperation { target: HeadersTarget::Response, headers }),
    });
    res.push(TypedAction {
        predicate: p2,
        terminal: true,
        is_guard: false,
        sources: Vec::new(),
        operation: Operation::Fail(FailOperation { log_message }),
    });
    res
}

/// The variable that the rate limit service's reply is bound to.
pub open spec fn response_var() -> Seq<char> {
    "ratelimit_response"@
}

/// Translates a legacy rate limit action into a typed gRPC action: its
/// predicate is `ratelimit_predicate`, it is not terminal, it is a guard
/// (the request waits for the rate limit service's verdict), it keeps the
/// action's sources, it calls the
/// action's service with the message that `message_builder_cel` builds,
/// binds the reply to `ratelimit_response`, and replies as
/// `is_ratelimit_on_reply` says.
pub fn translate_legacy_ratelimit_to_typed(action: &Action, request_data: &[RequestDataEntry]) -> (res: TypedAction)
    ensures
        res.predicate@ == ratelimit_predicate(views(action.predicates@), action.conditional_data@),
        !res.terminal,
        res.is_guard,
        views(res.sources@) == views(action.sources@),
        res.operation matches Operation::Grpc(g) && {
            &&& g.var@ == response_var()
            &&& g.service@ == action.service@
            &&& g.message_builder@ == message_builder_cel(action.scope@, action.conditional_data@, request_data@)
            &&& is_ratelimit_on_reply(g.on_reply@, response_var())
        },
{
    let message_builder = build_ratelimit_message_builder(
        action.scope.as_str(),
        action.conditional_data.as_slice(),
        request_data,
    );
    let predicate = build_ratelimit_predicate(action.predicates.as_slice(), action.conditional_data.as_slice());
    let on_reply = build_ratelimit_on_reply("ratelimit_response");
    TypedAction {
        predicate,
        terminal: false,
        is_guard: true,
        sources: owned_all(&action.sources),
        operation: Operation::Grpc(GrpcOperation {
            var: String::from_str("ratelimit_response"),
            service: action.service.clone(),
            message_builder,
            on_reply,
        }),
    }
}

} // verus!
