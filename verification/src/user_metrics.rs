//! Host metrics of authorized calls, limited calls and token usage, in
//! total and per user, group and namespace. The host defines and
//! increments the metrics; this module decides which metric to touch.
use crate::metrics::MetricIncrement;
use crate::text::{owned, same_text};
use vstd::prelude::*;

verus! {

/// The metric of authorized calls.
pub const AUTHORIZED_CALLS_METRIC_ID: &'static str = "authorized_calls_total";
/// The metric of rate-limited calls.
pub const LIMITED_CALLS_METRIC_ID: &'static str = "limited_calls_total";
/// The metric of tokens used.
pub const TOKEN_USAGE_METRIC_ID: &'static str = "token_usage_total";

/// The id of the metric registered under `name`, the first registration first.
pub open spec fn metric_of(metrics: Seq<(String, u32)>, name: Seq<char>) -> Option<u32>
    decreases metrics.len(),
{
    if metrics.len() == 0 {
        None
    } else if metrics[0].0@ == name {
        Some(metrics[0].1)
    } else {
        metric_of(metrics.drop_first(), name)
    }
}

/// Metrics defined on the host, by name, and whether counting is enabled.
pub struct HostMetrics {
    enabled: bool,
    metrics: Vec<(String, u32)>,
}

impl HostMetrics {
    /// Whether counting is enabled.
    pub closed spec fn enabled(&self) -> bool {
        self.enabled
    }

    /// The metrics defined so far.
    pub closed spec fn defined(&self) -> Seq<(String, u32)> {
        self.metrics@
    }

    /// Enabled metrics with none defined yet.
    pub fn new() -> (res: HostMetrics)
        ensures
            res.enabled(),
            res.defined().len() == 0,
    {
        HostMetrics { enabled: true, metrics: Vec::new() }
    }

    /// Records that the host defined metric `name` with id `metric_id`.
    pub fn define(&mut self, name: &str, metric_id: u32)
        ensures
            final(self).enabled() == old(self).enabled(),
            final(self).defined().len() == old(self).defined().len() + 1,
            final(self).defined().take(old(self).defined().len() as int) == old(self).defined(),
            final(self).defined().last().0@ == name@,
            final(self).defined().last().1 == metric_id,
    {
        self.metrics.push((owned(name), metric_id));
        assert(self.metrics@.take(old(self).metrics@.len() as int) =~= old(self).metrics@);
    }

    /// Enables counting.
    pub fn enable(&mut self)
        ensures
            final(self).enabled(),
            final(self).defined() == old(self).defined(),
    {
        self.enabled = true;
    }

    /// Leaves counting enabled: `disable` stores `true`, as `enable` does,
    /// so that no call switches the metrics off.
    pub fn disable(&mut self)
        ensures
            final(self).enabled(),
            final(self).defined() == old(self).defined(),
    {
        self.enabled = true;
    }

    /// Whether counting is enabled.
    pub fn is_enabled(&self) -> (res: bool)
        ensures
            res == self.enabled(),
    {
        self.enabled
    }

    /// The id of the metric defined under `name`.
    pub fn metric_id(&self, name: &str) -> (res: Option<u32>)
        ensures
            res == metric_of(self.defined(), name@),
    {
        let n = self.metrics.len();
        let mut i: usize = 0;
        assert(self.metrics@.skip(0) =~= self.metrics@);
        while i < n
            invariant
                n == self.metrics@.len(),
                i <= n,
                metric_of(self.metrics@, name@) == metric_of(self.metrics@.skip(i as int), name@),
            decreases n - i,
        {
            assert(self.metrics@.skip(i as int)[0] == self.metrics@[i as int]);
            if same_text(&self.metrics[i].0, name) {
                return Some(self.metrics[i].1);
            }
            assert(self.metrics@.skip(i as int).drop_first() =~= self.metrics@.skip(i + 1));
            i += 1;
        }
        None
    }

    /// The increment of metric `name` by `offset`: none when counting is
    /// disabled or the metric is not defined.
    pub fn try_offset_counter(&self, name: &str, offset: i64) -> (res: Option<MetricIncrement>)
        ensures
            res == (if self.enabled() {
                match metric_of(self.defined(), name@) {
                    Some(id) => Some(MetricIncrement { metric_id: id, offset }),
                    None => None,
                }
            } else {
                None
            }),
    {
        if self.is_enabled() {
            match self.metric_id(name) {
                Some(id) => Some(MetricIncrement { metric_id: id, offset }),
                None => None,
            }
        } else {
            None
        }
    }
}

/// The characters before the first occurrence of `sep`, or all of them.
pub open spec fn before_char(s: Seq<char>, sep: char) -> Seq<char>
    decreases s.len(),
{
    if s.len() == 0 {
        Seq::empty()
    } else if s[0] == sep {
        Seq::empty()
    } else {
        seq![s[0]] + before_char(s.drop_first(), sep)
    }
}

/// Whether `c` occurs in `s`.
pub open spec fn has_char(s: Seq<char>, c: char) -> bool {
    exists|i: int| 0 <= i < s.len() && s[i] == c
}

/// The characters of `s` before the first `sep`, and whether `sep` occurs.
pub fn split_first(s: &str, sep: char) -> (res: (String, bool))
    ensures
        res.0@ == before_char(s@, sep),
        res.1 == has_char(s@, sep),
{
    let cs = crate::text::chars_of(s);
    let n = cs.len();
    let mut out = String::new();
    let mut i: usize = 0;
    assert(s@.skip(0) =~= s@);
    while i < n && cs[i] != sep
        invariant
            cs@ == s@,
            n == s@.len(),
            i <= n,
            before_char(s@, sep) == out@ + before_char(s@.skip(i as int), sep),
            forall|k: int| 0 <= k < i ==> s@[k] != sep,
        decreases n - i,
    {
        assert(s@.skip(i as int)[0] == s@[i as int]);
        assert(s@.skip(i as int).drop_first() =~= s@.skip(i + 1));
        assert(out@.push(cs@[i as int]) + before_char(s@.skip(i + 1), sep) =~= out@ + (seq![cs@[i as int]] + before_char(s@.skip(i + 1), sep)));
        out.push(cs[i]);
        i += 1;
    }
    if i < n {
        assert(s@.skip(i as int)[0] == s@[i as int]);
    }
    assert(out@ + Seq::<char>::empty() =~= out@);
    (out, i < n)
}

/// The namespace of a policy scope `namespace/name`; `default` for a scope
/// without `/`.
pub open spec fn namespace_of_scope(scope: Seq<char>) -> Seq<char> {
    if has_char(scope, '/') {
        before_char(scope, '/')
    } else {
        "default"@
    }
}

/// The characters before the first `sep` of `s`, where `s` holds one: a
/// proper prefix of `s` that holds no `sep` and is followed in `s` by `sep`.
proof fn lemma_before_char(s: Seq<char>, sep: char)
    requires
        has_char(s, sep),
    ensures
        before_char(s, sep).len() < s.len(),
        s.take(before_char(s, sep).len() as int) == before_char(s, sep),
        s[before_char(s, sep).len() as int] == sep,
        forall|i: int| 0 <= i < before_char(s, sep).len() ==> #[trigger] before_char(s, sep)[i] != sep,
    decreases s.len(),
{
    if s[0] != sep {
        let t = s.drop_first();
        let j = choose|j: int| 0 <= j < s.len() && s[j] == sep;
        assert(j > 0);
        assert(t[j - 1] == sep);
        lemma_before_char(t, sep);
        let b = before_char(t, sep);
        assert(before_char(s, sep) == seq![s[0]] + b);
        assert(s.take(b.len() + 1 as int) =~= seq![s[0]] + t.take(b.len() as int));
        assert forall|i: int| 0 <= i < b.len() + 1 implies #[trigger] (seq![s[0]] + b)[i] != sep by {
            if i > 0 {
                assert((seq![s[0]] + b)[i] == b[i - 1]);
            }
        }
    } else {
        assert(s.take(0) =~= Seq::<char>::empty());
    }
}

/// The namespace of a scope `namespace/name` is the part before the first
/// `/`: a prefix of the scope, followed there by `/`, holding no `/`
/// itself. A scope without `/` is in the namespace `default`.
pub proof fn lemma_namespace_of_scope(scope: Seq<char>)
    ensures
        has_char(scope, '/') ==> {
            let ns = namespace_of_scope(scope);
            &&& ns.len() < scope.len()
            &&& scope.take(ns.len() as int) == ns
            &&& scope[ns.len() as int] == '/'
            &&& !has_char(ns, '/')
        },
        !has_char(scope, '/') ==> namespace_of_scope(scope) == "default"@,
{
    if has_char(scope, '/') {
        lemma_before_char(scope, '/');
    }
}

/// The namespace of a policy scope.
pub fn extract_namespace_from_scope(scope: &str) -> (res: String)
    ensures
        res@ == namespace_of_scope(scope@),
{
    let (ns, found) = split_first(scope, '/');
    if found {
        ns
    } else {
        String::from_str("default")
    }
}

/// The user id of the identity in the auth metadata, `unknown` when absent.
pub open spec fn user_id_of(user_id: Option<Seq<char>>) -> Seq<char> {
    match user_id {
        Some(u) => u,
        None => "unknown"@,
    }
}

/// The first group of the identity's comma-separated groups, `unknown`
/// when absent.
pub open spec fn group_of(groups: Option<Seq<char>>) -> Seq<char> {
    match groups {
        Some(g) => before_char(g, ','),
        None => "unknown"@,
    }
}

/// The user id and first group of the identity, from the values the host
/// holds for `auth.identity.userid` and `auth.identity.groups`.
pub fn extract_user_info(user_id: Option<String>, groups: Option<String>) -> (res: (String, String))
    ensures
        res.0@ == user_id_of(match user_id { Some(u) => Some(u@), None => None }),
        res.1@ == group_of(match groups { Some(g) => Some(g@), None => None }),
{
    let user = match user_id {
        Some(u) => u,
        None => String::from_str("unknown"),
    };
    let group = match groups {
        Some(g) => split_first(g.as_str(), ',').0,
        None => String::from_str("unknown"),
    };
    (user, group)
}

/// The name of the per-user metric:
/// `type__user__USER__group__GROUP__namespace__NAMESPACE`.
pub open spec fn user_group_metric_name(metric_type: Seq<char>, user: Seq<char>, group: Seq<char>, namespace: Seq<char>) -> Seq<char> {
    metric_type + "__user__"@ + user + "__group__"@ + group + "__namespace__"@ + namespace
}

/// The key under which the per-user metric's id is kept:
/// `type:user:group:namespace`.
pub open spec fn user_group_key(metric_type: Seq<char>, user: Seq<char>, group: Seq<char>, namespace: Seq<char>) -> Seq<char> {
    metric_type + ":"@ + user + ":"@ + group + ":"@ + namespace
}

/// The per-user metric to increment for a call in `scope`: its name and
/// the key of its id; none when the user or the group is unknown.
pub fn user_group_metric(metric_type: &str, scope: &str, user: &str, group: &str) -> (res: Option<(String, String)>)
    ensures
        (user@ == "unknown"@ || group@ == "unknown"@) ==> res is None,
        !(user@ == "unknown"@ || group@ == "unknown"@) ==> (res matches Some(p) && p.0@
            == user_group_metric_name(metric_type@, user@, group@, namespace_of_scope(scope@))
            && p.1@ == user_group_key(metric_type@, user@, group@, namespace_of_scope(scope@))),
{
    let u = owned(user);
    let g = owned(group);
    if same_text(&u, "unknown") || same_text(&g, "unknown") {
        return None;
    }
    let namespace = extract_namespace_from_scope(scope);
    let mut name = owned(metric_type);
    name.push_str("__user__");
    name.push_str(user);
    name.push_str("__group__");
    name.push_str(group);
    name.push_str("__namespace__");
    name.push_str(namespace.as_str());
    let mut key = owned(metric_type);
    key.push_str(":");
    key.push_str(user);
    key.push_str(":");
    key.push_str(group);
    key.push_str(":");
    key.push_str(namespace.as_str());
    assert(name@ =~= user_group_metric_name(metric_type@, user@, group@, namespace_of_scope(scope@)));
    assert(key@ =~= user_group_key(metric_type@, user@, group@, namespace_of_scope(scope@)));
    Some((name, key))
}

} // verus!
