//! The bookkeeping of gRPC service descriptors: which services the plugin
//! expects, whether their descriptors are embedded, missing, being fetched
//! or resolved, and under which content hash each resolved pool is kept.
//! Fetching, decoding and the pools themselves stay with the host side.
use crate::text::{owned, same_text};
use std::hash::{Hash, Hasher};
use vstd::prelude::*;

verus! {

/// A service at a cluster.
#[derive(Debug, Clone)]
pub struct DescriptorKey {
    pub cluster: String,
    pub service: String,
}

/// The view of a key: its cluster and service.
pub open spec fn key_view(k: DescriptorKey) -> (Seq<char>, Seq<char>) {
    (k.cluster@, k.service@)
}

impl DescriptorKey {
    /// The key of `service` at `cluster`.
    pub fn new(cluster: String, service: String) -> (res: Self)
        ensures
            res.cluster == cluster,
            res.service == service,
    {
        Self { cluster, service }
    }

    /// A copy of the key.
    pub fn duplicate(&self) -> (res: Self)
        ensures
            key_view(res) == key_view(*self),
    {
        Self { cluster: self.cluster.clone(), service: self.service.clone() }
    }

    /// Whether two keys name the same service at the same cluster.
    pub fn same(&self, other: &DescriptorKey) -> (res: bool)
        ensures
            res == (key_view(*self) == key_view(*other)),
    {
        self.cluster == other.cluster && self.service == other.service
    }
}

/// Why a descriptor pool could not be had.
#[derive(Debug)]
pub enum DescriptorError {
    NotAvailable { cluster: String, service: String },
}

impl DescriptorError {
    /// The error's message.
    pub fn message(&self) -> (res: String)
        ensures
            match self {
                DescriptorError::NotAvailable { cluster, service } => res@
                    == "Descriptor not available for service "@ + service@ + " at cluster "@
                    + cluster@,
            },
    {
        match self {
            DescriptorError::NotAvailable { cluster, service } => {
                let mut r = String::from_str("Descriptor not available for service ");
                r.push_str(service.as_str());
                r.push_str(" at cluster ");
                r.push_str(cluster.as_str());
                r
            },
        }
    }
}

/// The state of an expected descriptor.
#[derive(Debug, Clone, Copy, PartialEq, Eq, Structural)]
pub enum DescriptorState {
    /// Built in, kept under this content hash.
    Embedded(u64),
    /// Not yet fetched.
    Missing,
    /// Being fetched by the gRPC call with this token.
    Pending(u32),
    /// Fetched, kept under this content hash.
    Resolved(u64),
}

/// The state of `key` in `entries`, the first entry for it first.
pub open spec fn state_in(entries: Seq<(DescriptorKey, DescriptorState)>, key: (Seq<char>, Seq<char>)) -> Option<DescriptorState>
    decreases entries.len(),
{
    if entries.len() == 0 {
        None
    } else if key_view(entries[0].0) == key {
        Some(entries[0].1)
    } else {
        state_in(entries.drop_first(), key)
    }
}

/// The hash of the embedded descriptors of `service`, the latest
/// registration first.
pub open spec fn embedded_in(embedded: Seq<(String, u64)>, service: Seq<char>) -> Option<u64>
    decreases embedded.len(),
{
    if embedded.len() == 0 {
        None
    } else if embedded.last().0@ == service {
        Some(embedded.last().1)
    } else {
        embedded_in(embedded.drop_last(), service)
    }
}

/// The hash of a serialized descriptor set: what `DefaultHasher`, created
/// fresh, finishes with after hashing the bytes. Every `DefaultHasher::new`
/// of one build starts alike, so within a build this is a function of the
/// bytes; std does not fix the algorithm across releases, and it hashes
/// the length as a `usize`, so builds for other word sizes differ.
pub uninterp spec fn bytes_hash(bytes: Seq<u8>) -> u64;

/// Hashes a serialized descriptor set with a fresh `DefaultHasher`.
/// Trusted: the hash is the named function of the bytes.
#[verifier::external_body]
pub(crate) fn hash_bytes(bytes: &[u8]) -> (res: u64)
    ensures
        res == bytes_hash(bytes@),
{
    let mut hasher = std::collections::hash_map::DefaultHasher::new();
    bytes.hash(&mut hasher);
    hasher.finish()
}

/// What `fetch_missing` has to do.
pub enum FetchPlan {
    /// No descriptor is missing.
    Nothing,
    /// Descriptors are missing but no descriptor service is configured.
    NoService,
    /// Fetch the descriptors of `keys` from `service`.
    Fetch { service: String, keys: Vec<DescriptorKey> },
}

/// The descriptors the plugin expects and where each stands.
pub struct DescriptorRegistry {
    entries: Vec<(DescriptorKey, DescriptorState)>,
    embedded: Vec<(String, u64)>,
    descriptor_service: Option<String>,
}

/// Whether no key has two entries.
pub open spec fn distinct_keys(entries: Seq<(DescriptorKey, DescriptorState)>) -> bool {
    forall|i: int, j: int| 0 <= i < j < entries.len() ==> key_view(#[trigger] entries[i].0) != key_view(#[trigger] entries[j].0)
}

impl DescriptorRegistry {
    /// Each expected key has one entry.
    #[verifier::type_invariant]
    closed spec fn inv(&self) -> bool {
        distinct_keys(self.entries@)
    }

    /// The state of the descriptor of `key`, if expected.
    pub closed spec fn state(&self, key: (Seq<char>, Seq<char>)) -> Option<DescriptorState> {
        state_in(self.entries@, key)
    }

    /// The hash of the embedded descriptors of `service`, if any.
    pub closed spec fn embedded(&self, service: Seq<char>) -> Option<u64> {
        embedded_in(self.embedded@, service)
    }

    /// The configured descriptor service.
    pub closed spec fn service(&self) -> Option<Seq<char>> {
        match self.descriptor_service {
            Some(s) => Some(s@),
            None => None,
        }
    }

    /// The expected keys, in the order they were first expected.
    pub closed spec fn keys(&self) -> Seq<(Seq<char>, Seq<char>)> {
        self.entries@.map_values(|e: (DescriptorKey, DescriptorState)| key_view(e.0))
    }

    /// A registry that expects nothing, with nothing embedded.
    pub fn new() -> (res: Self)
        ensures
            forall|k| res.state(k) is None,
            forall|s| res.embedded(s) is None,
            res.service() is None,
    {
        DescriptorRegistry { entries: Vec::new(), embedded: Vec::new(), descriptor_service: None }
    }

    /// Configures the service that descriptors are fetched from.
    pub fn set_descriptor_service(&mut self, service: &str)
        ensures
            final(self).service() == Some(service@),
            forall|k| final(self).state(k) == old(self).state(k),
            forall|s| final(self).embedded(s) == old(self).embedded(s),
    {
        proof {
            use_type_invariant(&*self);
        }
        self.descriptor_service = Some(owned(service));
    }

    /// Records that the descriptors of `service` are built in, under
    /// `content_hash`.
    pub fn register_embedded(&mut self, service: &str, content_hash: u64)
        ensures
            final(self).embedded(service@) == Some(content_hash),
            forall|s| s != service@ ==> final(self).embedded(s) == old(self).embedded(s),
            forall|k| final(self).state(k) == old(self).state(k),
            final(self).service() == old(self).service(),
    {
        proof {
            use_type_invariant(&*self);
        }
        let mut embedded: Vec<(String, u64)> = Vec::new();
        std::mem::swap(&mut embedded, &mut self.embedded);
        embedded.push((owned(service), content_hash));
        self.embedded = embedded;
        assert(self.embedded@.drop_last() =~= old(self).embedded@);
    }

    /// Records that the descriptors of `service`, serialized as `fds_bytes`,
    /// are built in; they are kept under the hash of those bytes, so that
    /// services registered with the same bytes share a pool.
    pub fn register_embedded_bytes(&mut self, service: &str, fds_bytes: &[u8]) -> (res: u64)
        ensures
            res == bytes_hash(fds_bytes@),
            final(self).embedded(service@) == Some(res),
            forall|s| s != service@ ==> final(self).embedded(s) == old(self).embedded(s),
            forall|k| final(self).state(k) == old(self).state(k),
            final(self).service() == old(self).service(),
    {
        let content_hash = hash_bytes(fds_bytes);
        self.register_embedded(service, content_hash);
        content_hash
    }

    /// The state of the descriptor of `key`, if it is expected.
    pub fn state_of(&self, key: &DescriptorKey) -> (res: Option<DescriptorState>)
        ensures
            res == self.state(key_view(*key)),
    {
        match self.position(key) {
            Some(i) => Some(self.entries[i].1),
            None => None,
        }
    }

    /// The hash of the embedded descriptors of `service`.
    fn embedded_hash(&self, service: &String) -> (res: Option<u64>)
        ensures
            res == self.embedded(service@),
    {
        let n = self.embedded.len();
        let mut i = n;
        assert(self.embedded@.take(n as int) =~= self.embedded@);
        while i > 0
            invariant
                n == self.embedded@.len(),
                i <= n,
                embedded_in(self.embedded@, service@) == embedded_in(self.embedded@.take(i as int), service@),
            decreases i,
        {
            assert(self.embedded@.take(i as int).last() == self.embedded@[i - 1]);
            if self.embedded[i - 1].0 == *service {
                return Some(self.embedded[i - 1].1);
            }
            assert(self.embedded@.take(i as int).drop_last() =~= self.embedded@.take(i - 1));
            i -= 1;
        }
        None
    }

    /// The index of the entry of `key`, if expected.
    fn position(&self, key: &DescriptorKey) -> (res: Option<usize>)
        ensures
            match res {
                Some(i) => i < self.entries@.len() && key_view(self.entries@[i as int].0) == key_view(*key)
                    && self.state(key_view(*key)) == Some(self.entries@[i as int].1)
                    && forall|j: int| 0 <= j < i ==> key_view(#[trigger] self.entries@[j].0) != key_view(*key),
                None => self.state(key_view(*key)) is None,
            },
    {
        let n = self.entries.len();
        let mut i: usize = 0;
        assert(self.entries@.skip(0) =~= self.entries@);
        while i < n
            invariant
                n == self.entries@.len(),
                i <= n,
                state_in(self.entries@, key_view(*key)) == state_in(self.entries@.skip(i as int), key_view(*key)),
                forall|j: int| 0 <= j < i ==> key_view(#[trigger] self.entries@[j].0) != key_view(*key),
            decreases n - i,
        {
            assert(self.entries@.skip(i as int)[0] == self.entries@[i as int]);
            if self.entries[i].0.same(key) {
                return Some(i);
            }
            assert(self.entries@.skip(i as int).drop_first() =~= self.entries@.skip(i + 1));
            i += 1;
        }
        None
    }

    /// Expects the descriptor of `key`: embedded when its service's
    /// descriptors are built in, missing otherwise; a key already expected
    /// keeps its state.
    pub fn add_expected(&mut self, key: DescriptorKey)
        ensures
            old(self).state(key_view(key)) is Some ==> final(self).state(key_view(key)) == old(self).state(key_view(key)),
            old(self).state(key_view(key)) is None ==> final(self).state(key_view(key)) == Some(
                match old(self).embedded(key.service@) {
                    Some(h) => DescriptorState::Embedded(h),
                    None => DescriptorState::Missing,
                },
            ),
            forall|k| k != key_view(key) ==> final(self).state(k) == old(self).state(k),
            forall|s| final(self).embedded(s) == old(self).embedded(s),
            final(self).service() == old(self).service(),
    {
        let initial = match self.embedded_hash(&key.service) {
            Some(h) => DescriptorState::Embedded(h),
            None => DescriptorState::Missing,
        };
        match self.position(&key) {
            Some(_) => {},
            None => {
                proof {
                    use_type_invariant(&*self);
                    lemma_absent_key(self.entries@, key_view(key));
                }
                let mut entries: Vec<(DescriptorKey, DescriptorState)> = Vec::new();
                std::mem::swap(&mut entries, &mut self.entries);
                entries.push((key, initial));
                proof {
                    lemma_state_push(old(self).entries@, (key, initial));
                }
                self.entries = entries;
            },
        }
    }

    /// Whether some expected descriptor is not built in.
    pub fn has_expected(&self) -> (res: bool)
        ensures
            res == exists|k| #[trigger] self.state(k) matches Some(s) && !(s is Embedded),
    {
        proof {
            use_type_invariant(self);
        }
        let n = self.entries.len();
        for i in 0..n
            invariant
                n == self.entries@.len(),
                distinct_keys(self.entries@),
                forall|j: int| 0 <= j < i ==> self.entries@[j].1 is Embedded,
        {
            if !matches!(self.entries[i].1, DescriptorState::Embedded(_)) {
                proof {
                    lemma_distinct_state(self.entries@, i as int);
                    assert(self.state(key_view(self.entries@[i as int].0)) == Some(self.entries@[i as int].1));
                }
                return true;
            }
        }
        proof {
            assert forall|k| #[trigger] self.state(k) matches Some(s) ==> s is Embedded by {
                lemma_state_in_entries(self.entries@, k);
            }
        }
        false
    }

    /// The hash of the pool of the descriptor of `service` at `cluster`:
    /// present when that descriptor is embedded or resolved.
    pub fn pool_hash(&self, cluster: &str, service: &str) -> (res: Result<u64, DescriptorError>)
        ensures
            match self.state((cluster@, service@)) {
                Some(DescriptorState::Embedded(h)) => res == Ok::<u64, DescriptorError>(h),
                Some(DescriptorState::Resolved(h)) => res == Ok::<u64, DescriptorError>(h),
                _ => res matches Err(DescriptorError::NotAvailable { cluster: c, service: s }) && c@ == cluster@ && s@ == service@,
            },
    {
        let key = DescriptorKey::new(owned(cluster), owned(service));
        match self.position(&key) {
            Some(i) => match self.entries[i].1 {
                DescriptorState::Embedded(h) => Ok(h),
                DescriptorState::Resolved(h) => Ok(h),
                _ => Err(DescriptorError::NotAvailable { cluster: owned(cluster), service: owned(service) }),
            },
            None => Err(DescriptorError::NotAvailable { cluster: owned(cluster), service: owned(service) }),
        }
    }

    /// Sets the state of an expected or new key.
    fn set_state(&mut self, key: DescriptorKey, state: DescriptorState)
        ensures
            final(self).state(key_view(key)) == Some(state),
            forall|k| k != key_view(key) ==> final(self).state(k) == old(self).state(k),
            forall|s| final(self).embedded(s) == old(self).embedded(s),
            final(self).service() == old(self).service(),
    {
        match self.position(&key) {
            Some(i) => {
                let ghost old_entries = self.entries@;
                let k = self.entries[i].0.duplicate();
                proof {
                    use_type_invariant(&*self);
                }
                let mut entries: Vec<(DescriptorKey, DescriptorState)> = Vec::new();
                std::mem::swap(&mut entries, &mut self.entries);
                entries.set(i, (k, state));
                proof {
                    lemma_state_set(old_entries, i as int, (k, state));
                    assert(distinct_keys(entries@)) by {
                        assert forall|a: int, b: int| 0 <= a < b < entries@.len() implies key_view(#[trigger] entries@[a].0) != key_view(#[trigger] entries@[b].0) by {
                            assert(key_view(entries@[a].0) == key_view(old_entries[a].0));
                            assert(key_view(entries@[b].0) == key_view(old_entries[b].0));
                        }
                    }
                }
                self.entries = entries;
            },
            None => {
                proof {
                    use_type_invariant(&*self);
                    lemma_absent_key(self.entries@, key_view(key));
                }
                let mut entries: Vec<(DescriptorKey, DescriptorState)> = Vec::new();
                std::mem::swap(&mut entries, &mut self.entries);
                entries.push((key, state));
                proof {
                    lemma_state_push(old(self).entries@, (key, state));
                }
                self.entries = entries;
            },
        }
    }

    /// Records the fetched descriptor of `key`, kept under `content_hash`;
    /// an embedded descriptor is left as it is.
    pub fn insert_resolved(&mut self, key: DescriptorKey, content_hash: u64)
        ensures
            old(self).state(key_view(key)) matches Some(DescriptorState::Embedded(_)) ==> final(self).state(key_view(key)) == old(self).state(key_view(key)),
            !(old(self).state(key_view(key)) matches Some(DescriptorState::Embedded(_))) ==> final(self).state(key_view(key)) == Some(DescriptorState::Resolved(content_hash)),
            forall|k| k != key_view(key) ==> final(self).state(k) == old(self).state(k),
            forall|s| final(self).embedded(s) == old(self).embedded(s),
            final(self).service() == old(self).service(),
    {
        match self.position(&key) {
            Some(i) => {
                if matches!(self.entries[i].1, DescriptorState::Embedded(_)) {
                    return;
                }
            },
            None => {},
        }
        self.set_state(key, DescriptorState::Resolved(content_hash));
    }

    /// Records the fetched descriptor of `key`, serialized as `fds_bytes`,
    /// kept under the hash of those bytes; an embedded descriptor is left as
    /// it is.
    pub fn insert_resolved_bytes(&mut self, key: DescriptorKey, fds_bytes: &[u8])
        ensures
            old(self).state(key_view(key)) matches Some(DescriptorState::Embedded(_)) ==> final(self).state(key_view(key)) == old(self).state(key_view(key)),
            !(old(self).state(key_view(key)) matches Some(DescriptorState::Embedded(_))) ==> final(self).state(key_view(key)) == Some(DescriptorState::Resolved(bytes_hash(fds_bytes@))),
            forall|k| k != key_view(key) ==> final(self).state(k) == old(self).state(k),
            forall|s| final(self).embedded(s) == old(self).embedded(s),
            final(self).service() == old(self).service(),
    {
        let content_hash = hash_bytes(fds_bytes);
        self.insert_resolved(key, content_hash);
    }

    /// The expected keys whose descriptors are missing, in order.
    pub fn get_missing(&self) -> (res: Vec<DescriptorKey>)
        ensures
            forall|i: int| 0 <= i < res@.len() ==> #[trigger] self.state(key_view(res@[i])) == Some(DescriptorState::Missing),
            forall|k| self.state(k) == Some(DescriptorState::Missing) ==> exists|i: int| 0 <= i < res@.len() && key_view(#[trigger] res@[i]) == k,
    {
        let n = self.entries.len();
        let mut res: Vec<DescriptorKey> = Vec::new();
        for i in 0..n
            invariant
                n == self.entries@.len(),
                forall|j: int| 0 <= j < res@.len() ==> #[trigger] self.state(key_view(res@[j])) == Some(DescriptorState::Missing),
                forall|j: int| 0 <= j < i && self.entries@[j].1 is Missing && self.state(key_view(self.entries@[j].0)) == Some(DescriptorState::Missing)
                    ==> exists|t: int| 0 <= t < res@.len() && key_view(#[trigger] res@[t]) == key_view(self.entries@[j].0),
        {
            if matches!(self.entries[i].1, DescriptorState::Missing) {
                let k = self.entries[i].0.duplicate();
                match self.position(&k) {
                    Some(p) => {
                        if p == i {
                            let ghost old_res = res@;
                            res.push(k);
                            assert(res@[res@.len() - 1] == k);
                            assert forall|j: int| 0 <= j < i + 1 && self.entries@[j].1 is Missing && self.state(key_view(self.entries@[j].0)) == Some(DescriptorState::Missing)
                                implies exists|t: int| 0 <= t < res@.len() && key_view(#[trigger] res@[t]) == key_view(self.entries@[j].0) by {
                                if j < i {
                                    let t = choose|t: int| 0 <= t < old_res.len() && key_view(#[trigger] old_res[t]) == key_view(self.entries@[j].0);
                                    assert(res@[t] == old_res[t]);
                                } else {
                                    assert(key_view(res@[res@.len() - 1]) == key_view(self.entries@[j].0));
                                }
                            }
                        }
                    },
                    None => {},
                }
            }
        }
        proof {
            assert forall|k| self.state(k) == Some(DescriptorState::Missing) implies exists|i: int| 0 <= i < res@.len() && key_view(#[trigger] res@[i]) == k by {
                let j = lemma_state_witness(self.entries@, k);
                assert(self.entries@[j].1 is Missing);
            }
        }
        res
    }

    /// What to do to fetch the missing descriptors.
    pub fn fetch_plan(&self) -> (res: FetchPlan)
        ensures
            match res {
                FetchPlan::Nothing => forall|k| self.state(k) != Some(DescriptorState::Missing),
                FetchPlan::NoService => self.service() is None && exists|k| self.state(k) == Some(DescriptorState::Missing),
                FetchPlan::Fetch { service, keys } => self.service() == Some(service@)
                    && keys@.len() > 0
                    && (forall|i: int| 0 <= i < keys@.len() ==> #[trigger] self.state(key_view(keys@[i])) == Some(DescriptorState::Missing))
                    && (forall|k| self.state(k) == Some(DescriptorState::Missing) ==> exists|i: int| 0 <= i < keys@.len() && key_view(#[trigger] keys@[i]) == k),
            },
    {
        let missing = self.get_missing();
        if missing.len() == 0 {
            assert forall|k| self.state(k) != Some(DescriptorState::Missing) by {
                if self.state(k) == Some(DescriptorState::Missing) {
                    let i = choose|i: int| 0 <= i < missing@.len() && key_view(#[trigger] missing@[i]) == k;
                }
            }
            return FetchPlan::Nothing;
        }
        assert(self.state(key_view(missing@[0])) == Some(DescriptorState::Missing));
        match &self.descriptor_service {
            None => FetchPlan::NoService,
            Some(s) => FetchPlan::Fetch { service: s.clone(), keys: missing },
        }
    }

    /// Records that the descriptors of `keys` are being fetched by the call
    /// with token `token`.
    pub fn mark_pending(&mut self, keys: Vec<DescriptorKey>, token: u32)
        ensures
            forall|i: int| 0 <= i < keys@.len() ==> final(self).state(key_view(#[trigger] keys@[i])) == Some(DescriptorState::Pending(token)),
            forall|k| (forall|i: int| 0 <= i < keys@.len() ==> key_view(#[trigger] keys@[i]) != k) ==> final(self).state(k) == old(self).state(k),
            forall|s| final(self).embedded(s) == old(self).embedded(s),
            final(self).service() == old(self).service(),
    {
        let n = keys.len();
        for i in 0..n
            invariant
                n == keys@.len(),
                forall|j: int| 0 <= j < i ==> self.state(key_view(#[trigger] keys@[j])) == Some(DescriptorState::Pending(token)),
                forall|k| (forall|j: int| 0 <= j < i ==> key_view(#[trigger] keys@[j]) != k) ==> self.state(k) == old(self).state(k),
                forall|s| self.embedded(s) == old(self).embedded(s),
                self.service() == old(self).service(),
        {
            let k = keys[i].duplicate();
            self.set_state(k, DescriptorState::Pending(token));
        }
    }

    /// Whether a fetch with token `token` is under way.
    pub fn has_pending(&self, token: u32) -> (res: bool)
        ensures
            res == exists|k| #[trigger] self.state(k) == Some(DescriptorState::Pending(token)),
    {
        proof {
            use_type_invariant(self);
        }
        let n = self.entries.len();
        for i in 0..n
            invariant
                n == self.entries@.len(),
                distinct_keys(self.entries@),
                forall|j: int| 0 <= j < i ==> self.entries@[j].1 != DescriptorState::Pending(token),
        {
            if self.entries[i].1 == DescriptorState::Pending(token) {
                proof {
                    lemma_distinct_state(self.entries@, i as int);
                    assert(self.state(key_view(self.entries@[i as int].0)) == Some(self.entries@[i as int].1));
                }
                return true;
            }
        }
        proof {
            assert forall|k| #[trigger] self.state(k) != Some(DescriptorState::Pending(token)) by {
                lemma_state_in_entries(self.entries@, k);
            }
        }
        false
    }

    /// Turns the descriptors being fetched by the call with token `token`
    /// back into missing ones, after that call failed.
    pub fn reset_pending(&mut self, token: u32)
        ensures
            forall|k| old(self).state(k) == Some(DescriptorState::Pending(token)) ==> #[trigger] final(self).state(k) == Some(DescriptorState::Missing),
            forall|k| old(self).state(k) != Some(DescriptorState::Pending(token)) ==> #[trigger] final(self).state(k) == old(self).state(k),
            forall|s| final(self).embedded(s) == old(self).embedded(s),
            final(self).service() == old(self).service(),
    {
        proof {
            use_type_invariant(&*self);
        }
        let mut entries: Vec<(DescriptorKey, DescriptorState)> = Vec::new();
        std::mem::swap(&mut entries, &mut self.entries);
        let n = entries.len();
        let ghost start = entries@;
        for i in 0..n
            invariant
                n == entries@.len(),
                start.len() == n,
                forall|j: int| 0 <= j < n ==> key_view(#[trigger] entries@[j].0) == key_view(start[j].0),
                forall|j: int| 0 <= j < i ==> #[trigger] entries@[j].1 == reset_one(start[j].1, token),
                forall|j: int| i <= j < n ==> #[trigger] entries@[j].1 == start[j].1,
        {
            if entries[i].1 == DescriptorState::Pending(token) {
                let k = entries[i].0.duplicate();
                entries.set(i, (k, DescriptorState::Missing));
            }
        }
        proof {
            assert forall|k| #[trigger] state_in(entries@, k) == match state_in(start, k) {
                Some(s) => Some(reset_one(s, token)),
                None => None,
            } by {
                lemma_state_map(start, entries@, token, k);
            }
            assert(distinct_keys(entries@)) by {
                assert forall|a: int, b: int| 0 <= a < b < entries@.len() implies key_view(#[trigger] entries@[a].0) != key_view(#[trigger] entries@[b].0) by {
                    assert(key_view(entries@[a].0) == key_view(start[a].0));
                    assert(key_view(entries@[b].0) == key_view(start[b].0));
                }
            }
        }
        self.entries = entries;
    }
}

/// A state after a failed fetch with token `token`.
pub open spec fn reset_one(s: DescriptorState, token: u32) -> DescriptorState {
    if s == DescriptorState::Pending(token) {
        DescriptorState::Missing
    } else {
        s
    }
}

proof fn lemma_state_push(entries: Seq<(DescriptorKey, DescriptorState)>, e: (DescriptorKey, DescriptorState))
    requires
        state_in(entries, key_view(e.0)) is None,
    ensures
        state_in(entries.push(e), key_view(e.0)) == Some(e.1),
        forall|k| k != key_view(e.0) ==> state_in(entries.push(e), k) == state_in(entries, k),
    decreases entries.len(),
{
    if entries.len() > 0 {
        assert(entries.push(e).drop_first() =~= entries.drop_first().push(e));
        assert(entries.push(e)[0] == entries[0]);
        lemma_state_push(entries.drop_first(), e);
        assert forall|k| k != key_view(e.0) implies state_in(entries.push(e), k) == state_in(entries, k) by {
            if key_view(entries[0].0) != k {
                assert(state_in(entries.push(e), k) == state_in(entries.push(e).drop_first(), k));
                assert(state_in(entries, k) == state_in(entries.drop_first(), k));
            } else {
                assert(state_in(entries.push(e), k) == Some(entries[0].1));
                assert(state_in(entries, k) == Some(entries[0].1));
            }
        }
    } else {
        assert(entries.push(e).drop_first() =~= entries);
        assert(entries.push(e)[0] == e);
        assert forall|k| k != key_view(e.0) implies state_in(entries.push(e), k) == state_in(entries, k) by {
            assert(state_in(entries.push(e), k) == state_in(entries.push(e).drop_first(), k));
            assert(state_in(entries, k) is None);
        }
    }
}

proof fn lemma_state_set(entries: Seq<(DescriptorKey, DescriptorState)>, i: int, e: (DescriptorKey, DescriptorState))
    requires
        0 <= i < entries.len(),
        key_view(entries[i].0) == key_view(e.0),
        forall|j: int| 0 <= j < i ==> key_view(#[trigger] entries[j].0) != key_view(e.0),
    ensures
        state_in(entries.update(i, e), key_view(e.0)) == Some(e.1),
        forall|k| k != key_view(e.0) ==> state_in(entries.update(i, e), k) == state_in(entries, k),
    decreases entries.len(),
{
    if i > 0 {
        assert(entries.update(i, e).drop_first() =~= entries.drop_first().update(i - 1, e));
        assert forall|j: int| 0 <= j < i - 1 implies key_view(#[trigger] entries.drop_first()[j].0) != key_view(e.0) by {
            assert(entries.drop_first()[j] == entries[j + 1]);
        }
        lemma_state_set(entries.drop_first(), i - 1, e);
        assert(entries.update(i, e)[0] == entries[0]);
        assert(key_view(entries[0].0) != key_view(e.0));
        assert forall|k| k != key_view(e.0) implies state_in(entries.update(i, e), k) == state_in(entries, k) by {
            if key_view(entries[0].0) != k {
                assert(state_in(entries.update(i, e), k) == state_in(entries.update(i, e).drop_first(), k));
                assert(state_in(entries, k) == state_in(entries.drop_first(), k));
            } else {
                assert(state_in(entries.update(i, e), k) == Some(entries[0].1));
                assert(state_in(entries, k) == Some(entries[0].1));
            }
        }
    } else {
        assert(entries.update(i, e).drop_first() =~= entries.drop_first());
        assert(entries.update(i, e)[0] == e);
        assert forall|k| k != key_view(e.0) implies state_in(entries.update(i, e), k) == state_in(entries, k) by {
            assert(state_in(entries.update(i, e), k) == state_in(entries.update(i, e).drop_first(), k));
            assert(state_in(entries, k) == state_in(entries.drop_first(), k));
        }
    }
}

/// A key without a state has no entry.
proof fn lemma_absent_key(entries: Seq<(DescriptorKey, DescriptorState)>, k: (Seq<char>, Seq<char>))
    requires
        state_in(entries, k) is None,
    ensures
        forall|j: int| 0 <= j < entries.len() ==> key_view(#[trigger] entries[j].0) != k,
    decreases entries.len(),
{
    if entries.len() > 0 {
        lemma_absent_key(entries.drop_first(), k);
        assert forall|j: int| 0 <= j < entries.len() implies key_view(#[trigger] entries[j].0) != k by {
            if j > 0 {
                assert(entries[j] == entries.drop_first()[j - 1]);
            }
        }
    }
}

/// With distinct keys, each entry gives the state of its key.
proof fn lemma_distinct_state(entries: Seq<(DescriptorKey, DescriptorState)>, i: int)
    requires
        0 <= i < entries.len(),
        distinct_keys(entries),
    ensures
        state_in(entries, key_view(entries[i].0)) == Some(entries[i].1),
    decreases i,
{
    if i > 0 {
        assert(key_view(entries[0].0) != key_view(entries[i].0));
        assert(entries.drop_first()[i - 1] == entries[i]);
        assert(distinct_keys(entries.drop_first())) by {
            assert forall|a: int, b: int| 0 <= a < b < entries.drop_first().len() implies key_view(#[trigger] entries.drop_first()[a].0) != key_view(#[trigger] entries.drop_first()[b].0) by {
                assert(entries.drop_first()[a] == entries[a + 1]);
                assert(entries.drop_first()[b] == entries[b + 1]);
            }
        }
        lemma_distinct_state(entries.drop_first(), i - 1);
    }
}

/// The state of a key is that of some entry.
proof fn lemma_state_in_entries(entries: Seq<(DescriptorKey, DescriptorState)>, k: (Seq<char>, Seq<char>))
    ensures
        state_in(entries, k) matches Some(s) ==> exists|j: int| 0 <= j < entries.len() && entries[j].1 == s,
    decreases entries.len(),
{
    if entries.len() > 0 && key_view(entries[0].0) != k {
        lemma_state_in_entries(entries.drop_first(), k);
        if state_in(entries, k) is Some {
            let j = choose|j: int| 0 <= j < entries.drop_first().len() && entries.drop_first()[j].1 == state_in(entries, k)->0;
            assert(entries[j + 1] == entries.drop_first()[j]);
        }
    }
}

/// A key with a state has an entry that gives it.
proof fn lemma_state_witness(entries: Seq<(DescriptorKey, DescriptorState)>, k: (Seq<char>, Seq<char>)) -> (j: int)
    requires
        state_in(entries, k) is Some,
    ensures
        0 <= j < entries.len(),
        key_view(entries[j].0) == k,
        entries[j].1 == state_in(entries, k)->0,
        forall|t: int| 0 <= t < j ==> key_view(#[trigger] entries[t].0) != k,
    decreases entries.len(),
{
    if key_view(entries[0].0) == k {
        0
    } else {
        let j = lemma_state_witness(entries.drop_first(), k);
        assert(entries[j + 1] == entries.drop_first()[j]);
        assert forall|t: int| 0 <= t < j + 1 implies key_view(#[trigger] entries[t].0) != k by {
            if t > 0 {
                assert(entries[t] == entries.drop_first()[t - 1]);
            }
        }
        j + 1
    }
}

/// Resetting each entry's state resets each key's state.
proof fn lemma_state_map(a: Seq<(DescriptorKey, DescriptorState)>, b: Seq<(DescriptorKey, DescriptorState)>, token: u32, k: (Seq<char>, Seq<char>))
    requires
        a.len() == b.len(),
        forall|j: int| 0 <= j < a.len() ==> key_view(#[trigger] b[j].0) == key_view(a[j].0),
        forall|j: int| 0 <= j < a.len() ==> #[trigger] b[j].1 == reset_one(a[j].1, token),
    ensures
        state_in(b, k) == match state_in(a, k) {
            Some(s) => Some(reset_one(s, token)),
            None => None,
        },
    decreases a.len(),
{
    if a.len() > 0 {
        assert(key_view(b[0].0) == key_view(a[0].0));
        assert(b[0].1 == reset_one(a[0].1, token));
        assert forall|j: int| 0 <= j < a.drop_first().len() implies key_view(#[trigger] b.drop_first()[j].0) == key_view(a.drop_first()[j].0) by {
            assert(b.drop_first()[j] == b[j + 1]);
            assert(a.drop_first()[j] == a[j + 1]);
        }
        assert forall|j: int| 0 <= j < a.drop_first().len() implies #[trigger] b.drop_first()[j].1 == reset_one(a.drop_first()[j].1, token) by {
            assert(b.drop_first()[j] == b[j + 1]);
            assert(a.drop_first()[j] == a[j + 1]);
        }
        lemma_state_map(a.drop_first(), b.drop_first(), token, k);
    }
}

} // verus!
