//! The plugin's own counters (`kuadrant.*`): a registry from metric name to
//! the id the host gave it when it was defined.
use crate::text::{owned, same_text};
use vstd::prelude::*;

verus! {

/// The increment of a host metric that a counter asks for.
#[derive(Debug, Clone, Copy, PartialEq, Eq, Structural)]
pub struct MetricIncrement {
    pub metric_id: u32,
    pub offset: i64,
}

/// A counter: the host metric id it increments, or none for a counter
/// whose metric could not be defined, which counts nothing.
#[derive(Debug, Clone, Copy, PartialEq, Eq, Structural)]
pub struct Counter(pub Option<u32>);

impl Counter {
    /// The increment by one that this counter asks the host for.
    pub fn increment(&self) -> (res: Option<MetricIncrement>)
        ensures
            res == self.inc_by_spec(1),
    {
        self.inc_by(1)
    }

    /// The increment by `offset` that this counter asks the host for.
    pub open spec fn inc_by_spec(&self, offset: i64) -> Option<MetricIncrement> {
        match self.0 {
            Some(id) => Some(MetricIncrement { metric_id: id, offset }),
            None => None,
        }
    }

    /// The increment by `offset` that this counter asks the host for: none
    /// when the counter has no metric.
    pub fn inc_by(&self, offset: i64) -> (res: Option<MetricIncrement>)
        ensures
            res == self.inc_by_spec(offset),
    {
        match self.0 {
            Some(id) => Some(MetricIncrement { metric_id: id, offset }),
            None => None,
        }
    }
}

/// The names of the plugin's counters.
pub const CONFIGS: &'static str = "kuadrant.configs";
pub const HITS: &'static str = "kuadrant.hits";
pub const MISSES: &'static str = "kuadrant.misses";
pub const ALLOW: &'static str = "kuadrant.allowed";
pub const DENIED: &'static str = "kuadrant.denied";
pub const ERRORS: &'static str = "kuadrant.errors";

/// The counter registered under `name`: the first registration of that
/// name, or the counter that counts nothing.
pub open spec fn counter_of(counters: Seq<(String, Counter)>, name: Seq<char>) -> Counter
    decreases counters.len(),
{
    if counters.len() == 0 {
        Counter(None)
    } else if counters[0].0@ == name {
        counters[0].1
    } else {
        counter_of(counters.drop_first(), name)
    }
}

/// The registry of the plugin's counters.
pub struct Metrics {
    counters: Vec<(String, Counter)>,
}

impl View for Metrics {
    type V = Seq<(String, Counter)>;

    closed spec fn view(&self) -> Seq<(String, Counter)> {
        self.counters@
    }
}

impl Metrics {
    /// A registry with no counter.
    pub fn new() -> (res: Metrics)
        ensures
            res@.len() == 0,
    {
        Metrics { counters: Vec::new() }
    }

    /// Registers the counter of metric `name`, defined by the host with id
    /// `metric_id`.
    pub fn register(&mut self, name: &str, metric_id: u32)
        ensures
            final(self)@.len() == old(self)@.len() + 1,
            final(self)@.take(old(self)@.len() as int) == old(self)@,
            final(self)@.last().0@ == name@,
            final(self)@.last().1 == Counter(Some(metric_id)),
    {
        let n = owned(name);
        self.counters.push((n, Counter(Some(metric_id))));
        assert(self.counters@.take(old(self)@.len() as int) =~= old(self)@);
    }

    /// The counter of metric `name`; one that counts nothing when it is not
    /// registered.
    pub fn get_counter(&self, name: &str) -> (res: Counter)
        ensures
            res == counter_of(self@, name@),
    {
        let n = self.counters.len();
        let mut i: usize = 0;
        assert(self.counters@.skip(0) =~= self.counters@);
        while i < n
            invariant
                n == self.counters@.len(),
                i <= n,
                counter_of(self.counters@, name@) == counter_of(self.counters@.skip(i as int), name@),
            decreases n - i,
        {
            assert(self.counters@.skip(i as int)[0] == self.counters@[i as int]);
            if same_text(&self.counters[i].0, name) {
                return self.counters[i].1;
            }
            assert(self.counters@.skip(i as int).drop_first() =~= self.counters@.skip(i + 1));
            i += 1;
        }
        Counter(None)
    }

    /// The counter of loaded configurations.
    pub fn configs(&self) -> (res: Counter)
        ensures
            res == counter_of(self@, CONFIGS@),
    {
        self.get_counter(CONFIGS)
    }

    /// The counter of requests that matched an action set.
    pub fn hits(&self) -> (res: Counter)
        ensures
            res == counter_of(self@, HITS@),
    {
        self.get_counter(HITS)
    }

    /// The counter of requests that matched no action set.
    pub fn misses(&self) -> (res: Counter)
        ensures
            res == counter_of(self@, MISSES@),
    {
        self.get_counter(MISSES)
    }

    /// The counter of allowed requests.
    pub fn allowed(&self) -> (res: Counter)
        ensures
            res == counter_of(self@, ALLOW@),
    {
        self.get_counter(ALLOW)
    }

    /// The counter of denied requests.
    pub fn denied(&self) -> (res: Counter)
        ensures
            res == counter_of(self@, DENIED@),
    {
        self.get_counter(DENIED)
    }

    /// The counter of errors.
    pub fn errors(&self) -> (res: Counter)
        ensures
            res == counter_of(self@, ERRORS@),
    {
        self.get_counter(ERRORS)
    }
}

} // verus!
