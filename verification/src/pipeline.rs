//! The executor of a request's pipeline: it applies the tasks whose
//! dependencies have completed, parks the ones waiting for a gRPC reply
//! under the reply's token, and runs the teardown actions once nothing is
//! left or the pipeline was cut short.
//!
//! The executor reads a task's name and dependencies once, when the task is
//! queued, and a waiting task's name and whether it is a guard once, when
//! it is parked; its bookkeeping holds those values beside the task.
use crate::attribute::{decimal, to_decimal};
use crate::headers::TeardownOutcome;
use crate::text::owned;
use vstd::prelude::*;

verus! {

/// What applying a task gives.
pub enum TaskOutcome<T> {
    /// The task is finished.
    Done,
    /// The task waits for the gRPC reply with this token; `pending` handles
    /// the reply.
    Deferred { token_id: u32, pending: T },
    /// These tasks go back in the queue.
    Requeued(Vec<T>),
    /// The task failed.
    Failed,
    /// The request ends; the task held here answers it.
    Terminate(T),
}

/// A task of the pipeline, applied to a context of type `C`.
pub trait Task<C>: Sized {
    /// Runs the task.
    fn apply(self, ctx: &mut C) -> TaskOutcome<Self>;

    /// The task's name, by which others depend on it.
    fn id(&self) -> Option<String>;

    /// The names of the tasks that must complete first.
    fn dependencies(&self) -> Vec<String>;

    /// Whether the task holds the request back while it waits.
    fn is_guard(&self) -> bool;

    /// A task that handles the reply with token `token_id` by doing
    /// nothing with it.
    fn noop_pending(id: String, token_id: u32, is_guard: bool) -> Self;
}

/// An action run when the pipeline winds down.
pub trait TeardownAction<C>: Sized {
    fn execute(self, ctx: &mut C) -> TeardownOutcome;
}

/// The context the pipeline runs in, as far as the executor uses it.
pub trait TaskContext {
    /// Records the status and size of the gRPC reply being handled.
    fn set_grpc_response_data(&mut self, status_code: u32, response_size: usize);
}

/// A queued task with its name and the names it depends on.
pub type QueuedTask<T> = (T, Option<Seq<char>>, Seq<Seq<char>>);

/// A parked task: the token of the reply it waits for, the task, its name
/// and whether it is a guard.
pub type ParkedTask<T> = (u32, T, Option<Seq<char>>, bool);

/// The bookkeeping of a pipeline: the queue, the parked tasks, the names of
/// the completed tasks (in the order they completed), the teardown
/// actions are left, and whether the request was cut short.
pub struct TrackerModel<T, D> {
    pub queue: Seq<QueuedTask<T>>,
    pub parked: Seq<ParkedTask<T>>,
    pub completed: Seq<Seq<char>>,
    pub teardown: Seq<D>,
    pub terminated: bool,
}

/// The views of a sequence of strings.
pub open spec fn names_view(v: Seq<String>) -> Seq<Seq<char>> {
    v.map_values(|s: String| s@)
}

/// The view of an optional string.
pub open spec fn opt_view(o: Option<String>) -> Option<Seq<char>> {
    match o {
        Some(s) => Some(s@),
        None => None,
    }
}

/// The tokens of parked tasks.
pub open spec fn token_seq<T>(d: Seq<ParkedTask<T>>) -> Seq<u32> {
    d.map_values(|e: ParkedTask<T>| e.0)
}

/// Whether no token occurs twice.
pub open spec fn distinct_tokens<T>(d: Seq<ParkedTask<T>>) -> bool {
    forall|i: int, j: int| 0 <= i < j < d.len() ==> #[trigger] d[i].0 != #[trigger] d[j].0
}

/// Whether every one of `deps` is among `completed`.
pub open spec fn deps_met_in(completed: Seq<Seq<char>>, deps: Seq<Seq<char>>) -> bool {
    forall|k: int| 0 <= k < deps.len() ==> completed.contains(#[trigger] deps[k])
}

/// `completed` with the name `id` recorded, if there is one.
pub open spec fn add_name(completed: Seq<Seq<char>>, id: Option<Seq<char>>) -> Seq<Seq<char>> {
    match id {
        Some(n) => completed.push(n),
        None => completed,
    }
}

/// Whether some task is parked under `token`.
pub open spec fn is_parked<T>(ps: Seq<ParkedTask<T>>, token: u32) -> bool {
    exists|i: int| 0 <= i < ps.len() && ps[i].0 == token
}

/// `ps` with `p` parked: in place of the task parked under the same token,
/// or last.
pub open spec fn park<T>(ps: Seq<ParkedTask<T>>, p: ParkedTask<T>) -> Seq<ParkedTask<T>> {
    if is_parked(ps, p.0) {
        ps.update(choose|i: int| 0 <= i < ps.len() && ps[i].0 == p.0, p)
    } else {
        ps.push(p)
    }
}

/// `ps` with each of `ts` parked in turn.
pub open spec fn park_all<T>(ps: Seq<ParkedTask<T>>, ts: Seq<ParkedTask<T>>) -> Seq<ParkedTask<T>>
    decreases ts.len(),
{
    if ts.len() == 0 {
        ps
    } else {
        park(park_all(ps, ts.drop_last()), ts.last())
    }
}

/// A parked task's token, name and guard flag.
pub open spec fn parked_info<T>(p: ParkedTask<T>) -> (u32, Option<Seq<char>>, bool) {
    (p.0, p.2, p.3)
}

/// What stands under a parked task's token once it stops acting on its
/// reply: the same token and guard flag, named as before (the empty name
/// where it had none).
pub open spec fn noop_info<T>(p: ParkedTask<T>) -> (u32, Option<Seq<char>>, bool) {
    (
        p.0,
        Some(
            match p.2 {
                Some(n) => n,
                None => Seq::empty(),
            },
        ),
        p.3,
    )
}

/// The name of the task parked for a teardown action's reply.
pub open spec fn teardown_name(token: u32) -> Seq<char> {
    "teardown_"@ + decimal(token as nat)
}

/// `s` with its queue replaced.
pub open spec fn with_queue<T, D>(s: TrackerModel<T, D>, queue: Seq<QueuedTask<T>>) -> TrackerModel<T, D> {
    TrackerModel { queue, parked: s.parked, completed: s.completed, teardown: s.teardown, terminated: s.terminated }
}

/// `s` with its parked tasks replaced.
pub open spec fn with_parked<T, D>(s: TrackerModel<T, D>, parked: Seq<ParkedTask<T>>) -> TrackerModel<T, D> {
    TrackerModel { queue: s.queue, parked, completed: s.completed, teardown: s.teardown, terminated: s.terminated }
}

/// `s` with its completed names replaced.
pub open spec fn with_completed<T, D>(s: TrackerModel<T, D>, completed: Seq<Seq<char>>) -> TrackerModel<T, D> {
    TrackerModel { queue: s.queue, parked: s.parked, completed, teardown: s.teardown, terminated: s.terminated }
}

/// `s` with its teardown actions replaced.
pub open spec fn with_teardown<T, D>(s: TrackerModel<T, D>, teardown: Seq<D>) -> TrackerModel<T, D> {
    TrackerModel { queue: s.queue, parked: s.parked, completed: s.completed, teardown, terminated: s.terminated }
}

/// `s` cut short: nothing queued, and marked as terminated.
pub open spec fn cut_short<T, D>(s: TrackerModel<T, D>) -> TrackerModel<T, D> {
    TrackerModel { queue: Seq::empty(), parked: s.parked, completed: s.completed, teardown: s.teardown, terminated: true }
}

/// What the executor made of what applying a task gave, for one queued
/// task.
pub enum Effect<T> {
    /// Its dependencies had not all completed: it goes back in the queue.
    Waits,
    /// It finished.
    Done,
    /// It waits for a reply, parked as given.
    Parked(ParkedTask<T>),
    /// It handed back these tasks to queue.
    Requeued(Seq<QueuedTask<T>>),
    /// It failed.
    Failed,
    /// It ended the request.
    Terminated,
}

/// The bookkeeping after the task named `id` was applied with effect
/// `eff`. For a task applied on its reply (`on_reply`), requeued tasks go
/// to the front of the queue and the task counts as completed; otherwise
/// they go to the back.
pub open spec fn recorded<T, D>(s: TrackerModel<T, D>, id: Option<Seq<char>>, eff: Effect<T>, on_reply: bool) -> TrackerModel<T, D> {
    match eff {
        Effect::Waits => s,
        Effect::Done => with_completed(s, add_name(s.completed, id)),
        Effect::Parked(p) => with_parked(s, park(s.parked, p)),
        Effect::Requeued(v) => if on_reply {
            with_queue(with_completed(s, add_name(s.completed, id)), v + s.queue)
        } else {
            with_queue(s, s.queue + v)
        },
        Effect::Failed => s,
        Effect::Terminated => cut_short(s),
    }
}

/// The bookkeeping after the queued task `e` was taken up with effect
/// `eff`.
pub open spec fn after_effect<T, D>(s: TrackerModel<T, D>, e: QueuedTask<T>, eff: Effect<T>) -> TrackerModel<T, D> {
    if eff is Waits {
        with_queue(s, s.queue.push(e))
    } else {
        recorded(s, e.1, eff, false)
    }
}

/// The bookkeeping after the first `effects.len()` of `entries` were taken
/// up from `s`, with those effects.
pub open spec fn pass<T, D>(s: TrackerModel<T, D>, entries: Seq<QueuedTask<T>>, effects: Seq<Effect<T>>) -> TrackerModel<T, D>
    decreases effects.len(),
{
    if effects.len() == 0 {
        s
    } else {
        after_effect(
            pass(s, entries, effects.drop_last()),
            entries[effects.len() - 1],
            effects.last(),
        )
    }
}

/// Whether `effects` can be what a pass over `entries` from `s` made of
/// them: a task waits exactly when one of its dependencies has not
/// completed by its turn; the pass takes up every task, unless one ends the
/// request, which is then the last it takes up.
pub open spec fn pass_ok<T, D>(s: TrackerModel<T, D>, entries: Seq<QueuedTask<T>>, effects: Seq<Effect<T>>) -> bool {
    &&& effects.len() <= entries.len()
    &&& forall|k: int|
        0 <= k < effects.len() ==> ((#[trigger] effects[k] is Waits) <==> !deps_met_in(
            pass(s, entries, effects.take(k)).completed,
            entries[k].2,
        ))
    &&& forall|k: int| 0 <= k < effects.len() - 1 ==> !(#[trigger] effects[k] is Terminated)
    &&& effects.len() < entries.len() ==> effects.len() > 0 && effects.last() is Terminated
}

/// Whether `t` is what running the teardown made of `s`: every parked task
/// now does nothing with its reply (keeping token, name and guard flag),
/// each teardown action that waits for a reply has a task that does
/// nothing with it parked under its token, named after it and no guard,
/// and no teardown action is left; the rest is as it was.
pub open spec fn torn_down<T, D>(s: TrackerModel<T, D>, t: TrackerModel<T, D>) -> bool {
    &&& t.queue == s.queue
    &&& t.completed == s.completed
    &&& t.terminated == s.terminated
    &&& t.teardown.len() == 0
    &&& exists|n: Seq<ParkedTask<T>>, ts: Seq<ParkedTask<T>>|
        {
            &&& n.len() == s.parked.len()
            &&& (forall|i: int| 0 <= i < n.len() ==> parked_info(#[trigger] n[i]) == noop_info(s.parked[i]))
            &&& (forall|j: int| 0 <= j < ts.len() ==> (#[trigger] ts[j]).2 == Some(teardown_name(ts[j].0)) && !ts[j].3)
            &&& t.parked == park_all(n, ts)
        }
}



/// The view of a stored queue entry.
pub open spec fn queued_view<T>(e: (T, Option<String>, Vec<String>)) -> QueuedTask<T> {
    (e.0, opt_view(e.1), names_view(e.2@))
}

/// The view of a stored parked entry.
pub open spec fn parked_view<T>(e: (u32, T, Option<String>, bool)) -> ParkedTask<T> {
    (e.0, e.1, opt_view(e.2), e.3)
}

/// Where `token` stands among the parked tasks, where it stands at all.
pub open spec fn token_index<T>(ps: Seq<ParkedTask<T>>, token: u32) -> int {
    choose|i: int| 0 <= i < ps.len() && ps[i].0 == token
}

/// Whether some parked task is a guard.
pub open spec fn some_guard<T>(ps: Seq<ParkedTask<T>>) -> bool {
    exists|i: int| 0 <= i < ps.len() && #[trigger] ps[i].3
}

/// Each of `tasks` with the name and dependencies it gives.
fn queue_entries<T: Task<C>, C>(tasks: Vec<T>) -> (res: Vec<(T, Option<String>, Vec<String>)>)
    ensures
        res@.map_values(|e: (T, Option<String>, Vec<String>)| queued_view(e)).map_values(|e: QueuedTask<T>| e.0) == tasks@,
{
    let ghost all = tasks@;
    let mut rest = tasks;
    let mut out: Vec<(T, Option<String>, Vec<String>)> = Vec::new();
    while rest.len() > 0
        invariant
            out@.len() + rest@.len() == all.len(),
            rest@ == all.skip(out@.len() as int),
            forall|k: int| 0 <= k < out@.len() ==> (#[trigger] out@[k]).0 == all[k],
        decreases rest@.len(),
    {
        let ghost k = out@.len();
        let task = rest.remove(0);
        assert(all.skip(k as int)[0] == all[k as int]);
        assert(rest@ =~= all.skip((k + 1) as int));
        let id = task.id();
        let deps = task.dependencies();
        out.push((task, id, deps));
    }
    assert(out@.map_values(|e: (T, Option<String>, Vec<String>)| queued_view(e)).map_values(|e: QueuedTask<T>| e.0) =~= all);
    out
}

/// The bookkeeping of a pipeline, as `TrackerModel` describes it.
pub struct Tracker<T, D> {
    task_queue: Vec<(T, Option<String>, Vec<String>)>,
    deferred_tasks: Vec<(u32, T, Option<String>, bool)>,
    completed_tasks: Vec<String>,
    teardown_tasks: Vec<D>,
    terminated: bool,
}

impl<T, D> Tracker<T, D> {
    /// Each token has at most one task parked under it.
    #[verifier::type_invariant]
    closed spec fn inv(&self) -> bool {
        distinct_tokens(self.model().parked)
    }

    /// What the tracker holds.
    pub closed spec fn model(&self) -> TrackerModel<T, D> {
        TrackerModel {
            queue: self.task_queue@.map_values(|e: (T, Option<String>, Vec<String>)| queued_view(e)),
            parked: self.deferred_tasks@.map_values(|e: (u32, T, Option<String>, bool)| parked_view(e)),
            completed: names_view(self.completed_tasks@),
            teardown: self.teardown_tasks@,
            terminated: self.terminated,
        }
    }

    /// The queued tasks, in order.
    pub open spec fn queued(&self) -> Seq<T> {
        self.model().queue.map_values(|e: QueuedTask<T>| e.0)
    }

    /// The tokens of the replies that parked tasks wait for.
    pub open spec fn tokens(&self) -> Seq<u32> {
        token_seq(self.model().parked)
    }

    /// The names of the completed tasks.
    pub open spec fn completed(&self) -> Seq<Seq<char>> {
        self.model().completed
    }

    /// The number of teardown actions still to run.
    pub open spec fn teardown_count(&self) -> nat {
        self.model().teardown.len()
    }

    /// Whether a task cut the request short.
    pub open spec fn terminated(&self) -> bool {
        self.model().terminated
    }

    /// Nothing queued, parked, completed or to tear down.
    pub fn new() -> (res: Self)
        ensures
            res.model().queue.len() == 0,
            res.model().parked.len() == 0,
            res.model().completed.len() == 0,
            res.model().teardown.len() == 0,
            !res.model().terminated,
    {
        Tracker {
            task_queue: Vec::new(),
            deferred_tasks: Vec::new(),
            completed_tasks: Vec::new(),
            teardown_tasks: Vec::new(),
            terminated: false,
        }
    }

    /// Puts `tasks` in the queue in place of what was there.
    pub fn set_queue<C>(&mut self, tasks: Vec<T>)
        where T: Task<C>,
        ensures
            final(self).queued() == tasks@,
            final(self).model() == with_queue(old(self).model(), final(self).model().queue),
    {
        proof {
            use_type_invariant(&*self);
        }
        self.task_queue = queue_entries::<T, C>(tasks);
    }

    /// Takes the queue out, leaving it empty.
    pub fn take_queue(&mut self) -> (res: Vec<(T, Option<String>, Vec<String>)>)
        ensures
            res@.map_values(|e: (T, Option<String>, Vec<String>)| queued_view(e)) == old(self).model().queue,
            final(self).model() == with_queue(old(self).model(), Seq::empty()),
    {
        proof {
            use_type_invariant(&*self);
        }
        let mut q: Vec<(T, Option<String>, Vec<String>)> = Vec::new();
        std::mem::swap(&mut q, &mut self.task_queue);
        assert(self.model().queue =~= Seq::<QueuedTask<T>>::empty());
        q
    }

    /// Queues `entry` last.
    pub fn push_entry(&mut self, entry: (T, Option<String>, Vec<String>))
        ensures
            final(self).model() == with_queue(old(self).model(), old(self).model().queue.push(queued_view(entry))),
    {
        proof {
            use_type_invariant(&*self);
        }
        let ghost e = entry;
        let mut q: Vec<(T, Option<String>, Vec<String>)> = Vec::new();
        std::mem::swap(&mut q, &mut self.task_queue);
        q.push(entry);
        self.task_queue = q;
        assert(self.model().queue =~= old(self).model().queue.push(queued_view(e)));
    }

    /// Queues `entries` last (or first, with `front`), in order.
    pub fn add_entries(&mut self, entries: Vec<(T, Option<String>, Vec<String>)>, front: bool)
        ensures
            final(self).model() == with_queue(
                old(self).model(),
                if front {
                    entries@.map_values(|e: (T, Option<String>, Vec<String>)| queued_view(e)) + old(self).model().queue
                } else {
                    old(self).model().queue + entries@.map_values(|e: (T, Option<String>, Vec<String>)| queued_view(e))
                },
            ),
    {
        proof {
            use_type_invariant(&*self);
        }
        let ghost ev = entries@;
        let mut q: Vec<(T, Option<String>, Vec<String>)> = Vec::new();
        std::mem::swap(&mut q, &mut self.task_queue);
        let mut es = entries;
        if front {
            es.append(&mut q);
            self.task_queue = es;
        } else {
            q.append(&mut es);
            self.task_queue = q;
        }
        assert(self.model().queue =~= (if front {
            ev.map_values(|e: (T, Option<String>, Vec<String>)| queued_view(e)) + old(self).model().queue
        } else {
            old(self).model().queue + ev.map_values(|e: (T, Option<String>, Vec<String>)| queued_view(e))
        }));
    }

    /// Empties the queue and marks the request as cut short.
    pub fn terminate(&mut self)
        ensures
            final(self).model() == cut_short(old(self).model()),
    {
        proof {
            use_type_invariant(&*self);
        }
        let mut q: Vec<(T, Option<String>, Vec<String>)> = Vec::new();
        std::mem::swap(&mut q, &mut self.task_queue);
        self.terminated = true;
        assert(self.model().queue =~= Seq::<QueuedTask<T>>::empty());
    }

    /// Puts `tasks` as the teardown actions in place of what was there.
    pub fn set_teardown(&mut self, tasks: Vec<D>)
        ensures
            final(self).model() == with_teardown(old(self).model(), tasks@),
    {
        proof {
            use_type_invariant(&*self);
        }
        self.teardown_tasks = tasks;
    }

    /// Takes the teardown actions out, in order.
    pub fn take_teardown(&mut self) -> (res: Vec<D>)
        ensures
            res@ == old(self).model().teardown,
            final(self).model() == with_teardown(old(self).model(), Seq::empty()),
    {
        proof {
            use_type_invariant(&*self);
        }
        let mut t: Vec<D> = Vec::new();
        std::mem::swap(&mut t, &mut self.teardown_tasks);
        t
    }

    /// Records that the task named `id` completed, if it has a name.
    pub fn mark_completed(&mut self, id: Option<String>)
        ensures
            final(self).model() == with_completed(old(self).model(), add_name(old(self).model().completed, opt_view(id))),
    {
        proof {
            use_type_invariant(&*self);
        }
        match id {
            Some(s) => {
                let ghost sv = s@;
                let mut c: Vec<String> = Vec::new();
                std::mem::swap(&mut c, &mut self.completed_tasks);
                c.push(s);
                self.completed_tasks = c;
                assert(names_view(self.completed_tasks@) =~= old(self).model().completed.push(sv));
            },
            None => {},
        }
    }

    /// Whether every one of `deps` has completed.
    pub fn deps_met(&self, deps: &Vec<String>) -> (res: bool)
        ensures
            res == deps_met_in(self.model().completed, names_view(deps@)),
    {
        let n = deps.len();
        for k in 0..n
            invariant
                n == deps@.len(),
                forall|j: int| 0 <= j < k ==> self.model().completed.contains(#[trigger] names_view(deps@)[j]),
        {
            if !self.has_completed(&deps[k]) {
                assert(names_view(deps@)[k as int] == deps@[k as int]@);
                return false;
            }
        }
        true
    }

    /// Whether the task named `name` completed.
    fn has_completed(&self, name: &String) -> (res: bool)
        ensures
            res == self.model().completed.contains(name@),
    {
        let m = self.completed_tasks.len();
        for i in 0..m
            invariant
                m == self.completed_tasks@.len(),
                forall|j: int| 0 <= j < i ==> self.model().completed[j] != name@,
        {
            if self.completed_tasks[i] == *name {
                assert(self.model().completed[i as int] == name@);
                return true;
            }
        }
        proof {
            if self.model().completed.contains(name@) {
                let j = choose|j: int| 0 <= j < self.model().completed.len() && self.model().completed[j] == name@;
                assert(false);
            }
        }
        false
    }
}



impl<T, D> Tracker<T, D> {
    /// Parks `task`, named `id` and a guard or not, until the reply with
    /// token `token_id`; a task already parked under that token is
    /// replaced.
    pub fn insert_deferred(&mut self, token_id: u32, task: T, id: Option<String>, guard: bool)
        ensures
            final(self).model() == with_parked(
                old(self).model(),
                park(old(self).model().parked, (token_id, task, opt_view(id), guard)),
            ),
    {
        proof {
            use_type_invariant(&*self);
        }
        let ghost entry = (token_id, task, id, guard);
        let mut d: Vec<(u32, T, Option<String>, bool)> = Vec::new();
        std::mem::swap(&mut d, &mut self.deferred_tasks);
        let ghost old_d = d@;
        let ghost old_p = old(self).model().parked;
        assert(old_p == old_d.map_values(|e: (u32, T, Option<String>, bool)| parked_view(e)));
        match find_token(&d, token_id) {
            Some(i) => {
                proof {
                    assert(old_p[i as int].0 == token_id);
                    assert(is_parked(old_p, token_id));
                    let j = token_index(old_p, token_id);
                    if j != i as int {
                        assert(old_p[j].0 != old_p[i as int].0);
                    }
                }
                d.set(i, (token_id, task, id, guard));
                proof {
                    assert(d@.map_values(|e: (u32, T, Option<String>, bool)| parked_view(e))
                        =~= old_p.update(i as int, parked_view(entry)));
                    let np = d@.map_values(|e: (u32, T, Option<String>, bool)| parked_view(e));
                    assert forall|a: int, b: int| 0 <= a < b < np.len() implies #[trigger] np[a].0 != #[trigger] np[b].0 by {
                        if a != i as int && b != i as int {
                            assert(np[a] == old_p[a] && np[b] == old_p[b]);
                        } else if a == i as int {
                            assert(np[b] == old_p[b]);
                            assert(old_p[a].0 != old_p[b].0);
                        } else {
                            assert(np[a] == old_p[a]);
                            assert(old_p[a].0 != old_p[b].0);
                        }
                    }
                }
            },
            None => {
                proof {
                    if is_parked(old_p, token_id) {
                        let j = token_index(old_p, token_id);
                        assert(old_d[j].0 == token_id);
                    }
                }
                d.push((token_id, task, id, guard));
                proof {
                    assert(d@.map_values(|e: (u32, T, Option<String>, bool)| parked_view(e))
                        =~= old_p.push(parked_view(entry)));
                    let np = d@.map_values(|e: (u32, T, Option<String>, bool)| parked_view(e));
                    assert forall|a: int, b: int| 0 <= a < b < np.len() implies #[trigger] np[a].0 != #[trigger] np[b].0 by {
                        if b == np.len() - 1 {
                            assert(np[a] == old_p[a]);
                            assert(old_d[a].0 != token_id);
                        } else {
                            assert(np[a] == old_p[a] && np[b] == old_p[b]);
                        }
                    }
                }
            },
        }
        self.deferred_tasks = d;
    }

    /// Takes out the task parked under `token_id`, with its name, if any.
    pub fn take_deferred(&mut self, token_id: u32) -> (res: Option<(T, Option<String>)>)
        ensures
            res is Some <==> is_parked(old(self).model().parked, token_id),
            res matches Some(r) ==> ({
                let i = token_index(old(self).model().parked, token_id);
                &&& r.0 == old(self).model().parked[i].1
                &&& opt_view(r.1) == old(self).model().parked[i].2
                &&& final(self).model() == with_parked(old(self).model(), old(self).model().parked.remove(i))
            }),
            res is None ==> final(self).model() == old(self).model(),
    {
        proof {
            use_type_invariant(&*self);
        }
        let mut d: Vec<(u32, T, Option<String>, bool)> = Vec::new();
        std::mem::swap(&mut d, &mut self.deferred_tasks);
        let ghost old_d = d@;
        let ghost old_p = old(self).model().parked;
        assert(old_p == old_d.map_values(|e: (u32, T, Option<String>, bool)| parked_view(e)));
        let res = match find_token(&d, token_id) {
            Some(i) => {
                proof {
                    assert(old_p[i as int].0 == token_id);
                    assert(is_parked(old_p, token_id));
                    let j = token_index(old_p, token_id);
                    if j != i as int {
                        assert(old_p[j].0 != old_p[i as int].0);
                    }
                }
                let (_, task, id, _) = d.remove(i);
                proof {
                    let np = d@.map_values(|e: (u32, T, Option<String>, bool)| parked_view(e));
                    assert(np =~= old_p.remove(i as int));
                    assert forall|a: int, b: int| 0 <= a < b < np.len() implies #[trigger] np[a].0 != #[trigger] np[b].0 by {
                        let a2 = if a < i { a } else { a + 1 };
                        let b2 = if b < i { b } else { b + 1 };
                        assert(np[a] == old_p[a2] && np[b] == old_p[b2]);
                    }
                }
                Some((task, id))
            },
            None => {
                proof {
                    if is_parked(old_p, token_id) {
                        let j = token_index(old_p, token_id);
                        assert(old_d[j].0 == token_id);
                    }
                }
                None
            },
        };
        self.deferred_tasks = d;
        proof {
            if res is None {
                assert(self.model().parked =~= old_p);
            }
        }
        res
    }

    /// The number of queued tasks.
    pub fn queue_len(&self) -> (res: usize)
        ensures
            res == self.model().queue.len(),
    {
        self.task_queue.len()
    }

    /// The number of parked tasks.
    pub fn deferred_len(&self) -> (res: usize)
        ensures
            res == self.model().parked.len(),
    {
        self.deferred_tasks.len()
    }

    /// The number of teardown actions still to run.
    pub fn teardown_len(&self) -> (res: usize)
        ensures
            res == self.model().teardown.len(),
    {
        self.teardown_tasks.len()
    }

    /// Whether a task cut the request short.
    pub fn is_terminated(&self) -> (res: bool)
        ensures
            res == self.model().terminated,
    {
        self.terminated
    }

    /// Whether some parked task is a guard.
    pub fn has_guard(&self) -> (res: bool)
        ensures
            res == some_guard(self.model().parked),
    {
        let n = self.deferred_tasks.len();
        for i in 0..n
            invariant
                n == self.model().parked.len(),
                forall|j: int| 0 <= j < i ==> !(#[trigger] self.model().parked[j]).3,
        {
            if self.deferred_tasks[i].3 {
                assert(self.model().parked[i as int].3);
                return true;
            }
        }
        false
    }
}

/// Where the token occurs among the stored parked tasks.
fn find_token<T>(d: &Vec<(u32, T, Option<String>, bool)>, token_id: u32) -> (res: Option<usize>)
    ensures
        match res {
            Some(i) => i < d@.len() && d@[i as int].0 == token_id,
            None => forall|k: int| 0 <= k < d@.len() ==> d@[k].0 != token_id,
        },
{
    let n = d.len();
    for i in 0..n
        invariant
            n == d@.len(),
            forall|k: int| 0 <= k < i ==> d@[k].0 != token_id,
    {
        if d[i].0 == token_id {
            return Some(i);
        }
    }
    None
}



impl<T, D> Tracker<T, D> {
    /// Replaces every parked task by one that does nothing with its reply,
    /// under the same token, keeping its name (the empty name where it had
    /// none) and whether it is a guard.
    pub fn replace_deferred_with_noop<C>(&mut self)
        where T: Task<C>,
        ensures
            final(self).model().parked.len() == old(self).model().parked.len(),
            forall|i: int|
                0 <= i < old(self).model().parked.len() ==> parked_info(#[trigger] final(self).model().parked[i])
                    == noop_info(old(self).model().parked[i]),
            final(self).model() == with_parked(old(self).model(), final(self).model().parked),
    {
        proof {
            use_type_invariant(&*self);
        }
        let mut d: Vec<(u32, T, Option<String>, bool)> = Vec::new();
        std::mem::swap(&mut d, &mut self.deferred_tasks);
        let ghost old_d = d@;
        let ghost old_p = old(self).model().parked;
        assert(old_p == old_d.map_values(|e: (u32, T, Option<String>, bool)| parked_view(e)));
        let mut out: Vec<(u32, T, Option<String>, bool)> = Vec::new();
        let n = d.len();
        let mut k: usize = 0;
        while k < n
            invariant
                k <= n,
                n == old_d.len(),
                old_p == old_d.map_values(|e: (u32, T, Option<String>, bool)| parked_view(e)),
                d@ == old_d.skip(k as int),
                out@.len() == k,
                forall|j: int| 0 <= j < k ==> parked_info(parked_view(#[trigger] out@[j])) == noop_info(old_p[j]),
            decreases n - k,
        {
            assert(d@.len() == n - k);
            let (token, _task, id, guard) = d.remove(0);
            assert(d@ =~= old_d.skip(k + 1));
            assert(old_d.skip(k as int)[0] == old_d[k as int]);
            let name = match id {
                Some(s) => s,
                None => String::new(),
            };
            let noop = T::noop_pending(name.clone(), token, guard);
            out.push((token, noop, Some(name), guard));
            assert(old_p[k as int] == parked_view(old_d[k as int]));
            assert(parked_info(parked_view(out@[k as int])) == noop_info(old_p[k as int]));
            k += 1;
        }
        proof {
            let np = out@.map_values(|e: (u32, T, Option<String>, bool)| parked_view(e));
            assert forall|a: int, b: int| 0 <= a < b < np.len() implies #[trigger] np[a].0 != #[trigger] np[b].0 by {
                assert(parked_info(np[a]) == noop_info(old_p[a]));
                assert(parked_info(np[b]) == noop_info(old_p[b]));
            }
        }
        self.deferred_tasks = out;
    }

    /// Acts on what applying the task named `id` gave: a finished task is
    /// recorded as completed; a waiting one is parked under its token,
    /// with the name and guard flag it gives; requeued tasks are queued
    /// last, or, for a task applied on its reply (`on_reply`), first, the
    /// task then counting as completed; a failed one changes nothing; a
    /// task that ends the request hands back the task that answers it and
    /// changes nothing yet. The ghost part of the result says which of
    /// these it was.
    pub fn record_outcome<C>(&mut self, id: Option<String>, outcome: TaskOutcome<T>, on_reply: bool) -> (res: (
        Option<T>,
        Ghost<Effect<T>>,
    ))
        where T: Task<C>,
        ensures
            match outcome {
                TaskOutcome::Done => res.0 is None && res.1@ is Done,
                TaskOutcome::Deferred { token_id, pending } => res.0 is None && (res.1@ matches Effect::Parked(p)
                    && p.0 == token_id && p.1 == pending),
                TaskOutcome::Requeued(v) => res.0 is None && (res.1@ matches Effect::Requeued(q)
                    && q.map_values(|e: QueuedTask<T>| e.0) == v@),
                TaskOutcome::Failed => res.0 is None && res.1@ is Failed,
                TaskOutcome::Terminate(t) => res.0 == Some(t) && res.1@ is Terminated,
            },
            final(self).model() == (if res.1@ is Terminated {
                old(self).model()
            } else {
                recorded(old(self).model(), opt_view(id), res.1@, on_reply)
            }),
    {
        match outcome {
            TaskOutcome::Done => {
                self.mark_completed(id);
                (None, Ghost(Effect::Done))
            },
            TaskOutcome::Deferred { token_id, pending } => {
                let pid = pending.id();
                let guard = pending.is_guard();
                let ghost p = (token_id, pending, opt_view(pid), guard);
                self.insert_deferred(token_id, pending, pid, guard);
                (None, Ghost(Effect::Parked(p)))
            },
            TaskOutcome::Requeued(v) => {
                let es = queue_entries::<T, C>(v);
                let ghost q = es@.map_values(|e: (T, Option<String>, Vec<String>)| queued_view(e));
                if on_reply {
                    self.mark_completed(id);
                }
                self.add_entries(es, on_reply);
                (None, Ghost(Effect::Requeued(q)))
            },
            TaskOutcome::Failed => (None, Ghost(Effect::Failed)),
            TaskOutcome::Terminate(t) => (Some(t), Ghost(Effect::Terminated)),
        }
    }
}



/// The tasks of a request and where each stands.
pub struct Pipeline<T, D, C> {
    pub ctx: C,
    tracker: Tracker<T, D>,
}

/// Where a pipeline stands after it ran.
pub enum PipelineState<T, D, C> {
    /// Tasks are queued or wait for replies.
    InProgress(Box<Pipeline<T, D, C>>),
    /// Nothing is left; the request resumes unless it was cut short.
    Completed { should_resume: bool },
}

impl<T, D, C> Pipeline<T, D, C> {
    /// The pipeline's bookkeeping.
    pub closed spec fn state(&self) -> Tracker<T, D> {
        self.tracker
    }

    /// The context the pipeline runs in.
    pub closed spec fn context(&self) -> C {
        self.ctx
    }
}

/// Where a pipeline whose bookkeeping is `t` stands: completed when nothing
/// is queued or parked, resuming the request unless it was cut short; in
/// progress with that bookkeeping otherwise.
pub open spec fn settled<T, D, C>(t: TrackerModel<T, D>, res: PipelineState<T, D, C>) -> bool {
    if t.queue.len() == 0 && t.parked.len() == 0 {
        res matches PipelineState::Completed { should_resume } && should_resume == !t.terminated
    } else {
        res matches PipelineState::InProgress(p) && p.state().model() == t
    }
}

/// Whether a run of a pipeline with bookkeeping `s` that made `effects` of
/// its queued tasks can end in `res`. The queue is taken out and gone
/// through once, in order, as `pass_ok` says; the teardown then runs if a
/// task ended the request, or if nothing is queued or parked and teardown
/// actions are left; the pipeline then stands as `settled` says.
pub open spec fn eval_result<T, D, C>(s: TrackerModel<T, D>, effects: Seq<Effect<T>>, res: PipelineState<T, D, C>) -> bool {
    let start = with_queue(s, Seq::empty());
    let mid = pass(start, s.queue, effects);
    &&& pass_ok(start, s.queue, effects)
    &&& if (effects.len() > 0 && effects.last() is Terminated) || (mid.queue.len() == 0 && mid.parked.len() == 0
        && mid.teardown.len() > 0) {
        exists|t: TrackerModel<T, D>| torn_down(mid, t) && settled(t, res)
    } else {
        settled(mid, res)
    }
}

/// Whether handling the reply with token `token`, parked in `s`, with
/// effect `eff` of applying the parked task, leaves the bookkeeping `t`
/// before the pipeline runs on: the task is taken out, its effect recorded
/// as for a task applied on its reply, and, if it ended the request, the
/// teardown run.
pub open spec fn digest_step<T, D>(s: TrackerModel<T, D>, token: u32, eff: Effect<T>, t: TrackerModel<T, D>) -> bool {
    let i = token_index(s.parked, token);
    let s2 = recorded(with_parked(s, s.parked.remove(i)), s.parked[i].2, eff, true);
    &&& !(eff is Waits)
    &&& if eff is Terminated {
        torn_down(s2, t)
    } else {
        t == s2
    }
}

/// What a run of a pipeline `before` with nothing queued gives: with
/// nothing parked and no teardown left, it completes, resuming the request
/// unless it was cut short; with tasks parked, it stays in progress with
/// its context and bookkeeping as they were.
pub open spec fn idle_outcome<T, D, C>(before: Pipeline<T, D, C>, res: PipelineState<T, D, C>) -> bool {
    let b = before.state().model();
    &&& b.parked.len() == 0 && b.teardown.len() == 0 ==> (res matches PipelineState::Completed { should_resume }
        && should_resume == !b.terminated)
    &&& b.parked.len() > 0 ==> (res matches PipelineState::InProgress(p) && p.context() == before.context()
        && p.state().model() == b)
}

/// Extending the effects of a pass by one.
proof fn lemma_pass_push<T, D>(s: TrackerModel<T, D>, entries: Seq<QueuedTask<T>>, effects: Seq<Effect<T>>, x: Effect<T>)
    requires
        effects.len() < entries.len(),
    ensures
        pass(s, entries, effects.push(x)) == after_effect(pass(s, entries, effects), entries[effects.len() as int], x),
        effects.push(x).take(effects.len() as int) == effects,
        forall|j: int| 0 <= j < effects.len() ==> #[trigger] effects.push(x).take(j) == effects.take(j),
{
    assert(effects.push(x).drop_last() =~= effects);
    assert(effects.push(x).take(effects.len() as int) =~= effects);
    assert forall|j: int| 0 <= j < effects.len() implies #[trigger] effects.push(x).take(j) == effects.take(j) by {
        assert(effects.push(x).take(j) =~= effects.take(j));
    }
}

/// Parking one more task after a run of parkings.
proof fn lemma_park_all_push<T>(n: Seq<ParkedTask<T>>, ts: Seq<ParkedTask<T>>, x: ParkedTask<T>)
    ensures
        park_all(n, ts.push(x)) == park(park_all(n, ts), x),
{
    assert(ts.push(x).drop_last() =~= ts);
}

impl<T: Task<C>, D: TeardownAction<C>, C: TaskContext> Pipeline<T, D, C> {
    /// A pipeline with nothing to do yet.
    pub fn new(ctx: C) -> (res: Self)
        ensures
            res.context() == ctx,
            res.state().model().queue.len() == 0,
            res.state().model().parked.len() == 0,
            res.state().model().completed.len() == 0,
            res.state().model().teardown.len() == 0,
            !res.state().model().terminated,
    {
        Pipeline { ctx, tracker: Tracker::new() }
    }

    /// The pipeline with `tasks` queued in place of what was queued.
    pub fn with_tasks(self, tasks: Vec<T>) -> (res: Self)
        ensures
            res.context() == self.context(),
            res.state().queued() == tasks@,
            res.state().model() == with_queue(self.state().model(), res.state().model().queue),
    {
        let mut p = self;
        p.tracker.set_queue::<C>(tasks);
        p
    }

    /// The pipeline with `tasks` as its teardown actions.
    pub fn with_teardown_tasks(self, tasks: Vec<D>) -> (res: Self)
        ensures
            res.context() == self.context(),
            res.state().model() == with_teardown(self.state().model(), tasks@),
    {
        let mut p = self;
        p.tracker.set_teardown(tasks);
        p
    }

    /// Whether a task cut the request short.
    pub fn is_terminated(&self) -> (res: bool)
        ensures
            res == self.state().model().terminated,
    {
        self.tracker.is_terminated()
    }

    /// Whether some guard holds the request back: a guard task is parked,
    /// waiting for its reply.
    pub fn requires_pause(&self) -> (res: bool)
        ensures
            res == some_guard(self.state().model().parked),
    {
        self.tracker.has_guard()
    }

    /// Where the pipeline stands: completed when nothing is queued or
    /// parked, resuming the request unless it was cut short.
    pub fn into_state(self) -> (res: PipelineState<T, D, C>)
        ensures
            settled(self.state().model(), res),
            res matches PipelineState::InProgress(p) ==> *p == self,
    {
        if self.tracker.queue_len() == 0 && self.tracker.deferred_len() == 0 {
            PipelineState::Completed { should_resume: !self.tracker.is_terminated() }
        } else {
            PipelineState::InProgress(Box::new(self))
        }
    }

    /// Runs the teardown actions: parked tasks first stop acting on their
    /// replies; a teardown action that waits for a reply is parked under its
    /// token as one that does nothing with it.
    fn execute_teardown(&mut self)
        ensures
            torn_down(old(self).state().model(), final(self).state().model()),
    {
        let ghost m0 = self.tracker.model();
        self.tracker.replace_deferred_with_noop::<C>();
        let ghost n = self.tracker.model().parked;
        let mut actions = self.tracker.take_teardown();
        let ghost mut ts: Seq<ParkedTask<T>> = Seq::empty();
        while actions.len() > 0
            invariant
                self.tracker.model() == with_teardown(with_parked(m0, park_all(n, ts)), Seq::empty()),
                forall|j: int| 0 <= j < ts.len() ==> (#[trigger] ts[j]).2 == Some(teardown_name(ts[j].0)) && !ts[j].3,
            decreases actions@.len(),
        {
            let action = actions.remove(0);
            match action.execute(&mut self.ctx) {
                TeardownOutcome::Done => {},
                TeardownOutcome::Deferred(token_id) => {
                    let mut id = owned("teardown_");
                    id.push_str(to_decimal(token_id as u64).as_str());
                    let pending = T::noop_pending(id.clone(), token_id, false);
                    let ghost x = (token_id, pending, Some(id@), false);
                    self.tracker.insert_deferred(token_id, pending, Some(id), false);
                    proof {
                        lemma_park_all_push(n, ts, x);
                        ts = ts.push(x);
                        assert(ts[ts.len() - 1] == x);
                    }
                },
            }
        }
        proof {
            let t = self.tracker.model();
            assert(park_all(n, ts) == t.parked);
        }
    }
}



/// Whether each of `effects` is what a pass over `entries` from `s` made
/// of its task so far: a task waits exactly when one of its dependencies
/// has not completed by its turn, and none ended the request.
pub open spec fn pass_prefix_ok<T, D>(s: TrackerModel<T, D>, entries: Seq<QueuedTask<T>>, effects: Seq<Effect<T>>) -> bool {
    &&& effects.len() <= entries.len()
    &&& forall|k: int|
        0 <= k < effects.len() ==> ((#[trigger] effects[k] is Waits) <==> !deps_met_in(
            pass(s, entries, effects.take(k)).completed,
            entries[k].2,
        ))
    &&& forall|k: int| 0 <= k < effects.len() ==> !(#[trigger] effects[k] is Terminated)
}

/// One more task taken up keeps a pass as it should be.
proof fn lemma_pass_prefix_push<T, D>(s: TrackerModel<T, D>, entries: Seq<QueuedTask<T>>, effects: Seq<Effect<T>>, x: Effect<T>)
    requires
        effects.len() < entries.len(),
        pass_prefix_ok(s, entries, effects),
        (x is Waits) <==> !deps_met_in(pass(s, entries, effects).completed, entries[effects.len() as int].2),
    ensures
        pass(s, entries, effects.push(x)) == after_effect(pass(s, entries, effects), entries[effects.len() as int], x),
        !(x is Terminated) ==> pass_prefix_ok(s, entries, effects.push(x)),
        x is Terminated ==> pass_ok(s, entries, effects.push(x)),
{
    lemma_pass_push(s, entries, effects, x);
    let e2 = effects.push(x);
    assert forall|k: int| 0 <= k < e2.len() implies ((#[trigger] e2[k] is Waits) <==> !deps_met_in(
        pass(s, entries, e2.take(k)).completed,
        entries[k].2,
    )) by {
        if k < effects.len() {
            assert(e2[k] == effects[k]);
            assert(e2.take(k) == effects.take(k));
        } else {
            assert(e2.take(k) == effects);
        }
    }
    assert forall|k: int| 0 <= k < e2.len() - 1 implies !(#[trigger] e2[k] is Terminated) by {
        assert(e2[k] == effects[k]);
    }
}

/// A pass that took up every task and ends with the teardown run, or one
/// that a task cut short, ends as `eval_result` says.
proof fn lemma_eval_result_torn<T, D, C>(
    s: TrackerModel<T, D>,
    effects: Seq<Effect<T>>,
    t: TrackerModel<T, D>,
    res: PipelineState<T, D, C>,
)
    requires
        pass_ok(with_queue(s, Seq::empty()), s.queue, effects),
        ({
            let mid = pass(with_queue(s, Seq::empty()), s.queue, effects);
            &&& (effects.len() > 0 && effects.last() is Terminated) || (mid.queue.len() == 0 && mid.parked.len() == 0
                && mid.teardown.len() > 0)
            &&& torn_down(mid, t)
        }),
        settled(t, res),
    ensures
        eval_result(s, effects, res),
{
}

/// A pass that took up every task, with no teardown to run, ends as
/// `eval_result` says.
proof fn lemma_eval_result_settled<T, D, C>(s: TrackerModel<T, D>, effects: Seq<Effect<T>>, res: PipelineState<T, D, C>)
    requires
        pass_prefix_ok(with_queue(s, Seq::empty()), s.queue, effects),
        effects.len() == s.queue.len(),
        ({
            let mid = pass(with_queue(s, Seq::empty()), s.queue, effects);
            &&& !(mid.queue.len() == 0 && mid.parked.len() == 0 && mid.teardown.len() > 0)
            &&& settled(mid, res)
        }),
    ensures
        eval_result(s, effects, res),
{
    if effects.len() > 0 {
        assert(!(effects[effects.len() - 1] is Terminated));
    }
}

impl<T: Task<C>, D: TeardownAction<C>, C: TaskContext> Pipeline<T, D, C> {
    /// Applies each queued task whose dependencies have completed, in queue
    /// order; the others stay queued. A finished task counts as completed,
    /// one that waits for a reply is parked under its token, requeued tasks
    /// go to the back of the queue. A task that ends the request has its
    /// reply made, empties the queue and runs the teardown. Once nothing is
    /// queued or parked, the teardown runs.
    pub fn eval(self) -> (res: PipelineState<T, D, C>)
        ensures
            exists|effects: Seq<Effect<T>>| eval_result(self.state().model(), effects, res),
            self.state().model().queue.len() == 0 ==> idle_outcome(self, res),
    {
        let ghost s = self.state().model();
        let ghost start = with_queue(s, Seq::empty());
        let ghost entries = s.queue;
        let mut p = self;
        let mut tasks = p.tracker.take_queue();
        let ghost mut effects: Seq<Effect<T>> = Seq::empty();
        while tasks.len() > 0
            invariant
                tasks@.map_values(|e: (T, Option<String>, Vec<String>)| queued_view(e)) == entries.skip(effects.len() as int),
                p.tracker.model() == pass(start, entries, effects),
                pass_prefix_ok(start, entries, effects),
                entries.len() == 0 ==> p.context() == self.context(),
                start == with_queue(s, Seq::empty()),
                entries == s.queue,
                s == self.state().model(),
            decreases tasks@.len(),
        {
            let ghost k = effects.len();
            let ghost before_tasks = tasks@;
            proof {
                assert(before_tasks.map_values(|e: (T, Option<String>, Vec<String>)| queued_view(e)).len() == before_tasks.len());
            }
            let entry = tasks.remove(0);
            proof {
                let tv = tasks@.map_values(|e: (T, Option<String>, Vec<String>)| queued_view(e));
                let bv = before_tasks.map_values(|e: (T, Option<String>, Vec<String>)| queued_view(e));
                assert(entries.skip(k as int)[0] == entries[k as int]);
                assert(queued_view(entry) == bv[0]);
                assert forall|j: int| 0 <= j < tv.len() implies tv[j] == entries.skip((k + 1) as int)[j] by {
                    assert(tasks@[j] == before_tasks[j + 1]);
                    assert(bv[j + 1] == entries.skip(k as int)[j + 1]);
                }
                assert(tv =~= entries.skip((k + 1) as int));
            }
            let (task, id, deps) = entry;
            if !p.tracker.deps_met(&deps) {
                p.tracker.push_entry((task, id, deps));
                proof {
                    lemma_pass_prefix_push(start, entries, effects, Effect::Waits);
                    effects = effects.push(Effect::Waits);
                }
            } else {
                let outcome = task.apply(&mut p.ctx);
                let (terminal, eff) = p.tracker.record_outcome::<C>(id, outcome, false);
                proof {
                    lemma_pass_prefix_push(start, entries, effects, eff@);
                    effects = effects.push(eff@);
                }
                match terminal {
                    Some(t) => {
                        let _ = t.apply(&mut p.ctx);
                        p.tracker.terminate();
                        p.execute_teardown();
                        let res = p.into_state();
                        proof {
                            lemma_eval_result_torn(s, effects, p.state().model(), res);
                        }
                        return res;
                    },
                    None => {},
                }
            }
        }
        let ghost mid = p.tracker.model();
        if p.tracker.queue_len() == 0 && p.tracker.deferred_len() == 0 && p.tracker.teardown_len() > 0 {
            p.execute_teardown();
            let res = p.into_state();
            proof {
                lemma_eval_result_torn(s, effects, p.state().model(), res);
            }
            return res;
        }
        let res = p.into_state();
        proof {
            lemma_eval_result_settled(s, effects, res);
            if entries.len() == 0 {
                assert(s.queue =~= Seq::<QueuedTask<T>>::empty());
                assert(mid == s);
            }
        }
        res
    }

    /// Handles the gRPC reply with token `token_id`: the task parked under
    /// it (if any) is taken out and applied after the reply's status and
    /// size are recorded. Finishing, or requeueing tasks (to the front of
    /// the queue, in order), completes it; waiting again parks the new
    /// task; ending the request makes the reply, empties the queue and runs
    /// the teardown. The pipeline then runs on.
    pub fn digest(self, token_id: u32, status_code: u32, response_size: usize) -> (res: PipelineState<T, D, C>)
        ensures
            !is_parked(self.state().model().parked, token_id) ==> exists|effects: Seq<Effect<T>>|
                eval_result(self.state().model(), effects, res),
            is_parked(self.state().model().parked, token_id) ==> exists|
                eff: Effect<T>,
                t: TrackerModel<T, D>,
                effects: Seq<Effect<T>>,
            | digest_step(self.state().model(), token_id, eff, t) && eval_result(t, effects, res),
            !is_parked(self.state().model().parked, token_id) && self.state().model().queue.len() == 0
                ==> idle_outcome(self, res),
    {
        let ghost s = self.state().model();
        let mut p = self;
        let taken = p.tracker.take_deferred(token_id);
        match taken {
            Some((pending, id)) => {
                p.ctx.set_grpc_response_data(status_code, response_size);
                let outcome = pending.apply(&mut p.ctx);
                let (terminal, eff) = p.tracker.record_outcome::<C>(id, outcome, true);
                match terminal {
                    Some(t) => {
                        let _ = t.apply(&mut p.ctx);
                        p.tracker.terminate();
                        p.execute_teardown();
                    },
                    None => {},
                }
                let ghost tm = p.state().model();
                let res = p.eval();
                proof {
                    assert(digest_step(s, token_id, eff@, tm));
                    let effs = choose|effs: Seq<Effect<T>>| eval_result(tm, effs, res);
                    assert(digest_step(s, token_id, eff@, tm) && eval_result(tm, effs, res));
                }
                res
            },
            None => p.eval(),
        }
    }
}



/// What a sequence with one more element contains.
pub proof fn lemma_push_contains<A>(s: Seq<A>, x: A)
    ensures
        forall|t: A| #[trigger] s.push(x).contains(t) <==> (s.contains(t) || t == x),
{
    assert forall|t: A| #[trigger] s.push(x).contains(t) <==> (s.contains(t) || t == x) by {
        if s.contains(t) {
            let i = choose|i: int| 0 <= i < s.len() && s[i] == t;
            assert(s.push(x)[i] == t);
        }
        if t == x {
            assert(s.push(x)[s.len() as int] == x);
        }
        if s.push(x).contains(t) {
            let i = choose|i: int| 0 <= i < s.push(x).len() && s.push(x)[i] == t;
            if i < s.len() {
                assert(s[i] == t);
            }
        }
    }
}

} // verus!
