//! Actions run one after the other: each calls its operation when
//! triggered, moving from pending to waiting to done.
use crate::operation_dispatcher::{next_state, GrpcStatus, State};
use vstd::prelude::*;

verus! {

/// One action: where it stands, what its operation last returned, and the
/// operation itself, once one is set.
pub struct Action<F> {
    state: State,
    result: Result<u32, GrpcStatus>,
    operation: Option<F>,
}

impl<F> Action<F> {
    /// Where the action stands.
    pub closed spec fn state(&self) -> State {
        self.state
    }

    /// What the operation last returned.
    pub closed spec fn result(&self) -> Result<u32, GrpcStatus> {
        self.result
    }

    /// The operation, once set.
    pub closed spec fn operation(&self) -> Option<F> {
        self.operation
    }
}

impl<F: Fn() -> Result<u32, GrpcStatus>> Action<F> {
    /// Whether the operation, where there is one, may be called.
    pub open spec fn callable(&self) -> bool {
        self.operation() matches Some(f) ==> call_requires(f, ())
    }

    /// What triggering `before` makes of it: nothing changes when it is done
    /// or has no operation; otherwise it moves one step on and holds what
    /// its operation returned.
    pub open spec fn triggered(before: Self, after: Self) -> bool {
        &&& after.operation() == before.operation()
        &&& if before.state() == State::Done || before.operation() is None {
            after.state() == before.state() && after.result() == before.result()
        } else {
            &&& after.state() == next_state(before.state())
            &&& call_ensures(before.operation()->0, (), after.result())
        }
    }

    /// A pending action without an operation, whose result is the empty
    /// status.
    pub fn default() -> (res: Self)
        ensures
            res.state() == State::Pending,
            res.result() == Err::<u32, GrpcStatus>(GrpcStatus::Empty),
            res.operation() is None,
    {
        Action { state: State::Pending, result: Err(GrpcStatus::Empty), operation: None }
    }

    /// Sets the operation that triggering calls.
    pub fn set_operation(&mut self, operation: F)
        ensures
            final(self).operation() == Some(operation),
            final(self).state() == old(self).state(),
            final(self).result() == old(self).result(),
    {
        self.operation = Some(operation);
    }

    /// Calls the operation, unless the action is done or has none, keeps
    /// what it returned and moves one step on.
    pub fn trigger(&mut self)
        requires
            old(self).callable(),
        ensures
            Self::triggered(*old(self), *final(self)),
    {
        if let State::Done = self.state {
        } else {
            match &self.operation {
                Some(operation) => {
                    self.result = operation();
                    self.state.next();
                },
                None => {},
            }
        }
    }

    /// Where the action stands.
    pub fn get_state(&self) -> (res: State)
        ensures
            res == self.state(),
    {
        self.state
    }

    /// What the operation last returned.
    pub fn get_result(&self) -> (res: Result<u32, GrpcStatus>)
        ensures
            res == self.result(),
    {
        self.result
    }
}

/// A queue of actions, worked off from the front.
pub struct ActionDispatcher<F> {
    actions: Vec<Action<F>>,
}

impl<F> ActionDispatcher<F> {
    /// The queued actions, front first.
    pub closed spec fn actions(&self) -> Seq<Action<F>> {
        self.actions@
    }
}

impl<F: Fn() -> Result<u32, GrpcStatus>> ActionDispatcher<F> {
    /// An empty queue.
    pub fn default() -> (res: Self)
        ensures
            res.actions().len() == 0,
    {
        ActionDispatcher { actions: Vec::new() }
    }

    /// A queue of the given actions.
    pub fn with_actions(actions: Vec<Action<F>>) -> (res: Self)
        ensures
            res.actions() == actions@,
    {
        ActionDispatcher { actions }
    }

    /// Queues `actions` behind those already queued.
    pub fn push_actions(&mut self, actions: Vec<Action<F>>)
        ensures
            final(self).actions() == old(self).actions() + actions@,
    {
        let mut actions = actions;
        self.actions.append(&mut actions);
    }

    /// How many actions are queued.
    pub fn len(&self) -> (res: usize)
        ensures
            res == self.actions().len(),
    {
        self.actions.len()
    }

    /// Where the front action stands, if there is one.
    pub fn get_current_action_state(&self) -> (res: Option<State>)
        ensures
            res == (if self.actions().len() > 0 { Some(self.actions()[0].state()) } else { None }),
    {
        if self.actions.len() > 0 {
            Some(self.actions[0].get_state())
        } else {
            None
        }
    }

    /// What the front action's operation last returned.
    pub fn get_current_action_result(&self) -> (res: Result<u32, GrpcStatus>)
        requires
            self.actions().len() > 0,
        ensures
            res == self.actions()[0].result(),
    {
        self.actions[0].get_result()
    }

    /// One step of work: a done front action leaves the queue, and the
    /// answer is whether any is left; otherwise the front action is
    /// triggered and the answer is true. An empty queue answers false.
    pub fn next(&mut self) -> (res: bool)
        requires
            old(self).actions().len() > 0 ==> old(self).actions()[0].callable(),
        ensures
            old(self).actions().len() == 0 ==> !res && final(self).actions() == old(self).actions(),
            old(self).actions().len() > 0 && old(self).actions()[0].state() == State::Done ==> {
                &&& final(self).actions() == old(self).actions().drop_first()
                &&& res == (final(self).actions().len() > 0)
            },
            old(self).actions().len() > 0 && old(self).actions()[0].state() != State::Done ==> {
                &&& res
                &&& final(self).actions().len() == old(self).actions().len()
                &&& final(self).actions().drop_first() == old(self).actions().drop_first()
                &&& Action::<F>::triggered(old(self).actions()[0], final(self).actions()[0])
            },
    {
        if self.actions.len() == 0 {
            return false;
        }
        if let State::Done = self.actions[0].get_state() {
            self.actions.remove(0);
            proof {
                assert(self.actions@ =~= old(self).actions@.drop_first());
            }
            self.actions.len() > 0
        } else {
            let mut first = self.actions.remove(0);
            first.trigger();
            self.actions.insert(0, first);
            proof {
                assert(self.actions@.drop_first() =~= old(self).actions@.drop_first());
            }
            true
        }
    }
}

} // verus!
