//! The life cycle of a dispatched operation (pending until its gRPC call
//! is made, waiting for the reply, then done) and the dispatcher that
//! takes the operations of a request one after the other.
use crate::config::FailureMode;
use vstd::prelude::*;

verus! {

/// Where an operation stands.
#[derive(Debug, Clone, Copy, PartialEq, Eq, Structural)]
pub enum State {
    Pending,
    Waiting,
    Done,
}

/// The state after one step: pending becomes waiting, waiting becomes
/// done, and done stays done.
pub open spec fn next_state(s: State) -> State {
    match s {
        State::Pending => State::Waiting,
        State::Waiting => State::Done,
        State::Done => State::Done,
    }
}

impl State {
    /// Moves one step on.
    pub fn next(&mut self)
        ensures
            *final(self) == next_state(*old(self)),
    {
        match *self {
            State::Pending => *self = State::Waiting,
            State::Waiting => *self = State::Done,
            State::Done => {},
        }
    }

    /// Ends the life cycle at once.
    pub fn done(&mut self)
        ensures
            *final(self) == State::Done,
    {
        *self = State::Done;
    }
}

/// Two steps from any state reach done.
pub proof fn lemma_two_steps_reach_done(s: State)
    ensures
        next_state(next_state(s)) == State::Done,
{
}

/// The status of a host call that failed.
#[derive(Debug, Clone, Copy, PartialEq, Eq, Structural)]
pub enum GrpcStatus {
    /// No error (`Ok`).
    Success,
    NotFound,
    BadArgument,
    SerializationFailure,
    ParseFailure,
    Empty,
    CasMismatch,
    InternalFailure,
}

/// Why an operation could not be triggered or found.
#[derive(Debug, Clone, Copy, PartialEq, Eq, Structural)]
pub struct OperationError {
    pub status: GrpcStatus,
    pub failure_mode: FailureMode,
}

impl OperationError {
    /// The error's message.
    pub fn message(&self) -> (res: String)
        ensures
            self.status == GrpcStatus::ParseFailure ==> res@ == "Error parsing configuration."@,
            self.status != GrpcStatus::ParseFailure ==> res@ == "Error triggering the operation. "@ + status_name(self.status),
    {
        match self.status {
            GrpcStatus::ParseFailure => crate::text::owned("Error parsing configuration."),
            _ => {
                let mut r = crate::text::owned("Error triggering the operation. ");
                r.push_str(status_text(self.status));
                r
            },
        }
    }
}

/// The name of a status.
pub open spec fn status_name(s: GrpcStatus) -> Seq<char> {
    match s {
        GrpcStatus::Success => "Ok"@,
        GrpcStatus::NotFound => "NotFound"@,
        GrpcStatus::BadArgument => "BadArgument"@,
        GrpcStatus::SerializationFailure => "SerializationFailure"@,
        GrpcStatus::ParseFailure => "ParseFailure"@,
        GrpcStatus::Empty => "Empty"@,
        GrpcStatus::CasMismatch => "CasMismatch"@,
        GrpcStatus::InternalFailure => "InternalFailure"@,
    }
}

fn status_text(s: GrpcStatus) -> (res: &'static str)
    ensures
        res@ == status_name(s),
{
    match s {
        GrpcStatus::Success => "Ok",
        GrpcStatus::NotFound => "NotFound",
        GrpcStatus::BadArgument => "BadArgument",
        GrpcStatus::SerializationFailure => "SerializationFailure",
        GrpcStatus::ParseFailure => "ParseFailure",
        GrpcStatus::Empty => "Empty",
        GrpcStatus::CasMismatch => "CasMismatch",
        GrpcStatus::InternalFailure => "InternalFailure",
    }
}

/// What building and sending an operation's gRPC request gave.
#[derive(Debug, Clone, Copy, PartialEq, Eq, Structural)]
pub enum TriggerOutcome {
    /// There was no message to send.
    NoMessage,
    /// The request went out; its reply carries this token.
    Sent(u32),
    /// Sending failed with this status.
    Failed(GrpcStatus),
}

/// Which counter a failed trigger counts on.
#[derive(Debug, Clone, Copy, PartialEq, Eq, Structural)]
pub enum FailureReport {
    /// An error, when failures deny.
    Error,
    /// A request let through on failure, when failures allow.
    AllowedOnFailure,
}

/// The counter that a failed trigger counts on under `mode`.
pub fn failure_report(mode: FailureMode) -> (res: FailureReport)
    ensures
        mode == FailureMode::Deny ==> res == FailureReport::Error,
        mode == FailureMode::Allow ==> res == FailureReport::AllowedOnFailure,
{
    match mode {
        FailureMode::Deny => FailureReport::Error,
        FailureMode::Allow => FailureReport::AllowedOnFailure,
    }
}

/// An operation of a request: an action to carry out by a gRPC call.
pub struct Operation<A> {
    pub state: State,
    pub result: Result<u32, OperationError>,
    pub action: A,
    pub failure_mode: FailureMode,
}

impl<A> Operation<A> {
    /// A pending operation of `action`, not yet triggered (its result is 0).
    pub fn new(action: A, failure_mode: FailureMode) -> (res: Self)
        ensures
            res.state == State::Pending,
            res.result == Ok::<u32, OperationError>(0),
            res.action == action,
            res.failure_mode == failure_mode,
    {
        Operation { state: State::Pending, result: Ok(0), action, failure_mode }
    }

    /// Where the operation stands.
    pub fn get_state(&self) -> (res: State)
        ensures
            res == self.state,
    {
        self.state
    }

    /// The token of the operation's call, or why it failed.
    pub fn get_result(&self) -> (res: Result<u32, OperationError>)
        ensures
            res == self.result,
    {
        self.result
    }

    /// What to do when the operation's service fails.
    pub fn get_failure_mode(&self) -> (res: FailureMode)
        ensures
            res == self.failure_mode,
    {
        self.failure_mode
    }

    /// Records what triggering gave: without a message the operation is
    /// done; otherwise its result is the token or the error (under the
    /// operation's failure mode) and it moves one step on.
    pub fn trigger(&mut self, outcome: TriggerOutcome) -> (res: Result<u32, OperationError>)
        ensures
            res == final(self).result,
            final(self).action == old(self).action,
            final(self).failure_mode == old(self).failure_mode,
            match outcome {
                TriggerOutcome::NoMessage => final(self).state == State::Done && final(self).result == old(self).result,
                TriggerOutcome::Sent(token) => final(self).state == next_state(old(self).state)
                    && final(self).result == Ok::<u32, OperationError>(token),
                TriggerOutcome::Failed(status) => final(self).state == next_state(old(self).state)
                    && final(self).result == Err::<u32, OperationError>(OperationError { status, failure_mode: old(self).failure_mode }),
            },
    {
        match outcome {
            TriggerOutcome::NoMessage => {
                self.state.done();
            },
            TriggerOutcome::Sent(token) => {
                self.result = Ok(token);
                self.state.next();
            },
            TriggerOutcome::Failed(status) => {
                self.result = Err(OperationError { status, failure_mode: self.failure_mode });
                self.state.next();
            },
        }
        self.result
    }
}

/// What the dispatcher asks of its caller next.
#[derive(Debug, Clone, Copy, PartialEq, Eq, Structural)]
pub enum Step {
    /// No operation is left.
    Empty,
    /// The current operation is pending: decide whether its conditions
    /// apply, then trigger or skip it.
    CheckConditions,
    /// The current operation is the one to act on.
    Current,
    /// Triggering the current operation failed.
    Error(OperationError),
}

/// The number of done operations at the front of `ops`.
pub open spec fn leading_done<A>(ops: Seq<Operation<A>>) -> nat
    decreases ops.len(),
{
    if ops.len() > 0 && ops[0].state == State::Done {
        1 + leading_done(ops.drop_first())
    } else {
        0
    }
}

/// `ops` from index `k` on, the first of them moved one step on.
pub open spec fn advanced_from<A>(ops: Seq<Operation<A>>, k: int) -> Seq<Operation<A>> {
    let op = ops[k];
    ops.skip(k).update(0, Operation { state: next_state(op.state), result: op.result, action: op.action, failure_mode: op.failure_mode })
}

/// The operations of a request, taken one after the other, and the ones
/// waiting for a reply, by the reply's token.
pub struct OperationDispatcher<A> {
    operations: Vec<Operation<A>>,
    waiting_operations: Vec<(u32, usize)>,
}

/// Whether each waiting token is distinct and names an operation that was
/// triggered with it.
pub open spec fn parts_ok<A>(ops: Seq<Operation<A>>, w: Seq<(u32, usize)>) -> bool {
    &&& forall|i: int, j: int| 0 <= i < j < w.len() ==> #[trigger] w[i].0 != #[trigger] w[j].0
    &&& forall|i: int| 0 <= i < w.len() ==> {
        let (t, k) = #[trigger] w[i];
        &&& k < ops.len()
        &&& ops[k as int].result == Ok::<u32, OperationError>(t)
        &&& ops[k as int].state != State::Pending
    }
}

/// The tokens of the waiting operations.
pub open spec fn waiting_tokens(w: Seq<(u32, usize)>) -> Seq<u32> {
    w.map_values(|e: (u32, usize)| e.0)
}

impl<A> OperationDispatcher<A> {
    /// Each token names one operation, triggered with that token.
    #[verifier::type_invariant]
    closed spec fn inv(&self) -> bool {
        parts_ok(self.operations@, self.waiting_operations@)
    }

    /// The operations still to take, in order.
    pub closed spec fn ops(&self) -> Seq<Operation<A>> {
        self.operations@
    }

    /// The tokens of the operations waiting for a reply.
    pub closed spec fn tokens(&self) -> Seq<u32> {
        waiting_tokens(self.waiting_operations@)
    }

    /// No operations.
    pub fn new() -> (res: Self)
        ensures
            res.ops().len() == 0,
            res.tokens().len() == 0,
    {
        OperationDispatcher { operations: Vec::new(), waiting_operations: Vec::new() }
    }

    /// Adds operations after the ones there.
    pub fn push_operations(&mut self, operations: Vec<Operation<A>>)
        ensures
            final(self).ops() == old(self).ops() + operations@,
            final(self).tokens() == old(self).tokens(),
    {
        let mut whole = OperationDispatcher::new();
        std::mem::swap(&mut whole, self);
        proof {
            use_type_invariant(&whole);
        }
        let OperationDispatcher { operations: mut ops, waiting_operations: w } = whole;
        let ghost before = ops@;
        let mut more = operations;
        ops.append(&mut more);
        assert forall|i: int| 0 <= i < w@.len() implies {
            let (t, k) = #[trigger] w@[i];
            &&& k < ops@.len()
            &&& ops@[k as int].result == Ok::<u32, OperationError>(t)
            &&& ops@[k as int].state != State::Pending
        } by {
            let (t, k) = w@[i];
            assert(ops@[k as int] == before[k as int]);
        }
        assert(parts_ok(ops@, w@));
        *self = OperationDispatcher { operations: ops, waiting_operations: w };
    }

    /// The current operation, if any.
    pub fn current(&self) -> (res: Option<&Operation<A>>)
        ensures
            self.ops().len() == 0 ==> res is None,
            self.ops().len() > 0 ==> (res matches Some(op) && *op == self.ops()[0]),
    {
        if self.operations.len() == 0 {
            None
        } else {
            Some(&self.operations[0])
        }
    }

    /// The state of the current operation, if any.
    pub fn get_current_operation_state(&self) -> (res: Option<State>)
        ensures
            self.ops().len() == 0 ==> res is None,
            self.ops().len() > 0 ==> res == Some(self.ops()[0].state),
    {
        if self.operations.len() == 0 {
            None
        } else {
            Some(self.operations[0].state)
        }
    }

    /// The number of operations waiting for a reply.
    pub fn waiting_count(&self) -> (res: usize)
        ensures
            res == self.tokens().len(),
    {
        self.waiting_operations.len()
    }
}

/// Where the entry of `token` is, if any.
fn find_waiting(w: &Vec<(u32, usize)>, token: u32) -> (res: Option<usize>)
    ensures
        match res {
            Some(i) => i < w@.len() && w@[i as int].0 == token,
            None => forall|k: int| 0 <= k < w@.len() ==> (#[trigger] w@[k]).0 != token,
        },
{
    let n = w.len();
    for i in 0..n
        invariant
            n == w@.len(),
            forall|k: int| 0 <= k < i ==> (#[trigger] w@[k]).0 != token,
    {
        if w[i].0 == token {
            return Some(i);
        }
    }
    None
}

/// Removes the entry of `token`, if any.
fn remove_waiting<A>(ops: &Vec<Operation<A>>, w: &mut Vec<(u32, usize)>, token: u32)
    requires
        parts_ok(ops@, old(w)@),
    ensures
        parts_ok(ops@, final(w)@),
        forall|i: int| 0 <= i < final(w)@.len() ==> (#[trigger] final(w)@[i]).0 != token,
        forall|e: (u32, usize)| #[trigger] final(w)@.contains(e) ==> old(w)@.contains(e),
{
    let ghost before = w@;
    match find_waiting(w, token) {
        Some(i) => {
            w.remove(i);
            assert(w@ =~= before.remove(i as int));
            assert forall|e: (u32, usize)| #[trigger] w@.contains(e) implies before.contains(e) by {
                let j = choose|j: int| 0 <= j < w@.len() && w@[j] == e;
                if j < i {
                    assert(before[j] == e);
                } else {
                    assert(before[j + 1] == e);
                }
            }
            assert forall|a: int| 0 <= a < w@.len() implies (#[trigger] w@[a]).0 != token by {
                let a2 = if a < i { a } else { a + 1 };
                assert(w@[a] == before[a2]);
                assert(a2 != i);
            }
            assert forall|a: int, b: int| 0 <= a < b < w@.len() implies #[trigger] w@[a].0 != #[trigger] w@[b].0 by {
                let a2 = if a < i { a } else { a + 1 };
                let b2 = if b < i { b } else { b + 1 };
                assert(w@[a] == before[a2] && w@[b] == before[b2]);
            }
            assert forall|a: int| 0 <= a < w@.len() implies {
                let (t, k) = #[trigger] w@[a];
                &&& k < ops@.len()
                &&& ops@[k as int].result == Ok::<u32, OperationError>(t)
                &&& ops@[k as int].state != State::Pending
            } by {
                let a2 = if a < i { a } else { a + 1 };
                assert(w@[a] == before[a2]);
            }
        },
        None => {},
    }
}

/// Moves every waiting entry down one operation, after the first
/// operation, which no entry names, was removed.
fn shift_down<A>(ops: &Vec<Operation<A>>, w: &mut Vec<(u32, usize)>, removed: Ghost<Operation<A>>)
    requires
        parts_ok(seq![removed@] + ops@, old(w)@),
        forall|i: int| 0 <= i < old(w)@.len() ==> (#[trigger] old(w)@[i]).1 != 0,
    ensures
        parts_ok(ops@, final(w)@),
        waiting_tokens(final(w)@) == waiting_tokens(old(w)@),
{
    let ghost before = w@;
    let ghost full = seq![removed@] + ops@;
    let n = w.len();
    let mut out: Vec<(u32, usize)> = Vec::new();
    for i in 0..n
        invariant
            n == w@.len(),
            w@ == before,
            out@.len() == i,
            forall|k: int| 0 <= k < i ==> (#[trigger] out@[k]).0 == before[k].0 && out@[k].1 + 1 == before[k].1,
            forall|k: int| 0 <= k < n ==> (#[trigger] before[k]).1 != 0,
    {
        let (t, k) = w[i];
        assert(before[i as int].1 != 0);
        out.push((t, k - 1));
    }
    proof {
        assert(waiting_tokens(out@) =~= waiting_tokens(before));
        assert forall|a: int| 0 <= a < out@.len() implies {
            let (t, k) = #[trigger] out@[a];
            &&& k < ops@.len()
            &&& ops@[k as int].result == Ok::<u32, OperationError>(t)
            &&& ops@[k as int].state != State::Pending
        } by {
            let (t, k) = before[a];
            assert(full[k as int] == ops@[k - 1]);
        }
        assert forall|a: int, b: int| 0 <= a < b < out@.len() implies #[trigger] out@[a].0 != #[trigger] out@[b].0 by {
            assert(before[a].0 != before[b].0);
        }
    }
    *w = out;
}

/// What taking the next operation does to the operations `before`: the
/// done ones at the front go; then there is nothing left, or a pending
/// operation to decide on, or a waiting one, which is moved on and acted on.
pub open spec fn next_outcome<A>(before: Seq<Operation<A>>, res: Step, after: Seq<Operation<A>>) -> bool {
    let k = leading_done(before) as int;
    if k >= before.len() {
        res == Step::Empty && after.len() == 0
    } else if before[k].state == State::Pending {
        res == Step::CheckConditions && after == before.skip(k)
    } else {
        res == Step::Current && after == advanced_from(before, k)
    }
}

/// The done operations at the front are at most all of them, and the one
/// after them is not done.
proof fn lemma_leading_done<A>(s: Seq<Operation<A>>)
    ensures
        leading_done(s) <= s.len(),
        leading_done(s) < s.len() ==> s[leading_done(s) as int].state != State::Done,
    decreases s.len(),
{
    if s.len() > 0 && s[0].state == State::Done {
        lemma_leading_done(s.drop_first());
        assert(leading_done(s) < s.len() ==> s[leading_done(s) as int] == s.drop_first()[leading_done(s.drop_first()) as int]);
    }
}

/// Entries kept from a list keep their tokens among its tokens.
proof fn lemma_tokens_kept(w1: Seq<(u32, usize)>, w2: Seq<(u32, usize)>)
    requires
        forall|e: (u32, usize)| #[trigger] w1.contains(e) ==> w2.contains(e),
    ensures
        forall|t: u32| #[trigger] waiting_tokens(w1).contains(t) ==> waiting_tokens(w2).contains(t),
{
    assert forall|t: u32| #[trigger] waiting_tokens(w1).contains(t) implies waiting_tokens(w2).contains(t) by {
        let i = choose|i: int| 0 <= i < waiting_tokens(w1).len() && waiting_tokens(w1)[i] == t;
        assert(w1.contains(w1[i]));
        let j = choose|j: int| 0 <= j < w2.len() && w2[j] == w1[i];
        assert(waiting_tokens(w2)[j] == t);
    }
}

impl<A> OperationDispatcher<A> {
    /// Takes the next operation: the done ones at the front are dropped
    /// (and no longer waited for); a pending one is left for the caller to
    /// decide on; a waiting one is moved on and is the one to act on.
    pub fn next(&mut self) -> (res: Step)
        ensures
            next_outcome(old(self).ops(), res, final(self).ops()),
            forall|t: u32| #[trigger] final(self).tokens().contains(t) ==> old(self).tokens().contains(t),
    {
        let mut whole = OperationDispatcher::new();
        std::mem::swap(&mut whole, self);
        proof {
            use_type_invariant(&whole);
            lemma_leading_done(whole.operations@);
        }
        let OperationDispatcher { operations: mut ops, waiting_operations: mut w } = whole;
        let ghost old_ops = ops@;
        let ghost old_w = w@;
        let ghost mut removed: int = 0;
        assert(old_ops.skip(0) =~= old_ops);
        loop
            invariant
                parts_ok(ops@, w@),
                0 <= removed <= old_ops.len(),
                ops@ == old_ops.skip(removed),
                leading_done(old_ops) == removed + leading_done(ops@),
                old_ops == old(self).ops(),
                old_w == old(self).waiting_operations@,
                forall|t: u32| #[trigger] waiting_tokens(w@).contains(t) ==> waiting_tokens(old_w).contains(t),
            decreases ops@.len(),
        {
            proof {
                lemma_leading_done(ops@);
            }
            if ops.len() == 0 {
                *self = OperationDispatcher { operations: ops, waiting_operations: w };
                return Step::Empty;
            }
            match ops[0].state {
                State::Pending => {
                    *self = OperationDispatcher { operations: ops, waiting_operations: w };
                    return Step::CheckConditions;
                },
                State::Waiting => {
                    let ghost before = ops@;
                    let mut op = ops.remove(0);
                    op.state.next();
                    ops.insert(0, op);
                    proof {
                        assert(ops@ =~= advanced_from(old_ops, removed));
                        assert forall|a: int| 0 <= a < w@.len() implies {
                            let (t, k) = #[trigger] w@[a];
                            &&& k < ops@.len()
                            &&& ops@[k as int].result == Ok::<u32, OperationError>(t)
                            &&& ops@[k as int].state != State::Pending
                        } by {
                            let (t, k) = w@[a];
                            if k != 0 {
                                assert(ops@[k as int] == before[k as int]);
                            }
                        }
                    }
                    *self = OperationDispatcher { operations: ops, waiting_operations: w };
                    return Step::Current;
                },
                State::Done => {
                    let ghost w0 = w@;
                    match ops[0].result {
                        Ok(t) => {
                            remove_waiting(&ops, &mut w, t);
                        },
                        Err(_) => {},
                    }
                    proof {
                        lemma_tokens_kept(w@, w0);
                        assert forall|i: int| 0 <= i < w@.len() implies (#[trigger] w@[i]).1 != 0 by {
                            let (t, k) = w@[i];
                            if k == 0 {
                                assert(ops@[0].result == Ok::<u32, OperationError>(t));
                            }
                        }
                    }
                    let first = ops.remove(0);
                    assert(seq![first] + ops@ =~= old_ops.skip(removed));
                    shift_down(&ops, &mut w, Ghost(first));
                    proof {
                        assert(ops@ =~= old_ops.skip(removed + 1));
                        assert(old_ops.skip(removed).drop_first() =~= old_ops.skip(removed + 1));
                        removed = removed + 1;
                    }
                },
            }
        }
    }
}

/// The operation `op` after triggering it with `outcome`.
pub open spec fn triggered<A>(op: Operation<A>, outcome: TriggerOutcome) -> Operation<A> {
    match outcome {
        TriggerOutcome::NoMessage => Operation { state: State::Done, result: op.result, action: op.action, failure_mode: op.failure_mode },
        TriggerOutcome::Sent(token) => Operation {
            state: next_state(op.state),
            result: Ok(token),
            action: op.action,
            failure_mode: op.failure_mode,
        },
        TriggerOutcome::Failed(status) => Operation {
            state: next_state(op.state),
            result: Err(OperationError { status, failure_mode: op.failure_mode }),
            action: op.action,
            failure_mode: op.failure_mode,
        },
    }
}

impl<A> OperationDispatcher<A> {
    /// Drops the current operation, which is pending, when its conditions
    /// do not apply.
    pub fn skip_current(&mut self)
        requires
            old(self).ops().len() > 0,
            old(self).ops()[0].state == State::Pending,
        ensures
            final(self).ops() == old(self).ops().drop_first(),
            final(self).tokens() == old(self).tokens(),
    {
        let mut whole = OperationDispatcher::new();
        std::mem::swap(&mut whole, self);
        proof {
            use_type_invariant(&whole);
        }
        let OperationDispatcher { operations: mut ops, waiting_operations: mut w } = whole;
        proof {
            assert forall|i: int| 0 <= i < w@.len() implies (#[trigger] w@[i]).1 != 0 by {
                let (t, k) = w@[i];
            }
        }
        let ghost before = ops@;
        let first = ops.remove(0);
        assert(seq![first] + ops@ =~= before);
        shift_down(&ops, &mut w, Ghost(first));
        *self = OperationDispatcher { operations: ops, waiting_operations: w };
    }

    /// Records what triggering the current operation, which is pending,
    /// gave. A sent request leaves it waiting for the reply under its token;
    /// a failure is reported; without a message it is done, and the next
    /// operation is taken.
    pub fn trigger_current(&mut self, outcome: TriggerOutcome) -> (res: Step)
        requires
            old(self).ops().len() > 0,
            old(self).ops()[0].state == State::Pending,
        ensures
            match outcome {
                TriggerOutcome::Sent(token) => res == Step::Current
                    && final(self).ops() == old(self).ops().update(0, triggered(old(self).ops()[0], outcome))
                    && final(self).tokens().contains(token),
                TriggerOutcome::Failed(status) => res == Step::Error(OperationError { status, failure_mode: old(self).ops()[0].failure_mode })
                    && final(self).ops() == old(self).ops().update(0, triggered(old(self).ops()[0], outcome)),
                TriggerOutcome::NoMessage => next_outcome(old(self).ops().update(0, triggered(old(self).ops()[0], outcome)), res, final(self).ops()),
            },
    {
        let mut whole = OperationDispatcher::new();
        std::mem::swap(&mut whole, self);
        proof {
            use_type_invariant(&whole);
        }
        let OperationDispatcher { operations: mut ops, waiting_operations: mut w } = whole;
        let ghost before = ops@;
        let mut op = ops.remove(0);
        let r = op.trigger(outcome);
        ops.insert(0, op);
        assert(ops@ =~= before.update(0, triggered(before[0], outcome)));
        proof {
            assert forall|a: int| 0 <= a < w@.len() implies {
                let (t, k) = #[trigger] w@[a];
                &&& k < ops@.len()
                &&& ops@[k as int].result == Ok::<u32, OperationError>(t)
                &&& ops@[k as int].state != State::Pending
            } by {
                let (t, k) = w@[a];
                assert(k != 0);
                assert(ops@[k as int] == before[k as int]);
            }
        }
        match outcome {
            TriggerOutcome::Sent(token) => {
                insert_waiting(&ops, &mut w, token, 0);
                *self = OperationDispatcher { operations: ops, waiting_operations: w };
                Step::Current
            },
            TriggerOutcome::Failed(status) => {
                *self = OperationDispatcher { operations: ops, waiting_operations: w };
                Step::Error(OperationError { status, failure_mode: ops_failure_mode(&r) })
            },
            TriggerOutcome::NoMessage => {
                *self = OperationDispatcher { operations: ops, waiting_operations: w };
                self.next()
            },
        }
    }

    /// The operation waiting for the reply with `token_id`, moved one step
    /// on; an error (not found, under the default failure mode) when no
    /// operation waits for it.
    pub fn get_waiting_operation(&mut self, token_id: u32) -> (res: Result<&Operation<A>, OperationError>)
        ensures
            old(self).tokens().contains(token_id) ==> (res matches Ok(op) && op.result == Ok::<u32, OperationError>(token_id)
                && op.state == State::Done),
            !old(self).tokens().contains(token_id) ==> res == Err::<&Operation<A>, OperationError>(OperationError { status: GrpcStatus::NotFound, failure_mode: FailureMode::Deny }),
            final(self).tokens() == old(self).tokens(),
            final(self).ops().len() == old(self).ops().len(),
    {
        let mut whole = OperationDispatcher::new();
        std::mem::swap(&mut whole, self);
        proof {
            use_type_invariant(&whole);
        }
        let OperationDispatcher { operations: mut ops, waiting_operations: w } = whole;
        match find_waiting(&w, token_id) {
            Some(i) => {
                let idx = w[i].1;
                assert(waiting_tokens(w@)[i as int] == token_id);
                let ghost before = ops@;
                let mut op = ops.remove(idx);
                op.state.next();
                ops.insert(idx, op);
                proof {
                    assert forall|a: int| 0 <= a < w@.len() implies {
                        let (t, k) = #[trigger] w@[a];
                        &&& k < ops@.len()
                        &&& ops@[k as int].result == Ok::<u32, OperationError>(t)
                        &&& ops@[k as int].state != State::Pending
                    } by {
                        let (t, k) = w@[a];
                        if k != idx {
                            assert(ops@[k as int] == before[k as int]);
                        }
                    }
                }
                *self = OperationDispatcher { operations: ops, waiting_operations: w };
                Ok(&self.operations[idx])
            },
            None => {
                proof {
                    if waiting_tokens(w@).contains(token_id) {
                        let j = choose|j: int| 0 <= j < waiting_tokens(w@).len() && waiting_tokens(w@)[j] == token_id;
                        assert(w@[j].0 == token_id);
                    }
                }
                *self = OperationDispatcher { operations: ops, waiting_operations: w };
                Err(OperationError { status: GrpcStatus::NotFound, failure_mode: FailureMode::default() })
            },
        }
    }
}

fn ops_failure_mode(r: &Result<u32, OperationError>) -> (res: FailureMode)
    requires
        r is Err,
    ensures
        res == r->Err_0.failure_mode,
{
    match r {
        Err(e) => e.failure_mode,
        Ok(_) => FailureMode::Deny,
    }
}

/// Records that the operation at index `idx`, triggered with `token`,
/// waits for its reply; an operation waiting under the same token is no
/// longer found by it.
fn insert_waiting<A>(ops: &Vec<Operation<A>>, w: &mut Vec<(u32, usize)>, token: u32, idx: usize)
    requires
        parts_ok(ops@, old(w)@),
        idx < ops@.len(),
        ops@[idx as int].result == Ok::<u32, OperationError>(token),
        ops@[idx as int].state != State::Pending,
    ensures
        parts_ok(ops@, final(w)@),
        waiting_tokens(final(w)@).contains(token),
{
    let ghost before = w@;
    match find_waiting(w, token) {
        Some(i) => {
            w.set(i, (token, idx));
            proof {
                assert(waiting_tokens(w@)[i as int] == token);
                assert forall|a: int, b: int| 0 <= a < b < w@.len() implies #[trigger] w@[a].0 != #[trigger] w@[b].0 by {
                    assert(w@[a].0 == before[a].0 && w@[b].0 == before[b].0);
                }
            }
        },
        None => {
            w.push((token, idx));
            proof {
                assert(waiting_tokens(w@)[before.len() as int] == token);
                assert forall|a: int, b: int| 0 <= a < b < w@.len() implies #[trigger] w@[a].0 != #[trigger] w@[b].0 by {
                    if b < before.len() {
                        assert(w@[a] == before[a] && w@[b] == before[b]);
                    } else {
                        assert(w@[a] == before[a]);
                    }
                }
                assert forall|a: int| 0 <= a < w@.len() implies {
                    let (t, k) = #[trigger] w@[a];
                    &&& k < ops@.len()
                    &&& ops@[k as int].result == Ok::<u32, OperationError>(t)
                    &&& ops@[k as int].state != State::Pending
                } by {
                    if a < before.len() {
                        assert(w@[a] == before[a]);
                    }
                }
            }
        },
    }
}

} // verus!
