//! Which tasks, and which teardown actions, a request's compiled actions
//! become, in order: the plan behind building a request's pipeline.
use crate::config::{FailureMode, HeadersTarget, Operation, StoreItem, TypedAction};
use crate::text::{owned, owned_all, views};
use vstd::prelude::*;

verus! {

/// The kind of service a gRPC action calls.
#[derive(Debug, Clone, Copy, PartialEq, Eq, Structural)]
pub enum ServiceKind {
    /// The tracing service: `exports` when spans are sent to it.
    Tracing { exports: bool },
    Dynamic,
    Auth,
    RateLimit,
    RateLimitCheck,
    RateLimitReport,
}

/// What a compiled action is, as far as its tasks go.
#[derive(Debug, Clone, Copy, PartialEq, Eq, Structural)]
pub enum PlannedAction {
    /// A gRPC call of a service of that kind, with the service's failure
    /// mode, and whether the action reads fields of the response body.
    Grpc { service: ServiceKind, failure_mode: FailureMode, reads_response_body: bool },
    Deny,
    Headers,
    Store,
    Fail,
}

/// A task of the plan.
#[derive(Debug, Clone, Copy, PartialEq, Eq, Structural)]
pub enum PlannedTask {
    /// Add the tracker header (the action's variable and the request id) to
    /// the response headers.
    TrackerHeader,
    /// Read the token usage out of the response body.
    TokenUsage,
    /// Make the call; a failure fails the request when `abort_on_failure`;
    /// the call is traced when `traced`.
    Call { abort_on_failure: bool, traced: bool },
    /// Answer the request with a reply when the action's predicate holds.
    Reply,
    /// Modify headers when the action's predicate holds.
    ModifyHeaders,
    /// Store a value when the action's predicate holds.
    Store,
}

/// Whether some action calls a tracing service that exports spans: then
/// every call is traced.
pub open spec fn tracing_enabled(actions: Seq<PlannedAction>) -> bool {
    exists|i: int| 0 <= i < actions.len() && (#[trigger] actions[i]) matches PlannedAction::Grpc { service: ServiceKind::Tracing { exports: true }, .. }
}

/// The tasks of action `i`: the tracker header for the tracing service;
/// for another service the token usage task where the action reads the
/// response body, then the call; a reply, a header change or a store for
/// the other kinds; nothing for a top-level failure, which is not
/// supported.
pub open spec fn action_tasks(i: usize, a: PlannedAction, traced: bool) -> Seq<(usize, PlannedTask)> {
    match a {
        PlannedAction::Grpc { service: ServiceKind::Tracing { .. }, .. } => seq![(i, PlannedTask::TrackerHeader)],
        PlannedAction::Grpc { failure_mode, reads_response_body, .. } => {
            let call = seq![(i, PlannedTask::Call { abort_on_failure: failure_mode == FailureMode::Deny, traced })];
            if reads_response_body { seq![(i, PlannedTask::TokenUsage)] + call } else { call }
        },
        PlannedAction::Deny => seq![(i, PlannedTask::Reply)],
        PlannedAction::Headers => seq![(i, PlannedTask::ModifyHeaders)],
        PlannedAction::Store => seq![(i, PlannedTask::Store)],
        PlannedAction::Fail => seq![],
    }
}

/// The tasks of the first `n` actions, in order.
pub open spec fn planned_tasks(actions: Seq<PlannedAction>, n: int, traced: bool) -> Seq<(usize, PlannedTask)>
    decreases n,
{
    if n <= 0 {
        seq![]
    } else {
        planned_tasks(actions, n - 1, traced) + action_tasks((n - 1) as usize, actions[n - 1], traced)
    }
}

/// The actions of the first `n` actions whose spans go to a tracing
/// service, in order: each exports the traces when the pipeline winds down.
pub open spec fn planned_teardown(actions: Seq<PlannedAction>, n: int) -> Seq<usize>
    decreases n,
{
    if n <= 0 {
        seq![]
    } else {
        let init = planned_teardown(actions, n - 1);
        if actions[n - 1] matches PlannedAction::Grpc { service: ServiceKind::Tracing { exports: true }, .. } {
            init.push((n - 1) as usize)
        } else {
            init
        }
    }
}

/// The plan of a request's actions: the tasks, each with the index of its
/// action, and the actions whose traces are exported at teardown.
pub fn plan_tasks(actions: &Vec<PlannedAction>) -> (res: (Vec<(usize, PlannedTask)>, Vec<usize>))
    ensures
        res.0@ == planned_tasks(actions@, actions@.len() as int, tracing_enabled(actions@)),
        res.1@ == planned_teardown(actions@, actions@.len() as int),
{
    let n = actions.len();
    let mut traced = false;
    for i in 0..n
        invariant
            n == actions@.len(),
            traced == exists|j: int| 0 <= j < i && (#[trigger] actions@[j]) matches PlannedAction::Grpc { service: ServiceKind::Tracing { exports: true }, .. },
    {
        if let PlannedAction::Grpc { service: ServiceKind::Tracing { exports: true }, .. } = actions[i] {
            traced = true;
        }
    }
    let mut tasks: Vec<(usize, PlannedTask)> = Vec::new();
    let mut teardown: Vec<usize> = Vec::new();
    for i in 0..n
        invariant
            n == actions@.len(),
            traced == tracing_enabled(actions@),
            tasks@ == planned_tasks(actions@, i as int, traced),
            teardown@ == planned_teardown(actions@, i as int),
    {
        let ghost before = tasks@;
        match actions[i] {
            PlannedAction::Grpc { service: ServiceKind::Tracing { exports }, .. } => {
                tasks.push((i, PlannedTask::TrackerHeader));
                if exports {
                    teardown.push(i);
                }
            },
            PlannedAction::Grpc { failure_mode, reads_response_body, .. } => {
                if reads_response_body {
                    tasks.push((i, PlannedTask::TokenUsage));
                }
                let abort_on_failure = match failure_mode {
                    FailureMode::Deny => true,
                    FailureMode::Allow => false,
                };
                tasks.push((i, PlannedTask::Call { abort_on_failure, traced }));
            },
            PlannedAction::Deny => tasks.push((i, PlannedTask::Reply)),
            PlannedAction::Headers => tasks.push((i, PlannedTask::ModifyHeaders)),
            PlannedAction::Store => tasks.push((i, PlannedTask::Store)),
            PlannedAction::Fail => {},
        }
        assert(tasks@ =~= before + action_tasks(i, actions@[i as int], traced));
    }
    (tasks, teardown)
}

/// The id of the `i`th action of a set, and the ids it depends on: each
/// action waits for the one before it.
pub fn action_id_and_dependencies(i: usize) -> (res: (String, Vec<String>))
    ensures
        res.0@ == crate::attribute::decimal(i as nat),
        i == 0 ==> res.1@.len() == 0,
        i > 0 ==> res.1@.len() == 1 && res.1@[0]@ == crate::attribute::decimal((i - 1) as nat),
{
    let id = crate::attribute::to_decimal(i as u64);
    let mut deps: Vec<String> = Vec::new();
    if i > 0 {
        deps.push(crate::attribute::to_decimal((i - 1) as u64));
    }
    (id, deps)
}

/// The id of the `idx`th action run on the reply of action `id`, and the
/// ids it depends on: `id.idx`, after `id.(idx - 1)`.
pub fn reply_action_id_and_dependencies(id: &str, idx: usize) -> (res: (String, Vec<String>))
    ensures
        res.0@ == id@ + "."@ + crate::attribute::decimal(idx as nat),
        idx == 0 ==> res.1@.len() == 0,
        idx > 0 ==> res.1@.len() == 1 && res.1@[0]@ == id@ + "."@ + crate::attribute::decimal((idx - 1) as nat),
{
    let mut reply_id = owned(id);
    reply_id.push_str(".");
    reply_id.push_str(crate::attribute::to_decimal(idx as u64).as_str());
    let mut deps: Vec<String> = Vec::new();
    if idx > 0 {
        let mut dep = owned(id);
        dep.push_str(".");
        dep.push_str(crate::attribute::to_decimal((idx - 1) as u64).as_str());
        deps.push(dep);
    }
    (reply_id, deps)
}

/// Whether a gRPC action may call a service of this kind: any but the
/// tracing service.
pub fn callable_service(kind: ServiceKind) -> (res: bool)
    ensures
        res == !(kind is Tracing),
{
    match kind {
        ServiceKind::Tracing { .. } => false,
        _ => true,
    }
}


/// Why a request's actions could not be compiled.
#[derive(Debug)]
pub enum CompileError {
    /// A route predicate of this action set does not parse.
    InvalidRoutePredicate { action_set: String, error: String },
    /// The predicate of an action of this service does not parse.
    InvalidActionPredicate { service: String, error: String },
    /// A data expression does not parse.
    InvalidDataExpression(String),
    /// No service has this name.
    UnknownService(String),
    /// The service cannot be used so.
    ServiceCreationFailed(String),
}

/// The message of a compile error.
pub open spec fn compile_error_text(e: CompileError) -> Seq<char> {
    match e {
        CompileError::InvalidRoutePredicate { action_set, error } => "Invalid route predicate on "@ + action_set@ + ": "@ + error@,
        CompileError::InvalidActionPredicate { service, error } => "Invalid action predicate on "@ + service@ + ": "@ + error@,
        CompileError::InvalidDataExpression(m) => "Invalid data expression: "@ + m@,
        CompileError::UnknownService(s) => "Unknown service: "@ + s@,
        CompileError::ServiceCreationFailed(s) => "Service creation failed: "@ + s@,
    }
}

impl CompileError {
    /// The error's message.
    pub fn message(&self) -> (res: String)
        ensures
            res@ == compile_error_text(*self),
    {
        let (head, a, tail) = match self {
            CompileError::InvalidRoutePredicate { action_set, error } => ("Invalid route predicate on ", action_set, Some(error)),
            CompileError::InvalidActionPredicate { service, error } => ("Invalid action predicate on ", service, Some(error)),
            CompileError::InvalidDataExpression(m) => ("Invalid data expression: ", m, None),
            CompileError::UnknownService(s) => ("Unknown service: ", s, None),
            CompileError::ServiceCreationFailed(s) => ("Service creation failed: ", s, None),
        };
        let mut r = owned(head);
        r.push_str(a.as_str());
        match tail {
            Some(e) => {
                r.push_str(": ");
                r.push_str(e.as_str());
            },
            None => {},
        }
        r
    }
}

/// The owner named in the error of an action predicate that does not
/// parse: the called service for a gRPC action, else the operation's kind.
pub fn predicate_owner(op: &crate::config::Operation) -> (res: String)
    ensures
        res@ == owner_of(*op),
{
    match op {
        crate::config::Operation::Grpc(g) => owned(g.service.as_str()),
        crate::config::Operation::Deny(_) => owned("deny"),
        crate::config::Operation::Headers(_) => owned("headers"),
        crate::config::Operation::Store(_) => owned("store"),
        crate::config::Operation::Fail(_) => owned("fail"),
    }
}

/// How a legacy action is read, by the kind of service it calls.
#[derive(Debug, Clone, Copy, PartialEq, Eq, Structural)]
pub enum LegacyTranslation {
    Auth,
    RateLimit,
    Report,
}

/// The translation of a legacy action calling a service of this kind:
/// auth, rate limit (the rate limit check service too) or report; none for the other
/// kinds, which legacy actions cannot call.
pub fn legacy_translation(kind: ServiceKind) -> (res: Option<LegacyTranslation>)
    ensures
        res == match kind {
            ServiceKind::Auth => Some(LegacyTranslation::Auth),
            ServiceKind::RateLimit | ServiceKind::RateLimitCheck => Some(LegacyTranslation::RateLimit),
            ServiceKind::RateLimitReport => Some(LegacyTranslation::Report),
            _ => None,
        },
{
    match kind {
        ServiceKind::Auth => Some(LegacyTranslation::Auth),
        ServiceKind::RateLimit | ServiceKind::RateLimitCheck => Some(LegacyTranslation::RateLimit),
        ServiceKind::RateLimitReport => Some(LegacyTranslation::Report),
        _ => None,
    }
}


/// A typed action once compiled: its id, the ids it waits for, whether it
/// ends the request, its predicate's source, and what it does. Predicates
/// and expressions are kept as CEL source, for the CEL engine to compile.
#[derive(Debug)]
pub struct CompiledAction {
    pub id: String,
    pub predicate: String,
    pub terminal: bool,
    /// Whether the action holds the request back while it waits.
    pub is_guard: bool,
    pub dependencies: Vec<String>,
    /// The sources the action was configured from.
    pub sources: Vec<String>,
    pub operation: CompiledOperation,
}

/// What a compiled action does.
#[derive(Debug)]
pub enum CompiledOperation {
    /// Calls the named service, of that kind, with the message that
    /// `message_builder` builds, binds the reply to `var`, and then runs
    /// `on_reply`.
    Grpc {
        service: String,
        kind: ServiceKind,
        var: String,
        message_builder: String,
        on_reply: Vec<CompiledAction>,
    },
    Deny { deny_with: String },
    Headers { target: HeadersTarget, headers: String },
    Store { data: Vec<StoreItem> },
    Fail { log_message: String },
}

/// The kind of the first service named `name`.
pub open spec fn service_named(services: Seq<(String, ServiceKind)>, name: Seq<char>) -> Option<ServiceKind>
    decreases services.len(),
{
    if services.len() == 0 {
        None
    } else if services[0].0@ == name {
        Some(services[0].1)
    } else {
        service_named(services.drop_first(), name)
    }
}

/// The id of the `k`th action run on the reply of action `id`.
pub open spec fn reply_id(id: Seq<char>, k: int) -> Seq<char> {
    id + "."@ + crate::attribute::decimal(k as nat)
}

/// The ids the `k`th action run on the reply of action `id` waits for: the
/// one before it.
pub open spec fn reply_deps(id: Seq<char>, k: int) -> Seq<Seq<char>> {
    if k == 0 {
        Seq::empty()
    } else {
        seq![reply_id(id, k - 1)]
    }
}

/// Why compiling an action fails, as far as this library sees: a called
/// service that is not known, or one that cannot be called; by its name.
/// Predicates and expressions are parsed by the CEL engine, outside it.
pub enum CompileFailure {
    Unknown(Seq<char>),
    NotCallable(Seq<char>),
}

/// The owner named in the error of an action predicate that does not
/// parse: the called service for a gRPC action, else the operation's kind.
pub open spec fn owner_of(op: Operation) -> Seq<char> {
    match op {
        Operation::Grpc(g) => g.service@,
        Operation::Deny(_) => "deny"@,
        Operation::Headers(_) => "headers"@,
        Operation::Store(_) => "store"@,
        Operation::Fail(_) => "fail"@,
    }
}

/// How many actions run on the reply of `a`.
pub open spec fn reply_count(a: TypedAction) -> int {
    match a.operation {
        Operation::Grpc(g) => g.on_reply@.len() as int,
        _ => 0,
    }
}

/// The first failure met compiling `a`, from the `k`th action run on its
/// reply on: its own service is looked up and checked first (at `k == 0`),
/// then the actions run on its reply, in order.
pub open spec fn failure_from(a: TypedAction, services: Seq<(String, ServiceKind)>, k: nat) -> Option<CompileFailure>
    decreases a, reply_count(a) - k,
{
    match a.operation {
        Operation::Grpc(g) => {
            proof {
                assert forall|i: int| 0 <= i < g.on_reply@.len() implies decreases_to!(a => g.on_reply@[i]) by {
                    lemma_reply_decreases(a, g, i);
                }
            }
            if k == 0 && service_named(services, g.service@) is None {
                Some(CompileFailure::Unknown(g.service@))
            } else if k == 0 && (service_named(services, g.service@) matches Some(kind) && kind is Tracing) {
                Some(CompileFailure::NotCallable(g.service@))
            } else if k < g.on_reply@.len() {
                match failure_from(g.on_reply@[k as int], services, 0) {
                    Some(f) => Some(f),
                    None => failure_from(a, services, k + 1),
                }
            } else {
                None
            }
        },
        _ => None,
    }
}

/// The first failure met compiling `a`, if any.
pub open spec fn compile_failure(a: TypedAction, services: Seq<(String, ServiceKind)>) -> Option<CompileFailure> {
    failure_from(a, services, 0)
}

/// Whether `e` is the error of failure `f`.
pub open spec fn is_error_of(e: CompileError, f: CompileFailure) -> bool {
    match f {
        CompileFailure::Unknown(name) => e matches CompileError::UnknownService(s) && s@ == name,
        CompileFailure::NotCallable(name) => e matches CompileError::ServiceCreationFailed(m) && m@ == "Service '"@
            + name + "' cannot be used with gRPC action"@,
    }
}

/// Whether `c` is `a` compiled under `id`, waiting for `deps`: the same
/// predicate, terminal flag, guard flag, sources and operation, the called service's kind
/// looked up, and the `k`th action run on the reply compiled under
/// `reply_id(id, k)`, waiting for `reply_deps(id, k)`.
pub open spec fn compiles_to(
    a: TypedAction,
    services: Seq<(String, ServiceKind)>,
    id: Seq<char>,
    deps: Seq<Seq<char>>,
    c: CompiledAction,
) -> bool
    decreases a,
{
    &&& c.id@ == id
    &&& views(c.dependencies@) == deps
    &&& c.terminal == a.terminal
    &&& c.is_guard == a.is_guard
    &&& views(c.sources@) == views(a.sources@)
    &&& c.predicate@ == a.predicate@
    &&& match a.operation {
        Operation::Grpc(g) => c.operation matches CompiledOperation::Grpc { service, kind, var, message_builder, on_reply }
            && service@ == g.service@ && service_named(services, g.service@) == Some(kind) && var@ == g.var@
            && message_builder@ == g.message_builder@ && on_reply@.len() == g.on_reply@.len() && forall|k: int|
            0 <= k < g.on_reply@.len() ==> compiles_to(
                #[trigger] g.on_reply@[k],
                services,
                reply_id(id, k),
                reply_deps(id, k),
                on_reply@[k],
            ),
        Operation::Deny(d) => c.operation matches CompiledOperation::Deny { deny_with } && deny_with@ == d.deny_with@,
        Operation::Headers(h) => c.operation matches CompiledOperation::Headers { target, headers } && target
            == h.target && headers@ == h.headers@,
        Operation::Store(st) => c.operation matches CompiledOperation::Store { data } && data@.len() == st.data@.len()
            && forall|k: int| 0 <= k < st.data@.len() ==> (#[trigger] data@[k]).path@ == st.data@[k].path@
                && data@[k].value@ == st.data@[k].value@,
        Operation::Fail(f) => c.operation matches CompiledOperation::Fail { log_message } && log_message@
            == f.log_message@,
    }
}

/// The kind of the first service named `name`, if any.
fn find_service(services: &Vec<(String, ServiceKind)>, name: &String) -> (res: Option<ServiceKind>)
    ensures
        res == service_named(services@, name@),
{
    let n = services.len();
    let mut i: usize = 0;
    assert(services@.skip(0) =~= services@);
    while i < n
        invariant
            n == services@.len(),
            i <= n,
            service_named(services@, name@) == service_named(services@.skip(i as int), name@),
        decreases n - i,
    {
        let ghost rest = services@.skip(i as int);
        assert(rest[0] == services@[i as int]);
        assert(rest.drop_first() =~= services@.skip(i + 1));
        if services[i].0 == *name {
            return Some(services[i].1);
        }
        i += 1;
    }
    assert(services@.skip(n as int).len() == 0);
    None
}

/// An action run on the reply of a gRPC action is smaller than it.
pub proof fn lemma_reply_decreases(a: TypedAction, g: crate::config::GrpcOperation, k: int)
    requires
        a.operation == Operation::Grpc(g),
        0 <= k < g.on_reply@.len(),
    ensures
        decreases_to!(a => g.on_reply@[k]),
{
    match a.operation {
        Operation::Grpc(h) => {
            assert(decreases_to!(a => h.on_reply@[k]));
        },
        _ => {},
    }
}

/// Compiles a typed action under `id`, waiting for `dependencies`: a gRPC
/// action fails when its service is not among `services` or cannot be
/// called (the tracing service), and otherwise compiles the actions run on
/// its reply, the `k`th under `id.k`, waiting for `id.(k-1)`; the first
/// failure, in that order, is the error.
pub fn compile_action(
    typed: &TypedAction,
    services: &Vec<(String, ServiceKind)>,
    id: String,
    dependencies: Vec<String>,
) -> (res: Result<CompiledAction, CompileError>)
    ensures
        res is Ok <==> compile_failure(*typed, services@) is None,
        res matches Ok(c) ==> compiles_to(*typed, services@, id@, views(dependencies@), c),
        res matches Err(e) ==> (compile_failure(*typed, services@) matches Some(f) && is_error_of(e, f)),
    decreases typed,
{
    let operation = match &typed.operation {
        Operation::Grpc(g) => {
            let kind = match find_service(services, &g.service) {
                None => {
                    return Err(CompileError::UnknownService(owned(g.service.as_str())));
                },
                Some(kind) => kind,
            };
            if !callable_service(kind) {
                let mut m = owned("Service '");
                m.push_str(g.service.as_str());
                m.push_str("' cannot be used with gRPC action");
                return Err(CompileError::ServiceCreationFailed(m));
            }
            let n = g.on_reply.len();
            let mut on_reply: Vec<CompiledAction> = Vec::new();
            for k in 0..n
                invariant
                    n == g.on_reply@.len(),
                    typed.operation == Operation::Grpc(*g),
                    on_reply@.len() == k,
                    compile_failure(*typed, services@) == failure_from(*typed, services@, k as nat),
                    service_named(services@, g.service@) == Some(kind),
                    !(kind is Tracing),
                    forall|j: int|
                        0 <= j < k ==> compiles_to(
                            #[trigger] g.on_reply@[j],
                            services@,
                            reply_id(id@, j),
                            reply_deps(id@, j),
                            on_reply@[j],
                        ),
            {
                let (rid, rdeps) = reply_action_id_and_dependencies(id.as_str(), k);
                proof {
                    lemma_reply_decreases(*typed, *g, k as int);
                    assert(views(rdeps@) =~= reply_deps(id@, k as int));
                }
                proof {
                    assert(failure_from(*typed, services@, k as nat) == match failure_from(g.on_reply@[k as int], services@, 0) {
                        Some(f) => Some(f),
                        None => failure_from(*typed, services@, (k + 1) as nat),
                    });
                }
                match compile_action(&g.on_reply[k], services, rid, rdeps) {
                    Ok(c) => on_reply.push(c),
                    Err(e) => {
                        return Err(e);
                    },
                }
            }
            CompiledOperation::Grpc {
                service: owned(g.service.as_str()),
                kind,
                var: owned(g.var.as_str()),
                message_builder: owned(g.message_builder.as_str()),
                on_reply,
            }
        },
        Operation::Deny(d) => CompiledOperation::Deny { deny_with: owned(d.deny_with.as_str()) },
        Operation::Headers(h) => CompiledOperation::Headers { target: h.target, headers: owned(h.headers.as_str()) },
        Operation::Store(st) => {
            let n = st.data.len();
            let mut data: Vec<StoreItem> = Vec::new();
            for k in 0..n
                invariant
                    n == st.data@.len(),
                    data@.len() == k,
                    forall|j: int|
                        0 <= j < k ==> (#[trigger] data@[j]).path@ == st.data@[j].path@ && data@[j].value@
                            == st.data@[j].value@,
            {
                data.push(StoreItem { path: owned(st.data[k].path.as_str()), value: owned(st.data[k].value.as_str()) });
            }
            CompiledOperation::Store { data }
        },
        Operation::Fail(f) => CompiledOperation::Fail { log_message: owned(f.log_message.as_str()) },
    };
    Ok(CompiledAction {
        id,
        predicate: owned(typed.predicate.as_str()),
        terminal: typed.terminal,
        is_guard: typed.is_guard,
        dependencies,
        sources: owned_all(&typed.sources),
        operation,
    })
}

/// What a compiled action is for the plan: a call of a service of its
/// kind, with the service's failure mode and whether the action reads
/// fields of the response body; or the kind of its operation.
pub fn planned_action(c: &CompiledAction, failure_mode: FailureMode, reads_response_body: bool) -> (res: PlannedAction)
    ensures
        res == match c.operation {
            CompiledOperation::Grpc { kind, .. } => PlannedAction::Grpc { service: kind, failure_mode, reads_response_body },
            CompiledOperation::Deny { .. } => PlannedAction::Deny,
            CompiledOperation::Headers { .. } => PlannedAction::Headers,
            CompiledOperation::Store { .. } => PlannedAction::Store,
            CompiledOperation::Fail { .. } => PlannedAction::Fail,
        },
{
    match &c.operation {
        CompiledOperation::Grpc { kind, .. } => PlannedAction::Grpc { service: *kind, failure_mode, reads_response_body },
        CompiledOperation::Deny { .. } => PlannedAction::Deny,
        CompiledOperation::Headers { .. } => PlannedAction::Headers,
        CompiledOperation::Store { .. } => PlannedAction::Store,
        CompiledOperation::Fail { .. } => PlannedAction::Fail,
    }
}

} // verus!
