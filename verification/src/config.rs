//! The plugin's configuration model: action sets, their actions (legacy and
//! typed), and the services that the actions call.
use std::collections::HashMap;
use std::time::Duration;
use vstd::prelude::*;

verus! {

/// Data items guarded by a set of predicates.
#[derive(Debug, Clone)]
pub struct ConditionalData {
    pub predicates: Vec<String>,
    pub data: Vec<DataItem>,
}

/// A legacy action: a call of `service` under `scope`.
#[derive(Debug, Clone)]
pub struct Action {
    pub service: String,
    pub scope: String,
    pub predicates: Vec<String>,
    pub conditional_data: Vec<ConditionalData>,
    pub sources: Vec<String>,
}

/// A typed action: an operation run when `predicate` holds.
#[derive(Debug)]
pub struct TypedAction {
    pub predicate: String,
    pub terminal: bool,
    /// Whether the action holds the request back while it waits for its
    /// reply.
    pub is_guard: bool,
    /// The sources the action was configured from.
    pub sources: Vec<String>,
    pub operation: Operation,
}

/// What a typed action does.
#[derive(Debug)]
pub enum Operation {
    Grpc(GrpcOperation),
    Deny(DenyOperation),
    Headers(HeadersOperation),
    Store(StoreOperation),
    Fail(FailOperation),
}

/// Calls a gRPC service and binds its reply to `var`.
#[derive(Debug)]
pub struct GrpcOperation {
    pub var: String,
    pub service: String,
    pub message_builder: String,
    pub on_reply: Vec<TypedAction>,
}

/// Denies the request with the response that `deny_with` builds.
#[derive(Debug, Clone)]
pub struct DenyOperation {
    pub deny_with: String,
}

/// Which headers a headers operation modifies.
#[derive(Debug, Clone, Copy, PartialEq, Eq, Structural)]
pub enum HeadersTarget {
    Request,
    Response,
}

/// Adds the headers that `headers` evaluates to.
#[derive(Debug, Clone)]
pub struct HeadersOperation {
    pub target: HeadersTarget,
    pub headers: String,
}

/// Stores values at paths.
#[derive(Debug, Clone)]
pub struct StoreOperation {
    pub data: Vec<StoreItem>,
}

/// One value to store at a path.
#[derive(Debug, Clone)]
pub struct StoreItem {
    pub path: String,
    pub value: String,
}

/// Fails the request, logging `log_message`.
#[derive(Debug, Clone)]
pub struct FailOperation {
    pub log_message: String,
}

/// An action as configured: typed or legacy.
#[derive(Debug)]
pub enum ActionConfig {
    Typed(TypedAction),
    Legacy(Action),
}

/// The hostnames and predicates that select an action set.
#[derive(Debug, Clone)]
pub struct RouteRuleConditions {
    pub hostnames: Vec<String>,
    pub predicates: Vec<String>,
}

impl Default for RouteRuleConditions {
    fn default() -> (res: Self)
        ensures
            res.hostnames@.len() == 0,
            res.predicates@.len() == 0,
    {
        RouteRuleConditions { hostnames: Vec::new(), predicates: Vec::new() }
    }
}

/// A named set of actions with the conditions that select it.
#[derive(Debug)]
pub struct ActionSet {
    pub name: String,
    pub route_rule_conditions: RouteRuleConditions,
    pub actions: Vec<ActionConfig>,
}

impl Default for ActionSet {
    fn default() -> (res: Self)
        ensures
            res.name@.len() == 0,
            res.route_rule_conditions.hostnames@.len() == 0,
            res.route_rule_conditions.predicates@.len() == 0,
            res.actions@.len() == 0,
    {
        ActionSet {
            name: String::new(),
            route_rule_conditions: RouteRuleConditions::default(),
            actions: Vec::new(),
        }
    }
}

/// A data item whose value is a CEL expression.
#[derive(Debug, Clone)]
pub struct ExpressionItem {
    pub key: String,
    pub value: String,
}

/// A data item whose value is a fixed string.
#[derive(Debug, Clone)]
pub struct StaticItem {
    pub value: String,
    pub key: String,
}

/// A data item is either static or an expression, never both.
#[derive(Debug, Clone)]
pub enum DataType {
    Static(StaticItem),
    Expression(ExpressionItem),
}

/// One data item of a conditional data block.
#[derive(Debug, Clone)]
pub struct DataItem {
    pub item: DataType,
}

/// What to do with a request when a service fails irrecoverably.
#[derive(Debug, Clone, Copy, PartialEq, Eq, Structural)]
pub enum FailureMode {
    Deny,
    Allow,
}

impl Default for FailureMode {
    fn default() -> (res: Self)
        ensures
            res == FailureMode::Deny,
    {
        FailureMode::Deny
    }
}

/// The kinds of service that actions call.
#[derive(Debug, Clone, Copy, PartialEq, Eq, Structural)]
pub enum ServiceType {
    Auth,
    RateLimit,
    RateLimitCheck,
    RateLimitReport,
    Tracing,
    Dynamic,
}

impl Default for ServiceType {
    fn default() -> (res: Self)
        ensures
            res == ServiceType::RateLimit,
    {
        ServiceType::RateLimit
    }
}

/// Logging and tracing settings.
#[derive(Debug, Clone)]
pub struct Observability {
    pub http_header_identifier: Option<String>,
    pub default_level: Option<String>,
    pub tracing: Option<Tracing>,
}

impl Default for Observability {
    fn default() -> (res: Self)
        ensures
            res.http_header_identifier is None,
            res.default_level is None,
            res.tracing is None,
    {
        Observability { http_header_identifier: None, default_level: None, tracing: None }
    }
}

/// The service that traces are exported to.
#[derive(Debug, Clone)]
pub struct Tracing {
    pub service: String,
}

/// The whole plugin configuration.
#[derive(Debug)]
pub struct PluginConfiguration {
    pub request_data: HashMap<String, String>,
    pub services: HashMap<String, Service>,
    pub action_sets: Vec<ActionSet>,
    pub observability: Observability,
    pub descriptor_service: String,
}

/// The descriptor service used when the configuration names none.
pub fn default_descriptor_service() -> (res: String)
    ensures
        res@ == "kuadrant-operator-grpc"@,
{
    String::from_str("kuadrant-operator-grpc")
}

/// A service that actions call.
#[derive(Debug, Clone)]
pub struct Service {
    pub service_type: ServiceType,
    pub endpoint: String,
    pub failure_mode: FailureMode,
    pub timeout: Timeout,
    pub grpc_service: Option<String>,
    pub grpc_method: Option<String>,
}

/// How long a call to a service may take.
#[derive(Debug, Clone)]
pub struct Timeout(pub Duration);

/// `Duration` is `Copy`: its clone is the value itself.
pub assume_specification[ <Duration as Clone>::clone ](d: &Duration) -> (res: Duration)
    ensures
        res == *d,
;

/// The duration of `millis` milliseconds.
pub uninterp spec fn millis_duration(millis: u64) -> Duration;

/// `Duration::from_millis`: trusted to give the duration of `millis`
/// milliseconds, whose value is named and not stated further.
#[verifier::external_body]
fn duration_from_millis(millis: u64) -> (res: Duration)
    ensures
        res == millis_duration(millis),
{
    Duration::from_millis(millis)
}

impl Default for Timeout {
    /// Twenty milliseconds.
    fn default() -> (res: Self)
        ensures
            res.0 == millis_duration(20),
    {
        Timeout(duration_from_millis(20))
    }
}

} // verus!
