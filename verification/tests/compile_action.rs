use wasm_shim::config::{
    DenyOperation, FailOperation, GrpcOperation, HeadersOperation, HeadersTarget, Operation, StoreItem,
    StoreOperation, TypedAction,
};
use wasm_shim::config::FailureMode;
use wasm_shim::task_plan::{compile_action, planned_action, CompileError, CompiledOperation, PlannedAction, ServiceKind};

fn deny(predicate: &str) -> TypedAction {
    TypedAction {
        predicate: predicate.to_string(),
        terminal: true,
        is_guard: false,
        sources: vec![],
        operation: Operation::Deny(DenyOperation { deny_with: "{}".to_string() }),
    }
}

fn grpc(service: &str, on_reply: Vec<TypedAction>) -> TypedAction {
    TypedAction {
        predicate: "true".to_string(),
        terminal: false,
        is_guard: true,
        sources: vec!["src-a".to_string()],
        operation: Operation::Grpc(GrpcOperation {
            var: "auth".to_string(),
            service: service.to_string(),
            message_builder: "{}".to_string(),
            on_reply,
        }),
    }
}

fn services() -> Vec<(String, ServiceKind)> {
    vec![
        ("authz".to_string(), ServiceKind::Auth),
        ("tracer".to_string(), ServiceKind::Tracing { exports: true }),
    ]
}

#[test]
fn compiled_reply_actions_are_chained_under_the_action_id() {
    let action = grpc("authz", vec![deny("a"), deny("b")]);
    let compiled = compile_action(&action, &services(), "3".to_string(), vec!["2".to_string()])
        .expect("the service is known");
    assert_eq!(compiled.id, "3");
    assert_eq!(compiled.dependencies, vec!["2".to_string()]);
    assert!(!compiled.terminal);
    assert!(compiled.is_guard);
    assert_eq!(compiled.sources, vec!["src-a".to_string()]);
    match compiled.operation {
        CompiledOperation::Grpc { service, kind, on_reply, .. } => {
            assert_eq!(service, "authz");
            assert_eq!(kind, ServiceKind::Auth);
            assert_eq!(on_reply.len(), 2);
            assert_eq!(on_reply[0].id, "3.0");
            assert!(on_reply[0].dependencies.is_empty());
            assert_eq!(on_reply[0].predicate, "a");
            assert!(on_reply[0].terminal);
            assert_eq!(on_reply[1].id, "3.1");
            assert_eq!(on_reply[1].dependencies, vec!["3.0".to_string()]);
        }
        _ => panic!("a gRPC action compiles to a call"),
    }
}

#[test]
fn compiling_an_unknown_service_fails() {
    let action = grpc("missing", vec![]);
    match compile_action(&action, &services(), "0".to_string(), vec![]) {
        Err(CompileError::UnknownService(s)) => assert_eq!(s, "missing"),
        _ => panic!("the service is unknown"),
    }
}

#[test]
fn compiling_a_call_of_the_tracing_service_fails() {
    let action = grpc("tracer", vec![]);
    match compile_action(&action, &services(), "0".to_string(), vec![]) {
        Err(CompileError::ServiceCreationFailed(m)) => {
            assert_eq!(m, "Service 'tracer' cannot be used with gRPC action")
        }
        _ => panic!("the tracing service cannot be called"),
    }
}

#[test]
fn a_failing_reply_action_fails_the_action() {
    let action = grpc("authz", vec![deny("a"), grpc("nowhere", vec![]), grpc("tracer", vec![])]);
    match compile_action(&action, &services(), "0".to_string(), vec![]) {
        Err(CompileError::UnknownService(s)) => assert_eq!(s, "nowhere"),
        _ => panic!("the first failing reply action decides"),
    }
}

#[test]
fn non_grpc_actions_always_compile() {
    let compiled = compile_action(&deny("x"), &vec![], "7".to_string(), vec![]).expect("nothing to look up");
    assert_eq!(compiled.id, "7");
    match compiled.operation {
        CompiledOperation::Deny { deny_with } => assert_eq!(deny_with, "{}"),
        _ => panic!("a deny action compiles to a deny"),
    }
}

fn typed(predicate: &str, terminal: bool, is_guard: bool, operation: Operation) -> TypedAction {
    TypedAction { predicate: predicate.to_string(), terminal, is_guard, sources: vec![], operation }
}

fn grpc_op(var: &str, service: &str, message_builder: &str, on_reply: Vec<TypedAction>) -> Operation {
    Operation::Grpc(GrpcOperation {
        var: var.to_string(),
        service: service.to_string(),
        message_builder: message_builder.to_string(),
        on_reply,
    })
}

fn deny_op(deny_with: &str) -> Operation {
    Operation::Deny(DenyOperation { deny_with: deny_with.to_string() })
}

fn fail_op(log_message: &str) -> Operation {
    Operation::Fail(FailOperation { log_message: log_message.to_string() })
}

#[test]
fn grpc_typed_action_compiles() {
    let services = vec![("my-dynamic".to_string(), ServiceKind::Dynamic)];
    let action = typed(
        "request.method == 'GET'",
        false,
        true,
        grpc_op(
            "rl_check",
            "my-dynamic",
            "envoy.service.ratelimit.v3.RateLimitRequest{}",
            vec![
                typed("rl_check.overall_code == 2", true, false, deny_op("DenyResponse{status: 429u}")),
                typed("rl_check.overall_code == 0", true, false, fail_op("Received UNKNOWN from rate limiting service")),
                typed(
                    "rl_check.overall_code != 1 && rl_check.overall_code != 2",
                    true,
                    false,
                    fail_op("Received invalid response code from rate limiting service"),
                ),
                typed(
                    "true",
                    false,
                    false,
                    Operation::Headers(HeadersOperation {
                        target: HeadersTarget::Request,
                        headers: "result.headers".to_string(),
                    }),
                ),
                typed(
                    "true",
                    false,
                    false,
                    Operation::Store(StoreOperation {
                        data: vec![StoreItem { path: "rl.remaining".to_string(), value: "result.remaining".to_string() }],
                    }),
                ),
            ],
        ),
    );
    let result = compile_action(&action, &services, "0".to_string(), vec![]);
    assert!(result.is_ok());
    let action = result.unwrap();
    assert_eq!(action.id, "0");
    assert!(action.is_guard);
    assert!(!action.terminal);
    assert!(matches!(action.operation, CompiledOperation::Grpc { .. }));
    if let CompiledOperation::Grpc { ref kind, ref var, ref on_reply, .. } = action.operation {
        assert_eq!(var, "rl_check");
        assert!(matches!(kind, ServiceKind::Dynamic));
        assert_eq!(on_reply.len(), 5);
    }
}

#[test]
fn grpc_typed_action_fails_on_unknown_service() {
    let services: Vec<(String, ServiceKind)> = vec![];
    let action = typed("true", false, true, grpc_op("check", "nonexistent", "test.Request{}", vec![]));
    let result = compile_action(&action, &services, "0".to_string(), vec![]);
    assert!(matches!(result, Err(CompileError::UnknownService(ref s)) if s == "nonexistent"));
}

#[test]
fn grpc_typed_action_fails_on_non_dynamic_service() {
    let services = vec![("tracing-svc".to_string(), ServiceKind::Tracing { exports: true })];
    let action = typed("true", false, true, grpc_op("check", "tracing-svc", "test.Request{}", vec![]));
    let result = compile_action(&action, &services, "0".to_string(), vec![]);
    assert!(matches!(result, Err(CompileError::ServiceCreationFailed(_))));
}

#[test]
fn grpc_in_on_reply_block_compiles() {
    let services = vec![("svc".to_string(), ServiceKind::Dynamic)];
    let nested = typed("true", false, false, grpc_op("nested", "svc", "test.Request{}", vec![]));
    let result = compile_action(&nested, &services, "parent.0".to_string(), vec![]);
    assert!(result.is_ok());
    let action = result.unwrap();
    assert_eq!(action.id, "parent.0");
    assert!(matches!(action.operation, CompiledOperation::Grpc { .. }));
}

#[test]
fn typed_actions_compile() {
    let services: Vec<(String, ServiceKind)> = vec![];

    let deny_result = compile_action(
        &typed("result.code == 2", true, false, deny_op("DenyResponse{status: 429u}")),
        &services,
        "0".to_string(),
        vec![],
    );
    assert!(deny_result.is_ok());
    let deny = deny_result.unwrap();
    assert!(deny.terminal);
    assert!(matches!(deny.operation, CompiledOperation::Deny { .. }));

    let headers_config = typed(
        "true",
        false,
        false,
        Operation::Headers(HeadersOperation { target: HeadersTarget::Response, headers: "result.resp_headers".to_string() }),
    );
    let headers_result = compile_action(&headers_config, &services, "0".to_string(), vec![]);
    assert!(headers_result.is_ok());
    let headers = headers_result.unwrap();
    assert!(!headers.terminal);
    assert!(matches!(headers.operation, CompiledOperation::Headers { target: HeadersTarget::Response, .. }));

    let store_config = typed(
        "true",
        false,
        true,
        Operation::Store(StoreOperation { data: vec![StoreItem { path: "a.b".to_string(), value: "result.x".to_string() }] }),
    );
    let store_result = compile_action(&store_config, &services, "0".to_string(), vec![]);
    assert!(store_result.is_ok());
    let store = store_result.unwrap();
    assert!(!store.terminal);
    assert!(store.is_guard);
    assert!(matches!(store.operation, CompiledOperation::Store { ref data } if data[0].path == "a.b"));
}

#[test]
fn a_compiled_call_plans_as_a_call_of_its_service_kind() {
    let compiled = compile_action(&grpc("authz", vec![]), &services(), "0".to_string(), vec![]).expect("known");
    assert_eq!(
        planned_action(&compiled, FailureMode::Allow, true),
        PlannedAction::Grpc { service: ServiceKind::Auth, failure_mode: FailureMode::Allow, reads_response_body: true }
    );
    let deny = compile_action(&deny("x"), &services(), "1".to_string(), vec![]).expect("no lookup");
    assert_eq!(planned_action(&deny, FailureMode::Deny, false), PlannedAction::Deny);
}

