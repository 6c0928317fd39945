use wasm_shim::config::FailureMode;
use wasm_shim::task_plan::{
    action_id_and_dependencies, callable_service, plan_tasks, reply_action_id_and_dependencies,
    PlannedAction, PlannedTask, ServiceKind,
};
use wasm_shim::config::Timeout;
use wasm_shim::config::{DenyOperation, FailOperation, Operation};
use wasm_shim::task_plan::CompileError;
use wasm_shim::task_plan::predicate_owner;
use wasm_shim::task_plan::{legacy_translation, LegacyTranslation};

fn grpc(service: ServiceKind, failure_mode: FailureMode, reads: bool) -> PlannedAction {
    PlannedAction::Grpc {
        service,
        failure_mode,
        reads_response_body: reads,
    }
}

#[test]
fn actions_become_tasks_in_order() {
    let actions = vec![
        grpc(ServiceKind::Auth, FailureMode::Deny, false),
        grpc(ServiceKind::RateLimit, FailureMode::Allow, true),
        PlannedAction::Deny,
        PlannedAction::Headers,
        PlannedAction::Store,
        PlannedAction::Fail,
    ];
    let (tasks, teardown) = plan_tasks(&actions);
    assert_eq!(
        tasks,
        vec![
            (0, PlannedTask::Call { abort_on_failure: true, traced: false }),
            (1, PlannedTask::TokenUsage),
            (1, PlannedTask::Call { abort_on_failure: false, traced: false }),
            (2, PlannedTask::Reply),
            (3, PlannedTask::ModifyHeaders),
            (4, PlannedTask::Store),
        ]
    );
    assert!(teardown.is_empty());
}

#[test]
fn an_exporting_tracing_service_traces_every_call() {
    let actions = vec![
        grpc(ServiceKind::Dynamic, FailureMode::Deny, false),
        grpc(ServiceKind::Tracing { exports: true }, FailureMode::Allow, false),
    ];
    let (tasks, teardown) = plan_tasks(&actions);
    assert_eq!(
        tasks,
        vec![
            (0, PlannedTask::Call { abort_on_failure: true, traced: true }),
            (1, PlannedTask::TrackerHeader),
        ]
    );
    assert_eq!(teardown, vec![1]);

    let quiet = vec![
        grpc(ServiceKind::Tracing { exports: false }, FailureMode::Allow, false),
        grpc(ServiceKind::Dynamic, FailureMode::Deny, false),
    ];
    let (tasks, teardown) = plan_tasks(&quiet);
    assert_eq!(tasks[1], (1, PlannedTask::Call { abort_on_failure: true, traced: false }));
    assert!(teardown.is_empty());
}

#[test]
fn action_ids_chain() {
    assert_eq!(action_id_and_dependencies(0), ("0".to_string(), vec![]));
    assert_eq!(action_id_and_dependencies(12), ("12".to_string(), vec!["11".to_string()]));
    assert_eq!(reply_action_id_and_dependencies("3", 0), ("3.0".to_string(), vec![]));
    assert_eq!(
        reply_action_id_and_dependencies("3", 2),
        ("3.2".to_string(), vec!["3.1".to_string()])
    );
    assert!(callable_service(ServiceKind::Auth));
    assert!(!callable_service(ServiceKind::Tracing { exports: true }));
}

#[test]
fn compile_errors_read_as_messages() {
    assert_eq!(
        CompileError::InvalidRoutePredicate {
            action_set: "as".to_string(),
            error: "bad".to_string()
        }
        .message(),
        "Invalid route predicate on as: bad"
    );
    assert_eq!(
        CompileError::InvalidActionPredicate {
            service: "svc".to_string(),
            error: "oops".to_string()
        }
        .message(),
        "Invalid action predicate on svc: oops"
    );
    assert_eq!(
        CompileError::InvalidDataExpression("x".to_string()).message(),
        "Invalid data expression: x"
    );
    assert_eq!(
        CompileError::UnknownService("s".to_string()).message(),
        "Unknown service: s"
    );
    assert_eq!(
        CompileError::ServiceCreationFailed("s".to_string()).message(),
        "Service creation failed: s"
    );
}

#[test]
fn legacy_actions_translate_by_service_kind() {
    assert_eq!(legacy_translation(ServiceKind::Auth), Some(LegacyTranslation::Auth));
    assert_eq!(
        legacy_translation(ServiceKind::RateLimitCheck),
        Some(LegacyTranslation::RateLimit)
    );
    assert_eq!(
        legacy_translation(ServiceKind::RateLimitReport),
        Some(LegacyTranslation::Report)
    );
    assert_eq!(legacy_translation(ServiceKind::Dynamic), None);
}

#[test]
fn predicate_errors_name_their_owner() {
    assert_eq!(
        predicate_owner(&Operation::Deny(DenyOperation { deny_with: String::new() })),
        "deny"
    );
    assert_eq!(
        predicate_owner(&Operation::Fail(FailOperation { log_message: String::new() })),
        "fail"
    );
}

#[test]
fn services_time_out_after_twenty_milliseconds_by_default() {
    assert_eq!(Timeout::default().0, std::time::Duration::from_millis(20));
}
