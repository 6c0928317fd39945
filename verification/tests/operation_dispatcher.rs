use wasm_shim::config::{FailureMode, ServiceType};
use wasm_shim::operation_dispatcher::{
    failure_report, FailureReport, GrpcStatus, Operation, OperationDispatcher, OperationError,
    State, Step, TriggerOutcome,
};

fn build_operation(service: ServiceType) -> Operation<ServiceType> {
    Operation::new(service, FailureMode::Deny)
}

/// Takes the next operation as the plugin does: conditions always apply,
/// and sending gives the token that `send` picks for the operation.
fn next(
    d: &mut OperationDispatcher<ServiceType>,
    send: &dyn Fn(ServiceType) -> TriggerOutcome,
) -> Result<Option<(Result<u32, OperationError>, ServiceType, State)>, OperationError> {
    let mut step = d.next();
    loop {
        match step {
            Step::Empty => return Ok(None),
            Step::Current => {
                let op = d.current().expect("current");
                return Ok(Some((op.get_result(), op.action, op.get_state())));
            }
            Step::Error(e) => return Err(e),
            Step::CheckConditions => {
                let service = d.current().expect("current").action;
                step = d.trigger_current(send(service));
            }
        }
    }
}

#[test]
fn operation_getters() {
    let operation = build_operation(ServiceType::RateLimit);
    assert_eq!(operation.get_state(), State::Pending);
    assert_eq!(operation.action, ServiceType::RateLimit);
    assert_eq!(operation.get_failure_mode(), FailureMode::Deny);
    assert_eq!(operation.get_result(), Ok(0));
}

#[test]
fn operation_transition() {
    let mut operation = build_operation(ServiceType::RateLimit);
    assert_eq!(operation.get_result(), Ok(0));
    assert_eq!(operation.get_state(), State::Pending);
    let mut res = operation.trigger(TriggerOutcome::Sent(200));
    assert_eq!(res, Ok(200));
    assert_eq!(operation.get_state(), State::Waiting);
    res = operation.trigger(TriggerOutcome::Sent(200));
    assert_eq!(res, Ok(200));
    assert_eq!(operation.get_result(), Ok(200));
    assert_eq!(operation.get_state(), State::Done);
}

#[test]
fn operation_dispatcher_push_actions() {
    let mut d = OperationDispatcher::new();
    assert!(d.current().is_none());
    d.push_operations(vec![build_operation(ServiceType::RateLimit)]);
    assert!(d.current().is_some());
}

#[test]
fn operation_dispatcher_get_current_action_state() {
    let mut d = OperationDispatcher::new();
    d.push_operations(vec![build_operation(ServiceType::RateLimit)]);
    assert_eq!(d.get_current_operation_state(), Some(State::Pending));
}

#[test]
fn operation_dispatcher_next() {
    let mut d = OperationDispatcher::new();
    let send = |s: ServiceType| match s {
        ServiceType::RateLimit => TriggerOutcome::Sent(66),
        _ => TriggerOutcome::Sent(77),
    };
    d.push_operations(vec![build_operation(ServiceType::RateLimit), build_operation(ServiceType::Auth)]);
    assert_eq!(d.get_current_operation_state(), Some(State::Pending));
    assert_eq!(d.waiting_count(), 0);

    let op = next(&mut d, &send).expect("ok result").expect("operation is some");
    assert_eq!(op.0, Ok(66));
    assert_eq!(op.1, ServiceType::RateLimit);
    assert_eq!(op.2, State::Waiting);
    assert_eq!(d.waiting_count(), 1);

    let op = next(&mut d, &send).expect("ok result").expect("operation is some");
    assert_eq!(op.0, Ok(66));
    assert_eq!(op.2, State::Done);

    let op = next(&mut d, &send).expect("ok result").expect("operation is some");
    assert_eq!(op.0, Ok(77));
    assert_eq!(op.1, ServiceType::Auth);
    assert_eq!(op.2, State::Waiting);
    assert_eq!(d.waiting_count(), 1);

    let op = next(&mut d, &send).expect("ok result").expect("operation is some");
    assert_eq!(op.0, Ok(77));
    assert_eq!(op.2, State::Done);
    assert_eq!(d.waiting_count(), 1);

    assert!(next(&mut d, &send).expect("ok result").is_none());
    assert!(d.get_current_operation_state().is_none());
    assert_eq!(d.waiting_count(), 0);
}

#[test]
fn waiting_operation_is_found_by_token() {
    let mut d = OperationDispatcher::new();
    d.push_operations(vec![build_operation(ServiceType::Auth)]);
    assert_eq!(d.next(), Step::CheckConditions);
    assert_eq!(d.trigger_current(TriggerOutcome::Sent(5)), Step::Current);
    let op = d.get_waiting_operation(5).ok().expect("found");
    assert_eq!(op.get_state(), State::Done);
    assert_eq!(op.get_result(), Ok(5));
    let missing = d.get_waiting_operation(6).err().expect("not found");
    assert_eq!(missing.status, GrpcStatus::NotFound);
    assert_eq!(missing.failure_mode, FailureMode::Deny);
}

#[test]
fn failed_trigger_reports_the_error() {
    let mut d = OperationDispatcher::new();
    d.push_operations(vec![Operation::new(ServiceType::RateLimit, FailureMode::Allow)]);
    assert_eq!(d.next(), Step::CheckConditions);
    match d.trigger_current(TriggerOutcome::Failed(GrpcStatus::ParseFailure)) {
        Step::Error(e) => {
            assert_eq!(e.failure_mode, FailureMode::Allow);
            assert_eq!(e.message(), "Error parsing configuration.");
        }
        other => panic!("unexpected {:?}", other),
    }
    assert_eq!(failure_report(FailureMode::Allow), FailureReport::AllowedOnFailure);
    assert_eq!(failure_report(FailureMode::Deny), FailureReport::Error);
    let e = OperationError { status: GrpcStatus::NotFound, failure_mode: FailureMode::Deny };
    assert_eq!(e.message(), "Error triggering the operation. NotFound");
}

#[test]
fn skipped_and_messageless_operations_go() {
    let mut d = OperationDispatcher::new();
    d.push_operations(vec![build_operation(ServiceType::Auth), build_operation(ServiceType::RateLimit), build_operation(ServiceType::Auth)]);
    assert_eq!(d.next(), Step::CheckConditions);
    d.skip_current();
    assert_eq!(d.next(), Step::CheckConditions);
    // no message: the operation is done and the next one comes up
    assert_eq!(d.trigger_current(TriggerOutcome::NoMessage), Step::CheckConditions);
    assert_eq!(d.get_current_operation_state(), Some(State::Pending));
}
