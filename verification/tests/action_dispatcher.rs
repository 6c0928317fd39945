use wasm_shim::action_dispatcher::{Action, ActionDispatcher};
use wasm_shim::operation_dispatcher::{GrpcStatus, State};

type Op = fn() -> Result<u32, GrpcStatus>;

fn ok_200() -> Result<u32, GrpcStatus> {
    Ok(200)
}

#[test]
fn action_transition() {
    let mut action: Action<Op> = Action::default();
    action.set_operation(ok_200);
    assert_eq!(action.get_state(), State::Pending);
    action.trigger();
    assert_eq!(action.get_state(), State::Waiting);
    action.trigger();
    assert_eq!(action.get_result(), Ok(200));
    assert_eq!(action.get_state(), State::Done);
}

#[test]
fn action_dispatcher_push_actions() {
    let mut action_dispatcher: ActionDispatcher<Op> =
        ActionDispatcher::with_actions(vec![Action::default()]);

    assert_eq!(action_dispatcher.len(), 1);

    action_dispatcher.push_actions(vec![Action::default()]);

    assert_eq!(action_dispatcher.len(), 2);
}

#[test]
fn action_dispatcher_get_current_action_state() {
    let action_dispatcher: ActionDispatcher<Op> =
        ActionDispatcher::with_actions(vec![Action::default()]);

    assert_eq!(
        action_dispatcher.get_current_action_state(),
        Some(State::Pending)
    );
}

#[test]
fn action_dispatcher_next() {
    let mut action: Action<Op> = Action::default();
    action.set_operation(ok_200);
    let mut action_dispatcher = ActionDispatcher::with_actions(vec![action]);
    let mut res = action_dispatcher.next();
    assert!(res);
    assert_eq!(
        action_dispatcher.get_current_action_state(),
        Some(State::Waiting)
    );

    res = action_dispatcher.next();
    assert!(res);
    assert_eq!(
        action_dispatcher.get_current_action_state(),
        Some(State::Done)
    );
    assert_eq!(action_dispatcher.get_current_action_result(), Ok(200));

    res = action_dispatcher.next();
    assert!(!res);
    assert_eq!(action_dispatcher.get_current_action_state(), None);
}

#[test]
fn an_action_without_operation_stays_pending() {
    let mut action: Action<Op> = Action::default();
    action.trigger();
    assert_eq!(action.get_state(), State::Pending);
    assert_eq!(action.get_result(), Err(GrpcStatus::Empty));
}

#[test]
fn a_closure_result_is_kept_and_the_queue_moves_on() {
    let mut first: Action<Op> = Action::default();
    first.set_operation(|| Err(GrpcStatus::NotFound));
    let mut second: Action<Op> = Action::default();
    second.set_operation(|| Err(GrpcStatus::NotFound));
    let mut d: ActionDispatcher<Op> = ActionDispatcher::default();
    assert!(!d.next());
    d.push_actions(vec![first, second]);
    assert!(d.next());
    assert_eq!(d.get_current_action_result(), Err(GrpcStatus::NotFound));
    assert!(d.next());
    assert!(d.next());
    assert_eq!(d.len(), 1);
    assert_eq!(d.get_current_action_state(), Some(State::Pending));
}
