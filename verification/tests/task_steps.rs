use wasm_shim::cel::{CelKey, CelValue};
use wasm_shim::headers::HeaderOperation;
use wasm_shim::ratelimit_task::AttributeState;
use wasm_shim::task_steps::{reply_of_deny_value, DenyValue};
use wasm_shim::task_steps::{dynamic_call_decision, failure_handling, CallDecision, FailureHandling};
use wasm_shim::task_steps::{
    add_headers_decision, after_headers_written, after_reply, allow_decision, deny_expression,
    deny_reply, verdict, verdict_until_end, grpc_reply_decision, headers_to_write, intention_decision,
    modify_headers_plan, reply_headers, with_response_code_decision, AddHeadersDecision, Verdict,
    GrpcReplyDecision, HeadersWrite, ModifyPlan, ReplyDecision, ReplyOutcome, WriteOutcome,
};

fn yes() -> Result<AttributeState<bool>, String> {
    Ok(AttributeState::Available(true))
}

fn no() -> Result<AttributeState<bool>, String> {
    Ok(AttributeState::Available(false))
}

fn pairs(v: &[(&str, &str)]) -> Vec<(String, String)> {
    v.iter().map(|(a, b)| (a.to_string(), b.to_string())).collect()
}

fn get<'a>(h: &'a [(String, String)], name: &str) -> Option<&'a str> {
    h.iter().find(|(k, _)| k == name).map(|(_, v)| v.as_str())
}

fn written(
    existing: Vec<(String, String)>,
    op: &HeaderOperation,
) -> Vec<(String, String)> {
    match headers_to_write(Ok(AttributeState::Available(Some(existing))), op) {
        HeadersWrite::Write(h) => h,
        other => panic!("unexpected {other:?}"),
    }
}

#[test]
fn append_headers_task() {
    let existing_headers = pairs(&[("API-Key", "API-Value")]);
    let new_headers = pairs(&[("New-Key", "New-Value")]);
    let op = match modify_headers_plan(
        &None,
        Some(HeaderOperation::Append(new_headers)),
        Ok(AttributeState::Pending),
    ) {
        ModifyPlan::Apply(op) => op,
        other => panic!("unexpected {other:?}"),
    };
    let headers = written(existing_headers, &op);
    assert_eq!(
        after_headers_written(&Ok(AttributeState::Available(())), false),
        WriteOutcome::Done
    );
    assert_eq!(headers.len(), 2);
    assert_eq!(get(&headers, "API-Key"), Some("API-Value"));
    assert_eq!(get(&headers, "New-Key"), Some("New-Value"));
}

#[test]
fn set_headers_task() {
    let existing_headers = pairs(&[("Content-Type", "text/plain"), ("X-Custom", "value1")]);
    let op = HeaderOperation::SetValue(pairs(&[("Content-Type", "application/json")]));
    let headers = written(existing_headers, &op);
    assert_eq!(headers.len(), 2);
    assert_eq!(get(&headers, "Content-Type"), Some("application/json"));
    assert_eq!(get(&headers, "X-Custom"), Some("value1"));
}

#[test]
fn remove_headers_task() {
    let existing_headers = pairs(&[("API-Key-To-Remove", "API-Value"), ("X-Origin", "Kuadrant")]);
    let op = HeaderOperation::Remove(vec!["API-Key-To-Remove".to_string()]);
    let headers = written(existing_headers, &op);
    assert_eq!(headers.len(), 1);
    assert_eq!(get(&headers, "X-Origin"), Some("Kuadrant"));
}

#[test]
fn modify_headers_waits_fails_and_terminates() {
    let op = HeaderOperation::Append(vec![]);
    assert!(matches!(
        headers_to_write(Ok(AttributeState::Pending), &op),
        HeadersWrite::Requeue
    ));
    assert!(matches!(
        headers_to_write(Ok(AttributeState::Available(None)), &op),
        HeadersWrite::Failed
    ));
    assert!(matches!(
        headers_to_write(Err("no".to_string()), &op),
        HeadersWrite::Failed
    ));
    assert_eq!(
        after_headers_written(&Ok(AttributeState::Available(())), true),
        WriteOutcome::Terminate
    );
    assert_eq!(
        after_headers_written(&Ok(AttributeState::Pending), true),
        WriteOutcome::Requeue
    );
    assert_eq!(
        after_headers_written(&Err("x".to_string()), false),
        WriteOutcome::Failed
    );
    // A deferred operation: no pair leaves nothing to do; pending fails.
    assert!(matches!(
        modify_headers_plan(&Some(yes()), None, Ok(AttributeState::Available(vec![]))),
        ModifyPlan::Done
    ));
    assert!(matches!(
        modify_headers_plan(&Some(yes()), None, Ok(AttributeState::Pending)),
        ModifyPlan::Failed
    ));
    assert!(matches!(
        modify_headers_plan(
            &Some(yes()),
            None,
            Ok(AttributeState::Available(pairs(&[("a", "b")])))
        ),
        ModifyPlan::Apply(HeaderOperation::SetValue(v)) if v.len() == 1
    ));
    assert!(matches!(
        modify_headers_plan(&Some(no()), None, Ok(AttributeState::Pending)),
        ModifyPlan::Done
    ));
    assert!(matches!(
        modify_headers_plan(&Some(Ok(AttributeState::Pending)), None, Ok(AttributeState::Pending)),
        ModifyPlan::Requeue
    ));
}

#[test]
fn allow_task_intention_true_returns_done() {
    assert_eq!(allow_decision(&yes(), &yes()), ReplyDecision::Done);
}

#[test]
fn allow_task_intention_false_terminates() {
    assert_eq!(allow_decision(&yes(), &no()), ReplyDecision::Reply(403));
}

#[test]
fn allow_task_predicate_false_skips() {
    // would deny, but predicates skip first
    assert_eq!(allow_decision(&no(), &no()), ReplyDecision::Done);
}

#[test]
fn with_response_code_terminates_with_code() {
    assert_eq!(
        with_response_code_decision(&yes(), 418),
        ReplyDecision::Reply(418)
    );
}

#[test]
fn with_response_code_predicate_false_skips() {
    assert_eq!(with_response_code_decision(&no(), 418), ReplyDecision::Done);
}

#[test]
fn add_headers_task_evaluates_and_requeues_modify() {
    let value = CelValue::Entries(vec![(
        CelKey::Str("x-custom".to_string()),
        CelValue::Str("added".to_string()),
    )]);
    match add_headers_decision(&yes(), &Ok(AttributeState::Available(value))) {
        AddHeadersDecision::Append(h) => assert_eq!(h, pairs(&[("x-custom", "added")])),
        other => panic!("unexpected {other:?}"),
    }
}

#[test]
fn add_headers_task_predicate_false_skips() {
    let value = CelValue::Entries(vec![]);
    assert!(matches!(
        add_headers_decision(&no(), &Ok(AttributeState::Available(value))),
        AddHeadersDecision::Done
    ));
}

#[test]
fn add_headers_refuses_what_is_no_map_of_texts() {
    assert!(matches!(
        add_headers_decision(&yes(), &Ok(AttributeState::Available(CelValue::Int(1)))),
        AddHeadersDecision::Failed
    ));
    let bad = CelValue::Entries(vec![(CelKey::Int(1), CelValue::Str("v".to_string()))]);
    assert!(matches!(
        add_headers_decision(&yes(), &Ok(AttributeState::Available(bad))),
        AddHeadersDecision::Failed
    ));
    assert!(matches!(
        add_headers_decision(&yes(), &Ok(AttributeState::Pending)),
        AddHeadersDecision::Requeue
    ));
}

#[test]
fn test_send_reply_task_success() {
    let expr = deny_expression(
        403,
        &pairs(&[
            ("content-type", "text/plain"),
            ("WWW-Authenticate", "APIKEY realm=\"api-key-users\""),
        ]),
        &Some("Access Denied".to_string()),
    );
    assert_eq!(
        expr,
        "DenyResponse { status: 403u, headers: [['''content-type''', '''text/plain'''], \
         ['''WWW-Authenticate''', '''APIKEY realm=\"api-key-users\"''']], body: '''Access Denied''' }"
    );
    assert_eq!(after_reply(true, false), ReplyOutcome::Done);
}

#[test]
fn test_send_reply_task_no_body() {
    let expr = deny_expression(429, &vec![], &None);
    assert_eq!(expr, "DenyResponse { status: 429u, headers: [],  }");
    assert_eq!(after_reply(true, false), ReplyOutcome::Done);
}

#[test]
fn deny_replies_default_and_truncate() {
    let r = deny_reply(None, vec![], Some(String::new()));
    assert_eq!(r.status, 500);
    assert_eq!(r.body, None);
    let r = deny_reply(Some(4294967296 + 404), pairs(&[("a", "b")]), Some("x".to_string()));
    assert_eq!(r.status, 404);
    assert_eq!(r.body, Some("x".to_string()));
    assert_eq!(r.headers.len(), 1);
    let h = reply_headers(pairs(&[("a", "b")]), Some(("x-tracker".to_string(), "t".to_string())));
    assert_eq!(h, pairs(&[("a", "b"), ("x-tracker", "t")]));
    assert_eq!(after_reply(false, true), ReplyOutcome::Failed);
    assert_eq!(after_reply(true, true), ReplyOutcome::Terminate);
}

#[test]
fn verdicts() {
    assert_eq!(verdict(&yes()), Verdict::Proceed);
    assert_eq!(verdict(&no()), Verdict::Done);
    assert_eq!(verdict(&Ok(AttributeState::Pending)), Verdict::Requeue);
    assert_eq!(verdict(&Err("e".to_string())), Verdict::Failed);
    assert_eq!(verdict_until_end(&Ok(AttributeState::Pending), true), Verdict::Failed);
    assert_eq!(verdict_until_end(&Ok(AttributeState::Pending), false), Verdict::Requeue);
    assert_eq!(verdict_until_end(&yes(), true), Verdict::Proceed);
}

#[test]
fn grpc_replies() {
    assert_eq!(grpc_reply_decision(&Ok((0, 10)), false), GrpcReplyDecision::Done);
    assert_eq!(grpc_reply_decision(&Ok((0, 10)), true), GrpcReplyDecision::RunOnReply);
    assert_eq!(grpc_reply_decision(&Ok((14, 0)), true), GrpcReplyDecision::Failed);
    assert_eq!(
        grpc_reply_decision(&Err("gone".to_string()), false),
        GrpcReplyDecision::Failed
    );
}

#[test]
fn intentions() {
    assert_eq!(intention_decision(&Ok(CelValue::Bool(true))), ReplyDecision::Done);
    assert_eq!(intention_decision(&Ok(CelValue::Bool(false))), ReplyDecision::Reply(403));
    assert_eq!(intention_decision(&Ok(CelValue::Int(1))), ReplyDecision::Failed);
    assert_eq!(intention_decision(&Err("x".to_string())), ReplyDecision::Failed);
}

#[test]
fn request_ids_and_tracker_headers() {
    assert_eq!(
        wasm_shim::task_steps::request_id(Some("abc".to_string()), "gen".to_string()),
        "abc"
    );
    assert_eq!(wasm_shim::task_steps::request_id(None, "gen".to_string()), "gen");
    assert_eq!(
        wasm_shim::task_steps::tracker_header(&Some("x-tracker".to_string()), "id-1"),
        Some(("x-tracker".to_string(), "id-1".to_string()))
    );
    assert_eq!(wasm_shim::task_steps::tracker_header(&None, "id-1"), None);
}

#[test]
fn dynamic_calls_wait_until_the_end_of_the_body() {
    let msg = Ok(AttributeState::Available(CelValue::Null));
    assert_eq!(dynamic_call_decision(&yes(), &msg, false), CallDecision::Dispatch);
    assert_eq!(dynamic_call_decision(&no(), &msg, false), CallDecision::Done);
    assert_eq!(
        dynamic_call_decision(&Ok(AttributeState::Pending), &msg, false),
        CallDecision::Requeue
    );
    assert_eq!(
        dynamic_call_decision(&Ok(AttributeState::Pending), &msg, true),
        CallDecision::Failed
    );
    assert_eq!(
        dynamic_call_decision(&yes(), &Ok(AttributeState::Pending), false),
        CallDecision::Requeue
    );
    assert_eq!(
        dynamic_call_decision(&yes(), &Ok(AttributeState::Pending), true),
        CallDecision::Failed
    );
    assert_eq!(
        dynamic_call_decision(&yes(), &Err("e".to_string()), false),
        CallDecision::Failed
    );
}

#[test]
fn failure_modes() {
    assert_eq!(failure_handling(false, true), FailureHandling::Keep);
    assert_eq!(failure_handling(true, true), FailureHandling::CountAndTerminate);
    assert_eq!(failure_handling(true, false), FailureHandling::CountAndContinue);
}

#[test]
fn a_deny_value_that_is_no_deny_response_fails_the_reply() {
    assert!(reply_of_deny_value(Ok(AttributeState::Available(DenyValue::NotAResponse))).is_none());
    assert!(reply_of_deny_value(Ok(AttributeState::Pending)).is_none());
    assert!(reply_of_deny_value(Err("bad".to_string())).is_none());
    let reply = reply_of_deny_value(Ok(AttributeState::Available(DenyValue::Response {
        status: None,
        headers: vec![("a".to_string(), "b".to_string())],
        body: Some(String::new()),
    })))
    .expect("a deny response makes a reply");
    assert_eq!(reply.status, 500);
    assert_eq!(reply.headers, vec![("a".to_string(), "b".to_string())]);
    assert!(reply.body.is_none());
}
