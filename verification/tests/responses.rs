use wasm_shim::metadata::MetaValue;
use wasm_shim::responses::{
    from_envoy_headers, process_auth_response, process_rl_response, AuthOutcome, CheckResponse,
    DeniedHttpResponse, HeaderValue, HeaderValueOption, HttpResponse, OkHttpResponse, ProtoValue,
    RateLimitOutcome,
};

fn hvo(k: &str, v: &str) -> HeaderValueOption {
    HeaderValueOption { header: Some(HeaderValue { key: k.to_string(), value: v.to_string() }) }
}

fn ok_response(headers: Vec<HeaderValueOption>) -> OkHttpResponse {
    OkHttpResponse {
        headers,
        response_headers_to_add: vec![],
        headers_to_remove: vec![],
        query_parameters_to_set: vec![],
        query_parameters_to_remove: vec![],
    }
}

#[test]
fn envoy_headers_skip_empty_options() {
    let h = from_envoy_headers(&[hvo("a", "1"), HeaderValueOption { header: None }, hvo("b", "2")]);
    assert_eq!(h, vec![("a".to_string(), "1".to_string()), ("b".to_string(), "2".to_string())]);
}

#[test]
fn auth_without_verdict_fails() {
    let r = CheckResponse { dynamic_metadata: None, http_response: None };
    assert!(matches!(process_auth_response(&r), AuthOutcome::Failed));
}

#[test]
fn auth_ok_without_anything_is_done() {
    let r = CheckResponse { dynamic_metadata: None, http_response: Some(HttpResponse::Accepted(ok_response(vec![]))) };
    assert!(matches!(process_auth_response(&r), AuthOutcome::Done));
}

#[test]
fn auth_ok_with_unsupported_fields_fails() {
    let mut ok = ok_response(vec![]);
    ok.headers_to_remove = vec!["x".to_string()];
    let r = CheckResponse { dynamic_metadata: None, http_response: Some(HttpResponse::Accepted(ok)) };
    assert!(matches!(process_auth_response(&r), AuthOutcome::Failed));
}

#[test]
fn auth_ok_stores_metadata_and_appends_headers() {
    let metadata = vec![
        ("identity".to_string(), MetaValue::Struct(vec![("user".to_string(), MetaValue::Str("alice".to_string()))])),
        ("score".to_string(), MetaValue::Scalar("42".to_string())),
    ];
    let r = CheckResponse {
        dynamic_metadata: Some(metadata),
        http_response: Some(HttpResponse::Accepted(ok_response(vec![hvo("x-user", "alice")]))),
    };
    match process_auth_response(&r) {
        AuthOutcome::FollowUp { store, append_request_headers } => {
            assert_eq!(
                store,
                Some(vec![
                    ("auth.identity.user".to_string(), "\"alice\"".to_string()),
                    ("auth.score".to_string(), "42".to_string()),
                ])
            );
            assert_eq!(append_request_headers, Some(vec![("x-user".to_string(), "alice".to_string())]));
        }
        other => panic!("unexpected {:?}", other),
    }
}

#[test]
fn auth_denied_replies() {
    let denied = DeniedHttpResponse { status: Some(401), headers: vec![hvo("www-authenticate", "Bearer")], body: String::new() };
    let r = CheckResponse { dynamic_metadata: None, http_response: Some(HttpResponse::Denied(denied)) };
    match process_auth_response(&r) {
        AuthOutcome::Deny { status_code, headers, body } => {
            assert_eq!(status_code, 401);
            assert_eq!(headers, vec![("www-authenticate".to_string(), "Bearer".to_string())]);
            assert_eq!(body, None);
        }
        other => panic!("unexpected {:?}", other),
    }
    let denied = DeniedHttpResponse { status: None, headers: vec![], body: "go away".to_string() };
    let r = CheckResponse { dynamic_metadata: None, http_response: Some(HttpResponse::Denied(denied)) };
    match process_auth_response(&r) {
        AuthOutcome::Deny { status_code, body, .. } => {
            assert_eq!(status_code, 403);
            assert_eq!(body, Some("go away".to_string()));
        }
        other => panic!("unexpected {:?}", other),
    }
}

fn header_message(k: &str, v: &str) -> ProtoValue {
    ProtoValue::Message(vec![
        ("key".to_string(), ProtoValue::Str(k.to_string())),
        ("value".to_string(), ProtoValue::Str(v.to_string())),
    ])
}

fn rl_reply(code: ProtoValue, headers: Vec<ProtoValue>) -> Vec<(String, ProtoValue)> {
    vec![
        ("overall_code".to_string(), code),
        ("response_headers_to_add".to_string(), ProtoValue::List(headers)),
    ]
}

#[test]
fn rate_limit_ok_sets_headers() {
    assert!(matches!(process_rl_response(&rl_reply(ProtoValue::EnumNumber(1), vec![])), RateLimitOutcome::Done));
    match process_rl_response(&rl_reply(ProtoValue::I32(1), vec![header_message("x-rl", "5"), ProtoValue::Other])) {
        RateLimitOutcome::SetResponseHeaders(h) => assert_eq!(h, vec![("x-rl".to_string(), "5".to_string())]),
        other => panic!("unexpected {:?}", other),
    }
}

#[test]
fn rate_limit_over_limit_denies() {
    match process_rl_response(&rl_reply(ProtoValue::EnumNumber(2), vec![header_message("retry-after", "10")])) {
        RateLimitOutcome::Deny { status_code, headers, body } => {
            assert_eq!(status_code, 429);
            assert_eq!(headers, vec![("retry-after".to_string(), "10".to_string())]);
            assert_eq!(body, "Too Many Requests\n");
        }
        other => panic!("unexpected {:?}", other),
    }
}

#[test]
fn rate_limit_unknown_code_fails() {
    assert!(matches!(process_rl_response(&rl_reply(ProtoValue::EnumNumber(0), vec![])), RateLimitOutcome::Failed));
    assert!(matches!(process_rl_response(&rl_reply(ProtoValue::Str("1".to_string()), vec![])), RateLimitOutcome::Failed));
    assert!(matches!(process_rl_response(&vec![]), RateLimitOutcome::Failed));
}
