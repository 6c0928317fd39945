use wasm_shim::body_parser::{is_float, parse_i64, parse_json_scalar, parse_u64};
use wasm_shim::cel::{CelKey, CelValue};
use wasm_shim::operation_dispatcher::State;
use wasm_shim::tasks::{
    extract_headers, generate_ratelimit_request_cel, to_camel_case, RateLimitDescriptor,
    RateLimitDescriptorEntry,
};
use wasm_shim::token_usage::{
    extract_json_path, select_strategy, token_count, JsonNumber, JsonStrategy, JsonValue,
    SseStrategy, StrategyKind,
};

#[test]
fn state_transitions() {
    let mut s = State::Pending;
    s.next();
    assert_eq!(s, State::Waiting);
    s.next();
    assert_eq!(s, State::Done);
    s.next();
    assert_eq!(s, State::Done);
    let mut p = State::Pending;
    p.done();
    assert_eq!(p, State::Done);
}

#[test]
fn camel_case_of_reply_types() {
    assert_eq!(to_camel_case("AssessResponse"), "assessResponse");
    assert_eq!(to_camel_case(""), "");
    assert_eq!(to_camel_case("x"), "x");
    assert_eq!(to_camel_case("Élan"), "élan");
}

#[test]
fn headers_from_a_cel_map() {
    let map = CelValue::Entries(vec![
        (CelKey::Str("x-custom".to_string()), CelValue::Str("added".to_string())),
        (CelKey::Str("x-count".to_string()), CelValue::Int(-42)),
        (CelKey::Str("x-big".to_string()), CelValue::UInt(18446744073709551615)),
        (CelKey::Str("x-ratio".to_string()), CelValue::Float("1.5".to_string())),
        (CelKey::Str("x-flag".to_string()), CelValue::Bool(false)),
    ]);
    let headers = extract_headers(&map).expect("a map of strings");
    assert_eq!(
        headers,
        vec![
            ("x-custom".to_string(), "added".to_string()),
            ("x-count".to_string(), "-42".to_string()),
            ("x-big".to_string(), "18446744073709551615".to_string()),
            ("x-ratio".to_string(), "1.5".to_string()),
            ("x-flag".to_string(), "false".to_string()),
        ]
    );
    assert_eq!(
        extract_headers(&CelValue::Entries(vec![(CelKey::Str("m".to_string()), CelValue::Int(i64::MIN))])),
        Some(vec![("m".to_string(), "-9223372036854775808".to_string())])
    );
}

#[test]
fn headers_from_other_values() {
    assert!(extract_headers(&CelValue::Str("x".to_string())).is_none());
    let int_key = CelValue::Entries(vec![(CelKey::Int(1), CelValue::Str("v".to_string()))]);
    assert!(extract_headers(&int_key).is_none());
    let null_value = CelValue::Entries(vec![(CelKey::Str("k".to_string()), CelValue::Null)]);
    assert!(extract_headers(&null_value).is_none());
    assert_eq!(extract_headers(&CelValue::Entries(vec![])), Some(vec![]));
}

#[test]
fn ratelimit_request_cel() {
    let descriptors = vec![RateLimitDescriptor {
        entries: vec![
            RateLimitDescriptorEntry { key: "user".to_string(), value: "al\"ice".to_string() },
            RateLimitDescriptorEntry { key: "k2".to_string(), value: "v2".to_string() },
        ],
    }];
    let cel = generate_ratelimit_request_cel("my\\domain", 3, &descriptors);
    let expected = "envoy.service.ratelimit.v3.RateLimitRequest {\n    domain: \"my\\\\domain\",\n    hits_addend: 3u,\n    descriptors: [envoy.extensions.common.ratelimit.v3.RateLimitDescriptor { entries: [envoy.extensions.common.ratelimit.v3.RateLimitDescriptor.Entry { key: \"user\", value: \"al\\\"ice\" }, envoy.extensions.common.ratelimit.v3.RateLimitDescriptor.Entry { key: \"k2\", value: \"v2\" }] }]\n}";
    assert_eq!(cel, expected);
    let empty = generate_ratelimit_request_cel("d", 0, &[]);
    assert_eq!(empty, "envoy.service.ratelimit.v3.RateLimitRequest {\n    domain: \"d\",\n    hits_addend: 0u,\n    descriptors: []\n}");
}

#[test]
fn json_scalars() {
    assert!(matches!(parse_json_scalar("null"), CelValue::Null));
    assert!(matches!(parse_json_scalar("true"), CelValue::Bool(true)));
    assert!(matches!(parse_json_scalar("false"), CelValue::Bool(false)));
    assert!(matches!(parse_json_scalar("-42"), CelValue::Int(-42)));
    assert!(matches!(parse_json_scalar("+7"), CelValue::Int(7)));
    assert!(matches!(parse_json_scalar("18446744073709551615"), CelValue::UInt(18446744073709551615)));
    assert!(matches!(parse_json_scalar("1.5e3"), CelValue::Float(t) if t == "1.5e3"));
    assert!(matches!(parse_json_scalar("-inf"), CelValue::Float(_)));
    assert!(matches!(parse_json_scalar("NaN"), CelValue::Float(_)));
    assert!(matches!(parse_json_scalar("\"quoted\""), CelValue::Str(t) if t == "\"quoted\""));
    assert!(matches!(parse_json_scalar("18446744073709551616"), CelValue::Float(_)));
    assert!(matches!(parse_json_scalar(""), CelValue::Str(t) if t.is_empty()));
}

#[test]
fn integer_parsing_matches_std() {
    for s in ["0", "-0", "+0", "9223372036854775807", "-9223372036854775808", "9223372036854775808",
              "-9223372036854775809", "", "+", "-", "12a", " 1", "007", "18446744073709551615",
              "18446744073709551616", "-1"] {
        assert_eq!(parse_i64(s), s.parse::<i64>().ok(), "i64 {s:?}");
        assert_eq!(parse_u64(s), s.parse::<u64>().ok(), "u64 {s:?}");
    }
}

#[test]
fn float_grammar_matches_std() {
    for s in ["1", "1.", ".5", ".", "1e5", "1E+5", "1e-5", "1e", "e5", "-.5e2", "+1.5", "inf", "-INF",
              "Infinity", "infinit", "nan", "NaN", "-nan", "1.2.3", "1e5e5", "", "+", "1_0", " 1",
              "0x10", "1.e3", "1e+"] {
        assert_eq!(is_float(s), s.parse::<f64>().is_ok(), "{s:?}");
    }
}

fn obj(members: Vec<(&str, JsonValue)>) -> JsonValue {
    JsonValue::Object(members.into_iter().map(|(k, v)| (k.to_string(), v)).collect())
}

#[test]
fn token_count_from_usage() {
    let body = obj(vec![("usage", obj(vec![("total_tokens", JsonValue::Number(JsonNumber::PosInt(10)))]))]);
    assert_eq!(token_count(&body), Some(10));
    let as_text = obj(vec![("usage", obj(vec![("total_tokens", JsonValue::Str("25".to_string()))]))]);
    assert_eq!(token_count(&as_text), Some(25));
    let float = obj(vec![("usage", obj(vec![("total_tokens", JsonValue::Number(JsonNumber::Float))]))]);
    assert_eq!(token_count(&float), None);
    let missing = obj(vec![("usage", obj(vec![]))]);
    assert_eq!(token_count(&missing), None);
    let too_big = obj(vec![("usage", obj(vec![("total_tokens", JsonValue::Number(JsonNumber::PosInt(u64::MAX)))]))]);
    assert_eq!(token_count(&too_big), None);
    assert_eq!(extract_json_path(&JsonValue::Number(JsonNumber::NegInt(-3)), &[]), Some(-3));
}

#[test]
fn strategy_by_content_type() {
    let sse = vec![("content-type".to_string(), "text/event-stream; charset=utf-8".to_string())];
    assert_eq!(select_strategy(&sse), StrategyKind::Sse);
    let json = vec![("content-type".to_string(), "application/json".to_string())];
    assert_eq!(select_strategy(&json), StrategyKind::Json);
    assert_eq!(select_strategy(&vec![]), StrategyKind::Json);
}

#[test]
fn sse_strategy_keeps_the_event_before_the_last() {
    let mut s = SseStrategy::new();
    assert!(s.usage_event().is_none());
    s.push_event("{\"usage\":{\"total_tokens\":10}}");
    assert!(s.usage_event().is_none());
    s.push_event("[DONE]");
    assert_eq!(s.usage_event(), Some(&"{\"usage\":{\"total_tokens\":10}}"));
}

#[test]
fn json_strategy_collects_chunks() {
    let mut j = JsonStrategy::new();
    j.feed_buffer(b"{\"a\":".to_vec());
    j.feed_buffer(b"1}".to_vec());
    assert_eq!(j.buffer(), &b"{\"a\":1}".to_vec());
}

#[test]
fn camel_case_lowers_only_the_first_ascii_letter() {
    assert_eq!(to_camel_case("XYZ"), "xYZ");
    assert_eq!(to_camel_case("already"), "already");
}
