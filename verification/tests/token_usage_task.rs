use wasm_shim::ratelimit_task::AttributeState;
use wasm_shim::store::HeaderLookup;
use wasm_shim::token_usage::{
    extract_json_path, extract_properties, parse_json, token_count_of_body, JsonNumber, JsonStrategy, JsonValue,
    SseStrategy, StrategyKind,
};
use wasm_shim::token_usage_task::{UsageAction, UsageEnd, UsageEvent, UsageMachine};

fn json_headers() -> HeaderLookup {
    HeaderLookup::Available(vec![(
        "content-type".to_string(),
        "application/json".to_string(),
    )])
}

fn obj(members: Vec<(&str, JsonValue)>) -> JsonValue {
    JsonValue::Object(members.into_iter().map(|(k, v)| (k.to_string(), v)).collect())
}

fn path(names: &[&str]) -> Vec<String> {
    names.iter().map(|n| n.to_string()).collect()
}

fn num(n: u64) -> JsonValue {
    JsonValue::Number(JsonNumber::PosInt(n))
}

fn started(eos: bool, buffer_size: usize) -> (UsageMachine, UsageAction) {
    let mut task = UsageMachine::new();
    assert!(matches!(task.step(UsageEvent::Apply), UsageAction::ReadResponseHeaders));
    assert!(matches!(
        task.step(UsageEvent::ResponseHeaders(json_headers())),
        UsageAction::ReadBodyInfo
    ));
    let next = task.step(UsageEvent::BodyInfo {
        buffer_size,
        end_of_stream: eos,
    });
    (task, next)
}

#[test]
fn test_no_data_and_not_end_of_stream() {
    let (task, outcome) = started(false, 0);
    assert!(matches!(outcome, UsageAction::End(UsageEnd::Requeue)));
    assert!(task.pauses_filter(false));
}

#[test]
fn test_no_data_and_end_of_stream() {
    let (mut task, outcome) = started(true, 0);
    assert!(matches!(outcome, UsageAction::Extract));
    // No paths to extract, empty result is ok
    assert!(matches!(
        task.step(UsageEvent::Extracted {
            found_none: true,
            expected_none: true
        }),
        UsageAction::End(UsageEnd::Done)
    ));
}

#[test]
fn test_task_fails_when_paths_expected_but_no_data() {
    let (mut task, _) = started(true, 0);
    assert!(matches!(
        task.step(UsageEvent::Extracted {
            found_none: true,
            expected_none: false
        }),
        UsageAction::End(UsageEnd::Failed)
    ));
}

#[test]
fn test_sse_strategy_extracts_from_second_to_last_event() {
    let mut strategy = SseStrategy::new();
    // data: {"usage":{"total_tokens":10}} / data: [DONE]
    strategy.push_event(obj(vec![("usage", obj(vec![("total_tokens", num(10))]))]));
    strategy.push_event(JsonValue::Str("[DONE]".to_string()));

    let event = strategy.usage_event().expect("an event before the last");
    assert_eq!(extract_json_path(event, &["usage", "total_tokens"]), Some(10));
}

#[test]
fn test_sse_strategy_fails_with_only_one_event() {
    let mut strategy: SseStrategy<JsonValue> = SseStrategy::new();
    strategy.push_event(JsonValue::Str("[DONE]".to_string()));
    assert!(strategy.usage_event().is_none());
}

#[test]
fn test_json_strategy_extracts_from_complete_body() {
    let mut strategy = JsonStrategy::new();
    let json = br#"{"usage":{"total_tokens":42,"prompt_tokens":10}}"#;
    strategy.feed_buffer(json.to_vec());

    let paths = vec![path(&["usage", "total_tokens"]), path(&["usage", "prompt_tokens"])];
    let result = extract_properties(strategy.buffer(), &paths);

    assert_eq!(result.values.iter().filter(|v| v.is_some()).count(), 2);
    assert!(matches!(result.values[0], Some(JsonValue::Number(JsonNumber::PosInt(42)))));
    assert!(matches!(result.values[1], Some(JsonValue::Number(JsonNumber::PosInt(10)))));
    assert!(!result.found_none && !result.expected_none);
}

#[test]
fn test_json_strategy_handles_missing_properties() {
    let mut strategy = JsonStrategy::new();
    let json = br#"{"usage":{"total_tokens":42}}"#;
    strategy.feed_buffer(json.to_vec());

    let paths = vec![path(&["usage", "total_tokens"]), path(&["usage", "nonexistent"])];
    let result = extract_properties(strategy.buffer(), &paths);

    assert_eq!(result.values.iter().filter(|v| v.is_some()).count(), 1);
    assert!(matches!(result.values[0], Some(JsonValue::Number(JsonNumber::PosInt(42)))));
    assert!(result.values[1].is_none());
}

#[test]
fn a_body_that_is_no_json_yields_nothing() {
    let result = extract_properties(b"not json", &vec![path(&["usage"])]);
    assert!(result.found_none && !result.expected_none);
    let none_expected = extract_properties(b"{}", &vec![]);
    assert!(none_expected.found_none && none_expected.expected_none);
    assert!(extract_properties(&[0xff, 0xfe], &vec![path(&["a"])]).values[0].is_none());
}

#[test]
fn the_token_count_of_a_body() {
    assert_eq!(token_count_of_body(br#"{"usage":{"total_tokens":42}}"#), Some(42));
    assert_eq!(token_count_of_body(br#"{"usage":{"total_tokens":"7"}}"#), Some(7));
    assert_eq!(token_count_of_body(br#"{"usage":{}}"#), None);
    assert_eq!(token_count_of_body(b"{"), None);
    assert!(parse_json(br#"[1, -2, "x", null, true, 1.5]"#).is_some());
}

#[test]
fn a_body_is_read_from_its_start_and_fed_whole() {
    let (mut task, next) = started(false, 12);
    assert!(matches!(next, UsageAction::ReadBody { len: 12 }));
    assert!(matches!(
        task.step(UsageEvent::Body(Ok(AttributeState::Available(Some(vec![1, 2]))))),
        UsageAction::Feed(ref b) if b == &vec![1, 2]
    ));
    assert!(matches!(task.step(UsageEvent::Fed), UsageAction::End(UsageEnd::Requeue)));
    // The reader is kept: the headers are not read again.
    assert!(matches!(task.step(UsageEvent::Apply), UsageAction::ReadBodyInfo));
    assert!(matches!(
        task.step(UsageEvent::BodyInfo { buffer_size: 20, end_of_stream: true }),
        UsageAction::ReadBody { len: 20 }
    ));
    assert!(matches!(
        task.step(UsageEvent::Body(Ok(AttributeState::Pending))),
        UsageAction::End(UsageEnd::Requeue)
    ));
}

#[test]
fn pending_or_failed_headers() {
    let mut task = UsageMachine::new();
    assert!(!task.pauses_filter(false));
    task.step(UsageEvent::Apply);
    assert!(matches!(
        task.step(UsageEvent::ResponseHeaders(HeaderLookup::Pending)),
        UsageAction::End(UsageEnd::Requeue)
    ));
    task.step(UsageEvent::Apply);
    assert!(matches!(
        task.step(UsageEvent::ResponseHeaders(HeaderLookup::Failed)),
        UsageAction::End(UsageEnd::Failed)
    ));
    let sse = HeaderLookup::Available(vec![(
        "content-type".to_string(),
        "text/event-stream".to_string(),
    )]);
    task.step(UsageEvent::Apply);
    task.step(UsageEvent::ResponseHeaders(sse));
    let _ = StrategyKind::Sse;
}
