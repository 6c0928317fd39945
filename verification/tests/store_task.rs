use wasm_shim::ratelimit_task::AttributeState;
use wasm_shim::store::{initial_body_state, BodySource, HeaderLookup};
use wasm_shim::store_task::{StoreAction, StoreEnd, StoreEvent, StoreMachine, StorePhase};
use wasm_shim::token_usage::StrategyKind;

fn strings(v: &[&str]) -> Vec<String> {
    v.iter().map(|s| s.to_string()).collect()
}

fn request_task(fields: &[&str]) -> StoreMachine {
    StoreMachine::new(initial_body_state(&strings(fields), &vec![]), true, false, false)
}

fn response_task(fields: &[&str]) -> StoreMachine {
    StoreMachine::new(initial_body_state(&vec![], &strings(fields)), true, false, false)
}

fn chunk(bytes: &[u8]) -> StoreEvent {
    StoreEvent::Chunk(Ok(AttributeState::Available(Some(bytes.to_vec()))))
}

fn yes() -> StoreEvent {
    StoreEvent::Predicate(Ok(AttributeState::Available(true)))
}

fn value() -> StoreEvent {
    StoreEvent::Value(Ok(AttributeState::Available(())))
}

/// Reads a whole body that the host holds at once, up to the predicate.
fn read_whole_body(m: &mut StoreMachine, source: BodySource, body: &[u8], complete: bool) -> StoreAction {
    assert!(matches!(m.step(StoreEvent::ParserMade(true)), StoreAction::ReadBody(s) if s == source));
    let n = body.len();
    assert!(matches!(
        m.step(StoreEvent::Body { buffer_size: n, end_of_stream: true }),
        StoreAction::ReadChunk { source: s, offset: 0, len } if s == source && len == n
    ));
    assert!(matches!(m.step(chunk(body)), StoreAction::Feed(ref b) if b.as_slice() == body));
    assert!(matches!(m.step(StoreEvent::Fed(true)), StoreAction::Finalize));
    let after = m.step(StoreEvent::Finalized(complete));
    if complete {
        assert!(matches!(after, StoreAction::Populate(s) if s == source));
        m.step(StoreEvent::Populated)
    } else {
        after
    }
}

#[test]
fn body_field_extracted_and_stored() {
    let mut m = request_task(&["/model"]);
    assert!(matches!(
        m.step(StoreEvent::Apply),
        StoreAction::MakeParser(BodySource::Request, StrategyKind::Json)
    ));
    let body = br#"{"model":"gpt-4","stream":true}"#;
    assert!(matches!(
        read_whole_body(&mut m, BodySource::Request, body, true),
        StoreAction::TestPredicate
    ));
    assert!(matches!(m.step(yes()), StoreAction::Evaluate));
    assert!(matches!(m.step(value()), StoreAction::StoreValue(StoreEnd::Done)));
    assert_eq!(m.current_phase(), StorePhase::Idle);
}

#[test]
fn requeues_when_body_not_available() {
    let mut m = request_task(&["/model"]);
    m.step(StoreEvent::Apply);
    m.step(StoreEvent::ParserMade(true));
    assert!(matches!(
        m.step(StoreEvent::Body { buffer_size: 0, end_of_stream: false }),
        StoreAction::End(StoreEnd::Requeue)
    ));
}

#[test]
fn requeues_when_field_not_yet_found() {
    let mut m = request_task(&["/model"]);
    m.step(StoreEvent::Apply);
    m.step(StoreEvent::ParserMade(true));
    let body = br#"{"stream":tr"#;
    assert!(matches!(
        m.step(StoreEvent::Body { buffer_size: 12, end_of_stream: false }),
        StoreAction::ReadChunk { offset: 0, len: 12, .. }
    ));
    m.step(chunk(body));
    assert!(matches!(m.step(StoreEvent::Fed(true)), StoreAction::Populate(BodySource::Request)));
    assert!(matches!(m.step(StoreEvent::Populated), StoreAction::TestPredicate));
    assert!(matches!(m.step(yes()), StoreAction::Evaluate));
    // The field is not there yet: the value is pending.
    assert!(matches!(
        m.step(StoreEvent::Value(Ok(AttributeState::Pending))),
        StoreAction::End(StoreEnd::Requeue)
    ));
}

#[test]
fn fails_when_end_of_stream_without_field() {
    let mut m = request_task(&["/model"]);
    m.step(StoreEvent::Apply);
    assert!(matches!(
        read_whole_body(&mut m, BodySource::Request, br#"{"stream":true}"#, false),
        StoreAction::End(StoreEnd::Failed)
    ));
}

#[test]
fn response_body_field_extracted() {
    let mut m = response_task(&["/usage"]);
    assert!(matches!(m.step(StoreEvent::Apply), StoreAction::ReadResponseHeaders));
    assert!(matches!(
        m.step(StoreEvent::ResponseHeaders(HeaderLookup::Missing)),
        StoreAction::MakeParser(BodySource::Response, StrategyKind::Json)
    ));
    assert!(matches!(
        read_whole_body(&mut m, BodySource::Response, br#"{"usage":42}"#, true),
        StoreAction::TestPredicate
    ));
    m.step(yes());
    assert!(matches!(m.step(value()), StoreAction::StoreValue(StoreEnd::Done)));
}

#[test]
fn predicate_false_skips_store() {
    let mut m = request_task(&["/model"]);
    m.step(StoreEvent::Apply);
    read_whole_body(&mut m, BodySource::Request, br#"{"model":"gpt-4"}"#, true);
    assert!(matches!(
        m.step(StoreEvent::Predicate(Ok(AttributeState::Available(false)))),
        StoreAction::End(StoreEnd::Done)
    ));
}

#[test]
fn multi_field_expression() {
    let state = initial_body_state(&strings(&["/stream", "/model", "/model"]), &vec![]);
    let mut m = StoreMachine::new(state, true, false, false);
    m.step(StoreEvent::Apply);
    assert!(matches!(
        read_whole_body(&mut m, BodySource::Request, br#"{"model":"gpt-4","stream":"yes"}"#, true),
        StoreAction::TestPredicate
    ));
    m.step(yes());
    assert!(matches!(m.step(value()), StoreAction::StoreValue(StoreEnd::Done)));
}

#[test]
fn no_body_parser_when_expression_has_no_body_refs() {
    let mut m = StoreMachine::new(initial_body_state(&vec![], &vec![]), true, false, false);
    assert!(matches!(m.step(StoreEvent::Apply), StoreAction::TestPredicate));
    m.step(yes());
    assert!(matches!(m.step(value()), StoreAction::StoreValue(StoreEnd::Done)));
}

#[test]
fn invalid_json_pointer_fails_apply() {
    let mut m = request_task(&["not-a-valid-pointer"]);
    m.step(StoreEvent::Apply);
    assert!(matches!(
        m.step(StoreEvent::ParserMade(false)),
        StoreAction::End(StoreEnd::Failed)
    ));
}

fn sse_headers() -> HeaderLookup {
    HeaderLookup::Available(vec![(
        "content-type".to_string(),
        "text/event-stream".to_string(),
    )])
}

#[test]
fn sse_response_body_field_extracted() {
    let sse_data = b"data: {\"id\":\"chunk1\"}\n\ndata: {\"usage\":{\"total_tokens\":42}}\n\ndata: [DONE]\n\n";
    let mut m = response_task(&["/usage/total_tokens"]);
    m.step(StoreEvent::Apply);
    assert!(matches!(
        m.step(StoreEvent::ResponseHeaders(sse_headers())),
        StoreAction::MakeParser(BodySource::Response, StrategyKind::Sse)
    ));
    assert!(matches!(
        read_whole_body(&mut m, BodySource::Response, sse_data, true),
        StoreAction::TestPredicate
    ));
    m.step(yes());
    assert!(matches!(m.step(value()), StoreAction::StoreValue(StoreEnd::Done)));
}

#[test]
fn sse_response_missing_field_fails() {
    let sse_data = b"data: {\"other\":1}\n\ndata: [DONE]\n\n";
    let mut m = response_task(&["/usage/total_tokens"]);
    m.step(StoreEvent::Apply);
    m.step(StoreEvent::ResponseHeaders(sse_headers()));
    assert!(matches!(
        read_whole_body(&mut m, BodySource::Response, sse_data, false),
        StoreAction::End(StoreEnd::Failed)
    ));
}

#[test]
fn response_json_when_not_sse() {
    let mut m = response_task(&["/usage"]);
    m.step(StoreEvent::Apply);
    let headers = HeaderLookup::Available(vec![(
        "content-type".to_string(),
        "application/json".to_string(),
    )]);
    assert!(matches!(
        m.step(StoreEvent::ResponseHeaders(headers)),
        StoreAction::MakeParser(BodySource::Response, StrategyKind::Json)
    ));
}

#[test]
fn multi_chunk_body_parsing() {
    // {"model":"gpt-4","stream":true}
    let body = br#"{"model":"gpt-4","stream":true}"#;
    let mut m = request_task(&["/stream"]);
    m.step(StoreEvent::Apply);
    m.step(StoreEvent::ParserMade(true));

    // Chunk 1: partial body - hasn't reached 'stream' field yet
    assert!(matches!(
        m.step(StoreEvent::Body { buffer_size: 10, end_of_stream: false }),
        StoreAction::ReadChunk { offset: 0, len: 10, .. }
    ));
    m.step(chunk(&body[..10]));
    m.step(StoreEvent::Fed(true));
    m.step(StoreEvent::Populated);
    m.step(yes());
    assert!(matches!(
        m.step(StoreEvent::Value(Ok(AttributeState::Pending))),
        StoreAction::End(StoreEnd::Requeue)
    ));

    // Chunk 2: more data - still incomplete
    assert!(matches!(m.step(StoreEvent::Apply), StoreAction::ReadBody(BodySource::Request)));
    assert!(matches!(
        m.step(StoreEvent::Body { buffer_size: 20, end_of_stream: false }),
        StoreAction::ReadChunk { offset: 10, len: 10, .. }
    ));
    m.step(chunk(&body[10..20]));
    m.step(StoreEvent::Fed(true));
    m.step(StoreEvent::Populated);
    m.step(yes());
    assert!(matches!(
        m.step(StoreEvent::Value(Ok(AttributeState::Pending))),
        StoreAction::End(StoreEnd::Requeue)
    ));

    // Chunk 3: complete body with all fields
    m.step(StoreEvent::Apply);
    assert!(matches!(
        m.step(StoreEvent::Body { buffer_size: 31, end_of_stream: true }),
        StoreAction::ReadChunk { offset: 20, len: 11, .. }
    ));
    m.step(chunk(&body[20..]));
    assert!(matches!(m.step(StoreEvent::Fed(true)), StoreAction::Finalize));
    m.step(StoreEvent::Finalized(true));
    m.step(StoreEvent::Populated);
    m.step(yes());
    assert!(matches!(m.step(value()), StoreAction::StoreValue(StoreEnd::Done)));
}

#[test]
fn export_and_terminal_tasks() {
    let mut m = StoreMachine::new(initial_body_state(&vec![], &vec![]), false, true, true);
    assert!(matches!(m.step(StoreEvent::Apply), StoreAction::Evaluate));
    assert!(matches!(m.step(value()), StoreAction::Export));
    assert!(matches!(
        m.step(StoreEvent::Exported(true)),
        StoreAction::StoreValue(StoreEnd::Terminate)
    ));
    m.step(StoreEvent::Apply);
    m.step(value());
    assert!(matches!(
        m.step(StoreEvent::Exported(false)),
        StoreAction::End(StoreEnd::Failed)
    ));
}

#[test]
fn pending_headers_and_chunks_wait_and_stray_events_fail() {
    let mut m = response_task(&["/usage"]);
    m.step(StoreEvent::Apply);
    assert!(matches!(
        m.step(StoreEvent::ResponseHeaders(HeaderLookup::Pending)),
        StoreAction::End(StoreEnd::Requeue)
    ));
    m.step(StoreEvent::Apply);
    m.step(StoreEvent::ResponseHeaders(HeaderLookup::Failed));
    m.step(StoreEvent::ParserMade(true));
    m.step(StoreEvent::Body { buffer_size: 5, end_of_stream: false });
    assert!(matches!(
        m.step(StoreEvent::Chunk(Ok(AttributeState::Pending))),
        StoreAction::End(StoreEnd::Requeue)
    ));
    m.step(StoreEvent::Apply);
    m.step(StoreEvent::Body { buffer_size: 5, end_of_stream: false });
    assert!(matches!(
        m.step(StoreEvent::Chunk(Ok(AttributeState::Available(None)))),
        StoreAction::End(StoreEnd::Failed)
    ));
    // An event the task does not wait for fails it.
    assert!(matches!(m.step(StoreEvent::Populated), StoreAction::End(StoreEnd::Failed)));
}
