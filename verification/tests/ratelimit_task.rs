use wasm_shim::cel::CelValue;
use wasm_shim::ratelimit_task::{
    add_request_data_entries, build_descriptors, decide, get_known_attributes, AttributeError,
    AttributeState, ConditionalDataEvaluation, DataEvaluation, RateLimitStep, RequestDataEntry,
};
use wasm_shim::tasks::{generate_ratelimit_request_cel, RateLimitDescriptor};
use wasm_shim::ratelimit_task::{build_single_descriptor, ResolvedData};

fn item(key: &str, value: CelValue) -> DataEvaluation {
    DataEvaluation {
        key: key.to_string(),
        value: Ok(AttributeState::Available(value)),
    }
}

fn s(v: &str) -> CelValue {
    CelValue::Str(v.to_string())
}

fn set(predicates: bool, data: Vec<DataEvaluation>) -> ConditionalDataEvaluation {
    ConditionalDataEvaluation {
        predicates: Ok(AttributeState::Available(predicates)),
        data,
    }
}

fn available(
    r: Result<AttributeState<Vec<RateLimitDescriptor>>, String>,
) -> Vec<RateLimitDescriptor> {
    match r {
        Ok(AttributeState::Available(ds)) => ds,
        Ok(AttributeState::Pending) => unreachable!("Expected Ready, got Pending"),
        Err(e) => panic!("unexpected error {e}"),
    }
}

#[test]
fn test_default_values_when_no_known_attributes() {
    let (hits_addend, domain) = get_known_attributes(&vec![]).unwrap();

    assert_eq!(hits_addend, 1);
    assert_eq!(domain, "");
}

#[test]
fn test_default_values_with_known_attributes() {
    let conditional_data = set(
        true,
        vec![
            item("ratelimit.domain", s("example.org")),
            item("ratelimit.hits_addend", CelValue::Int(5)),
        ],
    );

    let (hits_addend, domain) = get_known_attributes(&vec![conditional_data]).unwrap();

    assert_eq!(hits_addend, 5);
    assert_eq!(domain, "example.org");
}

#[test]
fn test_build_descriptors_filters_known_attributes() {
    let conditional_data = set(
        true,
        vec![
            item("ratelimit.domain", s("my-domain")),
            item("ratelimit.hits_addend", CelValue::Int(5)),
            item("actual_key", s("actual_value")),
        ],
    );

    let descriptors = available(build_descriptors(&vec![conditional_data]));

    assert_eq!(descriptors.len(), 1);
    // Known attributes should be filtered out
    assert_eq!(descriptors[0].entries.len(), 1);
    assert_eq!(descriptors[0].entries[0].key, "actual_key");
}

#[test]
fn test_build_descriptors_with_one_conditional_failing_predicate() {
    let conditional_data = vec![
        // `true && false`
        set(false, vec![item("test_key", s("test_value"))]),
        // `true && true`
        set(true, vec![item("test_key2", s("test_value2"))]),
    ];

    let descriptors = available(build_descriptors(&conditional_data));

    assert_eq!(descriptors.len(), 1);
    assert_eq!(descriptors[0].entries.len(), 1);
    assert_eq!(descriptors[0].entries[0].key, "test_key2");
}

#[test]
fn test_build_descriptors_with_passing_predicates() {
    let conditional_data = vec![
        set(true, vec![item("key_1", CelValue::Int(42))]),
        set(true, vec![item("key_2", CelValue::Int(420))]),
    ];

    let descriptors = available(build_descriptors(&conditional_data));

    assert_eq!(descriptors.len(), 1);
    assert_eq!(descriptors[0].entries.len(), 2);
    assert_eq!(descriptors[0].entries[0].key, "key_1");
    assert_eq!(descriptors[0].entries[0].value, "42");
    assert_eq!(descriptors[0].entries[1].key, "key_2");
    assert_eq!(descriptors[0].entries[1].value, "420");
}

#[test]
fn test_build_descriptors_with_failing_conditional_data_predicate() {
    let conditional_data = set(false, vec![item("test_key", s("test_value"))]);

    let descriptors = available(build_descriptors(&vec![conditional_data]));

    assert_eq!(descriptors.len(), 0);
}

#[test]
fn test_build_descriptors_with_passing_conditional_data_predicate() {
    let conditional_data = set(true, vec![item("test_key", s("test_value"))]);

    let descriptors = available(build_descriptors(&vec![conditional_data]));

    assert_eq!(descriptors.len(), 1);
    assert_eq!(descriptors[0].entries.len(), 1);
}

#[test]
fn test_task_outcome_done() {
    let outcome = decide(
        "test",
        &Ok(AttributeState::Available(false)),
        &vec![],
        &vec![],
        false,
    );

    assert!(matches!(outcome, RateLimitStep::Done));
}

#[test]
fn test_task_outcome_deferred() {
    let conditional_data = set(true, vec![item("test_key", s("test_value"))]);

    let outcome = decide(
        "test",
        &Ok(AttributeState::Available(true)),
        &vec![conditional_data],
        &vec![],
        false,
    );

    match outcome {
        RateLimitStep::Dispatch {
            domain,
            hits_addend,
            descriptors,
            request,
        } => {
            assert_eq!(domain, "test");
            assert_eq!(hits_addend, 1);
            assert_eq!(descriptors.len(), 1);
            assert_eq!(
                request,
                generate_ratelimit_request_cel("test", 1, &descriptors)
            );
        }
        other => panic!("unexpected {other:?}"),
    }
}

#[test]
fn scalars_are_sent_as_their_text() {
    let data = vec![set(
        true,
        vec![
            item("b", CelValue::Bool(true)),
            item("n", CelValue::Null),
            item("u", CelValue::UInt(7)),
            item("i", CelValue::Int(-3)),
            item("f", CelValue::Float("1.5".to_string())),
        ],
    )];
    let descriptors = available(build_descriptors(&data));
    let values: Vec<&str> = descriptors[0]
        .entries
        .iter()
        .map(|e| e.value.as_str())
        .collect();
    assert_eq!(values, vec!["true", "null", "7", "-3", "1.5"]);
}

#[test]
fn a_non_scalar_value_is_refused() {
    let data = vec![set(true, vec![item("l", CelValue::List(vec![]))])];
    assert_eq!(
        build_descriptors(&data).unwrap_err(),
        "Only scalar values can be sent as data"
    );
}

#[test]
fn an_evaluation_error_names_the_key() {
    let data = vec![set(
        true,
        vec![DataEvaluation {
            key: "k".to_string(),
            value: Err("boom".to_string()),
        }],
    )];
    assert_eq!(
        build_descriptors(&data).unwrap_err(),
        "CEL evaluation error for 'k': boom"
    );
}

#[test]
fn a_pending_value_makes_the_descriptors_pending() {
    let data = vec![
        set(true, vec![item("a", s("1"))]),
        set(
            true,
            vec![DataEvaluation {
                key: "b".to_string(),
                value: Ok(AttributeState::Pending),
            }],
        ),
    ];
    assert!(matches!(
        build_descriptors(&data),
        Ok(AttributeState::Pending)
    ));
    let pending_predicates = vec![ConditionalDataEvaluation {
        predicates: Ok(AttributeState::Pending),
        data: vec![],
    }];
    assert!(matches!(
        build_descriptors(&pending_predicates),
        Ok(AttributeState::Pending)
    ));
}

#[test]
fn known_attribute_errors() {
    let empty = vec![set(true, vec![item("ratelimit.domain", s(""))])];
    assert!(matches!(
        get_known_attributes(&empty),
        Err(AttributeError::Parse(m)) if m == "ratelimit.domain cannot be empty"
    ));
    let not_string = vec![set(true, vec![item("ratelimit.domain", CelValue::Int(1))])];
    assert!(matches!(
        get_known_attributes(&not_string),
        Err(AttributeError::Parse(m)) if m == "ratelimit.domain must be string"
    ));
    for bad in [
        CelValue::Int(-1),
        CelValue::Int(4294967296),
        CelValue::UInt(4294967296),
        s("3"),
    ] {
        let data = vec![set(true, vec![item("ratelimit.hits_addend", bad)])];
        assert!(matches!(
            get_known_attributes(&data),
            Err(AttributeError::Parse(m)) if m == "ratelimit.hits_addend must be 0 <= X <= u32::MAX"
        ));
    }
    let pending = vec![set(
        false,
        vec![DataEvaluation {
            key: "ratelimit.hits_addend".to_string(),
            value: Ok(AttributeState::Pending),
        }],
    )];
    assert!(matches!(
        get_known_attributes(&pending),
        Err(AttributeError::NotAvailable(m)) if m == "Attribute ratelimit.hits_addend is pending"
    ));
    let failed = vec![set(
        true,
        vec![DataEvaluation {
            key: "ratelimit.domain".to_string(),
            value: Err("oops".to_string()),
        }],
    )];
    assert!(matches!(
        get_known_attributes(&failed),
        Err(AttributeError::Retrieval(m)) if m == "CEL evaluation error: oops"
    ));
}

#[test]
fn the_largest_hits_addend_is_accepted() {
    let data = vec![set(
        true,
        vec![item("ratelimit.hits_addend", CelValue::UInt(4294967295))],
    )];
    assert_eq!(get_known_attributes(&data).unwrap().0, 4294967295);
}

#[test]
fn request_data_is_added_as_its_own_descriptor() {
    let rd = vec![
        RequestDataEntry {
            domain: "".to_string(),
            field: "user".to_string(),
            result: Ok(AttributeState::Available(s("alice"))),
        },
        RequestDataEntry {
            domain: "metrics.labels".to_string(),
            field: "group".to_string(),
            result: Ok(AttributeState::Available(s("admins"))),
        },
        RequestDataEntry {
            domain: "auth".to_string(),
            field: "tier".to_string(),
            result: Ok(AttributeState::Available(s("gold"))),
        },
        RequestDataEntry {
            domain: "x".to_string(),
            field: "n".to_string(),
            result: Ok(AttributeState::Available(CelValue::Int(1))),
        },
    ];
    let out = add_request_data_entries(vec![], &rd);
    assert_eq!(out.len(), 1);
    let keys: Vec<(&str, &str)> = out[0]
        .entries
        .iter()
        .map(|e| (e.key.as_str(), e.value.as_str()))
        .collect();
    assert_eq!(
        keys,
        vec![("user", "alice"), ("group", "admins"), ("auth.tier", "gold")]
    );
    assert!(add_request_data_entries(vec![], &vec![]).is_empty());
}

#[test]
fn a_domain_override_and_request_data_reach_the_request() {
    let data = vec![set(
        true,
        vec![
            item("ratelimit.domain", s("other")),
            item("ratelimit.hits_addend", CelValue::UInt(3)),
            item("k", s("v")),
        ],
    )];
    let rd = vec![RequestDataEntry {
        domain: "".to_string(),
        field: "user".to_string(),
        result: Ok(AttributeState::Available(s("bob"))),
    }];
    match decide("scope", &Ok(AttributeState::Available(true)), &data, &rd, true) {
        RateLimitStep::Dispatch {
            domain,
            hits_addend,
            descriptors,
            request,
        } => {
            assert_eq!(domain, "other");
            assert_eq!(hits_addend, 3);
            assert_eq!(descriptors.len(), 2);
            assert_eq!(descriptors[1].entries[0].key, "user");
            assert!(request.contains("domain: \"other\""));
            assert!(request.contains("hits_addend: 3u"));
        }
        other => panic!("unexpected {other:?}"),
    }
}

#[test]
fn pending_predicates_wait_or_fail_at_the_end_of_the_stream() {
    assert!(matches!(
        decide("s", &Ok(AttributeState::Pending), &vec![], &vec![], false),
        RateLimitStep::Requeue
    ));
    assert!(matches!(
        decide("s", &Ok(AttributeState::Pending), &vec![], &vec![], true),
        RateLimitStep::Failed
    ));
    assert!(matches!(
        decide("s", &Err("bad".to_string()), &vec![], &vec![], false),
        RateLimitStep::Failed
    ));
    // No descriptor: nothing to limit.
    assert!(matches!(
        decide("s", &Ok(AttributeState::Available(true)), &vec![], &vec![], false),
        RateLimitStep::Done
    ));
}

#[test]
fn legacy_descriptors_keep_every_item() {
    let d = build_single_descriptor(&vec![
        ResolvedData::Static {
            key: "rlp-ns-A/rlp-name-A".to_string(),
            value: "1".to_string(),
        },
        ResolvedData::Evaluated {
            key: "username".to_string(),
            value: s("alice"),
        },
        ResolvedData::Evaluated {
            key: "n".to_string(),
            value: CelValue::UInt(3),
        },
    ]);
    let pairs: Vec<(&str, &str)> = d
        .entries
        .iter()
        .map(|e| (e.key.as_str(), e.value.as_str()))
        .collect();
    assert_eq!(
        pairs,
        vec![("rlp-ns-A/rlp-name-A", "1"), ("username", "alice"), ("n", "3")]
    );
}
