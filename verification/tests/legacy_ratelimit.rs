use wasm_shim::config::{
    Action, ConditionalData, DataItem, DataType, ExpressionItem, HeadersTarget, Operation,
    StaticItem,
};
use wasm_shim::legacy_translation::ratelimit::{
    build_descriptor_predicate, build_ratelimit_on_reply, translate_legacy_ratelimit_to_typed,
};

        #[test]
        fn test_build_descriptor_predicate_empty() {
            let conditional_data = vec![];
            assert_eq!(build_descriptor_predicate(&conditional_data), "true");
        }

        #[test]
        fn test_build_descriptor_predicate_unconditional() {
            let conditional_data = vec![ConditionalData {
                predicates: vec![],
                data: vec![DataItem {
                    item: DataType::Static(StaticItem {
                        key: "limit".to_string(),
                        value: "10".to_string(),
                    }),
                }],
            }];
            assert_eq!(build_descriptor_predicate(&conditional_data), "true");
        }

        #[test]
        fn test_build_descriptor_predicate_single_predicate() {
            let conditional_data = vec![ConditionalData {
                predicates: vec!["auth.identity.user == 'alice'".to_string()],
                data: vec![],
            }];
            assert_eq!(
                build_descriptor_predicate(&conditional_data),
                "auth.identity.user == 'alice'"
            );
        }

        #[test]
        fn test_build_descriptor_predicate_multiple_predicates_single_block() {
            let conditional_data = vec![ConditionalData {
                predicates: vec![
                    "auth.identity.user == 'alice'".to_string(),
                    "request.method == 'POST'".to_string(),
                ],
                data: vec![],
            }];
            assert_eq!(
                build_descriptor_predicate(&conditional_data),
                "((auth.identity.user == 'alice') && (request.method == 'POST'))"
            );
        }

        #[test]
        fn test_build_descriptor_predicate_multiple_blocks() {
            let conditional_data = vec![
                ConditionalData {
                    predicates: vec!["auth.identity.role == 'admin'".to_string()],
                    data: vec![],
                },
                ConditionalData {
                    predicates: vec!["auth.identity.role == 'user'".to_string()],
                    data: vec![],
                },
            ];
            assert_eq!(
                build_descriptor_predicate(&conditional_data),
                "auth.identity.role == 'admin' || auth.identity.role == 'user'"
            );
        }

        #[test]
        fn test_build_descriptor_predicate_mixed_conditional_unconditional() {
            let conditional_data = vec![
                ConditionalData {
                    predicates: vec!["auth.identity.role == 'admin'".to_string()],
                    data: vec![],
                },
                ConditionalData {
                    predicates: vec![],
                    data: vec![],
                },
            ];
            assert_eq!(build_descriptor_predicate(&conditional_data), "true");
        }

        #[test]
        fn test_build_ratelimit_on_reply_structure() {
            let on_reply = build_ratelimit_on_reply("rl_response");

            assert_eq!(on_reply.len(), 3);

            assert_eq!(on_reply[0].predicate, "rl_response.overall_code == 2");
            assert!(on_reply[0].terminal);
            assert!(matches!(on_reply[0].operation, Operation::Deny(_)));

            assert_eq!(on_reply[1].predicate, "rl_response.overall_code == 1");
            assert!(!on_reply[1].terminal);
            assert!(matches!(on_reply[1].operation, Operation::Headers(_)));

            assert_eq!(
                on_reply[2].predicate,
                "rl_response.overall_code != 1 && rl_response.overall_code != 2"
            );
            assert!(on_reply[2].terminal);
            assert!(matches!(on_reply[2].operation, Operation::Fail(_)));
        }

        #[test]
        fn test_build_ratelimit_on_reply_deny_operation() {
            let on_reply = build_ratelimit_on_reply("test_var");

            assert!(matches!(&on_reply[0].operation,
                Operation::Deny(deny_op) if
                    deny_op.deny_with == r#"DenyResponse{status: 429u, headers: test_var.response_headers_to_add, body: "Too Many Requests\n"}"#
            ));
        }

        #[test]
        fn test_build_ratelimit_on_reply_headers_operation() {
            let on_reply = build_ratelimit_on_reply("my_rl");

            assert!(matches!(&on_reply[1].operation,
                Operation::Headers(headers_op) if
                    matches!(headers_op.target, HeadersTarget::Response) &&
                    headers_op.headers == "my_rl.response_headers_to_add"
            ));
        }

        #[test]
        fn test_build_ratelimit_on_reply_fail_operation() {
            let on_reply = build_ratelimit_on_reply("rate_limit");

            assert!(matches!(&on_reply[2].operation,
                Operation::Fail(fail_op) if
                    fail_op.log_message == "Unknown rate limit response code from rate_limit"
            ));
        }

        #[test]
        fn test_translate_legacy_ratelimit_simple() {
            let action = Action {
                service: "limitador".to_string(),
                scope: "my-ratelimit".to_string(),
                predicates: vec![],
                conditional_data: vec![],
                sources: vec![],
            };
            let request_data = vec![];

            let typed = translate_legacy_ratelimit_to_typed(&action, &request_data);

            assert_eq!(typed.predicate, "true");
            assert!(!typed.terminal);

            assert!(matches!(&typed.operation,
                Operation::Grpc(grpc_op) if
                    grpc_op.var == "ratelimit_response" &&
                    grpc_op.service == "limitador" &&
                    grpc_op.message_builder == r#"envoy.service.ratelimit.v3.RateLimitRequest {
    domain: "my-ratelimit",
    hits_addend: 1u,
    descriptors: []
}"# &&
                    grpc_op.on_reply.len() == 3
            ));
        }

        #[test]
        fn test_translate_legacy_ratelimit_with_conditional_data() {
            let action = Action {
                service: "limitador".to_string(),
                scope: "my-ratelimit".to_string(),
                predicates: vec![],
                conditional_data: vec![ConditionalData {
                    predicates: vec!["auth.identity.user == 'alice'".to_string()],
                    data: vec![DataItem {
                        item: DataType::Static(StaticItem {
                            key: "tier".to_string(),
                            value: "gold".to_string(),
                        }),
                    }],
                }],
                sources: vec![],
            };
            let request_data = vec![];

            let typed = translate_legacy_ratelimit_to_typed(&action, &request_data);

            assert_eq!(typed.predicate, "auth.identity.user == 'alice'");

            assert!(matches!(&typed.operation,
                Operation::Grpc(grpc_op) if
                    grpc_op.message_builder == r#"envoy.service.ratelimit.v3.RateLimitRequest {
    domain: "my-ratelimit",
    hits_addend: 1u,
    descriptors: [envoy.extensions.common.ratelimit.v3.RateLimitDescriptor { entries: ((auth.identity.user == 'alice') ? [envoy.extensions.common.ratelimit.v3.RateLimitDescriptor.Entry { key: "tier", value: "gold" }] : []) }]
}"#
            ));
        }

        #[test]
        fn test_translate_legacy_ratelimit_with_request_data() {
            let action = Action {
                service: "limitador".to_string(),
                scope: "default".to_string(),
                predicates: vec![],
                conditional_data: vec![],
                sources: vec![],
            };
            let request_data = vec![(
                ("".to_string(), "env".to_string()),
                r#""production""#.to_string(),
            )];

            let typed = translate_legacy_ratelimit_to_typed(&action, &request_data);

            assert!(matches!(&typed.operation,
                Operation::Grpc(grpc_op) if
                    grpc_op.message_builder == r#"envoy.service.ratelimit.v3.RateLimitRequest {
    domain: "default",
    hits_addend: 1u,
    descriptors: [envoy.extensions.common.ratelimit.v3.RateLimitDescriptor { entries: [envoy.extensions.common.ratelimit.v3.RateLimitDescriptor.Entry { key: "env", value: string("production") }] }]
}"#
            ));
        }

        #[test]
        fn test_translate_legacy_ratelimit_full() {
            let action = Action {
                service: "limitador".to_string(),
                scope: "rlp-full".to_string(),
                predicates: vec![],
                conditional_data: vec![
                    ConditionalData {
                        predicates: vec!["auth.identity.role == 'admin'".to_string()],
                        data: vec![DataItem {
                            item: DataType::Static(StaticItem {
                                key: "tier".to_string(),
                                value: "gold".to_string(),
                            }),
                        }],
                    },
                    ConditionalData {
                        predicates: vec![],
                        data: vec![DataItem {
                            item: DataType::Expression(ExpressionItem {
                                key: "method".to_string(),
                                value: "request.method".to_string(),
                            }),
                        }],
                    },
                ],
                sources: vec![],
            };
            let request_data = vec![(
                ("".to_string(), "env".to_string()),
                r#""production""#.to_string(),
            )];

            let typed = translate_legacy_ratelimit_to_typed(&action, &request_data);

            assert_eq!(typed.predicate, "true");

            assert!(matches!(&typed.operation,
                Operation::Grpc(grpc_op) if
                    grpc_op.message_builder == r#"envoy.service.ratelimit.v3.RateLimitRequest {
    domain: "rlp-full",
    hits_addend: 1u,
    descriptors: [envoy.extensions.common.ratelimit.v3.RateLimitDescriptor { entries: ((auth.identity.role == 'admin') ? [envoy.extensions.common.ratelimit.v3.RateLimitDescriptor.Entry { key: "tier", value: "gold" }] : []) + [envoy.extensions.common.ratelimit.v3.RateLimitDescriptor.Entry { key: "method", value: string(request.method) }] }, envoy.extensions.common.ratelimit.v3.RateLimitDescriptor { entries: [envoy.extensions.common.ratelimit.v3.RateLimitDescriptor.Entry { key: "env", value: string("production") }] }]
}"#
            ));
        }
