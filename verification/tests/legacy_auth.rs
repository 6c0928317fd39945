use wasm_shim::legacy_translation::auth::{build_auth_message_builder, build_metadata_context_cel};

        #[test]
        fn test_build_auth_message_builder_basic() {
            let message = build_auth_message_builder("test-scope", &[]);

            let expected = r#"envoy.service.auth.v3.CheckRequest {
  attributes: envoy.service.auth.v3.AttributeContext {
    request: envoy.service.auth.v3.AttributeContext.Request {
      time: request.time,
      http: envoy.service.auth.v3.AttributeContext.HttpRequest {
        host: request.host,
        method: request.method,
        scheme: request.scheme,
        path: request.path,
        protocol: request.protocol,
        headers: request.headers
      }
    },
    destination: envoy.service.auth.v3.AttributeContext.Peer {
      address: envoy.config.core.v3.Address {
        socket_address: envoy.config.core.v3.SocketAddress {
          address: destination.address,
          port_value: uint(destination.port)
        }
      }
    },
    source: envoy.service.auth.v3.AttributeContext.Peer {
      address: envoy.config.core.v3.Address {
        socket_address: envoy.config.core.v3.SocketAddress {
          address: source.address,
          port_value: uint(source.port)
        }
      }
    },
    context_extensions: {"host": "test-scope"},
    metadata_context: envoy.config.core.v3.Metadata{}
  }
}"#;
            assert_eq!(message, expected);
        }

        #[test]
        fn test_build_auth_message_builder_escapes_scope() {
            let message = build_auth_message_builder("test\"scope", &[]);

            let expected = r#"envoy.service.auth.v3.CheckRequest {
  attributes: envoy.service.auth.v3.AttributeContext {
    request: envoy.service.auth.v3.AttributeContext.Request {
      time: request.time,
      http: envoy.service.auth.v3.AttributeContext.HttpRequest {
        host: request.host,
        method: request.method,
        scheme: request.scheme,
        path: request.path,
        protocol: request.protocol,
        headers: request.headers
      }
    },
    destination: envoy.service.auth.v3.AttributeContext.Peer {
      address: envoy.config.core.v3.Address {
        socket_address: envoy.config.core.v3.SocketAddress {
          address: destination.address,
          port_value: uint(destination.port)
        }
      }
    },
    source: envoy.service.auth.v3.AttributeContext.Peer {
      address: envoy.config.core.v3.Address {
        socket_address: envoy.config.core.v3.SocketAddress {
          address: source.address,
          port_value: uint(source.port)
        }
      }
    },
    context_extensions: {"host": "test\"scope"},
    metadata_context: envoy.config.core.v3.Metadata{}
  }
}"#;
            assert_eq!(message, expected);
        }

        #[test]
        fn test_build_metadata_context_cel_empty() {
            let cel = build_metadata_context_cel(&[]);
            assert_eq!(cel, "envoy.config.core.v3.Metadata{}");
        }

        #[test]
        fn test_build_metadata_context_cel_single_field() {
            let request_data = vec![(
                ("".to_string(), "userid".to_string()),
                "auth.identity.userid".to_string(),
            )];
            let cel = build_metadata_context_cel(&request_data);

            let expected = r#"envoy.config.core.v3.Metadata{filter_metadata: {"io.kuadrant": google.protobuf.Struct{fields: {"userid": google.protobuf.Value{struct_value: google.protobuf.Struct{fields: {"cel_expr": google.protobuf.Value{string_value: "auth.identity.userid"}}}}}}}}"#;
            assert_eq!(cel, expected);
        }

        #[test]
        fn test_build_metadata_context_cel_multiple_domains() {
            let request_data = vec![
                (
                    ("".to_string(), "userid".to_string()),
                    "auth.identity.userid".to_string(),
                ),
                (
                    ("custom".to_string(), "role".to_string()),
                    "auth.identity.role".to_string(),
                ),
            ];
            let cel = build_metadata_context_cel(&request_data);

            let expected = r#"envoy.config.core.v3.Metadata{filter_metadata: {"io.kuadrant": google.protobuf.Struct{fields: {"userid": google.protobuf.Value{struct_value: google.protobuf.Struct{fields: {"cel_expr": google.protobuf.Value{string_value: "auth.identity.userid"}}}}}}, "io.kuadrant.custom": google.protobuf.Struct{fields: {"role": google.protobuf.Value{struct_value: google.protobuf.Struct{fields: {"cel_expr": google.protobuf.Value{string_value: "auth.identity.role"}}}}}}}}"#;
            assert_eq!(cel, expected);
        }

        #[test]
        fn test_build_auth_message_builder_with_request_data() {
            let request_data = vec![(
                ("".to_string(), "userid".to_string()),
                "auth.identity.userid".to_string(),
            )];
            let message = build_auth_message_builder("my-scope", &request_data);

            let expected = r#"envoy.service.auth.v3.CheckRequest {
  attributes: envoy.service.auth.v3.AttributeContext {
    request: envoy.service.auth.v3.AttributeContext.Request {
      time: request.time,
      http: envoy.service.auth.v3.AttributeContext.HttpRequest {
        host: request.host,
        method: request.method,
        scheme: request.scheme,
        path: request.path,
        protocol: request.protocol,
        headers: request.headers
      }
    },
    destination: envoy.service.auth.v3.AttributeContext.Peer {
      address: envoy.config.core.v3.Address {
        socket_address: envoy.config.core.v3.SocketAddress {
          address: destination.address,
          port_value: uint(destination.port)
        }
      }
    },
    source: envoy.service.auth.v3.AttributeContext.Peer {
      address: envoy.config.core.v3.Address {
        socket_address: envoy.config.core.v3.SocketAddress {
          address: source.address,
          port_value: uint(source.port)
        }
      }
    },
    context_extensions: {"host": "my-scope"},
    metadata_context: envoy.config.core.v3.Metadata{filter_metadata: {"io.kuadrant": google.protobuf.Struct{fields: {"userid": google.protobuf.Value{struct_value: google.protobuf.Struct{fields: {"cel_expr": google.protobuf.Value{string_value: "auth.identity.userid"}}}}}}}}
  }
}"#;
            assert_eq!(message, expected);
        }

#[test]
fn metadata_context_does_not_depend_on_how_domains_interleave() {
    let a = (("".to_string(), "user".to_string()), "auth.identity.user".to_string());
    let b = (("x".to_string(), "k".to_string()), "request.path".to_string());
    let c = (("".to_string(), "group".to_string()), "auth.identity.group".to_string());
    let one = build_metadata_context_cel(&[a.clone(), b.clone(), c.clone()]);
    let other = build_metadata_context_cel(&[b, a, c]);
    assert_eq!(one, other);
    let message = build_auth_message_builder("s", &[]);
    assert!(message.contains(&build_metadata_context_cel(&[])));
}
