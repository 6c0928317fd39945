use wasm_shim::metadata::{metadata_attributes, process_metadata, process_metadata_json, MetaValue};

fn struct_from(values: Vec<(String, MetaValue)>) -> Vec<(String, MetaValue)> {
    values
}

fn string_value_from(value: String) -> MetaValue {
    MetaValue::Str(value)
}

fn struct_value_from(value: Vec<(String, MetaValue)>) -> MetaValue {
    MetaValue::Struct(value)
}

#[test]
fn attribute_get_metadata_one() {
    let metadata = struct_from(vec![(
        "identity".to_string(),
        struct_value_from(struct_from(vec![(
            "userid".to_string(),
            string_value_from("bob".to_string()),
        )])),
    )]);
    let output = process_metadata(&metadata, String::new());
    assert_eq!(output.len(), 1);
    assert_eq!(
        output,
        vec![("identity\\.userid".to_string(), "bob".to_string())]
    );
    let output = process_metadata_json(&metadata, String::new());
    assert_eq!(output.len(), 1);
    assert_eq!(
        output,
        vec![("identity\\.userid".to_string(), "\"bob\"".to_string())]
    );
}

#[test]
fn attribute_get_metadata_two() {
    let metadata = struct_from(vec![(
        "identity".to_string(),
        struct_value_from(struct_from(vec![
            ("userid".to_string(), string_value_from("bob".to_string())),
            ("type".to_string(), string_value_from("test".to_string())),
        ])),
    )]);
    let output = process_metadata(&metadata, String::new());
    assert_eq!(output.len(), 2);
    assert!(output.contains(&("identity\\.userid".to_string(), "bob".to_string())));
    assert!(output.contains(&("identity\\.type".to_string(), "test".to_string())));
    let output = process_metadata_json(&metadata, String::new());
    assert_eq!(output.len(), 2);
    assert!(output.contains(&("identity\\.userid".to_string(), "\"bob\"".to_string())));
    assert!(output.contains(&("identity\\.type".to_string(), "\"test\"".to_string())));
}

#[test]
fn attribute_get_metadata_three() {
    let metadata = struct_from(vec![
        (
            "identity".to_string(),
            struct_value_from(struct_from(vec![(
                "userid".to_string(),
                string_value_from("bob".to_string()),
            )])),
        ),
        (
            "other_data".to_string(),
            string_value_from("other_value".to_string()),
        ),
    ]);
    let output = process_metadata(&metadata, String::new());
    assert_eq!(output.len(), 2);
    assert!(output.contains(&("identity\\.userid".to_string(), "bob".to_string())));
    assert!(output.contains(&("other_data".to_string(), "other_value".to_string())));
    let output = process_metadata_json(&metadata, String::new());
    assert_eq!(output.len(), 2);
    assert!(output.contains(&("identity\\.userid".to_string(), "\"bob\"".to_string())));
    assert!(output.contains(&("other_data".to_string(), "\"other_value\"".to_string())));
}

#[test]
fn json_metadata_keeps_scalars_and_escapes_strings() {
    let metadata = vec![
        ("n".to_string(), MetaValue::Scalar("42.0".to_string())),
        ("q".to_string(), MetaValue::Str("a\"b\n".to_string())),
        ("l".to_string(), MetaValue::Other),
    ];
    let output = process_metadata_json(&metadata, String::new());
    assert_eq!(
        output,
        vec![
            ("n".to_string(), "42.0".to_string()),
            ("q".to_string(), "\"a\\\"b\\n\"".to_string()),
        ]
    );
    assert!(process_metadata(&metadata, String::new()).len() == 1);
}

#[test]
fn metadata_attributes_are_namespaced() {
    let metadata = vec![(
        "identity".to_string(),
        MetaValue::Struct(vec![("userid".to_string(), MetaValue::Str("bob".to_string()))]),
    )];
    assert_eq!(
        metadata_attributes(&metadata),
        vec![("kuadrant\\.identity\\.userid".to_string(), "bob".to_string())]
    );
}
