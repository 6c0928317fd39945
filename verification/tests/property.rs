use wasm_shim::property::{property_source, wasm_prop, PropertySource, remote_address_host, map_source, MapSource};
use wasm_shim::property_path::Path;
use wasm_shim::headers::HeadersType;
use wasm_shim::property::header_map_of;

#[test]
fn property_path_path_tokenizes_with_escaping_basic() {
    let path: Path = r"one\.two..three\\\\.four\\\.\five.".into();
    assert_eq!(
        path.tokens(),
        vec!["one.two", "", r"three\\", r"four\.five", ""]
    );
}

#[test]
fn property_path_path_tokenizes_with_escaping_ends_with_separator() {
    let path: Path = r"one.".into();
    assert_eq!(
        path.tokens(),
        vec!["one", ""]
    );
}

#[test]
fn property_path_path_tokenizes_with_escaping_ends_with_escape() {
    let path: Path = r"one\".into();
    assert_eq!(
        path.tokens(),
        vec!["one"]
    );
}

#[test]
fn property_path_path_tokenizes_with_escaping_starts_with_separator() {
    let path: Path = r".one".into();
    assert_eq!(
        path.tokens(),
        vec!["", "one"]
    );
}

#[test]
fn property_path_path_tokenizes_with_escaping_starts_with_escape() {
    let path: Path = r"\one".into();
    assert_eq!(
        path.tokens(),
        vec!["one"]
    );
}

#[test]
fn property_path_tokenizes_with_escaping_basic() {
    let path: Path = r"one\.two..three\\\\.four\\\.\five.".into();
    assert_eq!(
        path.tokens(),
        vec!["one.two", "", r"three\\", r"four\.five", ""]
    );
}

#[test]
fn property_path_tokenizes_with_escaping_ends_with_separator() {
    let path: Path = r"one.".into();
    assert_eq!(
        path.tokens(),
        vec!["one", ""]
    );
}

#[test]
fn property_path_tokenizes_with_escaping_ends_with_escape() {
    let path: Path = r"one\".into();
    assert_eq!(
        path.tokens(),
        vec!["one"]
    );
}

#[test]
fn property_path_tokenizes_with_escaping_starts_with_separator() {
    let path: Path = r".one".into();
    assert_eq!(
        path.tokens(),
        vec!["", "one"]
    );
}

#[test]
fn property_path_tokenizes_with_escaping_starts_with_escape() {
    let path: Path = r"\one".into();
    assert_eq!(
        path.tokens(),
        vec!["one"]
    );
}

#[test]
fn flat_wasm_prop() {
    let path = wasm_prop(&["auth", "identity", "anonymous"]);
    assert_eq!(path.tokens().len(), 2);
    assert_eq!(
        *path.tokens(),
        ["filter_state", "wasm.kuadrant.auth.identity.anonymous"]
    );
}

#[test]
fn path_text_escapes_dots_and_reads_back() {
    let path: Path = r"one\.two.three".into();
    assert_eq!(path.tokens(), vec!["one.two", "three"]);
    assert_eq!(path.to_string(), r"one\.two.three");
    let again = Path::parse(path.to_string().as_str());
    assert_eq!(again.tokens(), path.tokens());
}

#[test]
fn remote_address_is_routed_to_source_address() {
    let path: Path = "source.remote_address".into();
    assert!(matches!(property_source(&path), PropertySource::RemoteAddress));
}

#[test]
fn auth_properties_are_read_from_filter_state() {
    let path: Path = "auth.identity.userid".into();
    match property_source(&path) {
        PropertySource::Host(p) => assert_eq!(
            p.tokens(),
            vec!["filter_state", "wasm.kuadrant.auth.identity.userid"]
        ),
        PropertySource::RemoteAddress => panic!("expected a host property"),
    }
}

#[test]
fn other_properties_are_read_as_named() {
    let path: Path = "request.headers".into();
    match property_source(&path) {
        PropertySource::Host(p) => assert_eq!(p.tokens(), vec!["request", "headers"]),
        PropertySource::RemoteAddress => panic!("expected a host property"),
    }
}

#[test]
fn remote_address_drops_the_port() {
    assert_eq!(remote_address_host(b"10.0.0.1:8080"), Some(b"10.0.0.1".to_vec()));
    assert_eq!(remote_address_host(b"10.0.0.1"), Some(b"10.0.0.1".to_vec()));
    assert_eq!(remote_address_host(&[0xff, 0xfe]), None);
}

#[test]
fn only_request_headers_map_is_known() {
    let known: Path = "request.headers".into();
    let unknown: Path = "response.headers".into();
    assert!(matches!(map_source(&known), MapSource::RequestHeaders));
    assert!(matches!(map_source(&unknown), MapSource::Unknown));
}

#[test]
fn own_attributes_are_set_under_the_kuadrant_namespace() {
    assert_eq!(
        wasm_shim::property::stored_attribute_path(&["request", "llm", "model"]),
        "kuadrant\\.request\\.llm\\.model"
    );
    assert_eq!(wasm_shim::property::stored_attribute_path(&[]), "kuadrant\\.");
}

#[test]
fn headers_are_set_on_header_maps_only() {
    assert_eq!(
        header_map_of(&Path::from("request.headers")),
        Some(HeadersType::HttpRequestHeaders)
    );
    assert_eq!(
        header_map_of(&Path::from("response.headers")),
        Some(HeadersType::HttpResponseHeaders)
    );
    assert_eq!(header_map_of(&Path::from("request.host")), None);
}

#[test]
fn a_path_has_one_token_more_than_unescaped_dots() {
    assert_eq!(Path::parse("a.b\\.c.d").tokens().len(), 3);
    assert_eq!(Path::parse("").tokens().len(), 1);
    assert_eq!(Path::parse("a\\\\.b").tokens().len(), 2);
}
