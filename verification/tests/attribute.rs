use wasm_shim::attribute::{attribute_from_property, to_decimal, Attribute, Timestamp};

#[test]
fn parses_little_endian_integers() {
    assert_eq!(i64::parse(vec![1, 0, 0, 0, 0, 0, 0, 0]), Ok(1));
    assert_eq!(i64::parse(vec![0xff; 8]), Ok(-1));
    assert_eq!(u64::parse(vec![0, 1, 0, 0, 0, 0, 0, 0]), Ok(256));
    assert_eq!(u64::parse(vec![0xff; 8]), Ok(u64::MAX));
}

#[test]
fn rejects_integers_of_the_wrong_length() {
    assert_eq!(
        i64::parse(vec![1, 2, 3]),
        Err("parse: Int value expected to be 8 bytes, but got 3".to_string())
    );
    assert_eq!(
        u64::parse(vec![]),
        Err("parse: UInt value expected to be 8 bytes, but got 0".to_string())
    );
}

#[test]
fn parses_booleans_from_one_byte() {
    assert_eq!(bool::parse(vec![1]), Ok(true));
    assert_eq!(bool::parse(vec![2]), Ok(false));
    assert_eq!(bool::parse(vec![3]), Ok(true));
    assert_eq!(
        bool::parse(vec![1, 1]),
        Err("parse: Bool value expected to be 1 byte, but got 2".to_string())
    );
}

#[test]
fn parses_utf8_strings() {
    assert_eq!(String::parse(b"hello".to_vec()), Ok("hello".to_string()));
    let err = String::parse(vec![0xff]).unwrap_err();
    assert!(err.starts_with("parse: failed to parse selector String value, error: "));
}

#[test]
fn bytes_are_kept() {
    assert_eq!(Vec::<u8>::parse(vec![9, 8]), Ok(vec![9, 8]));
}

#[test]
fn decimal_text() {
    assert_eq!(to_decimal(0), "0");
    assert_eq!(to_decimal(1234567890), "1234567890");
}

#[test]
fn attribute_errors_name_the_attribute() {
    let missing: Result<String, String> = attribute_from_property("request.path", Ok(None));
    assert_eq!(missing, Err("get_attribute: not found or null: request.path".to_string()));
    let failed: Result<String, String> =
        attribute_from_property("request.path", Err("NotFound".to_string()));
    assert_eq!(failed, Err("get_attribute: error: NotFound".to_string()));
    let found: Result<String, String> =
        attribute_from_property("request.path", Ok(Some(b"/a".to_vec())));
    assert_eq!(found, Ok("/a".to_string()));
}

#[test]
fn timestamps_are_nanoseconds_since_the_epoch() {
    let nanos: i64 = -1_500_000_000;
    assert_eq!(
        Timestamp::parse(nanos.to_le_bytes().to_vec()),
        Ok(Timestamp { nanos })
    );
    assert_eq!(
        Timestamp::parse(vec![1, 2, 3]),
        Err("parse: Timestamp expected to be 8 bytes, but got 3".to_string())
    );
}
