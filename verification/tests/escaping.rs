use wasm_shim::legacy_translation::escape_cel_string;

#[test]
fn escaping_adds_one_backslash_per_special_character() {
    let s = "a\"b\\c\nd\re\tf";
    let e = escape_cel_string(s);
    assert_eq!(e, "a\\\"b\\\\c\\nd\\re\\tf");
    assert_eq!(e.chars().count(), s.chars().count() + 5);
    assert!(!e.contains('\n') && !e.contains('\r') && !e.contains('\t'));
}
