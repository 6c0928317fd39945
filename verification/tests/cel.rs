use wasm_shim::cel::strings::{
    char_at, index_of, join, last_index_of, lower_ascii, replace, split, substring, trim,
    upper_ascii,
};
use wasm_shim::cel::{
    decode_query_string, known_attribute_for, new_well_known_attribute_map, CelValue,
    FunctionError, FunctionErrorKind, QueryValue, ValueKind,
};
use wasm_shim::property_path::Path;

fn s(v: &str) -> CelValue {
    CelValue::Str(v.to_string())
}

fn text(r: Result<CelValue, FunctionError>) -> String {
    match r {
        Ok(CelValue::Str(v)) => v,
        other => panic!("expected a string, got {:?}", other),
    }
}

fn uint(r: Result<CelValue, FunctionError>) -> u64 {
    match r {
        Ok(CelValue::UInt(v)) => v,
        other => panic!("expected an unsigned integer, got {:?}", other),
    }
}

fn minus_one(r: Result<CelValue, FunctionError>) -> bool {
    matches!(r, Ok(CelValue::Int(-1)))
}

fn strings(r: Result<CelValue, FunctionError>) -> Vec<String> {
    match r {
        Ok(CelValue::List(items)) => items
            .into_iter()
            .map(|v| match v {
                CelValue::Str(x) => x,
                other => panic!("expected a string, got {:?}", other),
            })
            .collect(),
        other => panic!("expected a list, got {:?}", other),
    }
}

fn kind(r: Result<CelValue, FunctionError>) -> FunctionErrorKind {
    match r {
        Err(e) => e.kind,
        other => panic!("expected an error, got {:?}", other),
    }
}

#[test]
fn extended_string_fn() {
    assert_eq!(text(char_at("abc", 1)), "b");

    let hm = "hello mellow";
    assert_eq!(uint(index_of(hm, "", &[s("")])), 0);
    assert_eq!(uint(index_of(hm, "ello", &[s("ello")])), 1);
    assert!(minus_one(index_of(hm, "jello", &[s("jello")])));
    assert_eq!(uint(index_of(hm, "", &[s(""), CelValue::Int(2)])), 2);
    assert!(minus_one(index_of(hm, "ello", &[s("ello"), CelValue::Int(20)])));

    assert_eq!(uint(last_index_of(hm, "", &[s("")])), 12);
    assert_eq!(uint(last_index_of(hm, "ello", &[s("ello")])), 7);
    assert!(minus_one(last_index_of(hm, "jello", &[s("jello")])));
    assert_eq!(uint(last_index_of(hm, "ello", &[s("ello"), CelValue::Int(6)])), 1);
    assert!(minus_one(last_index_of(hm, "ello", &[s("ello"), CelValue::Int(20)])));

    let words = vec![s("hello"), s("mellow")];
    assert_eq!(text(join(&words, &[])), "hellomellow");
    assert_eq!(text(join(&vec![], &[])), "");
    assert_eq!(text(join(&words, &[s(" ")])), "hello mellow");

    assert_eq!(text(lower_ascii("TacoCat")), "tacocat");
    assert_eq!(text(lower_ascii("TacoCÆt Xii")), "tacocÆt xii");
    assert_eq!(text(upper_ascii("TacoCat")), "TACOCAT");
    assert_eq!(text(upper_ascii("TacoCÆt Xii")), "TACOCÆT XII");

    assert_eq!(text(trim("  \ttrim\n    ")), "trim");

    let hh = "hello hello";
    assert_eq!(text(replace(hh, &[s("he"), s("we")])), "wello wello");
    assert_eq!(text(replace(hh, &[s("he"), s("we"), CelValue::Int(-1)])), "wello wello");
    assert_eq!(text(replace(hh, &[s("he"), s("we"), CelValue::Int(1)])), "wello hello");
    assert_eq!(text(replace(hh, &[s("he"), s("we"), CelValue::Int(0)])), "hello hello");
    assert_eq!(text(replace(hh, &[s(""), s("_")])), "_h_e_l_l_o_ _h_e_l_l_o_");
    assert_eq!(text(replace(hh, &[s("h"), s("")])), "ello ello");

    let hhh = "hello hello hello";
    assert_eq!(strings(split(hhh, &[s(" ")])), vec!["hello", "hello", "hello"]);
    assert_eq!(strings(split(hhh, &[s(" "), CelValue::Int(0)])), Vec::<String>::new());
    assert_eq!(strings(split(hhh, &[s(" "), CelValue::Int(1)])), vec!["hello hello hello"]);
    assert_eq!(strings(split(hhh, &[s(" "), CelValue::Int(2)])), vec!["hello", "hello hello"]);
    assert_eq!(strings(split(hhh, &[s(" "), CelValue::Int(-1)])), vec!["hello", "hello", "hello"]);

    assert_eq!(text(substring("tacocat", &[CelValue::Int(4)])), "cat");
    assert_eq!(text(substring("tacocat", &[CelValue::Int(0), CelValue::Int(4)])), "taco");
    assert_eq!(text(substring("ta©o©αT", &[CelValue::Int(2), CelValue::Int(6)])), "©o©α");
}

#[test]
fn string_fn_errors() {
    assert_eq!(kind(char_at("abc", 3)), FunctionErrorKind::NoSuchIndex);
    assert_eq!(kind(char_at("abc", -1)), FunctionErrorKind::NoSuchIndex);
    assert_eq!(kind(index_of("abc", "a", &[s("a"), s("x")])), FunctionErrorKind::WrongArgumentType(1));
    assert_eq!(kind(index_of("abc", "a", &[s("a"), CelValue::Int(0), CelValue::Int(0)])), FunctionErrorKind::WrongArgumentCount);
    assert_eq!(kind(join(&vec![s("a"), CelValue::Int(1)], &[])), FunctionErrorKind::NotAllStrings);
    assert_eq!(kind(join(&vec![s("a")], &[CelValue::Int(1)])), FunctionErrorKind::WrongArgumentType(0));
    assert_eq!(kind(replace("abc", &[s("a")])), FunctionErrorKind::WrongArgumentCount);
    assert_eq!(kind(replace("abc", &[CelValue::Null, s("b")])), FunctionErrorKind::WrongArgumentType(0));
    assert_eq!(kind(replace("abc", &[s("a"), CelValue::Bool(true)])), FunctionErrorKind::WrongArgumentType(1));
    assert_eq!(kind(replace("abc", &[s("a"), s("b"), s("c")])), FunctionErrorKind::WrongArgumentType(2));
    assert_eq!(kind(split("abc", &[])), FunctionErrorKind::WrongArgumentCount);
    assert_eq!(kind(split("abc", &[CelValue::Int(1)])), FunctionErrorKind::WrongArgumentType(0));
    assert_eq!(kind(substring("abc", &[CelValue::Int(2), CelValue::Int(1)])), FunctionErrorKind::EndBeforeStart);
    assert_eq!(kind(substring("abc", &[s("x")])), FunctionErrorKind::WrongArgumentType(0));
    match char_at("abc", 5) {
        Err(e) => assert_eq!(e.function, "String.charAt"),
        Ok(v) => panic!("unexpected {:?}", v),
    }
}

#[test]
fn string_fn_byte_indices() {
    // `©` takes two bytes, so the byte index of `o` is 4.
    assert_eq!(uint(index_of("ta©o", "o", &[s("o")])), 4);
    assert_eq!(uint(index_of("©a©a", "a", &[s("a"), CelValue::Int(3)])), 5);
    assert_eq!(uint(last_index_of("©a©a", "a", &[s("a"), CelValue::UInt(3)])), 2);
}

#[test]
fn split_with_empty_separator() {
    assert_eq!(strings(split("ab", &[s("")])), vec!["", "a", "b", ""]);
    assert_eq!(strings(split("", &[s("")])), vec!["", ""]);
    assert_eq!(strings(split("abc", &[s(""), CelValue::Int(3)])), vec!["", "a", "bc"]);
}

#[test]
fn split_then_join_gives_back_the_string() {
    for (text_in, sep) in [("a,b,,c,", ","), ("abc", ""), ("", "x"), ("x--y--", "--")] {
        let pieces = split(text_in, &[s(sep)]);
        let list = match pieces {
            Ok(CelValue::List(items)) => items,
            other => panic!("expected a list, got {:?}", other),
        };
        assert_eq!(text(join(&list, &[s(sep)])), text_in);
    }
}

fn lookup<'a>(entries: &'a [(String, QueryValue)], key: &str) -> &'a QueryValue {
    &entries.iter().find(|(k, _)| k == key).expect("present").1
}

#[test]
fn decodes_query_string() {
    let q = "param1=%F0%9F%91%BE%20&param2=Exterminate%21&%F0%9F%91%BE=123&%F0%9F%91%BE=456&%F0%9F%91%BE";
    let all = decode_query_string(q, &[s(q), CelValue::Bool(true)]);
    assert!(matches!(lookup(&all, "param1"), QueryValue::One(v) if v == "👾 "));
    assert!(matches!(lookup(&all, "param2"), QueryValue::One(v) if v == "Exterminate!"));
    match lookup(&all, "👾") {
        QueryValue::Many(v) => {
            assert_eq!(v[0], "123");
            assert_eq!(v[1], "456");
            assert_eq!(v[2], "");
        }
        other => panic!("expected a list, got {:?}", other),
    }

    let first = decode_query_string(q, &[s(q), CelValue::Bool(false)]);
    assert!(matches!(lookup(&first, "param2"), QueryValue::One(v) if v == "Exterminate!"));
    assert!(matches!(lookup(&first, "👾"), QueryValue::One(v) if v == "123"));

    let single = decode_query_string("%F0%9F%91%BE", &[s("%F0%9F%91%BE")]);
    assert_eq!(single.len(), 1);
    assert_eq!(single[0].0, "👾");
    assert!(matches!(&single[0].1, QueryValue::One(v) if v.is_empty()));
}

#[test]
fn query_string_keeps_undecodable_text() {
    // `%FF` does not decode to UTF-8, so the text stays as it was.
    let entries = decode_query_string("a=%FF&b=%41", &[s("a=%FF&b=%41")]);
    assert!(matches!(lookup(&entries, "a"), QueryValue::One(v) if v == "%FF"));
    assert!(matches!(lookup(&entries, "b"), QueryValue::One(v) if v == "A"));
}

#[test]
fn finds_known_attributes() {
    let path = Path::parse("request.method");
    let attr = known_attribute_for(&path).expect("Must be a hit!");
    assert!(attr.path.same_as(&path));
    match attr.cel_type {
        Some(ValueKind::Str) => {}
        _ => unreachable!("Not supposed to get here!"),
    }
}

#[test]
fn known_attribute_types() {
    let port = known_attribute_for(&Path::parse("destination.port")).expect("known");
    assert_eq!(port.cel_type, Some(ValueKind::Int));
    let sni = known_attribute_for(&Path::parse("connection.tls_session.sni")).expect("known");
    assert_eq!(sni.cel_type, Some(ValueKind::Str));
    assert!(known_attribute_for(&Path::parse("request.nothing")).is_none());
    assert!(known_attribute_for(&Path::parse("connection\\.id")).is_none());
    assert_eq!(new_well_known_attribute_map().len(), 44);
}
