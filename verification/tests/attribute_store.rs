use wasm_shim::attribute_store::{AttributeMap, AttributeStore, Token};
use wasm_shim::cel::{known_attribute_for, CelKey, CelValue};
use wasm_shim::property_path::Path;

fn entry<'a, V>(nodes: &'a [(String, Token<V>)], name: &str) -> Option<&'a Token<V>> {
    nodes.iter().find(|(k, _)| k == name).map(|(_, t)| t)
}

fn key<'a>(map: &'a CelValue, name: &str) -> Option<&'a CelValue> {
    match map {
        CelValue::Entries(es) => es.iter().find_map(|(k, v)| match k {
            CelKey::Str(s) if s == name => Some(v),
            _ => None,
        }),
        _ => None,
    }
}

fn s(v: &str) -> CelValue {
    CelValue::Str(v.to_string())
}

fn is_str(v: &CelValue, expected: &str) -> bool {
    matches!(v, CelValue::Str(x) if x == expected)
}

#[test]
fn add() {
    let mut store = AttributeStore::new();
    store.add(Path::from("request.method"), s("GET"));
    store.add(Path::from("request.referer"), s("https://example.com/"));
    // should not be added  as request.referer is endpoint
    store.add(Path::from("request.referer.other"), s("some"));
    store.add(Path::from("source.address"), s("192.168.0.1"));
    store.add(Path::from("destination.port"), CelValue::Int(443));

    let data = store.data();
    assert_eq!(3, data.len());
    assert!(entry(data, "source").is_some());
    assert!(entry(data, "destination").is_some());
    assert!(entry(data, "request").is_some());

    match entry(data, "source").expect("source is some") {
        Token::Node(map) => {
            assert_eq!(map.len(), 1);
            assert!(entry(map, "address").is_some());

            match entry(map, "address").expect("address is some") {
                Token::Node(_) => unreachable!("Not supposed to get here!"),
                Token::Value(v) => assert!(is_str(v, "192.168.0.1")),
            }
        }
        Token::Value(_) => unreachable!("Not supposed to get here!"),
    }

    match entry(data, "destination").expect("destination is some") {
        Token::Node(map) => {
            assert_eq!(map.len(), 1);
            match entry(map, "port").expect("port is some") {
                Token::Node(_) => unreachable!("Not supposed to get here!"),
                Token::Value(v) => assert!(matches!(v, CelValue::Int(443))),
            }
        }
        Token::Value(_) => unreachable!("Not supposed to get here!"),
    }

    match entry(data, "request").expect("request is some") {
        Token::Node(map) => {
            assert_eq!(map.len(), 2);
            assert!(entry(map, "method").is_some());
            match entry(map, "method").expect("method is some") {
                Token::Node(_) => unreachable!("Not supposed to get here!"),
                Token::Value(v) => assert!(is_str(v, "GET")),
            }
            assert!(entry(map, "referer").is_some());
            match entry(map, "referer").expect("referer is some") {
                Token::Node(_) => unreachable!("Not supposed to get here!"),
                Token::Value(v) => assert!(is_str(v, "https://example.com/")),
            }
        }
        Token::Value(_) => unreachable!("Not supposed to get here!"),
    }
}

#[test]
fn cel_map() {
    let mut store = AttributeStore::new();
    store.add(Path::from("request.method"), s("GET"));
    store.add(Path::from("request.referer"), s("https://example.com/"));
    store.add(Path::from("source.address"), s("192.168.0.1"));
    store.add(Path::from("destination.port"), CelValue::Int(443));

    let map = store.cel_map();

    assert!(key(&map, "source").is_some());
    assert!(key(&map, "destination").is_some());
    assert!(key(&map, "source").is_some());

    match key(&map, "source").expect("source is some") {
        inner @ CelValue::Entries(_) => {
            assert!(key(inner, "address").is_some());
            match key(inner, "address").expect("address is some") {
                CelValue::Str(v) => assert_eq!(*v, String::from("192.168.0.1")),
                _ => unreachable!("Not supposed to get here!"),
            }
        }
        _ => unreachable!("Not supposed to get here!"),
    }

    match key(&map, "destination").expect("destination is some") {
        inner @ CelValue::Entries(_) => {
            assert!(key(inner, "port").is_some());
            match key(inner, "port").expect("port is some") {
                CelValue::Int(v) => assert_eq!(*v, 443),
                _ => unreachable!("Not supposed to get here!"),
            }
        }
        _ => unreachable!("Not supposed to get here!"),
    }

    match key(&map, "request").expect("request is some") {
        inner @ CelValue::Entries(_) => {
            assert!(key(inner, "method").is_some());
            match key(inner, "method").expect("method is some") {
                CelValue::Str(v) => assert_eq!(*v, String::from("GET")),
                _ => unreachable!("Not supposed to get here!"),
            }

            assert!(key(inner, "referer").is_some());
            match key(inner, "referer").expect("referer is some") {
                CelValue::Str(v) => assert_eq!(*v, String::from("https://example.com/")),
                _ => unreachable!("Not supposed to get here!"),
            }
        }
        _ => unreachable!("Not supposed to get here!"),
    }
}

#[test]
fn contains_path() {
    let mut store = AttributeStore::new();
    store.add(Path::from("a"), s("1"));
    store.add(Path::from("b.b1"), s("1"));
    store.add(Path::from("b.b2"), s("1"));
    store.add(Path::from("c.c1.c11"), CelValue::Int(1));
    store.add(Path::from("c.c2.c21"), CelValue::Int(1));

    assert!(store.contains_path(&Path::from("a")));
    assert!(!store.contains_path(&Path::from("a.something")));
    assert!(!store.contains_path(&Path::from("b")));
    assert!(store.contains_path(&Path::from("b.b1")));
    assert!(store.contains_path(&Path::from("b.b2")));
    assert!(!store.contains_path(&Path::from("c.c1")));
    assert!(store.contains_path(&Path::from("c.c1.c11")));
    assert!(store.contains_path(&Path::from("c.c2.c21")));
    assert!(!store.contains_path(&Path::from("c.c2.c21.something")));
}

#[test]
fn it_works() {
    let map = AttributeMap::new(vec![
        known_attribute_for(&Path::from("request.method"))
            .expect("request.method known attribute exists"),
        known_attribute_for(&Path::from("request.referer"))
            .expect("request.referer known attribute exists"),
        known_attribute_for(&Path::from("source.address"))
            .expect("source.address known attribute exists"),
        known_attribute_for(&Path::from("destination.port"))
            .expect("destination.port known attribute exists"),
    ]);

    let data = map.data();
    assert_eq!(3, data.len());
    assert!(entry(data, "source").is_some());
    assert!(entry(data, "destination").is_some());
    assert!(entry(data, "request").is_some());

    match entry(data, "source").expect("source is some") {
        Token::Node(map) => {
            assert_eq!(map.len(), 1);
            match entry(map, "address").expect("address is some") {
                Token::Node(_) => unreachable!("Not supposed to get here!"),
                Token::Value(v) => assert!(v.path.same_as(&Path::from("source.address"))),
            }
        }
        Token::Value(_) => unreachable!("Not supposed to get here!"),
    }

    match entry(data, "destination").expect("destination is some") {
        Token::Node(map) => {
            assert_eq!(map.len(), 1);
            match entry(map, "port").expect("port is some") {
                Token::Node(_) => unreachable!("Not supposed to get here!"),
                Token::Value(v) => assert!(v.path.same_as(&Path::from("destination.port"))),
            }
        }
        Token::Value(_) => unreachable!("Not supposed to get here!"),
    }

    match entry(data, "request").expect("request is some") {
        Token::Node(map) => {
            assert_eq!(map.len(), 2);
            assert!(entry(map, "method").is_some());
            match entry(map, "method").expect("method is some") {
                Token::Node(_) => unreachable!("Not supposed to get here!"),
                Token::Value(v) => assert!(v.path.same_as(&Path::from("request.method"))),
            }
            assert!(entry(map, "referer").is_some());
            match entry(map, "referer").expect("referer is some") {
                Token::Node(_) => unreachable!("Not supposed to get here!"),
                Token::Value(v) => assert!(v.path.same_as(&Path::from("request.referer"))),
            }
        }
        Token::Value(_) => unreachable!("Not supposed to get here!"),
    }
}

#[test]
fn a_later_value_replaces_an_earlier_one_and_its_children() {
    let mut store = AttributeStore::new();
    store.add(Path::from("x.y.z"), s("deep"));
    store.add(Path::from("x.y"), s("shallow"));
    assert!(store.contains_path(&Path::from("x.y")));
    assert!(!store.contains_path(&Path::from("x.y.z")));
    store.add(Path::from("x.y"), CelValue::Int(2));
    match key(key(&store.cel_map(), "x").expect("x"), "y").expect("y") {
        CelValue::Int(v) => assert_eq!(*v, 2),
        other => panic!("unexpected {:?}", other),
    }
}

#[test]
fn an_empty_store_maps_to_an_empty_map() {
    let store = AttributeStore::new();
    assert!(!store.contains_path(&Path::from("a")));
    match store.cel_map() {
        CelValue::Entries(es) => assert!(es.is_empty()),
        other => panic!("unexpected {:?}", other),
    }
}

#[test]
fn duplicate_copies_nested_values() {
    let v = CelValue::List(vec![
        s("a"),
        CelValue::Entries(vec![(CelKey::Str("k".to_string()), CelValue::UInt(7))]),
    ]);
    let c = v.duplicate();
    match c {
        CelValue::List(items) => {
            assert_eq!(items.len(), 2);
            assert!(is_str(&items[0], "a"));
            assert!(matches!(key(&items[1], "k"), Some(CelValue::UInt(7))));
        }
        other => panic!("unexpected {:?}", other),
    }
}
