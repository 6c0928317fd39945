use std::rc::Rc;
use wasm_shim::action_set_index::{ActionSetIndex, PolicyIndex};

struct RuntimeActionSet {
    name: String,
}

struct Policy {
    name: String,
}

fn build_ratelimit_action_set(name: &str) -> RuntimeActionSet {
    RuntimeActionSet {
        name: name.to_owned(),
    }
}

fn build_ratelimit_policy(name: &str) -> Policy {
    Policy {
        name: name.to_owned(),
    }
}

    #[test]
    fn action_set_index_not_wildcard_subdomain() {
        let mut index = ActionSetIndex::new();
        let rlp1 = build_ratelimit_action_set("rlp1");
        index.insert("example.com", Rc::new(rlp1));

        let val = index.get_longest_match_action_sets("test.example.com");
        assert!(val.is_none());

        let val = index.get_longest_match_action_sets("other.com");
        assert!(val.is_none());

        let val = index.get_longest_match_action_sets("net");
        assert!(val.is_none());

        let val = index.get_longest_match_action_sets("example.com");
        assert!(val.is_some());
        assert_eq!(val.expect("value must be some")[0].name, "rlp1");
    }

    #[test]
    fn action_set_index_wildcard_subdomain_does_not_match_domain() {
        let mut index = ActionSetIndex::new();
        let rlp1 = build_ratelimit_action_set("rlp1");

        index.insert("*.example.com", Rc::new(rlp1));
        let val = index.get_longest_match_action_sets("example.com");
        assert!(val.is_none());
    }

    #[test]
    fn action_set_index_wildcard_subdomain_matches_subdomains() {
        let mut index = ActionSetIndex::new();
        let rlp1 = build_ratelimit_action_set("rlp1");

        index.insert("*.example.com", Rc::new(rlp1));
        let val = index.get_longest_match_action_sets("test.example.com");

        assert!(val.is_some());
        assert_eq!(val.expect("value must be some")[0].name, "rlp1");
    }

    #[test]
    fn action_set_index_longest_domain_match() {
        let mut index = ActionSetIndex::new();
        let rlp1 = build_ratelimit_action_set("rlp1");
        index.insert("*.com", Rc::new(rlp1));
        let rlp2 = build_ratelimit_action_set("rlp2");
        index.insert("*.example.com", Rc::new(rlp2));

        let val = index.get_longest_match_action_sets("test.example.com");
        assert!(val.is_some());
        assert_eq!(val.expect("value must be some")[0].name, "rlp2");

        let val = index.get_longest_match_action_sets("example.com");
        assert!(val.is_some());
        assert_eq!(val.expect("value must be some")[0].name, "rlp1");
    }

    #[test]
    fn action_set_index_global_wildcard_match_all() {
        let mut index = ActionSetIndex::new();
        let rlp1 = build_ratelimit_action_set("rlp1");
        index.insert("*", Rc::new(rlp1));

        let val = index.get_longest_match_action_sets("test.example.com");
        assert!(val.is_some());
        assert_eq!(val.expect("value must be some")[0].name, "rlp1");
    }

    #[test]
    fn policy_index_not_wildcard_subdomain() {
        let mut index = PolicyIndex::new();
        let rlp1 = build_ratelimit_policy("rlp1");
        index.insert("example.com", Rc::new(rlp1));

        let val = index.get_longest_match_policies("test.example.com");
        assert!(val.is_none());

        let val = index.get_longest_match_policies("other.com");
        assert!(val.is_none());

        let val = index.get_longest_match_policies("net");
        assert!(val.is_none());

        let val = index.get_longest_match_policies("example.com");
        assert!(val.is_some());
        assert_eq!(val.unwrap()[0].name, "rlp1");
    }

    #[test]
    fn policy_index_wildcard_subdomain_does_not_match_domain() {
        let mut index = PolicyIndex::new();
        let rlp1 = build_ratelimit_policy("rlp1");

        index.insert("*.example.com", Rc::new(rlp1));
        let val = index.get_longest_match_policies("example.com");
        assert!(val.is_none());
    }

    #[test]
    fn policy_index_wildcard_subdomain_matches_subdomains() {
        let mut index = PolicyIndex::new();
        let rlp1 = build_ratelimit_policy("rlp1");

        index.insert("*.example.com", Rc::new(rlp1));
        let val = index.get_longest_match_policies("test.example.com");

        assert!(val.is_some());
        assert_eq!(val.unwrap()[0].name, "rlp1");
    }

    #[test]
    fn policy_index_longest_domain_match() {
        let mut index = PolicyIndex::new();
        let rlp1 = build_ratelimit_policy("rlp1");
        index.insert("*.com", Rc::new(rlp1));
        let rlp2 = build_ratelimit_policy("rlp2");
        index.insert("*.example.com", Rc::new(rlp2));

        let val = index.get_longest_match_policies("test.example.com");
        assert!(val.is_some());
        assert_eq!(val.unwrap()[0].name, "rlp2");

        let val = index.get_longest_match_policies("example.com");
        assert!(val.is_some());
        assert_eq!(val.unwrap()[0].name, "rlp1");
    }

    #[test]
    fn policy_index_global_wildcard_match_all() {
        let mut index = PolicyIndex::new();
        let rlp1 = build_ratelimit_policy("rlp1");
        index.insert("*", Rc::new(rlp1));

        let val = index.get_longest_match_policies("test.example.com");
        assert!(val.is_some());
        assert_eq!(val.unwrap()[0].name, "rlp1");
    }

#[test]
fn reversed_subdomain_keys() {
    assert_eq!(ActionSetIndex::<u8>::reverse_subdomain("example.com"), ".moc.elpmaxe$");
    assert_eq!(ActionSetIndex::<u8>::reverse_subdomain("*.example.com"), ".moc.elpmaxe.");
    assert_eq!(ActionSetIndex::<u8>::reverse_subdomain("*"), ".");
}

#[test]
fn action_sets_of_one_pattern_keep_their_order() {
    let mut index = ActionSetIndex::new();
    index.insert("*.example.com", "first");
    index.insert("*.example.com", "second");
    let val = index.get_longest_match_action_sets("a.example.com").expect("a match");
    assert_eq!(val, vec![&"first", &"second"]);
}
