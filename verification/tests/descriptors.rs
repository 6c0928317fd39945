use std::collections::hash_map::DefaultHasher;
use std::hash::{Hash, Hasher};
use wasm_shim::descriptors::{
    DescriptorError, DescriptorKey, DescriptorRegistry, DescriptorState, FetchPlan,
};

/// What a fresh `DefaultHasher` gives for the bytes.
fn hash_bytes(bytes: &[u8]) -> u64 {
    let mut hasher = DefaultHasher::new();
    bytes.hash(&mut hasher);
    hasher.finish()
}

const RATELIMIT_SERVICE: &str = "envoy.service.ratelimit.v3.RateLimitService";

fn key(cluster: &str, service: &str) -> DescriptorKey {
    DescriptorKey::new(cluster.to_string(), service.to_string())
}

/// A registry with the rate limit service's descriptors built in, as the
/// plugin sets it up.
fn default_registry() -> DescriptorRegistry {
    let mut registry = DescriptorRegistry::new();
    registry.register_embedded_bytes(RATELIMIT_SERVICE, b"ratelimit descriptors");
    registry
}

#[test]
fn test_get_pool_returns_error_when_not_available() {
    let registry = default_registry();
    let result = registry.pool_hash("test-cluster", "test.Service");
    assert!(result.is_err());
    assert!(
        matches!(result, Err(DescriptorError::NotAvailable { cluster, service }) if cluster == "test-cluster" && service == "test.Service")
    );
}

#[test]
fn test_insert_and_get_pool() {
    let mut registry = default_registry();
    let k = key("test-cluster", "test.TestService");
    registry.insert_resolved_bytes(k, b"test descriptors");
    let result = registry.pool_hash("test-cluster", "test.TestService");
    assert_eq!(result.ok(), Some(hash_bytes(b"test descriptors")));
}

#[test]
fn test_deduplication_same_descriptor_bytes() {
    let mut registry = default_registry();
    registry.insert_resolved_bytes(key("cluster-a", "test.TestService"), b"same bytes");
    registry.insert_resolved_bytes(key("cluster-b", "test.TestService"), b"same bytes");
    let a = registry.pool_hash("cluster-a", "test.TestService").ok();
    let b = registry.pool_hash("cluster-b", "test.TestService").ok();
    assert!(a.is_some());
    assert_eq!(a, b);
}

#[test]
fn test_embedded_descriptors() {
    let mut registry = default_registry();
    registry.register_embedded_bytes("test.TestService", b"embedded");
    registry.add_expected(key("any-cluster", "test.TestService"));
    let result = registry.pool_hash("any-cluster", "test.TestService");
    assert!(result.is_ok());
}

#[test]
fn test_embedded_not_marked_missing() {
    let mut registry = default_registry();
    registry.register_embedded_bytes("test.TestService", b"embedded");
    let k = key("test-cluster", "test.TestService");
    registry.add_expected(k.clone());
    assert!(matches!(registry.state_of(&k), Some(DescriptorState::Embedded(_))));
    assert!(registry.get_missing().is_empty());
    assert!(!registry.has_expected());
}

#[test]
fn test_embedded_resolves_for_any_cluster() {
    let mut registry = default_registry();
    let h = registry.register_embedded_bytes("test.TestService", b"embedded");
    registry.add_expected(key("cluster-a", "test.TestService"));
    registry.add_expected(key("cluster-b", "test.TestService"));
    let a = registry.pool_hash("cluster-a", "test.TestService").ok();
    let b = registry.pool_hash("cluster-b", "test.TestService").ok();
    assert_eq!(a, Some(h));
    assert_eq!(b, Some(h));
}

#[test]
fn test_embedded_entries_share_pool_across_clusters() {
    let mut registry = default_registry();
    registry.register_embedded_bytes("test.TestService", b"shared");
    registry.add_expected(key("cluster-a", "test.TestService"));
    registry.add_expected(key("cluster-b", "test.TestService"));
    let a = registry.pool_hash("cluster-a", "test.TestService").ok();
    let b = registry.pool_hash("cluster-b", "test.TestService").ok();
    assert_eq!(a, b);
    assert_eq!(a, Some(hash_bytes(b"shared")));
}

#[test]
fn test_add_expected_embedded_service() {
    let mut registry = default_registry();
    let k = key("limitador-cluster", RATELIMIT_SERVICE);
    registry.add_expected(k.clone());
    assert!(matches!(registry.state_of(&k), Some(DescriptorState::Embedded(_))));
    assert!(!registry.has_expected());
    assert!(registry.get_missing().is_empty());
    assert!(registry.pool_hash("limitador-cluster", RATELIMIT_SERVICE).is_ok());
}

#[test]
fn test_add_expected_non_embedded_marks_missing() {
    let mut registry = default_registry();
    let k = key("custom-cluster", "custom.Service");
    registry.add_expected(k.clone());
    assert!(matches!(registry.state_of(&k), Some(DescriptorState::Missing)));
    assert!(registry.has_expected());
    let missing = registry.get_missing();
    assert_eq!(missing.len(), 1);
    assert!(missing[0].same(&k));
}

#[test]
fn fetch_plan_needs_a_service() {
    let mut registry = default_registry();
    registry.add_expected(key("c", "custom.Service"));
    assert!(matches!(registry.fetch_plan(), FetchPlan::NoService));
    registry.set_descriptor_service("descriptor-cluster");
    match registry.fetch_plan() {
        FetchPlan::Fetch { service, keys } => {
            assert_eq!(service, "descriptor-cluster");
            assert_eq!(keys.len(), 1);
        }
        _ => panic!("expected a fetch"),
    }
}

#[test]
fn pending_fetch_can_be_reset() {
    let mut registry = default_registry();
    let k = key("c", "custom.Service");
    registry.add_expected(k.clone());
    registry.mark_pending(vec![k.clone()], 7);
    assert!(registry.has_pending(7));
    assert!(matches!(registry.state_of(&k), Some(DescriptorState::Pending(7))));
    registry.reset_pending(7);
    assert!(!registry.has_pending(7));
    assert!(matches!(registry.state_of(&k), Some(DescriptorState::Missing)));
}

#[test]
fn resolved_descriptor_does_not_replace_embedded() {
    let mut registry = default_registry();
    let k = key("c", RATELIMIT_SERVICE);
    registry.add_expected(k.clone());
    let before = registry.pool_hash("c", RATELIMIT_SERVICE).ok();
    registry.insert_resolved_bytes(k, b"other bytes");
    assert_eq!(registry.pool_hash("c", RATELIMIT_SERVICE).ok(), before);
}
