use propchain_contracts::env::{AccountId, CallContext};
use propchain_contracts::registry_types::{Error, ErrorCategory};
use propchain_contracts::version_registry::VersionRegistry;

fn alice() -> AccountId {
    AccountId::from([0x01; 32])
}

fn bob() -> AccountId {
    AccountId::from([0x02; 32])
}

fn as_admin() -> CallContext {
    CallContext { caller: alice(), block_timestamp: 0 }
}

fn default_registry() -> VersionRegistry {
    VersionRegistry::new(&as_admin())
}

#[test]
fn test_register_and_query() {
    let mut registry = default_registry();
    let hash = [1u8; 32];
    let version = registry.register_deployment(&as_admin(), "test_contract".into(), hash).unwrap();
    assert_eq!(version, 1);

    let record = registry.get_deployment("test_contract".into(), 1).unwrap();
    assert_eq!(record.version, 1);
    assert_eq!(record.code_hash, hash);
    assert_eq!(record.contract_name, "test_contract");
}

#[test]
fn test_latest_version_returns_highest() {
    let mut registry = default_registry();

    registry.register_deployment(&as_admin(), "test".into(), [1u8; 32]).unwrap();
    assert_eq!(registry.get_latest_version("test".into()), Some(1));

    registry.register_deployment(&as_admin(), "test".into(), [2u8; 32]).unwrap();
    assert_eq!(registry.get_latest_version("test".into()), Some(2));
}

#[test]
fn test_deployment_history_returns_all() {
    let mut registry = default_registry();
    let hashes = [[1u8; 32], [2u8; 32], [3u8; 32]];

    for hash in &hashes {
        registry.register_deployment(&as_admin(), "test".into(), *hash).unwrap();
    }

    let history = registry.get_deployment_history("test".into());
    assert_eq!(history.len(), 3);
    assert_eq!(history[0].version, 1);
    assert_eq!(history[1].version, 2);
    assert_eq!(history[2].version, 3);
}

#[test]
fn test_unauthorized_caller_fails() {
    let mut registry = default_registry();
    let as_bob = CallContext { caller: bob(), block_timestamp: 0 };

    let result = registry.register_deployment(&as_bob, "test".into(), [1u8; 32]);
    assert_eq!(result, Err(Error::Unauthorized));
}

#[test]
fn test_duplicate_version_fails() {
    let mut registry = default_registry();

    registry.register_deployment_with_version(&as_admin(), "test".into(), 1, [1u8; 32]).unwrap();
    let result = registry.register_deployment_with_version(&as_admin(), "test".into(), 1, [2u8; 32]);
    assert_eq!(result, Err(Error::VersionAlreadyExists));
}

#[test]
fn test_auto_increment_skips_used_versions() {
    let mut registry = default_registry();

    registry.register_deployment_with_version(&as_admin(), "test".into(), 5, [1u8; 32]).unwrap();
    let version = registry.register_deployment(&as_admin(), "test".into(), [2u8; 32]).unwrap();
    assert_eq!(version, 6);
}

#[test]
fn test_get_all_names() {
    let mut registry = default_registry();

    registry.register_deployment(&as_admin(), "alpha".into(), [1u8; 32]).unwrap();
    registry.register_deployment(&as_admin(), "beta".into(), [2u8; 32]).unwrap();

    let names = registry.get_all_names();
    assert_eq!(names.len(), 2);
    assert!(names.contains(&"alpha".into()));
    assert!(names.contains(&"beta".into()));
}

#[test]
fn test_get_nonexistent_deployment() {
    let registry = default_registry();
    assert!(registry.get_deployment("nonexistent".into(), 1).is_none());
    assert!(registry.get_latest_version("nonexistent".into()).is_none());
}

// ── Further scenarios ──────────────────────────────────────────────────────

#[test]
fn records_carry_deployer_time_and_event() {
    let mut registry = default_registry();
    let ctx = CallContext { caller: alice(), block_timestamp: 42 };
    registry.register_deployment(&ctx, "svc".into(), [9u8; 32]).unwrap();
    let record = registry.get_deployment("svc".into(), 1).unwrap();
    assert_eq!(record.deployed_at, 42);
    assert_eq!(record.deployer, alice());
    let events = registry.take_events();
    assert_eq!(events.len(), 1);
    assert_eq!(events[0].contract_name, "svc");
    assert_eq!(events[0].version, 1);
    assert_eq!(events[0].code_hash, [9u8; 32]);
    assert_eq!(events[0].deployed_at, 42);
    assert!(registry.events().is_empty());
}

#[test]
fn version_zero_is_invalid() {
    let mut registry = default_registry();
    let result = registry.register_deployment_with_version(&as_admin(), "test".into(), 0, [1u8; 32]);
    assert_eq!(result, Err(Error::InvalidVersion));
    assert!(registry.get_all_names().is_empty());
}

#[test]
fn unauthorized_explicit_version_changes_nothing() {
    let mut registry = default_registry();
    let as_bob = CallContext { caller: bob(), block_timestamp: 0 };
    let result = registry.register_deployment_with_version(&as_bob, "test".into(), 3, [1u8; 32]);
    assert_eq!(result, Err(Error::Unauthorized));
    assert!(registry.get_latest_version("test".into()).is_none());
    assert!(registry.events().is_empty());
}

#[test]
fn lower_explicit_version_keeps_latest_and_history_sorted() {
    let mut registry = default_registry();
    registry.register_deployment_with_version(&as_admin(), "test".into(), 3, [3u8; 32]).unwrap();
    registry.register_deployment_with_version(&as_admin(), "test".into(), 1, [1u8; 32]).unwrap();
    assert_eq!(registry.get_latest_version("test".into()), Some(3));
    let versions: Vec<u32> =
        registry.get_deployment_history("test".into()).iter().map(|r| r.version).collect();
    assert_eq!(versions, vec![1, 3]);
    assert_eq!(registry.register_deployment(&as_admin(), "test".into(), [4u8; 32]), Ok(4));
    assert_eq!(registry.get_all_names(), vec![String::from("test")]);
}

#[test]
fn names_keep_first_registration_order() {
    let mut registry = default_registry();
    registry.register_deployment(&as_admin(), "beta".into(), [1u8; 32]).unwrap();
    registry.register_deployment(&as_admin(), "alpha".into(), [1u8; 32]).unwrap();
    registry.register_deployment(&as_admin(), "beta".into(), [2u8; 32]).unwrap();
    assert_eq!(registry.get_all_names(), vec![String::from("beta"), String::from("alpha")]);
    assert!(registry.get_deployment_history("gamma".into()).is_empty());
    assert_eq!(registry.get_deployment_history("alpha".into()).len(), 1);
}

#[test]
fn error_codes_and_texts() {
    assert_eq!(Error::Unauthorized.error_code(), 13001);
    assert_eq!(Error::NameNotFound.error_code(), 13002);
    assert_eq!(Error::VersionAlreadyExists.error_code(), 13003);
    assert_eq!(Error::InvalidVersion.error_code(), 13004);
    assert_eq!(Error::Unauthorized.message(), "Caller is not authorized");
    assert_eq!(Error::InvalidVersion.message(), "Invalid version number");
    assert_eq!(
        Error::NameNotFound.error_description(),
        "The specified name is not registered in the version registry"
    );
}

#[test]
fn next_version_and_counters_are_exposed() {
    let mut registry = default_registry();
    assert_eq!(registry.admin(), alice());
    assert_eq!(registry.next_version(&"test".into()), 1);
    assert_eq!(registry.name_count(), 0);
    assert!(!registry.is_registered(&"test".into()));
    registry.register_deployment_with_version(&as_admin(), "test".into(), 7, [1u8; 32]).unwrap();
    assert_eq!(registry.next_version(&"test".into()), 8);
    assert_eq!(registry.name_count(), 1);
    assert!(registry.is_registered(&"test".into()));
    registry.register_deployment_with_version(&as_admin(), "test".into(), 2, [2u8; 32]).unwrap();
    assert_eq!(registry.next_version(&"test".into()), 8);
    assert_eq!(registry.get_latest_version("test".into()), Some(7));
    assert_eq!(registry.name_count(), 1);
}

#[test]
fn consecutive_automatic_versions() {
    let mut registry = default_registry();
    let a = registry.register_deployment(&as_admin(), "svc".into(), [1u8; 32]).unwrap();
    let b = registry.register_deployment(&as_admin(), "svc".into(), [2u8; 32]).unwrap();
    assert_eq!(b, a + 1);
}

#[test]
fn every_error_is_common() {
    for e in [Error::Unauthorized, Error::NameNotFound, Error::VersionAlreadyExists, Error::InvalidVersion] {
        assert_eq!(e.error_category(), ErrorCategory::Common);
    }
}
