use numbering::memory_store::MemoryStore;
use numbering::redis_prefix_rule_manager::{
    DuplicatePolicy, RedisPrefixRuleManager, RedisPrefixRuleManagerError, RetryPolicy,
};
use numbering::store::{SharedStore, StoreError};
use numbering::{PrefixRule, PrefixRuleManager};

fn rule(key: &str, format: &str) -> PrefixRule {
    PrefixRule {
        prefix_key: key.to_string(),
        format: format.to_string(),
        seq_length: 4,
        initial_seq: 1,
        network_partition: false,
    }
}

#[test]
fn registered_rule_is_found() {
    let mut store = MemoryStore::new();
    let mut manager = RedisPrefixRuleManager::new();
    assert_eq!(manager.get_prefix_rule(&mut store, "TEST".to_string()).unwrap().is_none(), true);
    let r = rule("TEST", "TEST-{year}-{SEQ:4}");
    assert_eq!(manager.register_prefix_rule(&mut store, "TEST".to_string(), r), Ok(()));
    let found = manager.get_prefix_rule(&mut store, "TEST".to_string()).unwrap().unwrap();
    assert_eq!(found.format, "TEST-{year}-{SEQ:4}");
    assert_eq!(found.prefix_key, "TEST");
    assert_eq!(found.seq_length, 4);
    let mut other = RedisPrefixRuleManager::new();
    let read = other.get_prefix_rule(&mut store, "TEST".to_string()).unwrap().unwrap();
    assert_eq!(read.format, "TEST-{year}-{SEQ:4}");
    assert!(other.get_prefix_rule(&mut store, "TES".to_string()).unwrap().is_none());
    assert_eq!(RedisPrefixRuleManager::get_redis_key("TEST"), "prefix_rule:TEST");
}

#[test]
fn format_without_sequence_placeholder_is_invalid() {
    let mut store = MemoryStore::new();
    let mut manager = RedisPrefixRuleManager::new();
    assert_eq!(
        manager.register_prefix_rule(&mut store, "INVALID".to_string(), rule("INVALID", "INVALID")),
        Err(RedisPrefixRuleManagerError::InvalidFormat)
    );
    assert_eq!(
        manager.register_prefix_rule(&mut store, "".to_string(), rule("", "{SEQ:4}")),
        Err(RedisPrefixRuleManagerError::InvalidFormat)
    );
    assert!(manager.get_prefix_rule(&mut store, "INVALID".to_string()).unwrap().is_none());
}

#[test]
fn second_registration_is_rejected_or_replaces() {
    let retry = RetryPolicy { max_attempts: 2, delay_millis: 10 };
    let mut store = MemoryStore::new();
    let mut strict = RedisPrefixRuleManager::with_policies(DuplicatePolicy::Reject, retry);
    assert_eq!(
        strict.register_prefix_rule(&mut store, "A".to_string(), rule("A", "A{SEQ:2}")),
        Ok(())
    );
    assert_eq!(
        strict.register_prefix_rule(&mut store, "A".to_string(), rule("A", "B{SEQ:3}")),
        Err(RedisPrefixRuleManagerError::AlreadyExists)
    );
    let kept = strict.get_prefix_rule(&mut store, "A".to_string()).unwrap().unwrap();
    assert_eq!(kept.format, "A{SEQ:2}");
    let mut lenient = RedisPrefixRuleManager::with_policies(DuplicatePolicy::Replace, retry);
    assert_eq!(
        lenient.register_prefix_rule(&mut store, "A".to_string(), rule("A", "B{SEQ:3}")),
        Ok(())
    );
    let replaced = lenient.get_prefix_rule(&mut store, "A".to_string()).unwrap().unwrap();
    assert_eq!(replaced.format, "B{SEQ:3}");
}

#[test]
fn cache_is_not_told_of_other_writers() {
    let mut store = MemoryStore::new();
    let mut here = RedisPrefixRuleManager::new();
    let mut there = RedisPrefixRuleManager::new();
    here.register_prefix_rule(&mut store, "A".to_string(), rule("A", "A{SEQ:2}")).unwrap();
    there.register_prefix_rule(&mut store, "A".to_string(), rule("A", "Z{SEQ:9}")).unwrap();
    let stale = here.get_prefix_rule(&mut store, "A".to_string()).unwrap().unwrap();
    assert_eq!(stale.format, "A{SEQ:2}");
    store.fail_next(5);
    let cached = here.get_prefix_rule(&mut store, "A".to_string()).unwrap().unwrap();
    assert_eq!(cached.format, "A{SEQ:2}");
}

#[test]
fn unanswered_read_is_retried_once() {
    let mut store = MemoryStore::new();
    let mut writer = RedisPrefixRuleManager::new();
    writer.register_prefix_rule(&mut store, "A".to_string(), rule("A", "A{SEQ:2}")).unwrap();
    let mut reader = RedisPrefixRuleManager::new();
    store.fail_next(1);
    let before = store.now();
    let found = reader.get_prefix_rule(&mut store, "A".to_string()).unwrap().unwrap();
    assert_eq!(found.format, "A{SEQ:2}");
    assert_eq!(store.now(), before + 1000);
    let mut late = RedisPrefixRuleManager::new();
    store.fail_next(2);
    assert_eq!(
        late.get_prefix_rule(&mut store, "A".to_string()).err(),
        Some(RedisPrefixRuleManagerError::BackendUnavailable)
    );
    assert_eq!(store.now(), before + 2000);
    assert!(late.get_prefix_rule(&mut store, "A".to_string()).unwrap().is_some());
}

#[test]
fn unanswered_write_surfaces_after_the_retry() {
    let mut store = MemoryStore::new();
    let mut manager = RedisPrefixRuleManager::new();
    store.fail_next(2);
    assert_eq!(
        manager.register_prefix_rule(&mut store, "A".to_string(), rule("A", "A{SEQ:2}")),
        Err(RedisPrefixRuleManagerError::BackendUnavailable)
    );
    assert!(manager.get_prefix_rule(&mut store, "A".to_string()).unwrap().is_none());
    store.fail_next(1);
    assert_eq!(
        manager.register_prefix_rule(&mut store, "A".to_string(), rule("A", "A{SEQ:2}")),
        Ok(())
    );
}

#[test]
fn unreadable_rule_is_corrupt() {
    let mut store = MemoryStore::new();
    store.garble_rule("prefix_rule:A");
    assert_eq!(store.get_rule("prefix_rule:A").err(), Some(StoreError::Corrupt));
    let mut manager = RedisPrefixRuleManager::new();
    assert_eq!(
        manager.get_prefix_rule(&mut store, "A".to_string()).err(),
        Some(RedisPrefixRuleManagerError::Corrupt)
    );
    assert_eq!(store.now(), 0);
}

#[test]
fn partition_flag_is_written_back() {
    let mut store = MemoryStore::new();
    let mut manager = RedisPrefixRuleManager::with_policies(
        DuplicatePolicy::Reject,
        RetryPolicy { max_attempts: 1, delay_millis: 0 },
    );
    assert_eq!(
        manager.set_network_partition(&mut store, "A"),
        Err(RedisPrefixRuleManagerError::PrefixRuleNotFound)
    );
    manager.register_prefix_rule(&mut store, "A".to_string(), rule("A", "A{SEQ:2}")).unwrap();
    assert_eq!(manager.set_network_partition(&mut store, "A"), Ok(()));
    let mut other = RedisPrefixRuleManager::new();
    let read = other.get_prefix_rule(&mut store, "A".to_string()).unwrap().unwrap();
    assert!(read.network_partition);
    assert_eq!(read.format, "A{SEQ:2}");
    assert!(manager.get_prefix_rule(&mut store, "A".to_string()).unwrap().unwrap().network_partition);
}

#[test]
fn registry_errors_have_their_texts() {
    assert_eq!(RedisPrefixRuleManagerError::InvalidFormat.message(), "Invalid prefix format");
    assert_eq!(RedisPrefixRuleManagerError::AlreadyExists.message(), "Prefix rule already exists");
    assert_eq!(
        RedisPrefixRuleManagerError::PrefixRuleNotFound.message(),
        "Prefix rule not found"
    );
    assert_eq!(
        RedisPrefixRuleManagerError::BackendUnavailable.message(),
        "Store error: backend unavailable"
    );
    assert_eq!(
        RedisPrefixRuleManagerError::Corrupt.message(),
        "Serialization error: corrupt rule"
    );
}

#[test]
fn default_width_of_zero_is_invalid() {
    let mut store = MemoryStore::new();
    let mut manager = RedisPrefixRuleManager::new();
    let mut zero = rule("TEST", "TEST-{year}-{SEQ:4}");
    zero.seq_length = 0;
    assert_eq!(
        manager.register_prefix_rule(&mut store, "TEST".to_string(), zero),
        Err(RedisPrefixRuleManagerError::InvalidFormat)
    );
    assert_eq!(store.get_rule("prefix_rule:TEST").map(|r| r.is_none()), Ok(true));
    assert!(manager.get_prefix_rule(&mut store, "TEST".to_string()).unwrap().is_none());
    let mut wide = rule("TEST", "{SEQ:4}{SEQ:4294967296}");
    wide.seq_length = 4;
    assert_eq!(
        manager.register_prefix_rule(&mut store, "TEST".to_string(), wide),
        Err(RedisPrefixRuleManagerError::InvalidFormat)
    );
}

#[test]
fn failed_write_leaves_the_cache_as_it_was() {
    let mut store = MemoryStore::new();
    let mut manager = RedisPrefixRuleManager::new();
    manager.register_prefix_rule(&mut store, "A".to_string(), rule("A", "A{SEQ:2}")).unwrap();
    store.fail_next(2);
    assert_eq!(
        manager.register_prefix_rule(&mut store, "A".to_string(), rule("A", "B{SEQ:3}")),
        Err(RedisPrefixRuleManagerError::BackendUnavailable)
    );
    store.fail_next(3);
    let cached = manager.get_prefix_rule(&mut store, "A".to_string()).unwrap().unwrap();
    assert_eq!(cached.format, "A{SEQ:2}");
    store.fail_next(0);
    let mut other = RedisPrefixRuleManager::new();
    let stored = other.get_prefix_rule(&mut store, "A".to_string()).unwrap().unwrap();
    assert_eq!(stored.format, "A{SEQ:2}");
    store.fail_next(2);
    assert_eq!(
        manager.set_network_partition(&mut store, "A"),
        Err(RedisPrefixRuleManagerError::BackendUnavailable)
    );
    let still = manager.get_prefix_rule(&mut store, "A".to_string()).unwrap().unwrap();
    assert!(!still.network_partition);
}
