use numbering::memory_store::MemoryStore;
use numbering::redis_prefix_rule_manager::{RedisPrefixRuleManager, RedisPrefixRuleManagerError};
use numbering::sequence_generator::{RedisSequenceGenerator, SequenceGeneratorError};
use numbering::service::{GenerationError, NumberService};

fn service() -> NumberService {
    NumberService::new(RedisPrefixRuleManager::new(), RedisSequenceGenerator::new())
}

#[test]
fn test_register_and_generate_number() {
    let mut store = MemoryStore::new();
    let mut service = service();

    let registered =
        service.register_prefix(&mut store, "TEST", "TEST-{year}-{SEQ:4}".to_string(), 4, 1);
    assert_eq!(registered, Ok(()));

    let number = service.generate_number_in_year(&mut store, "TEST", 2025).unwrap();
    assert!(number.starts_with("TEST"));
    assert!(number.contains("-2025-"));
    assert_eq!(number.len(), 14);
    assert_eq!(number, "TEST-2025-0001");
    assert_eq!(
        service.generate_number_in_year(&mut store, "TEST", 2025).unwrap(),
        "TEST-2025-0002"
    );
}

#[test]
fn test_register_prefix_invalid_format() {
    let mut store = MemoryStore::new();
    let mut service = service();
    let registered = service.register_prefix(&mut store, "INVALID", "INVALID".to_string(), 4, 1);
    assert_eq!(registered, Err(RedisPrefixRuleManagerError::InvalidFormat));
    assert_eq!(registered.unwrap_err().message(), "Invalid prefix format");
}

#[test]
fn test_generate_number_prefix_not_registered() {
    let mut store = MemoryStore::new();
    let mut service = service();
    let generated = service.generate_number(&mut store, "UNKNOWN");
    assert_eq!(generated, Err(GenerationError::PrefixNotRegistered));
    assert_eq!(generated.unwrap_err().message(), "Prefix not registered");
    assert_eq!(store.counter("seq:UNKNOWN"), 0);
}

#[test]
fn test_generate_number_network_partition() {
    let mut store = MemoryStore::new();
    let mut service = service();
    let registered =
        service.register_prefix(&mut store, "TEST", "TEST-{year}-{SEQ:4}".to_string(), 4, 1);
    assert_eq!(registered, Ok(()));
    assert_eq!(service.set_network_partition(&mut store, "TEST"), Ok(()));
    let number = service.generate_number(&mut store, "TEST").unwrap();
    assert!(number.ends_with("-NP"));
    let year = chrono::Datelike::year(&chrono::Utc::now());
    assert_eq!(number, format!("TEST-{:04}-0001-NP", year));
}

#[test]
fn generation_passes_failures_on() {
    let mut store = MemoryStore::new();
    let mut service = NumberService::new(
        RedisPrefixRuleManager::new(),
        RedisSequenceGenerator::with_leases("node", 2, 100).unwrap(),
    );
    service.register_prefix(&mut store, "Q", "{prefix}{SEQ:2}".to_string(), 2, 1).unwrap();
    assert_eq!(service.generate_number_in_year(&mut store, "Q", 2025).unwrap(), "Q01");
    assert_eq!(service.generate_number_in_year(&mut store, "Q", 2025).unwrap(), "Q02");
    store.fail_next(1);
    assert_eq!(
        service.generate_number_in_year(&mut store, "Q", 2025),
        Err(GenerationError::Sequence(SequenceGeneratorError::BackendUnavailable))
    );
    assert_eq!(service.generate_number_in_year(&mut store, "Q", 2025).unwrap(), "Q03");
    let mut cold = service_with_cold_cache();
    store.fail_next(2);
    assert_eq!(
        cold.generate_number_in_year(&mut store, "Q", 2025),
        Err(GenerationError::Registry(RedisPrefixRuleManagerError::BackendUnavailable))
    );
    assert_eq!(
        GenerationError::Sequence(SequenceGeneratorError::TryAgain).message(),
        "Lease is being acquired elsewhere: try again"
    );
    assert_eq!(
        GenerationError::MalformedTemplate.message(),
        "sequence placeholder without a usable width"
    );
}

fn service_with_cold_cache() -> NumberService {
    NumberService::new(RedisPrefixRuleManager::new(), RedisSequenceGenerator::new())
}

#[test]
fn first_number_starts_at_the_initial_sequence() {
    let mut store = MemoryStore::new();
    let mut service = service();
    service.register_prefix(&mut store, "INV", "{prefix}-{SEQ:5}".to_string(), 5, 100).unwrap();
    assert_eq!(store.counter("seq:INV"), 99);
    assert_eq!(service.generate_number_in_year(&mut store, "INV", 2025).unwrap(), "INV-00100");
    assert_eq!(service.generate_number_in_year(&mut store, "INV", 2025).unwrap(), "INV-00101");
    service.register_prefix(&mut store, "INV", "{prefix}-{SEQ:5}".to_string(), 5, 50).unwrap();
    assert_eq!(service.generate_number_in_year(&mut store, "INV", 2025).unwrap(), "INV-00102");
    service.register_prefix(&mut store, "ZERO", "{SEQ:1}".to_string(), 1, 0).unwrap();
    assert_eq!(service.generate_number_in_year(&mut store, "ZERO", 2025).unwrap(), "1");
}

#[test]
fn leases_start_at_the_initial_sequence_too() {
    let mut store = MemoryStore::new();
    let mut service = NumberService::new(
        RedisPrefixRuleManager::new(),
        RedisSequenceGenerator::with_leases("node", 10, 100).unwrap(),
    );
    service.register_prefix(&mut store, "L", "{SEQ:3}".to_string(), 3, 500).unwrap();
    assert_eq!(service.generate_number_in_year(&mut store, "L", 2025).unwrap(), "500");
    assert_eq!(store.counter("seq:L"), 509);
}

#[test]
fn floor_that_cannot_be_raised_is_reported() {
    let mut store = MemoryStore::new();
    assert_eq!(
        RedisSequenceGenerator::raise_floor(&mut store, "K", u64::MAX),
        Err(SequenceGeneratorError::Corrupt)
    );
    assert_eq!(store.counter("seq:K"), 0);
    assert_eq!(RedisSequenceGenerator::raise_floor(&mut store, "K", 8), Ok(()));
    assert_eq!(store.counter("seq:K"), 7);
    assert_eq!(RedisSequenceGenerator::raise_floor(&mut store, "K", 3), Ok(()));
    assert_eq!(store.counter("seq:K"), 7);
    store.fail_next(1);
    assert_eq!(
        RedisSequenceGenerator::raise_floor(&mut store, "K", 9),
        Err(SequenceGeneratorError::BackendUnavailable)
    );
}

#[test]
fn registration_succeeds_where_the_floor_cannot_be_raised() {
    let mut store = MemoryStore::new();
    let mut service = service();
    assert_eq!(service.register_prefix(&mut store, "A", "{SEQ}".to_string(), 4, u64::MAX), Ok(()));
    assert_eq!(store.counter("seq:A"), 0);
    assert_eq!(service.generate_number_in_year(&mut store, "A", 2025).unwrap(), "0001");
    store.fail_next(0);
    let mut cold = service_with_cold_cache();
    assert_eq!(cold.register_prefix(&mut store, "B", "{SEQ}".to_string(), 2, 40), Ok(()));
    assert_eq!(store.counter("seq:B"), 39);
    let mut third = service_with_cold_cache();
    assert_eq!(
        third.register_prefix(&mut store, "C", "C-{SEQ:4}".to_string(), 0, 1),
        Err(RedisPrefixRuleManagerError::InvalidFormat)
    );
    assert_eq!(
        third.generate_number_in_year(&mut store, "C", 2025),
        Err(GenerationError::PrefixNotRegistered)
    );
}
