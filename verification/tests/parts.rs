use numbering::keyed_table::KeyedTable;
use numbering::keys::{lock_key_of, rule_key_of, sequence_key_of};
use numbering::memory_store::MemoryStore;
use numbering::number_assembler::{scan_token, Token, Width};
use numbering::redis_prefix_rule_manager::{
    RedisPrefixRuleManager, RedisPrefixRuleManagerError, RetryPolicy,
};
use numbering::sequence_generator::{Lease, RedisSequenceGenerator, SequenceGeneratorError};
use numbering::service::{GenerationError, NumberService};
use numbering::store::{SharedStore, StoreError};
use numbering::text::{chars_of, push_decimal, push_zero_padded};
use numbering::PrefixRule;

fn text(chars: &[char]) -> String {
    chars.iter().collect()
}

#[test]
fn decimal_text_of_numbers() {
    let mut out = vec!['#'];
    push_decimal(&mut out, 0);
    push_decimal(&mut out, 9);
    push_decimal(&mut out, 10);
    push_decimal(&mut out, 1234567890);
    assert_eq!(text(&out), "#09101234567890");
    let mut padded = Vec::new();
    push_zero_padded(&mut padded, 42, 6);
    push_zero_padded(&mut padded, 42, 2);
    push_zero_padded(&mut padded, 42, 1);
    push_zero_padded(&mut padded, 0, 0);
    push_zero_padded(&mut padded, 0, 3);
    assert_eq!(text(&padded), "00004242420000");
    assert_eq!(chars_of("a№b"), vec!['a', '№', 'b']);
    assert_eq!(chars_of(""), Vec::<char>::new());
}

#[test]
fn tokens_of_a_template() {
    let t = chars_of("x{prefix}{year}{SEQ}{SEQ:12}{SEQ:4294967295}{SEQ:4294967296}{nope}");
    assert_eq!(scan_token(&t, 0), (Token::Literal('x'), 1));
    assert_eq!(scan_token(&t, 1), (Token::Prefix, 9));
    assert_eq!(scan_token(&t, 9), (Token::Year, 15));
    assert_eq!(scan_token(&t, 15), (Token::Sequence(Width::Default), 20));
    assert_eq!(scan_token(&t, 20), (Token::Sequence(Width::Explicit(12)), 28));
    assert_eq!(scan_token(&t, 28), (Token::Sequence(Width::Explicit(u32::MAX)), 44));
    assert_eq!(scan_token(&t, 44), (Token::Sequence(Width::TooWide), 60));
    assert_eq!(scan_token(&t, 60), (Token::Literal('{'), 61));
    assert_eq!(scan_token(&t, 61), (Token::Literal('n'), 62));
}

#[test]
fn keys_are_namespaced() {
    assert_eq!(rule_key_of("TEST"), "prefix_rule:TEST");
    assert_eq!(sequence_key_of("TEST"), "seq:TEST");
    assert_eq!(lock_key_of("TEST"), "lock:TEST");
    assert_eq!(sequence_key_of(""), "seq:");
}

#[test]
fn table_holds_one_value_per_key() {
    let mut table: KeyedTable<u32> = KeyedTable::new();
    assert_eq!(table.get("a"), None);
    table.set("a", 1);
    table.set("b", 2);
    table.set("ab", 3);
    table.set("a", 4);
    assert_eq!(table.get("a"), Some(&4));
    assert_eq!(table.get("b"), Some(&2));
    assert_eq!(table.get("ab"), Some(&3));
    assert_eq!(table.get("A"), None);
    table.remove("a");
    table.remove("zz");
    assert_eq!(table.get("a"), None);
    assert_eq!(table.get("ab"), Some(&3));
    assert_eq!(table.get("b"), Some(&2));
}

#[test]
fn store_clock_and_counters_saturate_or_refuse() {
    let mut store = MemoryStore::new();
    assert_eq!(store.incr_by("c", 0), Ok(0));
    assert_eq!(store.incr_by("c", 5), Ok(5));
    assert_eq!(store.incr_by("c", u64::MAX), Err(StoreError::Corrupt));
    assert_eq!(store.counter("c"), 5);
    store.fail_next(1);
    assert_eq!(store.incr_by("c", 1), Err(StoreError::Unavailable));
    assert_eq!(store.incr_by("c", 1), Ok(6));
    store.wait(u64::MAX - 1);
    assert_eq!(store.set_if_absent("l", "t", 10), Ok(true));
    assert_eq!(store.set_if_absent("l", "u", 10), Ok(false));
    store.wait(5);
    assert_eq!(store.now(), u64::MAX);
    assert_eq!(store.set_if_absent("l", "u", 10), Ok(true));
    assert_eq!(store.set_if_absent("l", "v", 10), Ok(true));
    assert_eq!(store.set_if_absent("z", "t", 0), Ok(true));
}

#[test]
fn answers_of_the_store_become_values_and_leases() {
    assert_eq!(RedisSequenceGenerator::value_of_increment(Ok(1)), Ok(1));
    assert_eq!(RedisSequenceGenerator::value_of_increment(Ok(i64::MAX)), Ok(i64::MAX as u64));
    assert_eq!(
        RedisSequenceGenerator::value_of_increment(Ok(0)),
        Err(SequenceGeneratorError::Corrupt)
    );
    assert_eq!(
        RedisSequenceGenerator::value_of_increment(Ok(-3)),
        Err(SequenceGeneratorError::Corrupt)
    );
    assert_eq!(
        RedisSequenceGenerator::value_of_increment(Err(StoreError::Unavailable)),
        Err(SequenceGeneratorError::BackendUnavailable)
    );
    assert_eq!(
        RedisSequenceGenerator::lease_of_increment(Ok(30), 10),
        Ok(Lease { range_start: 21, range_end: 30, cursor: 22 })
    );
    assert_eq!(
        RedisSequenceGenerator::lease_of_increment(Ok(1), 1),
        Ok(Lease { range_start: 1, range_end: 1, cursor: 2 })
    );
    assert_eq!(
        RedisSequenceGenerator::lease_of_increment(Ok(9), 10),
        Err(SequenceGeneratorError::Corrupt)
    );
    assert_eq!(
        RedisSequenceGenerator::lease_of_increment(Ok(9), 0),
        Err(SequenceGeneratorError::Corrupt)
    );
    assert_eq!(
        RedisSequenceGenerator::lease_of_increment(Err(StoreError::Corrupt), 10),
        Err(SequenceGeneratorError::Corrupt)
    );
    assert_eq!(
        SequenceGeneratorError::from_store(StoreError::Unavailable),
        SequenceGeneratorError::BackendUnavailable
    );
    assert_eq!(
        RedisPrefixRuleManagerError::from_store(StoreError::Corrupt),
        RedisPrefixRuleManagerError::Corrupt
    );
}

#[test]
fn retry_policy_counts_attempts() {
    let twice = RetryPolicy { max_attempts: 2, delay_millis: 1 };
    assert!(twice.should_retry(0, StoreError::Unavailable));
    assert!(!twice.should_retry(1, StoreError::Unavailable));
    assert!(!twice.should_retry(0, StoreError::Corrupt));
    let never = RetryPolicy { max_attempts: 0, delay_millis: 1 };
    assert!(!never.should_retry(0, StoreError::Unavailable));
    let always = RetryPolicy { max_attempts: u32::MAX, delay_millis: 1 };
    assert!(always.should_retry(u32::MAX - 2, StoreError::Unavailable));
    assert!(!always.should_retry(u32::MAX - 1, StoreError::Unavailable));
    assert!(!always.should_retry(u32::MAX, StoreError::Unavailable));
}

#[test]
fn copies_of_a_rule() {
    let rule = PrefixRule {
        prefix_key: "K".to_string(),
        format: "{SEQ:2}".to_string(),
        seq_length: 2,
        initial_seq: 7,
        network_partition: false,
    };
    let copy = rule.duplicate();
    assert_eq!(copy.prefix_key, "K");
    assert_eq!(copy.format, "{SEQ:2}");
    assert_eq!((copy.seq_length, copy.initial_seq, copy.network_partition), (2, 7, false));
    let marked = rule.with_network_partition(true);
    assert_eq!(marked.format, "{SEQ:2}");
    assert_eq!((marked.seq_length, marked.initial_seq, marked.network_partition), (2, 7, true));
    assert!(!marked.with_network_partition(false).network_partition);
}

#[test]
fn malformed_stored_rule_stops_generation() {
    let mut store = MemoryStore::new();
    let rule = PrefixRule {
        prefix_key: "K".to_string(),
        format: "K-{SEQ}".to_string(),
        seq_length: 0,
        initial_seq: 1,
        network_partition: false,
    };
    assert_eq!(store.set_rule("prefix_rule:K", &rule), Ok(()));
    let mut service =
        NumberService::new(RedisPrefixRuleManager::new(), RedisSequenceGenerator::new());
    assert_eq!(
        service.generate_number_in_year(&mut store, "K", 2025),
        Err(GenerationError::MalformedTemplate)
    );
    store.garble_rule("prefix_rule:G");
    assert_eq!(
        service.generate_number_in_year(&mut store, "G", 2025),
        Err(GenerationError::Registry(RedisPrefixRuleManagerError::Corrupt))
    );
}
