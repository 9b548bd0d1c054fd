use numbering::memory_store::MemoryStore;
use numbering::sequence_generator::{
    Lease, RedisSequenceGenerator, SequenceGenerator, SequenceGeneratorError, Strategy,
};
use numbering::store::SharedStore;

#[test]
fn direct_values_start_at_one_and_increase() {
    let mut store = MemoryStore::new();
    let mut generator = RedisSequenceGenerator::new();
    assert_eq!(generator.strategy(), Strategy::Direct);
    let mut last = 0;
    for expected in 1..=50u64 {
        let value = generator.generate(&mut store, "ORDER").unwrap();
        assert_eq!(value, expected);
        assert!(value > last);
        last = value;
    }
    assert_eq!(store.counter("seq:ORDER"), 50);
    assert_eq!(generator.generate(&mut store, "OTHER"), Ok(1));
}

#[test]
fn callers_of_both_strategies_never_share_a_value() {
    let mut store = MemoryStore::new();
    let mut issuers = vec![
        RedisSequenceGenerator::new(),
        RedisSequenceGenerator::with_leases("a", 7, 50).unwrap(),
        RedisSequenceGenerator::with_leases("b", 3, 50).unwrap(),
        RedisSequenceGenerator::with_leases("c", 1, 50).unwrap(),
    ];
    let mut seen = std::collections::HashSet::new();
    let calls_each = 40;
    for round in 0..calls_each {
        for k in 0..issuers.len() {
            let pick = (k + round) % 4;
            let value = issuers[pick].generate(&mut store, "P").unwrap();
            assert!(seen.insert(value), "{} was issued twice", value);
        }
    }
    assert_eq!(seen.len(), 4 * calls_each);
}

#[test]
fn lease_serves_without_the_store() {
    let mut store = MemoryStore::new();
    let mut generator = RedisSequenceGenerator::with_leases("node-a", 5, 1000).unwrap();
    assert_eq!(generator.lease("K"), None);
    assert_eq!(generator.generate(&mut store, "K"), Ok(1));
    assert_eq!(store.counter("seq:K"), 5);
    assert_eq!(generator.lease("K"), Some(Lease { range_start: 1, range_end: 5, cursor: 2 }));
    store.fail_next(4);
    for expected in 2..=5u64 {
        assert_eq!(generator.generate(&mut store, "K"), Ok(expected));
    }
    assert_eq!(
        generator.generate(&mut store, "K"),
        Err(SequenceGeneratorError::BackendUnavailable)
    );
    store.fail_next(0);
    assert_eq!(generator.generate(&mut store, "K"), Ok(6));
    assert_eq!(store.counter("seq:K"), 10);
}

#[test]
fn restart_leaves_a_gap_and_no_duplicate() {
    let mut store = MemoryStore::new();
    let mut first = RedisSequenceGenerator::with_leases("node-a", 10, 1000).unwrap();
    assert_eq!(first.generate(&mut store, "K"), Ok(1));
    assert_eq!(first.generate(&mut store, "K"), Ok(2));
    assert_eq!(first.generate(&mut store, "K"), Ok(3));
    let mut restarted = RedisSequenceGenerator::with_leases("node-a", 10, 1000).unwrap();
    assert_eq!(restarted.generate(&mut store, "K"), Ok(11));
    assert_eq!(restarted.generate(&mut store, "K"), Ok(12));
    let mut direct = RedisSequenceGenerator::new();
    assert_eq!(direct.generate(&mut store, "K"), Ok(21));
}

#[test]
fn held_lock_answers_try_again_until_it_expires() {
    let mut store = MemoryStore::new();
    assert_eq!(store.set_if_absent("lock:K", "crashed", 500), Ok(true));
    let mut generator = RedisSequenceGenerator::with_leases("node-b", 4, 500).unwrap();
    assert_eq!(generator.generate(&mut store, "K"), Err(SequenceGeneratorError::TryAgain));
    assert_eq!(store.counter("seq:K"), 0);
    store.wait(499);
    assert_eq!(generator.generate(&mut store, "K"), Err(SequenceGeneratorError::TryAgain));
    store.wait(1);
    assert_eq!(store.now(), 500);
    assert_eq!(generator.generate(&mut store, "K"), Ok(1));
    assert_eq!(store.set_if_absent("lock:K", "next", 500), Ok(true));
}

#[test]
fn lock_is_released_only_by_its_holder() {
    let mut store = MemoryStore::new();
    assert_eq!(store.set_if_absent("lock:K", "one", 100), Ok(true));
    assert_eq!(store.set_if_absent("lock:K", "two", 100), Ok(false));
    assert_eq!(store.delete_if_equals("lock:K", "two"), Ok(false));
    assert_eq!(store.delete_if_equals("lock:J", "one"), Ok(false));
    assert_eq!(store.delete_if_equals("lock:K", "one"), Ok(true));
    assert_eq!(store.delete_if_equals("lock:K", "one"), Ok(false));
    assert_eq!(store.set_if_absent("lock:K", "two", 100), Ok(true));
}

#[test]
fn empty_prefix_names_no_prefix() {
    let mut store = MemoryStore::new();
    let mut direct = RedisSequenceGenerator::new();
    assert_eq!(direct.generate(&mut store, ""), Err(SequenceGeneratorError::PrefixNotFound));
    let mut leased = RedisSequenceGenerator::with_leases("h", 2, 10).unwrap();
    assert_eq!(leased.generate(&mut store, ""), Err(SequenceGeneratorError::PrefixNotFound));
    assert!(RedisSequenceGenerator::with_leases("h", 0, 10).is_none());
}

#[test]
fn failed_increment_issues_nothing() {
    let mut store = MemoryStore::new();
    let mut direct = RedisSequenceGenerator::new();
    store.fail_next(1);
    assert_eq!(
        direct.generate(&mut store, "K"),
        Err(SequenceGeneratorError::BackendUnavailable)
    );
    assert_eq!(direct.generate(&mut store, "K"), Ok(1));
    assert_eq!(store.incr_by("seq:K", i64::MAX as u64 - 1), Ok(i64::MAX));
    assert_eq!(direct.generate(&mut store, "K"), Err(SequenceGeneratorError::Corrupt));
    assert_eq!(store.counter("seq:K"), i64::MAX);
}

#[test]
fn issuer_errors_have_their_texts() {
    assert_eq!(SequenceGeneratorError::PrefixNotFound.message(), "Prefix not found");
    assert_eq!(
        SequenceGeneratorError::BackendUnavailable.message(),
        "Store error: backend unavailable"
    );
    assert_eq!(SequenceGeneratorError::Corrupt.message(), "Store error: corrupt counter");
    assert_eq!(
        SequenceGeneratorError::TryAgain.message(),
        "Lease is being acquired elsewhere: try again"
    );
}
