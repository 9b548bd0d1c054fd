//! The prefix rule registry: rules kept in the shared store, fronted by a
//! read cache that belongs to one process.
//!
//! The cache is read-through and write-invalidate. It is not
//! authoritative: a rule that another process changes stays as it was in
//! this cache until this process registers the key again or starts anew.

use vstd::prelude::*;
use vstd::string::StringExecFns;
use crate::keyed_table::KeyedTable;
use crate::keys::{rule_key, rule_key_of};
use crate::number_assembler::{format_is_valid, is_valid_format};
use crate::prefix_rule::{PrefixRule, PrefixRuleView};
use crate::prefix_rule_manager::{lookup_view, PrefixRuleManager};
use crate::store::{
    get_rule_spec, rule_read_view, set_rule_spec, wait_spec, SharedStore, StoreError, StoreState,
};

verus! {

/// Why the registry did not do what it was asked.
#[derive(Debug, Clone, Copy, PartialEq, Eq, Structural)]
pub enum RedisPrefixRuleManagerError {
    /// The rule's template names no sequence placeholder with a
    /// resolvable width, its default width is zero, or its prefix key is
    /// empty.
    InvalidFormat,
    /// A rule is registered under this key, and the registry does not
    /// replace rules.
    AlreadyExists,
    /// The store did not answer within the retry policy.
    BackendUnavailable,
    /// The stored rule cannot be read.
    Corrupt,
    /// No rule is registered under this key.
    PrefixRuleNotFound,
}

/// The registry's error for a failure of the store.
pub open spec fn registry_failure(e: StoreError) -> RedisPrefixRuleManagerError {
    match e {
        StoreError::Unavailable => RedisPrefixRuleManagerError::BackendUnavailable,
        StoreError::Corrupt => RedisPrefixRuleManagerError::Corrupt,
    }
}

impl RedisPrefixRuleManagerError {
    /// The registry's error for a failure of the store.
    pub fn from_store(e: StoreError) -> (r: Self)
        ensures
            r == registry_failure(e),
    {
        match e {
            StoreError::Unavailable => RedisPrefixRuleManagerError::BackendUnavailable,
            StoreError::Corrupt => RedisPrefixRuleManagerError::Corrupt,
        }
    }

    /// The text of this error.
    pub open spec fn message_spec(&self) -> Seq<char> {
        match self {
            RedisPrefixRuleManagerError::InvalidFormat => "Invalid prefix format"@,
            RedisPrefixRuleManagerError::AlreadyExists => "Prefix rule already exists"@,
            RedisPrefixRuleManagerError::BackendUnavailable => "Store error: backend unavailable"@,
            RedisPrefixRuleManagerError::Corrupt => "Serialization error: corrupt rule"@,
            RedisPrefixRuleManagerError::PrefixRuleNotFound => "Prefix rule not found"@,
        }
    }

    /// The text of this error.
    pub fn message(&self) -> (text: String)
        ensures
            text@ == self.message_spec(),
    {
        match self {
            RedisPrefixRuleManagerError::InvalidFormat => String::from_str("Invalid prefix format"),
            RedisPrefixRuleManagerError::AlreadyExists => String::from_str(
                "Prefix rule already exists",
            ),
            RedisPrefixRuleManagerError::BackendUnavailable => String::from_str(
                "Store error: backend unavailable",
            ),
            RedisPrefixRuleManagerError::Corrupt => String::from_str(
                "Serialization error: corrupt rule",
            ),
            RedisPrefixRuleManagerError::PrefixRuleNotFound => String::from_str(
                "Prefix rule not found",
            ),
        }
    }
}

/// What registering a key that has a rule does.
#[derive(Debug, Clone, Copy, PartialEq, Eq, Structural)]
pub enum DuplicatePolicy {
    /// The second registration fails with `AlreadyExists`.
    Reject,
    /// The second registration replaces the rule.
    Replace,
}

/// How often a request that the store left unanswered is made in all, and
/// how long the registry waits before it asks again.
#[derive(Debug, Clone, Copy, PartialEq, Eq, Structural)]
pub struct RetryPolicy {
    pub max_attempts: u32,
    pub delay_millis: u64,
}

/// Whether a request that failed with `failed` at attempt `attempt`
/// (counted from zero) is made again: only an unanswered request is, and
/// only while the policy has attempts left.
pub open spec fn asks_again(retry: RetryPolicy, attempt: nat, failed: StoreError) -> bool {
    failed == StoreError::Unavailable && attempt + 1 < retry.max_attempts
}

impl RetryPolicy {
    /// Whether a request that failed with `failed` at attempt `attempt`
    /// is made again.
    pub fn should_retry(&self, attempt: u32, failed: StoreError) -> (again: bool)
        ensures
            again == asks_again(*self, attempt as nat, failed),
    {
        match failed {
            StoreError::Unavailable => attempt < u32::MAX && attempt + 1 < self.max_attempts,
            StoreError::Corrupt => false,
        }
    }
}

/// The model of a registry.
pub ghost struct ManagerState {
    pub cache: Map<Seq<char>, PrefixRuleView>,
    pub duplicates: DuplicatePolicy,
    pub retry: RetryPolicy,
}

/// Reading a rule entry under a retry policy, from attempt `attempt` on:
/// an unanswered read is repeated after the delay while attempts are left.
pub open spec fn read_rule(s: StoreState, key: Seq<char>, retry: RetryPolicy, attempt: nat) -> (
    StoreState,
    Result<Option<PrefixRuleView>, StoreError>,
)
    decreases retry.max_attempts - attempt,
{
    let (s1, r) = get_rule_spec(s, key);
    if r is Err && asks_again(retry, attempt, r->Err_0) {
        read_rule(wait_spec(s1, retry.delay_millis), key, retry, attempt + 1)
    } else {
        (s1, r)
    }
}

/// Writing a rule entry under a retry policy, from attempt `attempt` on.
pub open spec fn write_rule(
    s: StoreState,
    key: Seq<char>,
    rule: PrefixRuleView,
    retry: RetryPolicy,
    attempt: nat,
) -> (StoreState, Result<(), StoreError>)
    decreases retry.max_attempts - attempt,
{
    let (s1, r) = set_rule_spec(s, key, rule);
    if r is Err && asks_again(retry, attempt, r->Err_0) {
        write_rule(wait_spec(s1, retry.delay_millis), key, rule, retry, attempt + 1)
    } else {
        (s1, r)
    }
}

/// A lookup: the cached rule where there is one; else a read of the
/// store, whose rule fills the cache.
pub open spec fn lookup(m: ManagerState, s: StoreState, prefix: Seq<char>) -> (
    ManagerState,
    StoreState,
    Result<Option<PrefixRuleView>, RedisPrefixRuleManagerError>,
) {
    if m.cache.contains_key(prefix) {
        (m, s, Ok(Some(m.cache[prefix])))
    } else {
        let (s1, r) = read_rule(s, rule_key(prefix), m.retry, 0);
        match r {
            Ok(Some(rule)) => (ManagerState { cache: m.cache.insert(prefix, rule), ..m }, s1, Ok(
                Some(rule),
            )),
            Ok(None) => (m, s1, Ok(None)),
            Err(e) => (m, s1, Err(registry_failure(e))),
        }
    }
}

/// Persisting a rule: the cache takes the new rule once the store has
/// it. A write that fails leaves the cache as it was.
pub open spec fn persist(m: ManagerState, s: StoreState, prefix: Seq<char>, rule: PrefixRuleView) -> (
    ManagerState,
    StoreState,
    Result<(), RedisPrefixRuleManagerError>,
) {
    let (s1, r) = write_rule(s, rule_key(prefix), rule, m.retry, 0);
    match r {
        Ok(_) => (ManagerState { cache: m.cache.insert(prefix, rule), ..m }, s1, Ok(())),
        Err(e) => (m, s1, Err(registry_failure(e))),
    }
}

/// What registration asks of a rule: a prefix key that is not empty, a
/// default width of at least one, and a template that holds a sequence
/// placeholder and no sequence placeholder without a usable width.
pub open spec fn rule_is_valid(prefix: Seq<char>, rule: PrefixRuleView) -> bool {
    prefix.len() > 0 && rule.seq_length >= 1 && format_is_valid(rule.format, rule.seq_length)
}

/// A registration: validation, then the duplicate policy, then the write.
/// A rule that is not valid is refused before anything is read or written.
pub open spec fn registration(
    m: ManagerState,
    s: StoreState,
    prefix: Seq<char>,
    rule: PrefixRuleView,
) -> (ManagerState, StoreState, Result<(), RedisPrefixRuleManagerError>) {
    if !rule_is_valid(prefix, rule) {
        (m, s, Err(RedisPrefixRuleManagerError::InvalidFormat))
    } else if m.duplicates == DuplicatePolicy::Reject {
        let (s1, existing) = read_rule(s, rule_key(prefix), m.retry, 0);
        match existing {
            Ok(None) => persist(m, s1, prefix, rule),
            Ok(Some(_)) => (m, s1, Err(RedisPrefixRuleManagerError::AlreadyExists)),
            Err(e) => (m, s1, Err(registry_failure(e))),
        }
    } else {
        persist(m, s, prefix, rule)
    }
}

/// Marking a prefix as degraded: its rule is looked up and written back
/// with the flag set, whatever the duplicate policy.
pub open spec fn partition_marking(m: ManagerState, s: StoreState, prefix: Seq<char>) -> (
    ManagerState,
    StoreState,
    Result<(), RedisPrefixRuleManagerError>,
) {
    let (m1, s1, found) = lookup(m, s, prefix);
    match found {
        Ok(Some(rule)) => persist(
            m1,
            s1,
            prefix,
            PrefixRuleView { network_partition: true, ..rule },
        ),
        Ok(None) => (m1, s1, Err(RedisPrefixRuleManagerError::PrefixRuleNotFound)),
        Err(e) => (m1, s1, Err(e)),
    }
}

/// Registration validates first: a rule whose template holds no sequence
/// placeholder is refused as `InvalidFormat`, whatever the policies, the
/// cache and the store, and leaves all of them as they were.
pub proof fn theorem_registration_needs_a_sequence_placeholder(
    m: ManagerState,
    s: StoreState,
    prefix: Seq<char>,
    rule: PrefixRuleView,
)
    requires
        !crate::number_assembler::has_sequence_from(rule.format, 0),
    ensures
        registration(m, s, prefix, rule) == (
            m,
            s,
            Err::<(), RedisPrefixRuleManagerError>(RedisPrefixRuleManagerError::InvalidFormat),
        ),
{
}

/// Registration answers `InvalidFormat` for exactly the rules that are
/// not valid, and for those it reads and writes nothing: an empty prefix
/// key, a default width of zero, a template without a sequence
/// placeholder, or one with a sequence placeholder whose width is not
/// usable.
pub proof fn theorem_registration_validates_first(
    m: ManagerState,
    s: StoreState,
    prefix: Seq<char>,
    rule: PrefixRuleView,
)
    ensures
        !rule_is_valid(prefix, rule) ==> registration(m, s, prefix, rule) == (
            m,
            s,
            Err::<(), RedisPrefixRuleManagerError>(RedisPrefixRuleManagerError::InvalidFormat),
        ),
        rule_is_valid(prefix, rule) ==> registration(m, s, prefix, rule).2 != Err::<
            (),
            RedisPrefixRuleManagerError,
        >(RedisPrefixRuleManagerError::InvalidFormat),
{
    if rule_is_valid(prefix, rule) {
        let key = rule_key(prefix);
        lemma_write_fails_as_the_store(s, key, rule, m.retry, 0);
        let (s1, existing) = read_rule(s, key, m.retry, 0);
        lemma_write_fails_as_the_store(s1, key, rule, m.retry, 0);
    }
}

/// A valid rule is registered where the store answers and, under the
/// policy that rejects duplicates, the key is free: the result is `Ok`,
/// and the store and the cache hold the rule afterwards.
pub proof fn theorem_valid_registration_succeeds(
    m: ManagerState,
    s: StoreState,
    prefix: Seq<char>,
    rule: PrefixRuleView,
)
    requires
        rule_is_valid(prefix, rule),
        s.outages == 0,
        m.duplicates == DuplicatePolicy::Reject ==> !s.rules.contains_key(rule_key(prefix)),
    ensures
        ({
            let (m1, s1, r) = registration(m, s, prefix, rule);
            &&& r is Ok
            &&& s1.rules == s.rules.insert(rule_key(prefix), Some(rule))
            &&& s1.counters == s.counters
            &&& m1.cache == m.cache.insert(prefix, rule)
        }),
{
}

/// Under the policy that rejects duplicates, a registration that follows
/// a successful one for the same key fails with `AlreadyExists`, where
/// the store answers.
pub proof fn theorem_second_registration_is_rejected(
    m: ManagerState,
    s: StoreState,
    prefix: Seq<char>,
    first: PrefixRuleView,
    second: PrefixRuleView,
)
    requires
        m.duplicates == DuplicatePolicy::Reject,
        registration(m, s, prefix, first).2 is Ok,
        registration(m, s, prefix, first).1.outages == 0,
        second.seq_length >= 1,
        format_is_valid(second.format, second.seq_length),
    ensures
        ({
            let (m1, s1, _r) = registration(m, s, prefix, first);
            registration(m1, s1, prefix, second).2 == Err::<(), RedisPrefixRuleManagerError>(
                RedisPrefixRuleManagerError::AlreadyExists,
            )
        }),
{
    let (m1, s1, r) = registration(m, s, prefix, first);
    let key = rule_key(prefix);
    let (s0, existing) = read_rule(s, key, m.retry, 0);
    lemma_write_stores(s0, key, first, m.retry, 0);
    assert(s1.rules.contains_key(key) && s1.rules[key] is Some);
    assert(get_rule_spec(s1, key).1 is Ok);
}

/// A write fails only as the store fails.
proof fn lemma_write_fails_as_the_store(
    s: StoreState,
    key: Seq<char>,
    rule: PrefixRuleView,
    retry: RetryPolicy,
    attempt: nat,
)
    ensures
        write_rule(s, key, rule, retry, attempt).1 is Err ==> write_rule(
            s,
            key,
            rule,
            retry,
            attempt,
        ).1->Err_0 == StoreError::Unavailable,
    decreases retry.max_attempts - attempt,
{
    let (s1, r) = set_rule_spec(s, key, rule);
    if r is Err && asks_again(retry, attempt, r->Err_0) {
        lemma_write_fails_as_the_store(
            wait_spec(s1, retry.delay_millis),
            key,
            rule,
            retry,
            attempt + 1,
        );
    }
}

/// A write that succeeds leaves the rule in the store.
proof fn lemma_write_stores(
    s: StoreState,
    key: Seq<char>,
    rule: PrefixRuleView,
    retry: RetryPolicy,
    attempt: nat,
)
    ensures
        write_rule(s, key, rule, retry, attempt).1 is Ok ==> {
            let s1 = write_rule(s, key, rule, retry, attempt).0;
            s1.rules.contains_key(key) && s1.rules[key] == Some(rule)
        },
    decreases retry.max_attempts - attempt,
{
    let (s1, r) = set_rule_spec(s, key, rule);
    if r is Err && asks_again(retry, attempt, r->Err_0) {
        lemma_write_stores(wait_spec(s1, retry.delay_millis), key, rule, retry, attempt + 1);
    }
}

/// The cached rules as plain mathematical values.
pub open spec fn cache_view(entries: Map<Seq<char>, PrefixRule>) -> Map<Seq<char>, PrefixRuleView> {
    entries.map_values(|rule: PrefixRule| rule@)
}

proof fn lemma_cache_view_insert(entries: Map<Seq<char>, PrefixRule>, key: Seq<char>, rule: PrefixRule)
    ensures
        cache_view(entries.insert(key, rule)) == cache_view(entries).insert(key, rule@),
{
    assert(cache_view(entries.insert(key, rule)) =~= cache_view(entries).insert(key, rule@));
}

proof fn lemma_cache_view_empty()
    ensures
        cache_view(Map::empty()) == Map::<Seq<char>, PrefixRuleView>::empty(),
{
    assert(cache_view(Map::empty()) =~= Map::<Seq<char>, PrefixRuleView>::empty());
}

/// The registry of one process.
pub struct RedisPrefixRuleManager {
    local_cache: KeyedTable<PrefixRule>,
    duplicates: DuplicatePolicy,
    retry: RetryPolicy,
}

impl View for RedisPrefixRuleManager {
    type V = ManagerState;

    closed spec fn view(&self) -> ManagerState {
        ManagerState {
            cache: cache_view(self.local_cache@),
            duplicates: self.duplicates,
            retry: self.retry,
        }
    }
}

impl RedisPrefixRuleManager {
    /// The registry's invariant.
    pub closed spec fn wf(&self) -> bool {
        self.local_cache.wf()
    }

    /// A registry with an empty cache that replaces rules on a second
    /// registration and asks the store twice at most, one second apart.
    pub fn new() -> (manager: Self)
        ensures
            manager.wf(),
            manager@ == (ManagerState {
                cache: Map::empty(),
                duplicates: DuplicatePolicy::Replace,
                retry: RetryPolicy { max_attempts: 2, delay_millis: 1000 },
            }),
    {
        Self::with_policies(
            DuplicatePolicy::Replace,
            RetryPolicy { max_attempts: 2, delay_millis: 1000 },
        )
    }

    /// A registry with an empty cache and the given policies.
    pub fn with_policies(duplicates: DuplicatePolicy, retry: RetryPolicy) -> (manager: Self)
        ensures
            manager.wf(),
            manager@ == (ManagerState { cache: Map::empty(), duplicates, retry }),
    {
        proof {
            lemma_cache_view_empty();
        }
        RedisPrefixRuleManager { local_cache: KeyedTable::new(), duplicates, retry }
    }

    /// The key of the rule entry of `prefix_key`.
    pub fn get_redis_key(prefix_key: &str) -> (key: String)
        ensures
            key@ == rule_key(prefix_key@),
    {
        rule_key_of(prefix_key)
    }

    /// Reads the rule entry of `prefix_key` from the store, once.
    pub fn get_prefix_rule_from_redis<S: SharedStore>(&self, store: &mut S, prefix_key: &str) -> (r:
        Result<Option<PrefixRule>, StoreError>)
        requires
            old(store).inv(),
        ensures
            final(store).inv(),
            (final(store).state(), rule_read_view(r)) == get_rule_spec(
                old(store).state(),
                rule_key(prefix_key@),
            ),
    {
        let key = Self::get_redis_key(prefix_key);
        store.get_rule(key.as_str())
    }

    fn read<S: SharedStore>(&self, store: &mut S, prefix_key: &str) -> (r: Result<
        Option<PrefixRule>,
        StoreError,
    >)
        requires
            old(store).inv(),
        ensures
            final(store).inv(),
            (final(store).state(), rule_read_view(r)) == read_rule(
                old(store).state(),
                rule_key(prefix_key@),
                self@.retry,
                0,
            ),
    {
        let ghost key = rule_key(prefix_key@);
        let mut attempt: u32 = 0;
        loop
            invariant
                store.inv(),
                key == rule_key(prefix_key@),
                read_rule(store.state(), key, self@.retry, attempt as nat) == read_rule(
                    old(store).state(),
                    key,
                    self@.retry,
                    0,
                ),
            decreases u32::MAX - attempt,
        {
            let r = self.get_prefix_rule_from_redis(store, prefix_key);
            let again = match &r {
                Err(e) => self.retry.should_retry(attempt, *e),
                Ok(_) => false,
            };
            if !again {
                return r;
            }
            store.wait(self.retry.delay_millis);
            attempt = attempt + 1;
        }
    }

    fn write<S: SharedStore>(&self, store: &mut S, prefix_key: &str, rule: &PrefixRule) -> (r:
        Result<(), StoreError>)
        requires
            old(store).inv(),
        ensures
            final(store).inv(),
            (final(store).state(), r) == write_rule(
                old(store).state(),
                rule_key(prefix_key@),
                rule@,
                self@.retry,
                0,
            ),
    {
        let key = Self::get_redis_key(prefix_key);
        let mut attempt: u32 = 0;
        loop
            invariant
                store.inv(),
                key@ == rule_key(prefix_key@),
                write_rule(store.state(), key@, rule@, self@.retry, attempt as nat) == write_rule(
                    old(store).state(),
                    key@,
                    rule@,
                    self@.retry,
                    0,
                ),
            decreases u32::MAX - attempt,
        {
            let r = store.set_rule(key.as_str(), rule);
            let again = match &r {
                Err(e) => self.retry.should_retry(attempt, *e),
                Ok(_) => false,
            };
            if !again {
                return r;
            }
            store.wait(self.retry.delay_millis);
            attempt = attempt + 1;
        }
    }

    fn save<S: SharedStore>(&mut self, store: &mut S, prefix_key: &str, rule: PrefixRule) -> (r:
        Result<(), RedisPrefixRuleManagerError>)
        requires
            old(self).wf(),
            old(store).inv(),
        ensures
            final(self).wf(),
            final(store).inv(),
            (final(self)@, final(store).state(), r) == persist(
                old(self)@,
                old(store).state(),
                prefix_key@,
                rule@,
            ),
    {
        match self.write(store, prefix_key, &rule) {
            Ok(_) => {
                proof {
                    lemma_cache_view_insert(self.local_cache@, prefix_key@, rule);
                }
                self.local_cache.set(prefix_key, rule);
                Ok(())
            },
            Err(e) => Err(RedisPrefixRuleManagerError::from_store(e)),
        }
    }

    /// Marks the prefix as degraded: the numbers assembled under its rule
    /// carry the marker suffix from now on.
    pub fn set_network_partition<S: SharedStore>(&mut self, store: &mut S, prefix_key: &str) -> (r:
        Result<(), RedisPrefixRuleManagerError>)
        requires
            old(self).wf(),
            old(store).inv(),
        ensures
            final(self).wf(),
            final(store).inv(),
            (final(self)@, final(store).state(), r) == partition_marking(
                old(self)@,
                old(store).state(),
                prefix_key@,
            ),
    {
        match self.get_prefix_rule(store, prefix_key.to_owned()) {
            Ok(Some(rule)) => {
                let marked = rule.with_network_partition(true);
                self.save(store, prefix_key, marked)
            },
            Ok(None) => Err(RedisPrefixRuleManagerError::PrefixRuleNotFound),
            Err(e) => Err(e),
        }
    }
}

impl<S: SharedStore> PrefixRuleManager<S> for RedisPrefixRuleManager {
    open spec fn ready(&self) -> bool {
        self.wf()
    }

    /// Validates `rule`, applies the duplicate policy, writes the rule to
    /// the store under the key of `prefix_key`, and renews the cache entry.
    fn register_prefix_rule(&mut self, store: &mut S, prefix_key: String, rule: PrefixRule) -> (r:
        Result<(), RedisPrefixRuleManagerError>)
        ensures
            (final(self)@, final(store).state(), r) == registration(
                old(self)@,
                old(store).state(),
                prefix_key@,
                rule@,
            ),
    {
        if prefix_key.as_str().is_empty() || rule.seq_length == 0 || !is_valid_format(
            rule.format.as_str(),
            rule.seq_length,
        ) {
            return Err(RedisPrefixRuleManagerError::InvalidFormat);
        }
        match self.duplicates {
            DuplicatePolicy::Reject => {
                match self.read(store, prefix_key.as_str()) {
                    Ok(None) => self.save(store, prefix_key.as_str(), rule),
                    Ok(Some(_)) => Err(RedisPrefixRuleManagerError::AlreadyExists),
                    Err(e) => Err(RedisPrefixRuleManagerError::from_store(e)),
                }
            },
            DuplicatePolicy::Replace => self.save(store, prefix_key.as_str(), rule),
        }
    }

    /// Looks the rule up in the cache; on a miss reads the store, asking
    /// again after the delay where it does not answer, and caches the rule
    /// that it finds. A key without an entry is `None`, not an error.
    fn get_prefix_rule(&mut self, store: &mut S, prefix_key: String) -> (r: Result<
        Option<PrefixRule>,
        RedisPrefixRuleManagerError,
    >)
        ensures
            (final(self)@, final(store).state(), lookup_view(r)) == lookup(
                old(self)@,
                old(store).state(),
                prefix_key@,
            ),
    {
        match self.local_cache.get(prefix_key.as_str()) {
            Some(rule) => {
                return Ok(Some(rule.duplicate()));
            },
            None => {},
        }
        match self.read(store, prefix_key.as_str()) {
            Ok(Some(rule)) => {
                let copy = rule.duplicate();
                proof {
                    lemma_cache_view_insert(self.local_cache@, prefix_key@, copy);
                }
                self.local_cache.set(prefix_key.as_str(), copy);
                Ok(Some(rule))
            },
            Ok(None) => Ok(None),
            Err(e) => Err(RedisPrefixRuleManagerError::from_store(e)),
        }
    }
}

} // verus!
