//! The shared counter store: the one boundary between this library and
//! the backend that several processes share. The store is a capability
//! set; its behaviour is fixed by a mathematical model, [`StoreState`],
//! and one transition function per operation.

use vstd::prelude::*;
use crate::prefix_rule::{PrefixRule, PrefixRuleView};

verus! {

/// Why the store did not answer a request with a value.
#[derive(Debug, Clone, Copy, PartialEq, Eq, Structural)]
pub enum StoreError {
    /// The store could not be reached in time. Transient.
    Unavailable,
    /// What is stored cannot be read as a value of its kind, or a counter
    /// cannot hold the sum asked for.
    Corrupt,
}

/// A mutual-exclusion entry: who holds it, and until when.
#[derive(Debug)]
pub struct Lock {
    pub token: String,
    pub expires_at: u64,
}

/// A lock entry as plain mathematical values.
pub ghost struct LockView {
    pub token: Seq<char>,
    pub expires_at: u64,
}

impl View for Lock {
    type V = LockView;

    open spec fn view(&self) -> LockView {
        LockView { token: self.token@, expires_at: self.expires_at }
    }
}

/// The model of a store.
pub ghost struct StoreState {
    /// The integer entries. A key without an entry counts as zero.
    pub counters: Map<Seq<char>, i64>,
    /// The rule entries. `None` is an entry that cannot be read as a rule.
    pub rules: Map<Seq<char>, Option<PrefixRuleView>>,
    /// The lock entries, expired ones included.
    pub locks: Map<Seq<char>, LockView>,
    /// The store's clock, in milliseconds.
    pub now: u64,
    /// How many of the coming requests will go unanswered.
    pub outages: nat,
}

/// The value of the counter under `key`.
pub open spec fn counter_of(s: StoreState, key: Seq<char>) -> int {
    if s.counters.contains_key(key) {
        s.counters[key] as int
    } else {
        0
    }
}

/// The state after a request that went unanswered.
pub open spec fn after_outage(s: StoreState) -> StoreState {
    StoreState { outages: (s.outages - 1) as nat, ..s }
}

/// `a + b`, held at the largest 64-bit value.
pub open spec fn saturating_sum(a: u64, b: u64) -> u64 {
    if a + b > u64::MAX {
        u64::MAX
    } else {
        (a + b) as u64
    }
}

/// Whether `key` is locked at this moment: it has an entry that has not
/// expired.
pub open spec fn is_locked(s: StoreState, key: Seq<char>) -> bool {
    s.locks.contains_key(key) && s.locks[key].expires_at > s.now
}

/// Atomic increment: the counter under `key` grows by `n`, and the new
/// value is returned.
pub open spec fn incr_by_spec(s: StoreState, key: Seq<char>, n: u64) -> (
    StoreState,
    Result<i64, StoreError>,
) {
    if s.outages > 0 {
        (after_outage(s), Err(StoreError::Unavailable))
    } else if counter_of(s, key) + n > i64::MAX {
        (s, Err(StoreError::Corrupt))
    } else {
        let value = (counter_of(s, key) + n) as i64;
        (StoreState { counters: s.counters.insert(key, value), ..s }, Ok(value))
    }
}

/// Reading the rule entry under `key`.
pub open spec fn get_rule_spec(s: StoreState, key: Seq<char>) -> (
    StoreState,
    Result<Option<PrefixRuleView>, StoreError>,
) {
    if s.outages > 0 {
        (after_outage(s), Err(StoreError::Unavailable))
    } else if !s.rules.contains_key(key) {
        (s, Ok(None))
    } else {
        match s.rules[key] {
            Some(rule) => (s, Ok(Some(rule))),
            None => (s, Err(StoreError::Corrupt)),
        }
    }
}

/// Writing the rule entry under `key`.
pub open spec fn set_rule_spec(s: StoreState, key: Seq<char>, rule: PrefixRuleView) -> (
    StoreState,
    Result<(), StoreError>,
) {
    if s.outages > 0 {
        (after_outage(s), Err(StoreError::Unavailable))
    } else {
        (StoreState { rules: s.rules.insert(key, Some(rule)), ..s }, Ok(()))
    }
}

/// Conditional set: the lock under `key` is taken with `token` for `ttl`
/// milliseconds, unless it is held.
pub open spec fn set_if_absent_spec(s: StoreState, key: Seq<char>, token: Seq<char>, ttl: u64) -> (
    StoreState,
    Result<bool, StoreError>,
) {
    if s.outages > 0 {
        (after_outage(s), Err(StoreError::Unavailable))
    } else if is_locked(s, key) {
        (s, Ok(false))
    } else {
        let lock = LockView { token, expires_at: saturating_sum(s.now, ttl) };
        (StoreState { locks: s.locks.insert(key, lock), ..s }, Ok(true))
    }
}

/// Conditional delete: the lock under `key` is released if it is held
/// with `token`.
pub open spec fn delete_if_equals_spec(s: StoreState, key: Seq<char>, token: Seq<char>) -> (
    StoreState,
    Result<bool, StoreError>,
) {
    if s.outages > 0 {
        (after_outage(s), Err(StoreError::Unavailable))
    } else if is_locked(s, key) && s.locks[key].token == token {
        (StoreState { locks: s.locks.remove(key), ..s }, Ok(true))
    } else {
        (s, Ok(false))
    }
}

/// The state after `millis` milliseconds have passed.
pub open spec fn wait_spec(s: StoreState, millis: u64) -> StoreState {
    StoreState { now: saturating_sum(s.now, millis), ..s }
}

/// Lock self-expiry. A lock that its holder never releases is refused to
/// everybody while its time to live lasts, and is granted to the next who
/// asks once that time has passed.
pub proof fn theorem_lock_expires_by_itself(
    s: StoreState,
    key: Seq<char>,
    holder: Seq<char>,
    ttl: u64,
    waited: u64,
    other: Seq<char>,
    other_ttl: u64,
)
    requires
        s.outages == 0,
        set_if_absent_spec(s, key, holder, ttl).1 == Ok::<bool, StoreError>(true),
    ensures
        waited >= ttl ==> set_if_absent_spec(
            wait_spec(set_if_absent_spec(s, key, holder, ttl).0, waited),
            key,
            other,
            other_ttl,
        ).1 == Ok::<bool, StoreError>(true),
        waited < ttl && s.now + ttl <= u64::MAX ==> set_if_absent_spec(
            wait_spec(set_if_absent_spec(s, key, holder, ttl).0, waited),
            key,
            other,
            other_ttl,
        ).1 == Ok::<bool, StoreError>(false),
{
}

/// What a read of a rule entry returned, as plain mathematical values.
pub open spec fn rule_read_view(r: Result<Option<PrefixRule>, StoreError>) -> Result<
    Option<PrefixRuleView>,
    StoreError,
> {
    match r {
        Ok(Some(rule)) => Ok(Some(rule@)),
        Ok(None) => Ok(None),
        Err(e) => Err(e),
    }
}

/// The operations that the library asks of the store. Every operation is
/// a step of the model: the state after it and its result are those that
/// the operation's transition function gives.
pub trait SharedStore {
    /// The model of this store: what its entries, its clock and its
    /// coming outages are.
    spec fn state(&self) -> StoreState;

    /// What the implementation keeps true of its own data.
    open spec fn inv(&self) -> bool {
        true
    }

    /// Atomic increment of the counter under `key` by `n`; returns the
    /// counter's new value.
    fn incr_by(&mut self, key: &str, n: u64) -> (r: Result<i64, StoreError>)
        requires
            old(self).inv(),
        ensures
            final(self).inv(),
            (final(self).state(), r) == incr_by_spec(old(self).state(), key@, n),
    ;

    /// The rule entry under `key`, or `None` where there is none.
    fn get_rule(&mut self, key: &str) -> (r: Result<Option<PrefixRule>, StoreError>)
        requires
            old(self).inv(),
        ensures
            final(self).inv(),
            (final(self).state(), rule_read_view(r)) == get_rule_spec(old(self).state(), key@),
    ;

    /// Writes `rule` as the rule entry under `key`.
    fn set_rule(&mut self, key: &str, rule: &PrefixRule) -> (r: Result<(), StoreError>)
        requires
            old(self).inv(),
        ensures
            final(self).inv(),
            (final(self).state(), r) == set_rule_spec(old(self).state(), key@, rule@),
    ;

    /// Takes the lock under `key` with `token` for `ttl_millis`
    /// milliseconds, unless it is held; returns whether it was taken.
    fn set_if_absent(&mut self, key: &str, token: &str, ttl_millis: u64) -> (r: Result<
        bool,
        StoreError,
    >)
        requires
            old(self).inv(),
        ensures
            final(self).inv(),
            (final(self).state(), r) == set_if_absent_spec(
                old(self).state(),
                key@,
                token@,
                ttl_millis,
            ),
    ;

    /// Releases the lock under `key` if it is held with `token`; returns
    /// whether it was released.
    fn delete_if_equals(&mut self, key: &str, token: &str) -> (r: Result<bool, StoreError>)
        requires
            old(self).inv(),
        ensures
            final(self).inv(),
            (final(self).state(), r) == delete_if_equals_spec(old(self).state(), key@, token@),
    ;

    /// Lets `millis` milliseconds pass.
    fn wait(&mut self, millis: u64)
        requires
            old(self).inv(),
        ensures
            final(self).inv(),
            final(self).state() == wait_spec(old(self).state(), millis),
    ;
}

} // verus!
