//! A store that lives in the memory of one process.

use vstd::prelude::*;
use crate::keyed_table::KeyedTable;
use crate::prefix_rule::{PrefixRule, PrefixRuleView};
use crate::store::{
    after_outage, counter_of, is_locked, Lock, LockView, SharedStore, StoreError, StoreState,
};
use crate::text::same_text;

verus! {

/// An in-memory store with a clock of its own, which only [`wait`]
/// advances, and a number of outages to come, for rehearsing failures.
///
/// [`wait`]: SharedStore::wait
pub struct MemoryStore {
    counters: KeyedTable<i64>,
    rules: KeyedTable<Option<PrefixRule>>,
    locks: KeyedTable<Lock>,
    now: u64,
    outages: u64,
}

impl View for MemoryStore {
    type V = StoreState;

    closed spec fn view(&self) -> StoreState {
        StoreState {
            counters: self.counters@,
            rules: rules_view(self.rules@),
            locks: locks_view(self.locks@),
            now: self.now,
            outages: self.outages as nat,
        }
    }
}

/// A stored rule entry as plain mathematical values.
pub open spec fn rule_entry_view(entry: Option<PrefixRule>) -> Option<PrefixRuleView> {
    match entry {
        Some(rule) => Some(rule@),
        None => None,
    }
}

/// The rule entries as plain mathematical values.
pub open spec fn rules_view(entries: Map<Seq<char>, Option<PrefixRule>>) -> Map<
    Seq<char>,
    Option<PrefixRuleView>,
> {
    entries.map_values(|entry: Option<PrefixRule>| rule_entry_view(entry))
}

/// The lock entries as plain mathematical values.
pub open spec fn locks_view(entries: Map<Seq<char>, Lock>) -> Map<Seq<char>, LockView> {
    entries.map_values(|lock: Lock| lock@)
}

proof fn lemma_rules_view_insert(
    entries: Map<Seq<char>, Option<PrefixRule>>,
    key: Seq<char>,
    entry: Option<PrefixRule>,
)
    ensures
        rules_view(entries.insert(key, entry)) == rules_view(entries).insert(
            key,
            rule_entry_view(entry),
        ),
{
    assert(rules_view(entries.insert(key, entry)) =~= rules_view(entries).insert(
        key,
        rule_entry_view(entry),
    ));
}

proof fn lemma_locks_view_insert(entries: Map<Seq<char>, Lock>, key: Seq<char>, lock: Lock)
    ensures
        locks_view(entries.insert(key, lock)) == locks_view(entries).insert(key, lock@),
{
    assert(locks_view(entries.insert(key, lock)) =~= locks_view(entries).insert(key, lock@));
}

proof fn lemma_locks_view_remove(entries: Map<Seq<char>, Lock>, key: Seq<char>)
    ensures
        locks_view(entries.remove(key)) == locks_view(entries).remove(key),
{
    assert(locks_view(entries.remove(key)) =~= locks_view(entries).remove(key));
}

proof fn lemma_views_of_empty()
    ensures
        rules_view(Map::empty()) == Map::<Seq<char>, Option<PrefixRuleView>>::empty(),
        locks_view(Map::empty()) == Map::<Seq<char>, LockView>::empty(),
{
    assert(rules_view(Map::empty()) =~= Map::<Seq<char>, Option<PrefixRuleView>>::empty());
    assert(locks_view(Map::empty()) =~= Map::<Seq<char>, LockView>::empty());
}

impl MemoryStore {
    /// The store's invariant.
    pub closed spec fn wf(&self) -> bool {
        self.counters.wf() && self.rules.wf() && self.locks.wf()
    }

    /// An empty store at time zero, with no outage to come.
    pub fn new() -> (store: Self)
        ensures
            store.wf(),
            store@ == (StoreState {
                counters: Map::empty(),
                rules: Map::empty(),
                locks: Map::empty(),
                now: 0,
                outages: 0,
            }),
    {
        proof {
            lemma_views_of_empty();
        }
        MemoryStore {
            counters: KeyedTable::new(),
            rules: KeyedTable::new(),
            locks: KeyedTable::new(),
            now: 0,
            outages: 0,
        }
    }

    /// Makes the next `count` requests go unanswered.
    pub fn fail_next(&mut self, count: u64)
        requires
            old(self).wf(),
        ensures
            final(self).wf(),
            final(self)@ == (StoreState { outages: count as nat, ..old(self)@ }),
    {
        self.outages = count;
    }

    /// Replaces the rule entry under `key` by one that cannot be read.
    pub fn garble_rule(&mut self, key: &str)
        requires
            old(self).wf(),
        ensures
            final(self).wf(),
            final(self)@ == (StoreState { rules: old(self)@.rules.insert(key@, None), ..old(self)@ }),
    {
        proof {
            lemma_rules_view_insert(self.rules@, key@, None);
        }
        self.rules.set(key, None);
    }

    /// The store's clock, in milliseconds.
    pub fn now(&self) -> (now: u64)
        ensures
            now == self@.now,
    {
        self.now
    }

    /// The value of the counter under `key`.
    pub fn counter(&self, key: &str) -> (value: i64)
        requires
            self.wf(),
        ensures
            value == counter_of(self@, key@),
    {
        match self.counters.get(key) {
            Some(v) => *v,
            None => 0,
        }
    }

    fn take_outage(&mut self) -> (down: bool)
        requires
            old(self).wf(),
        ensures
            final(self).wf(),
            down == (old(self)@.outages > 0),
            down ==> final(self)@ == after_outage(old(self)@),
            !down ==> *final(self) == *old(self),
    {
        if self.outages > 0 {
            self.outages = self.outages - 1;
            true
        } else {
            false
        }
    }

    fn locked(&self, key: &str) -> (r: Option<&Lock>)
        requires
            self.wf(),
        ensures
            r is Some == is_locked(self@, key@),
            r is Some ==> r->Some_0@ == self@.locks[key@],
    {
        match self.locks.get(key) {
            Some(lock) => if lock.expires_at > self.now {
                Some(lock)
            } else {
                None
            },
            None => None,
        }
    }
}

impl SharedStore for MemoryStore {
    open spec fn state(&self) -> StoreState {
        self@
    }

    open spec fn inv(&self) -> bool {
        self.wf()
    }

    fn incr_by(&mut self, key: &str, n: u64) -> (r: Result<i64, StoreError>) {
        if self.take_outage() {
            return Err(StoreError::Unavailable);
        }
        let current = self.counter(key);
        let sum: i128 = current as i128 + n as i128;
        if sum > 0x7fff_ffff_ffff_ffff {
            return Err(StoreError::Corrupt);
        }
        let value = sum as i64;
        self.counters.set(key, value);
        Ok(value)
    }

    fn get_rule(&mut self, key: &str) -> (r: Result<Option<PrefixRule>, StoreError>) {
        if self.take_outage() {
            return Err(StoreError::Unavailable);
        }
        match self.rules.get(key) {
            None => Ok(None),
            Some(entry) => match entry {
                Some(rule) => Ok(Some(rule.duplicate())),
                None => Err(StoreError::Corrupt),
            },
        }
    }

    fn set_rule(&mut self, key: &str, rule: &PrefixRule) -> (r: Result<(), StoreError>) {
        if self.take_outage() {
            return Err(StoreError::Unavailable);
        }
        let copy = rule.duplicate();
        proof {
            lemma_rules_view_insert(self.rules@, key@, Some(copy));
        }
        self.rules.set(key, Some(copy));
        Ok(())
    }

    fn set_if_absent(&mut self, key: &str, token: &str, ttl_millis: u64) -> (r: Result<
        bool,
        StoreError,
    >) {
        if self.take_outage() {
            return Err(StoreError::Unavailable);
        }
        if self.locked(key).is_some() {
            return Ok(false);
        }
        let expires_at = if ttl_millis > u64::MAX - self.now {
            u64::MAX
        } else {
            self.now + ttl_millis
        };
        let lock = Lock { token: token.to_owned(), expires_at };
        proof {
            lemma_locks_view_insert(self.locks@, key@, lock);
        }
        self.locks.set(key, lock);
        Ok(true)
    }

    fn delete_if_equals(&mut self, key: &str, token: &str) -> (r: Result<bool, StoreError>) {
        if self.take_outage() {
            return Err(StoreError::Unavailable);
        }
        let held = match self.locked(key) {
            Some(lock) => same_text(lock.token.as_str(), token),
            None => false,
        };
        if held {
            proof {
                lemma_locks_view_remove(self.locks@, key@);
            }
            self.locks.remove(key);
        }
        Ok(held)
    }

    fn wait(&mut self, millis: u64) {
        self.now = if millis > u64::MAX - self.now {
            u64::MAX
        } else {
            self.now + millis
        };
    }
}

} // verus!
