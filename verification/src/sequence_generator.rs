//! The sequence issuer: unique values per prefix, by one atomic increment
//! per call or from leased batches.

use vstd::prelude::*;
use vstd::string::StringExecFns;
use crate::keyed_table::KeyedTable;
use crate::keys::{lock_key, lock_key_of, sequence_key, sequence_key_of};
use crate::store::{
    counter_of, delete_if_equals_spec, incr_by_spec, set_if_absent_spec, SharedStore, StoreError,
    StoreState,
};
use crate::text::{decimal, push_decimal, string_of, theorem_decimal_denotes};

verus! {

/// Why no sequence value was issued.
#[derive(Debug, Clone, Copy, PartialEq, Eq, Structural)]
pub enum SequenceGeneratorError {
    /// The store did not answer. No value was consumed on this side.
    BackendUnavailable,
    /// The counter does not hold a value that can be issued.
    Corrupt,
    /// Another holder is acquiring a lease for this prefix: ask again.
    TryAgain,
    /// The prefix key is empty, so it names no prefix.
    PrefixNotFound,
}

/// The issuer's error for a failure of the store.
pub open spec fn store_failure(e: StoreError) -> SequenceGeneratorError {
    match e {
        StoreError::Unavailable => SequenceGeneratorError::BackendUnavailable,
        StoreError::Corrupt => SequenceGeneratorError::Corrupt,
    }
}

impl SequenceGeneratorError {
    /// The issuer's error for a failure of the store.
    pub fn from_store(e: StoreError) -> (r: Self)
        ensures
            r == store_failure(e),
    {
        match e {
            StoreError::Unavailable => SequenceGeneratorError::BackendUnavailable,
            StoreError::Corrupt => SequenceGeneratorError::Corrupt,
        }
    }

    /// The text of this error.
    pub open spec fn message_spec(&self) -> Seq<char> {
        match self {
            SequenceGeneratorError::BackendUnavailable => "Store error: backend unavailable"@,
            SequenceGeneratorError::Corrupt => "Store error: corrupt counter"@,
            SequenceGeneratorError::TryAgain => "Lease is being acquired elsewhere: try again"@,
            SequenceGeneratorError::PrefixNotFound => "Prefix not found"@,
        }
    }

    /// The text of this error.
    pub fn message(&self) -> (text: String)
        ensures
            text@ == self.message_spec(),
    {
        match self {
            SequenceGeneratorError::BackendUnavailable => String::from_str(
                "Store error: backend unavailable",
            ),
            SequenceGeneratorError::Corrupt => String::from_str("Store error: corrupt counter"),
            SequenceGeneratorError::TryAgain => String::from_str(
                "Lease is being acquired elsewhere: try again",
            ),
            SequenceGeneratorError::PrefixNotFound => String::from_str("Prefix not found"),
        }
    }
}

/// How values are obtained from the store.
#[derive(Debug, Clone, Copy, PartialEq, Eq, Structural)]
pub enum Strategy {
    /// One atomic increment per value.
    Direct,
    /// Blocks of `size` values, reserved under a lock that expires after
    /// `lock_ttl_millis` milliseconds.
    Leased { size: u64, lock_ttl_millis: u64 },
}

/// A block of sequence values reserved for one process. The values from
/// `cursor` to `range_end` have not been handed out yet.
#[derive(Debug, Clone, Copy, PartialEq, Eq, Structural)]
pub struct Lease {
    pub range_start: u64,
    pub range_end: u64,
    pub cursor: u64,
}

/// A lease whose cursor lies in its range or one past it, and whose range
/// lies in what a counter can hold.
pub open spec fn lease_ok(lease: Lease) -> bool {
    1 <= lease.range_start <= lease.cursor && lease.cursor <= lease.range_end + 1
        && lease.range_end <= i64::MAX
}

/// Whether `value` is still to be handed out from `lease`.
pub open spec fn lease_holds(lease: Lease, value: int) -> bool {
    lease.cursor <= value <= lease.range_end
}

/// The model of an issuer.
pub ghost struct GeneratorState {
    pub strategy: Strategy,
    /// The current lease of each prefix that has one.
    pub leases: Map<Seq<char>, Lease>,
    /// The identity under which this process takes locks.
    pub holder: Seq<char>,
    /// How many lease acquisitions this process has begun.
    pub acquisitions: u64,
}

/// What is true of every issuer: a leased strategy reserves at least one
/// value at a time, and every lease is in order.
pub open spec fn generator_ok(g: GeneratorState) -> bool {
    &&& g.strategy matches Strategy::Leased { size, .. } ==> size >= 1
    &&& forall|k: Seq<char>| #[trigger] g.leases.contains_key(k) ==> lease_ok(g.leases[k])
}

/// The token of the `acquisitions`-th lock that `holder` takes.
pub open spec fn lease_token(holder: Seq<char>, acquisitions: u64) -> Seq<char> {
    holder + seq!['#'] + decimal(acquisitions as nat)
}

/// Fresh tokens. The tokens of two different acquisitions of one holder
/// are different, so a holder never releases a lock that it took in
/// another acquisition.
pub proof fn theorem_tokens_are_fresh(holder: Seq<char>, a: u64, b: u64)
    requires
        a != b,
    ensures
        lease_token(holder, a) != lease_token(holder, b),
{
    theorem_decimal_denotes(a as nat);
    theorem_decimal_denotes(b as nat);
    let head = holder + seq!['#'];
    let token_a = lease_token(holder, a);
    let token_b = lease_token(holder, b);
    assert(token_a.subrange(head.len() as int, token_a.len() as int) =~= decimal(a as nat));
    assert(token_b.subrange(head.len() as int, token_b.len() as int) =~= decimal(b as nat));
}

/// The count of acquisitions after one more.
pub open spec fn next_acquisition(acquisitions: u64) -> u64 {
    if acquisitions == u64::MAX {
        0
    } else {
        (acquisitions + 1) as u64
    }
}

/// What the issuer makes of the store's answer to an increment by one:
/// the counter's new value is the value issued. An answer below one is
/// no sequence value, and nothing is made up in its place.
pub open spec fn issued_value(answer: Result<i64, StoreError>) -> Result<
    u64,
    SequenceGeneratorError,
> {
    match answer {
        Ok(v) => if v >= 1 {
            Ok(v as u64)
        } else {
            Err(SequenceGeneratorError::Corrupt)
        },
        Err(e) => Err(store_failure(e)),
    }
}

/// The direct strategy: one atomic increment, whose result is the value.
pub open spec fn direct_issue(s: StoreState, prefix: Seq<char>) -> (
    StoreState,
    Result<u64, SequenceGeneratorError>,
) {
    let (s1, answer) = incr_by_spec(s, sequence_key(prefix), 1);
    (s1, issued_value(answer))
}

/// The lease made of the `size` values that end in the counter's new
/// value `top`, with its first value handed out.
pub open spec fn fresh_lease(top: i64, size: u64) -> Lease {
    Lease {
        range_start: (top - size + 1) as u64,
        range_end: top as u64,
        cursor: (top - size + 2) as u64,
    }
}

/// What the issuer makes of the store's answer to an increment by
/// `size`: the lease of the `size` values that end in the counter's new
/// value. An answer that leaves no room for `size` values from one on is
/// no counter value.
pub open spec fn reserved_lease(answer: Result<i64, StoreError>, size: u64) -> Result<
    Lease,
    SequenceGeneratorError,
> {
    match answer {
        Ok(top) => if size >= 1 && top >= size {
            Ok(fresh_lease(top, size))
        } else {
            Err(SequenceGeneratorError::Corrupt)
        },
        Err(e) => Err(store_failure(e)),
    }
}

/// Lease acquisition: take the lock, reserve `size` values by one
/// increment, release the lock, and hand out the first value. Nothing is
/// asked twice. A release that fails is left to the lock's expiry.
pub open spec fn acquire_lease(
    g: GeneratorState,
    s: StoreState,
    prefix: Seq<char>,
    size: u64,
    ttl: u64,
) -> (GeneratorState, StoreState, Result<u64, SequenceGeneratorError>) {
    let token = lease_token(g.holder, g.acquisitions);
    let g1 = GeneratorState { acquisitions: next_acquisition(g.acquisitions), ..g };
    let (s1, locked) = set_if_absent_spec(s, lock_key(prefix), token, ttl);
    match locked {
        Err(e) => (g1, s1, Err(store_failure(e))),
        Ok(false) => (g1, s1, Err(SequenceGeneratorError::TryAgain)),
        Ok(true) => {
            let (s2, reserved) = incr_by_spec(s1, sequence_key(prefix), size);
            let (s3, _released) = delete_if_equals_spec(s2, lock_key(prefix), token);
            match reserved_lease(reserved, size) {
                Err(e) => (g1, s3, Err(e)),
                Ok(lease) => (
                    GeneratorState { leases: g1.leases.insert(prefix, lease), ..g1 },
                    s3,
                    Ok(lease.range_start),
                ),
            }
        },
    }
}

/// The leased strategy: the next value of the current lease, without a
/// word to the store; a new lease where there is none left.
pub open spec fn leased_issue(
    g: GeneratorState,
    s: StoreState,
    prefix: Seq<char>,
    size: u64,
    ttl: u64,
) -> (GeneratorState, StoreState, Result<u64, SequenceGeneratorError>) {
    if g.leases.contains_key(prefix) && g.leases[prefix].cursor <= g.leases[prefix].range_end {
        let lease = g.leases[prefix];
        let taken = Lease { cursor: (lease.cursor + 1) as u64, ..lease };
        (GeneratorState { leases: g.leases.insert(prefix, taken), ..g }, s, Ok(lease.cursor))
    } else {
        acquire_lease(g, s, prefix, size, ttl)
    }
}

/// One call of the issuer: the issuer and the store after it, and what
/// the caller gets.
pub open spec fn issue(g: GeneratorState, s: StoreState, prefix: Seq<char>) -> (
    GeneratorState,
    StoreState,
    Result<u64, SequenceGeneratorError>,
) {
    if prefix.len() == 0 {
        (g, s, Err(SequenceGeneratorError::PrefixNotFound))
    } else {
        match g.strategy {
            Strategy::Direct => {
                let (s1, r) = direct_issue(s, prefix);
                (g, s1, r)
            },
            Strategy::Leased { size, lock_ttl_millis } => leased_issue(
                g,
                s,
                prefix,
                size,
                lock_ttl_millis,
            ),
        }
    }
}

/// Raising the counter of `prefix` so that no value below `initial_seq`
/// is issued from now on. A counter that has passed `initial_seq - 1`
/// stays as it is: the counter never goes backward.
pub open spec fn floor_raising(s: StoreState, prefix: Seq<char>, initial_seq: u64) -> (
    StoreState,
    Result<(), SequenceGeneratorError>,
) {
    let (s1, read) = incr_by_spec(s, sequence_key(prefix), 0);
    match read {
        Err(e) => (s1, Err(store_failure(e))),
        Ok(current) => if current < 0 {
            (s1, Err(SequenceGeneratorError::Corrupt))
        } else if current + 1 >= initial_seq {
            (s1, Ok(()))
        } else {
            let (s2, raised) = incr_by_spec(
                s1,
                sequence_key(prefix),
                (initial_seq - 1 - current) as u64,
            );
            match raised {
                Ok(_) => (s2, Ok(())),
                Err(e) => (s2, Err(store_failure(e))),
            }
        },
    }
}

/// After the floor was raised to `initial_seq`, the next value that the
/// direct strategy issues is `initial_seq` where the counter was below it,
/// and the counter's own next value where it was not.
pub proof fn theorem_floor_is_honored(s: StoreState, prefix: Seq<char>, initial_seq: u64)
    requires
        floor_raising(s, prefix, initial_seq).1 is Ok,
        floor_raising(s, prefix, initial_seq).0.outages == 0,
        initial_seq <= i64::MAX,
    ensures
        ({
            let before = counter_of(s, sequence_key(prefix));
            let next = direct_issue(floor_raising(s, prefix, initial_seq).0, prefix).1;
            &&& before + 1 < initial_seq ==> next == Ok::<u64, SequenceGeneratorError>(initial_seq)
            &&& before + 1 >= initial_seq && before < i64::MAX ==> next == Ok::<
                u64,
                SequenceGeneratorError,
            >((before + 1) as u64)
        }),
{
    let key = sequence_key(prefix);
    let before = counter_of(s, key);
    let (s1, read) = incr_by_spec(s, key, 0);
    assert(read == Ok::<i64, StoreError>(before as i64));
    assert(counter_of(s1, key) == before);
    assert(before >= 0);
    let s2 = floor_raising(s, prefix, initial_seq).0;
    if before + 1 < initial_seq {
        let (s3, raised) = incr_by_spec(s1, key, (initial_seq - 1 - before) as u64);
        assert(s3 == s2);
        assert(raised is Ok);
        assert(counter_of(s2, key) == initial_seq - 1);
    } else {
        assert(s2 == s1);
    }
}

/// Something that issues sequence values from a shared store.
pub trait SequenceGenerator<S: SharedStore> {
    /// What the issuer keeps true of its own data.
    open spec fn ready(&self) -> bool {
        true
    }

    /// The next sequence value of `prefix_key`.
    fn generate(&mut self, store: &mut S, prefix_key: &str) -> (r: Result<
        u64,
        SequenceGeneratorError,
    >)
        requires
            old(self).ready(),
            old(store).inv(),
        ensures
            final(self).ready(),
            final(store).inv(),
    ;
}

/// The issuer over a shared store, with the leases of this process.
pub struct RedisSequenceGenerator {
    strategy: Strategy,
    leases: KeyedTable<Lease>,
    holder: String,
    acquisitions: u64,
}

impl View for RedisSequenceGenerator {
    type V = GeneratorState;

    closed spec fn view(&self) -> GeneratorState {
        GeneratorState {
            strategy: self.strategy,
            leases: self.leases@,
            holder: self.holder@,
            acquisitions: self.acquisitions,
        }
    }
}

impl RedisSequenceGenerator {
    /// The issuer's invariant.
    pub closed spec fn wf(&self) -> bool {
        self.leases.wf() && generator_ok(self@)
    }

    /// What the invariant says of the model.
    pub proof fn lemma_wf(&self)
        requires
            self.wf(),
        ensures
            generator_ok(self@),
    {
    }

    /// An issuer of the direct strategy.
    pub fn new() -> (generator: Self)
        ensures
            generator.wf(),
            generator@ == (GeneratorState {
                strategy: Strategy::Direct,
                leases: Map::empty(),
                holder: Seq::empty(),
                acquisitions: 0,
            }),
    {
        RedisSequenceGenerator {
            strategy: Strategy::Direct,
            leases: KeyedTable::new(),
            holder: String::new(),
            acquisitions: 0,
        }
    }

    /// An issuer of the leased strategy, for the process that takes locks
    /// as `holder`. `None` where `size` is zero: a lease holds at least one
    /// value.
    ///
    /// `holder` must name one live process and no other: lock tokens are
    /// made of it and of a count that starts at zero with every issuer, so
    /// two issuers of one name, or a process that starts anew under the
    /// name it had, make the same tokens again. Values stay unique all the
    /// same; an issuer could then release a lock that another one took.
    pub fn with_leases(holder: &str, size: u64, lock_ttl_millis: u64) -> (generator: Option<Self>)
        ensures
            generator is Some == (size >= 1),
            generator matches Some(g) ==> g.wf() && g@ == (GeneratorState {
                strategy: Strategy::Leased { size, lock_ttl_millis },
                leases: Map::empty(),
                holder: holder@,
                acquisitions: 0,
            }),
    {
        if size == 0 {
            None
        } else {
            Some(
                RedisSequenceGenerator {
                    strategy: Strategy::Leased { size, lock_ttl_millis },
                    leases: KeyedTable::new(),
                    holder: holder.to_owned(),
                    acquisitions: 0,
                },
            )
        }
    }

    /// The strategy of this issuer.
    pub fn strategy(&self) -> (strategy: Strategy)
        ensures
            strategy == self@.strategy,
    {
        self.strategy
    }

    /// The current lease of `prefix_key`, if there is one.
    pub fn lease(&self, prefix_key: &str) -> (lease: Option<Lease>)
        requires
            self.wf(),
        ensures
            lease == (if self@.leases.contains_key(prefix_key@) {
                Some(self@.leases[prefix_key@])
            } else {
                None
            }),
    {
        match self.leases.get(prefix_key) {
            Some(lease) => Some(*lease),
            None => None,
        }
    }

    /// The value issued on the store's answer to an increment by one.
    pub fn value_of_increment(answer: Result<i64, StoreError>) -> (r: Result<
        u64,
        SequenceGeneratorError,
    >)
        ensures
            r == issued_value(answer),
    {
        match answer {
            Ok(v) => if v >= 1 {
                Ok(v as u64)
            } else {
                Err(SequenceGeneratorError::Corrupt)
            },
            Err(e) => Err(SequenceGeneratorError::from_store(e)),
        }
    }

    /// The lease reserved by the store's answer to an increment by `size`,
    /// with its first value handed out.
    pub fn lease_of_increment(answer: Result<i64, StoreError>, size: u64) -> (r: Result<
        Lease,
        SequenceGeneratorError,
    >)
        ensures
            r == reserved_lease(answer, size),
            r matches Ok(lease) ==> lease_ok(lease),
    {
        match answer {
            Ok(top) => {
                if size >= 1 && top >= 0 && top as u64 >= size {
                    let first: u64 = top as u64 - size + 1;
                    Ok(Lease { range_start: first, range_end: top as u64, cursor: first + 1 })
                } else {
                    Err(SequenceGeneratorError::Corrupt)
                }
            },
            Err(e) => Err(SequenceGeneratorError::from_store(e)),
        }
    }

    /// Raises the counter of `prefix_key` so that no value below
    /// `initial_seq` is issued from now on.
    pub fn raise_floor<S: SharedStore>(store: &mut S, prefix_key: &str, initial_seq: u64) -> (r:
        Result<(), SequenceGeneratorError>)
        requires
            old(store).inv(),
        ensures
            final(store).inv(),
            (final(store).state(), r) == floor_raising(
                old(store).state(),
                prefix_key@,
                initial_seq,
            ),
    {
        let key = sequence_key_of(prefix_key);
        match store.incr_by(key.as_str(), 0) {
            Err(e) => Err(SequenceGeneratorError::from_store(e)),
            Ok(current) => {
                if current < 0 {
                    Err(SequenceGeneratorError::Corrupt)
                } else if initial_seq == 0 || current as u64 >= initial_seq - 1 {
                    Ok(())
                } else {
                    let missing: u64 = initial_seq - 1 - current as u64;
                    match store.incr_by(key.as_str(), missing) {
                        Ok(_) => Ok(()),
                        Err(e) => Err(SequenceGeneratorError::from_store(e)),
                    }
                }
            },
        }
    }

    fn token(&self) -> (token: String)
        ensures
            token@ == lease_token(self@.holder, self@.acquisitions),
    {
        let mut text: Vec<char> = Vec::new();
        text.push('#');
        push_decimal(&mut text, self.acquisitions);
        let tail = string_of(&text);
        let mut token = self.holder.clone();
        token.append(tail.as_str());
        assert(token@ =~= lease_token(self@.holder, self@.acquisitions));
        token
    }

    fn issue_direct<S: SharedStore>(store: &mut S, prefix_key: &str) -> (r: Result<
        u64,
        SequenceGeneratorError,
    >)
        requires
            old(store).inv(),
        ensures
            final(store).inv(),
            (final(store).state(), r) == direct_issue(old(store).state(), prefix_key@),
    {
        let key = sequence_key_of(prefix_key);
        Self::value_of_increment(store.incr_by(key.as_str(), 1))
    }

    fn acquire<S: SharedStore>(&mut self, store: &mut S, prefix_key: &str, size: u64, ttl: u64) -> (r:
        Result<u64, SequenceGeneratorError>)
        requires
            old(self).wf(),
            old(store).inv(),
            size >= 1,
        ensures
            final(self).wf(),
            final(store).inv(),
            (final(self)@, final(store).state(), r) == acquire_lease(
                old(self)@,
                old(store).state(),
                prefix_key@,
                size,
                ttl,
            ),
    {
        let token = self.token();
        self.acquisitions = if self.acquisitions == u64::MAX {
            0
        } else {
            self.acquisitions + 1
        };
        proof {
            assert(self@.leases == old(self)@.leases);
            assert forall|k: Seq<char>| #[trigger] self@.leases.contains_key(k) implies lease_ok(
                self@.leases[k],
            ) by {
                assert(old(self)@.leases.contains_key(k));
            }
            assert(self.wf());
        }
        let lock = lock_key_of(prefix_key);
        match store.set_if_absent(lock.as_str(), token.as_str(), ttl) {
            Err(e) => Err(SequenceGeneratorError::from_store(e)),
            Ok(false) => Err(SequenceGeneratorError::TryAgain),
            Ok(true) => {
                let key = sequence_key_of(prefix_key);
                let reserved = store.incr_by(key.as_str(), size);
                let _released = store.delete_if_equals(lock.as_str(), token.as_str());
                match Self::lease_of_increment(reserved, size) {
                    Err(e) => Err(e),
                    Ok(lease) => {
                        self.leases.set(prefix_key, lease);
                        proof {
                            assert forall|k: Seq<char>| #[trigger]
                                self@.leases.contains_key(k) implies lease_ok(self@.leases[k]) by {
                                if k != prefix_key@ {
                                    assert(old(self)@.leases.contains_key(k));
                                }
                            }
                        }
                        Ok(lease.range_start)
                    },
                }
            },
        }
    }

    fn issue_leased<S: SharedStore>(
        &mut self,
        store: &mut S,
        prefix_key: &str,
        size: u64,
        ttl: u64,
    ) -> (r: Result<u64, SequenceGeneratorError>)
        requires
            old(self).wf(),
            old(store).inv(),
            size >= 1,
        ensures
            final(self).wf(),
            final(store).inv(),
            (final(self)@, final(store).state(), r) == leased_issue(
                old(self)@,
                old(store).state(),
                prefix_key@,
                size,
                ttl,
            ),
    {
        let current = self.lease(prefix_key);
        match current {
            Some(lease) => {
                if lease.cursor <= lease.range_end {
                    let taken = Lease { cursor: lease.cursor + 1, ..lease };
                    self.leases.set(prefix_key, taken);
                    proof {
                        assert forall|k: Seq<char>| #[trigger]
                            self@.leases.contains_key(k) implies lease_ok(self@.leases[k]) by {
                            if k != prefix_key@ {
                                assert(old(self)@.leases.contains_key(k));
                            }
                        }
                    }
                    return Ok(lease.cursor);
                }
            },
            None => {},
        }
        self.acquire(store, prefix_key, size, ttl)
    }
}

impl<S: SharedStore> SequenceGenerator<S> for RedisSequenceGenerator {
    open spec fn ready(&self) -> bool {
        self.wf()
    }

    /// Issues the next sequence value of `prefix_key`: a value that this
    /// counter has never issued before.
    fn generate(&mut self, store: &mut S, prefix_key: &str) -> (r: Result<
        u64,
        SequenceGeneratorError,
    >)
        ensures
            (final(self)@, final(store).state(), r) == issue(
                old(self)@,
                old(store).state(),
                prefix_key@,
            ),
    {
        if prefix_key.is_empty() {
            return Err(SequenceGeneratorError::PrefixNotFound);
        }
        match self.strategy {
            Strategy::Direct => Self::issue_direct(store, prefix_key),
            Strategy::Leased { size, lock_ttl_millis } => self.issue_leased(
                store,
                prefix_key,
                size,
                lock_ttl_millis,
            ),
        }
    }
}

} // verus!
