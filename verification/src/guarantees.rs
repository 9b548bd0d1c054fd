//! What holds of every run of several issuers against one store: no
//! value is issued twice, a restart leaves gaps and nothing else, and the
//! direct strategy issues in increasing order.
//!
//! A run is a sequence of events, each of them one step. A call of an
//! issuer that acquires a lease makes three requests to the store, and
//! other processes may make theirs in between. The events cover that: an
//! acquisition is also the four events `TakeLock`, `Reserve`,
//! `ReleaseLock` and `Issue` (see [`theorem_acquisition_is_its_steps`]),
//! and a run may hold any other events between them. What is proved of
//! runs is therefore proved of acquisitions that other processes cut
//! into. It does not rest on the lock: the increment alone keeps the
//! blocks of two issuers apart, and the lock spares increments.

use vstd::prelude::*;
use crate::keys::{lemma_sequence_key_injective, sequence_key};
use crate::keys::lock_key;
use crate::sequence_generator::{
    generator_ok, issue, lease_holds, lease_ok, lease_token, reserved_lease, GeneratorState, Lease,
    Strategy,
};
use crate::number_assembler::{
    assembled, format_is_valid, theorem_distinct_values_give_distinct_numbers,
};
use crate::prefix_rule::PrefixRuleView;
use crate::store::{
    counter_of, delete_if_equals_spec, get_rule_spec, incr_by_spec, set_if_absent_spec,
    set_rule_spec, wait_spec, StoreError, StoreState,
};

verus! {

/// One store and the issuers of the processes that share it.
pub ghost struct World {
    pub store: StoreState,
    pub issuers: Seq<GeneratorState>,
}

/// What can happen to a world.
pub ghost enum Event {
    /// The issuer at index `issuer` is asked for the next value of `prefix`.
    Issue { issuer: int, prefix: Seq<char> },
    /// The process of the issuer at index `issuer` starts anew: its
    /// leases are gone.
    Restart { issuer: int },
    /// Time passes.
    Wait { millis: u64 },
    /// The next `count` requests to the store go unanswered.
    Outage { count: nat },
    /// The issuer at index `issuer` reserves a block for `prefix`: the
    /// middle request of a lease acquisition, alone.
    Reserve { issuer: int, prefix: Seq<char> },
    /// Somebody adds `by` to the counter under `key`.
    Increment { key: Seq<char>, by: u64 },
    /// Somebody asks for the lock under `key`.
    TakeLock { key: Seq<char>, token: Seq<char>, ttl: u64 },
    /// Somebody releases the lock under `key`.
    ReleaseLock { key: Seq<char>, token: Seq<char> },
    /// Somebody writes the rule entry under `key`.
    WriteRule { key: Seq<char>, rule: PrefixRuleView },
    /// Somebody reads the rule entry under `key`.
    ReadRule { key: Seq<char> },
}

/// The counter of `prefix` in the store.
pub open spec fn counter(s: StoreState, prefix: Seq<char>) -> int {
    counter_of(s, sequence_key(prefix))
}

/// Whether issuer `g` has `value` in the part of its lease of `prefix`
/// that it has not handed out.
pub open spec fn holds(g: GeneratorState, prefix: Seq<char>, value: int) -> bool {
    g.leases.contains_key(prefix) && lease_holds(g.leases[prefix], value)
}

/// Whether `value` can no longer be issued for `prefix`: the counter has
/// passed it and no lease holds it.
pub open spec fn spent(w: World, prefix: Seq<char>, value: int) -> bool {
    value <= counter(w.store, prefix) && forall|i: int|
        0 <= i < w.issuers.len() ==> !holds(#[trigger] w.issuers[i], prefix, value)
}

/// A world in order, as far as `prefix` goes: every issuer is in order,
/// no lease reaches beyond the counter, and no two issuers hold the same
/// value.
pub open spec fn consistent(w: World, prefix: Seq<char>) -> bool {
    &&& forall|i: int| 0 <= i < w.issuers.len() ==> generator_ok(#[trigger] w.issuers[i])
    &&& forall|i: int|
        0 <= i < w.issuers.len() && (#[trigger] w.issuers[i]).leases.contains_key(prefix)
            ==> w.issuers[i].leases[prefix].range_end <= counter(w.store, prefix)
    &&& forall|i: int, j: int, v: int|
        0 <= i < w.issuers.len() && 0 <= j < w.issuers.len() && i != j ==> !(holds(
            #[trigger] w.issuers[i],
            prefix,
            v,
        ) && #[trigger] holds(w.issuers[j], prefix, v))
}

/// Whether every issuer of the world uses the direct strategy.
pub open spec fn all_direct(w: World) -> bool {
    forall|i: int| 0 <= i < w.issuers.len() ==> (#[trigger] w.issuers[i]).strategy == Strategy::Direct
}

/// The middle step of a lease acquisition, alone: the increment that
/// reserves a block, and the lease that the issuer takes from the store's
/// answer, with none of its values handed out yet. An issuer of the
/// direct strategy reserves nothing.
pub open spec fn reservation(g: GeneratorState, s: StoreState, prefix: Seq<char>) -> (
    GeneratorState,
    StoreState,
) {
    match g.strategy {
        Strategy::Leased { size, lock_ttl_millis } => {
            let (s1, answer) = incr_by_spec(s, sequence_key(prefix), size);
            match reserved_lease(answer, size) {
                Ok(lease) => (
                    GeneratorState {
                        leases: g.leases.insert(
                            prefix,
                            Lease { cursor: lease.range_start, ..lease },
                        ),
                        ..g
                    },
                    s1,
                ),
                Err(_) => (g, s1),
            }
        },
        Strategy::Direct => (g, s),
    }
}

/// The world after an event.
pub open spec fn step(w: World, e: Event) -> World {
    match e {
        Event::Issue { issuer, prefix } => if 0 <= issuer < w.issuers.len() {
            let (g, s, _r) = issue(w.issuers[issuer], w.store, prefix);
            World { store: s, issuers: w.issuers.update(issuer, g) }
        } else {
            w
        },
        Event::Restart { issuer } => if 0 <= issuer < w.issuers.len() {
            let g = GeneratorState {
                leases: Map::empty(),
                acquisitions: 0,
                ..w.issuers[issuer]
            };
            World { issuers: w.issuers.update(issuer, g), ..w }
        } else {
            w
        },
        Event::Wait { millis } => World { store: wait_spec(w.store, millis), ..w },
        Event::Outage { count } => World { store: StoreState { outages: count, ..w.store }, ..w },
        Event::Reserve { issuer, prefix } => if 0 <= issuer < w.issuers.len() {
            let (g, s) = reservation(w.issuers[issuer], w.store, prefix);
            World { store: s, issuers: w.issuers.update(issuer, g) }
        } else {
            w
        },
        Event::Increment { key, by } => World { store: incr_by_spec(w.store, key, by).0, ..w },
        Event::TakeLock { key, token, ttl } => World {
            store: set_if_absent_spec(w.store, key, token, ttl).0,
            ..w
        },
        Event::ReleaseLock { key, token } => World {
            store: delete_if_equals_spec(w.store, key, token).0,
            ..w
        },
        Event::WriteRule { key, rule } => World { store: set_rule_spec(w.store, key, rule).0, ..w },
        Event::ReadRule { key } => World { store: get_rule_spec(w.store, key).0, ..w },
    }
}

/// The value that an event issues for `prefix`, if it issues one.
pub open spec fn outcome(w: World, e: Event, prefix: Seq<char>) -> Option<u64> {
    match e {
        Event::Issue { issuer, prefix: asked } => if 0 <= issuer < w.issuers.len() && asked
            == prefix {
            match issue(w.issuers[issuer], w.store, asked).2 {
                Ok(v) => Some(v),
                Err(_) => None,
            }
        } else {
            None
        },
        _ => None,
    }
}

/// The world after a sequence of events.
pub open spec fn run(w: World, events: Seq<Event>) -> World
    decreases events.len(),
{
    if events.len() == 0 {
        w
    } else {
        step(run(w, events.drop_last()), events.last())
    }
}

/// The values issued for `prefix` in the course of a sequence of events,
/// in the order of issue.
pub open spec fn issued(w: World, events: Seq<Event>, prefix: Seq<char>) -> Seq<u64>
    decreases events.len(),
{
    if events.len() == 0 {
        Seq::empty()
    } else {
        let before = issued(w, events.drop_last(), prefix);
        match outcome(run(w, events.drop_last()), events.last(), prefix) {
            Some(v) => before.push(v),
            None => before,
        }
    }
}

/// What one call of an issuer does to the counter and to the issuer's
/// holdings of `prefix`.
proof fn lemma_issue(g: GeneratorState, s: StoreState, asked: Seq<char>, prefix: Seq<char>)
    requires
        generator_ok(g),
        g.leases.contains_key(prefix) ==> g.leases[prefix].range_end <= counter(s, prefix),
    ensures
        ({
            let (g1, s1, r) = issue(g, s, asked);
            let c = counter(s, prefix);
            let c1 = counter(s1, prefix);
            &&& generator_ok(g1)
            &&& g1.strategy == g.strategy
            &&& c <= c1
            &&& g1.leases.contains_key(prefix) ==> g1.leases[prefix].range_end <= c1
            &&& forall|v: int| #[trigger] holds(g1, prefix, v) ==> holds(g, prefix, v) || c < v
            &&& asked != prefix ==> c1 == c
            &&& asked == prefix ==> (r matches Ok(x) ==> {
                &&& !holds(g1, prefix, x as int)
                &&& x <= c1
                &&& holds(g, prefix, x as int) || c < x
                &&& g.strategy == Strategy::Direct ==> x == c + 1
            })
        }),
{
    let (g1, s1, r) = issue(g, s, asked);
    if asked != prefix {
        if sequence_key(asked) == sequence_key(prefix) {
            lemma_sequence_key_injective(asked, prefix);
        }
    }
    assert forall|k: Seq<char>| #[trigger] g1.leases.contains_key(k) implies lease_ok(
        g1.leases[k],
    ) by {
        if k != asked {
            assert(g.leases.contains_key(k));
        } else if g.leases.contains_key(k) {
            assert(lease_ok(g.leases[k]));
        }
    }
}

/// What a step of one issuer does to a consistent world, where the step
/// keeps the issuer in order and gives it no value that it did not hold
/// or that the counter had passed.
proof fn lemma_issuer_moves(
    w: World,
    issuer: int,
    g1: GeneratorState,
    s1: StoreState,
    prefix: Seq<char>,
)
    requires
        consistent(w, prefix),
        0 <= issuer < w.issuers.len(),
        generator_ok(g1),
        g1.strategy == w.issuers[issuer].strategy,
        counter(w.store, prefix) <= counter(s1, prefix),
        g1.leases.contains_key(prefix) ==> g1.leases[prefix].range_end <= counter(s1, prefix),
        forall|v: int| #[trigger]
            holds(g1, prefix, v) ==> holds(w.issuers[issuer], prefix, v) || counter(
                w.store,
                prefix,
            ) < v,
    ensures
        consistent(World { store: s1, issuers: w.issuers.update(issuer, g1) }, prefix),
        all_direct(w) ==> all_direct(World { store: s1, issuers: w.issuers.update(issuer, g1) }),
        forall|v: int|
            spent(w, prefix, v) ==> #[trigger] spent(
                World { store: s1, issuers: w.issuers.update(issuer, g1) },
                prefix,
                v,
            ),
{
    let w1 = World { store: s1, issuers: w.issuers.update(issuer, g1) };
    let g = w.issuers[issuer];
    let c = counter(w.store, prefix);
    assert forall|i: int| 0 <= i < w1.issuers.len() implies generator_ok(
        #[trigger] w1.issuers[i],
    ) by {
        if i != issuer {
            assert(w1.issuers[i] == w.issuers[i]);
        }
    }
    assert forall|i: int|
        0 <= i < w1.issuers.len() && (#[trigger] w1.issuers[i]).leases.contains_key(
            prefix,
        ) implies w1.issuers[i].leases[prefix].range_end <= counter(
        w1.store,
        prefix,
    ) by {
        if i != issuer {
            assert(w1.issuers[i] == w.issuers[i]);
        }
    }
    assert forall|i: int, j: int, v: int|
        0 <= i < w1.issuers.len() && 0 <= j < w1.issuers.len() && i != j implies !(
        holds(#[trigger] w1.issuers[i], prefix, v) && #[trigger] holds(
            w1.issuers[j],
            prefix,
            v,
        )) by {
        if i != issuer {
            assert(w1.issuers[i] == w.issuers[i]);
        }
        if j != issuer {
            assert(w1.issuers[j] == w.issuers[j]);
        }
        if holds(w1.issuers[i], prefix, v) && holds(w1.issuers[j], prefix, v) {
            if i == issuer {
                assert(holds(w.issuers[j], prefix, v));
                assert(holds(g, prefix, v) || c < v);
            } else if j == issuer {
                assert(holds(w.issuers[i], prefix, v));
                assert(holds(g, prefix, v) || c < v);
            }
        }
    }
    assert forall|v: int| spent(w, prefix, v) implies #[trigger] spent(
        w1,
        prefix,
        v,
    ) by {
        assert forall|i: int| 0 <= i < w1.issuers.len() implies !holds(
            #[trigger] w1.issuers[i],
            prefix,
            v,
        ) by {
            if i != issuer {
                assert(w1.issuers[i] == w.issuers[i]);
            } else {
                assert(!holds(w.issuers[issuer], prefix, v));
            }
        }
    }
    assert forall|i: int| 0 <= i < w1.issuers.len() && all_direct(w) implies (
    #[trigger] w1.issuers[i]).strategy == Strategy::Direct by {
        assert(w.issuers[i].strategy == Strategy::Direct);
        if i != issuer {
            assert(w1.issuers[i] == w.issuers[i]);
        }
    }
}

/// What a reservation does to the counter and to the issuer's holdings
/// of `prefix`.
proof fn lemma_reservation(g: GeneratorState, s: StoreState, asked: Seq<char>, prefix: Seq<char>)
    requires
        generator_ok(g),
        g.leases.contains_key(prefix) ==> g.leases[prefix].range_end <= counter(s, prefix),
    ensures
        ({
            let (g1, s1) = reservation(g, s, asked);
            let c = counter(s, prefix);
            let c1 = counter(s1, prefix);
            &&& generator_ok(g1)
            &&& g1.strategy == g.strategy
            &&& c <= c1
            &&& g1.leases.contains_key(prefix) ==> g1.leases[prefix].range_end <= c1
            &&& forall|v: int| #[trigger] holds(g1, prefix, v) ==> holds(g, prefix, v) || c < v
        }),
{
    let (g1, s1) = reservation(g, s, asked);
    if asked != prefix {
        if sequence_key(asked) == sequence_key(prefix) {
            lemma_sequence_key_injective(asked, prefix);
        }
    }
    assert forall|k: Seq<char>| #[trigger] g1.leases.contains_key(k) implies lease_ok(
        g1.leases[k],
    ) by {
        if k != asked {
            assert(g.leases.contains_key(k));
        } else if g.leases.contains_key(k) {
            assert(lease_ok(g.leases[k]));
        }
    }
}

/// What one event does to a consistent world.
proof fn lemma_step(w: World, e: Event, prefix: Seq<char>)
    requires
        consistent(w, prefix),
    ensures
        consistent(step(w, e), prefix),
        counter(w.store, prefix) <= counter(step(w, e).store, prefix),
        step(w, e).issuers.len() == w.issuers.len(),
        all_direct(w) ==> all_direct(step(w, e)),
        forall|v: int| spent(w, prefix, v) ==> #[trigger] spent(step(w, e), prefix, v),
        outcome(w, e, prefix) matches Some(x) ==> {
            &&& !spent(w, prefix, x as int)
            &&& spent(step(w, e), prefix, x as int)
            &&& all_direct(w) ==> x == counter(w.store, prefix) + 1
        },
{
    let w1 = step(w, e);
    match e {
        Event::Issue { issuer, prefix: asked } => {
            if 0 <= issuer < w.issuers.len() {
                let g = w.issuers[issuer];
                lemma_issue(g, w.store, asked, prefix);
                let (g1, s1, r) = issue(g, w.store, asked);
                let c = counter(w.store, prefix);
                lemma_issuer_moves(w, issuer, g1, s1, prefix);
                if let Some(x) = outcome(w, e, prefix) {
                    assert(asked == prefix);
                    assert(r == Ok::<u64, crate::sequence_generator::SequenceGeneratorError>(x));
                    if holds(g, prefix, x as int) {
                        assert(!spent(w, prefix, x as int));
                    }
                    assert forall|i: int| 0 <= i < w1.issuers.len() implies !holds(
                        #[trigger] w1.issuers[i],
                        prefix,
                        x as int,
                    ) by {
                        if i != issuer {
                            assert(w1.issuers[i] == w.issuers[i]);
                            if holds(w.issuers[i], prefix, x as int) {
                                assert(w.issuers[i].leases[prefix].range_end <= c);
                                assert(holds(g, prefix, x as int));
                            }
                        }
                    }
                    if all_direct(w) {
                        assert(w.issuers[issuer].strategy == Strategy::Direct);
                    }
                }
            }
        },
        Event::Restart { issuer } => {
            if 0 <= issuer < w.issuers.len() {
                assert forall|i: int| 0 <= i < w1.issuers.len() implies generator_ok(
                    #[trigger] w1.issuers[i],
                ) by {
                    if i != issuer {
                        assert(w1.issuers[i] == w.issuers[i]);
                    } else {
                        assert(generator_ok(w.issuers[i]));
                    }
                }
                assert forall|i: int, v: int| 0 <= i < w1.issuers.len() && #[trigger] holds(
                    w1.issuers[i],
                    prefix,
                    v,
                ) implies holds(w.issuers[i], prefix, v) by {
                    if i != issuer {
                        assert(w1.issuers[i] == w.issuers[i]);
                    }
                }
                assert forall|i: int|
                    0 <= i < w1.issuers.len() && (#[trigger] w1.issuers[i]).leases.contains_key(
                        prefix,
                    ) implies w1.issuers[i].leases[prefix].range_end <= counter(
                    w1.store,
                    prefix,
                ) by {
                    if i != issuer {
                        assert(w1.issuers[i] == w.issuers[i]);
                    }
                }
                assert forall|i: int, j: int, v: int|
                    0 <= i < w1.issuers.len() && 0 <= j < w1.issuers.len() && i != j implies !(
                    holds(#[trigger] w1.issuers[i], prefix, v) && #[trigger] holds(
                        w1.issuers[j],
                        prefix,
                        v,
                    )) by {
                    if holds(w1.issuers[i], prefix, v) && holds(w1.issuers[j], prefix, v) {
                        assert(holds(w.issuers[i], prefix, v));
                        assert(holds(w.issuers[j], prefix, v));
                    }
                }
                assert forall|v: int| spent(w, prefix, v) implies #[trigger] spent(
                    w1,
                    prefix,
                    v,
                ) by {
                    assert forall|i: int| 0 <= i < w1.issuers.len() implies !holds(
                        #[trigger] w1.issuers[i],
                        prefix,
                        v,
                    ) by {
                        assert(!holds(w.issuers[i], prefix, v));
                    }
                }
                assert forall|i: int| 0 <= i < w1.issuers.len() && all_direct(w) implies (
                #[trigger] w1.issuers[i]).strategy == Strategy::Direct by {
                    assert(w.issuers[i].strategy == Strategy::Direct);
                    if i != issuer {
                        assert(w1.issuers[i] == w.issuers[i]);
                    }
                }
            }
        },
        Event::Wait { millis } => {
            assert(w1.issuers == w.issuers);
            assert(counter(w1.store, prefix) == counter(w.store, prefix));
        },
        Event::Outage { count } => {
            assert(w1.issuers == w.issuers);
            assert(counter(w1.store, prefix) == counter(w.store, prefix));
        },
        Event::Reserve { issuer, prefix: asked } => {
            if 0 <= issuer < w.issuers.len() {
                lemma_reservation(w.issuers[issuer], w.store, asked, prefix);
                let (g1, s1) = reservation(w.issuers[issuer], w.store, asked);
                lemma_issuer_moves(w, issuer, g1, s1, prefix);
            }
        },
        Event::Increment { key, by } => {
            assert(w1.issuers == w.issuers);
            assert(counter(w1.store, prefix) >= counter(w.store, prefix));
        },
        Event::TakeLock { key, token, ttl } => {
            assert(w1.issuers == w.issuers);
            assert(counter(w1.store, prefix) == counter(w.store, prefix));
        },
        Event::ReleaseLock { key, token } => {
            assert(w1.issuers == w.issuers);
            assert(counter(w1.store, prefix) == counter(w.store, prefix));
        },
        Event::WriteRule { key, rule } => {
            assert(w1.issuers == w.issuers);
            assert(counter(w1.store, prefix) == counter(w.store, prefix));
        },
        Event::ReadRule { key } => {
            assert(w1.issuers == w.issuers);
            assert(counter(w1.store, prefix) == counter(w.store, prefix));
        },
    }
}

/// What a sequence of events does to a consistent world.
proof fn lemma_run(w: World, events: Seq<Event>, prefix: Seq<char>)
    requires
        consistent(w, prefix),
    ensures
        consistent(run(w, events), prefix),
        counter(w.store, prefix) <= counter(run(w, events).store, prefix),
        all_direct(w) ==> all_direct(run(w, events)),
        forall|v: int| spent(w, prefix, v) ==> #[trigger] spent(run(w, events), prefix, v),
        forall|k: int|
            0 <= k < issued(w, events, prefix).len() ==> {
                &&& #[trigger] spent(run(w, events), prefix, issued(w, events, prefix)[k] as int)
                &&& !spent(w, prefix, issued(w, events, prefix)[k] as int)
            },
        issued(w, events, prefix).no_duplicates(),
        all_direct(w) ==> forall|a: int, b: int|
            0 <= a < b < issued(w, events, prefix).len() ==> #[trigger] issued(w, events, prefix)[a]
                < #[trigger] issued(w, events, prefix)[b],
    decreases events.len(),
{
    if events.len() > 0 {
        let earlier = events.drop_last();
        let e = events.last();
        lemma_run(w, earlier, prefix);
        let w1 = run(w, earlier);
        let w2 = run(w, events);
        lemma_step(w1, e, prefix);
        let before = issued(w, earlier, prefix);
        let all = issued(w, events, prefix);
        assert forall|v: int| spent(w, prefix, v) implies #[trigger] spent(w2, prefix, v) by {
            assert(spent(w1, prefix, v));
        }
        assert forall|k: int| 0 <= k < before.len() implies spent(
            w2,
            prefix,
            #[trigger] before[k] as int,
        ) by {
            assert(spent(w1, prefix, before[k] as int));
        }
        match outcome(w1, e, prefix) {
            Some(x) => {
                assert(all == before.push(x));
                assert forall|k: int| 0 <= k < before.len() implies #[trigger] before[k] != x by {
                    assert(spent(w1, prefix, before[k] as int));
                }
                assert forall|k: int| 0 <= k < all.len() implies {
                    &&& #[trigger] spent(w2, prefix, all[k] as int)
                    &&& !spent(w, prefix, all[k] as int)
                } by {
                    if k < before.len() {
                        assert(all[k] == before[k]);
                        assert(spent(w1, prefix, before[k] as int));
                    } else {
                        assert(all[k] == x);
                        if spent(w, prefix, x as int) {
                            assert(spent(w1, prefix, x as int));
                        }
                    }
                }
                if all_direct(w) {
                    assert forall|a: int, b: int| 0 <= a < b < all.len() implies #[trigger] all[a]
                        < #[trigger] all[b] by {
                        if b == before.len() {
                            assert(all[a] == before[a]);
                            assert(spent(w1, prefix, before[a] as int));
                        } else {
                            assert(all[a] == before[a] && all[b] == before[b]);
                        }
                    }
                }
            },
            None => {
                assert(all == before);
                assert forall|k: int| 0 <= k < all.len() implies {
                    &&& #[trigger] spent(w2, prefix, all[k] as int)
                    &&& !spent(w, prefix, all[k] as int)
                } by {
                    assert(spent(w1, prefix, before[k] as int));
                }
            },
        }
    }
}

/// Uniqueness. Whatever happens to a consistent world (issuers of either
/// strategy asked in any order for any prefixes, restarts, outages, the
/// passing of time, other requests to the store), no value is issued
/// twice for one prefix.
pub proof fn theorem_no_value_is_issued_twice(w: World, events: Seq<Event>, prefix: Seq<char>)
    requires
        consistent(w, prefix),
    ensures
        issued(w, events, prefix).no_duplicates(),
{
    lemma_run(w, events, prefix);
}

/// Unique numbers. The numbers assembled from the values issued for one
/// prefix, under one valid rule and in one year, are all different.
pub proof fn theorem_no_number_is_assembled_twice(
    w: World,
    events: Seq<Event>,
    prefix: Seq<char>,
    rule: PrefixRuleView,
    year: int,
    a: int,
    b: int,
)
    requires
        consistent(w, prefix),
        format_is_valid(rule.format, rule.seq_length),
        0 <= a < b < issued(w, events, prefix).len(),
    ensures
        assembled(prefix, rule, issued(w, events, prefix)[a], year) != assembled(
            prefix,
            rule,
            issued(w, events, prefix)[b],
            year,
        ),
{
    lemma_run(w, events, prefix);
    let values = issued(w, events, prefix);
    assert(values[a] != values[b]);
    theorem_distinct_values_give_distinct_numbers(prefix, rule, values[a], values[b], year);
}

/// Monotonic issue. Where every issuer uses the direct strategy, the
/// values issued for one prefix are strictly increasing in the order of
/// issue.
pub proof fn theorem_direct_issue_increases(
    w: World,
    events: Seq<Event>,
    prefix: Seq<char>,
    a: int,
    b: int,
)
    requires
        consistent(w, prefix),
        all_direct(w),
        0 <= a < b < issued(w, events, prefix).len(),
    ensures
        issued(w, events, prefix)[a] < issued(w, events, prefix)[b],
{
    lemma_run(w, events, prefix);
}

/// Gaps, never duplicates. A value that an issuer holds in its lease when
/// its process starts anew is issued by nobody afterwards, and neither is
/// any value that was issued before.
pub proof fn theorem_restart_leaves_a_gap(
    w: World,
    issuer: int,
    value: int,
    events: Seq<Event>,
    prefix: Seq<char>,
)
    requires
        consistent(w, prefix),
        0 <= issuer < w.issuers.len(),
        holds(w.issuers[issuer], prefix, value) || spent(w, prefix, value),
    ensures
        forall|k: int|
            0 <= k < issued(step(w, Event::Restart { issuer }), events, prefix).len() ==> issued(
                step(w, Event::Restart { issuer }),
                events,
                prefix,
            )[k] != value,
{
    let e = Event::Restart { issuer };
    let w1 = step(w, e);
    lemma_step(w, e, prefix);
    assert forall|i: int| 0 <= i < w1.issuers.len() implies !holds(
        #[trigger] w1.issuers[i],
        prefix,
        value,
    ) by {
        if i != issuer {
            assert(w1.issuers[i] == w.issuers[i]);
            if holds(w.issuers[i], prefix, value) {
                assert(!spent(w, prefix, value));
                assert(holds(w.issuers[issuer], prefix, value));
            }
        }
    }
    assert(spent(w1, prefix, value));
    lemma_run(w1, events, prefix);
    let later = issued(w1, events, prefix);
    assert forall|k: int| 0 <= k < later.len() implies later[k] != value by {
        assert(spent(run(w1, events), prefix, later[k] as int));
        assert(!spent(w1, prefix, later[k] as int));
    }
}

/// An acquisition is its steps. Where a call of a leased issuer acquires
/// a lease and issues its first value, the same store, the same leases
/// and the same value come of four steps taken one by one: the lock is
/// taken with the issuer's token, the block is reserved, the lock is
/// released, and the issuer is asked again and serves from the lease. In
/// a run these are the events `TakeLock`, `Reserve`, `ReleaseLock` and
/// `Issue`, between which any other events may stand.
pub proof fn theorem_acquisition_is_its_steps(g: GeneratorState, s: StoreState, prefix: Seq<char>)
    requires
        generator_ok(g),
        g.strategy is Leased,
        !(g.leases.contains_key(prefix) && g.leases[prefix].cursor <= g.leases[prefix].range_end),
        issue(g, s, prefix).2 is Ok,
    ensures
        ({
            let ttl = g.strategy->lock_ttl_millis;
            let token = lease_token(g.holder, g.acquisitions);
            let s1 = set_if_absent_spec(s, lock_key(prefix), token, ttl).0;
            let (g2, s2) = reservation(g, s1, prefix);
            let s3 = delete_if_equals_spec(s2, lock_key(prefix), token).0;
            let (g4, s4, r4) = issue(g2, s3, prefix);
            let (g5, s5, r5) = issue(g, s, prefix);
            &&& s4 == s5
            &&& r4 == r5
            &&& g4.leases == g5.leases
        }),
{
    let ttl = g.strategy->lock_ttl_millis;
    let size = g.strategy->size;
    let token = lease_token(g.holder, g.acquisitions);
    let (s1, locked) = set_if_absent_spec(s, lock_key(prefix), token, ttl);
    assert(locked == Ok::<bool, StoreError>(true));
    let (s2a, answer) = incr_by_spec(s1, sequence_key(prefix), size);
    assert(reserved_lease(answer, size) is Ok);
    let lease = reserved_lease(answer, size)->Ok_0;
    let (g2, s2) = reservation(g, s1, prefix);
    assert(s2 == s2a);
    let s3 = delete_if_equals_spec(s2, lock_key(prefix), token).0;
    let (g4, s4, r4) = issue(g2, s3, prefix);
    let (g5, s5, r5) = issue(g, s, prefix);
    assert(g2.leases[prefix] == Lease { cursor: lease.range_start, ..lease });
    assert(g4.leases =~= g5.leases);
}

/// A world of issuers that hold no lease is consistent.
pub proof fn lemma_fresh_world_is_consistent(w: World, prefix: Seq<char>)
    requires
        forall|i: int|
            0 <= i < w.issuers.len() ==> generator_ok(#[trigger] w.issuers[i])
                && w.issuers[i].leases == Map::<Seq<char>, crate::sequence_generator::Lease>::empty(),
    ensures
        consistent(w, prefix),
{
}

} // verus!
