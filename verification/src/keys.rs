//! The names under which the library keeps its entries in the store.

use vstd::prelude::*;
use vstd::string::StringExecFns;

verus! {

/// The key of the rule entry of `prefix`.
pub open spec fn rule_key(prefix: Seq<char>) -> Seq<char> {
    "prefix_rule:"@ + prefix
}

/// The key of the sequence counter of `prefix`.
pub open spec fn sequence_key(prefix: Seq<char>) -> Seq<char> {
    "seq:"@ + prefix
}

/// The key of the lock that guards lease acquisition for `prefix`.
pub open spec fn lock_key(prefix: Seq<char>) -> Seq<char> {
    "lock:"@ + prefix
}

/// The key of the rule entry of `prefix`, as a string.
pub fn rule_key_of(prefix: &str) -> (key: String)
    ensures
        key@ == rule_key(prefix@),
{
    let mut key = String::from_str("prefix_rule:");
    key.append(prefix);
    key
}

/// The key of the sequence counter of `prefix`, as a string.
pub fn sequence_key_of(prefix: &str) -> (key: String)
    ensures
        key@ == sequence_key(prefix@),
{
    let mut key = String::from_str("seq:");
    key.append(prefix);
    key
}

/// The key of the lease lock of `prefix`, as a string.
pub fn lock_key_of(prefix: &str) -> (key: String)
    ensures
        key@ == lock_key(prefix@),
{
    let mut key = String::from_str("lock:");
    key.append(prefix);
    key
}

/// Distinct prefixes have distinct sequence counters.
pub proof fn lemma_sequence_key_injective(a: Seq<char>, b: Seq<char>)
    requires
        sequence_key(a) == sequence_key(b),
    ensures
        a == b,
{
    let head = "seq:"@;
    assert(a =~= (head + a).subrange(head.len() as int, (head + a).len() as int));
    assert(b =~= (head + b).subrange(head.len() as int, (head + b).len() as int));
}

} // verus!
