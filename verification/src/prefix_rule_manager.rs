//! The prefix rule registry as its callers see it.

use vstd::prelude::*;
use crate::prefix_rule::{PrefixRule, PrefixRuleView};
use crate::redis_prefix_rule_manager::RedisPrefixRuleManagerError;
use crate::store::SharedStore;

verus! {

/// What a lookup returned, as plain mathematical values.
pub open spec fn lookup_view(r: Result<Option<PrefixRule>, RedisPrefixRuleManagerError>) -> Result<
    Option<PrefixRuleView>,
    RedisPrefixRuleManagerError,
> {
    match r {
        Ok(Some(rule)) => Ok(Some(rule@)),
        Ok(None) => Ok(None),
        Err(e) => Err(e),
    }
}

/// A registry of prefix rules over a shared store.
pub trait PrefixRuleManager<S: SharedStore> {
    /// What the registry keeps true of its own data.
    open spec fn ready(&self) -> bool {
        true
    }

    /// Validates `rule` and makes it the rule of `prefix_key`.
    fn register_prefix_rule(&mut self, store: &mut S, prefix_key: String, rule: PrefixRule) -> (r:
        Result<(), RedisPrefixRuleManagerError>)
        requires
            old(self).ready(),
            old(store).inv(),
        ensures
            final(self).ready(),
            final(store).inv(),
    ;

    /// The rule of `prefix_key`, or `None` where none is registered.
    fn get_prefix_rule(&mut self, store: &mut S, prefix_key: String) -> (r: Result<
        Option<PrefixRule>,
        RedisPrefixRuleManagerError,
    >)
        requires
            old(self).ready(),
            old(store).inv(),
        ensures
            final(self).ready(),
            final(store).inv(),
    ;
}

} // verus!
