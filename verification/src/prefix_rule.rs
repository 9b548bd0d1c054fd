//! The formatting rule bound to one prefix key.

use vstd::prelude::*;

verus! {

/// The formatting contract of one prefix.
#[derive(Debug, Clone)]
pub struct PrefixRule {
    /// The key that selects this numbering scheme.
    pub prefix_key: String,
    /// The template, with placeholders `{name}` and `{name:width}`.
    pub format: String,
    /// The zero-pad width of a sequence placeholder that names none.
    pub seq_length: u32,
    /// The first sequence value conceptually available.
    pub initial_seq: u64,
    /// Marks the prefix as degraded: assembled numbers carry a suffix.
    pub network_partition: bool,
}

/// A rule as plain mathematical values.
pub ghost struct PrefixRuleView {
    pub prefix_key: Seq<char>,
    pub format: Seq<char>,
    pub seq_length: u32,
    pub initial_seq: u64,
    pub network_partition: bool,
}

impl View for PrefixRule {
    type V = PrefixRuleView;

    open spec fn view(&self) -> PrefixRuleView {
        PrefixRuleView {
            prefix_key: self.prefix_key@,
            format: self.format@,
            seq_length: self.seq_length,
            initial_seq: self.initial_seq,
            network_partition: self.network_partition,
        }
    }
}

impl PrefixRule {
    /// A copy of this rule, field by field.
    pub fn duplicate(&self) -> (copy: PrefixRule)
        ensures
            copy == *self,
    {
        PrefixRule {
            prefix_key: self.prefix_key.clone(),
            format: self.format.clone(),
            seq_length: self.seq_length,
            initial_seq: self.initial_seq,
            network_partition: self.network_partition,
        }
    }

    /// This rule with the degraded flag set to `blocked`.
    pub fn with_network_partition(&self, blocked: bool) -> (copy: PrefixRule)
        ensures
            copy@ == (PrefixRuleView { network_partition: blocked, ..self@ }),
    {
        PrefixRule {
            prefix_key: self.prefix_key.clone(),
            format: self.format.clone(),
            seq_length: self.seq_length,
            initial_seq: self.initial_seq,
            network_partition: blocked,
        }
    }
}

} // verus!
