//! Formatted, unique identifiers issued on demand.
//!
//! A caller names a prefix; the library looks up the rule registered for
//! it, obtains the next value of the prefix's sequence counter, and
//! assembles the two into a number such as `TEST-2025-0123`.
//!
//! * [`prefix_rule`]: the rule of a prefix: its template and widths.
//! * [`number_assembler`]: the placeholder grammar, validation of
//!   templates and assembly of numbers.
//! * [`store`]: the shared counter store as a set of operations over a
//!   mathematical model; [`memory_store`] is a store in memory.
//! * [`redis_prefix_rule_manager`], [`prefix_rule_manager`]: the rule
//!   registry, with its read cache and its retry policy.
//! * [`sequence_generator`]: the issuer of sequence values, by single
//!   increments or from leased batches.
//! * [`service`]: registration and generation as a transport layer
//!   invokes them.
//! * [`guarantees`]: what holds of every run of several issuers against
//!   one store.
//! * [`keys`], [`keyed_table`], [`text`], [`clock`]: key names, a table
//!   keyed by strings, decimal text, and the calendar clock.

pub mod clock;
pub mod guarantees;
pub mod keyed_table;
pub mod keys;
pub mod memory_store;
pub mod number_assembler;
pub mod prefix_rule;
pub mod prefix_rule_manager;
pub mod redis_prefix_rule_manager;
pub mod sequence_generator;
pub mod service;
pub mod store;
pub mod text;

pub use crate::prefix_rule::PrefixRule;
pub use crate::prefix_rule_manager::PrefixRuleManager;
