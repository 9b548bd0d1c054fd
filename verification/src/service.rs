//! The operations that a transport layer invokes: registration, marking
//! a prefix as degraded, and generation of the next number of a prefix.

use vstd::prelude::*;
use vstd::string::StringExecFns;
use crate::number_assembler::{assembly, malformed_message, NumberAssembler};
use crate::prefix_rule::{PrefixRule, PrefixRuleView};
use crate::prefix_rule_manager::PrefixRuleManager;
use crate::redis_prefix_rule_manager::{
    lookup, partition_marking, registration, ManagerState, RedisPrefixRuleManager,
    RedisPrefixRuleManagerError,
};
use crate::sequence_generator::{
    floor_raising, issue, GeneratorState, RedisSequenceGenerator, SequenceGenerator, SequenceGeneratorError,
};
use crate::store::{SharedStore, StoreState};

verus! {

/// Why no number was generated.
#[derive(Debug, Clone, Copy, PartialEq, Eq, Structural)]
pub enum GenerationError {
    /// No rule is registered under the prefix key.
    PrefixNotRegistered,
    /// The registry failed.
    Registry(RedisPrefixRuleManagerError),
    /// The issuer failed.
    Sequence(SequenceGeneratorError),
    /// The rule's template holds a sequence placeholder without a usable
    /// width.
    MalformedTemplate,
}

impl GenerationError {
    /// The text of this error.
    pub open spec fn message_spec(&self) -> Seq<char> {
        match self {
            GenerationError::PrefixNotRegistered => "Prefix not registered"@,
            GenerationError::Registry(e) => e.message_spec(),
            GenerationError::Sequence(e) => e.message_spec(),
            GenerationError::MalformedTemplate => malformed_message(),
        }
    }

    /// The text of this error.
    pub fn message(&self) -> (text: String)
        ensures
            text@ == self.message_spec(),
    {
        match self {
            GenerationError::PrefixNotRegistered => String::from_str("Prefix not registered"),
            GenerationError::Registry(e) => e.message(),
            GenerationError::Sequence(e) => e.message(),
            GenerationError::MalformedTemplate => String::from_str(
                "sequence placeholder without a usable width",
            ),
        }
    }
}

/// What generation returned, as plain mathematical values.
pub open spec fn generation_view(r: Result<String, GenerationError>) -> Result<
    Seq<char>,
    GenerationError,
> {
    match r {
        Ok(number) => Ok(number@),
        Err(e) => Err(e),
    }
}

/// Registration through the service: the rule is registered, and its
/// result is the result of the call. Once the rule is registered, the
/// prefix's counter is raised so that the first value issued is the rule's
/// `initial_seq`. The rule's `initial_seq` is advisory: a counter that has
/// passed it stays as it is, and so does one that cannot be raised (the
/// store does not answer, the counter holds no sequence value, or
/// `initial_seq` lies beyond what a counter can hold).
pub open spec fn enrolment(m: ManagerState, s: StoreState, prefix: Seq<char>, rule: PrefixRuleView) -> (
    ManagerState,
    StoreState,
    Result<(), RedisPrefixRuleManagerError>,
) {
    let (m1, s1, registered) = registration(m, s, prefix, rule);
    match registered {
        Err(e) => (m1, s1, Err(e)),
        Ok(_) => (m1, floor_raising(s1, prefix, rule.initial_seq).0, Ok(())),
    }
}

/// Registration through the service succeeds and fails as the registry's
/// registration does, and changes the cache and the rules in the store as
/// it does.
pub proof fn theorem_enrolment_follows_registration(
    m: ManagerState,
    s: StoreState,
    prefix: Seq<char>,
    rule: PrefixRuleView,
)
    ensures
        enrolment(m, s, prefix, rule).2 == registration(m, s, prefix, rule).2,
        enrolment(m, s, prefix, rule).0 == registration(m, s, prefix, rule).0,
        enrolment(m, s, prefix, rule).1.rules == registration(m, s, prefix, rule).1.rules,
{
}

/// The model of a service: its registry and its issuer.
pub ghost struct ServiceState {
    pub manager: ManagerState,
    pub generator: GeneratorState,
}

/// Generation in a given year: the rule is looked up, then a sequence
/// value is issued, then the number is assembled. A prefix without a rule
/// consumes no sequence value.
pub open spec fn generation(v: ServiceState, s: StoreState, prefix: Seq<char>, year: int) -> (
    ServiceState,
    StoreState,
    Result<Seq<char>, GenerationError>,
) {
    let (m1, s1, found) = lookup(v.manager, s, prefix);
    let v1 = ServiceState { manager: m1, ..v };
    match found {
        Err(e) => (v1, s1, Err(GenerationError::Registry(e))),
        Ok(None) => (v1, s1, Err(GenerationError::PrefixNotRegistered)),
        Ok(Some(rule)) => {
            let (g2, s2, issued) = issue(v.generator, s1, prefix);
            let v2 = ServiceState { manager: m1, generator: g2 };
            match issued {
                Err(e) => (v2, s2, Err(GenerationError::Sequence(e))),
                Ok(sequence) => match assembly(prefix, rule, sequence, year) {
                    Ok(number) => (v2, s2, Ok(number)),
                    Err(_) => (v2, s2, Err(GenerationError::MalformedTemplate)),
                },
            }
        },
    }
}

/// The registry, the issuer and the assembler of one process.
pub struct NumberService {
    manager: RedisPrefixRuleManager,
    generator: RedisSequenceGenerator,
    assembler: NumberAssembler,
}

impl View for NumberService {
    type V = ServiceState;

    closed spec fn view(&self) -> ServiceState {
        ServiceState { manager: self.manager@, generator: self.generator@ }
    }
}

impl NumberService {
    /// The service's invariant.
    pub closed spec fn wf(&self) -> bool {
        self.manager.wf() && self.generator.wf()
    }

    /// A service made of a registry and an issuer.
    pub fn new(manager: RedisPrefixRuleManager, generator: RedisSequenceGenerator) -> (service: Self)
        requires
            manager.wf(),
            generator.wf(),
        ensures
            service.wf(),
            service@ == (ServiceState { manager: manager@, generator: generator@ }),
    {
        NumberService { manager, generator, assembler: NumberAssembler::new() }
    }

    /// Registers the rule made of the given template and numbers under
    /// `prefix_key`. The result is the registry's. After a registration
    /// that succeeded the counter is raised towards `initial_seq`, as far
    /// as the store lets it.
    pub fn register_prefix<S: SharedStore>(
        &mut self,
        store: &mut S,
        prefix_key: &str,
        format: String,
        seq_length: u32,
        initial_seq: u64,
    ) -> (r: Result<(), RedisPrefixRuleManagerError>)
        requires
            old(self).wf(),
            old(store).inv(),
        ensures
            final(self).wf(),
            final(store).inv(),
            final(self)@.generator == old(self)@.generator,
            (final(self)@.manager, final(store).state(), r) == enrolment(
                old(self)@.manager,
                old(store).state(),
                prefix_key@,
                (PrefixRuleView {
                    prefix_key: prefix_key@,
                    format: format@,
                    seq_length,
                    initial_seq,
                    network_partition: false,
                }),
            ),
    {
        let rule = PrefixRule {
            prefix_key: prefix_key.to_owned(),
            format,
            seq_length,
            initial_seq,
            network_partition: false,
        };
        match self.manager.register_prefix_rule(store, prefix_key.to_owned(), rule) {
            Err(e) => Err(e),
            Ok(_) => {
                let _raised = RedisSequenceGenerator::raise_floor(store, prefix_key, initial_seq);
                Ok(())
            },
        }
    }

    /// Marks the prefix as degraded.
    pub fn set_network_partition<S: SharedStore>(&mut self, store: &mut S, prefix_key: &str) -> (r:
        Result<(), RedisPrefixRuleManagerError>)
        requires
            old(self).wf(),
            old(store).inv(),
        ensures
            final(self).wf(),
            final(store).inv(),
            final(self)@.generator == old(self)@.generator,
            (final(self)@.manager, final(store).state(), r) == partition_marking(
                old(self)@.manager,
                old(store).state(),
                prefix_key@,
            ),
    {
        self.manager.set_network_partition(store, prefix_key)
    }

    /// Generates the next number of `prefix_key`, with `year` as the
    /// calendar year.
    pub fn generate_number_in_year<S: SharedStore>(
        &mut self,
        store: &mut S,
        prefix_key: &str,
        year: i32,
    ) -> (r: Result<String, GenerationError>)
        requires
            old(self).wf(),
            old(store).inv(),
        ensures
            final(self).wf(),
            final(store).inv(),
            (final(self)@, final(store).state(), generation_view(r)) == generation(
                old(self)@,
                old(store).state(),
                prefix_key@,
                year as int,
            ),
    {
        let found = self.manager.get_prefix_rule(store, prefix_key.to_owned());
        let rule = match found {
            Err(e) => {
                return Err(GenerationError::Registry(e));
            },
            Ok(None) => {
                return Err(GenerationError::PrefixNotRegistered);
            },
            Ok(Some(rule)) => rule,
        };
        let sequence = match self.generator.generate(store, prefix_key) {
            Err(e) => {
                return Err(GenerationError::Sequence(e));
            },
            Ok(sequence) => sequence,
        };
        match self.assembler.assemble_number_in_year(prefix_key, &rule, sequence, year) {
            Ok(number) => Ok(number),
            Err(_) => Err(GenerationError::MalformedTemplate),
        }
    }

    /// Generates the next number of `prefix_key`, in the calendar year
    /// that the clock shows at the call.
    pub fn generate_number<S: SharedStore>(&mut self, store: &mut S, prefix_key: &str) -> (r: Result<
        String,
        GenerationError,
    >)
        requires
            old(self).wf(),
            old(store).inv(),
        ensures
            final(self).wf(),
            final(store).inv(),
            exists|year: int|
                1970 <= year <= i32::MAX && (final(self)@, final(store).state(), generation_view(r))
                    == #[trigger] generation(old(self)@, old(store).state(), prefix_key@, year),
    {
        let year = crate::clock::current_year();
        self.generate_number_in_year(store, prefix_key, year)
    }
}

} // verus!
