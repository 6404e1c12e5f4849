//! The registry of field rules: which descriptor is decoded by which rule.
//!
//! The registry is filled once, before any frame is dispatched. An entry,
//! once made, is never changed, and no rule serves two descriptors.

use crate::field::{FieldDescriptor, FieldName, FieldRule, FieldShape};
use crate::table::{
    distinct_keys, distinct_values, has_key, has_value, lemma_entry, lemma_injective, lemma_len,
    lemma_prefix_step, lemma_prefix_step_value, lemma_push, lemma_values, table,
};
use vstd::prelude::*;

verus! {

/// The category byte of the frames that carry inertial measurements.
pub const CATEGORY_IMU: u8 = 0x80;

/// The category byte of the frames that carry satellite navigation data.
pub const CATEGORY_GNSS: u8 = 0x81;

/// Why a rule was not registered.
#[derive(Clone, Copy, Debug, PartialEq, Eq, Structural)]
pub enum RegisterError {
    /// The descriptor already has a rule.
    DescriptorTaken,
    /// The rule already serves another descriptor.
    RuleTaken,
}

/// The mapping from descriptors to rules.
#[derive(Debug)]
pub struct FieldRegistry {
    entries: Vec<(FieldDescriptor, FieldRule)>,
}

impl View for FieldRegistry {
    type V = Map<FieldDescriptor, FieldRule>;

    closed spec fn view(&self) -> Map<FieldDescriptor, FieldRule> {
        table(self.entries@)
    }
}

/// The rules for the fields of the inertial measurement frames.
pub open spec fn standard_rules() -> Map<FieldDescriptor, FieldRule> {
    Map::empty().insert(
        FieldDescriptor { category: CATEGORY_IMU, kind: 0x04 },
        FieldRule { name: FieldName::ScaledAccelerometerVector, shape: FieldShape::Vector3 },
    ).insert(
        FieldDescriptor { category: CATEGORY_IMU, kind: 0x05 },
        FieldRule { name: FieldName::ScaledGyroVector, shape: FieldShape::Vector3 },
    ).insert(
        FieldDescriptor { category: CATEGORY_IMU, kind: 0x06 },
        FieldRule { name: FieldName::ScaledMagnetometerVector, shape: FieldShape::Vector3 },
    )
}

impl FieldRegistry {
    #[verifier::type_invariant]
    spec fn valid(self) -> bool {
        distinct_keys(self.entries@) && distinct_values(self.entries@)
    }

    /// A registry without rules.
    pub fn new() -> (registry: FieldRegistry)
        ensures
            registry@ == Map::<FieldDescriptor, FieldRule>::empty(),
    {
        let registry = FieldRegistry { entries: Vec::new() };
        proof {
            assert(registry@ =~= Map::<FieldDescriptor, FieldRule>::empty());
        }
        registry
    }

    /// The registry of the fields of the inertial measurement frames.
    pub fn standard() -> (registry: FieldRegistry)
        ensures
            registry@ == standard_rules(),
    {
        let mut registry = FieldRegistry::new();
        let _ = registry.register(
            FieldDescriptor { category: CATEGORY_IMU, kind: 0x04 },
            FieldRule { name: FieldName::ScaledAccelerometerVector, shape: FieldShape::Vector3 },
        );
        let _ = registry.register(
            FieldDescriptor { category: CATEGORY_IMU, kind: 0x05 },
            FieldRule { name: FieldName::ScaledGyroVector, shape: FieldShape::Vector3 },
        );
        let _ = registry.register(
            FieldDescriptor { category: CATEGORY_IMU, kind: 0x06 },
            FieldRule { name: FieldName::ScaledMagnetometerVector, shape: FieldShape::Vector3 },
        );
        registry
    }

    /// Registers `rule` for `descriptor`. An entry that exists is never
    /// replaced, and a rule serves one descriptor only: in both cases the
    /// registry stays as it is.
    pub fn register(&mut self, descriptor: FieldDescriptor, rule: FieldRule) -> (outcome: Result<
        (),
        RegisterError,
    >)
        ensures
            old(self)@.contains_key(descriptor) ==> outcome == Err::<(), RegisterError>(
                RegisterError::DescriptorTaken,
            ),
            !old(self)@.contains_key(descriptor) && old(self)@.contains_value(rule) ==> outcome
                == Err::<(), RegisterError>(RegisterError::RuleTaken),
            !old(self)@.contains_key(descriptor) && !old(self)@.contains_value(rule) ==> outcome
                is Ok,
            outcome is Ok ==> final(self)@ == old(self)@.insert(descriptor, rule),
            outcome is Err ==> final(self)@ == old(self)@,
            final(self)@.is_injective(),
            final(self)@.dom().finite(),
    {
        proof {
            use_type_invariant(&*self);
            lemma_values(self.entries@, rule);
            lemma_injective(self.entries@);
            lemma_len(self.entries@);
        }
        let mut rule_taken: bool = false;
        let mut i: usize = 0;
        while i < self.entries.len()
            invariant
                i <= self.entries.len(),
                self.entries@ == old(self).entries@,
                distinct_keys(self.entries@),
                distinct_values(self.entries@),
                table(self.entries@).is_injective(),
                table(self.entries@).dom().finite(),
                table(self.entries@).contains_value(rule) <==> has_value(self.entries@, rule),
                !has_key(self.entries@.take(i as int), descriptor),
                rule_taken <==> has_value(self.entries@.take(i as int), rule),
            decreases self.entries.len() - i,
        {
            let entry = self.entries[i];
            if entry.0 == descriptor {
                return Err(RegisterError::DescriptorTaken);
            }
            proof {
                lemma_prefix_step(self.entries@, i as int, descriptor);
                lemma_prefix_step_value(self.entries@, i as int, rule);
            }
            if entry.1 == rule {
                rule_taken = true;
            }
            i += 1;
        }
        proof {
            assert(self.entries@.take(i as int) =~= self.entries@);
        }
        if rule_taken {
            return Err(RegisterError::RuleTaken);
        }
        proof {
            lemma_push(self.entries@, descriptor, rule);
            let more = self.entries@.push((descriptor, rule));
            assert forall|a: int, b: int| 0 <= a < b < more.len() implies (#[trigger] more[a]).1 != (
            #[trigger] more[b]).1 by {
                assert(more[a] == self.entries@[a]);
                if b < self.entries@.len() {
                    assert(more[b] == self.entries@[b]);
                }
            }
            lemma_injective(more);
            lemma_len(more);
        }
        let mut entries: Vec<(FieldDescriptor, FieldRule)> = Vec::new();
        core::mem::swap(&mut self.entries, &mut entries);
        entries.push((descriptor, rule));
        self.entries = entries;
        Ok(())
    }

    /// The rule registered for `descriptor`, if there is one. No rule is
    /// registered for two descriptors.
    pub fn lookup(&self, descriptor: FieldDescriptor) -> (rule: Option<FieldRule>)
        ensures
            self@.contains_key(descriptor) ==> rule == Some(self@[descriptor]),
            !self@.contains_key(descriptor) ==> rule is None,
            self@.is_injective(),
            self@.dom().finite(),
    {
        proof {
            use_type_invariant(self);
            lemma_injective(self.entries@);
            lemma_len(self.entries@);
        }
        let mut i: usize = 0;
        while i < self.entries.len()
            invariant
                i <= self.entries.len(),
                distinct_keys(self.entries@),
                table(self.entries@).is_injective(),
                table(self.entries@).dom().finite(),
                !has_key(self.entries@.take(i as int), descriptor),
            decreases self.entries.len() - i,
        {
            let entry = self.entries[i];
            if entry.0 == descriptor {
                proof {
                    lemma_entry(self.entries@, i as int);
                }
                return Some(entry.1);
            }
            proof {
                lemma_prefix_step(self.entries@, i as int, descriptor);
            }
            i += 1;
        }
        proof {
            assert(self.entries@.take(i as int) =~= self.entries@);
        }
        None
    }

    /// The number of registered rules.
    pub fn len(&self) -> (count: usize)
        ensures
            count == self@.dom().len(),
    {
        proof {
            use_type_invariant(self);
            lemma_len(self.entries@);
        }
        self.entries.len()
    }
}

} // verus!
