//! The immutable run configuration and its validation.

use vstd::prelude::*;

verus! {

/// The objective function: a configurable pure scoring function over an
/// attribute vector, selected by configuration rather than hard-coded.
#[derive(Clone, Copy, Debug, PartialEq, Eq, Structural)]
pub enum Objective {
    /// Score is the sum of the attributes, saturating at the `i64` range.
    Sum,
    /// Score is the product of the attributes (1 for an empty vector), each
    /// multiplication saturating at the `i64` range.
    Product,
}

/// The reason a configuration is rejected, identifying the offending field.
#[derive(Clone, Copy, Debug, PartialEq, Eq, Structural)]
pub enum ConfigError {
    /// `attribute_domain_low > attribute_domain_high`.
    DomainBoundsInverted,
    /// The interval `[encounters_per_tick_min, encounters_per_tick_max)` is
    /// empty, so a group count cannot be drawn from it.
    EncounterCountRangeEmpty,
    /// `entities_per_encounter_min == 0`: a group must have room for at
    /// least one member, so that no empty group reaches the averaging step.
    EncounterSizeZero,
    /// The interval `[entities_per_encounter_min, entities_per_encounter_max)`
    /// is empty, so a group size cannot be drawn from it.
    EncounterSizeRangeEmpty,
    /// The interval `[plasticity_min, plasticity_max)` is empty.
    PlasticityRangeEmpty,
    /// `plasticity_max > 1000`: plasticity is a per-mille fraction of the
    /// attribute gap closed per tick and must stay below one.
    PlasticityOutOfScale,
    /// The interval `[influence_min, influence_max)` is empty.
    InfluenceRangeEmpty,
    /// `mutation_epsilon < 0`: the mutation magnitude bound cannot be
    /// negative.
    NegativeMutationEpsilon,
}

/// The immutable, process-lifetime configuration of a run.
///
/// Fractional quantities (plasticity, influence) are carried as per-mille
/// integers: a plasticity of 250 closes a quarter of the gap toward a target
/// per tick. Plasticity lies in a configured sub-range of `[0, 1000)`;
/// influence is a nonnegative per-mille weight.
#[derive(Clone, Copy, Debug)]
pub struct Config {
    /// Population size. Zero is a valid no-op run.
    pub n_beings: usize,
    /// Attribute vector length, fixed for the whole run. Zero is valid.
    pub n_being_attributes: usize,
    /// Lowest attribute value sampled at spawn (inclusive).
    pub attribute_domain_low: i64,
    /// Highest attribute value sampled at spawn (inclusive).
    pub attribute_domain_high: i64,
    /// Lowest group count drawn per tick (inclusive).
    pub encounters_per_tick_min: usize,
    /// Group count bound per tick (exclusive).
    pub encounters_per_tick_max: usize,
    /// Lowest requested group size (inclusive).
    pub entities_per_encounter_min: usize,
    /// Requested group size bound (exclusive).
    pub entities_per_encounter_max: usize,
    /// Lowest plasticity sampled at spawn (inclusive, per-mille).
    pub plasticity_min: u32,
    /// Plasticity bound at spawn (exclusive, per-mille, at most 1000).
    pub plasticity_max: u32,
    /// Lowest influence sampled at spawn (inclusive, per-mille).
    pub influence_min: u32,
    /// Influence bound at spawn (exclusive, per-mille).
    pub influence_max: u32,
    /// The scoring function over an attribute vector.
    pub objective: Objective,
    /// The score an entity's objective value is measured against.
    pub success_value: i64,
    /// An entity whose score is within this distance of `success_value` is
    /// solved.
    pub success_margin: u64,
    /// Mutation adds a delta drawn from `[-mutation_epsilon,
    /// +mutation_epsilon]`; must be nonnegative.
    pub mutation_epsilon: i64,
    /// The run ends after exactly this many ticks.
    pub total_cycles: u64,
    /// A snapshot is reported every this many ticks (and at the first and
    /// last tick); zero means only those two.
    pub state_dump_frequency: u64,
}

impl Config {
    /// A configuration every engine function can run on: no inverted bound,
    /// no empty draw interval, plasticity a proper fraction, a nonnegative
    /// mutation bound.
    pub open spec fn valid(self) -> bool {
        &&& self.attribute_domain_low <= self.attribute_domain_high
        &&& self.encounters_per_tick_min < self.encounters_per_tick_max
        &&& 0 < self.entities_per_encounter_min
        &&& self.entities_per_encounter_min < self.entities_per_encounter_max
        &&& self.plasticity_min < self.plasticity_max
        &&& self.plasticity_max <= 1000
        &&& self.influence_min < self.influence_max
        &&& self.mutation_epsilon >= 0
    }

    /// The outcome of validation: the first offending field in declaration
    /// order, or nothing.
    pub open spec fn spec_validate(self) -> Result<(), ConfigError> {
        if self.attribute_domain_low > self.attribute_domain_high {
            Err(ConfigError::DomainBoundsInverted)
        } else if self.encounters_per_tick_min >= self.encounters_per_tick_max {
            Err(ConfigError::EncounterCountRangeEmpty)
        } else if self.entities_per_encounter_min == 0 {
            Err(ConfigError::EncounterSizeZero)
        } else if self.entities_per_encounter_min >= self.entities_per_encounter_max {
            Err(ConfigError::EncounterSizeRangeEmpty)
        } else if self.plasticity_min >= self.plasticity_max {
            Err(ConfigError::PlasticityRangeEmpty)
        } else if self.plasticity_max > 1000 {
            Err(ConfigError::PlasticityOutOfScale)
        } else if self.influence_min >= self.influence_max {
            Err(ConfigError::InfluenceRangeEmpty)
        } else if self.mutation_epsilon < 0 {
            Err(ConfigError::NegativeMutationEpsilon)
        } else {
            Ok(())
        }
    }

    /// Checks every field bound; `Ok` exactly on valid configurations,
    /// otherwise the first offending field in declaration order.
    pub fn validate(&self) -> (r: Result<(), ConfigError>)
        ensures
            r == self.spec_validate(),
            r is Ok <==> self.valid(),
    {
        if self.attribute_domain_low > self.attribute_domain_high {
            Err(ConfigError::DomainBoundsInverted)
        } else if self.encounters_per_tick_min >= self.encounters_per_tick_max {
            Err(ConfigError::EncounterCountRangeEmpty)
        } else if self.entities_per_encounter_min == 0 {
            Err(ConfigError::EncounterSizeZero)
        } else if self.entities_per_encounter_min >= self.entities_per_encounter_max {
            Err(ConfigError::EncounterSizeRangeEmpty)
        } else if self.plasticity_min >= self.plasticity_max {
            Err(ConfigError::PlasticityRangeEmpty)
        } else if self.plasticity_max > 1000 {
            Err(ConfigError::PlasticityOutOfScale)
        } else if self.influence_min >= self.influence_max {
            Err(ConfigError::InfluenceRangeEmpty)
        } else if self.mutation_epsilon < 0 {
            Err(ConfigError::NegativeMutationEpsilon)
        } else {
            Ok(())
        }
    }
}

} // verus!
