//! One agent of the population: an attribute vector with per-entity
//! plasticity, influence and an interaction counter.

use vstd::prelude::*;

use crate::attribute::{attrs_view, Attribute};
use crate::config::Config;
use crate::rng::{draw_i64_inclusive, draw_u32};

verus! {

/// One entity of the population.
#[derive(Clone, Debug)]
pub struct Entity {
    /// Unique within a population, stable for the entity's lifetime.
    pub id: usize,
    /// Ordered attribute vector, of length `n_being_attributes` for the
    /// whole run.
    pub attributes: Vec<Attribute>,
    /// Per-mille fraction of the gap closed toward a target per tick;
    /// always below 1000 (a proper fraction of one).
    pub plasticity: u32,
    /// Per-mille weight the entity's deviation contributes to a group's
    /// target.
    pub influence: u32,
    /// How many times the entity has been selected into a group.
    pub n_interactions: u64,
}

impl Entity {
    /// The mathematical view of this entity's attribute vector.
    pub open spec fn attrs(self) -> Seq<int> {
        attrs_view(self.attributes@)
    }

    /// Well-formedness against a configuration: the attribute vector has
    /// the configured length and plasticity is a proper per-mille fraction.
    pub open spec fn wf(self, cfg: Config) -> bool {
        &&& self.attributes@.len() == cfg.n_being_attributes
        &&& self.plasticity < 1000
    }

    /// Everything but the attribute values and the interaction counter is
    /// shared between `self` and `other`.
    pub open spec fn same_identity(self, other: Entity) -> bool {
        &&& self.id == other.id
        &&& self.plasticity == other.plasticity
        &&& self.influence == other.influence
    }

    /// The two entities hold the same data.
    pub open spec fn equiv(self, other: Entity) -> bool {
        &&& self.same_identity(other)
        &&& self.attributes@ == other.attributes@
        &&& self.n_interactions == other.n_interactions
    }

    /// Spawns entity `id`: attributes sampled uniformly from the configured
    /// domain, plasticity and influence from their configured ranges, and a
    /// zeroed interaction counter.
    pub fn with_id(id: usize, cfg: &Config, rng: &mut rand::rngs::StdRng) -> (r: Entity)
        requires
            cfg.valid(),
        ensures
            r.wf(*cfg),
            r.id == id,
            r.n_interactions == 0,
            cfg.plasticity_min <= r.plasticity < cfg.plasticity_max,
            cfg.influence_min <= r.influence < cfg.influence_max,
            forall|j: int|
                0 <= j < r.attrs().len() ==> cfg.attribute_domain_low as int <= #[trigger] r.attrs()[j]
                    <= cfg.attribute_domain_high as int,
    {
        let n: usize = cfg.n_being_attributes;
        let mut attributes: Vec<Attribute> = Vec::new();
        for j in 0..n
            invariant
                cfg.valid(),
                attributes@.len() == j,
                forall|k: int|
                    0 <= k < j ==> cfg.attribute_domain_low <= (
                    #[trigger] attributes@[k]).value <= cfg.attribute_domain_high,
        {
            let v: i64 = draw_i64_inclusive(rng, cfg.attribute_domain_low, cfg.attribute_domain_high);
            attributes.push(Attribute::new(v));
        }
        let plasticity: u32 = draw_u32(rng, cfg.plasticity_min, cfg.plasticity_max);
        let influence: u32 = draw_u32(rng, cfg.influence_min, cfg.influence_max);
        Entity { id, attributes, plasticity, influence, n_interactions: 0 }
    }

    /// An exact copy of this entity.
    pub fn duplicate(&self) -> (r: Entity)
        ensures
            r.equiv(*self),
            r.attributes@ == self.attributes@,
    {
        let mut attributes: Vec<Attribute> = Vec::new();
        let n: usize = self.attributes.len();
        for j in 0..n
            invariant
                n == self.attributes@.len(),
                attributes@ =~= self.attributes@.take(j as int),
        {
            attributes.push(self.attributes[j]);
        }
        proof {
            assert(attributes@ =~= self.attributes@);
        }
        Entity {
            id: self.id,
            attributes,
            plasticity: self.plasticity,
            influence: self.influence,
            n_interactions: self.n_interactions,
        }
    }
}

} // verus!
