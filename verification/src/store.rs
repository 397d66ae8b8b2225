//! The double-buffered population: `current` is read during a tick, `next`
//! is written, and a commit makes `next` authoritative at the tick boundary.

use vstd::prelude::*;

use crate::config::Config;
use crate::entity::Entity;
use vstd::pervasive::VecAdditionalExecFns;

verus! {

/// Spawns the initial population: entity `i` gets id `i`, attributes from
/// the configured domain, plasticity and influence from their ranges.
pub fn generate_initial_state(cfg: &Config, rng: &mut rand::rngs::StdRng) -> (state: Vec<Entity>)
    requires
        cfg.valid(),
    ensures
        state@.len() == cfg.n_beings,
        forall|i: int|
            0 <= i < state@.len() ==> (#[trigger] state@[i]).wf(*cfg) && state@[i].id == i
                && state@[i].n_interactions == 0,
        forall|i: int|
            0 <= i < state@.len() ==> cfg.plasticity_min <= (#[trigger] state@[i]).plasticity
                < cfg.plasticity_max && cfg.influence_min <= state@[i].influence
                < cfg.influence_max,
        forall|i: int, j: int|
            0 <= i < state@.len() && 0 <= j < state@[i].attrs().len()
                ==> cfg.attribute_domain_low as int <= #[trigger] state@[i].attrs()[j]
                <= cfg.attribute_domain_high as int,
{
    let mut state: Vec<Entity> = Vec::new();
    let n: usize = cfg.n_beings;
    for i in 0..n
        invariant
            cfg.valid(),
            state@.len() == i,
            forall|k: int|
                0 <= k < i ==> (#[trigger] state@[k]).wf(*cfg) && state@[k].id == k
                    && state@[k].n_interactions == 0,
            forall|k: int|
                0 <= k < i ==> cfg.plasticity_min <= (#[trigger] state@[k]).plasticity
                    < cfg.plasticity_max && cfg.influence_min <= state@[k].influence
                    < cfg.influence_max,
            forall|k: int, j: int|
                0 <= k < i && 0 <= j < state@[k].attrs().len() ==> cfg.attribute_domain_low as int
                    <= #[trigger] state@[k].attrs()[j] <= cfg.attribute_domain_high as int,
    {
        state.push(Entity::with_id(i, cfg, rng));
    }
    state
}

/// The double-buffered population.
pub struct EntityStore {
    /// The authoritative population; read-only during a tick.
    pub current: Vec<Entity>,
    /// The population being built; write-only during a tick.
    pub next: Vec<Entity>,
}

impl EntityStore {
    /// The buffer invariant: both buffers hold `n_beings` well-formed
    /// entities, indexed identically by id.
    pub open spec fn wf(self, cfg: Config) -> bool {
        &&& self.current@.len() == cfg.n_beings
        &&& self.next@.len() == cfg.n_beings
        &&& forall|i: int|
            0 <= i < cfg.n_beings ==> (#[trigger] self.current@[i]).wf(cfg)
                && self.current@[i].id == i
        &&& forall|i: int|
            0 <= i < cfg.n_beings ==> (#[trigger] self.next@[i]).wf(cfg) && self.next@[i].id == i
    }

    /// At a tick boundary the two buffers hold the same data, so the next
    /// tick's writers start from consistent values.
    pub open spec fn synced(self) -> bool {
        &&& self.current@.len() == self.next@.len()
        &&& forall|i: int|
            0 <= i < self.current@.len() ==> (#[trigger] self.current@[i]).equiv(self.next@[i])
    }

    /// Builds the store at spawn: a fresh population mirrored into the next
    /// buffer.
    pub fn spawn(cfg: &Config, rng: &mut rand::rngs::StdRng) -> (s: EntityStore)
        requires
            cfg.valid(),
        ensures
            s.wf(*cfg),
            s.synced(),
            forall|i: int|
                0 <= i < s.current@.len() ==> (#[trigger] s.current@[i]).n_interactions == 0,
            forall|i: int|
                0 <= i < s.current@.len() ==> cfg.plasticity_min <= (
                #[trigger] s.current@[i]).plasticity < cfg.plasticity_max && cfg.influence_min
                    <= s.current@[i].influence < cfg.influence_max,
            forall|i: int, j: int|
                0 <= i < s.current@.len() && 0 <= j < s.current@[i].attrs().len()
                    ==> cfg.attribute_domain_low as int <= #[trigger] s.current@[i].attrs()[j]
                    <= cfg.attribute_domain_high as int,
    {
        let current: Vec<Entity> = generate_initial_state(cfg, rng);
        let mut next: Vec<Entity> = Vec::new();
        let n: usize = current.len();
        for i in 0..n
            invariant
                n == current@.len(),
                next@.len() == i,
                forall|k: int| 0 <= k < i ==> (#[trigger] next@[k]).equiv(current@[k]),
                forall|k: int|
                    0 <= k < i ==> (#[trigger] next@[k]).attributes@ == current@[k].attributes@,
        {
            next.push(current[i].duplicate());
        }
        EntityStore { current, next }
    }

    /// The tick-boundary commit: the next buffer's values become
    /// authoritative, and the buffers are consistent again.
    pub fn commit(&mut self, cfg: &Config)
        requires
            old(self).wf(*cfg),
        ensures
            final(self).wf(*cfg),
            final(self).synced(),
            final(self).next@ == old(self).next@,
            forall|i: int|
                0 <= i < cfg.n_beings ==> (#[trigger] final(self).current@[i]).equiv(
                    old(self).next@[i],
                ),
    {
        let n: usize = self.next.len();
        for i in 0..n
            invariant
                n == cfg.n_beings,
                self.wf(*cfg),
                self.next@ == old(self).next@,
                forall|k: int|
                    0 <= k < i ==> (#[trigger] self.current@[k]).equiv(self.next@[k]),
        {
            let e: Entity = self.next[i].duplicate();
            self.current.set(i, e);
        }
    }
}

} // verus!
