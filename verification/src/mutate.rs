//! The mutation engine: after interactions, a bounded random subset of
//! not-yet-successful entities gets one attribute nudged by a bounded
//! random delta.

use vstd::prelude::*;

use crate::arith::{sat64, sat_add64};
use crate::attribute::{attrs_view, Attribute};
use crate::config::Config;
use crate::entity::Entity;
use crate::fitness::{fitness_of, is_solved};
use crate::rng::{draw_i64_inclusive, draw_usize};
use crate::store::EntityStore;
use vstd::pervasive::VecAdditionalExecFns;

verus! {

/// `a` is `b` with at most its attribute values changed, the vector length
/// kept.
pub open spec fn same_but_attrs(a: Entity, b: Entity) -> bool {
    &&& a.same_identity(b)
    &&& a.n_interactions == b.n_interactions
    &&& a.attributes@.len() == b.attributes@.len()
}

/// The deterministic core of one mutation: given an already drawn entity
/// index, attribute position and delta, adds the delta to that position of
/// the next buffer (saturating at the machine range) — unless the entity is
/// already solved against the current buffer, in which case nothing at all
/// changes, locking in successful configurations.
pub fn apply_mutation(store: &mut EntityStore, cfg: &Config, idx: usize, j: usize, delta: i64)
    requires
        old(store).wf(*cfg),
        cfg.valid(),
        idx < cfg.n_beings,
        j < cfg.n_being_attributes,
    ensures
        final(store).wf(*cfg),
        final(store).current@ == old(store).current@,
        is_solved(old(store).current@[idx as int].attrs(), *cfg) ==> final(store).next@ == old(
            store,
        ).next@,
        !is_solved(old(store).current@[idx as int].attrs(), *cfg) ==> {
            &&& forall|i: int|
                0 <= i < cfg.n_beings && i != idx as int ==> final(store).next@[i] == old(
                    store,
                ).next@[i]
            &&& final(store).next@[idx as int].same_identity(old(store).next@[idx as int])
            &&& final(store).next@[idx as int].n_interactions == old(
                store,
            ).next@[idx as int].n_interactions
            &&& final(store).next@[idx as int].attrs() == old(
                store,
            ).next@[idx as int].attrs().update(
                j as int,
                sat64(old(store).next@[idx as int].attrs()[j as int] + delta),
            )
        },
{
    let member: Entity = store.current[idx].duplicate();
    let current_fitness: i128 = fitness_of(&member.attributes, cfg);
    if current_fitness < 0 {
        let e: Entity = store.next[idx].duplicate();
        let old_v: i64 = e.attributes[j].value;
        let new_v: i64 = sat_add64(old_v, delta);
        let mut attributes: Vec<Attribute> = e.attributes;
        attributes.set(j, Attribute::new(new_v));
        let mutated: Entity = Entity {
            id: e.id,
            attributes,
            plasticity: e.plasticity,
            influence: e.influence,
            n_interactions: e.n_interactions,
        };
        proof {
            assert(attrs_view(mutated.attributes@) =~= old(store).next@[idx as int].attrs().update(
                j as int,
                sat64(old(store).next@[idx as int].attrs()[j as int] + delta),
            ));
        }
        store.next.set(idx, mutated);
    }
}

/// Mutates the population: draws `n_mutations` from `[0, n_beings / 10)`
/// (zero when that interval is empty), and for each draw picks a uniformly
/// random entity — the same entity may be drawn more than once. An entity
/// still unsolved against the current buffer gets a delta drawn from
/// `[-mutation_epsilon, +mutation_epsilon]` added to one random attribute
/// position in the next buffer; solved entities are left untouched.
pub fn mutate(store: &mut EntityStore, cfg: &Config, rng: &mut rand::rngs::StdRng)
    requires
        old(store).wf(*cfg),
        cfg.valid(),
    ensures
        final(store).wf(*cfg),
        final(store).current@ == old(store).current@,
        forall|i: int|
            0 <= i < cfg.n_beings ==> same_but_attrs(
                #[trigger] final(store).next@[i],
                old(store).next@[i],
            ),
        forall|i: int|
            0 <= i < cfg.n_beings && is_solved(old(store).current@[i].attrs(), *cfg) ==> (
            #[trigger] final(store).next@[i]).equiv(old(store).next@[i]),
        cfg.n_beings < 10 ==> final(store).next@ == old(store).next@,
{
    let bound: usize = cfg.n_beings / 10;
    if bound == 0 {
        return ;
    }
    let n_mutations: usize = draw_usize(rng, 0, bound);
    let mut k: usize = 0;
    while k < n_mutations
        invariant
            cfg.valid(),
            cfg.n_beings >= 10,
            store.wf(*cfg),
            store.current@ == old(store).current@,
            forall|i: int|
                0 <= i < cfg.n_beings ==> same_but_attrs(
                    #[trigger] store.next@[i],
                    old(store).next@[i],
                ),
            forall|i: int|
                0 <= i < cfg.n_beings && is_solved(old(store).current@[i].attrs(), *cfg) ==> (
                #[trigger] store.next@[i]).equiv(old(store).next@[i]),
        decreases n_mutations - k,
    {
        let idx: usize = draw_usize(rng, 0, cfg.n_beings);
        let member: Entity = store.current[idx].duplicate();
        let current_fitness: i128 = fitness_of(&member.attributes, cfg);
        if current_fitness < 0 && cfg.n_being_attributes > 0 {
            let j: usize = draw_usize(rng, 0, cfg.n_being_attributes);
            let delta: i64 = draw_i64_inclusive(rng, -cfg.mutation_epsilon, cfg.mutation_epsilon);
            let ghost pre = *store;
            apply_mutation(store, cfg, idx, j, delta);
            proof {
                assert(!is_solved(pre.current@[idx as int].attrs(), *cfg));
                assert forall|i: int|
                    0 <= i < cfg.n_beings implies same_but_attrs(
                    #[trigger] store.next@[i],
                    old(store).next@[i],
                ) by {
                    if i != idx as int {
                        assert(store.next@[i] == pre.next@[i]);
                    }
                }
                assert forall|i: int|
                    0 <= i < cfg.n_beings && is_solved(old(store).current@[i].attrs(), *cfg)
                        implies (#[trigger] store.next@[i]).equiv(old(store).next@[i]) by {
                    if i != idx as int {
                        assert(store.next@[i] == pre.next@[i]);
                    }
                }
            }
        }
        k = k + 1;
    }
}

} // verus!
