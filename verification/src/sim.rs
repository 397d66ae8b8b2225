//! The simulation loop: spawn, then per tick grouping, interaction,
//! mutation and the buffer commit, for exactly `total_cycles` ticks.

use vstd::prelude::*;

use crate::config::{Config, ConfigError};
use crate::entity::Entity;
use crate::fitness::{fitness_of, is_solved};
use crate::grouping::{bumped, form_groups, groups_wf, inc_sat, selected_in};
use crate::interact::{adjusted_attrs, evaluate_group, lemma_solved_entity_never_moves};
use crate::mutate::mutate;
use crate::rng::rng_from_seed;
use crate::store::EntityStore;

verus! {

/// One tick: form disjoint groups, evaluate every group, mutate, commit.
/// Returns the groups that interacted this tick.
///
/// The contract carries the per-tick guarantees: the buffer invariant and
/// the boundary sync are preserved; the groups are pairwise disjoint,
/// duplicate-free subsets of the population, and at least one nonempty
/// group forms whenever the population and the configured group count allow
/// one; no entity changes identity; an entity's interaction counter is
/// bumped exactly when it was selected; a solved entity's attributes
/// survive the tick whether or not it was selected; and on a population too
/// small for mutation the committed attributes are exactly the interaction
/// engine's output.
pub fn tick(store: &mut EntityStore, cfg: &Config, rng: &mut rand::rngs::StdRng) -> (groups: Vec<
    Vec<usize>,
>)
    requires
        old(store).wf(*cfg),
        old(store).synced(),
        cfg.valid(),
    ensures
        final(store).wf(*cfg),
        final(store).synced(),
        groups_wf(groups@, cfg.n_beings as int, cfg.entities_per_encounter_max as int),
        groups@.len() < cfg.encounters_per_tick_max,
        cfg.n_beings > 0 && cfg.encounters_per_tick_min > 0 ==> groups@.len() >= 1
            && groups@[0]@.len() >= vstd::math::min(
            cfg.entities_per_encounter_min as int,
            cfg.n_beings as int,
        ),
        forall|i: int|
            0 <= i < cfg.n_beings && is_solved(old(store).current@[i].attrs(), *cfg)
                ==> (#[trigger] final(store).current@[i]).attrs() == old(store).current@[i].attrs(),
        cfg.n_beings < 10 ==> forall|g: int, m: int|
            0 <= g < groups@.len() && 0 <= m < groups@[g]@.len() ==> (#[trigger] final(store).current@[groups@[g]@[m] as int]).attrs() == adjusted_attrs(
                old(store).current@,
                groups@[g]@,
                groups@[g]@[m] as int,
                *cfg,
            ),
        cfg.n_beings < 10 ==> forall|i: int|
            0 <= i < cfg.n_beings && !selected_in(groups@, i as usize) ==> (#[trigger] final(store).current@[i]).equiv(old(store).current@[i]),
        forall|i: int|
            0 <= i < cfg.n_beings ==> (#[trigger] final(store).current@[i]).same_identity(
                old(store).current@[i],
            ),
        forall|i: int|
            0 <= i < cfg.n_beings && selected_in(groups@, i as usize) ==> (#[trigger] final(store).current@[i]).n_interactions as int == inc_sat(
                old(store).current@[i].n_interactions as int,
            ),
        forall|i: int|
            0 <= i < cfg.n_beings && !selected_in(groups@, i as usize) ==> (#[trigger] final(store).current@[i]).n_interactions == old(store).current@[i].n_interactions,
        forall|i: int|
            0 <= i < cfg.n_beings && !selected_in(groups@, i as usize) && is_solved(
                old(store).current@[i].attrs(),
                *cfg,
            ) ==> (#[trigger] final(store).current@[i]).equiv(old(store).current@[i]),
{
    let ghost s0 = *store;
    let groups: Vec<Vec<usize>> = form_groups(store, cfg, rng);
    let ghost s1 = *store;
    proof {
        assert forall|i: int|
            0 <= i < cfg.n_beings implies (#[trigger] s1.next@[i]).attrs()
            == s1.current@[i].attrs() by {
            if selected_in(groups@, i as usize) {
                assert(bumped(s1.next@[i], s0.next@[i]));
            } else {
                assert(s1.next@[i].equiv(s0.next@[i]));
            }
            assert(s0.current@[i].equiv(s0.next@[i]));
        }
    }
    let n_groups: usize = groups.len();
    for gi in 0..n_groups
        invariant
            cfg.valid(),
            n_groups == groups@.len(),
            groups_wf(groups@, cfg.n_beings as int, cfg.entities_per_encounter_max as int),
            store.wf(*cfg),
            store.current@ == s1.current@,
            s1.next@.len() == cfg.n_beings,
            forall|i: int|
                0 <= i < cfg.n_beings ==> (#[trigger] store.next@[i]).same_identity(s1.next@[i])
                    && store.next@[i].n_interactions == s1.next@[i].n_interactions,
            forall|i: int|
                0 <= i < cfg.n_beings && !selected_in(groups@, i as usize) ==> (
                #[trigger] store.next@[i]).equiv(s1.next@[i]),
            s1.current@ == s0.current@,
            s1.current@.len() == cfg.n_beings,
            forall|i: int|
                0 <= i < cfg.n_beings && is_solved(s1.current@[i].attrs(), *cfg) ==> (
                #[trigger] store.next@[i]).attrs() == s1.current@[i].attrs(),
            forall|h: int, m: int|
                0 <= h < gi && 0 <= m < groups@[h]@.len() ==> (
                #[trigger] store.next@[groups@[h]@[m] as int]).attrs() == adjusted_attrs(
                    s1.current@,
                    groups@[h]@,
                    groups@[h]@[m] as int,
                    *cfg,
                ),
    {
        let group: &Vec<usize> = &groups[gi];
        proof {
            assert(groups@[gi as int] == *group);
        }
        let ghost pre = *store;
        evaluate_group(store, cfg, group);
        proof {
            assert forall|i: int|
                0 <= i < cfg.n_beings implies (#[trigger] store.next@[i]).same_identity(
                s1.next@[i],
            ) && store.next@[i].n_interactions == s1.next@[i].n_interactions by {
                if group@.contains(i as usize) {
                    let m = choose|m: int| 0 <= m < group@.len() && group@[m] == i as usize;
                    assert(store.next@[group@[m] as int].same_identity(pre.next@[group@[m] as int]));
                } else {
                    assert(store.next@[i].equiv(pre.next@[i]));
                }
            }
            assert forall|i: int|
                0 <= i < cfg.n_beings && !selected_in(groups@, i as usize) implies (
            #[trigger] store.next@[i]).equiv(s1.next@[i]) by {
                assert(!group@.contains(i as usize)) by {
                    if group@.contains(i as usize) {
                        assert(selected_in(groups@, i as usize));
                    }
                }
                assert(store.next@[i].equiv(pre.next@[i]));
            }
            assert forall|i: int|
                0 <= i < cfg.n_beings && is_solved(s1.current@[i].attrs(), *cfg) implies (
            #[trigger] store.next@[i]).attrs() == s1.current@[i].attrs() by {
                if group@.contains(i as usize) {
                    let m = choose|m: int| 0 <= m < group@.len() && group@[m] == i as usize;
                    assert(store.next@[group@[m] as int].attrs() == adjusted_attrs(
                        pre.current@,
                        group@,
                        group@[m] as int,
                        *cfg,
                    ));
                    lemma_solved_entity_never_moves(pre.current@, group@, i, *cfg);
                } else {
                    assert(store.next@[i].equiv(pre.next@[i]));
                }
            }
            assert forall|h: int, m: int|
                0 <= h < gi + 1 && 0 <= m < groups@[h]@.len() implies (
            #[trigger] store.next@[groups@[h]@[m] as int]).attrs() == adjusted_attrs(
                s1.current@,
                groups@[h]@,
                groups@[h]@[m] as int,
                *cfg,
            ) by {
                let i = groups@[h]@[m] as int;
                assert(groups@[h]@.contains(groups@[h]@[m]));
                if h == gi as int {
                    assert(store.next@[group@[m] as int].attrs() == adjusted_attrs(
                        pre.current@,
                        group@,
                        group@[m] as int,
                        *cfg,
                    ));
                } else {
                    assert(!group@.contains(groups@[h]@[m])) by {
                        if group@.contains(groups@[h]@[m]) {
                            assert(groups@[gi as int]@.contains(groups@[h]@[m]));
                        }
                    }
                    assert(store.next@[i].equiv(pre.next@[i]));
                    assert(pre.next@[i].attrs() == adjusted_attrs(
                        s1.current@,
                        groups@[h]@,
                        i,
                        *cfg,
                    ));
                }
            }
        }
    }
    let ghost s2 = *store;
    mutate(store, cfg, rng);
    let ghost s3 = *store;
    store.commit(cfg);
    proof {
        assert forall|i: int|
            0 <= i < cfg.n_beings implies (#[trigger] final(store).current@[i]).same_identity(
            old(store).current@[i],
        ) by {
            assert(store.current@[i].equiv(s3.next@[i]));
            assert(s3.next@[i].same_identity(s2.next@[i]));
            assert(s2.next@[i].same_identity(s1.next@[i]));
            assert(s0.current@[i].equiv(s0.next@[i]));
            if selected_in(groups@, i as usize) {
                assert(bumped(s1.next@[i], s0.next@[i]));
            } else {
                assert(s1.next@[i].equiv(s0.next@[i]));
            }
        }
        assert forall|i: int|
            0 <= i < cfg.n_beings && selected_in(groups@, i as usize) implies (#[trigger] final(store).current@[i]).n_interactions as int == inc_sat(
            old(store).current@[i].n_interactions as int,
        ) by {
            assert(store.current@[i].equiv(s3.next@[i]));
            assert(s3.next@[i].n_interactions == s2.next@[i].n_interactions);
            assert(s2.next@[i].n_interactions == s1.next@[i].n_interactions);
            assert(bumped(s1.next@[i], s0.next@[i]));
            assert(s0.current@[i].equiv(s0.next@[i]));
        }
        assert forall|i: int|
            0 <= i < cfg.n_beings && !selected_in(groups@, i as usize) implies (#[trigger] final(store).current@[i]).n_interactions == old(store).current@[i].n_interactions by {
            assert(store.current@[i].equiv(s3.next@[i]));
            assert(s3.next@[i].n_interactions == s2.next@[i].n_interactions);
            assert(s2.next@[i].equiv(s1.next@[i]));
            assert(s1.next@[i].equiv(s0.next@[i]));
            assert(s0.current@[i].equiv(s0.next@[i]));
        }
        assert forall|i: int|
            0 <= i < cfg.n_beings && !selected_in(groups@, i as usize) && is_solved(
                old(store).current@[i].attrs(),
                *cfg,
            ) implies (#[trigger] final(store).current@[i]).equiv(old(store).current@[i]) by {
            assert(store.current@[i].equiv(s3.next@[i]));
            assert(is_solved(s2.current@[i].attrs(), *cfg)) by {
                assert(s2.current@[i] == s0.current@[i]);
            }
            assert(s3.next@[i].equiv(s2.next@[i]));
            assert(s2.next@[i].equiv(s1.next@[i]));
            assert(s1.next@[i].equiv(s0.next@[i]));
            assert(s0.current@[i].equiv(s0.next@[i]));
        }
        assert forall|i: int|
            0 <= i < cfg.n_beings && is_solved(old(store).current@[i].attrs(), *cfg) implies (
        #[trigger] final(store).current@[i]).attrs() == old(store).current@[i].attrs() by {
            assert(is_solved(s1.current@[i].attrs(), *cfg));
            assert(s2.next@[i].attrs() == s1.current@[i].attrs());
            assert(is_solved(s2.current@[i].attrs(), *cfg)) by {
                assert(s2.current@[i] == s0.current@[i]);
            }
            assert(s3.next@[i].equiv(s2.next@[i]));
            assert(store.current@[i].equiv(s3.next@[i]));
        }
        if cfg.n_beings < 10 {
            assert(s3.next@ == s2.next@);
            assert forall|g: int, m: int|
                0 <= g < groups@.len() && 0 <= m < groups@[g]@.len() implies (#[trigger] final(store).current@[groups@[g]@[m] as int]).attrs() == adjusted_attrs(
                old(store).current@,
                groups@[g]@,
                groups@[g]@[m] as int,
                *cfg,
            ) by {
                let i = groups@[g]@[m] as int;
                assert(0 <= i < cfg.n_beings);
                assert(s2.next@[i].attrs() == adjusted_attrs(
                    s1.current@,
                    groups@[g]@,
                    i,
                    *cfg,
                ));
                assert(store.current@[i].equiv(s3.next@[i]));
            }
            assert forall|i: int|
                0 <= i < cfg.n_beings && !selected_in(groups@, i as usize) implies (
            #[trigger] final(store).current@[i]).equiv(old(store).current@[i]) by {
                assert(s2.next@[i].equiv(s1.next@[i]));
                assert(s1.next@[i].equiv(s0.next@[i]));
                assert(s0.current@[i].equiv(s0.next@[i]));
                assert(store.current@[i].equiv(s3.next@[i]));
            }
        }
    }
    groups
}

/// Whether tick `t` is a reporting tick: the first tick, the final tick,
/// and every `state_dump_frequency`-th tick in between.
pub open spec fn dump_due(t: int, freq: int, total: int) -> bool {
    t == 0 || t == total || (freq != 0 && t % freq == 0)
}

/// Decides whether a snapshot is due at tick `t`.
pub fn should_dump(t: u64, cfg: &Config) -> (r: bool)
    ensures
        r == dump_due(t as int, cfg.state_dump_frequency as int, cfg.total_cycles as int),
{
    t == 0 || t == cfg.total_cycles || (cfg.state_dump_frequency != 0 && t
        % cfg.state_dump_frequency == 0)
}

/// How many entities of the buffer are solved.
pub open spec fn count_solved(buf: Seq<Entity>, cfg: Config) -> int
    decreases buf.len(),
{
    if buf.len() == 0 {
        0
    } else {
        count_solved(buf.drop_last(), cfg) + if is_solved(buf.last().attrs(), cfg) {
            1int
        } else {
            0int
        }
    }
}

/// The count never exceeds the buffer's length.
pub proof fn lemma_count_solved_le_len(buf: Seq<Entity>, cfg: Config)
    ensures
        0 <= count_solved(buf, cfg) <= buf.len(),
    decreases buf.len(),
{
    if buf.len() > 0 {
        lemma_count_solved_le_len(buf.drop_last(), cfg);
    }
}

/// Counts the entities whose fitness has reached the success sentinel.
pub fn count_successful(state: &Vec<Entity>, cfg: &Config) -> (r: usize)
    ensures
        r as int == count_solved(state@, *cfg),
{
    let mut count: usize = 0;
    let n: usize = state.len();
    for i in 0..n
        invariant
            n == state@.len(),
            count as int == count_solved(state@.take(i as int), *cfg),
            count <= i,
    {
        proof {
            let prefix = state@.take(i as int + 1);
            assert(prefix.drop_last() =~= state@.take(i as int));
            assert(prefix.last() == state@[i as int]);
        }
        let member: Entity = state[i].duplicate();
        let f: i128 = fitness_of(&member.attributes, cfg);
        if f >= 0 {
            count = count + 1;
        }
    }
    proof {
        assert(state@.take(n as int) =~= state@);
    }
    count
}

/// Runs a whole simulation: validates the configuration, spawns the
/// population from the seeded generator, and runs exactly `total_cycles`
/// ticks. Returns the final store, or the first configuration fault.
pub fn run_simulation(cfg: &Config, seed: u64) -> (r: Result<EntityStore, ConfigError>)
    ensures
        r is Ok <==> cfg.valid(),
        cfg.valid() ==> (r matches Ok(s) && s.wf(*cfg) && s.synced()),
        cfg.valid() && cfg.n_beings > 0 && cfg.encounters_per_tick_min > 0 && cfg.total_cycles > 0
            ==> (r matches Ok(s) && exists|i: int|
            0 <= i < cfg.n_beings && (#[trigger] s.current@[i]).n_interactions >= 1),
        !cfg.valid() ==> r == Err::<EntityStore, ConfigError>(cfg.spec_validate()->Err_0),
{
    match cfg.validate() {
        Err(e) => Err(e),
        Ok(()) => {
            let mut rng: rand::rngs::StdRng = rng_from_seed(seed);
            let mut store: EntityStore = EntityStore::spawn(cfg, &mut rng);
            let mut t: u64 = 0;
            while t < cfg.total_cycles
                invariant
                    cfg.valid(),
                    store.wf(*cfg),
                    store.synced(),
                    t <= cfg.total_cycles,
                    t == 0 ==> forall|i: int|
                        0 <= i < cfg.n_beings ==> (#[trigger] store.current@[i]).n_interactions
                            == 0,
                    t > 0 && cfg.n_beings > 0 && cfg.encounters_per_tick_min > 0 ==> exists|i: int|
                        0 <= i < cfg.n_beings && (#[trigger] store.current@[i]).n_interactions
                            >= 1,
                decreases cfg.total_cycles - t,
            {
                let ghost pre = store;
                let groups: Vec<Vec<usize>> = tick(&mut store, cfg, &mut rng);
                proof {
                    if cfg.n_beings > 0 && cfg.encounters_per_tick_min > 0 {
                        if t == 0 {
                            assert(groups@.len() >= 1);
                            assert(groups@[0]@.len() >= 1);
                            let i0 = groups@[0]@[0];
                            assert(groups@[0]@.contains(i0));
                            assert(selected_in(groups@, i0));
                            assert(i0 < cfg.n_beings);
                            assert(pre.current@[i0 as int].n_interactions == 0);
                            assert(store.current@[i0 as int].n_interactions as int == inc_sat(0));
                            assert(store.current@[i0 as int].n_interactions >= 1);
                        } else {
                            let w = choose|i: int|
                                0 <= i < cfg.n_beings && (#[trigger] pre.current@[i]).n_interactions
                                    >= 1;
                            if selected_in(groups@, w as usize) {
                                assert(store.current@[w].n_interactions as int == inc_sat(
                                    pre.current@[w].n_interactions as int,
                                ));
                            } else {
                                assert(store.current@[w].n_interactions
                                    == pre.current@[w].n_interactions);
                            }
                            assert(store.current@[w].n_interactions >= 1);
                        }
                    }
                }
                t = t + 1;
            }
            Ok(store)
        },
    }
}

} // verus!
