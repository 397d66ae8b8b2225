//! Group formation: each tick, a random subset of entity indices is
//! partitioned into disjoint groups.
//!
//! Indices are drawn without replacement across the whole tick from a pool
//! of unclaimed indices, so an index appears in at most one group per tick;
//! when fewer unclaimed indices remain than a group requests, the group is
//! truncated to the available pool instead of retrying without bound.

use vstd::prelude::*;

use crate::config::Config;
use crate::entity::Entity;
use crate::rng::draw_usize;
use crate::store::EntityStore;
use vstd::pervasive::VecAdditionalExecFns;

verus! {

/// An interaction counter after one more selection: incremented, saturating
/// at the top of its range.
pub open spec fn inc_sat(x: int) -> int {
    if x < u64::MAX as int {
        x + 1
    } else {
        x
    }
}

/// Entity index `i` is a member of one of the groups.
pub open spec fn selected_in(groups: Seq<Vec<usize>>, i: usize) -> bool {
    exists|g: int| 0 <= g < groups.len() && (#[trigger] groups[g])@.contains(i)
}

/// `a` is `b` after one selection into a group: same identity and
/// attributes, interaction counter bumped.
pub open spec fn bumped(a: Entity, b: Entity) -> bool {
    &&& a.same_identity(b)
    &&& a.attributes@ == b.attributes@
    &&& a.n_interactions as int == inc_sat(b.n_interactions as int)
}

/// Validity of a tick's grouping against a population of size `n`: every
/// group is nonempty and below the configured size bound, members are
/// in-range indices, no index repeats within a group, and the groups are
/// pairwise disjoint.
pub open spec fn groups_wf(groups: Seq<Vec<usize>>, n: int, size_bound: int) -> bool {
    &&& forall|g: int| 0 <= g < groups.len() ==> 1 <= (#[trigger] groups[g])@.len() < size_bound
    &&& forall|g: int, k: int|
        0 <= g < groups.len() && 0 <= k < groups[g]@.len() ==> (#[trigger] groups[g]@[k]) < n
    &&& forall|g: int| 0 <= g < groups.len() ==> (#[trigger] groups[g])@.no_duplicates()
    &&& forall|g1: int, g2: int, x: usize|
        0 <= g1 < groups.len() && 0 <= g2 < groups.len() && #[trigger] groups[g1]@.contains(x)
            && #[trigger] groups[g2]@.contains(x) ==> g1 == g2
}

/// Removing position `pos` from a duplicate-free pool by a swap with the
/// last element keeps it duplicate-free and removes exactly `s[pos]`.
proof fn lemma_pool_remove(s: Seq<usize>, pos: int)
    requires
        0 <= pos < s.len(),
        s.no_duplicates(),
    ensures
        s.update(pos, s.last()).drop_last().no_duplicates(),
        s.update(pos, s.last()).drop_last().len() == s.len() - 1,
        forall|x: usize|
            #[trigger] s.update(pos, s.last()).drop_last().contains(x) <==> (s.contains(x) && x
                != s[pos]),
{
    let t = s.update(pos, s.last()).drop_last();
    assert(t.len() == s.len() - 1);
    assert forall|j: int| 0 <= j < t.len() implies t[j] == (if j == pos {
        s.last()
    } else {
        s[j]
    }) by {}
    assert forall|j1: int, j2: int|
        0 <= j1 < t.len() && 0 <= j2 < t.len() && j1 != j2 implies t[j1] != t[j2] by {
        if j1 == pos {
            assert(t[j1] == s[s.len() - 1]);
            assert(t[j2] == s[j2]);
        } else if j2 == pos {
            assert(t[j2] == s[s.len() - 1]);
            assert(t[j1] == s[j1]);
        }
    }
    assert(t.no_duplicates());
    assert forall|x: usize| t.contains(x) implies (s.contains(x) && x != s[pos]) by {
        let j = choose|j: int| 0 <= j < t.len() && t[j] == x;
        if j == pos {
            assert(s[s.len() - 1] == x);
            assert(pos < s.len() - 1);
            assert(s.contains(x));
        } else {
            assert(s[j] == x);
            assert(s.contains(x));
        }
    }
    assert forall|x: usize| s.contains(x) && x != s[pos] implies t.contains(x) by {
        let j = choose|j: int| 0 <= j < s.len() && s[j] == x;
        if j < s.len() - 1 {
            assert(t[j] == x);
        } else {
            assert(pos < s.len() - 1);
            assert(t[pos] == x);
        }
    }
}

/// Appending a group selects exactly its members on top of what the earlier
/// groups selected.
proof fn lemma_selected_push(groups: Seq<Vec<usize>>, group: Vec<usize>, x: usize)
    ensures
        selected_in(groups.push(group), x) <==> (selected_in(groups, x) || group@.contains(x)),
{
    if selected_in(groups.push(group), x) {
        let g = choose|g: int|
            0 <= g < groups.push(group).len() && (#[trigger] groups.push(group)[g])@.contains(x);
        if g < groups.len() {
            assert(groups[g]@.contains(x));
        } else {
            assert(groups.push(group)[g] == group);
        }
    }
    if selected_in(groups, x) {
        let g = choose|g: int| 0 <= g < groups.len() && (#[trigger] groups[g])@.contains(x);
        assert(groups.push(group)[g]@.contains(x));
    }
    if group@.contains(x) {
        assert(groups.push(group)[groups.len() as int]@.contains(x));
    }
}

/// Forms this tick's groups: a drawn number of groups, each of a drawn
/// target size, filled by drawing unclaimed indices uniformly from the
/// remaining pool; a group is truncated when the pool runs out, and an empty
/// group is discarded. Every selected entity's interaction counter is bumped
/// in the next buffer; nothing else changes.
pub fn form_groups(store: &mut EntityStore, cfg: &Config, rng: &mut rand::rngs::StdRng) -> (groups:
    Vec<Vec<usize>>)
    requires
        old(store).wf(*cfg),
        cfg.valid(),
    ensures
        final(store).wf(*cfg),
        final(store).current@ == old(store).current@,
        final(store).next@.len() == old(store).next@.len(),
        groups@.len() < cfg.encounters_per_tick_max,
        groups_wf(groups@, cfg.n_beings as int, cfg.entities_per_encounter_max as int),
        cfg.n_beings > 0 && cfg.encounters_per_tick_min > 0 ==> groups@.len() >= 1
            && groups@[0]@.len() >= vstd::math::min(
            cfg.entities_per_encounter_min as int,
            cfg.n_beings as int,
        ),
        forall|i: int|
            0 <= i < cfg.n_beings && selected_in(groups@, i as usize) ==> bumped(
                #[trigger] final(store).next@[i],
                old(store).next@[i],
            ),
        forall|i: int|
            0 <= i < cfg.n_beings && !selected_in(groups@, i as usize)
                ==> (#[trigger] final(store).next@[i]).equiv(old(store).next@[i]),
{
    let n: usize = cfg.n_beings;
    let mut pool: Vec<usize> = Vec::new();
    for i in 0..n
        invariant
            pool@.len() == i,
            forall|k: int| 0 <= k < i ==> #[trigger] pool@[k] == k,
    {
        pool.push(i);
    }
    proof {
        assert(pool@.no_duplicates());
    }
    let n_groups: usize = draw_usize(
        rng,
        cfg.encounters_per_tick_min,
        cfg.encounters_per_tick_max,
    );
    let mut groups: Vec<Vec<usize>> = Vec::new();
    let mut g: usize = 0;
    while g < n_groups
        invariant
            cfg.valid(),
            n == cfg.n_beings,
            old(store).next@.len() == n,
            g <= n_groups,
            n_groups < cfg.encounters_per_tick_max,
            store.wf(*cfg),
            store.current@ == old(store).current@,
            pool@.no_duplicates(),
            forall|k: int| 0 <= k < pool@.len() ==> (#[trigger] pool@[k]) < n,
            groups@.len() <= g,
            groups_wf(groups@, n as int, cfg.entities_per_encounter_max as int),
            g == 0 ==> pool@.len() == n,
            g > 0 && n > 0 ==> groups@.len() >= 1 && groups@[0]@.len() >= vstd::math::min(
                cfg.entities_per_encounter_min as int,
                n as int,
            ),
            forall|x: usize| pool@.contains(x) ==> !selected_in(groups@, x),
            forall|i: int|
                0 <= i < n && selected_in(groups@, i as usize) ==> bumped(
                    #[trigger] store.next@[i],
                    old(store).next@[i],
                ),
            forall|i: int|
                0 <= i < n && !selected_in(groups@, i as usize) ==> (#[trigger] store.next@[i]).equiv(
                    old(store).next@[i],
                ),
        decreases n_groups - g,
    {
        let size_target: usize = draw_usize(
            rng,
            cfg.entities_per_encounter_min,
            cfg.entities_per_encounter_max,
        );
        let mut group: Vec<usize> = Vec::new();
        let ghost start_pool = pool@.len();
        while group.len() < size_target && pool.len() > 0
            invariant
                cfg.valid(),
                n == cfg.n_beings,
                old(store).next@.len() == n,
                size_target < cfg.entities_per_encounter_max,
                store.wf(*cfg),
                store.current@ == old(store).current@,
                pool@.no_duplicates(),
                forall|k: int| 0 <= k < pool@.len() ==> (#[trigger] pool@[k]) < n,
                groups_wf(groups@, n as int, cfg.entities_per_encounter_max as int),
                group@.len() <= size_target,
                group@.len() + pool@.len() == start_pool,
                group@.no_duplicates(),
                forall|k: int| 0 <= k < group@.len() ==> (#[trigger] group@[k]) < n,
                forall|x: usize| pool@.contains(x) ==> !selected_in(groups@, x),
                forall|x: usize| pool@.contains(x) ==> !group@.contains(x),
                forall|x: usize| group@.contains(x) ==> !selected_in(groups@, x),
                forall|i: int|
                    0 <= i < n && (selected_in(groups@, i as usize) || group@.contains(i as usize))
                        ==> bumped(#[trigger] store.next@[i], old(store).next@[i]),
                forall|i: int|
                    0 <= i < n && !selected_in(groups@, i as usize) && !group@.contains(i as usize)
                        ==> (#[trigger] store.next@[i]).equiv(old(store).next@[i]),
            decreases size_target - group.len(),
        {
            let pos: usize = draw_usize(rng, 0, pool.len());
            let ghost old_pool = pool@;
            let ghost pre_group = group@;
            let ghost pre_next = store.next@;
            let idx: usize = pool.swap_remove(pos);
            proof {
                lemma_pool_remove(old_pool, pos as int);
                assert(old_pool[pos as int] == idx);
                assert(old_pool.contains(idx));
                assert(idx < n);
                assert(!selected_in(groups@, idx));
                assert(!pre_group.contains(idx));
            }
            group.push(idx);
            proof {
                assert forall|x: usize| #[trigger] group@.contains(x) implies (pre_group.contains(
                    x,
                ) || x == idx) by {
                    let j = choose|j: int| 0 <= j < group@.len() && group@[j] == x;
                    if j < pre_group.len() {
                        assert(pre_group[j] == x);
                    }
                }
                assert forall|x: usize| pre_group.contains(x) implies group@.contains(x) by {
                    let j = choose|j: int| 0 <= j < pre_group.len() && pre_group[j] == x;
                    assert(group@[j] == x);
                }
                assert(group@.contains(idx)) by {
                    assert(group@[pre_group.len() as int] == idx);
                }
                assert forall|j1: int, j2: int|
                    0 <= j1 < group@.len() && 0 <= j2 < group@.len() && j1 != j2 implies group@[j1]
                    != group@[j2] by {
                    if j1 == pre_group.len() as int {
                        if group@[j2] == idx {
                            assert(pre_group[j2] == idx);
                            assert(pre_group.contains(idx));
                        }
                    } else if j2 == pre_group.len() as int {
                        if group@[j1] == idx {
                            assert(pre_group[j1] == idx);
                            assert(pre_group.contains(idx));
                        }
                    }
                }
                assert(group@.no_duplicates());
                assert forall|k: int| 0 <= k < pool@.len() implies (#[trigger] pool@[k]) < n by {
                    assert(pool@.contains(pool@[k]));
                    let j = choose|j: int| 0 <= j < old_pool.len() && old_pool[j] == pool@[k];
                }
            }
            let e: Entity = store.next[idx].duplicate();
            let counter: u64 = if e.n_interactions < u64::MAX {
                e.n_interactions + 1
            } else {
                e.n_interactions
            };
            let bumped_entity: Entity = Entity {
                id: e.id,
                attributes: e.attributes,
                plasticity: e.plasticity,
                influence: e.influence,
                n_interactions: counter,
            };
            store.next.set(idx, bumped_entity);
            proof {
                assert(pre_next[idx as int].equiv(old(store).next@[idx as int]));
                assert(bumped(store.next@[idx as int], old(store).next@[idx as int]));
                assert forall|i: int|
                    0 <= i < n && (selected_in(groups@, i as usize) || group@.contains(i as usize))
                        implies bumped(#[trigger] store.next@[i], old(store).next@[i]) by {
                    if i != idx as int {
                        assert(store.next@[i] == pre_next[i]);
                        assert(selected_in(groups@, i as usize) || pre_group.contains(i as usize));
                    }
                }
                assert forall|i: int|
                    0 <= i < n && !selected_in(groups@, i as usize) && !group@.contains(i as usize)
                        implies (#[trigger] store.next@[i]).equiv(old(store).next@[i]) by {
                    assert(i != idx as int);
                    assert(store.next@[i] == pre_next[i]);
                    assert(!pre_group.contains(i as usize));
                }
                assert forall|x: usize| #[trigger] pool@.contains(x) implies !group@.contains(
                    x,
                ) by {
                    assert(old_pool.contains(x) && x != idx);
                    assert(!pre_group.contains(x));
                }
            }
        }
        if group.len() > 0 {
            let ghost pre_groups = groups@;
            let ghost the_group = group;
            groups.push(group);
            proof {
                assert forall|x: usize| true implies (selected_in(groups@, x) <==> (selected_in(
                    pre_groups,
                    x,
                ) || the_group@.contains(x))) by {
                    lemma_selected_push(pre_groups, the_group, x);
                }
                assert(groups_wf(groups@, n as int, cfg.entities_per_encounter_max as int)) by {
                    assert forall|h: int| 0 <= h < groups@.len() implies 1 <= (
                    #[trigger] groups@[h])@.len() < cfg.entities_per_encounter_max
                        && groups@[h]@.no_duplicates() by {
                        if h < pre_groups.len() {
                            assert(groups@[h] == pre_groups[h]);
                        } else {
                            assert(groups@[h] == the_group);
                        }
                    }
                    assert forall|h: int, k: int|
                        0 <= h < groups@.len() && 0 <= k < groups@[h]@.len() implies (
                    #[trigger] groups@[h]@[k]) < n as int by {
                        if h < pre_groups.len() {
                            assert(groups@[h] == pre_groups[h]);
                        } else {
                            assert(groups@[h] == the_group);
                        }
                    }
                    assert forall|g1: int, g2: int, x: usize|
                        0 <= g1 < groups@.len() && 0 <= g2 < groups@.len()
                            && #[trigger] groups@[g1]@.contains(x)
                            && #[trigger] groups@[g2]@.contains(x) implies g1 == g2 by {
                        if g1 < pre_groups.len() && g2 < pre_groups.len() {
                            assert(pre_groups[g1]@.contains(x) && pre_groups[g2]@.contains(x));
                        } else if g1 < pre_groups.len() {
                            assert(pre_groups[g1]@.contains(x) && the_group@.contains(x));
                            assert(selected_in(pre_groups, x));
                        } else if g2 < pre_groups.len() {
                            assert(pre_groups[g2]@.contains(x) && the_group@.contains(x));
                            assert(selected_in(pre_groups, x));
                        }
                    }
                }
            }
        }
        proof {
            if g == 0 && n > 0 {
                assert(start_pool == n);
                assert(group@.len() >= size_target || pool@.len() == 0);
                assert(group@.len() >= vstd::math::min(
                    cfg.entities_per_encounter_min as int,
                    n as int,
                ));
                assert(groups@.len() >= 1);
                assert(groups@[0] == group);
            }
        }
        g = g + 1;
    }
    groups
}

} // verus!
