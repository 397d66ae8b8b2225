//! The interaction engine: within one group, members pull their attributes
//! toward a target built from the group mean, amplified by per-entity
//! influence and damped by per-entity plasticity.

use vstd::prelude::*;

use crate::arith::{abs_int, clamp_to_i64, div_trunc, lemma_tdiv_scaled_le, sat64, seq_sum, tdiv};
use crate::attribute::{attrs_view, Attribute};
use crate::config::Config;
use crate::entity::Entity;
use crate::fitness::{fitness_of, fitness_spec, is_solved, lemma_fitness_never_positive};
use crate::store::EntityStore;
use vstd::pervasive::VecAdditionalExecFns;

verus! {

/// The attribute-`j` values of the group's members, read from buffer `buf`.
pub open spec fn member_vals(buf: Seq<Entity>, group: Seq<usize>, j: int) -> Seq<int> {
    group.map_values(|idx: usize| buf[idx as int].attrs()[j])
}

/// The group's per-position average: the arithmetic mean of the members'
/// values at `j`, truncated toward zero (and clamped to the machine range,
/// which a mean of in-range values never reaches).
pub open spec fn group_avg(buf: Seq<Entity>, group: Seq<usize>, j: int) -> int {
    sat64(tdiv(seq_sum(member_vals(buf, group, j)), group.len() as int))
}

/// A member's contribution to the target at one position: its deviation
/// from the average, scaled by its per-mille influence, pushing the target
/// further out on the side of the deviation.
pub open spec fn contribution(v: int, avg: int, infl: int) -> int {
    if v >= avg {
        tdiv((v - avg) * infl, 1000)
    } else {
        -tdiv((avg - v) * infl, 1000)
    }
}

/// The target at position `j` after the first `m` members' contributions
/// have been added to the average, each step clamped to the machine range.
pub open spec fn target_fold(buf: Seq<Entity>, group: Seq<usize>, j: int, m: int) -> int
    decreases m,
{
    if m <= 0 {
        group_avg(buf, group, j)
    } else {
        sat64(
            target_fold(buf, group, j, m - 1) + contribution(
                buf[group[m - 1] as int].attrs()[j],
                group_avg(buf, group, j),
                buf[group[m - 1] as int].influence as int,
            ),
        )
    }
}

/// The group's target at position `j`: the average plus every member's
/// influence-scaled deviation.
pub open spec fn group_target(buf: Seq<Entity>, group: Seq<usize>, j: int) -> int {
    target_fold(buf, group, j, group.len() as int)
}

/// The whole target vector of a group.
pub open spec fn target_vals(buf: Seq<Entity>, group: Seq<usize>, n_attrs: int) -> Seq<int> {
    Seq::new(n_attrs as nat, |j: int| group_target(buf, group, j))
}

/// One step from `cur` toward `tgt`, closing the per-mille fraction
/// `plast` of the gap; an equal value stays put.
pub open spec fn move_toward(cur: int, tgt: int, plast: int) -> int {
    if cur < tgt {
        cur + tdiv((tgt - cur) * plast, 1000)
    } else if cur > tgt {
        cur - tdiv((cur - tgt) * plast, 1000)
    } else {
        cur
    }
}

/// The attributes entity `i` holds after its group evaluates: pulled toward
/// the target only if the target is strictly fitter than the member,
/// otherwise unchanged.
pub open spec fn adjusted_attrs(buf: Seq<Entity>, group: Seq<usize>, i: int, cfg: Config) -> Seq<
    int,
> {
    let tgt = target_vals(buf, group, cfg.n_being_attributes as int);
    let e = buf[i];
    if fitness_spec(tgt, cfg) > fitness_spec(e.attrs(), cfg) {
        Seq::new(e.attrs().len(), |j: int| move_toward(e.attrs()[j], tgt[j], e.plasticity as int))
    } else {
        e.attrs()
    }
}

/// Index `x` occurs among the first `m` members of the group.
pub open spec fn in_prefix(group: Seq<usize>, m: int, x: usize) -> bool {
    exists|k: int| 0 <= k < m && group[k] == x
}

/// Evaluates one group: computes the per-position average and the
/// influence-amplified target from the current buffer, then writes each
/// member's adjusted attributes into the next buffer. Only the group's
/// indices are written, and only their attributes.
pub fn evaluate_group(store: &mut EntityStore, cfg: &Config, group: &Vec<usize>)
    requires
        old(store).wf(*cfg),
        cfg.valid(),
        group@.len() >= 1,
        group@.no_duplicates(),
        forall|k: int| 0 <= k < group@.len() ==> (#[trigger] group@[k]) < cfg.n_beings,
    ensures
        final(store).wf(*cfg),
        final(store).current@ == old(store).current@,
        forall|m: int|
            0 <= m < group@.len() ==> {
                let i = #[trigger] group@[m] as int;
                &&& final(store).next@[i].same_identity(old(store).next@[i])
                &&& final(store).next@[i].n_interactions == old(store).next@[i].n_interactions
                &&& final(store).next@[i].attrs() == adjusted_attrs(
                    old(store).current@,
                    group@,
                    i,
                    *cfg,
                )
            },
        forall|i: int|
            0 <= i < cfg.n_beings && !group@.contains(i as usize)
                ==> (#[trigger] final(store).next@[i]).equiv(old(store).next@[i]),
{
    let glen: usize = group.len();
    let n_attrs: usize = cfg.n_being_attributes;
    let ghost cur = store.current@;

    // Per-position averages across the group.
    let mut avgs: Vec<i64> = Vec::new();
    for j in 0..n_attrs
        invariant
            store == old(store),
            store.wf(*cfg),
            cfg.valid(),
            cur == store.current@,
            glen == group@.len(),
            1 <= glen,
            n_attrs == cfg.n_being_attributes,
            forall|k: int| 0 <= k < group@.len() ==> (#[trigger] group@[k]) < cfg.n_beings,
            avgs@.len() == j,
            forall|jj: int| 0 <= jj < j ==> (#[trigger] avgs@[jj]) as int == group_avg(cur, group@, jj),
    {
        let mut acc: i128 = 0;
        for m in 0..glen
            invariant
                store == old(store),
                store.wf(*cfg),
                cfg.valid(),
                cur == store.current@,
                glen == group@.len(),
                j < n_attrs,
                n_attrs == cfg.n_being_attributes,
                forall|k: int| 0 <= k < group@.len() ==> (#[trigger] group@[k]) < cfg.n_beings,
                acc as int == seq_sum(member_vals(cur, group@, j as int).take(m as int)),
                abs_int(acc as int) <= m * 0x8000_0000_0000_0000,
        {
            let idx: usize = group[m];
            let v: i64 = store.current[idx].attributes[j].value;
            proof {
                let vals = member_vals(cur, group@, j as int);
                assert(vals.take(m as int + 1).drop_last() =~= vals.take(m as int));
                assert(vals.take(m as int + 1).last() == vals[m as int]);
                assert(vals[m as int] == cur[idx as int].attrs()[j as int]);
                assert(v as int == cur[idx as int].attrs()[j as int]);
            }
            acc = acc + v as i128;
        }
        proof {
            assert(member_vals(cur, group@, j as int).take(glen as int) =~= member_vals(
                cur,
                group@,
                j as int,
            ));
        }
        let d: i128 = div_trunc(acc, glen as u64);
        avgs.push(clamp_to_i64(d));
    }

    // Per-position targets: the average plus each member's influence-scaled
    // deviation.
    let mut targets: Vec<i64> = Vec::new();
    for j in 0..n_attrs
        invariant
            store == old(store),
            store.wf(*cfg),
            cfg.valid(),
            cur == store.current@,
            glen == group@.len(),
            1 <= glen,
            n_attrs == cfg.n_being_attributes,
            forall|k: int| 0 <= k < group@.len() ==> (#[trigger] group@[k]) < cfg.n_beings,
            avgs@.len() == n_attrs,
            forall|jj: int|
                0 <= jj < n_attrs ==> (#[trigger] avgs@[jj]) as int == group_avg(cur, group@, jj),
            targets@.len() == j,
            forall|jj: int|
                0 <= jj < j ==> (#[trigger] targets@[jj]) as int == group_target(cur, group@, jj),
    {
        let avg: i64 = avgs[j];
        let mut acc: i64 = avg;
        for m in 0..glen
            invariant
                store == old(store),
                store.wf(*cfg),
                cfg.valid(),
                cur == store.current@,
                glen == group@.len(),
                j < n_attrs,
                n_attrs == cfg.n_being_attributes,
                forall|k: int| 0 <= k < group@.len() ==> (#[trigger] group@[k]) < cfg.n_beings,
                avg as int == group_avg(cur, group@, j as int),
                acc as int == target_fold(cur, group@, j as int, m as int),
        {
            let idx: usize = group[m];
            let v: i64 = store.current[idx].attributes[j].value;
            let infl: u32 = store.current[idx].influence;
            proof {
                assert(v as int == cur[idx as int].attrs()[j as int]);
            }
            let c: i128 = if v >= avg {
                let dev: i128 = v as i128 - avg as i128;
                proof {
                    vstd::arithmetic::mul::lemma_mul_nonnegative(dev as int, infl as int);
                    vstd::arithmetic::mul::lemma_mul_inequality(
                        dev as int,
                        0x2_0000_0000_0000_0000,
                        infl as int,
                    );
                }
                div_trunc(dev * infl as i128, 1000)
            } else {
                let dev: i128 = avg as i128 - v as i128;
                proof {
                    vstd::arithmetic::mul::lemma_mul_nonnegative(dev as int, infl as int);
                    vstd::arithmetic::mul::lemma_mul_inequality(
                        dev as int,
                        0x2_0000_0000_0000_0000,
                        infl as int,
                    );
                }
                -div_trunc(dev * infl as i128, 1000)
            };
            proof {
                assert(c as int == contribution(
                    cur[idx as int].attrs()[j as int],
                    group_avg(cur, group@, j as int),
                    infl as int,
                ));
            }
            acc = clamp_to_i64(acc as i128 + c);
        }
        targets.push(acc);
    }

    // The ephemeral synthetic target entity exists only as this attribute
    // vector; it never joins the population.
    let mut target_attrs: Vec<Attribute> = Vec::new();
    for j in 0..n_attrs
        invariant
            targets@.len() == n_attrs,
            target_attrs@.len() == j,
            forall|jj: int|
                0 <= jj < j ==> (#[trigger] target_attrs@[jj]).value == targets@[jj],
    {
        target_attrs.push(Attribute::new(targets[j]));
    }
    proof {
        assert(attrs_view(target_attrs@) =~= target_vals(cur, group@, n_attrs as int));
    }
    let tf: i128 = fitness_of(&target_attrs, cfg);

    // Move each member toward the target, but only if the target is
    // strictly fitter; write the result into the next buffer.
    let ghost pre_next = store.next@;
    for m in 0..glen
        invariant
            cfg.valid(),
            cur == store.current@,
            cur == old(store).current@,
            pre_next == old(store).next@,
            store.wf(*cfg),
            glen == group@.len(),
            1 <= glen,
            n_attrs == cfg.n_being_attributes,
            group@.no_duplicates(),
            forall|k: int| 0 <= k < group@.len() ==> (#[trigger] group@[k]) < cfg.n_beings,
            targets@.len() == n_attrs,
            forall|jj: int|
                0 <= jj < n_attrs ==> (#[trigger] targets@[jj]) as int == group_target(
                    cur,
                    group@,
                    jj,
                ),
            tf as int == fitness_spec(target_vals(cur, group@, n_attrs as int), *cfg),
            forall|mm: int|
                0 <= mm < m ==> {
                    let i = #[trigger] group@[mm] as int;
                    &&& store.next@[i].same_identity(pre_next[i])
                    &&& store.next@[i].n_interactions == pre_next[i].n_interactions
                    &&& store.next@[i].attrs() == adjusted_attrs(cur, group@, i, *cfg)
                },
            forall|i: int|
                0 <= i < cfg.n_beings && !in_prefix(group@, m as int, i as usize) ==> (
                #[trigger] store.next@[i]).equiv(pre_next[i]),
    {
        let idx: usize = group[m];
        let member: Entity = store.current[idx].duplicate();
        let ef: i128 = fitness_of(&member.attributes, cfg);
        proof {
            assert(member.attrs() == cur[idx as int].attrs());
            assert(ef as int == fitness_spec(cur[idx as int].attrs(), *cfg));
        }
        let mut new_attrs: Vec<Attribute> = Vec::new();
        if tf > ef {
            let plast: u32 = member.plasticity;
            for j in 0..n_attrs
                invariant
                    cfg.valid(),
                    cur == store.current@,
                    n_attrs == cfg.n_being_attributes,
                    glen == group@.len(),
                    idx < cfg.n_beings,
                    idx == group@[m as int],
                    m < glen,
                    member.attrs() == cur[idx as int].attrs(),
                    member.attributes@.len() == n_attrs,
                    plast == cur[idx as int].plasticity,
                    plast < 1000,
                    targets@.len() == n_attrs,
                    forall|jj: int|
                        0 <= jj < n_attrs ==> (#[trigger] targets@[jj]) as int == group_target(
                            cur,
                            group@,
                            jj,
                        ),
                    new_attrs@.len() == j,
                    forall|jj: int|
                        0 <= jj < j ==> (#[trigger] new_attrs@[jj]).value as int == move_toward(
                            cur[idx as int].attrs()[jj],
                            group_target(cur, group@, jj),
                            plast as int,
                        ),
            {
                let cur_v: i64 = member.attributes[j].value;
                let t: i64 = targets[j];
                proof {
                    assert(cur_v as int == cur[idx as int].attrs()[j as int]);
                }
                let nv: i64 = if cur_v < t {
                    let gap: i128 = t as i128 - cur_v as i128;
                    proof {
                        vstd::arithmetic::mul::lemma_mul_nonnegative(gap as int, plast as int);
                        vstd::arithmetic::mul::lemma_mul_inequality(
                            gap as int,
                            0x2_0000_0000_0000_0000,
                            plast as int,
                        );
                    }
                    let step: i128 = div_trunc(gap * plast as i128, 1000);
                    proof {
                        lemma_tdiv_scaled_le(gap as int, plast as int, 1000);
                    }
                    clamp_to_i64(cur_v as i128 + step)
                } else if cur_v > t {
                    let gap: i128 = cur_v as i128 - t as i128;
                    proof {
                        vstd::arithmetic::mul::lemma_mul_nonnegative(gap as int, plast as int);
                        vstd::arithmetic::mul::lemma_mul_inequality(
                            gap as int,
                            0x2_0000_0000_0000_0000,
                            plast as int,
                        );
                    }
                    let step: i128 = div_trunc(gap * plast as i128, 1000);
                    proof {
                        lemma_tdiv_scaled_le(gap as int, plast as int, 1000);
                    }
                    clamp_to_i64(cur_v as i128 - step)
                } else {
                    cur_v
                };
                new_attrs.push(Attribute::new(nv));
            }
            proof {
                assert(attrs_view(new_attrs@) =~= adjusted_attrs(cur, group@, idx as int, *cfg));
            }
        } else {
            for j in 0..n_attrs
                invariant
                    cur == store.current@,
                    n_attrs == cfg.n_being_attributes,
                    idx < cfg.n_beings,
                    member.attrs() == cur[idx as int].attrs(),
                    member.attributes@.len() == n_attrs,
                    new_attrs@.len() == j,
                    forall|jj: int|
                        0 <= jj < j ==> (#[trigger] new_attrs@[jj]).value as int == cur[idx as int].attrs()[jj],
            {
                new_attrs.push(member.attributes[j]);
            }
            proof {
                assert(attrs_view(new_attrs@) =~= adjusted_attrs(cur, group@, idx as int, *cfg));
            }
        }
        let ghost step_next = store.next@;
        let old_next: Entity = store.next[idx].duplicate();
        let updated: Entity = Entity {
            id: old_next.id,
            attributes: new_attrs,
            plasticity: old_next.plasticity,
            influence: old_next.influence,
            n_interactions: old_next.n_interactions,
        };
        store.next.set(idx, updated);
        proof {
            assert(step_next[idx as int].equiv(pre_next[idx as int])) by {
                assert(!in_prefix(group@, m as int, idx));
            }
            assert forall|mm: int| 0 <= mm < m + 1 implies {
                let i = #[trigger] group@[mm] as int;
                &&& store.next@[i].same_identity(pre_next[i])
                &&& store.next@[i].n_interactions == pre_next[i].n_interactions
                &&& store.next@[i].attrs() == adjusted_attrs(cur, group@, i, *cfg)
            } by {
                if mm < m {
                    assert(group@[mm] != group@[m as int]);
                    assert(store.next@[group@[mm] as int] == step_next[group@[mm] as int]);
                }
            }
            assert forall|i: int|
                0 <= i < cfg.n_beings && !in_prefix(group@, m as int + 1, i as usize) implies (
            #[trigger] store.next@[i]).equiv(pre_next[i]) by {
                assert(!in_prefix(group@, m as int, i as usize));
                assert(i != idx as int);
                assert(store.next@[i] == step_next[i]);
            }
        }
    }
    proof {
        assert forall|i: int|
            0 <= i < cfg.n_beings && !group@.contains(i as usize) implies (
        #[trigger] store.next@[i]).equiv(old(store).next@[i]) by {
            assert(!in_prefix(group@, glen as int, i as usize));
        }
    }
}

/// Plasticity zero freezes a value: no step is taken toward any target.
pub proof fn lemma_zero_plasticity_no_move(cur: int, tgt: int)
    ensures
        move_toward(cur, tgt, 0) == cur,
{
    if cur < tgt {
        assert((tgt - cur) * 0 == 0) by (nonlinear_arith);
        vstd::arithmetic::div_mod::lemma_div_basics(0);
        assert(tdiv(0, 1000) == 0) by {
            assert(0int / 1000int == 0) by (nonlinear_arith);
        }
    } else if cur > tgt {
        assert((cur - tgt) * 0 == 0) by (nonlinear_arith);
        assert(tdiv(0, 1000) == 0) by {
            assert(0int / 1000int == 0) by (nonlinear_arith);
        }
    }
}

/// An entity of plasticity zero never changes its attributes, whatever
/// group evaluates around it and however fit the target is.
pub proof fn lemma_zero_plasticity_entity(buf: Seq<Entity>, group: Seq<usize>, i: int, cfg: Config)
    requires
        0 <= i < buf.len(),
        buf[i].wf(cfg),
        buf[i].plasticity == 0,
    ensures
        adjusted_attrs(buf, group, i, cfg) == buf[i].attrs(),
{
    let tgt = target_vals(buf, group, cfg.n_being_attributes as int);
    let e = buf[i];
    if fitness_spec(tgt, cfg) > fitness_spec(e.attrs(), cfg) {
        let moved = Seq::new(
            e.attrs().len(),
            |j: int| move_toward(e.attrs()[j], tgt[j], e.plasticity as int),
        );
        assert forall|j: int| 0 <= j < moved.len() implies moved[j] == e.attrs()[j] by {
            lemma_zero_plasticity_no_move(e.attrs()[j], tgt[j]);
        }
        assert(moved =~= e.attrs());
    }
}

/// A group of a single member is a no-op: the average is the member's own
/// vector, every contribution is zero, so the target equals the member and
/// cannot be strictly fitter -- the member does not move.
pub proof fn lemma_singleton_group_noop(buf: Seq<Entity>, group: Seq<usize>, cfg: Config)
    requires
        group.len() == 1,
        group[0] < buf.len(),
        buf[group[0] as int].wf(cfg),
    ensures
        adjusted_attrs(buf, group, group[0] as int, cfg) == buf[group[0] as int].attrs(),
{
    let i = group[0] as int;
    let e = buf[i];
    let n_attrs = cfg.n_being_attributes as int;
    assert forall|j: int| 0 <= j < n_attrs implies group_target(buf, group, j) == e.attrs()[j] by {
        let vals = member_vals(buf, group, j);
        let v = e.attrs()[j];
        assert(vals.len() == 1);
        assert(vals[0] == v);
        assert(vals.drop_last() =~= Seq::<int>::empty());
        assert(seq_sum(vals) == seq_sum(vals.drop_last()) + vals.last());
        assert(vals.drop_last().len() == 0);
        assert(seq_sum(vals.drop_last()) == 0);
        assert(vals.last() == v);
        assert(seq_sum(vals) == v);
        vstd::arithmetic::div_mod::lemma_div_basics(v);
        vstd::arithmetic::div_mod::lemma_div_basics(-v);
        assert(tdiv(v, 1) == v);
        assert(i64::MIN as int <= v <= i64::MAX as int);
        assert(group_avg(buf, group, j) == v);
        assert(contribution(v, v, e.influence as int) == 0) by {
            assert((v - v) * e.influence as int == 0) by (nonlinear_arith);
            assert(0int / 1000int == 0) by (nonlinear_arith);
        }
        assert(target_fold(buf, group, j, 0) == group_avg(buf, group, j));
        assert(buf[group[0] as int].attrs()[j] == v);
        assert(target_fold(buf, group, j, 1) == sat64(
            target_fold(buf, group, j, 0) + contribution(v, v, e.influence as int),
        ));
        assert(target_fold(buf, group, j, 1) == sat64(v + 0));
    }
    let tgt = target_vals(buf, group, n_attrs);
    assert(tgt =~= e.attrs());
    assert(!(fitness_spec(tgt, cfg) > fitness_spec(e.attrs(), cfg)));
}

/// A solved entity never moves, selected or not: no target can be strictly
/// fitter than the success sentinel.
pub proof fn lemma_solved_entity_never_moves(buf: Seq<Entity>, group: Seq<usize>, i: int, cfg: Config)
    requires
        0 <= i < buf.len(),
        is_solved(buf[i].attrs(), cfg),
    ensures
        adjusted_attrs(buf, group, i, cfg) == buf[i].attrs(),
{
    lemma_fitness_never_positive(target_vals(buf, group, cfg.n_being_attributes as int), cfg);
}

/// With every member's influence zero, the contributions vanish and the
/// group's target is exactly its per-position truncated arithmetic mean.
pub proof fn lemma_zero_influence_target_is_mean(buf: Seq<Entity>, group: Seq<usize>, j: int)
    requires
        forall|m: int| 0 <= m < group.len() ==> (#[trigger] buf[group[m] as int].influence) == 0,
    ensures
        group_target(buf, group, j) == group_avg(buf, group, j),
{
    lemma_zero_influence_fold(buf, group, j, group.len() as int);
}

proof fn lemma_zero_influence_fold(buf: Seq<Entity>, group: Seq<usize>, j: int, m: int)
    requires
        0 <= m <= group.len(),
        forall|k: int| 0 <= k < group.len() ==> (#[trigger] buf[group[k] as int].influence) == 0,
    ensures
        target_fold(buf, group, j, m) == group_avg(buf, group, j),
    decreases m,
{
    if m > 0 {
        lemma_zero_influence_fold(buf, group, j, m - 1);
        let avg = group_avg(buf, group, j);
        let v = buf[group[m - 1] as int].attrs()[j];
        assert(buf[group[m - 1] as int].influence == 0);
        assert(contribution(v, avg, 0) == 0) by {
            assert((v - avg) * 0 == 0) by (nonlinear_arith);
            assert((avg - v) * 0 == 0) by (nonlinear_arith);
            assert(0int / 1000int == 0) by (nonlinear_arith);
        }
        assert(i64::MIN as int <= avg <= i64::MAX as int);
        assert(target_fold(buf, group, j, m) == sat64(avg + 0));
    }
}

} // verus!
