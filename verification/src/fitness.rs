//! The fitness evaluator: a pure scoring function over an attribute vector
//! measured against a success criterion.

use vstd::prelude::*;

use crate::arith::{abs_int, sat64, sat_add64, sat_mul64, seq_sum};
use crate::attribute::{attrs_view, Attribute};
use crate::config::{Config, Objective};
use crate::entity::Entity;

verus! {

/// Sum of a sequence, each addition saturating at the `i64` range.
pub open spec fn sum_score(s: Seq<int>) -> int
    decreases s.len(),
{
    if s.len() == 0 {
        0
    } else {
        sat64(sum_score(s.drop_last()) + s.last())
    }
}

/// Product of a sequence (1 when empty), each multiplication saturating at
/// the `i64` range.
pub open spec fn product_score(s: Seq<int>) -> int
    decreases s.len(),
{
    if s.len() == 0 {
        1
    } else {
        sat64(product_score(s.drop_last()) * s.last())
    }
}

/// The configured objective function applied to an attribute vector.
pub open spec fn objective_spec(obj: Objective, s: Seq<int>) -> int {
    match obj {
        Objective::Sum => sum_score(s),
        Objective::Product => product_score(s),
    }
}

/// The fitness of an attribute vector: the negated distance of its objective
/// score from the success value, clamped to the success sentinel 0 once the
/// distance is within the success margin ("solved").
pub open spec fn fitness_spec(s: Seq<int>, cfg: Config) -> int {
    let diff = abs_int(cfg.success_value - objective_spec(cfg.objective, s));
    if diff <= cfg.success_margin as int {
        0
    } else {
        -diff
    }
}

/// An attribute vector is solved exactly when its fitness has reached the
/// success sentinel.
pub open spec fn is_solved(s: Seq<int>, cfg: Config) -> bool {
    fitness_spec(s, cfg) >= 0
}

/// A vector is solved if and only if its score lies within the success
/// margin of the success value; an unsolved vector has strictly negative
/// fitness.
pub proof fn lemma_solved_iff_within_margin(s: Seq<int>, cfg: Config)
    ensures
        is_solved(s, cfg) <==> abs_int(cfg.success_value - objective_spec(cfg.objective, s))
            <= cfg.success_margin as int,
        !is_solved(s, cfg) ==> fitness_spec(s, cfg) < 0,
{
}

/// The objective score of an attribute vector.
pub fn objective_score(obj: Objective, attrs: &Vec<Attribute>) -> (r: i64)
    ensures
        r as int == objective_spec(obj, attrs_view(attrs@)),
{
    match obj {
        Objective::Sum => {
            let mut acc: i64 = 0;
            let n: usize = attrs.len();
            for i in 0..n
                invariant
                    n == attrs@.len(),
                    acc as int == sum_score(attrs_view(attrs@).take(i as int)),
            {
                let ghost prefix = attrs_view(attrs@).take(i as int + 1);
                proof {
                    assert(prefix.drop_last() =~= attrs_view(attrs@).take(i as int));
                    assert(prefix.last() == attrs@[i as int].value as int);
                }
                acc = sat_add64(acc, attrs[i].value);
            }
            proof {
                assert(attrs_view(attrs@).take(n as int) =~= attrs_view(attrs@));
            }
            acc
        },
        Objective::Product => {
            let mut acc: i64 = 1;
            let n: usize = attrs.len();
            for i in 0..n
                invariant
                    n == attrs@.len(),
                    acc as int == product_score(attrs_view(attrs@).take(i as int)),
            {
                let ghost prefix = attrs_view(attrs@).take(i as int + 1);
                proof {
                    assert(prefix.drop_last() =~= attrs_view(attrs@).take(i as int));
                    assert(prefix.last() == attrs@[i as int].value as int);
                }
                acc = sat_mul64(acc, attrs[i].value);
            }
            proof {
                assert(attrs_view(attrs@).take(n as int) =~= attrs_view(attrs@));
            }
            acc
        },
    }
}

/// The fitness of an attribute vector under the configured success
/// criterion. Pure and deterministic: equal inputs give equal results.
pub fn fitness_of(attrs: &Vec<Attribute>, cfg: &Config) -> (r: i128)
    ensures
        r as int == fitness_spec(attrs_view(attrs@), *cfg),
{
    let score: i64 = objective_score(cfg.objective, attrs);
    let gap: i128 = cfg.success_value as i128 - score as i128;
    let diff: i128 = if gap >= 0 {
        gap
    } else {
        -gap
    };
    if diff <= cfg.success_margin as i128 {
        0
    } else {
        -diff
    }
}

/// The fitness of an entity, measured against the configured success
/// criterion.
pub fn fitness(entity: &Entity, cfg: &Config) -> (r: i128)
    ensures
        r as int == fitness_spec(entity.attrs(), *cfg),
{
    fitness_of(&entity.attributes, cfg)
}

/// Fitness never exceeds the success sentinel: the sentinel is the best an
/// entity can do.
pub proof fn lemma_fitness_never_positive(s: Seq<int>, cfg: Config)
    ensures
        fitness_spec(s, cfg) <= 0,
{
}

} // verus!
