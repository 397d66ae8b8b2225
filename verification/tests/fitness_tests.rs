use shunyata::{Attribute, Config, Entity, Objective};

fn base_config() -> Config {
    Config {
        n_beings: 10,
        n_being_attributes: 3,
        attribute_domain_low: 0,
        attribute_domain_high: 20,
        encounters_per_tick_min: 1,
        encounters_per_tick_max: 2,
        entities_per_encounter_min: 1,
        entities_per_encounter_max: 2,
        plasticity_min: 0,
        plasticity_max: 1000,
        influence_min: 0,
        influence_max: 1,
        objective: Objective::Product,
        success_value: 666,
        success_margin: 0,
        mutation_epsilon: 1,
        total_cycles: 0,
        state_dump_frequency: 0,
    }
}

fn attrs(values: &[i64]) -> Vec<Attribute> {
    let mut v = Vec::new();
    for &x in values {
        v.push(Attribute::new(x));
    }
    v
}

#[test]
fn attribute_new_wraps_value() {
    let a = Attribute::new(-7);
    assert_eq!(a.value, -7);
}

#[test]
fn product_of_ten_ten_ten_misses_666_by_334() {
    // success_value=666, objective=product, attributes [10,10,10]:
    // score=1000, difference=334, fitness=-334 -- not solved.
    let cfg = base_config();
    let v = attrs(&[10, 10, 10]);
    assert_eq!(shunyata::fitness::objective_score(Objective::Product, &v), 1000);
    assert_eq!(shunyata::fitness::fitness_of(&v, &cfg), -334);
    let e = Entity { id: 0, attributes: v, plasticity: 0, influence: 0, n_interactions: 0 };
    assert_eq!(shunyata::fitness(&e, &cfg), -334);
    // still mutation-eligible: strictly below the success sentinel
    assert!(shunyata::fitness(&e, &cfg) < 0);
}

#[test]
fn exact_product_hit_is_clamped_to_sentinel() {
    // product(attributes) == success_value exactly: fitness is the success
    // sentinel and the entity counts as solved.
    let cfg = base_config();
    let v = attrs(&[6, 111, 1]);
    assert_eq!(shunyata::fitness::objective_score(Objective::Product, &v), 666);
    assert_eq!(shunyata::fitness::fitness_of(&v, &cfg), 0);
}

#[test]
fn sum_objective_exact_values() {
    let mut cfg = base_config();
    cfg.objective = Objective::Sum;
    cfg.success_value = 10;
    let v = attrs(&[1, 2, 3]);
    assert_eq!(shunyata::fitness::objective_score(Objective::Sum, &v), 6);
    assert_eq!(shunyata::fitness::fitness_of(&v, &cfg), -4);
    let negative = attrs(&[-5, 2, -3]);
    assert_eq!(shunyata::fitness::objective_score(Objective::Sum, &negative), -6);
}

#[test]
fn empty_vector_scores() {
    // An empty vector sums to 0 and multiplies to 1.
    let v = attrs(&[]);
    assert_eq!(shunyata::fitness::objective_score(Objective::Sum, &v), 0);
    assert_eq!(shunyata::fitness::objective_score(Objective::Product, &v), 1);
}

#[test]
fn success_margin_widens_the_sentinel() {
    let mut cfg = base_config();
    cfg.objective = Objective::Sum;
    cfg.success_value = 100;
    cfg.success_margin = 5;
    assert_eq!(shunyata::fitness::fitness_of(&attrs(&[95, 0, 0]), &cfg), 0);
    assert_eq!(shunyata::fitness::fitness_of(&attrs(&[94, 0, 0]), &cfg), -6);
    assert_eq!(shunyata::fitness::fitness_of(&attrs(&[105, 0, 0]), &cfg), 0);
    assert_eq!(shunyata::fitness::fitness_of(&attrs(&[106, 0, 0]), &cfg), -6);
}

#[test]
fn product_saturates_at_machine_range() {
    // Each multiplication saturates at the i64 range instead of wrapping.
    let cfg = base_config();
    let v = attrs(&[i64::MAX, 2]);
    assert_eq!(shunyata::fitness::objective_score(Objective::Product, &v), i64::MAX);
    let expected: i128 = -((i64::MAX as i128) - 666);
    assert_eq!(shunyata::fitness::fitness_of(&v, &cfg), expected);
    let w = attrs(&[i64::MIN, 3]);
    assert_eq!(shunyata::fitness::objective_score(Objective::Product, &w), i64::MIN);
}

#[test]
fn sum_saturates_at_machine_range() {
    let v = attrs(&[i64::MAX, i64::MAX]);
    assert_eq!(shunyata::fitness::objective_score(Objective::Sum, &v), i64::MAX);
    let w = attrs(&[i64::MIN, -1]);
    assert_eq!(shunyata::fitness::objective_score(Objective::Sum, &w), i64::MIN);
}

#[test]
fn count_successful_counts_only_solved() {
    let mut cfg = base_config();
    cfg.objective = Objective::Sum;
    cfg.success_value = 5;
    let mut state = Vec::new();
    state.push(Entity { id: 0, attributes: attrs(&[5, 0, 0]), plasticity: 0, influence: 0, n_interactions: 0 });
    state.push(Entity { id: 1, attributes: attrs(&[1, 1, 1]), plasticity: 0, influence: 0, n_interactions: 0 });
    state.push(Entity { id: 2, attributes: attrs(&[2, 2, 1]), plasticity: 0, influence: 0, n_interactions: 0 });
    assert_eq!(shunyata::count_successful(&state, &cfg), 2);
}
