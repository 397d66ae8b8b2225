use shunyata::{Attribute, Config, Entity, EntityStore, Objective};

fn attrs(values: &[i64]) -> Vec<Attribute> {
    let mut v = Vec::new();
    for &x in values {
        v.push(Attribute::new(x));
    }
    v
}

fn entity(id: usize, values: &[i64], plasticity: u32, influence: u32) -> Entity {
    Entity { id, attributes: attrs(values), plasticity, influence, n_interactions: 0 }
}

fn store_of(entities: Vec<Entity>) -> EntityStore {
    let mut next = Vec::new();
    for e in &entities {
        next.push(e.clone());
    }
    EntityStore { current: entities, next }
}

fn values_of(e: &Entity) -> Vec<i64> {
    let mut v = Vec::new();
    for a in &e.attributes {
        v.push(a.value);
    }
    v
}

fn sum_config(n_beings: usize, n_attrs: usize, success_value: i64) -> Config {
    Config {
        n_beings,
        n_being_attributes: n_attrs,
        attribute_domain_low: 0,
        attribute_domain_high: 20,
        encounters_per_tick_min: 1,
        encounters_per_tick_max: 2,
        entities_per_encounter_min: 1,
        entities_per_encounter_max: 11,
        plasticity_min: 0,
        plasticity_max: 1000,
        influence_min: 0,
        influence_max: 1000,
        objective: Objective::Sum,
        success_value,
        success_margin: 0,
        mutation_epsilon: 2,
        total_cycles: 5,
        state_dump_frequency: 2,
    }
}

#[test]
fn scenario_whole_population_group_average() {
    // One group of all 10 entities, two attributes, objective = sum; every
    // influence is 0, so the target is exactly the per-attribute arithmetic
    // mean: [9, 10]. The target's score 19 equals the success value, so the
    // target is strictly fitter than every member and each member closes
    // half its gap toward the mean (plasticity 500), except entity 0 whose
    // plasticity is 0: it stays put even though it is eligible to move.
    let cfg = sum_config(10, 2, 19);
    let mut entities = Vec::new();
    for k in 0..10usize {
        let p = if k == 0 { 0 } else { 500 };
        entities.push(entity(k, &[2 * k as i64, 10], p, 0));
    }
    let mut store = store_of(entities);
    let group: Vec<usize> = (0..10).collect();
    shunyata::interact::evaluate_group(&mut store, &cfg, &group);

    // current buffer is read-only during the tick
    for k in 0..10usize {
        assert_eq!(values_of(&store.current[k]), vec![2 * k as i64, 10]);
    }
    // entity 0 (plasticity 0, influence 0) does not move
    assert_eq!(values_of(&store.next[0]), vec![0, 10]);
    // the others step from 2k halfway toward the mean 9 (truncated)
    let expected0 = [0i64, 5, 6, 7, 8, 10, 11, 12, 13, 14];
    for k in 1..10usize {
        assert_eq!(values_of(&store.next[k]), vec![expected0[k], 10]);
    }
}

#[test]
fn singleton_group_is_a_noop() {
    // A group of size 1: the target equals the member, which cannot be
    // strictly fitter, so the member's attributes do not change.
    let cfg = sum_config(4, 2, 100);
    let mut store = store_of(vec![
        entity(0, &[1, 2], 700, 300),
        entity(1, &[3, 4], 700, 300),
        entity(2, &[5, 6], 700, 300),
        entity(3, &[7, 8], 700, 300),
    ]);
    let group = vec![2usize];
    shunyata::interact::evaluate_group(&mut store, &cfg, &group);
    for k in 0..4usize {
        assert_eq!(values_of(&store.next[k]), values_of(&store.current[k]));
    }
}

#[test]
fn solved_entities_are_skipped_by_mutation() {
    // Every entity's product equals the success value exactly: all solved,
    // so however many mutations are drawn, nothing changes.
    let mut cfg = sum_config(20, 2, 36);
    cfg.objective = Objective::Product;
    let mut entities = Vec::new();
    for k in 0..20usize {
        entities.push(entity(k, &[6, 6], 500, 100));
    }
    let mut store = store_of(entities);
    let mut rng = shunyata::rng::rng_from_seed(7);
    for _ in 0..50 {
        shunyata::mutate::mutate(&mut store, &cfg, &mut rng);
    }
    for k in 0..20usize {
        assert_eq!(values_of(&store.next[k]), vec![6, 6]);
    }
}

#[test]
fn fully_solved_population_is_a_fixed_point() {
    // A solved entity never moves: no target can beat the success sentinel,
    // and mutation skips solved entities. Whole ticks change nothing but
    // the interaction counters.
    let mut cfg = sum_config(12, 2, 36);
    cfg.objective = Objective::Product;
    let mut entities = Vec::new();
    for k in 0..12usize {
        entities.push(entity(k, &[6, 6], 500, 100));
    }
    let mut store = store_of(entities);
    let mut rng = shunyata::rng::rng_from_seed(3);
    for _ in 0..3 {
        shunyata::tick(&mut store, &cfg, &mut rng);
    }
    for k in 0..12usize {
        assert_eq!(values_of(&store.current[k]), vec![6, 6]);
        assert_eq!(store.current[k].id, k);
    }
}

#[test]
fn small_population_draws_zero_mutations() {
    // n_beings < 10: the interval [0, n_beings / 10) is empty, so no
    // mutation is applied and the next buffer is untouched.
    let cfg = sum_config(5, 2, 1000);
    let mut store = store_of(vec![
        entity(0, &[1, 2], 500, 100),
        entity(1, &[3, 4], 500, 100),
        entity(2, &[5, 6], 500, 100),
        entity(3, &[7, 8], 500, 100),
        entity(4, &[9, 10], 500, 100),
    ]);
    let mut rng = shunyata::rng::rng_from_seed(99);
    for _ in 0..20 {
        shunyata::mutate::mutate(&mut store, &cfg, &mut rng);
    }
    for k in 0..5usize {
        assert_eq!(values_of(&store.next[k]), values_of(&store.current[k]));
    }
}

#[test]
fn groups_are_disjoint_in_range_and_bounded() {
    let mut cfg = sum_config(50, 2, 100);
    cfg.encounters_per_tick_min = 3;
    cfg.encounters_per_tick_max = 10;
    cfg.entities_per_encounter_min = 2;
    cfg.entities_per_encounter_max = 9;
    let mut rng = shunyata::rng::rng_from_seed(11);
    for _ in 0..20 {
        let mut store = EntityStore::spawn(&cfg, &mut rng);
        let groups = shunyata::grouping::form_groups(&mut store, &cfg, &mut rng);
        assert!(groups.len() < cfg.encounters_per_tick_max);
        // a nonzero group-count minimum on a nonempty population always
        // forms a first group of at least the requested minimum size
        assert!(!groups.is_empty());
        assert!(groups[0].len() >= cfg.entities_per_encounter_min.min(cfg.n_beings));
        let mut seen = vec![false; cfg.n_beings];
        for group in &groups {
            assert!(!group.is_empty());
            assert!(group.len() < cfg.entities_per_encounter_max);
            for &idx in group {
                assert!(idx < cfg.n_beings);
                // no index appears twice across the whole tick
                assert!(!seen[idx]);
                seen[idx] = true;
            }
        }
        // every selected entity's interaction counter was bumped
        for idx in 0..cfg.n_beings {
            let expected = if seen[idx] { 1 } else { 0 };
            assert_eq!(store.next[idx].n_interactions, expected);
        }
    }
}

#[test]
fn buffer_lengths_hold_across_ticks() {
    let cfg = sum_config(30, 3, 100);
    let mut rng = shunyata::rng::rng_from_seed(5);
    let mut store = EntityStore::spawn(&cfg, &mut rng);
    for _ in 0..6 {
        shunyata::tick(&mut store, &cfg, &mut rng);
        assert_eq!(store.current.len(), cfg.n_beings);
        assert_eq!(store.next.len(), cfg.n_beings);
        for k in 0..cfg.n_beings {
            assert_eq!(store.current[k].attributes.len(), cfg.n_being_attributes);
            assert_eq!(values_of(&store.current[k]), values_of(&store.next[k]));
        }
    }
}

#[test]
fn determinism_two_runs_same_seed() {
    // Two runs with identical configuration and the same seed produce
    // bit-identical final populations.
    let mut cfg = sum_config(25, 3, 40);
    cfg.total_cycles = 8;
    let a = shunyata::run_simulation(&cfg, 424242).unwrap();
    let b = shunyata::run_simulation(&cfg, 424242).unwrap();
    assert_eq!(a.current.len(), b.current.len());
    for k in 0..cfg.n_beings {
        let (x, y) = (&a.current[k], &b.current[k]);
        assert_eq!(x.id, y.id);
        assert_eq!(values_of(x), values_of(y));
        assert_eq!(x.plasticity, y.plasticity);
        assert_eq!(x.influence, y.influence);
        assert_eq!(x.n_interactions, y.n_interactions);
    }
}

#[test]
fn spawn_respects_configured_ranges() {
    let mut cfg = sum_config(40, 3, 100);
    cfg.attribute_domain_low = -7;
    cfg.attribute_domain_high = 7;
    cfg.plasticity_min = 200;
    cfg.plasticity_max = 201;
    cfg.influence_min = 30;
    cfg.influence_max = 32;
    let mut rng = shunyata::rng::rng_from_seed(13);
    let state = shunyata::generate_initial_state(&cfg, &mut rng);
    assert_eq!(state.len(), 40);
    for (k, e) in state.iter().enumerate() {
        assert_eq!(e.id, k);
        assert_eq!(e.n_interactions, 0);
        assert_eq!(e.plasticity, 200);
        assert!(e.influence == 30 || e.influence == 31);
        assert_eq!(e.attributes.len(), 3);
        for a in &e.attributes {
            assert!(-7 <= a.value && a.value <= 7);
        }
    }
}

#[test]
fn draws_stay_in_their_intervals() {
    let mut rng = shunyata::rng::rng_from_seed(21);
    for _ in 0..200 {
        let u = shunyata::rng::draw_usize(&mut rng, 3, 17);
        assert!((3..17).contains(&u));
        let w = shunyata::rng::draw_u32(&mut rng, 0, 1000);
        assert!(w < 1000);
        let d = shunyata::rng::draw_i64_inclusive(&mut rng, -5, 5);
        assert!((-5..=5).contains(&d));
    }
    assert_eq!(shunyata::rng::draw_i64_inclusive(&mut rng, 4, 4), 4);
}

#[test]
fn seeded_generators_repeat_their_draws() {
    let mut a = shunyata::rng::rng_from_seed(1234);
    let mut b = shunyata::rng::rng_from_seed(1234);
    for _ in 0..100 {
        assert_eq!(
            shunyata::rng::draw_usize(&mut a, 0, 1000),
            shunyata::rng::draw_usize(&mut b, 0, 1000)
        );
    }
}

#[test]
fn dump_schedule_covers_first_last_and_period() {
    let mut cfg = sum_config(10, 2, 100);
    cfg.total_cycles = 10;
    cfg.state_dump_frequency = 3;
    assert!(shunyata::should_dump(0, &cfg));
    assert!(!shunyata::should_dump(1, &cfg));
    assert!(!shunyata::should_dump(2, &cfg));
    assert!(shunyata::should_dump(3, &cfg));
    assert!(shunyata::should_dump(6, &cfg));
    assert!(!shunyata::should_dump(7, &cfg));
    assert!(shunyata::should_dump(10, &cfg));
    cfg.state_dump_frequency = 0;
    assert!(shunyata::should_dump(0, &cfg));
    assert!(!shunyata::should_dump(4, &cfg));
    assert!(shunyata::should_dump(10, &cfg));
}

#[test]
fn zero_population_run_completes() {
    let mut cfg = sum_config(0, 0, 100);
    cfg.total_cycles = 3;
    let s = shunyata::run_simulation(&cfg, 1).unwrap();
    assert_eq!(s.current.len(), 0);
    assert_eq!(s.next.len(), 0);
}

#[test]
fn interaction_counters_grow_only_by_selection() {
    let cfg = sum_config(16, 2, 100);
    let mut rng = shunyata::rng::rng_from_seed(17);
    let mut store = EntityStore::spawn(&cfg, &mut rng);
    let before: Vec<u64> = store.current.iter().map(|e| e.n_interactions).collect();
    let groups = shunyata::tick(&mut store, &cfg, &mut rng);
    let mut selected = vec![false; cfg.n_beings];
    for group in &groups {
        for &idx in group {
            selected[idx] = true;
        }
    }
    for k in 0..cfg.n_beings {
        let expected = before[k] + if selected[k] { 1 } else { 0 };
        assert_eq!(store.current[k].n_interactions, expected);
    }
}

#[test]
fn apply_mutation_adds_delta_to_one_position() {
    let cfg = sum_config(10, 2, 1000);
    let mut store = store_of(vec![
        entity(0, &[1, 2], 500, 100),
        entity(1, &[3, 4], 500, 100),
        entity(2, &[5, 6], 500, 100),
        entity(3, &[7, 8], 500, 100),
        entity(4, &[9, 10], 500, 100),
        entity(5, &[11, 12], 500, 100),
        entity(6, &[13, 14], 500, 100),
        entity(7, &[15, 16], 500, 100),
        entity(8, &[17, 18], 500, 100),
        entity(9, &[19, 20], 500, 100),
    ]);
    shunyata::mutate::apply_mutation(&mut store, &cfg, 4, 1, -7);
    assert_eq!(values_of(&store.next[4]), vec![9, 3]);
    // the other entities and the current buffer are untouched
    assert_eq!(values_of(&store.current[4]), vec![9, 10]);
    for k in [0usize, 1, 2, 3, 5, 6, 7, 8, 9] {
        assert_eq!(values_of(&store.next[k]), values_of(&store.current[k]));
    }
    // the addition saturates at the machine range
    shunyata::mutate::apply_mutation(&mut store, &cfg, 6, 0, i64::MAX);
    assert_eq!(values_of(&store.next[6]), vec![i64::MAX, 14]);
}

#[test]
fn apply_mutation_skips_a_solved_entity() {
    let mut cfg = sum_config(10, 2, 36);
    cfg.objective = Objective::Product;
    let mut entities = Vec::new();
    for k in 0..10usize {
        entities.push(entity(k, &[6, 6], 500, 100));
    }
    let mut store = store_of(entities);
    shunyata::mutate::apply_mutation(&mut store, &cfg, 3, 0, 5);
    assert_eq!(values_of(&store.next[3]), vec![6, 6]);
}

#[test]
fn small_population_tick_changes_only_group_members() {
    // n_beings < 10: no mutation happens, so every entity outside this
    // tick's groups comes out of the tick completely unchanged.
    let cfg = sum_config(7, 2, 1000);
    let mut rng = shunyata::rng::rng_from_seed(31);
    let mut store = EntityStore::spawn(&cfg, &mut rng);
    for _ in 0..10 {
        let before: Vec<Entity> = store.current.iter().map(|e| e.clone()).collect();
        let groups = shunyata::tick(&mut store, &cfg, &mut rng);
        let mut selected = vec![false; cfg.n_beings];
        for group in &groups {
            for &idx in group {
                selected[idx] = true;
            }
        }
        for k in 0..cfg.n_beings {
            if !selected[k] {
                assert_eq!(values_of(&store.current[k]), values_of(&before[k]));
                assert_eq!(store.current[k].n_interactions, before[k].n_interactions);
            }
        }
    }
}

#[test]
fn a_run_with_cycles_interacts_at_least_once() {
    let mut cfg = sum_config(20, 2, 50);
    cfg.total_cycles = 1;
    let s = shunyata::run_simulation(&cfg, 8).unwrap();
    let total: u64 = s.current.iter().map(|e| e.n_interactions).sum();
    assert!(total >= 1);
}
