use shunyata::{Config, ConfigError, Objective};

fn valid_config() -> Config {
    Config {
        n_beings: 100,
        n_being_attributes: 4,
        attribute_domain_low: -50,
        attribute_domain_high: 50,
        encounters_per_tick_min: 2,
        encounters_per_tick_max: 8,
        entities_per_encounter_min: 2,
        entities_per_encounter_max: 6,
        plasticity_min: 100,
        plasticity_max: 900,
        influence_min: 0,
        influence_max: 500,
        objective: Objective::Sum,
        success_value: 100,
        success_margin: 2,
        mutation_epsilon: 3,
        total_cycles: 10,
        state_dump_frequency: 5,
    }
}

#[test]
fn valid_configuration_passes() {
    assert_eq!(valid_config().validate(), Ok(()));
}

#[test]
fn zero_population_is_a_valid_noop_run() {
    let mut cfg = valid_config();
    cfg.n_beings = 0;
    assert_eq!(cfg.validate(), Ok(()));
    cfg.n_being_attributes = 0;
    assert_eq!(cfg.validate(), Ok(()));
}

#[test]
fn inverted_domain_is_rejected() {
    let mut cfg = valid_config();
    cfg.attribute_domain_low = 51;
    assert_eq!(cfg.validate(), Err(ConfigError::DomainBoundsInverted));
}

#[test]
fn empty_encounter_count_range_is_rejected() {
    let mut cfg = valid_config();
    cfg.encounters_per_tick_min = 8;
    assert_eq!(cfg.validate(), Err(ConfigError::EncounterCountRangeEmpty));
}

#[test]
fn zero_group_size_is_rejected() {
    let mut cfg = valid_config();
    cfg.entities_per_encounter_min = 0;
    assert_eq!(cfg.validate(), Err(ConfigError::EncounterSizeZero));
}

#[test]
fn empty_group_size_range_is_rejected() {
    let mut cfg = valid_config();
    cfg.entities_per_encounter_min = 6;
    assert_eq!(cfg.validate(), Err(ConfigError::EncounterSizeRangeEmpty));
}

#[test]
fn empty_plasticity_range_is_rejected() {
    let mut cfg = valid_config();
    cfg.plasticity_min = 900;
    assert_eq!(cfg.validate(), Err(ConfigError::PlasticityRangeEmpty));
}

#[test]
fn plasticity_above_scale_is_rejected() {
    let mut cfg = valid_config();
    cfg.plasticity_max = 1001;
    assert_eq!(cfg.validate(), Err(ConfigError::PlasticityOutOfScale));
}

#[test]
fn empty_influence_range_is_rejected() {
    let mut cfg = valid_config();
    cfg.influence_min = 500;
    assert_eq!(cfg.validate(), Err(ConfigError::InfluenceRangeEmpty));
}

#[test]
fn negative_mutation_epsilon_is_rejected() {
    let mut cfg = valid_config();
    cfg.mutation_epsilon = -1;
    assert_eq!(cfg.validate(), Err(ConfigError::NegativeMutationEpsilon));
}

#[test]
fn first_offending_field_wins() {
    let mut cfg = valid_config();
    cfg.attribute_domain_low = 51;
    cfg.mutation_epsilon = -1;
    assert_eq!(cfg.validate(), Err(ConfigError::DomainBoundsInverted));
}

#[test]
fn invalid_configuration_fails_before_any_entity_exists() {
    let mut cfg = valid_config();
    cfg.plasticity_max = 2000;
    let r = shunyata::run_simulation(&cfg, 1);
    assert!(matches!(r, Err(ConfigError::PlasticityOutOfScale)));
}
