use pandemic_sim::simulation::fixed::{clamp_to_i64, div_toward_zero, div_up, rem_floor, UNIT};
use pandemic_sim::simulation::params::{
    default_death_rate, default_duration, default_inf_to_gen, default_inf_to_healed,
    default_inf_to_vacc, default_infected, default_num_people, default_size,
    default_speed_stdev, default_topology, default_vacc_to_gen, default_vacc_to_healed,
    default_vacc_to_vacc, default_vaccinated, probability_ok, Params, ParamsError,
    MAX_STEP_DURATION, RATE_LIMIT,
};
use pandemic_sim::simulation::person::RADIUS;
use pandemic_sim::simulation::space::{Topology, DIAMETER};

#[test]
fn constants_are_fixed_point_values() {
    assert_eq!(UNIT, 1_000_000);
    assert_eq!(RADIUS, 500_000);
    assert_eq!(DIAMETER, 1_000_000);
    assert_eq!(MAX_STEP_DURATION, 50_000);
}

#[test]
fn defaults_are_the_documented_ones() {
    assert_eq!(default_num_people(), 10000);
    assert_eq!(default_size(), 300_000_000);
    assert_eq!(default_speed_stdev(), 10_000_000);
    assert_eq!(default_infected(), 1);
    assert_eq!(default_vaccinated(), 0);
    assert_eq!(default_inf_to_gen(), 100_000);
    assert_eq!(default_inf_to_healed(), 20_000);
    assert_eq!(default_inf_to_vacc(), 1_000);
    assert_eq!(default_vacc_to_gen(), 60_000);
    assert_eq!(default_vacc_to_healed(), 12_000);
    assert_eq!(default_vacc_to_vacc(), 600);
    assert_eq!(default_duration(), 30_000_000);
    assert_eq!(default_death_rate(), 20_000);
    assert_eq!(default_topology(), Topology::Toroidal);
}

#[test]
fn default_params_are_valid_and_fit() {
    let params = Params::default();
    assert_eq!(params.num_people, 10000);
    assert_eq!(params.size_x, 300_000_000);
    assert_eq!(params.size_y, 300_000_000);
    assert_eq!(params.infection_prob_vaccinated_to_vaccinated, 600);
    assert!(params.is_valid());
    assert_eq!(params.validate(), Ok(()));
}

#[test]
fn probability_outside_unit_interval_is_invalid() {
    let mut params = Params::default();
    params.infection_prob_infected_to_healed = UNIT + 1;
    assert_eq!(params.validate(), Err(ParamsError::Invalid));
    params.infection_prob_infected_to_healed = -1;
    assert_eq!(params.validate(), Err(ParamsError::Invalid));
    params.infection_prob_infected_to_healed = UNIT;
    assert_eq!(params.validate(), Ok(()));
    assert!(probability_ok(0));
    assert!(probability_ok(UNIT));
    assert!(!probability_ok(UNIT + 1));
    assert!(!probability_ok(-1));
}

#[test]
fn non_positive_duration_or_rate_is_invalid() {
    let mut params = Params::default();
    params.infection_avg_duration = 0;
    assert_eq!(params.validate(), Err(ParamsError::Invalid));
    params.infection_avg_duration = 1;
    assert_eq!(params.validate(), Ok(()));
    params.death_rate = 0;
    assert_eq!(params.validate(), Err(ParamsError::Invalid));
    params.death_rate = RATE_LIMIT;
    assert_eq!(params.validate(), Ok(()));
    params.death_rate = RATE_LIMIT + 1;
    assert_eq!(params.validate(), Err(ParamsError::Invalid));
}

#[test]
fn box_must_be_wider_than_an_agent() {
    let mut params = Params::default();
    params.num_people = 1;
    params.size_x = DIAMETER;
    assert_eq!(params.validate(), Err(ParamsError::Invalid));
    params.size_x = DIAMETER + 1;
    assert_eq!(params.validate(), Ok(()));
    params.size_y = 0;
    assert_eq!(params.validate(), Err(ParamsError::Invalid));
}

#[test]
fn negative_speed_deviation_is_invalid() {
    let mut params = Params::default();
    params.speed_stdev = -1;
    assert_eq!(params.validate(), Err(ParamsError::Invalid));
}

#[test]
fn capacity_is_the_grid_count() {
    let mut params = Params::default();
    params.size_x = 10 * UNIT;
    params.size_y = 3 * UNIT + 999_999;
    // ten columns, three rows
    params.num_people = 30;
    assert!(params.has_room());
    assert_eq!(params.validate(), Ok(()));
    params.num_people = 31;
    assert!(!params.has_room());
    assert_eq!(params.validate(), Err(ParamsError::SpaceTooSmall));
}

#[test]
fn invalid_comes_before_too_small() {
    let mut params = Params::default();
    params.size_x = 2 * UNIT;
    params.size_y = 2 * UNIT;
    params.num_people = 1000;
    params.death_rate = 0;
    assert_eq!(params.validate(), Err(ParamsError::Invalid));
}

#[test]
fn to_space_takes_sizes_and_topology() {
    let mut params = Params::default();
    params.size_x = 7 * UNIT;
    params.topology = Topology::Bounded;
    let space = params.to_space();
    assert_eq!(space.size_x, 7 * UNIT);
    assert_eq!(space.size_y, 300 * UNIT);
    assert_eq!(space.topology, Topology::Bounded);
}

#[test]
fn division_rounds_toward_zero() {
    assert_eq!(div_toward_zero(7, 2), 3);
    assert_eq!(div_toward_zero(-7, 2), -3);
    assert_eq!(div_toward_zero(-1, 1_000_000), 0);
    assert_eq!(div_toward_zero(6, 3), 2);
    assert_eq!(div_toward_zero(0, 5), 0);
}

#[test]
fn division_rounds_up() {
    assert_eq!(div_up(7, 2), 4);
    assert_eq!(div_up(6, 2), 3);
    assert_eq!(div_up(1, 1_000_000), 1);
    assert_eq!(div_up(0, 7), 0);
}

#[test]
fn remainder_is_never_negative() {
    assert_eq!(rem_floor(-1, 10), 9);
    assert_eq!(rem_floor(-10, 10), 0);
    assert_eq!(rem_floor(-11, 10), 9);
    assert_eq!(rem_floor(13, 10), 3);
    assert_eq!(rem_floor(0, 10), 0);
}

#[test]
fn clamp_saturates_at_the_limits() {
    assert_eq!(clamp_to_i64(5), 5);
    assert_eq!(clamp_to_i64(i64::MAX as i128 + 1), i64::MAX);
    assert_eq!(clamp_to_i64(i64::MIN as i128 - 1), i64::MIN);
    assert_eq!(clamp_to_i64(i64::MIN as i128), i64::MIN);
}
