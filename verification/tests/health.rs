use pandemic_sim::simulation::params::Params;
use pandemic_sim::simulation::person::{
    below_threshold, death_strikes, recovery_comes, Person, Status,
};
use pandemic_sim::simulation::random::{draw, draw_from_word, DRAW_DROPPED, DRAW_RANGE};
use pandemic_sim::simulation::space::Vec2;
use pandemic_sim::simulation::stats::{category, Category};
use rand::rngs::StdRng;
use rand::SeedableRng;

const TENTH: u64 = 900_719_925_474_099;

fn healthy() -> Person {
    Person::new(Vec2 { x: 1_000_000, y: 2_000_000 }, Vec2 { x: 3, y: -4 })
}

fn infected_at(time: i64) -> Person {
    let mut person = healthy();
    person.infect(time);
    person
}

fn recovered() -> Person {
    let mut person = infected_at(0);
    let dead = person.update_status_with_draws(30_000_000, quiet(), 50_000, DRAW_RANGE - 1, 0);
    assert!(!dead);
    person
}

fn quiet() -> Params {
    let mut params = Params::default();
    params.death_rate = 0;
    params
}

fn distinct() -> Params {
    let mut params = Params::default();
    params.infection_prob_infected_to_general = 100_000;
    params.infection_prob_infected_to_healed = 200_000;
    params.infection_prob_infected_to_vaccinated = 300_000;
    params.infection_prob_vaccinated_to_general = 400_000;
    params.infection_prob_vaccinated_to_healed = 500_000;
    params.infection_prob_vaccinated_to_vaccinated = 600_000;
    params
}

#[test]
fn default_status_is_healthy() {
    let status = Status::default();
    assert_eq!(status.infected(), None);
    assert!(!status.past_infected());
    assert!(!status.vaccinated());
    assert_eq!(category(&status), Category::Healthy);
}

#[test]
fn new_person_is_healthy_where_it_was_put() {
    let person = healthy();
    assert_eq!(person.pos(), Vec2 { x: 1_000_000, y: 2_000_000 });
    assert_eq!(person.vel(), Vec2 { x: 3, y: -4 });
    assert_eq!(person.status().infected(), None);
    assert!(!person.status().past_infected());
    assert!(!person.status().vaccinated());
}

#[test]
fn infect_sets_the_time_and_nothing_else() {
    let mut person = healthy();
    person.infect(17);
    assert_eq!(person.status().infected(), Some(17));
    assert!(!person.status().past_infected());
    assert!(!person.status().vaccinated());
    assert_eq!(person.pos(), Vec2 { x: 1_000_000, y: 2_000_000 });
    person.infect(40);
    assert_eq!(person.status().infected(), Some(40));
}

#[test]
fn vaccinate_sets_the_flag_and_nothing_else() {
    let mut person = infected_at(5);
    person.vaccinate();
    assert!(person.status().vaccinated());
    assert_eq!(person.status().infected(), Some(5));
    assert!(!person.status().past_infected());
    assert_eq!(person.vel(), Vec2 { x: 3, y: -4 });
}

#[test]
fn set_vel_replaces_the_velocity() {
    let mut person = infected_at(5);
    person.set_vel(Vec2 { x: -9, y: 9 });
    assert_eq!(person.vel(), Vec2 { x: -9, y: 9 });
    assert_eq!(person.pos(), Vec2 { x: 1_000_000, y: 2_000_000 });
    assert_eq!(person.status().infected(), Some(5));
}

#[test]
fn draw_falls_below_a_tenth_up_to_the_exact_bound() {
    assert!(below_threshold(0, 100_000));
    assert!(below_threshold(TENTH, 100_000));
    assert!(!below_threshold(TENTH + 1, 100_000));
}

#[test]
fn probability_zero_never_and_one_always() {
    assert!(!below_threshold(0, 0));
    assert!(!below_threshold(0, -5));
    assert!(below_threshold(DRAW_RANGE - 1, 1_000_000));
    assert!(!below_threshold(DRAW_RANGE - 1, 999_999));
}

#[test]
fn threshold_follows_the_two_categories() {
    let params = distinct();
    let general = *healthy().status();
    let healed = *recovered().status();
    let mut shot = healthy();
    shot.vaccinate();
    let vaccinated = *shot.status();
    let source = *infected_at(0).status();
    let mut carrier = infected_at(0);
    carrier.vaccinate();
    let vaccinated_source = *carrier.status();
    assert_eq!(general.threshold(&params, &source), 100_000);
    assert_eq!(healed.threshold(&params, &source), 200_000);
    assert_eq!(vaccinated.threshold(&params, &source), 300_000);
    assert_eq!(general.threshold(&params, &vaccinated_source), 400_000);
    assert_eq!(healed.threshold(&params, &vaccinated_source), 500_000);
    assert_eq!(vaccinated.threshold(&params, &vaccinated_source), 600_000);
}

#[test]
fn vaccinated_recipient_ignores_past_infection() {
    let params = distinct();
    let mut both = recovered();
    both.vaccinate();
    assert!(both.status().past_infected());
    assert!(both.status().vaccinated());
    let source = *infected_at(0).status();
    let mut carrier = infected_at(0);
    carrier.vaccinate();
    assert_eq!(both.status().threshold(&params, &source), 300_000);
    assert_eq!(both.status().threshold(&params, carrier.status()), 600_000);
    // a draw between the threshold for the healed and the one for the
    // vaccinated infects
    let d = TENTH * 2 + TENTH / 2;
    let mut exposed = both;
    exposed.contact_with_draw(9, params, infected_at(0), d);
    assert_eq!(exposed.status().infected(), Some(9));
    let mut spared = both;
    spared.contact_with_draw(9, params, infected_at(0), TENTH * 3 + 1);
    assert_eq!(spared.status().infected(), None);
}

#[test]
fn contact_with_a_healthy_source_changes_nothing() {
    let params = distinct();
    let mut person = healthy();
    person.contact_with_draw(9, params, healthy(), 0);
    assert_eq!(person.status().infected(), None);
    person.contact_with_draw(9, params, recovered(), 0);
    assert_eq!(person.status().infected(), None);
}

#[test]
fn contact_infects_exactly_below_the_threshold() {
    let params = distinct();
    let mut person = healthy();
    person.contact_with_draw(9, params, infected_at(0), TENTH + 1);
    assert_eq!(person.status().infected(), None);
    person.contact_with_draw(9, params, infected_at(0), TENTH);
    assert_eq!(person.status().infected(), Some(9));
    assert!(!person.status().past_infected());
    assert!(!person.status().vaccinated());
}

#[test]
fn contact_restarts_a_running_infection() {
    let params = distinct();
    let mut person = infected_at(3);
    person.contact_with_draw(9, params, infected_at(0), 0);
    assert_eq!(person.status().infected(), Some(9));
}

#[test]
fn contact_can_infect_a_healed_agent_again() {
    let params = distinct();
    let mut person = recovered();
    person.contact_with_draw(50, params, infected_at(0), 2 * TENTH);
    assert_eq!(person.status().infected(), Some(50));
    assert!(person.status().past_infected());
    assert_eq!(category(person.status()), Category::Infected);
}

#[test]
fn contact_with_rng_keeps_to_the_possible_outcomes() {
    let mut params = distinct();
    params.infection_prob_infected_to_general = 1_000_000;
    let mut rng = StdRng::seed_from_u64(1);
    let mut person = healthy();
    person.contact(12, params, infected_at(0), &mut rng);
    assert_eq!(person.status().infected(), Some(12));
    params.infection_prob_infected_to_general = 0;
    let mut other = healthy();
    other.contact(12, params, infected_at(0), &mut rng);
    assert_eq!(other.status().infected(), None);
}

#[test]
fn death_strikes_exactly_below_rate_times_step_over_duration() {
    let params = Params::default();
    // 0.02 * 0.05 / 30 of the draw range
    assert!(death_strikes(&params, 50_000, 300_239_975_158));
    assert!(!death_strikes(&params, 50_000, 300_239_975_159));
    assert!(!death_strikes(&params, 0, 0));
    assert!(!death_strikes(&quiet(), 50_000, 0));
}

#[test]
fn recovery_comes_exactly_below_elapsed_over_duration_less_seven_tenths() {
    let params = quiet();
    // 24 / 30 - 0.7 = 0.1
    assert!(recovery_comes(&params, 24_000_000, 0, TENTH));
    assert!(!recovery_comes(&params, 24_000_000, 0, TENTH + 1));
    // the same with the infection at 6 and the time at 30
    assert!(recovery_comes(&params, 30_000_000, 6_000_000, TENTH));
    assert!(!recovery_comes(&params, 30_000_000, 6_000_000, TENTH + 1));
    // one millionth past 21: ten parts in thirty million
    assert!(recovery_comes(&params, 21_000_001, 0, 300_239_975));
    assert!(!recovery_comes(&params, 21_000_001, 0, 300_239_976));
}

#[test]
fn no_draw_heals_before_seven_tenths_of_the_duration() {
    let params = quiet();
    assert!(!recovery_comes(&params, 21_000_000, 0, 0));
    assert!(!recovery_comes(&params, 20_999_999, 0, 0));
    assert!(!recovery_comes(&params, 0, 0, 0));
    assert!(!recovery_comes(&params, -5, 0, 0));
    assert!(recovery_comes(&params, 21_000_001, 0, 0));
}

#[test]
fn recovery_is_certain_after_seventeen_tenths() {
    let params = quiet();
    assert!(recovery_comes(&params, 51_000_000, 0, DRAW_RANGE - 1));
    assert!(!recovery_comes(&params, 50_999_999, 0, DRAW_RANGE - 1));
}

#[test]
fn update_leaves_the_uninfected_alone() {
    let mut person = healthy();
    let dead = person.update_status_with_draws(99_000_000, Params::default(), 50_000, 0, 0);
    assert!(!dead);
    assert_eq!(person.status().infected(), None);
    assert!(!person.status().past_infected());
}

#[test]
fn death_comes_before_recovery() {
    let mut person = infected_at(0);
    let dead = person.update_status_with_draws(60_000_000, Params::default(), 50_000, 0, 0);
    assert!(dead);
    assert_eq!(person.status().infected(), Some(0));
    assert!(!person.status().past_infected());
}

#[test]
fn survivor_recovers_and_is_marked() {
    let mut person = infected_at(0);
    person.vaccinate();
    let dead = person.update_status_with_draws(
        24_000_000,
        Params::default(),
        50_000,
        300_239_975_159,
        TENTH,
    );
    assert!(!dead);
    assert_eq!(person.status().infected(), None);
    assert!(person.status().past_infected());
    assert!(person.status().vaccinated());
    assert_eq!(category(person.status()), Category::Vaccinated);
}

#[test]
fn survivor_stays_infected_when_the_draw_is_high() {
    let mut person = infected_at(0);
    let dead = person.update_status_with_draws(
        24_000_000,
        Params::default(),
        50_000,
        300_239_975_159,
        TENTH + 1,
    );
    assert!(!dead);
    assert_eq!(person.status().infected(), Some(0));
    assert!(!person.status().past_infected());
}

#[test]
fn no_recovery_before_time_twenty_one_for_any_seed() {
    let params = quiet();
    for seed in 0..200u64 {
        let mut rng = StdRng::seed_from_u64(seed);
        let mut person = infected_at(0);
        let mut time: i64 = 0;
        while time < 21_000_000 {
            time += 50_000;
            let dead = person.update_status(time, params, 50_000, &mut rng);
            assert!(!dead);
            assert!(!person.status().past_infected());
            assert_eq!(person.status().infected(), Some(0));
        }
    }
}

#[test]
fn recovery_fires_after_time_twenty_one_for_some_seed() {
    let params = quiet();
    let mut healed = 0;
    for seed in 0..200u64 {
        let mut rng = StdRng::seed_from_u64(seed);
        let mut person = infected_at(0);
        let dead = person.update_status(30_000_000, params, 50_000, &mut rng);
        assert!(!dead);
        if person.status().past_infected() {
            assert_eq!(person.status().infected(), None);
            healed += 1;
        }
    }
    // the chance is three tenths for each seed
    assert!(healed > 20 && healed < 120);
}

#[test]
fn update_with_rng_kills_when_death_is_certain() {
    let mut params = Params::default();
    params.infection_avg_duration = 1;
    params.death_rate = 1_000_000_000_000;
    let mut rng = StdRng::seed_from_u64(3);
    let mut person = infected_at(0);
    assert!(person.update_status(50_000, params, 50_000, &mut rng));
    let mut well = healthy();
    assert!(!well.update_status(50_000, params, 50_000, &mut rng));
}

#[test]
fn draws_stay_below_the_range_and_vary() {
    let mut rng = StdRng::seed_from_u64(11);
    let first = draw(&mut rng);
    let mut differs = false;
    for _ in 0..100 {
        let d = draw(&mut rng);
        assert!(d < DRAW_RANGE);
        if d != first {
            differs = true;
        }
    }
    assert!(differs);
}

#[test]
fn categories_are_told_apart() {
    assert_eq!(category(healthy().status()), Category::Healthy);
    assert_eq!(category(infected_at(1).status()), Category::Infected);
    assert_eq!(category(recovered().status()), Category::Healed);
    let mut person = healthy();
    person.vaccinate();
    assert_eq!(category(person.status()), Category::Vaccinated);
    person.infect(2);
    assert_eq!(category(person.status()), Category::VaccinatedInfected);
}

#[test]
fn random_person_stands_inside_the_margins() {
    let mut rng = StdRng::seed_from_u64(5);
    let mut xs = Vec::new();
    for _ in 0..200 {
        let person = Person::random(&mut rng, (3_000_000, 8_000_000), Vec2 { x: 7, y: 8 });
        assert!(person.pos().x >= 500_000 && person.pos().x < 2_500_000);
        assert!(person.pos().y >= 500_000 && person.pos().y < 7_500_000);
        assert_eq!(person.vel(), Vec2 { x: 7, y: 8 });
        assert_eq!(person.status().infected(), None);
        xs.push(person.pos().x);
    }
    xs.sort();
    xs.dedup();
    assert!(xs.len() > 100);
}

#[test]
fn a_word_gives_its_upper_bits_as_the_draw() {
    assert_eq!(DRAW_DROPPED, 2048);
    assert_eq!(draw_from_word(0), 0);
    assert_eq!(draw_from_word(2047), 0);
    assert_eq!(draw_from_word(2048), 1);
    assert_eq!(draw_from_word(5 * 2048 + 7), 5);
    assert_eq!(draw_from_word(u64::MAX), DRAW_RANGE - 1);
    assert_eq!(draw_from_word(1 << 63), DRAW_RANGE / 2);
}

#[test]
fn death_is_decided_for_a_step_of_any_length() {
    let params = Params::default();
    // 0.02 * 30 / 30 of the draw range
    assert!(death_strikes(&params, 30_000_000, 180_143_985_094_819));
    assert!(!death_strikes(&params, 30_000_000, 180_143_985_094_820));
    // fifty times the duration makes death certain
    assert!(death_strikes(&params, 1_500_000_000, DRAW_RANGE - 1));
    assert!(!death_strikes(&params, 1_499_999_999, DRAW_RANGE - 1));
    assert!(death_strikes(&params, i64::MAX, DRAW_RANGE - 1));
    // no time or less, no risk
    assert!(!death_strikes(&params, 0, 0));
    assert!(!death_strikes(&params, -50_000, 0));
    assert!(!death_strikes(&params, i64::MIN, 0));
}

#[test]
fn death_is_decided_at_the_limits_of_the_rates() {
    let mut params = Params::default();
    params.death_rate = 1_000_000_000_000;
    params.infection_avg_duration = 1_000_000_000_000;
    // the risk is the length of the step
    assert!(death_strikes(&params, 500_000, DRAW_RANGE / 2 - 1));
    assert!(!death_strikes(&params, 500_000, DRAW_RANGE / 2));
    assert!(death_strikes(&params, i64::MAX, u64::MAX));
    params.infection_avg_duration = 1;
    assert!(death_strikes(&params, 1, u64::MAX));
    params.death_rate = 0;
    assert!(!death_strikes(&params, i64::MAX, 0));
}

#[test]
fn no_recovery_before_time_twenty_one_for_a_step_of_any_length() {
    let params = quiet();
    for seed in 0..50u64 {
        let mut rng = StdRng::seed_from_u64(seed);
        for dt in [0, 1, 50_000, 7_000_000, 21_000_000, i64::MAX] {
            let mut person = infected_at(0);
            let dead = person.update_status(21_000_000, params, dt, &mut rng);
            assert!(!dead);
            assert_eq!(person.status().infected(), Some(0));
            assert!(!person.status().past_infected());
        }
    }
}
