use pandemic_sim::simulation::chart::{
    can_index, floor_to_unit, levels, strip_indices, strip_of, StatsBuf, LEVELS, STRIPS,
};
use pandemic_sim::simulation::controls::{SimulationParameters, COMPRESSION_STEP};
use pandemic_sim::simulation::params::Params;
use pandemic_sim::simulation::person::Person;
use pandemic_sim::simulation::space::{Topology, Vec2};
use pandemic_sim::simulation::stats::Statistics;
use pandemic_sim::simulation::Simulation;
use rand::rngs::StdRng;
use rand::SeedableRng;

fn counts() -> Statistics {
    Statistics {
        population: 100,
        infected: 30,
        vaccinated: 25,
        vaccinated_infected: 5,
        healed: 12,
        dead: 7,
    }
}

fn lone_walker() -> Simulation {
    let mut params = Params::default();
    params.num_people = 1;
    params.size_x = 10_000_000;
    params.size_y = 10_000_000;
    params.topology = Topology::Toroidal;
    let people = vec![Person::new(Vec2 { x: 1_000_000, y: 1_000_000 }, Vec2 { x: 1_000_000, y: 0 })];
    Simulation::with_people(params, people).unwrap()
}

#[test]
fn levels_stack_the_groups() {
    assert_eq!(levels(&counts()), [0, 20, 25, 50, 62, 100, 107]);
    let nobody = Statistics {
        population: 0,
        infected: 0,
        vaccinated: 0,
        vaccinated_infected: 0,
        healed: 0,
        dead: 0,
    };
    assert_eq!(levels(&nobody), [0, 0, 0, 0, 0, 0, 0]);
}

#[test]
fn levels_of_a_simulation_never_fall() {
    let mut rng = StdRng::seed_from_u64(8);
    let mut params = Params::default();
    params.num_people = 60;
    params.size_x = 20_000_000;
    params.size_y = 20_000_000;
    params.death_rate = 300_000_000;
    params.infection_prob_infected_to_general = 1_000_000;
    let velocities: Vec<Vec2> = (0..60).map(|k| Vec2 { x: 8_000_000 - k * 250_000, y: k * 190_000 }).collect();
    let mut sim = Simulation::new(&mut rng, params, &velocities).unwrap();
    sim.infect(10, &mut rng).unwrap();
    sim.vaccinate(20, &mut rng).unwrap();
    for _ in 0..300 {
        sim.step(50_000, &mut rng);
        let heights = levels(&sim.stats());
        for k in 0..LEVELS - 1 {
            assert!(heights[k] <= heights[k + 1]);
        }
        assert_eq!(heights[LEVELS - 1], 60);
    }
}

#[test]
fn time_is_rounded_down_to_a_whole_unit() {
    assert_eq!(floor_to_unit(0), 0);
    assert_eq!(floor_to_unit(999_999), 0);
    assert_eq!(floor_to_unit(1_000_000), 1_000_000);
    assert_eq!(floor_to_unit(7_250_000), 7_000_000);
    assert_eq!(floor_to_unit(-1), -1_000_000);
    assert_eq!(floor_to_unit(-1_000_000), -1_000_000);
}

#[test]
fn strip_indices_pair_the_points_of_each_sample() {
    assert_eq!(STRIPS, 6);
    assert_eq!(LEVELS, 7);
    let indices = strip_indices(3);
    assert_eq!(indices.len(), 6);
    assert_eq!(indices[0], vec![0, 1, 7, 8, 14, 15]);
    assert_eq!(indices[1], vec![1, 2, 8, 9, 15, 16]);
    assert_eq!(indices[5], vec![5, 6, 12, 13, 19, 20]);
    assert_eq!(strip_of(2, 2), vec![2, 3, 9, 10]);
    let none = strip_indices(0);
    assert_eq!(none, vec![Vec::<u16>::new(); 6]);
}

#[test]
fn strip_indices_reach_the_last_point_that_can_be_indexed() {
    let indices = strip_indices(9362);
    assert_eq!(indices[5].len(), 2 * 9362);
    assert_eq!(indices[5][2 * 9361 + 1], 65_533);
    assert_eq!(indices[0][2 * 9361], 65_527);
}

#[test]
fn empty_history_spans_zero_to_one() {
    let buf = StatsBuf::new();
    assert_eq!(buf.min_t(), 0);
    assert_eq!(buf.max_t(), 1_000_000);
    assert_eq!(buf.data().len(), 0);
}

#[test]
fn history_spans_its_first_and_last_sample() {
    let mut buf = StatsBuf::new();
    buf.record(2_000_000, counts());
    assert_eq!(buf.min_t(), 2_000_000);
    assert_eq!(buf.max_t(), 2_000_000);
    buf.record(5_000_000, counts());
    buf.record(9_000_000, counts());
    assert_eq!(buf.min_t(), 2_000_000);
    assert_eq!(buf.max_t(), 9_000_000);
    assert_eq!(buf.data().len(), 3);
    assert_eq!(buf.data()[1], (5_000_000, counts()));
}

#[test]
fn observe_records_once_for_each_whole_unit() {
    let mut buf = StatsBuf::new();
    assert!(buf.observe(-10_000, 0, counts()));
    assert!(!buf.observe(0, 400_000, counts()));
    assert!(!buf.observe(400_000, 999_999, counts()));
    assert!(buf.observe(999_999, 1_000_001, counts()));
    assert!(!buf.observe(1_000_001, 1_900_000, counts()));
    assert!(buf.observe(1_900_000, 4_100_000, counts()));
    let times: Vec<i64> = buf.data().iter().map(|(t, _)| *t).collect();
    assert_eq!(times, vec![0, 1_000_000, 4_000_000]);
}

#[test]
fn controls_start_paused_at_the_speed_of_the_clock() {
    let controls = SimulationParameters::new();
    assert!(!controls.running);
    assert_eq!(controls.time_compression, 1_000_000);
    assert_eq!(controls.effective(40_000), 0);
}

#[test]
fn toggle_pauses_and_resumes() {
    let mut controls = SimulationParameters::new();
    controls.toggle_running();
    assert!(controls.running);
    assert_eq!(controls.effective(40_000), 40_000);
    controls.toggle_running();
    assert!(!controls.running);
    assert_eq!(controls.time_compression, 1_000_000);
}

#[test]
fn time_compression_moves_by_tenths() {
    assert_eq!(COMPRESSION_STEP, 100_000);
    let mut controls = SimulationParameters { time_compression: 1_000_000, running: true };
    controls.increase_time_compression();
    controls.increase_time_compression();
    assert_eq!(controls.time_compression, 1_200_000);
    assert_eq!(controls.effective(40_000), 48_000);
    for _ in 0..11 {
        controls.decrease_time_compression();
    }
    assert_eq!(controls.time_compression, 100_000);
    assert_eq!(controls.effective(40_000), 4_000);
    assert_eq!(controls.effective(9), 0);
    controls.decrease_time_compression();
    assert_eq!(controls.time_compression, 0);
    assert_eq!(controls.effective(40_000), 0);
    controls.decrease_time_compression();
    assert_eq!(controls.time_compression, 0);
    assert!(controls.running);
}

#[test]
fn time_compression_stops_at_the_limits() {
    let mut controls = SimulationParameters { time_compression: i64::MAX - 5, running: true };
    controls.increase_time_compression();
    assert_eq!(controls.time_compression, i64::MAX);
    assert_eq!(controls.effective(i64::MAX), i64::MAX);
    let mut odd = SimulationParameters { time_compression: 50_000, running: true };
    odd.decrease_time_compression();
    assert_eq!(odd.time_compression, 0);
    let mut negative = SimulationParameters { time_compression: -3, running: true };
    negative.decrease_time_compression();
    assert_eq!(negative.time_compression, -3);
    assert_eq!(negative.effective(40_000), 0);
}

#[test]
fn effective_time_is_never_negative() {
    let controls = SimulationParameters { time_compression: 2_000_000, running: true };
    assert_eq!(controls.effective(-40_000), 0);
    assert_eq!(controls.effective(0), 0);
    assert_eq!(controls.effective(1), 2);
}

#[test]
fn a_paused_simulation_does_not_step() {
    let mut rng = StdRng::seed_from_u64(8);
    let mut sim = lone_walker();
    let controls = SimulationParameters::new();
    sim.step_controlled(40_000, &mut rng, &controls);
    assert_eq!(sim.time(), 0);
    assert_eq!(sim.people()[0].pos(), Vec2 { x: 1_000_000, y: 1_000_000 });
}

#[test]
fn a_running_simulation_steps_by_the_compressed_time() {
    let mut rng = StdRng::seed_from_u64(8);
    let mut sim = lone_walker();
    let mut controls = SimulationParameters::new();
    controls.toggle_running();
    controls.decrease_time_compression();
    controls.decrease_time_compression();
    controls.decrease_time_compression();
    controls.decrease_time_compression();
    controls.decrease_time_compression();
    sim.step_controlled(40_000, &mut rng, &controls);
    assert_eq!(sim.time(), 20_000);
    assert_eq!(sim.people()[0].pos(), Vec2 { x: 1_020_000, y: 1_000_000 });
    // a compressed time beyond the longest step is cut, and a negative one
    // is taken for none
    sim.step_controlled(400_000, &mut rng, &controls);
    assert_eq!(sim.time(), 70_000);
    sim.step_controlled(-400_000, &mut rng, &controls);
    assert_eq!(sim.time(), 70_000);
}

#[test]
fn samples_can_be_indexed_up_to_the_range_of_the_indices() {
    assert!(can_index(0));
    assert!(can_index(9362));
    assert!(!can_index(9363));
    assert!(!can_index(usize::MAX));
}

#[test]
fn consistent_counts_are_told_from_others() {
    assert!(counts().is_consistent());
    let mut more_shown = counts();
    more_shown.healed = 51;
    assert!(!more_shown.is_consistent());
    more_shown.healed = 50;
    assert!(more_shown.is_consistent());
    let mut both = counts();
    both.vaccinated_infected = 26;
    assert!(!both.is_consistent());
    let mut crowd = counts();
    crowd.population = usize::MAX;
    assert!(!crowd.is_consistent());
    crowd.dead = 0;
    assert!(crowd.is_consistent());
}
