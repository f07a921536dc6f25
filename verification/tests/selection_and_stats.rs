use pandemic_sim::simulation::indices::identity_order;
use pandemic_sim::simulation::params::Params;
use pandemic_sim::simulation::person::Person;
use pandemic_sim::simulation::space::{Topology, Vec2};
use pandemic_sim::simulation::stats::{census, Statistics};
use pandemic_sim::simulation::{SimError, Simulation};
use rand::rngs::StdRng;
use rand::SeedableRng;

fn row(n: usize) -> Simulation {
    let mut params = Params::default();
    params.num_people = n;
    params.size_x = 300_000_000;
    params.size_y = 10_000_000;
    params.topology = Topology::Bounded;
    let people: Vec<Person> = (0..n)
        .map(|k| Person::new(Vec2 { x: 2_000_000 * (k as i64 + 1), y: 5_000_000 }, Vec2 { x: 0, y: 0 }))
        .collect();
    Simulation::with_people(params, people).unwrap()
}

fn infected_indices(sim: &Simulation) -> Vec<usize> {
    sim.people()
        .iter()
        .enumerate()
        .filter(|(_, p)| p.status().infected().is_some())
        .map(|(i, _)| i)
        .collect()
}

fn vaccinated_indices(sim: &Simulation) -> Vec<usize> {
    sim.people()
        .iter()
        .enumerate()
        .filter(|(_, p)| p.status().vaccinated())
        .map(|(i, _)| i)
        .collect()
}

#[test]
fn identity_order_counts_up() {
    assert_eq!(identity_order(0), vec![]);
    assert_eq!(identity_order(4), vec![0, 1, 2, 3]);
}

#[test]
fn infect_marks_exactly_as_many_as_asked() {
    let mut rng = StdRng::seed_from_u64(21);
    let mut sim = row(50);
    assert_eq!(sim.infect(7, &mut rng), Ok(()));
    let chosen = infected_indices(&sim);
    assert_eq!(chosen.len(), 7);
    for p in sim.people() {
        if let Some(since) = p.status().infected() {
            assert_eq!(since, 0);
        }
        assert!(!p.status().vaccinated());
        assert!(!p.status().past_infected());
    }
    assert_eq!(sim.people()[3].pos(), Vec2 { x: 8_000_000, y: 5_000_000 });
}

#[test]
fn infect_more_than_the_population_fails_and_infects_nobody() {
    let mut rng = StdRng::seed_from_u64(21);
    let mut sim = row(5);
    assert_eq!(sim.infect(6, &mut rng), Err(SimError::SelectionOverflow));
    assert_eq!(infected_indices(&sim), vec![]);
    assert_eq!(sim.infect(5, &mut rng), Ok(()));
    assert_eq!(infected_indices(&sim), vec![0, 1, 2, 3, 4]);
}

#[test]
fn vaccinate_more_than_the_population_fails_and_vaccinates_nobody() {
    let mut rng = StdRng::seed_from_u64(21);
    let mut sim = row(5);
    assert_eq!(sim.vaccinate(usize::MAX, &mut rng), Err(SimError::SelectionOverflow));
    assert_eq!(vaccinated_indices(&sim), vec![]);
}

#[test]
fn infect_nobody_changes_nothing() {
    let mut rng = StdRng::seed_from_u64(21);
    let mut sim = row(5);
    assert_eq!(sim.infect(0, &mut rng), Ok(()));
    assert_eq!(infected_indices(&sim), vec![]);
    let mut empty = row(0);
    assert_eq!(empty.infect(0, &mut rng), Ok(()));
    assert_eq!(empty.infect(1, &mut rng), Err(SimError::SelectionOverflow));
}

#[test]
fn infect_chooses_differently_for_different_seeds() {
    let mut seen = Vec::new();
    for seed in 0..30u64 {
        let mut rng = StdRng::seed_from_u64(seed);
        let mut sim = row(50);
        sim.infect(3, &mut rng).unwrap();
        let chosen = infected_indices(&sim);
        assert_eq!(chosen.len(), 3);
        seen.push(chosen);
    }
    // an order that was never shuffled would choose the first three each time
    assert!(seen.iter().any(|chosen| chosen != &vec![0, 1, 2]));
    seen.sort();
    seen.dedup();
    assert!(seen.len() > 20);
}

#[test]
fn vaccinate_marks_exactly_as_many_as_asked() {
    let mut rng = StdRng::seed_from_u64(22);
    let mut sim = row(50);
    sim.infect(10, &mut rng).unwrap();
    assert_eq!(sim.vaccinate(20, &mut rng), Ok(()));
    assert_eq!(vaccinated_indices(&sim).len(), 20);
    assert_eq!(infected_indices(&sim).len(), 10);
    let stats = sim.stats();
    assert_eq!(stats.population, 50);
    assert_eq!(stats.infected, 10);
    assert_eq!(stats.vaccinated, 20);
    assert!(stats.vaccinated_infected <= 10);
    assert_eq!(stats.healed, 0);
    assert_eq!(stats.dead, 0);
}

#[test]
fn infect_selected_marks_the_first_places_of_the_order() {
    let mut sim = row(6);
    assert_eq!(sim.infect_selected(2, &vec![4, 1, 3]), Ok(()));
    assert_eq!(infected_indices(&sim), vec![1, 4]);
    assert_eq!(sim.infect_selected(4, &vec![4, 1, 3]), Err(SimError::SelectionOverflow));
    assert_eq!(infected_indices(&sim), vec![1, 4]);
    assert_eq!(sim.infect_selected(0, &vec![]), Ok(()));
    assert_eq!(infected_indices(&sim), vec![1, 4]);
}

#[test]
fn vaccinate_selected_marks_the_first_places_of_the_order() {
    let mut sim = row(6);
    assert_eq!(sim.vaccinate_selected(3, &vec![5, 0, 5, 2]), Ok(()));
    assert_eq!(vaccinated_indices(&sim), vec![0, 5]);
    assert_eq!(sim.vaccinate_selected(5, &vec![5, 0, 5, 2]), Err(SimError::SelectionOverflow));
    assert_eq!(infected_indices(&sim), vec![]);
}

#[test]
fn infection_takes_the_present_time() {
    let mut rng = StdRng::seed_from_u64(22);
    let mut sim = row(3);
    sim.step(30_000, &mut rng);
    sim.infect_selected(1, &vec![2]).unwrap();
    assert_eq!(sim.people()[2].status().infected(), Some(30_000));
}

#[test]
fn census_counts_each_group() {
    let mut well = Person::new(Vec2 { x: 0, y: 0 }, Vec2 { x: 0, y: 0 });
    let mut ill = well;
    ill.infect(0);
    let mut shot = well;
    shot.vaccinate();
    let mut shot_ill = ill;
    shot_ill.vaccinate();
    let mut healed = ill;
    let params = Params::default();
    assert!(!healed.update_status_with_draws(60_000_000, params, 50_000, u64::MAX >> 11, 0));
    let mut healed_ill = healed;
    healed_ill.infect(5);
    let mut healed_shot = healed;
    healed_shot.vaccinate();
    well.set_vel(Vec2 { x: 1, y: 1 });
    let people = vec![well, ill, ill, shot, shot_ill, healed, healed, healed, healed_ill, healed_shot];
    assert_eq!(
        census(&people, 4),
        Statistics {
            population: 10,
            infected: 4,
            vaccinated: 3,
            vaccinated_infected: 1,
            healed: 3,
            dead: 4,
        }
    );
    assert_eq!(
        census(&Vec::new(), 0),
        Statistics { population: 0, infected: 0, vaccinated: 0, vaccinated_infected: 0, healed: 0, dead: 0 }
    );
}
