use outbreak_sim::containers::Containers;
use outbreak_sim::disease::construct_disease_status_array;
use outbreak_sim::disease::mixing::MixingStrategy;
use outbreak_sim::disease::DiseaseStatus;
use outbreak_sim::disease::State;
use outbreak_sim::disease::Uniform;
use outbreak_sim::agents::Agents;
use outbreak_sim::reporting::count_states;
use rand::SeedableRng;
use outbreak_sim::shared::Pos;
use outbreak_sim::shared::SimParams;
use outbreak_sim::shared::CHANCE_SCALE;

fn test_params() -> SimParams {
    SimParams {
        time_steps_per_day: 48,
        sim_length_days: Some(60),
        seed_infection_chance: 0,
        walking_speed: 2_500,
        cycling_speed: 11_750,
        driving_speed: 30_000,
    }
}

#[test]
fn test_infect_exposes_fresh() {
    let mut status = DiseaseStatus { state: State::Susceptible, infected_for: 0 };
    status.infect();
    assert_eq!(status.state, State::Exposed);
    assert_eq!(status.infected_for, 0);
}

#[test]
fn test_progression_transitions_once_each() {
    // A status seeded Exposed, progressed one step at a time, turns
    // Infectious exactly once (past the incubation threshold) and later
    // Recovered exactly once (past the recovery threshold).
    let params = test_params();
    let mut status = DiseaseStatus { state: State::Exposed, infected_for: 0 };
    let mut became_infectious = 0;
    let mut became_recovered = 0;
    let mut previous = status.state;
    // Thresholds: incubation at 3 * 48 = 144 ticks, recovery at 12 * 48 = 576.
    for _ in 0..700 {
        status.progress_infection(1, &params);
        if previous != State::Infectious && status.state == State::Infectious {
            became_infectious += 1;
        }
        if previous != State::Recovered && status.state == State::Recovered {
            became_recovered += 1;
        }
        assert_ne!(status.state, State::Susceptible);
        previous = status.state;
        if status.state == State::Recovered {
            break;
        }
    }
    assert_eq!(became_infectious, 1);
    assert_eq!(became_recovered, 1);
    assert_eq!(status.state, State::Recovered);
    assert_eq!(status.infected_for, 577);
}

#[test]
fn test_progression_terminal_threshold_checked_first() {
    // One coarse update that crosses both thresholds lands in the terminal
    // state, not in Infectious.
    let params = test_params();
    let mut status = DiseaseStatus { state: State::Exposed, infected_for: 0 };
    status.progress_infection(1000, &params);
    assert_eq!(status.state, State::Recovered);

    // Crossing only the incubation threshold turns the status Infectious.
    let mut status = DiseaseStatus { state: State::Exposed, infected_for: 0 };
    status.progress_infection(200, &params);
    assert_eq!(status.state, State::Infectious);

    // Short of the incubation threshold nothing changes but the counter.
    let mut status = DiseaseStatus { state: State::Exposed, infected_for: 0 };
    status.progress_infection(100, &params);
    assert_eq!(status.state, State::Exposed);
    assert_eq!(status.infected_for, 100);
}

#[test]
fn test_seeding_extremes() {
    let mut params = test_params();
    let mut rng = rand::rngs::StdRng::seed_from_u64(11);

    params.seed_infection_chance = 0;
    let statuses = construct_disease_status_array(100, &mut rng, &params);
    assert_eq!(statuses.len(), 100);
    assert!(statuses.iter().all(|s| s.state == State::Susceptible));

    params.seed_infection_chance = CHANCE_SCALE;
    let statuses = construct_disease_status_array(100, &mut rng, &params);
    assert!(statuses.iter().all(|s| s.state != State::Susceptible));
    assert!(statuses.iter().all(|s| s.state != State::Recovered));
}

#[test]
fn test_uniform_certain_transmission() {
    // With the accumulated chance at certainty, every susceptible occupant
    // is exposed in one pass.
    let params = test_params();
    let strategy = Uniform { transmission_chance: CHANCE_SCALE };
    let mut statuses = vec![
        DiseaseStatus { state: State::Infectious, infected_for: 10 },
        DiseaseStatus { state: State::Susceptible, infected_for: 0 },
        DiseaseStatus { state: State::Susceptible, infected_for: 0 },
        DiseaseStatus { state: State::Recovered, infected_for: 600 },
    ];
    let mut rng = rand::rngs::StdRng::seed_from_u64(5);
    strategy.handle_transmission(&mut statuses, &mut rng, 1, &params);
    assert_eq!(statuses[0].state, State::Infectious);
    assert_eq!(statuses[0].infected_for, 11);
    assert_eq!(statuses[1].state, State::Exposed);
    assert_eq!(statuses[2].state, State::Exposed);
    assert_eq!(statuses[3].state, State::Recovered);
    assert_eq!(statuses[3].infected_for, 600);
}

#[test]
fn test_uniform_no_infectious_changes_nothing() {
    let params = test_params();
    let strategy = Uniform { transmission_chance: CHANCE_SCALE };
    let mut statuses = vec![
        DiseaseStatus { state: State::Susceptible, infected_for: 0 },
        DiseaseStatus { state: State::Exposed, infected_for: 3 },
    ];
    let before = statuses.clone();
    let mut rng = rand::rngs::StdRng::seed_from_u64(5);
    strategy.handle_transmission(&mut statuses, &mut rng, 5, &params);
    assert_eq!(statuses, before);
}

#[test]
fn test_count_states_exact() {
    let statuses = vec![
        DiseaseStatus { state: State::Susceptible, infected_for: 0 },
        DiseaseStatus { state: State::Exposed, infected_for: 1 },
        DiseaseStatus { state: State::Exposed, infected_for: 2 },
        DiseaseStatus { state: State::Infectious, infected_for: 200 },
        DiseaseStatus { state: State::Recovered, infected_for: 600 },
    ];
    let counts = count_states(&statuses);
    assert_eq!(counts.num_susceptible, 1);
    assert_eq!(counts.num_exposed, 2);
    assert_eq!(counts.num_infectious, 1);
    assert_eq!(counts.num_recovered, 1);
}

#[test]
fn test_partitioned_mixing_two_containers() {
    // Containers A (three susceptible) and B (one infectious, two
    // susceptible) with certain transmission: after one global pass every
    // susceptible agent in B is exposed and every agent in A is untouched.
    let params = test_params();
    let households = vec![Pos { x: 100, y: 100 }, Pos { x: 800, y: 800 }];
    let workplaces: Vec<Pos> = vec![];
    let mut containers = Containers::new(
        &households,
        &workplaces,
        Uniform { transmission_chance: CHANCE_SCALE },
    );
    // Agents 0..3 live in A, agents 3..6 in B; nobody has an occupation, so
    // everyone is placed in its household container at construction.
    let household_indices = vec![0, 0, 0, 1, 1, 1];
    let workplace_indices = vec![u32::MAX; 6];
    let mut agents = Agents::new(&household_indices, &workplace_indices, &mut containers, &params);
    agents.disease_statuses[3] = DiseaseStatus { state: State::Infectious, infected_for: 10 };

    let infectious_before = count_states(&agents.disease_statuses).num_infectious;
    let mut rng = rand::rngs::StdRng::seed_from_u64(9);
    containers.update_all(&mut agents, &mut rng, 1, &params);
    let counts = count_states(&agents.disease_statuses);

    // Everyone in A stays susceptible.
    assert_eq!(agents.disease_statuses[0].state, State::Susceptible);
    assert_eq!(agents.disease_statuses[1].state, State::Susceptible);
    assert_eq!(agents.disease_statuses[2].state, State::Susceptible);
    // The infectious agent in B progressed, its flatmates are exposed.
    assert_eq!(agents.disease_statuses[3].state, State::Infectious);
    assert_eq!(agents.disease_statuses[3].infected_for, 11);
    assert_eq!(agents.disease_statuses[4].state, State::Exposed);
    assert_eq!(agents.disease_statuses[5].state, State::Exposed);
    // Infections only add: the infectious count never falls within a pass.
    assert!(counts.num_infectious >= infectious_before);
    assert_eq!(counts.num_infectious, 1);
    assert_eq!(counts.num_exposed, 2);
}
