use outbreak_sim::events::Event;
use outbreak_sim::events::EventIndex;
use outbreak_sim::events::EventType;
use outbreak_sim::graphics::WorldGrid;
use outbreak_sim::routing::transit::TransitEdge;
use outbreak_sim::shared::Bounds;
use outbreak_sim::shared::Pos;
use outbreak_sim::Model;
use outbreak_sim::Sim;
use outbreak_sim::SimBuilder;
use outbreak_sim::disease::State;
use outbreak_sim::disease::Uniform;

fn enter_event(agent_idx: u32, end_time_step: u64, container: u64) -> Event {
    Event { agent_idx, end_time_step, event_type: EventType::EnterContainer(container) }
}

#[test]
fn test_event_queue_returns_events_at_their_offset() {
    // An event inserted at relative offset k comes back exactly k pops
    // later, and pops yield events in non-decreasing due-time order.
    let mut queue = EventIndex::new();
    let e_now = enter_event(0, 10, 0);
    let e_soon = enter_event(1, 11, 0);
    let e_late_a = enter_event(2, 12, 0);
    let e_late_b = enter_event(3, 12, 1);
    queue.push_or_grow(2, e_late_a);
    queue.push_or_grow(0, e_now);
    queue.push_or_grow(1, e_soon);
    queue.push_or_grow(2, e_late_b);

    assert_eq!(queue.len(), 3);
    let first = queue.pop_front().unwrap();
    assert_eq!(first, vec![e_now]);
    let second = queue.pop_front().unwrap();
    assert_eq!(second, vec![e_soon]);
    let third = queue.pop_front().unwrap();
    assert_eq!(third, vec![e_late_a, e_late_b]);
    assert!(queue.pop_front().is_none());

    // Due times came out in non-decreasing order.
    let mut last_due = 0;
    for event in [e_now, e_soon, e_late_a, e_late_b] {
        assert!(event.end_time_step >= last_due);
        last_due = event.end_time_step;
    }
}

#[test]
fn test_event_queue_grows_on_demand() {
    let mut queue = EventIndex::new();
    assert_eq!(queue.len(), 0);
    assert!(queue.pop_front().is_none());
    let event = enter_event(5, 4, 2);
    queue.push_or_grow(4, event);
    assert_eq!(queue.len(), 5);
    for _ in 0..4 {
        let bucket = queue.pop_front().unwrap();
        assert!(bucket.is_empty());
    }
    let bucket = queue.pop_front().unwrap();
    assert_eq!(bucket, vec![event]);
}

fn two_agent_model() -> Model {
    // Agent 0 commutes between household 0 and the single workplace; agent 1
    // has no occupation and stays in household 1.
    Model {
        bounds: Bounds { max_x: 10000, max_y: 10000 },
        household_positions: vec![Pos { x: 1000, y: 1000 }, Pos { x: 2000, y: 2000 }],
        workplace_positions: vec![Pos { x: 8000, y: 8000 }],
        agent_household_indices: vec![0, 1],
        agent_workplace_indices: vec![0, u32::MAX],
        transit_node_positions: vec![Pos { x: 1100, y: 1100 }, Pos { x: 7900, y: 7900 }],
        transit_edges: vec![
            TransitEdge { start_node: 0, end_node: 1, weight: 3 },
            TransitEdge { start_node: 1, end_node: 0, weight: 3 },
        ],
    }
}

fn assert_membership_exclusive(sim: &Sim<Uniform>) {
    // Every agent index appears in at most one container's inhabitant list,
    // and at most once there.
    let num_containers = sim.containers.len() as u64;
    let mut seen = vec![0u32; sim.agents.num_agents as usize];
    for c in 0..num_containers {
        let container = sim.containers.get(c).unwrap();
        for &agent in container.inhabitants.iter() {
            seen[agent as usize] += 1;
        }
    }
    for (agent, &count) in seen.iter().enumerate() {
        assert!(
            count <= 1,
            "agent {} appears {} times across containers",
            agent,
            count
        );
    }
}

#[test]
fn test_agent_without_occupation_never_commutes() {
    // The agent without an occupation gets no events, never leaves its
    // household, and (with seeding off and nobody infectious) never changes
    // state; membership exclusivity holds at every tick.
    let model = two_agent_model();
    let mut sim = SimBuilder::new().seed_infection_chance(0).build(&model);

    assert_eq!(sim.events.pending_count_for(0), 1);
    assert_eq!(sim.events.pending_count_for(1), 0);

    for time_step in 0..200 {
        assert!(sim.update(time_step).is_ok());
        assert_eq!(sim.events.pending_count_for(1), 0);
        let household = sim.containers.get(1).unwrap();
        assert!(household.inhabitants.contains(&1));
        assert_eq!(sim.agents.disease_statuses[1].state, State::Susceptible);
        assert_membership_exclusive(&sim);
    }
    // The commuting agent still owns exactly one pending event.
    assert_eq!(sim.events.pending_count_for(0), 1);
}

#[test]
fn test_end_of_simulation() {
    let model = two_agent_model();
    let mut sim = SimBuilder::new()
        .seed_infection_chance(0)
        .sim_length_days(Some(1))
        .build(&model);

    // One day is 48 half-hour steps with the default resolution.
    for time_step in 0..48 {
        assert!(sim.update(time_step).is_ok());
    }
    let stopped = sim.update(48);
    assert!(stopped.is_err());
    assert_eq!(
        stopped.unwrap_err().message(),
        "simulation has reached the configured maximum number of days"
    );
}

#[test]
fn test_builder_defaults() {
    let model = two_agent_model();
    let sim = SimBuilder::new().build(&model);
    assert_eq!(sim.params.time_steps_per_day, 48);
    assert_eq!(sim.params.sim_length_days, Some(60));
    assert_eq!(sim.params.seed_infection_chance, 10_000);
    // 5 km/h over half-hour steps is 2500 metres per step.
    assert_eq!(sim.params.walking_speed, 2_500);
    assert_eq!(sim.params.driving_speed, 30_000);
    assert_eq!(sim.agents.num_agents, 2);
    assert_eq!(sim.next_time_step, 0);
    // The derived transmission chance: fifty parts per million per
    // contact-hour at half-hour steps.
    assert_eq!(
        sim.containers.get(0).unwrap().mixing_strategy.transmission_chance,
        25
    );
}

#[test]
fn test_builder_transmission_chance_override() {
    let model = two_agent_model();
    let sim = SimBuilder::new().transmission_chance(1_000).build(&model);
    assert_eq!(
        sim.containers.get(0).unwrap().mixing_strategy.transmission_chance,
        1_000
    );
}

#[test]
fn test_world_grid_tallies_and_draw() {
    let model = two_agent_model();
    let mut sim = SimBuilder::new().seed_infection_chance(0).build(&model);
    sim.agents.disease_statuses[1] =
        outbreak_sim::disease::DiseaseStatus { state: State::Infectious, infected_for: 1 };

    let mut world = WorldGrid::new_empty(10, 10);
    world.update(&sim);

    // Household 1 sits at (2000, 2000) of a 10000-unit space: column 2, and
    // row 8 of the vertically flipped ten-row screen.  Agent 1 lives there.
    let idx = 8 * 10 + 2;
    assert_eq!(world.cells[idx].total, 1);
    assert_eq!(world.cells[idx].num_infectious, 1);
    assert_eq!(world.max_at_cell, 1);

    let mut screen = vec![0u8; 4 * 100];
    world.draw(&mut screen);
    // A cell whose single inhabitant is infectious draws fully red.
    assert_eq!(screen[4 * idx], 255);
    assert_eq!(screen[4 * idx + 1], 0);
    // An empty cell draws black.
    assert_eq!(screen[0], 0);
    assert_eq!(screen[1], 0);
}

#[test]
fn test_event_queue_get_or_grow() {
    // Reading a bucket past the end grows the queue with empty buckets,
    // without touching pending events.
    let mut queue = EventIndex::new();
    let event = enter_event(9, 1, 0);
    queue.push_or_grow(1, event);
    assert!(queue.get_or_grow(0).is_empty());
    assert_eq!(queue.len(), 2);
    assert_eq!(queue.get_or_grow(3).len(), 0);
    assert_eq!(queue.len(), 4);
    assert_eq!(*queue.get_or_grow(1), vec![event]);
}

#[test]
fn test_empty_model_runs() {
    // A model with no agents, no workplaces and no transit network still
    // builds and ticks without incident.
    let model = Model {
        bounds: Bounds { max_x: 100, max_y: 100 },
        household_positions: vec![Pos { x: 10, y: 10 }],
        workplace_positions: vec![],
        agent_household_indices: vec![],
        agent_workplace_indices: vec![],
        transit_node_positions: vec![],
        transit_edges: vec![],
    };
    let mut sim = SimBuilder::new().build(&model);
    assert_eq!(sim.agents.num_agents, 0);
    for time_step in 0..10 {
        assert!(sim.update(time_step).is_ok());
    }
}
