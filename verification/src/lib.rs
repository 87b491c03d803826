//! An agent-based epidemic simulation kernel.
//!
//! Agents live in spatial containers (households and workplaces), commute
//! between them along a transport network, and pass an infection to the
//! agents they share a container with.  The crate provides the three coupled
//! subsystems of that kernel: a time-bucketed event scheduler, a container
//! mixing engine, and a spatial grid with shortest-path routing.

use vstd::prelude::*;

use crate::agents::Agents;
use crate::containers::Containers;
use crate::disease::mixing::mix_evolution;
use crate::disease::mixing::MixingStrategy;
use crate::disease::mixing::Uniform;
use crate::events::events_queue_wf;
use crate::events::Events;
use crate::rng::new_rng;
use crate::routing::granular_grid::spec_grid_cols;
use crate::routing::nodes_to_granular_grid;
use crate::routing::transit::preprocess_graph;
use crate::routing::transit::create_calculator;
use crate::routing::transit::TransitEdge;
use crate::routing::GranularGrid;
use crate::shared::Bounds;
use crate::shared::Pos;
use crate::shared::SimParams;
use crate::shared::TimeStep;
use crate::shared::CHANCE_SCALE;
use crate::shared::MAX_SPEED;
use crate::shared::MAX_TIME_STEP;

pub mod activities;
pub mod agents;
pub mod containers;
pub mod disease;
pub mod events;
pub mod graphics;
pub mod reporting;
pub mod rng;
pub mod routing;
pub mod shared;

verus! {

/// Returned by `Sim::update` once the configured simulation length is reached.
#[derive(Debug, Clone, Copy, PartialEq, Eq, Structural)]
pub struct EndOfSimulationError;

impl EndOfSimulationError {
    /// A human-readable account of the condition.
    pub fn message(&self) -> String {
        "simulation has reached the configured maximum number of days".to_string()
    }
}

/// The synthetic environment a run simulates, as plain data: container
/// positions, per-agent container references, and the transit network.  A
/// workplace index of `u32::MAX` means the agent has no occupation.
pub struct Model {
    pub bounds: Bounds,
    pub household_positions: Vec<Pos>,
    pub workplace_positions: Vec<Pos>,
    pub agent_household_indices: Vec<u32>,
    pub agent_workplace_indices: Vec<u32>,
    pub transit_node_positions: Vec<Pos>,
    pub transit_edges: Vec<TransitEdge>,
}

/// How many rows the transit grid uses.
pub const TRANSIT_GRID_ROWS: u32 = 100;

impl Model {
    /// Well-formed model data: valid bounds, every position inside them,
    /// every per-agent index naming an existing container, and edge node
    /// indices that leave room for fast_paths' one-past-the-end counting.
    pub open spec fn wf(self) -> bool {
        &&& self.bounds.wf()
        &&& self.agent_household_indices@.len() == self.agent_workplace_indices@.len()
        &&& self.agent_household_indices@.len() <= u32::MAX
        &&& self.household_positions@.len() + self.workplace_positions@.len() <= u32::MAX
        &&& forall|i: int|
            0 <= i < self.agent_household_indices@.len() ==> (
            #[trigger] self.agent_household_indices@[i]) < self.household_positions@.len()
        &&& forall|i: int|
            0 <= i < self.agent_workplace_indices@.len() ==> ((
            #[trigger] self.agent_workplace_indices@[i]) == u32::MAX
                || self.agent_workplace_indices@[i] < self.workplace_positions@.len())
        &&& forall|i: int|
            0 <= i < self.household_positions@.len() ==> self.bounds.spec_contains(
                #[trigger] self.household_positions@[i],
            )
        &&& forall|i: int|
            0 <= i < self.workplace_positions@.len() ==> self.bounds.spec_contains(
                #[trigger] self.workplace_positions@[i],
            )
        &&& forall|i: int|
            0 <= i < self.transit_node_positions@.len() ==> self.bounds.spec_contains(
                #[trigger] self.transit_node_positions@[i],
            )
        &&& forall|i: int|
            0 <= i < self.transit_edges@.len() ==> (#[trigger] self.transit_edges@[i]).start_node
                < usize::MAX && self.transit_edges@[i].end_node < usize::MAX
                && self.transit_edges@[i].weight <= crate::shared::MAX_EDGE_WEIGHT
        &&& 2 * (crate::routing::transit::spec_input_nodes(self.transit_edges@) + 1)
            * crate::shared::MAX_EDGE_WEIGHT <= usize::MAX
        &&& spec_grid_cols(TRANSIT_GRID_ROWS, self.bounds) <= u32::MAX
        &&& TRANSIT_GRID_ROWS * spec_grid_cols(TRANSIT_GRID_ROWS, self.bounds) <= usize::MAX
    }
}

/// One running simulation: the population, the containers, the pending
/// events, and the routing structures, advanced one time step at a time.
pub struct Sim<M: MixingStrategy> {
    pub agents: Agents,
    pub events: Events,
    pub containers: Containers<M>,
    pub bounds: Bounds,
    pub fast_graph: fast_paths::FastGraph,
    pub transit_granular_grid: GranularGrid<usize>,
    pub params: SimParams,
    pub rng: rand::rngs::StdRng,
    pub next_time_step: TimeStep,
}

impl<M: MixingStrategy> Sim<M> {
    /// The simulation's global invariant, established at construction and
    /// preserved by every `update`: the population, containers and pending
    /// events agree, an agent index appears in at most one container's
    /// inhabitant list, every agent without an occupation sits in its
    /// household container, and every commuting agent owns exactly one
    /// pending event whose membership premise matches where the agent is.
    pub open spec fn wf(self) -> bool {
        &&& self.params.wf()
        &&& self.agents.wf(self.containers@.len() as int)
        &&& self.agents.statuses_wf(self.params)
        &&& self.agents.num_agents <= u32::MAX
        &&& self.containers.exclusive()
        &&& self.containers.agents_below(self.agents.num_agents as int)
        &&& self.containers.positions_bounded()
        &&& self.containers.updated_until(self.next_time_step)
        &&& self.transit_granular_grid.wf()
        &&& self.transit_granular_grid.rows <= 65536
        &&& forall|c: int|
            0 <= c < self.containers@.len() ==> self.transit_granular_grid.bounds.spec_contains(
                (#[trigger] self.containers@[c]).pos,
            )
        &&& crate::routing::transit::graph_safe_weights(self.fast_graph)
        &&& events_queue_wf(
            self.events.spec_queue(),
            self.next_time_step,
            self.agents,
            self.containers,
        )
        &&& forall|a: u32|
            a < self.agents.num_agents && self.agents.occupational_container@[a as int] is None
                ==> self.containers.contains_agent(
                #[trigger] self.agents.household_container@[a as int] as int,
                a,
            )
    }

    /// Advance the simulation by one time step: execute every event due at
    /// `time_step` (with the mixing catch-ups they trigger) and schedule
    /// their follow-ons.  Returns `Err` exactly when the configured
    /// simulation length has been reached, leaving the state untouched.
    pub fn update(&mut self, time_step: TimeStep) -> (r: Result<(), EndOfSimulationError>)
        requires
            old(self).wf(),
            time_step == old(self).next_time_step,
            time_step < MAX_TIME_STEP,
        ensures
            final(self).wf(),
            r is Err <==> (old(self).params.sim_length_days matches Some(days) && time_step
                >= days * old(self).params.time_steps_per_day),
            r is Err ==> *final(self) == *old(self),
            r is Ok ==> final(self).next_time_step == time_step + 1,
            final(self).params == old(self).params,
            final(self).bounds == old(self).bounds,
            final(self).agents.num_agents == old(self).agents.num_agents,
            final(self).agents.household_container == old(self).agents.household_container,
            final(self).agents.occupational_container == old(self).agents.occupational_container,
            forall|j: int|
                0 <= j < old(self).agents.disease_statuses@.len() ==> mix_evolution(
                    #[trigger] old(self).agents.disease_statuses@[j],
                    final(self).agents.disease_statuses@[j],
                    old(self).params,
                ),
            forall|a: u32|
                final(self).agents.occupational_container@[a as int] is None || a
                    >= final(self).agents.num_agents ==> (final(self).containers.in_some_container(
                    a,
                ) <==> old(self).containers.in_some_container(a)),
    {
        match self.params.sim_length_days {
            Some(days) => {
                if time_step >= days * self.params.time_steps_per_day {
                    proof {
                        assert forall|j: int|
                            0 <= j < self.agents.disease_statuses@.len() implies mix_evolution(
                            #[trigger] self.agents.disease_statuses@[j],
                            self.agents.disease_statuses@[j],
                            self.params,
                        ) by {
                            crate::disease::mixing::lemma_mix_evolution_refl(
                                self.agents.disease_statuses@[j],
                                self.params,
                            );
                        }
                    }
                    return Err(EndOfSimulationError);
                }
            },
            None => {},
        }
        let mut fast_path_calculator = create_calculator(&self.fast_graph);
        self.events.update(
            time_step,
            &mut self.agents,
            &mut self.containers,
            &self.transit_granular_grid,
            &self.fast_graph,
            &mut fast_path_calculator,
            &mut self.rng,
            &self.params,
        );
        self.next_time_step = time_step + 1;
        Ok(())
    }
}

impl Sim<Uniform> {
    /// Assemble a simulation from well-formed model data: build the
    /// containers and the population, seed the disease statuses, schedule
    /// every commuting agent's first arrival, bucket the transit nodes into
    /// the sampling grid, and take the prepared shortest-path index.
    fn new(
        model: &Model,
        fast_graph: fast_paths::FastGraph,
        mixing_strategy: Uniform,
        params: SimParams,
        rng_seed: u64,
    ) -> (r: Sim<Uniform>)
        requires
            model.wf(),
            params.wf(),
            crate::routing::transit::graph_safe_weights(fast_graph),
        ensures
            r.wf(),
            r.next_time_step == 0,
            r.params == params,
            r.agents.num_agents == model.agent_household_indices@.len(),
            r.agents.occupational_container@.len() == r.agents.num_agents,
            forall|c: int|
                0 <= c < r.containers@.len() ==> (#[trigger] r.containers@[c]).mixing_strategy
                    == mixing_strategy,
            forall|i: int|
                0 <= i < r.agents.num_agents ==> ((#[trigger] r.agents.occupational_container@[i])
                    is Some <==> model.agent_workplace_indices@[i] != u32::MAX),
            params.seed_infection_chance == 0 ==> forall|i: int|
                0 <= i < r.agents.num_agents ==> (#[trigger] r.agents.disease_statuses@[i]).state
                    == crate::disease::status::State::Susceptible,
    {
        let mut containers = Containers::<Uniform>::new(
            &model.household_positions,
            &model.workplace_positions,
            mixing_strategy,
        );
        let agents = Agents::new(
            &model.agent_household_indices,
            &model.agent_workplace_indices,
            &mut containers,
            &params,
        );
        let mut rng = new_rng(rng_seed);
        let events = Events::new(&agents, &mut rng, &params);
        let transit_granular_grid = nodes_to_granular_grid(
            &model.transit_node_positions,
            &model.bounds,
            TRANSIT_GRID_ROWS,
        );
        let r = Sim {
            agents,
            events,
            containers,
            bounds: model.bounds,
            fast_graph,
            transit_granular_grid,
            params,
            rng,
            next_time_step: 0,
        };
        proof {
            assert forall|a: u32|
                a < r.agents.num_agents && r.agents.occupational_container@[a as int] is None
                    implies r.containers.contains_agent(
                #[trigger] r.agents.household_container@[a as int] as int,
                a,
            ) by {
                assert(r.containers.in_some_container(a));
                let c = choose|c: int| #[trigger] r.containers.contains_agent(c, a);
            }
        }
        r
    }
}

/// The membership half of the simulation's invariant, spelled out: under
/// `Sim::wf` — which `Sim::update` preserves tick after tick — an agent
/// index never appears in two containers' inhabitant lists (nor twice in
/// one), and every agent without an occupation is in some container (its
/// household).  A commuting agent may be in no container while it is en
/// route between two of them.
pub proof fn lemma_membership_exclusive<M: MixingStrategy>(sim: Sim<M>)
    requires
        sim.wf(),
    ensures
        sim.containers.exclusive(),
        forall|a: u32|
            a < sim.agents.num_agents && sim.agents.occupational_container@[a as int] is None
                ==> #[trigger] sim.containers.in_some_container(a),
{
    assert forall|a: u32|
        a < sim.agents.num_agents && sim.agents.occupational_container@[a as int] is None
            implies #[trigger] sim.containers.in_some_container(a) by {
        assert(sim.containers.contains_agent(
            sim.agents.household_container@[a as int] as int,
            a,
        ));
    }
}

/// Step-by-step configuration of a simulation run, ending in `build`.
pub struct SimBuilder {
    pub global_params: SimParams,
    pub rng_seed: u64,
    pub walking_speed_kph: u64,
    pub cycling_speed_kph: u64,
    pub driving_speed_kph: u64,
    /// Per-contact, per-step transmission chance in parts per
    /// `CHANCE_SCALE`; `None` derives it from the time resolution (fifty
    /// parts per million per hour of contact).
    pub transmission_chance: Option<u64>,
}

impl SimBuilder {
    /// A builder with the default configuration: half-hour time steps, a
    /// sixty-day run, a 1% seeding chance, and walking / cycling / driving
    /// at 5, 24 and 60 km/h.
    pub fn new() -> (r: SimBuilder)
        ensures
            r.wf(),
    {
        SimBuilder {
            global_params: SimParams::default(),
            rng_seed: 32,
            walking_speed_kph: 5,
            cycling_speed_kph: 24,
            driving_speed_kph: 60,
            transmission_chance: None,
        }
    }

    /// The builder's configuration stays buildable.
    pub open spec fn wf(self) -> bool {
        &&& 2 <= self.global_params.time_steps_per_day <= crate::shared::MAX_TIME_STEPS_PER_DAY
        &&& (self.global_params.sim_length_days matches Some(days) ==> days
            * self.global_params.time_steps_per_day <= MAX_TIME_STEP)
        &&& self.global_params.seed_infection_chance <= CHANCE_SCALE
        &&& (self.transmission_chance matches Some(chance) ==> chance <= CHANCE_SCALE)
    }

    /// The per-contact, per-step transmission chance a build uses: the
    /// explicit override, or fifty parts per million per contact-hour
    /// converted to the configured time resolution.
    pub open spec fn spec_transmission_chance(self) -> int {
        match self.transmission_chance {
            Some(chance) => chance as int,
            None => (50 * 24) as int / self.global_params.time_steps_per_day as int,
        }
    }

    /// Set how many time steps make one simulated day.
    pub fn time_steps_per_day(self, time_steps: u64) -> (r: SimBuilder)
        requires
            self.wf(),
            2 <= time_steps <= crate::shared::MAX_TIME_STEPS_PER_DAY,
            self.global_params.sim_length_days matches Some(days) ==> days * time_steps
                <= MAX_TIME_STEP,
        ensures
            r.wf(),
            r.global_params.time_steps_per_day == time_steps,
            r.global_params.sim_length_days == self.global_params.sim_length_days,
            r.global_params.seed_infection_chance == self.global_params.seed_infection_chance,
            r.walking_speed_kph == self.walking_speed_kph,
            r.cycling_speed_kph == self.cycling_speed_kph,
            r.driving_speed_kph == self.driving_speed_kph,
            r.rng_seed == self.rng_seed,
            r.transmission_chance == self.transmission_chance,
    {
        let mut this = self;
        this.global_params.time_steps_per_day = time_steps;
        this
    }

    /// Set how many days to simulate; `None` means run indefinitely.
    pub fn sim_length_days(self, days: Option<u64>) -> (r: SimBuilder)
        requires
            self.wf(),
            days matches Some(d) ==> d * self.global_params.time_steps_per_day <= MAX_TIME_STEP,
        ensures
            r.wf(),
            r.global_params.sim_length_days == days,
            r.global_params.time_steps_per_day == self.global_params.time_steps_per_day,
            r.global_params.seed_infection_chance == self.global_params.seed_infection_chance,
            r.walking_speed_kph == self.walking_speed_kph,
            r.cycling_speed_kph == self.cycling_speed_kph,
            r.driving_speed_kph == self.driving_speed_kph,
            r.rng_seed == self.rng_seed,
            r.transmission_chance == self.transmission_chance,
    {
        let mut this = self;
        this.global_params.sim_length_days = days;
        this
    }

    /// Set the chance, in parts per `CHANCE_SCALE`, that an agent starts
    /// out infected.
    pub fn seed_infection_chance(self, seed_infection_chance: u64) -> (r: SimBuilder)
        requires
            self.wf(),
            seed_infection_chance <= CHANCE_SCALE,
        ensures
            r.wf(),
            r.global_params.seed_infection_chance == seed_infection_chance,
            r.global_params.time_steps_per_day == self.global_params.time_steps_per_day,
            r.global_params.sim_length_days == self.global_params.sim_length_days,
            r.walking_speed_kph == self.walking_speed_kph,
            r.cycling_speed_kph == self.cycling_speed_kph,
            r.driving_speed_kph == self.driving_speed_kph,
            r.rng_seed == self.rng_seed,
            r.transmission_chance == self.transmission_chance,
    {
        let mut this = self;
        this.global_params.seed_infection_chance = seed_infection_chance;
        this
    }

    /// Set the walking speed, in whole kilometres per hour.
    pub fn walking_speed_kph(self, walking_speed_kph: u64) -> (r: SimBuilder)
        requires
            self.wf(),
        ensures
            r.wf(),
            r.walking_speed_kph == walking_speed_kph,
            r.global_params == self.global_params,
            r.cycling_speed_kph == self.cycling_speed_kph,
            r.driving_speed_kph == self.driving_speed_kph,
            r.rng_seed == self.rng_seed,
            r.transmission_chance == self.transmission_chance,
    {
        let mut this = self;
        this.walking_speed_kph = walking_speed_kph;
        this
    }

    /// Set the cycling speed, in whole kilometres per hour.
    pub fn cycling_speed_kph(self, cycling_speed_kph: u64) -> (r: SimBuilder)
        requires
            self.wf(),
        ensures
            r.wf(),
            r.cycling_speed_kph == cycling_speed_kph,
            r.global_params == self.global_params,
            r.walking_speed_kph == self.walking_speed_kph,
            r.driving_speed_kph == self.driving_speed_kph,
            r.rng_seed == self.rng_seed,
            r.transmission_chance == self.transmission_chance,
    {
        let mut this = self;
        this.cycling_speed_kph = cycling_speed_kph;
        this
    }

    /// Set the driving speed, in whole kilometres per hour.
    pub fn driving_speed_kph(self, driving_speed_kph: u64) -> (r: SimBuilder)
        requires
            self.wf(),
        ensures
            r.wf(),
            r.driving_speed_kph == driving_speed_kph,
            r.global_params == self.global_params,
            r.walking_speed_kph == self.walking_speed_kph,
            r.cycling_speed_kph == self.cycling_speed_kph,
            r.rng_seed == self.rng_seed,
            r.transmission_chance == self.transmission_chance,
    {
        let mut this = self;
        this.driving_speed_kph = driving_speed_kph;
        this
    }

    /// Set the seed of the run's random stream, which drives commute
    /// scheduling and transmission draws; runs with equal seeds and equal
    /// models are identical.  The initial disease seeding comes from a
    /// fixed internal stream and does not vary with this seed.
    pub fn rng_seed(self, seed: u64) -> (r: SimBuilder)
        requires
            self.wf(),
        ensures
            r.wf(),
            r.rng_seed == seed,
            r.global_params == self.global_params,
            r.walking_speed_kph == self.walking_speed_kph,
            r.cycling_speed_kph == self.cycling_speed_kph,
            r.driving_speed_kph == self.driving_speed_kph,
            r.transmission_chance == self.transmission_chance,
    {
        let mut this = self;
        this.rng_seed = seed;
        this
    }

    /// Set the per-contact, per-step transmission chance, in parts per
    /// `CHANCE_SCALE`, overriding the time-resolution-derived default.
    pub fn transmission_chance(self, transmission_chance: u64) -> (r: SimBuilder)
        requires
            self.wf(),
            transmission_chance <= CHANCE_SCALE,
        ensures
            r.wf(),
            r.transmission_chance == Some(transmission_chance),
            r.global_params == self.global_params,
            r.walking_speed_kph == self.walking_speed_kph,
            r.cycling_speed_kph == self.cycling_speed_kph,
            r.driving_speed_kph == self.driving_speed_kph,
            r.rng_seed == self.rng_seed,
    {
        let mut this = self;
        this.transmission_chance = Some(transmission_chance);
        this
    }

    /// One km/h, converted to spatial units (metres) per time step and
    /// clamped into the valid speed range.
    pub open spec fn spec_speed_units_per_step(kph: u64, time_steps_per_day: u64) -> int {
        let raw = (kph * 24_000) as int / time_steps_per_day as int;
        if raw < 1 {
            1
        } else if raw > MAX_SPEED {
            MAX_SPEED as int
        } else {
            raw
        }
    }

    /// One km/h, converted to spatial units (metres) per time step and
    /// clamped into the valid speed range.
    fn speed_units_per_step(kph: u64, time_steps_per_day: u64) -> (r: u64)
        requires
            2 <= time_steps_per_day <= crate::shared::MAX_TIME_STEPS_PER_DAY,
        ensures
            1 <= r <= MAX_SPEED,
            r == SimBuilder::spec_speed_units_per_step(kph, time_steps_per_day),
    {
        match kph.checked_mul(24_000) {
            Some(metres_per_day) => {
                let raw = metres_per_day / time_steps_per_day;
                if raw < 1 {
                    1
                } else if raw > MAX_SPEED {
                    MAX_SPEED
                } else {
                    raw
                }
            },
            None => {
                // A speed too large for the conversion arithmetic clamps to
                // the ceiling, exactly as the unclamped quotient would.
                proof {
                    let product = kph * 24_000;
                    vstd::arithmetic::div_mod::lemma_div_is_ordered(
                        u64::MAX + 1,
                        product,
                        time_steps_per_day as int,
                    );
                    vstd::arithmetic::div_mod::lemma_div_is_ordered_by_denominator(
                        u64::MAX + 1,
                        time_steps_per_day as int,
                        crate::shared::MAX_TIME_STEPS_PER_DAY as int,
                    );
                    assert((u64::MAX + 1) / (crate::shared::MAX_TIME_STEPS_PER_DAY as int)
                        > MAX_SPEED) by (nonlinear_arith);
                }
                MAX_SPEED
            },
        }
    }

    /// Build the simulation over the given model, preparing the
    /// shortest-path index from the model's own edge list.
    pub fn build(self, model: &Model) -> (r: Sim<Uniform>)
        requires
            self.wf(),
            model.wf(),
        ensures
            r.wf(),
            r.next_time_step == 0,
            r.params.time_steps_per_day == self.global_params.time_steps_per_day,
            r.params.sim_length_days == self.global_params.sim_length_days,
            r.params.seed_infection_chance == self.global_params.seed_infection_chance,
            r.params.walking_speed == SimBuilder::spec_speed_units_per_step(
                self.walking_speed_kph,
                self.global_params.time_steps_per_day,
            ),
            r.params.cycling_speed == SimBuilder::spec_speed_units_per_step(
                self.cycling_speed_kph,
                self.global_params.time_steps_per_day,
            ),
            r.params.driving_speed == SimBuilder::spec_speed_units_per_step(
                self.driving_speed_kph,
                self.global_params.time_steps_per_day,
            ),
            r.agents.num_agents == model.agent_household_indices@.len(),
            forall|c: int|
                0 <= c < r.containers@.len() ==> (#[trigger] r.containers@[c]).mixing_strategy
                    == (Uniform { transmission_chance: self.spec_transmission_chance() as u64 }),
    {
        let fast_graph = preprocess_graph(&model.transit_edges);
        self.build_with_fast_graph(model, fast_graph)
    }

    /// Like `build`, but take a previously prepared shortest-path index.
    /// The caller vouches that the index came out of `preprocess_graph` on
    /// well-formed edges (for example through a cache written by an earlier
    /// run): that is what `graph_safe_weights` records, and it cannot be
    /// re-checked from the opaque value.
    pub fn build_with_fast_graph(
        self,
        model: &Model,
        fast_graph: fast_paths::FastGraph,
    ) -> (r: Sim<Uniform>)
        requires
            self.wf(),
            model.wf(),
            crate::routing::transit::graph_safe_weights(fast_graph),
        ensures
            r.wf(),
            r.next_time_step == 0,
            r.params.time_steps_per_day == self.global_params.time_steps_per_day,
            r.params.sim_length_days == self.global_params.sim_length_days,
            r.params.seed_infection_chance == self.global_params.seed_infection_chance,
            r.params.walking_speed == SimBuilder::spec_speed_units_per_step(
                self.walking_speed_kph,
                self.global_params.time_steps_per_day,
            ),
            r.params.cycling_speed == SimBuilder::spec_speed_units_per_step(
                self.cycling_speed_kph,
                self.global_params.time_steps_per_day,
            ),
            r.params.driving_speed == SimBuilder::spec_speed_units_per_step(
                self.driving_speed_kph,
                self.global_params.time_steps_per_day,
            ),
            r.agents.num_agents == model.agent_household_indices@.len(),
            forall|c: int|
                0 <= c < r.containers@.len() ==> (#[trigger] r.containers@[c]).mixing_strategy
                    == (Uniform { transmission_chance: self.spec_transmission_chance() as u64 }),
    {
        let time_steps_per_day = self.global_params.time_steps_per_day;
        let params = SimParams {
            time_steps_per_day,
            sim_length_days: self.global_params.sim_length_days,
            seed_infection_chance: self.global_params.seed_infection_chance,
            walking_speed: SimBuilder::speed_units_per_step(
                self.walking_speed_kph,
                time_steps_per_day,
            ),
            cycling_speed: SimBuilder::speed_units_per_step(
                self.cycling_speed_kph,
                time_steps_per_day,
            ),
            driving_speed: SimBuilder::speed_units_per_step(
                self.driving_speed_kph,
                time_steps_per_day,
            ),
        };
        // The per-contact, per-step transmission chance: the configured
        // override, or fifty parts per million per contact-hour scaled
        // inversely with the time resolution.
        let transmission_chance = match self.transmission_chance {
            Some(chance) => chance,
            None => (50 * 24) / time_steps_per_day,
        };
        let mixing_strategy = Uniform { transmission_chance };
        Sim::new(model, fast_graph, mixing_strategy, params, self.rng_seed)
    }
}

} // verus!
