//! A scheduled agent transition and its execution.
//!
//! Executing an event mutates container membership (with a mixing catch-up)
//! and produces the follow-on event of the agent's commute cycle: an
//! arrival schedules the next departure half a day later, a departure
//! schedules the next arrival after the estimated commute time.

use vstd::prelude::*;

use crate::agents::Agents;
use crate::containers::Containers;
use crate::disease::mixing::mix_evolution;
use crate::disease::mixing::MixingStrategy;
use crate::rng::rng_below;
use crate::routing::calculate_direct_commute_time;
use crate::routing::calculate_public_transit_commute_time;
use crate::routing::DirectRoutingType;
use crate::routing::GranularGrid;
use crate::routing::RoutingType;
use crate::routing::transit::calculator_num_nodes;
use crate::routing::transit::graph_num_nodes;
use crate::shared::SimParams;
use crate::shared::TimeStep;
use crate::shared::CHANCE_SCALE;
use crate::shared::MAX_EVENT_OFFSET;
use crate::shared::MAX_TIME_STEP;

verus! {

/// A pending agent transition, due at an absolute time step.
#[derive(PartialEq, Eq, Structural, Clone, Copy, Debug)]
pub struct Event {
    pub agent_idx: u32,
    pub end_time_step: TimeStep,
    pub event_type: EventType,
}

/// What the transition does when it fires.
#[derive(PartialEq, Eq, Structural, Clone, Copy, Debug)]
pub enum EventType {
    Travel(TravelType),
    EnterContainer(u64),
}

/// A departure: where from, where to, and by which mode.
#[derive(PartialEq, Eq, Structural, Clone, Copy, Debug)]
pub struct TravelType {
    pub from_container_idx: u64,
    pub to_container_idx: u64,
    pub routing_type: RoutingType,
}

/// What must hold of a pending event against the population and the
/// containers: its agent commutes (has an occupation), and its membership
/// premise holds — an arriving agent is in no container, a departing agent
/// is in exactly the container it departs from.
pub open spec fn event_wf<M: MixingStrategy>(
    e: Event,
    agents: Agents,
    containers: Containers<M>,
) -> bool {
    &&& e.agent_idx < agents.num_agents
    &&& agents.occupational_container@[e.agent_idx as int] is Some
    &&& match e.event_type {
        EventType::EnterContainer(c) => c < containers@.len() && !containers.in_some_container(
            e.agent_idx,
        ),
        EventType::Travel(t) => {
            &&& t.from_container_idx < containers@.len()
            &&& t.to_container_idx < containers@.len()
            &&& containers.contains_agent(t.from_container_idx as int, e.agent_idx)
        },
    }
}

impl Event {
    /// Execute the transition: register the arrival or departure (bringing
    /// the touched container's mixing up to this event's time step) and
    /// produce the follow-on event for the same agent, due strictly later.
    #[inline]
    pub fn handle<M: MixingStrategy>(
        self,
        agents: &mut Agents,
        containers: &mut Containers<M>,
        transit_grid: &GranularGrid<usize>,
        fast_graph: &fast_paths::FastGraph,
        transit_path_calculator: &mut fast_paths::PathCalculator,
        rng: &mut rand::rngs::StdRng,
        params: &SimParams,
    ) -> (r: Option<Event>)
        requires
            params.wf(),
            old(agents).wf(old(containers)@.len() as int),
            old(agents).statuses_wf(*params),
            old(agents).num_agents <= u32::MAX,
            old(containers).exclusive(),
            old(containers).agents_below(old(agents).num_agents as int),
            old(containers).positions_bounded(),
            old(containers).updated_until(self.end_time_step),
            transit_grid.wf(),
            transit_grid.rows <= 65536,
            forall|c: int|
                0 <= c < old(containers)@.len() ==> transit_grid.bounds.spec_contains(
                    (#[trigger] old(containers)@[c]).pos,
                ),
            calculator_num_nodes(*old(transit_path_calculator)) == graph_num_nodes(*fast_graph),
            crate::routing::transit::graph_safe_weights(*fast_graph),
            event_wf(self, *old(agents), *old(containers)),
            self.end_time_step <= MAX_TIME_STEP + MAX_EVENT_OFFSET,
        ensures
            calculator_num_nodes(*final(transit_path_calculator)) == calculator_num_nodes(
                *old(transit_path_calculator),
            ),
            final(agents).num_agents == old(agents).num_agents,
            final(agents).household_container == old(agents).household_container,
            final(agents).occupational_container == old(agents).occupational_container,
            final(agents).wf(final(containers)@.len() as int),
            final(agents).statuses_wf(*params),
            forall|j: int|
                0 <= j < old(agents).disease_statuses@.len() ==> mix_evolution(
                    #[trigger] old(agents).disease_statuses@[j],
                    final(agents).disease_statuses@[j],
                    *params,
                ),
            final(containers)@.len() == old(containers)@.len(),
            final(containers).spec_num_households() == old(containers).spec_num_households(),
            final(containers).exclusive(),
            final(containers).agents_below(old(agents).num_agents as int),
            final(containers).positions_bounded(),
            forall|c: int|
                0 <= c < old(containers)@.len() ==> (#[trigger] final(containers)@[c]).pos == old(
                    containers,
                )@[c].pos,
            final(containers).updated_until(self.end_time_step),
            forall|a: u32|
                a != self.agent_idx ==> (final(containers).in_some_container(a) <==> old(
                    containers,
                ).in_some_container(a)),
            forall|c: int, a: u32|
                a != self.agent_idx ==> (final(containers).contains_agent(c, a) <==> old(
                    containers,
                ).contains_agent(c, a)),
            r is Some,
            ({
                let next = r.unwrap();
                &&& next.agent_idx == self.agent_idx
                &&& self.end_time_step < next.end_time_step
                &&& next.end_time_step <= self.end_time_step + MAX_EVENT_OFFSET
                &&& event_wf(next, *final(agents), *final(containers))
                &&& match self.event_type {
                    EventType::EnterContainer(c) => {
                        &&& next.event_type matches EventType::Travel(t) && t.from_container_idx
                            == c && t.to_container_idx == (if c != old(
                            agents,
                        ).occupational_container@[self.agent_idx as int].unwrap() {
                            old(agents).occupational_container@[self.agent_idx as int].unwrap()
                        } else {
                            old(agents).household_container@[self.agent_idx as int]
                        }) && (t.routing_type == RoutingType::Direct(DirectRoutingType::Driving)
                            || t.routing_type == RoutingType::Transit)
                        &&& next.end_time_step == self.end_time_step
                            + params.time_steps_per_day / 2
                        &&& final(containers).contains_agent(c as int, self.agent_idx)
                    },
                    EventType::Travel(t) => {
                        &&& next.event_type == EventType::EnterContainer(t.to_container_idx)
                        &&& !final(containers).in_some_container(self.agent_idx)
                        &&& (t.routing_type matches RoutingType::Direct(direct) ==> {
                            let commute = crate::routing::spec_direct_commute_time(
                                old(containers)@[t.from_container_idx as int].pos,
                                old(containers)@[t.to_container_idx as int].pos,
                                direct,
                                *params,
                            );
                            next.end_time_step == self.end_time_step + (if commute == 0 {
                                1int
                            } else {
                                commute
                            })
                        })
                        &&& (t.routing_type == RoutingType::Transit ==> {
                            let direct = crate::routing::spec_direct_commute_time(
                                old(containers)@[t.from_container_idx as int].pos,
                                old(containers)@[t.to_container_idx as int].pos,
                                DirectRoutingType::Driving,
                                *params,
                            );
                            // Either a swept candidate pair's path weight was used,
                            // or the lookup failed and the direct driving estimate
                            // took its place: the routing failure is recovered
                            // locally, never propagated.
                            ||| (exists|s: usize, tn: usize|
                                {
                                    &&& s < graph_num_nodes(*fast_graph)
                                    &&& tn < graph_num_nodes(*fast_graph)
                                    &&& crate::routing::node_in_sweep(
                                        *transit_grid,
                                        transit_grid.spec_row_of(
                                            old(
                                                containers,
                                            )@[t.from_container_idx as int].pos.y,
                                        ),
                                        transit_grid.spec_col_of(
                                            old(
                                                containers,
                                            )@[t.from_container_idx as int].pos.x,
                                        ),
                                        3_500,
                                        s,
                                    )
                                    &&& crate::routing::node_in_sweep(
                                        *transit_grid,
                                        transit_grid.spec_row_of(
                                            old(containers)@[t.to_container_idx as int].pos.y,
                                        ),
                                        transit_grid.spec_col_of(
                                            old(containers)@[t.to_container_idx as int].pos.x,
                                        ),
                                        3_500,
                                        tn,
                                    )
                                    &&& 0 <= #[trigger] crate::routing::transit::spec_path_ticks(
                                        *fast_graph,
                                        s,
                                        tn,
                                    ) < crate::shared::MAX_TRANSIT_TICKS
                                    &&& next.end_time_step == self.end_time_step + (
                                    if crate::routing::transit::spec_path_ticks(
                                        *fast_graph,
                                        s,
                                        tn,
                                    ) == 0 {
                                        1int
                                    } else {
                                        crate::routing::transit::spec_path_ticks(
                                            *fast_graph,
                                            s,
                                            tn,
                                        )
                                    })
                                })
                            ||| next.end_time_step == self.end_time_step + (if direct == 0 {
                                1int
                            } else {
                                direct
                            })
                        })
                    },
                }
            }),
    {
        match self.event_type {
            EventType::EnterContainer(from_container_idx) => {
                containers.push_inhabitant(
                    from_container_idx,
                    self.agent_idx,
                    self.end_time_step,
                    agents,
                    rng,
                    params,
                );
                proof {
                    assert(old(containers).agents_below(old(agents).num_agents as int));
                    assert(self.agent_idx < old(agents).num_agents as int);
                    assert(containers.agents_below(old(agents).num_agents as int));
                }

                let occupation_container_idx =
                    agents.occupational_container[self.agent_idx as usize].unwrap();
                let to_container_idx = if from_container_idx != occupation_container_idx {
                    occupation_container_idx
                } else {
                    agents.household_container[self.agent_idx as usize]
                };

                let routing_type = if rng_below(rng, CHANCE_SCALE) < 800_000 {
                    RoutingType::Direct(DirectRoutingType::Driving)
                } else {
                    RoutingType::Transit
                };
                Some(
                    Event {
                        agent_idx: self.agent_idx,
                        end_time_step: self.end_time_step + params.time_steps_per_day / 2,
                        event_type: EventType::Travel(
                            TravelType {
                                from_container_idx,
                                to_container_idx,
                                routing_type,
                            },
                        ),
                    },
                )
            },
            EventType::Travel(travel_type) => {
                containers.remove_inhabitant(
                    travel_type.from_container_idx,
                    self.agent_idx,
                    self.end_time_step,
                    agents,
                    rng,
                    params,
                );
                proof {
                    assert(old(containers).agents_below(old(agents).num_agents as int));
                    assert(containers.agents_below(old(agents).num_agents as int));
                }
                let ghost from_i = travel_type.from_container_idx as int;
                let ghost to_i = travel_type.to_container_idx as int;
                let mut commute_time: TimeStep = match travel_type.routing_type {
                    RoutingType::Transit => {
                        match calculate_public_transit_commute_time(
                            containers,
                            transit_grid,
                            transit_path_calculator,
                            fast_graph,
                            travel_type.from_container_idx,
                            travel_type.to_container_idx,
                            rng,
                        ) {
                            Ok(transit_time) => {
                                proof {
                                    let (cs, ct) = choose|s: usize, tn: usize|
                                        {
                                            &&& s < graph_num_nodes(*fast_graph)
                                            &&& tn < graph_num_nodes(*fast_graph)
                                            &&& crate::routing::node_in_sweep(
                                                *transit_grid,
                                                transit_grid.spec_row_of(
                                                    containers@[from_i].pos.y,
                                                ),
                                                transit_grid.spec_col_of(
                                                    containers@[from_i].pos.x,
                                                ),
                                                3_500,
                                                s,
                                            )
                                            &&& crate::routing::node_in_sweep(
                                                *transit_grid,
                                                transit_grid.spec_row_of(
                                                    containers@[to_i].pos.y,
                                                ),
                                                transit_grid.spec_col_of(
                                                    containers@[to_i].pos.x,
                                                ),
                                                3_500,
                                                tn,
                                            )
                                            &&& #[trigger] crate::routing::transit::transit_path_weight(
                                                *fast_graph,
                                                s,
                                                tn,
                                            ) == Some(transit_time as usize)
                                        };
                                    assert(containers@[from_i].pos == old(containers)@[from_i].pos);
                                    assert(containers@[to_i].pos == old(containers)@[to_i].pos);
                                    assert(crate::routing::transit::spec_path_ticks(
                                        *fast_graph,
                                        cs,
                                        ct,
                                    ) == transit_time);
                                }
                                transit_time
                            },
                            Err(_) => calculate_direct_commute_time(
                                containers,
                                DirectRoutingType::Driving,
                                travel_type.from_container_idx,
                                travel_type.to_container_idx,
                                params,
                            ),
                        }
                    },
                    RoutingType::Direct(direct_routing_type) => calculate_direct_commute_time(
                        containers,
                        direct_routing_type,
                        travel_type.from_container_idx,
                        travel_type.to_container_idx,
                        params,
                    ),
                };

                if commute_time == 0 {
                    commute_time = commute_time + 1;
                }
                Some(
                    Event {
                        agent_idx: self.agent_idx,
                        end_time_step: self.end_time_step + commute_time,
                        event_type: EventType::EnterContainer(travel_type.to_container_idx),
                    },
                )
            },
        }
    }
}

} // verus!
