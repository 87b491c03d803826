//! The time-bucketed event scheduler that drives agent movement.
//!
//! Every commuting agent owns exactly one pending event at all times; each
//! tick the scheduler pops the due bucket, executes each event's transition,
//! and schedules the follow-on event at its relative offset.  Agents without
//! an occupation are never scheduled.

use vstd::prelude::*;

use crate::agents::Agents;
use crate::containers::Containers;
use crate::disease::mixing::lemma_mix_evolution_refl;
use crate::disease::mixing::lemma_mix_evolution_trans;
use crate::disease::mixing::mix_evolution;
use crate::disease::mixing::MixingStrategy;
use crate::rng::rng_below;
use crate::routing::transit::calculator_num_nodes;
use crate::routing::transit::graph_num_nodes;
use crate::routing::GranularGrid;
use crate::shared::SimParams;
use crate::shared::TimeStep;
use crate::shared::MAX_EVENT_OFFSET;
use crate::shared::MAX_TIME_STEP;

pub mod event;
pub mod event_index;

pub use event::event_wf;
pub use event::Event;
pub use event::EventType;
pub use event::TravelType;
pub use event_index::EventIndex;

use event_index::count_in_bucket;
use event_index::count_in_queue;
use event_index::lemma_count_bucket_le_queue;
use event_index::lemma_count_in_bucket_step;
use event_index::lemma_count_one_in_bucket;
use event_index::lemma_count_pop;
use event_index::lemma_count_two_in_bucket;

verus! {

/// How many pending events the queue holds for each agent: exactly one for
/// every agent with an occupation, none for the rest.
pub open spec fn expected_count(agents: Agents, a: u32) -> nat {
    if a < agents.num_agents && agents.occupational_container@[a as int] is Some {
        1nat
    } else {
        0nat
    }
}

/// The scheduler's invariant against the population and the containers, for
/// a queue whose front bucket is due at `now`: every pending event is
/// well-formed and due exactly at its bucket's offset from `now`, and every
/// agent owns exactly `expected_count` pending events.
pub open spec fn events_queue_wf<M: MixingStrategy>(
    q: Seq<Seq<Event>>,
    now: TimeStep,
    agents: Agents,
    containers: Containers<M>,
) -> bool {
    &&& q.len() <= MAX_EVENT_OFFSET
    &&& forall|k: int, j: int|
        0 <= k < q.len() && 0 <= j < q[k].len() ==> event_wf(#[trigger] q[k][j], agents, containers)
            && q[k][j].end_time_step == now + k
    &&& forall|a: u32| #[trigger] count_in_queue(q, a) == expected_count(agents, a)
}

/// The event scheduler: a time-bucketed queue of pending agent transitions.
pub struct Events {
    event_index: EventIndex,
}

/// A randomized morning commute start: from seven o'clock, uniformly across
/// a three-and-a-half-hour window (degenerating to seven o'clock sharp when
/// the time resolution is too coarse for the window).
#[inline]
fn tmp_weighted_commute_time(rng: &mut rand::rngs::StdRng, params: &SimParams) -> (r: TimeStep)
    requires
        params.wf(),
    ensures
        7 * (params.time_steps_per_day / 24) <= r,
        r < 7 * (params.time_steps_per_day / 24) + (if (7 * (params.time_steps_per_day / 24)) / 2
            == 0 {
            1int
        } else {
            (7 * (params.time_steps_per_day / 24)) / 2
        }),
        r < MAX_EVENT_OFFSET,
{
    let time_steps_per_hour: TimeStep = params.time_steps_per_day / 24;
    let earliest: TimeStep = 7 * time_steps_per_hour;
    let time_steps_range: TimeStep = (7 * time_steps_per_hour) / 2;
    if time_steps_range == 0 {
        earliest
    } else {
        earliest + rng_below(rng, time_steps_range)
    }
}

impl Events {
    /// The pending buckets, front first.
    pub closed spec fn spec_queue(self) -> Seq<Seq<Event>> {
        self.event_index@
    }

    /// How many pending events the queue holds for the given agent.
    pub fn pending_count_for(&self, agent: u32) -> (r: u64)
        requires
            self.spec_queue().len() <= MAX_EVENT_OFFSET,
            forall|a: u32| count_in_queue(self.spec_queue(), a) <= 1,
        ensures
            r == count_in_queue(self.spec_queue(), agent),
    {
        let ghost q = self.spec_queue();
        let n = self.event_index.len();
        let mut total: u64 = 0;
        let mut k: usize = 0;
        while k < n
            invariant
                n == q.len(),
                self.spec_queue() == q,
                k <= n,
                forall|a: u32| count_in_queue(q, a) <= 1,
                total == count_in_queue(q.take(k as int), agent),
                total <= k,
            decreases n - k,
        {
            let bucket = self.event_index.bucket(k);
            let m = bucket.len();
            let mut j: usize = 0;
            let mut in_bucket: u64 = 0;
            while j < m
                invariant
                    m == bucket@.len(),
                    j <= m,
                    in_bucket == count_in_bucket(bucket@.take(j as int), agent),
                    in_bucket <= j,
                decreases m - j,
            {
                proof {
                    assert(bucket@.take(j + 1).drop_last() =~= bucket@.take(j as int));
                    assert(bucket@.take(j + 1).last() == bucket@[j as int]);
                }
                if bucket[j].agent_idx == agent {
                    in_bucket = in_bucket + 1;
                }
                j = j + 1;
            }
            proof {
                assert(bucket@.take(m as int) =~= bucket@);
                assert(q.take(k + 1).drop_last() =~= q.take(k as int));
                assert(q.take(k + 1).last() == q[k as int]);
                lemma_count_bucket_le_queue(q, k as int, agent);
                assert(count_in_queue(q, agent) <= 1);
                assert(in_bucket <= 1);
            }
            total = total + in_bucket;
            k = k + 1;
        }
        proof {
            assert(q.take(n as int) =~= q);
        }
        total
    }

    /// Bootstrap the schedule: every agent with an occupation gets one
    /// initial arrival event at its occupation container, due at a
    /// randomized morning tick; agents without an occupation get nothing.
    pub fn new(agents: &Agents, rng: &mut rand::rngs::StdRng, params: &SimParams) -> (r: Events)
        requires
            params.wf(),
            agents.occupational_container@.len() == agents.num_agents,
            agents.num_agents <= u32::MAX,
        ensures
            r.spec_queue().len() <= MAX_EVENT_OFFSET,
            forall|k: int, j: int|
                0 <= k < r.spec_queue().len() && 0 <= j < r.spec_queue()[k].len() ==> {
                    let e = #[trigger] r.spec_queue()[k][j];
                    &&& e.agent_idx < agents.num_agents
                    &&& agents.occupational_container@[e.agent_idx as int] is Some
                    &&& e.event_type == EventType::EnterContainer(
                        agents.occupational_container@[e.agent_idx as int].unwrap(),
                    )
                    &&& e.end_time_step == k
                    &&& 7 * (params.time_steps_per_day / 24) <= e.end_time_step
                    &&& e.end_time_step < 7 * (params.time_steps_per_day / 24) + (if (7 * (
                    params.time_steps_per_day / 24)) / 2 == 0 {
                        1int
                    } else {
                        (7 * (params.time_steps_per_day / 24)) / 2
                    })
                },
            forall|a: u32| #[trigger] count_in_queue(r.spec_queue(), a) == expected_count(
                *agents,
                a,
            ),
    {
        let mut event_index = EventIndex::new();
        let num_agents: u32 = agents.occupational_container.len() as u32;
        let mut i: u32 = 0;
        while i < num_agents
            invariant
                params.wf(),
                num_agents == agents.num_agents,
                agents.occupational_container@.len() == agents.num_agents,
                i <= num_agents,
                event_index@.len() <= MAX_EVENT_OFFSET,
                forall|k: int, j: int|
                    0 <= k < event_index@.len() && 0 <= j < event_index@[k].len() ==> {
                        let e = #[trigger] event_index@[k][j];
                        &&& e.agent_idx < i
                        &&& agents.occupational_container@[e.agent_idx as int] is Some
                        &&& e.event_type == EventType::EnterContainer(
                            agents.occupational_container@[e.agent_idx as int].unwrap(),
                        )
                        &&& e.end_time_step == k
                        &&& 7 * (params.time_steps_per_day / 24) <= e.end_time_step
                        &&& e.end_time_step < 7 * (params.time_steps_per_day / 24) + (if (7 * (
                        params.time_steps_per_day / 24)) / 2 == 0 {
                            1int
                        } else {
                            (7 * (params.time_steps_per_day / 24)) / 2
                        })
                    },
                forall|a: u32| #[trigger] count_in_queue(event_index@, a) == (if a < i
                    && agents.occupational_container@[a as int] is Some {
                    1nat
                } else {
                    0nat
                }),
            decreases num_agents - i,
        {
            match agents.occupational_container[i as usize] {
                Some(container_idx) => {
                    let end_time_step = tmp_weighted_commute_time(rng, params);
                    let event = Event {
                        agent_idx: i,
                        end_time_step,
                        event_type: EventType::EnterContainer(container_idx),
                    };
                    event_index.push_or_grow(end_time_step as usize, event);
                },
                None => {},
            }
            i = i + 1;
        }
        Events { event_index }
    }
}


impl Events {
    /// Execute one tick: pop the bucket due at `time_step`, execute every
    /// event in it, and schedule each follow-on event at its relative
    /// offset.  The scheduler's invariant — one pending event per commuting
    /// agent, each well-formed against the population and the containers —
    /// is carried to the next tick, and every agent's status undergoes at
    /// most the mixing evolution.
    pub fn update<M: MixingStrategy>(
        &mut self,
        time_step: TimeStep,
        agents: &mut Agents,
        containers: &mut Containers<M>,
        transit_grid: &GranularGrid<usize>,
        fast_graph: &fast_paths::FastGraph,
        transit_path_calculator: &mut fast_paths::PathCalculator,
        rng: &mut rand::rngs::StdRng,
        params: &SimParams,
    )
        requires
            params.wf(),
            time_step <= MAX_TIME_STEP,
            old(agents).wf(old(containers)@.len() as int),
            old(agents).statuses_wf(*params),
            old(agents).num_agents <= u32::MAX,
            old(containers).exclusive(),
            old(containers).agents_below(old(agents).num_agents as int),
            old(containers).positions_bounded(),
            old(containers).updated_until(time_step),
            transit_grid.wf(),
            transit_grid.rows <= 65536,
            forall|c: int|
                0 <= c < old(containers)@.len() ==> transit_grid.bounds.spec_contains(
                    (#[trigger] old(containers)@[c]).pos,
                ),
            calculator_num_nodes(*old(transit_path_calculator)) == graph_num_nodes(*fast_graph),
            crate::routing::transit::graph_safe_weights(*fast_graph),
            events_queue_wf(old(self).spec_queue(), time_step, *old(agents), *old(containers)),
        ensures
            events_queue_wf(
                final(self).spec_queue(),
                (time_step + 1) as TimeStep,
                *final(agents),
                *final(containers),
            ),
            calculator_num_nodes(*final(transit_path_calculator)) == calculator_num_nodes(
                *old(transit_path_calculator),
            ),
            final(agents).num_agents == old(agents).num_agents,
            final(agents).household_container == old(agents).household_container,
            final(agents).occupational_container == old(agents).occupational_container,
            final(agents).wf(final(containers)@.len() as int),
            final(agents).statuses_wf(*params),
            forall|j: int|
                0 <= j < old(agents).disease_statuses@.len() ==> mix_evolution(
                    #[trigger] old(agents).disease_statuses@[j],
                    final(agents).disease_statuses@[j],
                    *params,
                ),
            final(containers)@.len() == old(containers)@.len(),
            final(containers).spec_num_households() == old(containers).spec_num_households(),
            final(containers).exclusive(),
            final(containers).agents_below(old(agents).num_agents as int),
            final(containers).positions_bounded(),
            forall|c: int|
                0 <= c < old(containers)@.len() ==> (#[trigger] final(containers)@[c]).pos == old(
                    containers,
                )@[c].pos,
            final(containers).updated_until((time_step + 1) as TimeStep),
            forall|a: u32|
                final(agents).occupational_container@[a as int] is None || a
                    >= final(agents).num_agents ==> (final(containers).in_some_container(a) <==> old(
                    containers,
                ).in_some_container(a)),
            forall|c: int, a: u32|
                final(agents).occupational_container@[a as int] is None || a
                    >= final(agents).num_agents ==> (final(containers).contains_agent(c, a) <==> old(
                    containers,
                ).contains_agent(c, a)),
    {
        let ghost pre_q = self.spec_queue();
        let ghost pre_statuses = agents.disease_statuses@;
        match self.event_index.pop_front() {
            None => {
                proof {
                    assert forall|j: int|
                        0 <= j < pre_statuses.len() implies mix_evolution(
                        #[trigger] pre_statuses[j],
                        pre_statuses[j],
                        *params,
                    ) by {
                        lemma_mix_evolution_refl(pre_statuses[j], *params);
                    }
                    assert(self.spec_queue() =~= pre_q);
                }
            },
            Some(events_vec) => {
                let ghost popped = events_vec@;
                proof {
                    assert forall|a: u32|
                        #[trigger] count_in_queue(self.spec_queue(), a) + count_in_bucket(
                            popped.subrange(0, popped.len() as int),
                            a,
                        ) == expected_count(*agents, a) by {
                        lemma_count_pop(pre_q, a);
                        assert(popped.subrange(0, popped.len() as int) =~= popped);
                    }
                }
                let n = events_vec.len();
                let mut i: usize = 0;
                while i < n
                    invariant
                        params.wf(),
                        time_step <= MAX_TIME_STEP,
                        n == popped.len(),
                        events_vec@ == popped,
                        i <= n,
                        agents.wf(containers@.len() as int),
                        agents.statuses_wf(*params),
                        agents.num_agents <= u32::MAX,
                        agents.num_agents == old(agents).num_agents,
                        agents.household_container == old(agents).household_container,
                        agents.occupational_container == old(agents).occupational_container,
                        agents.disease_statuses@.len() == pre_statuses.len(),
                        containers.exclusive(),
                        containers.agents_below(agents.num_agents as int),
                        containers.positions_bounded(),
                        containers.updated_until(time_step),
                        containers@.len() == old(containers)@.len(),
                        containers.spec_num_households() == old(
                            containers,
                        ).spec_num_households(),
                        forall|c: int|
                            0 <= c < old(containers)@.len() ==> (#[trigger] containers@[c]).pos
                                == old(containers)@[c].pos,
                        transit_grid.wf(),
                        transit_grid.rows <= 65536,
                        forall|c: int|
                            0 <= c < containers@.len() ==> transit_grid.bounds.spec_contains(
                                (#[trigger] containers@[c]).pos,
                            ),
                        calculator_num_nodes(*transit_path_calculator) == graph_num_nodes(
                            *fast_graph,
                        ),
                        calculator_num_nodes(*transit_path_calculator) == calculator_num_nodes(
                            *old(transit_path_calculator),
                        ),
                        crate::routing::transit::graph_safe_weights(*fast_graph),
                        self.spec_queue().len() <= MAX_EVENT_OFFSET,
                        forall|k: int, j: int|
                            0 <= k < self.spec_queue().len() && 0 <= j
                                < self.spec_queue()[k].len() ==> event_wf(
                                #[trigger] self.spec_queue()[k][j],
                                *agents,
                                *containers,
                            ) && self.spec_queue()[k][j].end_time_step == time_step + 1 + k,
                        forall|j: int|
                            i <= j < n ==> event_wf(#[trigger] popped[j], *agents, *containers)
                                && popped[j].end_time_step == time_step,
                        forall|a: u32|
                            #[trigger] count_in_queue(self.spec_queue(), a) + count_in_bucket(
                                popped.subrange(i as int, popped.len() as int),
                                a,
                            ) == expected_count(*agents, a),
                        forall|j: int|
                            0 <= j < pre_statuses.len() ==> mix_evolution(
                                #[trigger] pre_statuses[j],
                                agents.disease_statuses@[j],
                                *params,
                            ),
                        forall|a: u32|
                            agents.occupational_container@[a as int] is None || a
                                >= agents.num_agents ==> (containers.in_some_container(a) <==> old(
                                containers,
                            ).in_some_container(a)),
                        forall|c: int, a: u32|
                            agents.occupational_container@[a as int] is None || a
                                >= agents.num_agents ==> (containers.contains_agent(c, a) <==> old(
                                containers,
                            ).contains_agent(c, a)),
                    decreases n - i,
                {
                    let event = events_vec[i];
                    let ghost st_before = agents.disease_statuses@;
                    let ghost old_it_queue = self.spec_queue();
                    proof {
                        lemma_count_in_bucket_step(popped, i as int, event.agent_idx);
                    }
                    let next_event = event.handle(
                        agents,
                        containers,
                        transit_grid,
                        fast_graph,
                        transit_path_calculator,
                        rng,
                        params,
                    ).unwrap();
                    let index_of_next_time: u64 = next_event.end_time_step - time_step - 1;
                    self.event_index.push_or_grow(index_of_next_time as usize, next_event);
                    proof {
                        let q_start = old_it_queue;
                        let q_now = self.spec_queue();
                        let a0 = event.agent_idx;
                        let tail = popped.subrange(i as int, popped.len() as int);
                        assert(tail[0] == event);
                        lemma_count_one_in_bucket(tail, 0);
                        // The processed agent owned exactly the event just handled,
                        // so every other pending event, popped or queued, belongs
                        // to another agent, whose membership the handling left
                        // alone.
                        assert(count_in_queue(q_start, a0) == 0);
                        assert forall|j: int|
                            i + 1 <= j < n implies event_wf(
                            #[trigger] popped[j],
                            *agents,
                            *containers,
                        ) && popped[j].end_time_step == time_step by {
                            if popped[j].agent_idx == a0 {
                                lemma_count_two_in_bucket(tail, 0, j - i);
                                assert(false);
                            }
                        }
                        assert forall|k: int, j: int|
                            0 <= k < q_now.len() && 0 <= j < q_now[k].len() implies event_wf(
                            #[trigger] q_now[k][j],
                            *agents,
                            *containers,
                        ) && q_now[k][j].end_time_step == time_step + 1 + k by {
                            if k == index_of_next_time && j == q_now[k].len() - 1 {
                                assert(q_now[k][j] == next_event);
                            } else {
                                assert(k < q_start.len() && q_now[k][j] == q_start[k][j]);
                                if q_start[k][j].agent_idx == a0 {
                                    lemma_count_bucket_le_queue(q_start, k, a0);
                                    lemma_count_one_in_bucket(q_start[k], j);
                                    assert(false);
                                }
                            }
                        }
                        assert forall|j: int|
                            0 <= j < pre_statuses.len() implies mix_evolution(
                            #[trigger] pre_statuses[j],
                            agents.disease_statuses@[j],
                            *params,
                        ) by {
                            lemma_mix_evolution_trans(
                                pre_statuses[j],
                                st_before[j],
                                agents.disease_statuses@[j],
                                *params,
                            );
                        }
                        assert forall|a: u32|
                            #[trigger] count_in_queue(q_now, a) + count_in_bucket(
                                popped.subrange(i + 1, popped.len() as int),
                                a,
                            ) == expected_count(*agents, a) by {
                            lemma_count_in_bucket_step(popped, i as int, a);
                        }
                    }
                    i = i + 1;
                }
                proof {
                    assert forall|a: u32|
                        #[trigger] count_in_queue(self.spec_queue(), a) == expected_count(
                        *agents,
                        a,
                    ) by {
                        assert(popped.subrange(n as int, popped.len() as int)
                            =~= Seq::<Event>::empty());
                    }
                }
            },
        }
    }
}


/// Pending events come out in non-decreasing due-time order: under the
/// scheduler's invariant, an event in an earlier bucket is due no later
/// than one in a later bucket, and nothing is due before `now`.
pub proof fn lemma_pending_events_time_ordered<M: MixingStrategy>(
    q: Seq<Seq<Event>>,
    now: TimeStep,
    agents: Agents,
    containers: Containers<M>,
)
    requires
        events_queue_wf(q, now, agents, containers),
    ensures
        forall|k1: int, j1: int, k2: int, j2: int|
            0 <= k1 <= k2 < q.len() && 0 <= j1 < q[k1].len() && 0 <= j2 < q[k2].len()
                ==> (#[trigger] q[k1][j1]).end_time_step <= (#[trigger] q[k2][j2]).end_time_step,
        forall|k: int, j: int|
            0 <= k < q.len() && 0 <= j < q[k].len() ==> now <= (#[trigger] q[k][j]).end_time_step,
{
}

} // verus!
