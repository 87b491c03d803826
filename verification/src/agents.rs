//! The population: flat per-agent arrays.
//!
//! An agent is a stable index into these arrays.  Agents are created once at
//! load time and never destroyed; only their disease status and container
//! membership change.

use vstd::prelude::*;

use crate::containers::Containers;
use crate::disease::mixing::MixingStrategy;
use crate::disease::status::construct_disease_status_array;
use crate::disease::status::status_wf;
use crate::disease::status::DiseaseStatus;
use crate::rng::new_rng;
use crate::shared::SimParams;

verus! {

/// The per-agent arrays: home container, optional occupation container
/// (workplace or school), and disease status, all indexed by agent.
#[derive(Clone)]
pub struct Agents {
    pub num_agents: u32,
    pub household_container: Vec<u64>,
    pub occupational_container: Vec<Option<u64>>,
    pub disease_statuses: Vec<DiseaseStatus>,
}

impl Agents {
    /// The arrays agree in length and every container reference is valid for
    /// a container list of `num_containers` entries.
    pub open spec fn wf(self, num_containers: int) -> bool {
        &&& self.household_container@.len() == self.num_agents
        &&& self.occupational_container@.len() == self.num_agents
        &&& self.disease_statuses@.len() == self.num_agents
        &&& forall|i: int|
            0 <= i < self.num_agents ==> (#[trigger] self.household_container@[i])
                < num_containers
        &&& forall|i: int|
            0 <= i < self.num_agents ==> ((#[trigger] self.occupational_container@[i]) matches Some(
            c) ==> c < num_containers)
    }

    /// Every status is within the reachable counter bounds.
    pub open spec fn statuses_wf(self, params: SimParams) -> bool {
        forall|i: int|
            0 <= i < self.disease_statuses@.len() ==> status_wf(
                #[trigger] self.disease_statuses@[i],
                params,
            )
    }

    /// Whether the agent commutes, i.e. has an occupation container.
    pub open spec fn spec_has_occupation(self, agent: u32) -> bool {
        self.occupational_container@[agent as int] is Some
    }

    /// Build the population from the model's per-agent household and
    /// workplace indices, seed every disease status, and place every agent
    /// without an occupation in its household container (commuting agents
    /// enter their containers through their first scheduled event instead).
    /// A workplace index of `u32::MAX` means the agent has no occupation.
    /// The seeding draws come from a fixed internal stream (seed 32), so
    /// two populations built from the same model start identically; the
    /// run's configurable random stream drives only scheduling and
    /// transmission.
    pub fn new<M: MixingStrategy>(
        household_indices: &Vec<u32>,
        workplace_indices: &Vec<u32>,
        containers: &mut Containers<M>,
        params: &SimParams,
    ) -> (r: Agents)
        requires
            params.wf(),
            household_indices@.len() == workplace_indices@.len(),
            household_indices@.len() <= u32::MAX,
            old(containers).spec_num_households() <= old(containers)@.len(),
            forall|i: int|
                0 <= i < household_indices@.len() ==> (#[trigger] household_indices@[i])
                    < old(containers).spec_num_households(),
            forall|i: int|
                0 <= i < workplace_indices@.len() ==> ((#[trigger] workplace_indices@[i])
                    == u32::MAX || old(containers).spec_num_households() + workplace_indices@[i]
                    < old(containers)@.len()),
            forall|c: int|
                0 <= c < old(containers)@.len() ==> (#[trigger] old(
                    containers,
                )@[c]).inhabitants@.len() == 0,
        ensures
            r.num_agents == household_indices@.len(),
            r.wf(final(containers)@.len() as int),
            r.statuses_wf(*params),
            params.seed_infection_chance == 0 ==> forall|i: int|
                0 <= i < r.num_agents ==> (#[trigger] r.disease_statuses@[i]).state
                    == crate::disease::status::State::Susceptible,
            final(containers)@.len() == old(containers)@.len(),
            final(containers).spec_num_households() == old(containers).spec_num_households(),
            forall|c: int|
                0 <= c < final(containers)@.len() ==> (#[trigger] final(containers)@[c]).pos
                    == old(containers)@[c].pos && final(containers)@[c].last_update == old(
                    containers,
                )@[c].last_update && final(containers)@[c].mixing_strategy == old(
                    containers,
                )@[c].mixing_strategy,
            forall|i: int|
                0 <= i < r.num_agents ==> (#[trigger] r.household_container@[i])
                    == household_indices@[i] as u64,
            forall|i: int|
                0 <= i < r.num_agents ==> (#[trigger] r.occupational_container@[i]) == (
                if workplace_indices@[i] == u32::MAX {
                    None::<u64>
                } else {
                    Some(
                        (old(containers).spec_num_households() + workplace_indices@[i]) as u64,
                    )
                }),
            final(containers).exclusive(),
            final(containers).agents_below(household_indices@.len() as int),
            forall|a: u32|
                final(containers).in_some_container(a) <==> (a < r.num_agents
                    && r.occupational_container@[a as int] is None),
            forall|c: int, a: u32|
                final(containers).contains_agent(c, a) ==> a < r.num_agents && c
                    == r.household_container@[a as int],
    {
        let num_agents: u32 = household_indices.len() as u32;
        let mut rng = new_rng(32);
        let mut household_container: Vec<u64> = Vec::new();
        let mut occupational_container: Vec<Option<u64>> = Vec::new();
        let mut i: u32 = 0;
        while i < num_agents
            invariant
                params.wf(),
                num_agents == household_indices@.len(),
                household_indices@.len() == workplace_indices@.len(),
                i <= num_agents,
                household_container@.len() == i,
                occupational_container@.len() == i,
                containers@.len() == old(containers)@.len(),
                containers.spec_num_households() == old(containers).spec_num_households(),
                containers.spec_num_households() <= containers@.len(),
                forall|k: int|
                    0 <= k < household_indices@.len() ==> (#[trigger] household_indices@[k])
                        < containers.spec_num_households(),
                forall|k: int|
                    0 <= k < workplace_indices@.len() ==> ((#[trigger] workplace_indices@[k])
                        == u32::MAX || containers.spec_num_households() + workplace_indices@[k]
                        < containers@.len()),
                forall|c: int|
                    0 <= c < containers@.len() ==> (#[trigger] containers@[c]).pos == old(
                        containers,
                    )@[c].pos && containers@[c].last_update == old(containers)@[c].last_update
                        && containers@[c].mixing_strategy == old(containers)@[c].mixing_strategy,
                forall|k: int|
                    0 <= k < i ==> (#[trigger] household_container@[k])
                        == household_indices@[k] as u64,
                forall|k: int|
                    0 <= k < i ==> (#[trigger] occupational_container@[k]) == (
                    if workplace_indices@[k] == u32::MAX {
                        None::<u64>
                    } else {
                        Some((containers.spec_num_households() + workplace_indices@[k]) as u64)
                    }),
                containers.exclusive(),
                containers.agents_below(i as int),
                forall|a: u32|
                    containers.in_some_container(a) <==> (a < i && occupational_container@[a as int]
                        is None),
                forall|c: int, a: u32|
                    containers.contains_agent(c, a) ==> a < i && c == household_container@[
                        a as int],
            decreases num_agents - i,
        {
            let household_idx = containers.get_household_idx(household_indices[i as usize]);
            let workplace_index = workplace_indices[i as usize];
            household_container.push(household_idx);
            if workplace_index == u32::MAX {
                containers.push_inhabitant_no_update(household_idx, i);
                occupational_container.push(None);
            } else {
                occupational_container.push(Some(containers.get_workplace_idx(workplace_index)));
            }
            i = i + 1;
        }
        proof {
            assert forall|k: int|
                0 <= k < num_agents implies ((#[trigger] occupational_container@[k]) matches Some(
                c,
            ) ==> c < containers@.len()) by {
                assert(occupational_container@[k] == (if workplace_indices@[k] == u32::MAX {
                    None::<u64>
                } else {
                    Some((containers.spec_num_households() + workplace_indices@[k]) as u64)
                }));
                if workplace_indices@[k] != u32::MAX {
                    assert(workplace_indices@[k] == u32::MAX || old(
                        containers,
                    ).spec_num_households() + workplace_indices@[k] < old(containers)@.len());
                    assert(containers.spec_num_households() + workplace_indices@[k]
                        < containers@.len());
                    assert(0 <= containers.spec_num_households() + workplace_indices@[k]
                        < u64::MAX);
                }
            }
        }
        let disease_statuses = construct_disease_status_array(num_agents, &mut rng, params);
        Agents { num_agents, household_container, occupational_container, disease_statuses }
    }
}

} // verus!
