//! Containers: the spatial areas (households and workplaces) where agents
//! spend time and mix.
//!
//! The engine's safety rests on one exclusivity invariant: an agent index
//! appears in at most one container's inhabitant list at any simulated
//! instant, and at most once there.  Every membership mutation first brings
//! the container's mixing up to the given time step, so an arriving or
//! leaving agent is never exposed to an interval it did not share.

use vstd::prelude::*;

use crate::agents::Agents;
use crate::disease::mixing::mix_step;
use crate::disease::mixing::lemma_mix_step_preserves_wf;
use crate::disease::mixing::MixingStrategy;
use crate::disease::mixing::Uniform;
use crate::disease::status::count_state;
use crate::disease::status::status_wf;
use crate::disease::status::DiseaseStatus;
use crate::disease::status::State;
use crate::shared::Pos;
use crate::shared::SimParams;
use crate::shared::TimeStep;
use crate::shared::MAX_EVENT_OFFSET;
use crate::shared::MAX_TIME_STEP;

verus! {

/// The statuses of the agents named by an inhabitant list, in list order:
/// the slice of the population one container's mixing pass works on.
pub open spec fn gather(statuses: Seq<DiseaseStatus>, inhabitants: Seq<u32>) -> Seq<
    DiseaseStatus,
> {
    inhabitants.map_values(|a: u32| statuses[a as int])
}

/// A spatial area where agents spend time and mix.
pub struct Container<M: MixingStrategy> {
    pub pos: Pos,
    pub inhabitants: Vec<u32>,
    pub mixing_strategy: M,
    pub last_update: TimeStep,
}

/// The fixed set of containers: households first, workplaces after them.
pub struct Containers<M: MixingStrategy> {
    elements: Vec<Container<M>>,
    num_households: u32,
}

impl<M: MixingStrategy> View for Containers<M> {
    type V = Seq<Container<M>>;

    closed spec fn view(&self) -> Seq<Container<M>> {
        self.elements@
    }
}

impl<M: MixingStrategy> Container<M> {
    /// Bring this container's mixing up to `time_step`: apply the mixing
    /// strategy to its inhabitants' statuses over the elapsed interval.
    /// Only the inhabitants' statuses change, each by one `mix_step`.
    fn update(
        &mut self,
        statuses: &mut Vec<DiseaseStatus>,
        rng: &mut rand::rngs::StdRng,
        time_step: TimeStep,
        params: &SimParams,
    )
        requires
            params.wf(),
            old(self).last_update <= time_step <= MAX_TIME_STEP + MAX_EVENT_OFFSET,
            old(statuses)@.len() <= u32::MAX,
            forall|k: int|
                0 <= k < old(self).inhabitants@.len() ==> (#[trigger] old(self).inhabitants@[k])
                    < old(statuses)@.len(),
            forall|k1: int, k2: int|
                0 <= k1 < old(self).inhabitants@.len() && 0 <= k2 < old(self).inhabitants@.len()
                    && k1 != k2 ==> old(self).inhabitants@[k1] != old(self).inhabitants@[k2],
            forall|j: int|
                0 <= j < old(statuses)@.len() ==> status_wf(#[trigger] old(statuses)@[j], *params),
        ensures
            final(self).pos == old(self).pos,
            final(self).inhabitants == old(self).inhabitants,
            final(self).mixing_strategy == old(self).mixing_strategy,
            final(self).last_update == time_step,
            final(statuses)@.len() == old(statuses)@.len(),
            forall|j: int|
                0 <= j < old(statuses)@.len() && !old(self).inhabitants@.contains(j as u32)
                    ==> final(statuses)@[j] == old(statuses)@[j],
            forall|k: int|
                0 <= k < old(self).inhabitants@.len() ==> mix_step(
                    old(statuses)@[#[trigger] old(self).inhabitants@[k] as int],
                    final(statuses)@[old(self).inhabitants@[k] as int],
                    (time_step - old(self).last_update) as u64,
                    *params,
                ),
            forall|j: int|
                0 <= j < final(statuses)@.len() ==> status_wf(
                    #[trigger] final(statuses)@[j],
                    *params,
                ),
            count_state(gather(old(statuses)@, old(self).inhabitants@), State::Infectious) == 0
                ==> final(statuses)@ == old(statuses)@,
            old(self).mixing_strategy.infects_surely(
                count_state(gather(old(statuses)@, old(self).inhabitants@), State::Infectious),
                (time_step - old(self).last_update) as u64,
            ) ==> forall|k: int|
                0 <= k < old(self).inhabitants@.len() ==> (old(statuses)@[#[trigger] old(
                    self,
                ).inhabitants@[k] as int].state == State::Susceptible ==> final(statuses)@[old(
                    self,
                ).inhabitants@[k] as int] == DiseaseStatus::spec_infected()),
    {
        let ghost pre = statuses@;
        let ghost inh = self.inhabitants@;
        let elapsed: u64 = time_step - self.last_update;
        let n = self.inhabitants.len();
        let mut slice: Vec<DiseaseStatus> = Vec::new();
        let mut k: usize = 0;
        while k < n
            invariant
                n == inh.len(),
                self.inhabitants@ == inh,
                statuses@ == pre,
                forall|m: int| 0 <= m < inh.len() ==> (#[trigger] inh[m]) < pre.len(),
                k <= n,
                slice@.len() == k,
                forall|m: int| 0 <= m < k ==> #[trigger] slice@[m] == pre[inh[m] as int],
            decreases n - k,
        {
            let agent = self.inhabitants[k];
            slice.push(statuses[agent as usize]);
            k = k + 1;
        }
        proof {
            assert(slice@ =~= gather(pre, inh));
        }
        self.mixing_strategy.handle_transmission(&mut slice, rng, elapsed, params);
        let ghost mixed = slice@;
        let mut w: usize = 0;
        while w < n
            invariant
                n == inh.len(),
                self.inhabitants@ == inh,
                statuses@.len() == pre.len(),
                mixed.len() == n,
                slice@ == mixed,
                forall|m: int| 0 <= m < inh.len() ==> (#[trigger] inh[m]) < pre.len(),
                forall|k1: int, k2: int|
                    0 <= k1 < inh.len() && 0 <= k2 < inh.len() && k1 != k2 ==> inh[k1] != inh[k2],
                w <= n,
                forall|j: int|
                    0 <= j < pre.len() && !inh.contains(j as u32) ==> #[trigger] statuses@[j]
                        == pre[j],
                forall|m: int|
                    0 <= m < w ==> statuses@[#[trigger] inh[m] as int] == mixed[m],
                forall|m: int|
                    w <= m < n ==> statuses@[#[trigger] inh[m] as int] == pre[inh[m] as int],
            decreases n - w,
        {
            let agent = self.inhabitants[w];
            statuses[agent as usize] = slice[w];
            proof {
                assert forall|j: int|
                    0 <= j < pre.len() && !inh.contains(j as u32) implies #[trigger] statuses@[j]
                    == pre[j] by {
                    assert(inh[w as int] == agent);
                    assert(inh.contains(agent));
                }
            }
            w = w + 1;
        }
        self.last_update = time_step;
        proof {
            let ghost post = statuses@;
            assert forall|k2: int|
                0 <= k2 < inh.len() implies mix_step(
                pre[#[trigger] inh[k2] as int],
                post[inh[k2] as int],
                elapsed,
                *params,
            ) by {
                assert(post[inh[k2] as int] == mixed[k2]);
                assert(gather(pre, inh)[k2] == pre[inh[k2] as int]);
            }
            assert forall|j: int| 0 <= j < post.len() implies status_wf(
                #[trigger] post[j],
                *params,
            ) by {
                if inh.contains(j as u32) {
                    let k2 = choose|k2: int| 0 <= k2 < inh.len() && inh[k2] == j as u32;
                    assert(post[j] == mixed[k2]);
                    lemma_mix_step_preserves_wf(pre[j], post[j], elapsed, *params);
                } else {
                    assert(post[j] == pre[j]);
                }
            }
            if count_state(gather(pre, inh), State::Infectious) == 0 {
                assert forall|j: int| 0 <= j < post.len() implies post[j] == pre[j] by {
                    if inh.contains(j as u32) {
                        let k2 = choose|k2: int| 0 <= k2 < inh.len() && inh[k2] == j as u32;
                        assert(post[j] == mixed[k2]);
                        assert(mixed == gather(pre, inh));
                        assert(gather(pre, inh)[k2] == pre[j]);
                    }
                }
                assert(post =~= pre);
            }
            if self.mixing_strategy.infects_surely(
                count_state(gather(pre, inh), State::Infectious),
                elapsed,
            ) {
                assert forall|k2: int|
                    0 <= k2 < inh.len() && pre[#[trigger] inh[k2] as int].state
                        == State::Susceptible implies post[inh[k2] as int]
                    == DiseaseStatus::spec_infected() by {
                    assert(gather(pre, inh)[k2] == pre[inh[k2] as int]);
                    assert(post[inh[k2] as int] == mixed[k2]);
                }
            }
        }
    }
}

impl<M: MixingStrategy> Containers<M> {
    /// The inhabitant list of container `c`.
    pub open spec fn inh(self, c: int) -> Seq<u32> {
        self@[c].inhabitants@
    }

    /// How many containers before the workplaces begin.
    pub closed spec fn spec_num_households(self) -> u32 {
        self.num_households
    }

    /// Whether container `c` holds agent `a`.
    pub open spec fn contains_agent(self, c: int, a: u32) -> bool {
        0 <= c < self@.len() && self@[c].inhabitants@.contains(a)
    }

    /// Whether any container holds agent `a`.
    pub open spec fn in_some_container(self, a: u32) -> bool {
        exists|c: int| self.contains_agent(c, a)
    }

    /// The exclusivity invariant: an agent index occurs at most once across
    /// all inhabitant lists (so never in two containers, and never twice in
    /// one).  This is what lets one mixing pass per container touch a
    /// disjoint slice of the population.
    pub open spec fn exclusive(self) -> bool {
        forall|c1: int, i1: int, c2: int, i2: int|
            #![trigger self@[c1].inhabitants@[i1], self@[c2].inhabitants@[i2]]
            (0 <= c1 < self@.len() && 0 <= i1 < self@[c1].inhabitants@.len() && 0 <= c2
                < self@.len() && 0 <= i2 < self@[c2].inhabitants@.len()
                && self@[c1].inhabitants@[i1] == self@[c2].inhabitants@[i2]) ==> (c1 == c2 && i1
                == i2)
    }

    /// Every inhabitant index names an agent below `num_agents`.
    pub open spec fn agents_below(self, num_agents: int) -> bool {
        forall|c: int, i: int|
            #![trigger self@[c].inhabitants@[i]]
            0 <= c < self@.len() && 0 <= i < self@[c].inhabitants@.len()
                ==> self@[c].inhabitants@[i] < num_agents
    }

    /// Every container's position lies below the coordinate bound, which is
    /// what keeps the router's distance arithmetic in range.
    pub open spec fn positions_bounded(self) -> bool {
        forall|c: int|
            0 <= c < self@.len() ==> (#[trigger] self@[c]).pos.x < crate::shared::MAX_COORD
                && self@[c].pos.y < crate::shared::MAX_COORD
    }

    /// No container's mixing timestamp is ahead of `time_step`.
    pub open spec fn updated_until(self, time_step: TimeStep) -> bool {
        forall|c: int| 0 <= c < self@.len() ==> (#[trigger] self@[c]).last_update <= time_step
    }

    /// The container at `idx`, if any.
    pub fn get(&self, idx: u64) -> (r: Option<&Container<M>>)
        ensures
            match r {
                Some(container) => idx < self@.len() && *container == self@[idx as int],
                None => idx >= self@.len(),
            },
    {
        if idx < self.elements.len() as u64 {
            Some(&self.elements[idx as usize])
        } else {
            None
        }
    }

    /// The household with the given household index, if any.
    #[inline]
    pub fn get_household(&self, household_ind: u32) -> (r: Option<&Container<M>>)
        ensures
            match r {
                Some(container) => household_ind < self@.len() && *container == self@[
                    household_ind as int],
                None => household_ind as int >= self@.len(),
            },
    {
        self.get(household_ind as u64)
    }

    /// The container index a household index maps to.
    #[inline]
    pub fn get_household_idx(&self, household_ind: u32) -> (r: u64)
        ensures
            r == household_ind,
    {
        household_ind as u64
    }

    /// The workplace with the given workplace index, if any.
    #[inline]
    pub fn get_workplace(&self, workplace_ind: u32) -> (r: Option<&Container<M>>)
        ensures
            match r {
                Some(container) => self.spec_num_households() + workplace_ind < self@.len()
                    && *container == self@[self.spec_num_households() + workplace_ind],
                None => self.spec_num_households() + workplace_ind >= self@.len(),
            },
    {
        self.get(self.num_households as u64 + workplace_ind as u64)
    }

    /// The container index a workplace index maps to: workplaces follow the
    /// households.
    #[inline]
    pub fn get_workplace_idx(&self, workplace_ind: u32) -> (r: u64)
        ensures
            r == self.spec_num_households() + workplace_ind,
    {
        self.num_households as u64 + workplace_ind as u64
    }

    /// How many containers there are.
    #[inline]
    pub fn len(&self) -> (r: usize)
        ensures
            r == self@.len(),
    {
        self.elements.len()
    }

    /// Whether there are no containers.
    #[inline]
    pub fn is_empty(&self) -> (r: bool)
        ensures
            r == (self@.len() == 0),
    {
        self.elements.is_empty()
    }

    /// Append an agent to a container without a mixing catch-up; only for
    /// initial placement at time zero, before any mixing interval has passed.
    #[inline]
    pub(crate) fn push_inhabitant_no_update(&mut self, container_idx: u64, agent_idx: u32)
        requires
            container_idx < old(self)@.len(),
            old(self).exclusive(),
            !old(self).in_some_container(agent_idx),
        ensures
            final(self)@.len() == old(self)@.len(),
            final(self).spec_num_households() == old(self).spec_num_households(),
            forall|c: int|
                0 <= c < old(self)@.len() && c != container_idx ==> final(self)@[c] == old(
                    self,
                )@[c],
            final(self)@[container_idx as int].pos == old(self)@[container_idx as int].pos,
            final(self)@[container_idx as int].mixing_strategy == old(
                self,
            )@[container_idx as int].mixing_strategy,
            final(self)@[container_idx as int].last_update == old(
                self,
            )@[container_idx as int].last_update,
            final(self).inh(container_idx as int) == old(self).inh(container_idx as int).push(
                agent_idx,
            ),
            final(self).exclusive(),
            forall|a: u32|
                final(self).in_some_container(a) <==> (old(self).in_some_container(a) || a
                    == agent_idx),
            forall|c: int, a: u32|
                final(self).contains_agent(c, a) <==> (old(self).contains_agent(c, a) || (c
                    == container_idx && a == agent_idx)),
    {
        let ghost pre = self@;
        let num_containers = self.elements.len();
        let container = &mut self.elements[container_idx as usize];
        container.inhabitants.push(agent_idx);
        proof {
            assert forall|d: int, i: int|
                !(0 <= d < pre.len() && 0 <= i < pre[d].inhabitants@.len()
                    && pre[d].inhabitants@[i] == agent_idx) by {
                if 0 <= d < pre.len() && 0 <= i < pre[d].inhabitants@.len()
                    && pre[d].inhabitants@[i] == agent_idx {
                    assert(pre[d].inhabitants@.contains(agent_idx));
                    assert(old(self).contains_agent(d, agent_idx));
                    assert(old(self).in_some_container(agent_idx));
                }
            }
            lemma_membership_after_push(pre, self@, container_idx as int, agent_idx);
            assert forall|a: u32|
                final(self).in_some_container(a) <==> (old(self).in_some_container(a) || a
                    == agent_idx) by {
                if final(self).in_some_container(a) {
                    let c = choose|c: int| #[trigger] final(self).contains_agent(c, a);
                    if pre[c].inhabitants@.contains(a) {
                        assert(old(self).contains_agent(c, a));
                    }
                }
                if old(self).in_some_container(a) {
                    let c = choose|c: int| #[trigger] old(self).contains_agent(c, a);
                    assert(final(self).contains_agent(c, a));
                }
                if a == agent_idx {
                    assert(final(self)@[container_idx as int].inhabitants@.contains(a));
                    assert(final(self).contains_agent(container_idx as int, a));
                }
            }
        }
    }

    /// Register an agent's arrival in a container at `time_step`, after
    /// bringing the container's mixing up to that instant.
    #[inline]
    pub fn push_inhabitant(
        &mut self,
        container_idx: u64,
        agent_idx: u32,
        time_step: TimeStep,
        agents: &mut Agents,
        rng: &mut rand::rngs::StdRng,
        params: &SimParams,
    )
        requires
            params.wf(),
            container_idx < old(self)@.len(),
            old(self).exclusive(),
            !old(self).in_some_container(agent_idx),
            old(self).agents_below(old(agents).disease_statuses@.len() as int),
            old(agents).disease_statuses@.len() <= u32::MAX,
            old(self)@[container_idx as int].last_update <= time_step <= MAX_TIME_STEP + MAX_EVENT_OFFSET,
            forall|j: int|
                0 <= j < old(agents).disease_statuses@.len() ==> status_wf(
                    #[trigger] old(agents).disease_statuses@[j],
                    *params,
                ),
        ensures
            final(self)@.len() == old(self)@.len(),
            final(self).spec_num_households() == old(self).spec_num_households(),
            forall|c: int|
                0 <= c < old(self)@.len() && c != container_idx ==> final(self)@[c] == old(
                    self,
                )@[c],
            final(self)@[container_idx as int].pos == old(self)@[container_idx as int].pos,
            final(self)@[container_idx as int].mixing_strategy == old(
                self,
            )@[container_idx as int].mixing_strategy,
            final(self)@[container_idx as int].last_update == time_step,
            final(self).inh(container_idx as int) == old(self).inh(container_idx as int).push(
                agent_idx,
            ),
            final(self).exclusive(),
            forall|a: u32|
                final(self).in_some_container(a) <==> (old(self).in_some_container(a) || a
                    == agent_idx),
            forall|c: int, a: u32|
                final(self).contains_agent(c, a) <==> (old(self).contains_agent(c, a) || (c
                    == container_idx && a == agent_idx)),
            final(agents).num_agents == old(agents).num_agents,
            final(agents).household_container == old(agents).household_container,
            final(agents).occupational_container == old(agents).occupational_container,
            final(agents).disease_statuses@.len() == old(agents).disease_statuses@.len(),
            forall|j: int|
                0 <= j < old(agents).disease_statuses@.len() && !old(self).inh(
                    container_idx as int,
                ).contains(j as u32) ==> final(agents).disease_statuses@[j] == old(
                    agents,
                ).disease_statuses@[j],
            forall|k: int|
                0 <= k < old(self).inh(container_idx as int).len() ==> mix_step(
                    old(agents).disease_statuses@[#[trigger] old(self).inh(container_idx as int)[k]
                        as int],
                    final(agents).disease_statuses@[old(self).inh(container_idx as int)[k] as int],
                    (time_step - old(self)@[container_idx as int].last_update) as u64,
                    *params,
                ),
            forall|j: int|
                0 <= j < final(agents).disease_statuses@.len() ==> status_wf(
                    #[trigger] final(agents).disease_statuses@[j],
                    *params,
                ),
    {
        let ghost pre = self@;
        let ghost pre_statuses = agents.disease_statuses@;
        let num_containers = self.elements.len();
        let container = &mut self.elements[container_idx as usize];
        proof {
            lemma_exclusive_container(pre, container_idx as int);
        }
        if time_step > container.last_update {
            container.update(&mut agents.disease_statuses, rng, time_step, params);
        } else {
            proof {
                assert forall|k: int|
                    0 <= k < pre[container_idx as int].inhabitants@.len() implies mix_step(
                    pre_statuses[#[trigger] pre[container_idx as int].inhabitants@[k] as int],
                    pre_statuses[pre[container_idx as int].inhabitants@[k] as int],
                    0u64,
                    *params,
                ) by {
                    lemma_mix_step_reflexive(
                        pre_statuses[pre[container_idx as int].inhabitants@[k] as int],
                        *params,
                    );
                }
            }
        }
        container.inhabitants.push(agent_idx);
        proof {
            assert forall|d: int, i: int|
                !(0 <= d < pre.len() && 0 <= i < pre[d].inhabitants@.len()
                    && pre[d].inhabitants@[i] == agent_idx) by {
                if 0 <= d < pre.len() && 0 <= i < pre[d].inhabitants@.len()
                    && pre[d].inhabitants@[i] == agent_idx {
                    assert(pre[d].inhabitants@.contains(agent_idx));
                    assert(old(self).contains_agent(d, agent_idx));
                    assert(old(self).in_some_container(agent_idx));
                }
            }
            lemma_membership_after_push(pre, self@, container_idx as int, agent_idx);
            assert forall|a: u32|
                final(self).in_some_container(a) <==> (old(self).in_some_container(a) || a
                    == agent_idx) by {
                if final(self).in_some_container(a) {
                    let c = choose|c: int| #[trigger] final(self).contains_agent(c, a);
                    if pre[c].inhabitants@.contains(a) {
                        assert(old(self).contains_agent(c, a));
                    }
                }
                if old(self).in_some_container(a) {
                    let c = choose|c: int| #[trigger] old(self).contains_agent(c, a);
                    assert(final(self).contains_agent(c, a));
                }
                if a == agent_idx {
                    assert(final(self)@[container_idx as int].inhabitants@.contains(a));
                    assert(final(self).contains_agent(container_idx as int, a));
                }
            }
        }
    }
}

/// A reachable status is a fixed point of a mixing step over zero elapsed
/// time: nothing has happened in no time.
proof fn lemma_mix_step_reflexive(a: DiseaseStatus, params: SimParams)
    requires
        params.wf(),
        status_wf(a, params),
    ensures
        mix_step(a, a, 0u64, params),
{
}

/// A container list that satisfies the exclusivity invariant has, within any
/// one container, pairwise-distinct inhabitants.
proof fn lemma_exclusive_container<M: MixingStrategy>(cs: Seq<Container<M>>, c: int)
    requires
        forall|c1: int, i1: int, c2: int, i2: int|
            #![trigger cs[c1].inhabitants@[i1], cs[c2].inhabitants@[i2]]
            (0 <= c1 < cs.len() && 0 <= i1 < cs[c1].inhabitants@.len() && 0 <= c2 < cs.len() && 0
                <= i2 < cs[c2].inhabitants@.len() && cs[c1].inhabitants@[i1]
                == cs[c2].inhabitants@[i2]) ==> (c1 == c2 && i1 == i2),
        0 <= c < cs.len(),
    ensures
        forall|k1: int, k2: int|
            0 <= k1 < cs[c].inhabitants@.len() && 0 <= k2 < cs[c].inhabitants@.len() && k1 != k2
                ==> cs[c].inhabitants@[k1] != cs[c].inhabitants@[k2],
{
}

/// Membership facts after appending one agent, absent before, to container
/// `c` of an exclusive container list whose other entries are unchanged.
proof fn lemma_membership_after_push<M: MixingStrategy>(
    pre: Seq<Container<M>>,
    post: Seq<Container<M>>,
    c: int,
    agent: u32,
)
    requires
        0 <= c < pre.len(),
        post.len() == pre.len(),
        forall|d: int| 0 <= d < pre.len() && d != c ==> post[d] == pre[d],
        post[c].inhabitants@ == pre[c].inhabitants@.push(agent),
        forall|c1: int, i1: int, c2: int, i2: int|
            #![trigger pre[c1].inhabitants@[i1], pre[c2].inhabitants@[i2]]
            (0 <= c1 < pre.len() && 0 <= i1 < pre[c1].inhabitants@.len() && 0 <= c2 < pre.len() && 0
                <= i2 < pre[c2].inhabitants@.len() && pre[c1].inhabitants@[i1]
                == pre[c2].inhabitants@[i2]) ==> (c1 == c2 && i1 == i2),
        forall|d: int, i: int|
            !(0 <= d < pre.len() && 0 <= i < pre[d].inhabitants@.len() && pre[d].inhabitants@[i]
                == agent),
    ensures
        forall|c1: int, i1: int, c2: int, i2: int|
            #![trigger post[c1].inhabitants@[i1], post[c2].inhabitants@[i2]]
            (0 <= c1 < post.len() && 0 <= i1 < post[c1].inhabitants@.len() && 0 <= c2 < post.len()
                && 0 <= i2 < post[c2].inhabitants@.len() && post[c1].inhabitants@[i1]
                == post[c2].inhabitants@[i2]) ==> (c1 == c2 && i1 == i2),
        forall|d: int, a: u32|
            #![trigger post[d].inhabitants@.contains(a)]
            0 <= d < post.len() ==> (post[d].inhabitants@.contains(a) <==> (
            pre[d].inhabitants@.contains(a) || (d == c && a == agent))),
{
    assert forall|c1: int, i1: int, c2: int, i2: int|
        (0 <= c1 < post.len() && 0 <= i1 < post[c1].inhabitants@.len() && 0 <= c2 < post.len() && 0
            <= i2 < post[c2].inhabitants@.len() && post[c1].inhabitants@[i1]
            == post[c2].inhabitants@[i2]) implies (c1 == c2 && i1 == i2) by {
        let v1 = post[c1].inhabitants@[i1];
        if c1 == c && i1 == pre[c].inhabitants@.len() {
            if !(c2 == c && i2 == pre[c].inhabitants@.len()) {
                assert(pre[c2].inhabitants@[i2] == agent);
            }
        } else {
            assert(post[c1].inhabitants@[i1] == pre[c1].inhabitants@[i1]);
            if c2 == c && i2 == pre[c].inhabitants@.len() {
                assert(pre[c1].inhabitants@[i1] == agent);
            } else {
                assert(post[c2].inhabitants@[i2] == pre[c2].inhabitants@[i2]);
            }
        }
    }
    assert forall|d: int, a: u32| 0 <= d < post.len() implies (#[trigger] post[d].inhabitants@.contains(
        a,
    ) <==> (pre[d].inhabitants@.contains(a) || (d == c && a == agent))) by {
        if d == c {
            if post[d].inhabitants@.contains(a) {
                let i = choose|i: int|
                    0 <= i < post[d].inhabitants@.len() && post[d].inhabitants@[i] == a;
                if i < pre[c].inhabitants@.len() {
                    assert(pre[d].inhabitants@[i] == a);
                }
            }
            if pre[d].inhabitants@.contains(a) {
                let i = choose|i: int|
                    0 <= i < pre[d].inhabitants@.len() && pre[d].inhabitants@[i] == a;
                assert(post[d].inhabitants@[i] == a);
            }
            if a == agent {
                assert(post[d].inhabitants@[pre[c].inhabitants@.len() as int] == agent);
            }
        } else {
            assert(post[d] == pre[d]);
        }
    }
}


impl<M: MixingStrategy> Containers<M> {
    /// Register an agent's departure from a container at `time_step`, after
    /// bringing the container's mixing up to that instant.  The agent must
    /// be present; it is removed by a swap with the list's last entry, since
    /// order within a container does not matter.
    #[inline]
    pub fn remove_inhabitant(
        &mut self,
        container_idx: u64,
        agent_idx: u32,
        time_step: TimeStep,
        agents: &mut Agents,
        rng: &mut rand::rngs::StdRng,
        params: &SimParams,
    )
        requires
            params.wf(),
            container_idx < old(self)@.len(),
            old(self).exclusive(),
            old(self).contains_agent(container_idx as int, agent_idx),
            old(self).agents_below(old(agents).disease_statuses@.len() as int),
            old(agents).disease_statuses@.len() <= u32::MAX,
            old(self)@[container_idx as int].last_update <= time_step <= MAX_TIME_STEP + MAX_EVENT_OFFSET,
            forall|j: int|
                0 <= j < old(agents).disease_statuses@.len() ==> status_wf(
                    #[trigger] old(agents).disease_statuses@[j],
                    *params,
                ),
        ensures
            final(self)@.len() == old(self)@.len(),
            final(self).spec_num_households() == old(self).spec_num_households(),
            forall|c: int|
                0 <= c < old(self)@.len() && c != container_idx ==> final(self)@[c] == old(
                    self,
                )@[c],
            final(self)@[container_idx as int].pos == old(self)@[container_idx as int].pos,
            final(self)@[container_idx as int].mixing_strategy == old(
                self,
            )@[container_idx as int].mixing_strategy,
            final(self)@[container_idx as int].last_update == time_step,
            final(self)@[container_idx as int].inhabitants@.len() == old(self)@[container_idx
                as int].inhabitants@.len() - 1,
            final(self).exclusive(),
            forall|a: u32|
                final(self).in_some_container(a) <==> (old(self).in_some_container(a) && a
                    != agent_idx),
            forall|c: int, a: u32|
                final(self).contains_agent(c, a) <==> (old(self).contains_agent(c, a) && a
                    != agent_idx),
            final(agents).num_agents == old(agents).num_agents,
            final(agents).household_container == old(agents).household_container,
            final(agents).occupational_container == old(agents).occupational_container,
            final(agents).disease_statuses@.len() == old(agents).disease_statuses@.len(),
            forall|j: int|
                0 <= j < old(agents).disease_statuses@.len() && !old(self)@[container_idx
                    as int].inhabitants@.contains(j as u32) ==> final(agents).disease_statuses@[j]
                    == old(agents).disease_statuses@[j],
            forall|k: int|
                0 <= k < old(self)@[container_idx as int].inhabitants@.len() ==> mix_step(
                    old(agents).disease_statuses@[#[trigger] old(self)@[container_idx
                        as int].inhabitants@[k] as int],
                    final(agents).disease_statuses@[old(self)@[container_idx
                        as int].inhabitants@[k] as int],
                    (time_step - old(self)@[container_idx as int].last_update) as u64,
                    *params,
                ),
            forall|j: int|
                0 <= j < final(agents).disease_statuses@.len() ==> status_wf(
                    #[trigger] final(agents).disease_statuses@[j],
                    *params,
                ),
            forall|n: int| old(self).agents_below(n) ==> final(self).agents_below(n),
            old(self).positions_bounded() ==> final(self).positions_bounded(),
            forall|t: TimeStep|
                old(self).updated_until(t) && time_step <= t ==> final(self).updated_until(t),
    {
        let ghost pre = self@;
        let ghost pre_statuses = agents.disease_statuses@;
        let num_containers = self.elements.len();
        let container = &mut self.elements[container_idx as usize];
        proof {
            lemma_exclusive_container(pre, container_idx as int);
        }
        if time_step > container.last_update {
            container.update(&mut agents.disease_statuses, rng, time_step, params);
        } else {
            proof {
                assert forall|k: int|
                    0 <= k < pre[container_idx as int].inhabitants@.len() implies mix_step(
                    pre_statuses[#[trigger] pre[container_idx as int].inhabitants@[k] as int],
                    pre_statuses[pre[container_idx as int].inhabitants@[k] as int],
                    0u64,
                    *params,
                ) by {
                    lemma_mix_step_reflexive(
                        pre_statuses[pre[container_idx as int].inhabitants@[k] as int],
                        *params,
                    );
                }
            }
        }
        let ghost inh0 = pre[container_idx as int].inhabitants@;
        let n = container.inhabitants.len();
        let mut pos: usize = 0;
        while container.inhabitants[pos] != agent_idx
            invariant
                n == inh0.len(),
                container.inhabitants@ == inh0,
                inh0.contains(agent_idx),
                pos < n,
                forall|m: int| 0 <= m < pos ==> inh0[m] != agent_idx,
            decreases n - pos,
        {
            pos = pos + 1;
            proof {
                if pos == n {
                    let i = choose|i: int| 0 <= i < inh0.len() && inh0[i] == agent_idx;
                    assert(false);
                }
            }
        }
        container.inhabitants.swap_remove(pos);
        proof {
            lemma_membership_after_remove(pre, self@, container_idx as int, pos as int, agent_idx);
            assert forall|a: u32|
                final(self).in_some_container(a) <==> (old(self).in_some_container(a) && a
                    != agent_idx) by {
                if final(self).in_some_container(a) {
                    let c = choose|c: int| #[trigger] final(self).contains_agent(c, a);
                    assert(old(self).contains_agent(c, a));
                }
                if old(self).in_some_container(a) && a != agent_idx {
                    let c = choose|c: int| #[trigger] old(self).contains_agent(c, a);
                    assert(final(self).contains_agent(c, a));
                }
            }
            assert forall|n: int| old(self).agents_below(n) implies self.agents_below(n) by {
                let len = pre[container_idx as int].inhabitants@.len() as int;
                assert forall|c: int, i: int|
                    0 <= c < self@.len() && 0 <= i < self@[c].inhabitants@.len()
                        implies #[trigger] self@[c].inhabitants@[i] < n by {
                    if c == container_idx {
                        if i == pos && pos < len - 1 {
                            assert(self@[c].inhabitants@[i] == pre[c].inhabitants@[len - 1]);
                        } else {
                            assert(self@[c].inhabitants@[i] == pre[c].inhabitants@[i]);
                        }
                    } else {
                        assert(self@[c].inhabitants@[i] == pre[c].inhabitants@[i]);
                    }
                }
            }
        }
    }

    /// One global mixing pass: bring every container's mixing up to
    /// `time_step`.  By the exclusivity invariant the containers' inhabitant
    /// lists partition the touched agents, so each agent's status is advanced
    /// by exactly one container's pass (and agents in no container are left
    /// alone), as the contract states agent by agent.
    pub fn update_all(
        &mut self,
        agents: &mut Agents,
        rng: &mut rand::rngs::StdRng,
        time_step: TimeStep,
        params: &SimParams,
    )
        requires
            params.wf(),
            old(self).exclusive(),
            old(self).agents_below(old(agents).disease_statuses@.len() as int),
            old(agents).disease_statuses@.len() <= u32::MAX,
            old(self).updated_until(time_step),
            time_step <= MAX_TIME_STEP + MAX_EVENT_OFFSET,
            forall|j: int|
                0 <= j < old(agents).disease_statuses@.len() ==> status_wf(
                    #[trigger] old(agents).disease_statuses@[j],
                    *params,
                ),
        ensures
            final(self)@.len() == old(self)@.len(),
            final(self).spec_num_households() == old(self).spec_num_households(),
            forall|c: int|
                0 <= c < old(self)@.len() ==> (#[trigger] final(self)@[c]).pos == old(self)@[c].pos
                    && final(self)@[c].inhabitants@ == old(self)@[c].inhabitants@
                    && final(self)@[c].mixing_strategy == old(self)@[c].mixing_strategy
                    && final(self)@[c].last_update == time_step,
            final(self).exclusive(),
            final(agents).num_agents == old(agents).num_agents,
            final(agents).household_container == old(agents).household_container,
            final(agents).occupational_container == old(agents).occupational_container,
            final(agents).disease_statuses@.len() == old(agents).disease_statuses@.len(),
            forall|j: int|
                0 <= j < old(agents).disease_statuses@.len() && !old(self).in_some_container(
                    j as u32,
                ) ==> final(agents).disease_statuses@[j] == old(agents).disease_statuses@[j],
            forall|c: int, k: int|
                #![trigger old(self)@[c].inhabitants@[k]]
                0 <= c < old(self)@.len() && 0 <= k < old(self)@[c].inhabitants@.len() ==> mix_step(
                    old(agents).disease_statuses@[old(self)@[c].inhabitants@[k] as int],
                    final(agents).disease_statuses@[old(self)@[c].inhabitants@[k] as int],
                    (time_step - old(self)@[c].last_update) as u64,
                    *params,
                ),
            forall|j: int|
                0 <= j < old(agents).disease_statuses@.len() ==> crate::disease::mixing::mix_evolution(
                    #[trigger] old(agents).disease_statuses@[j],
                    final(agents).disease_statuses@[j],
                    *params,
                ),
            forall|j: int|
                0 <= j < final(agents).disease_statuses@.len() ==> status_wf(
                    #[trigger] final(agents).disease_statuses@[j],
                    *params,
                ),
            forall|c: int|
                #![trigger old(self)@[c]]
                0 <= c < old(self)@.len() && count_state(
                    gather(old(agents).disease_statuses@, old(self)@[c].inhabitants@),
                    State::Infectious,
                ) == 0 ==> forall|k: int|
                    0 <= k < old(self)@[c].inhabitants@.len()
                        ==> final(agents).disease_statuses@[#[trigger] old(self)@[c].inhabitants@[k]
                        as int] == old(agents).disease_statuses@[old(self)@[c].inhabitants@[k]
                        as int],
            forall|c: int|
                #![trigger old(self)@[c]]
                0 <= c < old(self)@.len() && old(self)@[c].last_update < time_step
                    && old(self)@[c].mixing_strategy.infects_surely(
                    count_state(
                        gather(old(agents).disease_statuses@, old(self)@[c].inhabitants@),
                        State::Infectious,
                    ),
                    (time_step - old(self)@[c].last_update) as u64,
                ) ==> forall|k: int|
                    0 <= k < old(self)@[c].inhabitants@.len()
                        ==> (old(agents).disease_statuses@[#[trigger] old(self)@[c].inhabitants@[k]
                        as int].state == State::Susceptible
                        ==> final(agents).disease_statuses@[old(self)@[c].inhabitants@[k] as int]
                        == DiseaseStatus::spec_infected()),
    {
        let ghost pre = self@;
        let ghost pre_statuses = agents.disease_statuses@;
        let n = self.elements.len();
        let mut c: usize = 0;
        while c < n
            invariant
                params.wf(),
                n == pre.len(),
                self@.len() == pre.len(),
                self.spec_num_households() == old(self).spec_num_households(),
                c <= n,
                time_step <= MAX_TIME_STEP + MAX_EVENT_OFFSET,
                agents.disease_statuses@.len() == pre_statuses.len(),
                pre_statuses.len() <= u32::MAX,
                agents.num_agents == old(agents).num_agents,
                agents.household_container == old(agents).household_container,
                agents.occupational_container == old(agents).occupational_container,
                forall|c1: int, i1: int, c2: int, i2: int|
                    #![trigger pre[c1].inhabitants@[i1], pre[c2].inhabitants@[i2]]
                    (0 <= c1 < pre.len() && 0 <= i1 < pre[c1].inhabitants@.len() && 0 <= c2
                        < pre.len() && 0 <= i2 < pre[c2].inhabitants@.len()
                        && pre[c1].inhabitants@[i1] == pre[c2].inhabitants@[i2]) ==> (c1 == c2
                        && i1 == i2),
                forall|d: int, i: int|
                    #![trigger pre[d].inhabitants@[i]]
                    0 <= d < pre.len() && 0 <= i < pre[d].inhabitants@.len()
                        ==> pre[d].inhabitants@[i] < pre_statuses.len(),
                forall|d: int| 0 <= d < pre.len() ==> (#[trigger] pre[d]).last_update <= time_step,
                forall|d: int|
                    0 <= d < pre.len() ==> (#[trigger] self@[d]).pos == pre[d].pos && self@[d].inhabitants@
                        == pre[d].inhabitants@ && self@[d].mixing_strategy
                        == pre[d].mixing_strategy,
                forall|d: int| 0 <= d < c ==> (#[trigger] self@[d]).last_update == time_step,
                forall|d: int|
                    c <= d < n ==> (#[trigger] self@[d]).last_update == pre[d].last_update,
                forall|j: int|
                    0 <= j < pre_statuses.len() && !member_of_prefix(pre, c as int, j)
                        ==> agents.disease_statuses@[j] == pre_statuses[j],
                forall|d: int, k: int|
                    #![trigger pre[d].inhabitants@[k]]
                    0 <= d < c && 0 <= k < pre[d].inhabitants@.len() ==> mix_step(
                        pre_statuses[pre[d].inhabitants@[k] as int],
                        agents.disease_statuses@[pre[d].inhabitants@[k] as int],
                        (time_step - pre[d].last_update) as u64,
                        *params,
                    ),
                forall|j: int|
                    0 <= j < agents.disease_statuses@.len() ==> status_wf(
                        #[trigger] agents.disease_statuses@[j],
                        *params,
                    ),
                forall|d: int|
                    #![trigger pre[d]]
                    0 <= d < c && count_state(
                        gather(pre_statuses, pre[d].inhabitants@),
                        State::Infectious,
                    ) == 0 ==> forall|k: int|
                        0 <= k < pre[d].inhabitants@.len()
                            ==> agents.disease_statuses@[#[trigger] pre[d].inhabitants@[k] as int]
                            == pre_statuses[pre[d].inhabitants@[k] as int],
                forall|d: int|
                    #![trigger pre[d]]
                    0 <= d < c && pre[d].last_update < time_step
                        && pre[d].mixing_strategy.infects_surely(
                        count_state(gather(pre_statuses, pre[d].inhabitants@), State::Infectious),
                        (time_step - pre[d].last_update) as u64,
                    ) ==> forall|k: int|
                        0 <= k < pre[d].inhabitants@.len() ==> (pre_statuses[#[trigger] pre[d].inhabitants@[k] as int].state
                            == State::Susceptible ==> agents.disease_statuses@[pre[d].inhabitants@[k] as int]
                            == DiseaseStatus::spec_infected()),
            decreases n - c,
        {
            let ghost st_before = agents.disease_statuses@;
            let container = &mut self.elements[c];
            proof {
                lemma_exclusive_container(pre, c as int);
                assert forall|j: int|
                    0 <= j < pre_statuses.len() && member_of_prefix(pre, c as int, j)
                        implies !pre[c as int].inhabitants@.contains(j as u32) by {
                    if pre[c as int].inhabitants@.contains(j as u32) {
                        let d = choose|d: int|
                            0 <= d < c && pre[d].inhabitants@.contains(j as u32);
                        let i1 = choose|i: int|
                            0 <= i < pre[d].inhabitants@.len() && pre[d].inhabitants@[i] == j
                                as u32;
                        let i2 = choose|i: int|
                            0 <= i < pre[c as int].inhabitants@.len() && pre[c
                                as int].inhabitants@[i] == j as u32;
                        assert(pre[d].inhabitants@[i1] == pre[c as int].inhabitants@[i2]);
                        assert(false);
                    }
                }
            }
            if time_step > container.last_update {
                container.update(&mut agents.disease_statuses, rng, time_step, params);
            } else {
                proof {
                    assert forall|k: int|
                        0 <= k < pre[c as int].inhabitants@.len() implies mix_step(
                        st_before[#[trigger] pre[c as int].inhabitants@[k] as int],
                        st_before[pre[c as int].inhabitants@[k] as int],
                        0u64,
                        *params,
                    ) by {
                        lemma_mix_step_reflexive(
                            st_before[pre[c as int].inhabitants@[k] as int],
                            *params,
                        );
                    }
                }
            }
            proof {
                let st_after = agents.disease_statuses@;
                assert forall|j: int|
                    0 <= j < pre_statuses.len() && !member_of_prefix(pre, c as int + 1, j)
                        implies st_after[j] == pre_statuses[j] by {
                    assert(!member_of_prefix(pre, c as int, j));
                    assert(!pre[c as int].inhabitants@.contains(j as u32));
                    assert(st_after[j] == st_before[j]);
                }
                assert(gather(st_before, pre[c as int].inhabitants@) =~= gather(
                    pre_statuses,
                    pre[c as int].inhabitants@,
                )) by {
                    let inh_c = pre[c as int].inhabitants@;
                    assert forall|k: int|
                        0 <= k < inh_c.len() implies st_before[#[trigger] inh_c[k] as int]
                        == pre_statuses[inh_c[k] as int] by {
                        let j = inh_c[k] as int;
                        assert(inh_c.contains(j as u32));
                        assert(!member_of_prefix(pre, c as int, j));
                    }
                }
                assert forall|d: int|
                    0 <= d < c + 1 && count_state(
                        gather(pre_statuses, pre[d].inhabitants@),
                        State::Infectious,
                    ) == 0 implies forall|k: int|
                    0 <= k < pre[d].inhabitants@.len()
                        ==> st_after[#[trigger] pre[d].inhabitants@[k] as int]
                        == pre_statuses[pre[d].inhabitants@[k] as int] by {
                    if d < c {
                        assert forall|k: int|
                            0 <= k < pre[d].inhabitants@.len()
                                implies st_after[#[trigger] pre[d].inhabitants@[k] as int]
                                == pre_statuses[pre[d].inhabitants@[k] as int] by {
                            let j = pre[d].inhabitants@[k] as int;
                            assert(!pre[c as int].inhabitants@.contains(j as u32)) by {
                                if pre[c as int].inhabitants@.contains(j as u32) {
                                    let i2 = choose|i: int|
                                        0 <= i < pre[c as int].inhabitants@.len() && pre[c
                                            as int].inhabitants@[i] == j as u32;
                                    assert(pre[d].inhabitants@[k] == pre[c
                                        as int].inhabitants@[i2]);
                                    assert(false);
                                }
                            }
                            assert(st_after[j] == st_before[j]);
                        }
                    } else {
                        assert forall|k: int|
                            0 <= k < pre[d].inhabitants@.len()
                                implies st_after[#[trigger] pre[d].inhabitants@[k] as int]
                                == pre_statuses[pre[d].inhabitants@[k] as int] by {
                            let j = pre[d].inhabitants@[k] as int;
                            assert(pre[c as int].inhabitants@.contains(j as u32));
                            assert(!member_of_prefix(pre, c as int, j));
                        }
                    }
                }
                assert forall|d: int|
                    0 <= d < c + 1 && pre[d].last_update < time_step
                        && pre[d].mixing_strategy.infects_surely(
                        count_state(gather(pre_statuses, pre[d].inhabitants@), State::Infectious),
                        (time_step - pre[d].last_update) as u64,
                    ) implies forall|k: int|
                    0 <= k < pre[d].inhabitants@.len() ==> (pre_statuses[#[trigger] pre[d].inhabitants@[k] as int].state
                        == State::Susceptible ==> st_after[pre[d].inhabitants@[k] as int]
                        == DiseaseStatus::spec_infected()) by {
                    if d < c {
                        assert forall|k: int|
                            0 <= k < pre[d].inhabitants@.len() && pre_statuses[#[trigger] pre[d].inhabitants@[k] as int].state
                                == State::Susceptible implies st_after[pre[d].inhabitants@[k]
                                as int] == DiseaseStatus::spec_infected() by {
                            let j = pre[d].inhabitants@[k] as int;
                            assert(!pre[c as int].inhabitants@.contains(j as u32)) by {
                                if pre[c as int].inhabitants@.contains(j as u32) {
                                    let i2 = choose|i: int|
                                        0 <= i < pre[c as int].inhabitants@.len() && pre[c
                                            as int].inhabitants@[i] == j as u32;
                                    assert(pre[d].inhabitants@[k] == pre[c
                                        as int].inhabitants@[i2]);
                                    assert(false);
                                }
                            }
                            assert(st_after[j] == st_before[j]);
                        }
                    } else {
                        assert forall|k: int|
                            0 <= k < pre[d].inhabitants@.len() && pre_statuses[#[trigger] pre[d].inhabitants@[k] as int].state
                                == State::Susceptible implies st_after[pre[d].inhabitants@[k]
                                as int] == DiseaseStatus::spec_infected() by {
                            let j = pre[d].inhabitants@[k] as int;
                            assert(pre[c as int].inhabitants@.contains(j as u32));
                            assert(!member_of_prefix(pre, c as int, j));
                            assert(st_before[j] == pre_statuses[j]);
                        }
                    }
                }
                assert forall|d: int, k: int|
                    0 <= d < c + 1 && 0 <= k < pre[d].inhabitants@.len() implies mix_step(
                    pre_statuses[#[trigger] pre[d].inhabitants@[k] as int],
                    st_after[pre[d].inhabitants@[k] as int],
                    (time_step - pre[d].last_update) as u64,
                    *params,
                ) by {
                    let j = pre[d].inhabitants@[k] as int;
                    if d < c {
                        assert(!pre[c as int].inhabitants@.contains(j as u32)) by {
                            if pre[c as int].inhabitants@.contains(j as u32) {
                                let i2 = choose|i: int|
                                    0 <= i < pre[c as int].inhabitants@.len() && pre[c
                                        as int].inhabitants@[i] == j as u32;
                                assert(pre[d].inhabitants@[k] == pre[c as int].inhabitants@[i2]);
                                assert(false);
                            }
                        }
                        assert(st_after[j] == st_before[j]);
                    } else {
                        assert(st_before[j] == pre_statuses[j]) by {
                            assert(!member_of_prefix(pre, c as int, j)) by {
                                if member_of_prefix(pre, c as int, j) {
                                    let d2 = choose|d2: int|
                                        0 <= d2 < c && pre[d2].inhabitants@.contains(j as u32);
                                    let i1 = choose|i: int|
                                        0 <= i < pre[d2].inhabitants@.len()
                                            && pre[d2].inhabitants@[i] == j as u32;
                                    assert(pre[d2].inhabitants@[i1] == pre[d].inhabitants@[k]);
                                    assert(false);
                                }
                            }
                        }
                    }
                }
            }
            c = c + 1;
        }
        proof {
            assert forall|j: int|
                0 <= j < pre_statuses.len() && !old(self).in_some_container(j as u32)
                    implies agents.disease_statuses@[j] == pre_statuses[j] by {
                assert(!member_of_prefix(pre, n as int, j)) by {
                    if member_of_prefix(pre, n as int, j) {
                        let d = choose|d: int|
                            0 <= d < n && pre[d].inhabitants@.contains(j as u32);
                        assert(old(self).contains_agent(d, j as u32));
                    }
                }
            }
            assert forall|j: int|
                0 <= j < pre_statuses.len() implies crate::disease::mixing::mix_evolution(
                #[trigger] pre_statuses[j],
                agents.disease_statuses@[j],
                *params,
            ) by {
                if old(self).in_some_container(j as u32) {
                    let d = choose|d: int| #[trigger] old(self).contains_agent(d, j as u32);
                    let k = choose|i: int|
                        0 <= i < pre[d].inhabitants@.len() && pre[d].inhabitants@[i] == j as u32;
                    crate::disease::mixing::lemma_mix_step_evolution(
                        pre_statuses[j],
                        agents.disease_statuses@[j],
                        (time_step - pre[d].last_update) as u64,
                        *params,
                    );
                }
            }
        }
    }
}

impl Containers<Uniform> {
    /// Build the fixed container set from the household and workplace
    /// positions: one empty container per position, households first, each
    /// carrying a copy of the mixing strategy and a zero mixing timestamp.
    pub fn new(
        household_positions: &Vec<Pos>,
        workplace_positions: &Vec<Pos>,
        mixing_strategy: Uniform,
    ) -> (r: Self)
        requires
            household_positions@.len() + workplace_positions@.len() <= u32::MAX,
        ensures
            r@.len() == household_positions@.len() + workplace_positions@.len(),
            r.spec_num_households() == household_positions@.len(),
            forall|c: int|
                0 <= c < household_positions@.len() ==> (#[trigger] r@[c]).pos
                    == household_positions@[c],
            forall|c: int|
                household_positions@.len() <= c < r@.len() ==> (#[trigger] r@[c]).pos
                    == workplace_positions@[c - household_positions@.len()],
            forall|c: int|
                0 <= c < r@.len() ==> (#[trigger] r@[c]).inhabitants@.len() == 0 && r@[c].last_update
                    == 0 && r@[c].mixing_strategy == mixing_strategy,
            r.exclusive(),
    {
        let mut elements: Vec<Container<Uniform>> = Vec::new();
        let mut i: usize = 0;
        let nh = household_positions.len();
        let nw = workplace_positions.len();
        while i < nh
            invariant
                nh == household_positions@.len(),
                i <= nh,
                elements@.len() == i,
                forall|c: int|
                    0 <= c < i ==> (#[trigger] elements@[c]).pos == household_positions@[c],
                forall|c: int|
                    0 <= c < i ==> (#[trigger] elements@[c]).inhabitants@.len() == 0
                        && elements@[c].last_update == 0 && elements@[c].mixing_strategy
                        == mixing_strategy,
            decreases nh - i,
        {
            elements.push(
                Container {
                    pos: household_positions[i],
                    inhabitants: Vec::new(),
                    mixing_strategy,
                    last_update: 0,
                },
            );
            i = i + 1;
        }
        let mut w: usize = 0;
        while w < nw
            invariant
                nh == household_positions@.len(),
                nw == workplace_positions@.len(),
                w <= nw,
                elements@.len() == nh + w,
                forall|c: int|
                    0 <= c < nh ==> (#[trigger] elements@[c]).pos == household_positions@[c],
                forall|c: int|
                    nh <= c < nh + w ==> (#[trigger] elements@[c]).pos == workplace_positions@[c
                        - nh],
                forall|c: int|
                    0 <= c < nh + w ==> (#[trigger] elements@[c]).inhabitants@.len() == 0
                        && elements@[c].last_update == 0 && elements@[c].mixing_strategy
                        == mixing_strategy,
            decreases nw - w,
        {
            elements.push(
                Container {
                    pos: workplace_positions[w],
                    inhabitants: Vec::new(),
                    mixing_strategy,
                    last_update: 0,
                },
            );
            w = w + 1;
        }
        Containers { elements, num_households: nh as u32 }
    }
}

/// Whether any of the first `c` containers holds the agent with index `j`.
pub open spec fn member_of_prefix<M: MixingStrategy>(
    cs: Seq<Container<M>>,
    c: int,
    j: int,
) -> bool {
    exists|d: int| 0 <= d < c && cs[d].inhabitants@.contains(j as u32)
}

/// Membership facts after removing, by a swap with the last entry, the sole
/// occurrence of an agent from container `c` of an exclusive container list
/// whose other entries are unchanged.
proof fn lemma_membership_after_remove<M: MixingStrategy>(
    pre: Seq<Container<M>>,
    post: Seq<Container<M>>,
    c: int,
    p: int,
    agent: u32,
)
    requires
        0 <= c < pre.len(),
        post.len() == pre.len(),
        forall|d: int| 0 <= d < pre.len() && d != c ==> post[d] == pre[d],
        0 <= p < pre[c].inhabitants@.len(),
        pre[c].inhabitants@[p] == agent,
        post[c].inhabitants@ == pre[c].inhabitants@.update(p, pre[c].inhabitants@.last()).drop_last(),
        forall|c1: int, i1: int, c2: int, i2: int|
            #![trigger pre[c1].inhabitants@[i1], pre[c2].inhabitants@[i2]]
            (0 <= c1 < pre.len() && 0 <= i1 < pre[c1].inhabitants@.len() && 0 <= c2 < pre.len() && 0
                <= i2 < pre[c2].inhabitants@.len() && pre[c1].inhabitants@[i1]
                == pre[c2].inhabitants@[i2]) ==> (c1 == c2 && i1 == i2),
    ensures
        forall|c1: int, i1: int, c2: int, i2: int|
            #![trigger post[c1].inhabitants@[i1], post[c2].inhabitants@[i2]]
            (0 <= c1 < post.len() && 0 <= i1 < post[c1].inhabitants@.len() && 0 <= c2 < post.len()
                && 0 <= i2 < post[c2].inhabitants@.len() && post[c1].inhabitants@[i1]
                == post[c2].inhabitants@[i2]) ==> (c1 == c2 && i1 == i2),
        forall|d: int, a: u32|
            #![trigger post[d].inhabitants@.contains(a)]
            0 <= d < post.len() ==> (post[d].inhabitants@.contains(a) <==> (
            pre[d].inhabitants@.contains(a) && a != agent)),
{
    let len = pre[c].inhabitants@.len() as int;
    assert(post[c].inhabitants@.len() == len - 1);
    assert forall|i: int|
        0 <= i < len - 1 implies post[c].inhabitants@[i] == (if i == p {
        pre[c].inhabitants@[len - 1]
    } else {
        pre[c].inhabitants@[i]
    }) by {}
    assert forall|c1: int, i1: int, c2: int, i2: int|
        (0 <= c1 < post.len() && 0 <= i1 < post[c1].inhabitants@.len() && 0 <= c2 < post.len() && 0
            <= i2 < post[c2].inhabitants@.len() && post[c1].inhabitants@[i1]
            == post[c2].inhabitants@[i2]) implies (c1 == c2 && i1 == i2) by {
        let o1: int = if c1 == c && i1 == p {
            len - 1
        } else {
            i1
        };
        let o2: int = if c2 == c && i2 == p {
            len - 1
        } else {
            i2
        };
        assert(post[c1].inhabitants@[i1] == pre[c1].inhabitants@[o1]);
        assert(post[c2].inhabitants@[i2] == pre[c2].inhabitants@[o2]);
    }
    assert forall|d: int, a: u32| 0 <= d < post.len() implies (#[trigger] post[d].inhabitants@.contains(
        a,
    ) <==> (pre[d].inhabitants@.contains(a) && a != agent)) by {
        if d == c {
            if post[d].inhabitants@.contains(a) {
                let i = choose|i: int|
                    0 <= i < post[d].inhabitants@.len() && post[d].inhabitants@[i] == a;
                let o: int = if i == p {
                    len - 1
                } else {
                    i
                };
                assert(pre[d].inhabitants@[o] == a);
                assert(pre[d].inhabitants@.contains(a));
                if a == agent {
                    assert(pre[c].inhabitants@[o] == pre[c].inhabitants@[p]);
                    assert(false);
                }
            }
            if pre[d].inhabitants@.contains(a) && a != agent {
                let i = choose|i: int|
                    0 <= i < pre[d].inhabitants@.len() && pre[d].inhabitants@[i] == a;
                assert(i != p);
                if i == len - 1 {
                    assert(p < len - 1);
                    assert(post[d].inhabitants@[p] == a);
                } else {
                    assert(post[d].inhabitants@[i] == a);
                }
            }
        } else {
            assert(post[d] == pre[d]);
            if post[d].inhabitants@.contains(a) && a == agent {
                let i = choose|i: int|
                    0 <= i < pre[d].inhabitants@.len() && pre[d].inhabitants@[i] == a;
                assert(pre[d].inhabitants@[i] == pre[c].inhabitants@[p]);
                assert(false);
            }
        }
    }
}

} // verus!
