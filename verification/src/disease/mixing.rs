//! Transmission between the agents sharing a container.
//!
//! A mixing strategy is handed the statuses of one container's occupants and
//! the time that elapsed since that container last mixed; it progresses the
//! infectious occupants and exposes susceptible ones probabilistically.

use vstd::prelude::*;

use crate::disease::status::count_state;
use crate::disease::status::DiseaseStatus;
use crate::disease::status::State;
use crate::rng::rng_below;
use crate::shared::SimParams;
use crate::shared::TimeStep;
use crate::shared::CHANCE_SCALE;

verus! {

/// What one mixing pass may do to one occupant: leave it alone, expose a
/// susceptible one, or progress an infectious one by the elapsed time.
pub open spec fn mix_step(
    a: DiseaseStatus,
    b: DiseaseStatus,
    for_time_steps: TimeStep,
    params: SimParams,
) -> bool {
    match a.state {
        State::Susceptible => b == a || b == DiseaseStatus::spec_infected(),
        State::Infectious => b == a.spec_progress(for_time_steps, params),
        _ => b == a,
    }
}

/// What any number of mixing passes, over any containers, may do to one
/// agent's status: leave it alone, expose it if it was susceptible, or (if
/// it was infectious) advance its infection until it possibly recovers.
pub open spec fn mix_evolution(a: DiseaseStatus, b: DiseaseStatus, params: SimParams) -> bool {
    match a.state {
        State::Susceptible => b == a || b == DiseaseStatus::spec_infected(),
        State::Infectious => (b.state == State::Infectious && a.infected_for <= b.infected_for) || b.state
            == State::Recovered,
        _ => b == a,
    }
}

/// A pointwise `mix_step` is a pointwise `mix_evolution`, as long as the
/// progressed counter does not wrap.
pub proof fn lemma_mix_step_evolution(
    a: DiseaseStatus,
    b: DiseaseStatus,
    for_time_steps: TimeStep,
    params: SimParams,
)
    requires
        mix_step(a, b, for_time_steps, params),
        a.infected_for + for_time_steps <= u64::MAX,
    ensures
        mix_evolution(a, b, params),
{
}

/// `mix_evolution` composes: two evolutions in a row are one evolution.
pub proof fn lemma_mix_evolution_trans(
    a: DiseaseStatus,
    b: DiseaseStatus,
    c: DiseaseStatus,
    params: SimParams,
)
    requires
        mix_evolution(a, b, params),
        mix_evolution(b, c, params),
    ensures
        mix_evolution(a, c, params),
{
}

/// `mix_evolution` is reflexive.
pub proof fn lemma_mix_evolution_refl(a: DiseaseStatus, params: SimParams)
    ensures
        mix_evolution(a, a, params),
{
}

/// One mixing step keeps a status within the reachable bounds, as long as
/// the elapsed time stays within the run's horizon.
pub proof fn lemma_mix_step_preserves_wf(
    a: DiseaseStatus,
    b: DiseaseStatus,
    for_time_steps: TimeStep,
    params: SimParams,
)
    requires
        params.wf(),
        crate::disease::status::status_wf(a, params),
        mix_step(a, b, for_time_steps, params),
        for_time_steps <= crate::shared::MAX_TIME_STEP + crate::shared::MAX_EVENT_OFFSET,
    ensures
        crate::disease::status::status_wf(b, params),
{
}

/// Mixing never makes an agent susceptible again: across any pointwise
/// `mix_evolution`, the number of susceptible agents only falls.
pub proof fn lemma_susceptible_monotone(
    pre: Seq<DiseaseStatus>,
    post: Seq<DiseaseStatus>,
    params: SimParams,
)
    requires
        pre.len() == post.len(),
        forall|i: int| 0 <= i < pre.len() ==> mix_evolution(#[trigger] pre[i], post[i], params),
    ensures
        count_state(post, State::Susceptible) <= count_state(pre, State::Susceptible),
    decreases pre.len(),
{
    if pre.len() > 0 {
        lemma_susceptible_monotone(pre.drop_last(), post.drop_last(), params);
    }
}

/// Within one pass, infections only add: as long as no infectious agent
/// crosses the recovery threshold, a pointwise `mix_evolution` preserves the
/// number of infectious agents exactly (new infections enter as `Exposed`,
/// not `Infectious`), so the total infectious count never falls.
pub proof fn lemma_infectious_monotone(
    pre: Seq<DiseaseStatus>,
    post: Seq<DiseaseStatus>,
    params: SimParams,
)
    requires
        pre.len() == post.len(),
        forall|i: int| 0 <= i < pre.len() ==> mix_evolution(#[trigger] pre[i], post[i], params),
        forall|i: int|
            0 <= i < pre.len() ==> !((#[trigger] pre[i]).state == State::Infectious
                && post[i].state == State::Recovered),
    ensures
        count_state(post, State::Infectious) == count_state(pre, State::Infectious),
    decreases pre.len(),
{
    if pre.len() > 0 {
        lemma_infectious_monotone(pre.drop_last(), post.drop_last(), params);
    }
}

/// The pluggable transmission model applied per container per pass.
///
/// The contract of `handle_transmission` is what the container engine's
/// proofs rest on: the pass touches only the statuses it is given, each in a
/// way `mix_step` allows, it changes nothing when no occupant is infectious,
/// and it is certain to expose every susceptible occupant whenever
/// `infects_surely` holds of the infectious head-count and the elapsed time.
pub trait MixingStrategy: Sized {
    /// Whether this strategy is certain to infect every susceptible occupant,
    /// given how many occupants are infectious and how long they mixed.
    spec fn infects_surely(&self, num_infectious: nat, for_time_steps: TimeStep) -> bool;

    /// Apply one mixing pass to the statuses of one container's occupants.
    fn handle_transmission(
        &self,
        statuses: &mut Vec<DiseaseStatus>,
        rng: &mut rand::rngs::StdRng,
        for_time_steps: TimeStep,
        params: &SimParams,
    )
        requires
            params.wf(),
            forall|i: int|
                0 <= i < old(statuses)@.len() ==> (#[trigger] old(
                    statuses,
                )@[i]).infected_for + for_time_steps <= u64::MAX,
        ensures
            final(statuses)@.len() == old(statuses)@.len(),
            forall|i: int|
                0 <= i < old(statuses)@.len() ==> mix_step(
                    #[trigger] old(statuses)@[i],
                    final(statuses)@[i],
                    for_time_steps,
                    *params,
                ),
            count_state(old(statuses)@, State::Infectious) == 0 ==> final(statuses)@ == old(
                statuses,
            )@,
            self.infects_surely(count_state(old(statuses)@, State::Infectious), for_time_steps)
                ==> forall|i: int|
                0 <= i < old(statuses)@.len() ==> (#[trigger] old(statuses)@[i]).state
                    == State::Susceptible ==> final(statuses)@[i]
                    == DiseaseStatus::spec_infected(),
    ;
}

/// A flat exposure model: every susceptible occupant is exposed with a chance
/// proportional to the infectious head-count, the per-contact transmission
/// chance and the elapsed time.  It does not weigh individual susceptibility,
/// infection age or distance.
#[derive(Clone, Copy, Debug)]
pub struct Uniform {
    /// Chance, in parts per `CHANCE_SCALE`, that one infectious occupant
    /// infects one susceptible occupant over one time step.
    pub transmission_chance: u64,
}

impl MixingStrategy for Uniform {
    /// The accumulated chance reaches or passes certainty.
    open spec fn infects_surely(&self, num_infectious: nat, for_time_steps: TimeStep) -> bool {
        self.transmission_chance * num_infectious * for_time_steps >= CHANCE_SCALE
    }

    fn handle_transmission(
        &self,
        statuses: &mut Vec<DiseaseStatus>,
        rng: &mut rand::rngs::StdRng,
        for_time_steps: TimeStep,
        params: &SimParams,
    ) {
        let ghost pre = statuses@;
        let n = statuses.len();
        let mut num_infected: u64 = 0;
        let mut i: usize = 0;
        while i < n
            invariant
                params.wf(),
                n == pre.len(),
                statuses@.len() == n,
                i <= n,
                forall|j: int| 0 <= j < pre.len() ==> pre[j].infected_for + for_time_steps
                    <= u64::MAX,
                num_infected <= i,
                num_infected == count_state(pre.take(i as int), State::Infectious),
                forall|j: int|
                    0 <= j < i ==> (if (#[trigger] pre[j]).state == State::Infectious {
                        statuses@[j] == pre[j].spec_progress(for_time_steps, *params)
                    } else {
                        statuses@[j] == pre[j]
                    }),
                forall|j: int| i <= j < n ==> #[trigger] statuses@[j] == pre[j],
            decreases n - i,
        {
            proof {
                crate::disease::status::lemma_count_state_extend(
                    pre,
                    State::Infectious,
                    i as int,
                );
            }
            if statuses[i].state == State::Infectious {
                let mut progressed = statuses[i];
                progressed.progress_infection(for_time_steps, params);
                statuses[i] = progressed;
                num_infected = num_infected + 1;
            }
            i = i + 1;
        }
        proof {
            assert(pre.take(n as int) =~= pre);
        }
        let ghost mid = statuses@;
        let ghost tc = self.transmission_chance as int;
        let ghost ni = num_infected as int;
        let ghost ts = for_time_steps as int;
        let ghost accumulated = tc * ni * ts;
        // The accumulated chance, capped at certainty so the product stays in
        // range; a draw below `CHANCE_SCALE` compares identically against either.
        let chance: u128;
        if for_time_steps == 0 {
            chance = 0;
            proof {
                assert(accumulated == 0) by (nonlinear_arith)
                    requires
                        accumulated == tc * ni * ts,
                        ts == 0,
                ;
            }
        } else {
            proof {
                assert((self.transmission_chance as u128) * (num_infected as u128) < u128::MAX)
                    by (nonlinear_arith)
                    requires
                        self.transmission_chance <= u64::MAX,
                        num_infected <= u64::MAX,
                ;
            }
            let per_step: u128 = (self.transmission_chance as u128) * (num_infected as u128);
            if per_step >= CHANCE_SCALE as u128 {
                chance = CHANCE_SCALE as u128;
                proof {
                    assert(accumulated >= CHANCE_SCALE) by (nonlinear_arith)
                        requires
                            accumulated == tc * ni * ts,
                            tc * ni >= CHANCE_SCALE,
                            ts >= 1,
                    ;
                }
            } else {
                proof {
                    assert(per_step * (for_time_steps as u128) < u128::MAX) by (nonlinear_arith)
                        requires
                            per_step < CHANCE_SCALE,
                            CHANCE_SCALE == 1_000_000,
                            for_time_steps <= u64::MAX,
                    ;
                }
                let total: u128 = per_step * (for_time_steps as u128);
                proof {
                    assert(total == accumulated) by (nonlinear_arith)
                        requires
                            accumulated == tc * ni * ts,
                            total == tc * ni * ts,
                    ;
                }
                if total >= CHANCE_SCALE as u128 {
                    chance = CHANCE_SCALE as u128;
                } else {
                    chance = total;
                }
            }
        }
        let mut k: usize = 0;
        while k < n
            invariant
                params.wf(),
                n == pre.len(),
                statuses@.len() == n,
                mid.len() == n,
                k <= n,
                tc == self.transmission_chance as int,
                ni == num_infected as int,
                ts == for_time_steps as int,
                accumulated == tc * ni * ts,
                chance == if accumulated >= CHANCE_SCALE {
                    CHANCE_SCALE as int
                } else {
                    accumulated
                },
                num_infected == count_state(pre, State::Infectious),
                forall|j: int|
                    0 <= j < n ==> (if (#[trigger] pre[j]).state == State::Infectious {
                        mid[j] == pre[j].spec_progress(for_time_steps, *params)
                    } else {
                        mid[j] == pre[j]
                    }),
                forall|j: int|
                    0 <= j < k ==> (if (#[trigger] pre[j]).state == State::Susceptible {
                        statuses@[j] == pre[j] || statuses@[j] == DiseaseStatus::spec_infected()
                    } else {
                        statuses@[j] == mid[j]
                    }),
                accumulated >= CHANCE_SCALE ==> forall|j: int|
                    0 <= j < k ==> ((#[trigger] pre[j]).state == State::Susceptible
                        ==> statuses@[j] == DiseaseStatus::spec_infected()),
                accumulated == 0 ==> forall|j: int| 0 <= j < k ==> #[trigger] statuses@[j]
                    == mid[j],
                forall|j: int| k <= j < n ==> #[trigger] statuses@[j] == mid[j],
            decreases n - k,
        {
            if statuses[k].state == State::Susceptible {
                let draw = rng_below(rng, CHANCE_SCALE);
                if (draw as u128) < chance {
                    let mut exposed = statuses[k];
                    exposed.infect();
                    statuses[k] = exposed;
                }
            }
            k = k + 1;
        }
        proof {
            if count_state(pre, State::Infectious) == 0 {
                crate::disease::status::lemma_count_state_zero(pre, State::Infectious);
                assert(accumulated == 0) by (nonlinear_arith)
                    requires
                        accumulated == tc * ni * ts,
                        ni == 0,
                ;
                assert(statuses@ =~= pre);
            }
            if self.infects_surely(count_state(pre, State::Infectious), for_time_steps) {
                assert(accumulated >= CHANCE_SCALE);
            }
        }
    }
}

} // verus!
