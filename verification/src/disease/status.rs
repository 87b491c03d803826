//! The per-agent disease state machine.
//!
//! A status moves through `Susceptible -> Exposed -> Infectious -> Recovered`.
//! `infect` is the only entry into `Exposed`, `progress_infection` the only
//! mutator of the duration counter and the only trigger of the two later
//! transitions; `Recovered` has no outgoing transition.

use vstd::prelude::*;

use crate::rng::rng_below;
use crate::shared::SimParams;
use crate::shared::TimeStep;
use crate::shared::CHANCE_SCALE;

verus! {

/// The four disease states.
#[derive(PartialEq, Eq, Structural, Clone, Copy, Debug)]
pub enum State {
    Susceptible,
    Exposed,
    Infectious,
    Recovered,
}

/// Order of the states along the state machine; transitions never decrease it.
pub open spec fn state_rank(s: State) -> int {
    match s {
        State::Susceptible => 0,
        State::Exposed => 1,
        State::Infectious => 2,
        State::Recovered => 3,
    }
}

/// One agent's disease state together with how long the infection has lasted.
#[derive(PartialEq, Eq, Structural, Clone, Copy, Debug)]
pub struct DiseaseStatus {
    pub state: State,
    /// Time steps since the infection began; meaningful only outside `Susceptible`.
    pub infected_for: TimeStep,
}

/// How many of the statuses are in the given state.
pub open spec fn count_state(s: Seq<DiseaseStatus>, st: State) -> nat
    decreases s.len(),
{
    if s.len() == 0 {
        0
    } else {
        count_state(s.drop_last(), st) + if s.last().state == st {
            1nat
        } else {
            0nat
        }
    }
}

/// The counter bounds every reachable status obeys: a susceptible agent has
/// no infection age, an exposed one is within the incubation window, an
/// infectious one within the recovery window, and a recovered one crossed
/// the recovery threshold no later than `MAX_TIME_STEP`.  These bounds are
/// what keeps all counter arithmetic in `u64`.
pub open spec fn status_wf(s: DiseaseStatus, params: SimParams) -> bool {
    &&& (s.state == State::Susceptible ==> s.infected_for == 0)
    &&& (s.state == State::Exposed ==> s.infected_for <= params.spec_incubation_threshold())
    &&& (s.state == State::Infectious ==> s.infected_for <= params.spec_recovery_threshold())
    &&& (s.state == State::Recovered ==> s.infected_for <= params.spec_recovery_threshold()
        + crate::shared::MAX_TIME_STEP + crate::shared::MAX_EVENT_OFFSET)
}

/// Counting one more element extends the count by whether it matches.
pub proof fn lemma_count_state_extend(s: Seq<DiseaseStatus>, st: State, i: int)
    requires
        0 <= i < s.len(),
    ensures
        count_state(s.take(i + 1), st) == count_state(s.take(i), st) + if s[i].state == st {
            1int
        } else {
            0int
        },
{
    assert(s.take(i + 1).drop_last() =~= s.take(i));
    assert(s.take(i + 1).last() == s[i]);
}

/// A zero count means no element matches, and conversely.
pub proof fn lemma_count_state_zero(s: Seq<DiseaseStatus>, st: State)
    ensures
        (count_state(s, st) == 0) <==> (forall|i: int| 0 <= i < s.len() ==> s[i].state != st),
    decreases s.len(),
{
    if s.len() > 0 {
        lemma_count_state_zero(s.drop_last(), st);
        assert(forall|i: int| 0 <= i < s.len() - 1 ==> s.drop_last()[i] == s[i]);
        assert(s.last() == s[s.len() - 1]);
    }
}

impl DiseaseStatus {
    /// The status after `progress_infection(time_steps)`: the counter grows,
    /// and crossing the recovery threshold wins over crossing the incubation
    /// threshold, so an update spanning both lands in the terminal state.
    pub open spec fn spec_progress(self, time_steps: TimeStep, params: SimParams) -> DiseaseStatus {
        let lasted = (self.infected_for + time_steps) as u64;
        DiseaseStatus {
            state: if lasted > params.spec_recovery_threshold() {
                State::Recovered
            } else if lasted > params.spec_incubation_threshold() {
                State::Infectious
            } else {
                self.state
            },
            infected_for: lasted,
        }
    }

    /// The status `infect` produces: freshly exposed.
    pub open spec fn spec_infected() -> DiseaseStatus {
        DiseaseStatus { state: State::Exposed, infected_for: 0 }
    }

    /// Seed a status: with `params.seed_infection_chance` the agent starts
    /// already exposed or infectious, with an infection age drawn from the
    /// corresponding window; otherwise it is susceptible.
    pub fn new(rng: &mut rand::rngs::StdRng, params: &SimParams) -> (r: DiseaseStatus)
        requires
            params.wf(),
        ensures
            r.state != State::Recovered,
            r.state == State::Susceptible ==> r.infected_for == 0,
            r.state == State::Exposed ==> r.infected_for < 2 * params.time_steps_per_day,
            r.state == State::Infectious ==> 2 * params.time_steps_per_day <= r.infected_for < 12
                * params.time_steps_per_day,
            params.seed_infection_chance == 0 ==> r.state == State::Susceptible,
            params.seed_infection_chance == CHANCE_SCALE ==> r.state != State::Susceptible,
    {
        let seeded = rng_below(rng, CHANCE_SCALE) < params.seed_infection_chance;
        if !seeded {
            DiseaseStatus { state: State::Susceptible, infected_for: 0 }
        } else if rng_below(rng, CHANCE_SCALE) < 400_000 {
            DiseaseStatus {
                state: State::Exposed,
                infected_for: rng_below(rng, 2 * params.time_steps_per_day),
            }
        } else {
            DiseaseStatus {
                state: State::Infectious,
                infected_for: 2 * params.time_steps_per_day + rng_below(
                    rng,
                    10 * params.time_steps_per_day,
                ),
            }
        }
    }

    /// Expose a susceptible agent.  This is the only transition out of
    /// `Susceptible`, and it is valid on no other state.
    #[inline]
    pub fn infect(&mut self)
        requires
            old(self).state == State::Susceptible,
        ensures
            *final(self) == DiseaseStatus::spec_infected(),
    {
        self.state = State::Exposed;
        self.infected_for = 0;
    }

    /// Advance an exposed or infectious agent by `time_steps`.  The recovery
    /// threshold is checked before the incubation threshold, so a coarse
    /// update that crosses both lands in `Recovered`.  `Recovered` and
    /// `Susceptible` statuses may not be progressed, which is what makes
    /// `Recovered` terminal.
    #[inline]
    pub fn progress_infection(&mut self, time_steps: TimeStep, params: &SimParams)
        requires
            old(self).state == State::Exposed || old(self).state == State::Infectious,
            params.wf(),
            old(self).infected_for + time_steps <= u64::MAX,
        ensures
            *final(self) == old(self).spec_progress(time_steps, *params),
    {
        self.infected_for = self.infected_for + time_steps;
        if self.infected_for > params.recovery_threshold() {
            self.state = State::Recovered;
        } else if self.infected_for > params.incubation_threshold() {
            self.state = State::Infectious;
        }
    }
}

/// Seed one status per agent.
pub fn construct_disease_status_array(
    num_agents: u32,
    rng: &mut rand::rngs::StdRng,
    params: &SimParams,
) -> (r: Vec<DiseaseStatus>)
    requires
        params.wf(),
    ensures
        r@.len() == num_agents,
        forall|i: int|
            0 <= i < r@.len() ==> (#[trigger] r@[i]).state != State::Recovered && r@[i].infected_for
                < 12 * params.time_steps_per_day,
        forall|i: int| 0 <= i < r@.len() ==> status_wf(#[trigger] r@[i], *params),
        params.seed_infection_chance == 0 ==> forall|i: int|
            0 <= i < r@.len() ==> (#[trigger] r@[i]).state == State::Susceptible
                && r@[i].infected_for == 0,
{
    let mut statuses: Vec<DiseaseStatus> = Vec::new();
    let mut i: u32 = 0;
    while i < num_agents
        invariant
            params.wf(),
            i <= num_agents,
            statuses@.len() == i,
            forall|j: int|
                0 <= j < statuses@.len() ==> (#[trigger] statuses@[j]).state != State::Recovered
                    && statuses@[j].infected_for < 12 * params.time_steps_per_day,
            forall|j: int| 0 <= j < statuses@.len() ==> status_wf(#[trigger] statuses@[j], *params),
            params.seed_infection_chance == 0 ==> forall|j: int|
                0 <= j < statuses@.len() ==> (#[trigger] statuses@[j]).state == State::Susceptible
                    && statuses@[j].infected_for == 0,
        decreases num_agents - i,
    {
        statuses.push(DiseaseStatus::new(rng, params));
        i = i + 1;
    }
    statuses
}

/// The progression never moves a status backwards: one step of
/// `progress_infection` keeps the state's rank non-decreasing, and the two
/// transitions fire exactly at their threshold crossings.
pub proof fn lemma_progression_step(s: DiseaseStatus, t: TimeStep, params: SimParams)
    requires
        params.wf(),
        s.state == State::Exposed || s.state == State::Infectious,
        s.infected_for + t <= u64::MAX,
    ensures
        state_rank(s.spec_progress(t, params).state) >= state_rank(s.state),
        s.state == State::Exposed ==> {
            let lasted = s.infected_for + t;
            &&& (s.spec_progress(t, params).state == State::Exposed <==> lasted
                <= params.spec_incubation_threshold())
            &&& (s.spec_progress(t, params).state == State::Infectious <==> (
            params.spec_incubation_threshold() < lasted <= params.spec_recovery_threshold()))
            &&& (s.spec_progress(t, params).state == State::Recovered <==> lasted
                > params.spec_recovery_threshold())
        },
        s.state == State::Infectious ==> {
            let lasted = s.infected_for + t;
            &&& (s.spec_progress(t, params).state == State::Infectious <==> lasted
                <= params.spec_recovery_threshold())
            &&& (s.spec_progress(t, params).state == State::Recovered <==> lasted
                > params.spec_recovery_threshold())
        },
{
}

/// The status after a whole run of progression steps.
pub open spec fn progress_many(
    s: DiseaseStatus,
    steps: Seq<TimeStep>,
    params: SimParams,
) -> DiseaseStatus
    decreases steps.len(),
{
    if steps.len() == 0 {
        s
    } else {
        progress_many(s, steps.drop_last(), params).spec_progress(steps.last(), params)
    }
}

/// The total duration of a run of progression steps.
pub open spec fn sum_steps(steps: Seq<TimeStep>) -> int
    decreases steps.len(),
{
    if steps.len() == 0 {
        0
    } else {
        sum_steps(steps.drop_last()) + steps.last()
    }
}

proof fn lemma_sum_steps_nonneg(steps: Seq<TimeStep>)
    ensures
        sum_steps(steps) >= 0,
    decreases steps.len(),
{
    if steps.len() > 0 {
        lemma_sum_steps_nonneg(steps.drop_last());
    }
}

proof fn lemma_sum_steps_append(a: Seq<TimeStep>, b: Seq<TimeStep>)
    ensures
        sum_steps(a + b) == sum_steps(a) + sum_steps(b),
    decreases b.len(),
{
    if b.len() == 0 {
        assert(a + b =~= a);
    } else {
        lemma_sum_steps_append(a, b.drop_last());
        assert((a + b).drop_last() =~= a + b.drop_last());
        assert((a + b).last() == b.last());
    }
}

proof fn lemma_progress_many_append(
    s: DiseaseStatus,
    a: Seq<TimeStep>,
    b: Seq<TimeStep>,
    params: SimParams,
)
    ensures
        progress_many(s, a + b, params) == progress_many(progress_many(s, a, params), b, params),
    decreases b.len(),
{
    if b.len() == 0 {
        assert(a + b =~= a);
    } else {
        lemma_progress_many_append(s, a, b.drop_last(), params);
        assert((a + b).drop_last() =~= a + b.drop_last());
        assert((a + b).last() == b.last());
    }
}

/// Invariants carried along a whole run of progression steps: the counter
/// accumulates the step durations, the rank never decreases, `Recovered` is
/// only reached past the recovery threshold, and `Susceptible` is never
/// re-entered.
proof fn lemma_progression_invariant(s: DiseaseStatus, steps: Seq<TimeStep>, params: SimParams)
    requires
        params.wf(),
        s.state != State::Susceptible,
        s.state == State::Recovered ==> s.infected_for > params.spec_recovery_threshold(),
        s.infected_for + sum_steps(steps) <= u64::MAX,
    ensures
        progress_many(s, steps, params).infected_for == s.infected_for + sum_steps(steps),
        state_rank(progress_many(s, steps, params).state) >= state_rank(s.state),
        progress_many(s, steps, params).state != State::Susceptible,
        progress_many(s, steps, params).state == State::Recovered ==> progress_many(
            s,
            steps,
            params,
        ).infected_for > params.spec_recovery_threshold(),
    decreases steps.len(),
{
    lemma_sum_steps_nonneg(steps);
    if steps.len() > 0 {
        lemma_sum_steps_nonneg(steps.drop_last());
        lemma_progression_invariant(s, steps.drop_last(), params);
    }
}

/// Along any run of progression steps started from an exposed or infectious
/// status, the state's rank never decreases.  Together with
/// `lemma_progression_step` this pins the state machine's shape: a status
/// seeded `Exposed` turns `Infectious` exactly once (at the incubation
/// crossing), later `Recovered` exactly once (at the recovery crossing), and
/// never transitions further or backwards.
pub proof fn lemma_progression_monotone(s: DiseaseStatus, steps: Seq<TimeStep>, params: SimParams)
    requires
        params.wf(),
        s.state == State::Exposed || s.state == State::Infectious,
        s.infected_for + sum_steps(steps) <= u64::MAX,
    ensures
        forall|i: int, j: int|
            0 <= i <= j <= steps.len() ==> state_rank(
                progress_many(s, steps.take(i), params).state,
            ) <= state_rank(progress_many(s, steps.take(j), params).state),
{
    assert forall|i: int, j: int| 0 <= i <= j <= steps.len() implies state_rank(
        progress_many(s, steps.take(i), params).state,
    ) <= state_rank(progress_many(s, steps.take(j), params).state) by {
        let a = steps.take(i);
        let mid = steps.subrange(i, j);
        let rest = steps.subrange(j, steps.len() as int);
        assert(steps =~= a + mid + rest);
        lemma_sum_steps_append(a + mid, rest);
        lemma_sum_steps_append(a, mid);
        lemma_sum_steps_nonneg(a);
        lemma_sum_steps_nonneg(mid);
        lemma_sum_steps_nonneg(rest);
        lemma_progression_invariant(s, a, params);
        assert(steps.take(j) =~= a + mid);
        lemma_progress_many_append(s, a, mid, params);
        lemma_progression_invariant(progress_many(s, a, params), mid, params);
    }
}

} // verus!
