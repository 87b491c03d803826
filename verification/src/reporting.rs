//! The compute side of run reporting: per-state population counts.
//!
//! Writing the counts out (files, serialization) is the caller's business;
//! this module only derives the metric from the population.

use vstd::prelude::*;

use crate::disease::status::count_state;
use crate::disease::status::lemma_count_state_extend;
use crate::disease::status::DiseaseStatus;
use crate::disease::status::State;

verus! {

/// How many agents are in each disease state: an insight into a
/// simulation's state during simulation.
#[derive(PartialEq, Eq, Structural, Clone, Copy, Debug)]
pub struct StateCounts {
    pub num_susceptible: u64,
    pub num_exposed: u64,
    pub num_infectious: u64,
    pub num_recovered: u64,
}

/// Tally the population by disease state.  The four counts partition the
/// population: they sum to the number of agents.
pub fn count_states(statuses: &Vec<DiseaseStatus>) -> (r: StateCounts)
    ensures
        r.num_susceptible == count_state(statuses@, State::Susceptible),
        r.num_exposed == count_state(statuses@, State::Exposed),
        r.num_infectious == count_state(statuses@, State::Infectious),
        r.num_recovered == count_state(statuses@, State::Recovered),
        r.num_susceptible + r.num_exposed + r.num_infectious + r.num_recovered == statuses@.len(),
{
    let n = statuses.len();
    let mut num_susceptible: u64 = 0;
    let mut num_exposed: u64 = 0;
    let mut num_infectious: u64 = 0;
    let mut num_recovered: u64 = 0;
    let mut i: usize = 0;
    while i < n
        invariant
            n == statuses@.len(),
            i <= n,
            num_susceptible == count_state(statuses@.take(i as int), State::Susceptible),
            num_exposed == count_state(statuses@.take(i as int), State::Exposed),
            num_infectious == count_state(statuses@.take(i as int), State::Infectious),
            num_recovered == count_state(statuses@.take(i as int), State::Recovered),
            num_susceptible + num_exposed + num_infectious + num_recovered == i,
        decreases n - i,
    {
        proof {
            lemma_count_state_extend(statuses@, State::Susceptible, i as int);
            lemma_count_state_extend(statuses@, State::Exposed, i as int);
            lemma_count_state_extend(statuses@, State::Infectious, i as int);
            lemma_count_state_extend(statuses@, State::Recovered, i as int);
        }
        match statuses[i].state {
            State::Susceptible => {
                num_susceptible = num_susceptible + 1;
            },
            State::Exposed => {
                num_exposed = num_exposed + 1;
            },
            State::Infectious => {
                num_infectious = num_infectious + 1;
            },
            State::Recovered => {
                num_recovered = num_recovered + 1;
            },
        }
        i = i + 1;
    }
    proof {
        assert(statuses@.take(n as int) =~= statuses@);
    }
    StateCounts { num_susceptible, num_exposed, num_infectious, num_recovered }
}

} // verus!
