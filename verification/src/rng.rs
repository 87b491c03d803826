//! Random draws, behind contracts that hold of every outcome.
//!
//! The simulation is deterministic per run given a seeded generator, so all
//! randomness flows through one `StdRng` owned by the caller.

use vstd::prelude::*;

verus! {

#[verifier::external_type_specification]
#[verifier::external_body]
pub struct ExStdRng(rand::rngs::StdRng);

/// Relies on rand's `StdRng::seed_from_u64`: a generator built
/// deterministically from the seed.  Nothing further is claimed of it.
#[verifier::external_body]
pub(crate) fn new_rng(seed: u64) -> rand::rngs::StdRng {
    <rand::rngs::StdRng as rand::SeedableRng>::seed_from_u64(seed)
}

/// Relies on rand's `RngExt::random_range` over `0..bound`, which returns a
/// value of the (non-empty) range.
#[verifier::external_body]
pub(crate) fn rng_below(rng: &mut rand::rngs::StdRng, bound: u64) -> (r: u64)
    requires
        bound >= 1,
    ensures
        r < bound,
{
    rand::RngExt::random_range::<u64, core::ops::Range<u64>>(rng, 0..bound)
}

/// Relies on rand's `IndexedRandom::choose`, which returns `None` exactly when
/// the slice is empty and otherwise one of its elements.
#[verifier::external_body]
pub(crate) fn choose_from(pool: &Vec<usize>, rng: &mut rand::rngs::StdRng) -> (r: Option<usize>)
    ensures
        match r {
            Some(v) => pool@.len() > 0 && pool@.contains(v),
            None => pool@.len() == 0,
        },
{
    rand::seq::IndexedRandom::choose(pool.as_slice(), rng).copied()
}

/// Relies on rand's `IteratorRandom::sample` (reservoir sampling), which
/// returns `min(amount, pool.len())` elements, each drawn from the pool.
#[verifier::external_body]
pub(crate) fn sample_from(pool: &Vec<usize>, amount: usize, rng: &mut rand::rngs::StdRng) -> (r: Vec<
    usize,
>)
    ensures
        r@.len() == if amount <= pool@.len() {
            amount as int
        } else {
            pool@.len() as int
        },
        forall|i: int| 0 <= i < r@.len() ==> pool@.contains(#[trigger] r@[i]),
{
    rand::seq::IteratorRandom::sample(pool.iter().cloned(), rng, amount)
}

} // verus!
