//! Random sampling, through the `rand` crate. Every draw is opaque to
//! the verifier: the contracts state only what holds of every possible
//! outcome (a range bound, or preservation of the entries of a
//! shuffled vector).

use vstd::prelude::*;
use rand::Rng;
use rand::SeedableRng;
use rand::seq::SliceRandom;

verus! {

#[verifier::external_type_specification]
#[verifier::external_body]
pub struct ExStdRng(rand::rngs::StdRng);

/// Relies on rand::SeedableRng::seed_from_u64 to build a generator
/// from a word-sized seed; nothing is assumed about the stream it
/// produces.
#[verifier::external_body]
pub(crate) fn rng_from_seed(seed: u64) -> rand::rngs::StdRng {
    rand::rngs::StdRng::seed_from_u64(seed)
}

/// Relies on rand::Rng::gen_range over `0..bound`: the sample lies in
/// that half-open range, and the range is non-empty, so the call
/// cannot panic.
#[verifier::external_body]
pub(crate) fn random_index(rng: &mut rand::rngs::StdRng, bound: usize) -> (r: usize)
    requires
        1 <= bound,
    ensures
        r < bound,
{
    rng.gen_range(0..bound)
}

/// Relies on rand::Rng::gen_range over `0..bound` for wide draws: the
/// sample lies in that half-open range, and the range is non-empty, so
/// the call cannot panic.
#[verifier::external_body]
pub(crate) fn random_below(rng: &mut rand::rngs::StdRng, bound: u128) -> (r: u128)
    requires
        1 <= bound,
    ensures
        r < bound,
{
    rng.gen_range(0..bound)
}

/// Relies on rand::seq::SliceRandom::shuffle: a Fisher-Yates pass
/// permutes the slice in place by swaps, so the multiset of entries is
/// unchanged.
#[verifier::external_body]
pub(crate) fn shuffle(rng: &mut rand::rngs::StdRng, items: &mut Vec<usize>)
    ensures
        final(items)@.len() == old(items)@.len(),
        final(items)@.to_multiset() == old(items)@.to_multiset(),
{
    items.shuffle(rng)
}

} // verus!
