//! The seeded random source and the biased coin drawn from it, both from the
//! `rand` family of crates.
use rand::distr::{Bernoulli, BernoulliError, Distribution};
use rand::SeedableRng;
use rand_chacha::ChaCha8Rng;
use vstd::prelude::*;

verus! {

#[verifier::external_type_specification]
#[verifier::external_body]
pub struct ExChaCha8Rng(ChaCha8Rng);

#[verifier::external_type_specification]
#[verifier::external_body]
pub struct ExBernoulli(Bernoulli);

#[verifier::external_type_specification]
#[verifier::external_body]
pub struct ExBernoulliError(BernoulliError);

/// The coin that `Bernoulli::from_ratio` builds from a ratio; it depends on
/// the two numbers alone.
pub uninterp spec fn coin_of(numerator: u32, denominator: u32) -> Bernoulli;

/// The generator that `ChaCha8Rng::seed_from_u64` builds; it depends on the
/// seed alone.
pub uninterp spec fn rng_of_seed(seed: u64) -> ChaCha8Rng;

/// One toss of `coin` with `rng`: its outcome and the generator afterwards.
/// Both depend on the coin and the generator's state alone.
pub uninterp spec fn toss(rng: ChaCha8Rng, coin: Bernoulli) -> (bool, ChaCha8Rng);

/// `Bernoulli::from_ratio` fails exactly when the denominator is 0 or the
/// numerator exceeds it; otherwise it returns the coin of that ratio.
pub assume_specification[ Bernoulli::from_ratio ](numerator: u32, denominator: u32) -> (r: Result<
    Bernoulli,
    BernoulliError,
>)
    ensures
        r is Ok <==> (denominator != 0 && numerator <= denominator),
        r is Ok ==> r->Ok_0 == coin_of(numerator, denominator),
;

/// Relies on `SeedableRng::seed_from_u64` for ChaCha8: a generator whose
/// state is fixed by the seed.
#[verifier::external_body]
pub(crate) fn seeded_rng(seed: u64) -> (r: ChaCha8Rng)
    ensures
        r == rng_of_seed(seed),
{
    ChaCha8Rng::seed_from_u64(seed)
}

/// Relies on `Distribution::sample` for `Bernoulli`: one toss that advances
/// the generator. A coin of ratio 1 always comes up true without drawing;
/// a coin of ratio 0 compares a drawn `u64` against 0 and so never does.
#[verifier::external_body]
pub(crate) fn sample_coin(coin: &Bernoulli, rng: &mut ChaCha8Rng) -> (r: bool)
    ensures
        (r, *final(rng)) == toss(*old(rng), *coin),
        *coin == coin_of(100, 100) ==> r,
        *coin == coin_of(0, 100) ==> !r,
{
    coin.sample(rng)
}

} // verus!
