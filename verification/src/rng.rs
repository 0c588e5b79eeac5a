use vstd::prelude::*;

verus! {

/// The random source every stochastic routine of the library draws from.
/// The engine takes one explicitly instead of an implicitly shared,
/// process-wide generator, so runs are reproducible from a seed.
#[verifier::external_type_specification]
#[verifier::external_body]
pub struct ExStdRng(rand::rngs::StdRng);

/// Relies on rand's `SeedableRng::seed_from_u64`: builds a generator from a
/// seed. Nothing is claimed of the values it will produce.
#[verifier::external_body]
pub fn seeded_rng(seed: u64) -> rand::rngs::StdRng {
    <rand::rngs::StdRng as rand::SeedableRng>::seed_from_u64(seed)
}

/// Relies on rand's `Rng::gen_range` over `0..n`: the draw lies in the
/// half-open range. The call panics on an empty range, so `n == 0` is
/// excluded.
#[verifier::external_body]
pub fn gen_index(rng: &mut rand::rngs::StdRng, n: usize) -> (r: usize)
    requires
        n >= 1,
    ensures
        r < n,
{
    rand::Rng::gen_range(rng, 0..n)
}

/// Relies on rand's `Rng::gen_range` over `0..bound`: the draw lies in the
/// half-open range. The call panics on an empty range, so `bound == 0` is
/// excluded.
#[verifier::external_body]
pub fn gen_below_u128(rng: &mut rand::rngs::StdRng, bound: u128) -> (r: u128)
    requires
        bound >= 1,
    ensures
        r < bound,
{
    rand::Rng::gen_range(rng, 0..bound)
}

/// Relies on rand's `seq::index::sample`: exactly `amount` distinct indices
/// drawn from `0..length`, in unspecified order. The call panics when
/// `amount > length`, so that case is excluded.
#[verifier::external_body]
pub fn sample_distinct_indices(
    rng: &mut rand::rngs::StdRng,
    length: usize,
    amount: usize,
) -> (r: Vec<usize>)
    requires
        amount <= length,
    ensures
        r.len() == amount,
        forall|k: int| 0 <= k < r.len() ==> r[k] < length,
        forall|k1: int, k2: int|
            0 <= k1 < r.len() && 0 <= k2 < r.len() && k1 != k2 ==> r[k1] != r[k2],
{
    rand::seq::index::sample(rng, length, amount).into_vec()
}

} // verus!
