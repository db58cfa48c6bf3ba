use vstd::prelude::*;
use rand::rngs::StdRng;
use rand::{Rng, SeedableRng};

verus! {

/// rand's standard seedable generator, carried through the optimizer as an
/// explicit random source.
#[verifier::external_type_specification]
#[verifier::external_body]
pub struct ExStdRng(StdRng);

/// Relies on rand's `SeedableRng::seed_from_u64` for `StdRng`: builds the
/// generator whose stream is fixed by `seed`.
#[verifier::external_body]
pub(crate) fn seeded_source(seed: u64) -> (r: StdRng) {
    StdRng::seed_from_u64(seed)
}

/// Relies on rand's `Rng::gen_range` over `0..n`: a uniform draw below `n`.
/// It panics on an empty range, so `n` must be positive.
#[verifier::external_body]
pub(crate) fn draw_below(rng: &mut StdRng, n: u128) -> (r: u128)
    requires
        n > 0,
    ensures
        r < n,
{
    rng.gen_range(0..n)
}

} // verus!
