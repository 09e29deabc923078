use vstd::prelude::*;

use rand::Rng;
use rand_chacha::ChaCha8Rng;

verus! {

/// The seeded ChaCha8 generator of `rand_chacha`; opaque to verification.
#[verifier::external_type_specification]
#[verifier::external_body]
pub struct ExChaCha8Rng(ChaCha8Rng);

/// Draws an index from `0..len` with `rand::Rng::random_range` on the
/// generator, advancing its state. `random_range` panics on an empty range,
/// so `len` must be positive. Which index comes out depends on the
/// generator's state and is left unsaid: only that it lies in the range.
#[verifier::external_body]
pub(crate) fn random_index(rng: &mut ChaCha8Rng, len: usize) -> (i: usize)
    requires
        len > 0,
    ensures
        i < len,
{
    rng.random_range(0..len)
}

} // verus!
