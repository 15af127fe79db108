//! The randomness capability: a seedable generator passed explicitly to
//! every function that draws, so runs are reproducible from a seed.

use vstd::prelude::*;
use rand::Rng;
use rand_xoshiro::Xoshiro256PlusPlus;

verus! {

/// Relies on rand_xoshiro::Xoshiro256PlusPlus, the pseudo-random generator
/// that drives glyph choice and the wait-gate. Opaque here: nothing is
/// assumed of the values it yields beyond the range stated at each draw.
#[verifier::external_type_specification]
#[verifier::external_body]
pub struct ExXoshiro256PlusPlus(Xoshiro256PlusPlus);

/// Relies on rand::Rng::gen_range over `0..n`: it panics only on an empty
/// range and returns a value of that range, so the result is below `n`.
/// Which value comes back is left open.
#[verifier::external_body]
pub(crate) fn rand_below(rng: &mut Xoshiro256PlusPlus, n: usize) -> (r: usize)
    requires
        n >= 1,
    ensures
        r < n,
{
    rng.gen_range(0..n)
}

} // verus!
