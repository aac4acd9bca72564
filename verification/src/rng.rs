//! Randomness for region generation and spawning, drawn from `rand`'s
//! seeded standard generator owned by the caller.

use vstd::prelude::*;

verus! {

/// `rand`'s seedable standard generator, carried opaquely through the
/// simulation's spawn-time sampling.
#[verifier::external_type_specification]
#[verifier::external_body]
pub struct ExStdRng(rand::rngs::StdRng);

/// Relies on rand's `Rng::gen_range` over an inclusive integer range: the
/// sample lies between the bounds, and the call panics only on an empty
/// range, which the precondition rules out. Nothing more is promised of a
/// random draw.
#[verifier::external_body]
pub(crate) fn rng_range(rng: &mut rand::rngs::StdRng, lo: i64, hi: i64) -> (r: i64)
    requires
        lo <= hi,
    ensures
        lo <= r <= hi,
{
    rand::Rng::gen_range(rng, lo..=hi)
}

} // verus!
