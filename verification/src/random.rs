//! The source of randomness.

use vstd::prelude::*;
use rand::rngs::StdRng;
use rand::Rng;

verus! {

/// The generator `rand::rngs::StdRng`. Nothing is known of its state.
#[verifier::external_type_specification]
#[verifier::external_body]
pub struct ExStdRng(rand::rngs::StdRng);

/// Draws an integer between `low` and `high`, both included.
///
/// This calls `rand::Rng::gen_range` on the inclusive range. It is taken on
/// trust that the call returns an integer of that range whenever the range
/// is not empty; which one is not stated.
#[verifier::external_body]
pub(crate) fn draw_between(rng: &mut StdRng, low: i64, high: i64) -> (r: i64)
    requires
        low <= high,
    ensures
        low <= r <= high,
{
    rng.gen_range(low..=high)
}

} // verus!
