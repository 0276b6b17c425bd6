use vstd::prelude::*;
use rand::Rng;

verus! {

/// Relies on rand::thread_rng and rand::Rng::gen_range (rand 0.7), which
/// draws from the half-open range `[low, high)`: here 0 or 1.
#[verifier::external_body]
pub(crate) fn draw_bit() -> (r: u32)
    ensures
        r < 2,
{
    rand::thread_rng().gen_range(0, 2)
}

} // verus!
