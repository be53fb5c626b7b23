use vstd::prelude::*;
use rand::Rng;

verus! {

#[verifier::external_type_specification]
#[verifier::external_body]
pub struct ExStdRng(rand::rngs::StdRng);

/// Relies on rand's `Uniform::new(0, 6)`, sampled through `Rng::sample`: a
/// value of the half-open range `[0, 6)`.
#[verifier::external_body]
pub(crate) fn draw_direction(rng: &mut rand::rngs::StdRng) -> (r: u8)
    ensures
        r < 6,
{
    rng.sample(rand::distributions::Uniform::new(0u8, 6u8))
}

} // verus!
