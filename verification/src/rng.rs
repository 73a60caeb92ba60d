//! The game's source of randomness.
use vstd::prelude::*;

verus! {

/// Draws a number from macroquad's global generator with
/// `macroquad::rand::gen_range::<usize>(low, high)`, which computes
/// `low + (high - low) * u` in `f64` for a `u` in [0, 1) and truncates it.
/// Claimed: the result lies in [low, high]; it is below `high` when
/// `low < high <= 2^20`, where every step of that computation is exact. Which
/// number comes out is left unsaid: it depends on the generator's state.
#[verifier::external_body]
pub(crate) fn random_range(low: usize, high: usize) -> (r: usize)
    requires
        low <= high,
        high <= 0x20_0000_0000_0000,
    ensures
        low <= r <= high,
        low < high && high <= 0x10_0000 ==> r < high,
{
    macroquad::rand::gen_range(low, high)
}

} // verus!
