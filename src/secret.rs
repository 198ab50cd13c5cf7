//! Drawing the number to be guessed.

use rand::Rng;
use vstd::prelude::*;

verus! {

/// The smallest number the game may pick.
pub const LOWEST: u32 = 1;

/// The largest number the game may pick.
pub const HIGHEST: u32 = 100;

/// Relies on `rand::thread_rng` and `Rng::gen_range`: a value of the
/// half-open range `low..high`, which must not be empty (`gen_range` panics
/// on an empty range).
#[verifier::external_body]
fn draw_in_range(low: u32, high: u32) -> (r: u32)
    requires
        low < high,
    ensures
        low <= r < high,
{
    rand::thread_rng().gen_range(low..high)
}

/// A fresh number to guess, between `LOWEST` and `HIGHEST` inclusive.
pub fn draw_secret() -> (r: u32)
    ensures
        LOWEST <= r <= HIGHEST,
{
    draw_in_range(LOWEST, HIGHEST + 1)
}

} // verus!
