//! Trusted boundary around the process's source of randomness.

use vstd::prelude::*;
use rand::Rng;

verus! {

/// Relies on rand::Rng::gen_range on rand::thread_rng: returns a value drawn
/// from the given inclusive range; it panics only on an empty range, which the
/// precondition excludes.
#[verifier::external_body]
pub(crate) fn draw_die(sides: u32) -> (r: u32)
    requires
        1 <= sides,
    ensures
        1 <= r <= sides,
{
    rand::thread_rng().gen_range(1..=sides)
}

/// Relies on rand::Rng::gen_range on rand::thread_rng: returns a value drawn
/// from the given half-open range; it panics only on an empty range, which the
/// precondition excludes.
#[verifier::external_body]
pub(crate) fn draw_index(len: usize) -> (r: usize)
    requires
        1 <= len,
    ensures
        r < len,
{
    rand::thread_rng().gen_range(0..len)
}

} // verus!
