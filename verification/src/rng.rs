//! The only boundary with the `rand` crate: a thread-local generator handle
//! and a single uniform-draw operation. Everything else in the crate is
//! verified against the contract of `draw_in_range`.

use vstd::prelude::*;

verus! {

#[verifier::external_type_specification]
#[verifier::external_body]
pub struct ExThreadRng(rand::rngs::ThreadRng);

/// Relies on `rand::thread_rng`: returns a handle to the thread-local
/// generator. Nothing is assumed about its state.
#[verifier::external_body]
pub(crate) fn fresh_rng() -> rand::rngs::ThreadRng {
    rand::thread_rng()
}

/// Relies on `rand::Rng::gen_range` over the inclusive range `1..=sides`:
/// a draw from that range. It panics only on an empty range, which the
/// `requires` excludes.
#[verifier::external_body]
pub(crate) fn draw_in_range(rng: &mut rand::rngs::ThreadRng, sides: u32) -> (r: u32)
    requires
        sides >= 1,
    ensures
        1 <= r <= sides,
{
    rand::Rng::gen_range(rng, 1..=sides)
}

} // verus!
