//! Drawing candidate positions from a random source.

use crate::geometry::{Arena, Position};
use rand::rngs::StdRng;
use rand::Rng;
use vstd::prelude::*;

verus! {

/// `rand::rngs::StdRng`, the generator that candidates are drawn from. Its
/// state is opaque here: it is only handed on to `draw_coordinate`.
#[verifier::external_type_specification]
#[verifier::external_body]
pub struct ExStdRng(rand::rngs::StdRng);

/// One call of `rand::Rng::gen_range` on the closed range `low..=high`.
///
/// Trusted, not proved: the value returned lies in the range, both ends
/// included. Which value it is depends on the generator's state, so nothing
/// more is claimed. `gen_range` panics on an empty range, which `low <= high`
/// rules out.
#[verifier::external_body]
pub(crate) fn draw_coordinate(rng: &mut StdRng, low: i32, high: i32) -> (value: i32)
    requires
        low <= high,
    ensures
        low <= value <= high,
{
    rng.gen_range(low..=high)
}

/// Draws a candidate position in the arena: first `x`, then `z`, each on its
/// own from `[-half_extent, half_extent]`.
pub fn sample_position(rng: &mut StdRng, arena: &Arena) -> (candidate: Position)
    requires
        arena@.wf(),
    ensures
        arena@.contains(candidate),
{
    let h: i32 = arena.half_extent();
    let x: i32 = draw_coordinate(rng, -h, h);
    let z: i32 = draw_coordinate(rng, -h, h);
    Position { x, z }
}

} // verus!
