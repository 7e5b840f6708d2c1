//! The player's step across the arena.

use crate::geometry::{Arena, Position};
use vstd::prelude::*;

verus! {

/// The directions held down during one frame.
#[derive(Clone, Copy, Debug, PartialEq, Eq, Structural)]
pub struct MoveInput {
    /// Towards negative `x`.
    pub left: bool,
    /// Towards positive `x`.
    pub right: bool,
    /// Towards negative `z`.
    pub forward: bool,
    /// Towards positive `z`.
    pub back: bool,
}

/// The nearest value to `value` in `[low, high]`.
pub open spec fn clamp(value: int, low: int, high: int) -> int {
    if value < low {
        low
    } else if value > high {
        high
    } else {
        value
    }
}

/// The net shift along one axis: `step` for the positive direction, `-step`
/// for the negative one. Both held cancel out.
pub open spec fn axis_shift(negative: bool, positive: bool, step: int) -> int {
    (if positive { step } else { 0int }) - (if negative { step } else { 0int })
}

fn step_axis(coordinate: i32, negative: bool, positive: bool, step: i32, half_extent: i32) -> (moved:
    i32)
    requires
        0 <= half_extent,
    ensures
        moved == clamp(
            coordinate + axis_shift(negative, positive, step as int),
            -half_extent,
            half_extent as int,
        ),
{
    let mut target: i64 = coordinate as i64;
    if negative {
        target = target - step as i64;
    }
    if positive {
        target = target + step as i64;
    }
    let h: i64 = half_extent as i64;
    if target < -h {
        -half_extent
    } else if target > h {
        half_extent
    } else {
        target as i32
    }
}

/// Moves the player by one frame's input: each direction held shifts the
/// position by `step` along its axis, and once all of them are applied each
/// coordinate is clamped to the arena on its own.
pub fn move_player(position: Position, input: MoveInput, step: i32, arena: &Arena) -> (moved:
    Position)
    requires
        arena@.wf(),
    ensures
        moved.x == clamp(
            position.x + axis_shift(input.left, input.right, step as int),
            -arena@.half_extent,
            arena@.half_extent,
        ),
        moved.z == clamp(
            position.z + axis_shift(input.forward, input.back, step as int),
            -arena@.half_extent,
            arena@.half_extent,
        ),
        arena@.contains(moved),
{
    let h: i32 = arena.half_extent();
    Position {
        x: step_axis(position.x, input.left, input.right, step, h),
        z: step_axis(position.z, input.forward, input.back, step, h),
    }
}

} // verus!
