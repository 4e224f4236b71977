//! The angle of the animation.
//!
//! The mesh turns about its upright axis. The angle of the turn is a whole
//! number of degrees, at least zero and less than a full turn, and grows by a
//! fixed step from one frame to the next.

use vstd::prelude::*;

verus! {

/// The degrees of a full turn.
pub const FULL_TURN: i32 = 360;

/// The degrees by which the mesh turns from one frame to the next.
pub const STEP: i32 = 3;

/// The angle of the first frame.
pub const START: i32 = 220;

/// The angle of a turn by `degrees`, brought between zero and a full turn.
pub open spec fn wrapped(degrees: int) -> int {
    degrees % 360
}

/// Brings an angle between zero and a full turn.
pub fn wrap(degrees: i32) -> (angle: i32)
    ensures
        angle == wrapped(degrees as int),
        0 <= angle < FULL_TURN,
{
    if degrees >= 0 {
        degrees % FULL_TURN
    } else {
        let back: i32 = (-(degrees + 1)) % FULL_TURN;
        FULL_TURN - 1 - back
    }
}

/// The angle of the frame after the frame of the angle `angle`.
pub fn next_angle(angle: i32) -> (next: i32)
    ensures
        next == wrapped(wrapped(angle as int) + STEP),
        0 <= next < FULL_TURN,
{
    wrap(wrap(angle) + STEP)
}

} // verus!
