//! Johnny's turning on the spot while walking between island spots: which way to rotate
//! from one of the eight headings toward another.
use vstd::prelude::*;

verus! {

/// The rotation step that turns heading `current` toward heading `next` the short way
/// round: 0 when they are the same heading (mod 8), +1 when `next` is one to three steps
/// clockwise, -1 otherwise (four steps turns anticlockwise).
pub open spec fn turn_step(next: int, current: int) -> int {
    let delta = (next - current) % 8;
    if delta == 0 {
        0
    } else if delta < 4 {
        1
    } else {
        -1
    }
}

/// The rotation step (+1, -1 or 0) to turn from `current_hdg` toward `next_hdg`.
pub fn turn_increment(next_hdg: i32, current_hdg: i32) -> (r: i32)
    requires
        i32::MIN <= next_hdg - current_hdg <= i32::MAX,
    ensures
        r == turn_step(next_hdg as int, current_hdg as int),
{
    let x: i32 = next_hdg - current_hdg;
    let delta: i32 = x & 7;
    proof {
        assert(delta == x % 8) by (bit_vector)
            requires
                delta == x & 7,
        ;
    }
    if delta == 0 {
        0
    } else if delta < 4 {
        1
    } else {
        -1
    }
}

} // verus!
