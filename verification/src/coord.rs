//! Grid points.

use vstd::prelude::*;

verus! {

/// An immutable point on the grid.  Coordinates are small signed integers;
/// positions outside `[0, width) x [0, height)` are representable (an agent
/// can step off the board, which the death rules then detect).
#[derive(Copy, Clone, PartialEq, Eq, Structural, Debug)]
pub struct Coord {
    pub x: i8,
    pub y: i8,
}

impl Coord {
    pub fn new(x: i8, y: i8) -> (c: Coord)
        ensures
            c == (Coord { x, y }),
    {
        Coord { x, y }
    }
}

/// An element-for-element copy of a list of grid points.
pub(crate) fn clone_coords(v: &Vec<Coord>) -> (res: Vec<Coord>)
    ensures
        res@ == v@,
{
    let mut res: Vec<Coord> = Vec::new();
    let n = v.len();
    for i in 0..n
        invariant
            n == v@.len(),
            res@ == v@.take(i as int),
    {
        res.push(v[i]);
        proof {
            assert(v@.take(i + 1) =~= v@.take(i as int).push(v@[i as int]));
        }
    }
    proof {
        assert(v@.take(n as int) =~= v@);
    }
    res
}

/// Increment that stops at the top of the coordinate range instead of
/// wrapping.  A saturated coordinate is already off every representable
/// board, so clamping never turns an off-board position into an on-board one.
pub open spec fn sat_inc(v: i8) -> i8 {
    if v == i8::MAX {
        v
    } else {
        (v + 1) as i8
    }
}

/// Decrement that stops at the bottom of the coordinate range instead of
/// wrapping.
pub open spec fn sat_dec(v: i8) -> i8 {
    if v == i8::MIN {
        v
    } else {
        (v - 1) as i8
    }
}

} // verus!
