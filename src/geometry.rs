//! Fixed-point atom positions and exact squared distances.
use vstd::prelude::*;

verus! {

/// Fixed-point steps per distance unit: a coordinate of `15000` stands for 1.5 units.
pub const FIXED_SCALE: i64 = 10000;

/// A point in space, each coordinate in fixed-point steps of `1 / FIXED_SCALE` units.
#[derive(Clone, Copy, Debug, PartialEq, Eq)]
pub struct Position {
    pub x: i32,
    pub y: i32,
    pub z: i32,
}

impl Position {
    pub fn new(x: i32, y: i32, z: i32) -> (r: Position)
        ensures
            r.x == x,
            r.y == y,
            r.z == z,
    {
        Position { x, y, z }
    }
}

pub open spec fn square(v: int) -> int {
    v * v
}

/// The squared Euclidean distance between two positions, in squared fixed-point steps.
pub open spec fn dist_sq(a: Position, b: Position) -> int {
    square(a.x - b.x) + square(a.y - b.y) + square(a.z - b.z)
}

proof fn lemma_square_bound(d: int)
    requires
        -0x1_0000_0000 < d < 0x1_0000_0000,
    ensures
        0 <= square(d) < 0x1_0000_0000_0000_0000,
{
    assert(0 <= d * d < 0x1_0000_0000_0000_0000) by (nonlinear_arith)
        requires
            -0x1_0000_0000 < d < 0x1_0000_0000,
    ;
}

/// Exact squared distance; no rounding, since both coordinates are integers.
pub fn squared_distance(a: &Position, b: &Position) -> (r: u128)
    ensures
        r == dist_sq(*a, *b),
        r < 0x3_0000_0000_0000_0000,
{
    let dx: i128 = a.x as i128 - b.x as i128;
    let dy: i128 = a.y as i128 - b.y as i128;
    let dz: i128 = a.z as i128 - b.z as i128;
    proof {
        lemma_square_bound(dx as int);
        lemma_square_bound(dy as int);
        lemma_square_bound(dz as int);
    }
    let sum: i128 = dx * dx + dy * dy + dz * dz;
    sum as u128
}

} // verus!
