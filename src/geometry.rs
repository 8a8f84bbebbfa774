//! Positions, velocities and the per-tick motion of a particle.
use vstd::prelude::*;

verus! {

/// The sum `a + b` clamped to the range of `i16`.
pub open spec fn saturating_sum(a: i16, b: i16) -> i16 {
    if a + b > i16::MAX {
        i16::MAX
    } else if a + b < i16::MIN {
        i16::MIN
    } else {
        (a + b) as i16
    }
}

/// Adds two depths, saturating at the bounds of `i16` instead of overflowing.
pub fn saturating_depth_add(a: i16, b: i16) -> (r: i16)
    ensures
        r == saturating_sum(a, b),
{
    let s: i32 = a as i32 + b as i32;
    if s > i16::MAX as i32 {
        i16::MAX
    } else if s < i16::MIN as i32 {
        i16::MIN
    } else {
        s as i16
    }
}

/// Per-tick displacement of a particle. `y` is applied with its sign flipped,
/// so a negative `y` moves the particle toward higher row indices.
#[derive(Debug, Clone, Copy, PartialEq, Eq, Structural)]
pub struct Velocity {
    pub x: i32,
    pub y: i32,
    pub z: i16,
}

/// Horizontal drift range, inclusive.
pub const DRIFT_MIN: i32 = -3;
pub const DRIFT_MAX: i32 = 3;
/// Vertical range, inclusive: always negative, that is, always falling.
pub const FALL_MIN: i32 = -3;
pub const FALL_MAX: i32 = -1;
/// Depth drift range, inclusive.
pub const DEPTH_DRIFT_MIN: i16 = -5248;
pub const DEPTH_DRIFT_MAX: i16 = 5248;

impl Velocity {
    /// Every component lies in its generation range.
    pub open spec fn in_ranges(self) -> bool {
        &&& DRIFT_MIN <= self.x <= DRIFT_MAX
        &&& FALL_MIN <= self.y <= FALL_MAX
        &&& DEPTH_DRIFT_MIN <= self.z <= DEPTH_DRIFT_MAX
    }

    /// A fresh velocity drawn uniformly from the generation ranges.
    pub fn new() -> (r: Velocity)
        ensures
            r.in_ranges(),
    {
        let x = crate::chance::draw_between(DRIFT_MIN, DRIFT_MAX);
        let y = crate::chance::draw_between(FALL_MIN, FALL_MAX);
        let z = crate::chance::draw_between(DEPTH_DRIFT_MIN as i32, DEPTH_DRIFT_MAX as i32);
        Velocity { x, y, z: z as i16 }
    }
}

/// A position on the grid: `x` is the column, `y` the row, `z` the depth
/// (greater is closer to the viewer).
#[derive(Debug, Clone, Copy, PartialEq, Eq, Structural)]
pub struct Pos {
    pub x: i32,
    pub y: i32,
    pub z: i16,
}

/// Column reached by moving `x` by `v` (unbounded).
pub open spec fn next_x(p: Pos, v: Velocity) -> int {
    p.x + v.x
}

/// Row reached by moving `p` by `v` (unbounded).
pub open spec fn next_y(p: Pos, v: Velocity) -> int {
    p.y - v.y
}

/// The position after one tick; exact whenever the new column and row fit `i32`.
pub open spec fn shifted(p: Pos, v: Velocity) -> Pos {
    Pos { x: next_x(p, v) as i32, y: next_y(p, v) as i32, z: saturating_sum(p.z, v.z) }
}

/// The new column and row fit in `i32`.
pub open spec fn shift_fits(p: Pos, v: Velocity) -> bool {
    &&& i32::MIN <= next_x(p, v) <= i32::MAX
    &&& i32::MIN <= next_y(p, v) <= i32::MAX
}

impl Pos {
    pub fn new(x: i32, y: i32, z: i16) -> (r: Pos)
        ensures
            r == (Pos { x, y, z }),
    {
        Pos { x, y, z }
    }

    /// Moves the position by one tick of `vel`; the depth saturates.
    pub fn shift(&mut self, vel: &Velocity)
        requires
            shift_fits(*old(self), *vel),
        ensures
            *final(self) == shifted(*old(self), *vel),
            final(self).x == old(self).x + vel.x,
            final(self).y == old(self).y - vel.y,
    {
        self.x = self.x + vel.x;
        self.y = self.y - vel.y;
        self.z = saturating_depth_add(self.z, vel.z);
    }
}

} // verus!
