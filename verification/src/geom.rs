//! Fixed-point plane geometry.
//!
//! Positions, velocities and radii are integers counted in milli-units:
//! `SCALE` steps make one world unit. All simulation limits that keep the
//! arithmetic overflow-free live here as named constants.

use vstd::prelude::*;

verus! {

/// Fixed-point steps per world unit.
pub const SCALE: i64 = 1000;

/// Largest coordinate magnitude a well-formed state admits (milli-units).
pub const COORD_LIMIT: i64 = 1_000_000;

/// Largest coordinate magnitude a candidate position may reach while a
/// move is being resolved (milli-units).
pub const CAND_LIMIT: i64 = 2_000_000;

/// Largest radius of any entity (milli-units).
pub const RADIUS_MAX: i64 = 100_000;

/// Largest velocity component of a projectile (milli-units per second).
pub const VEL_LIMIT: i64 = 100_000;

/// Largest component of a single command's movement delta.
pub const MOVE_LIMIT: i64 = 10_000;

/// Largest movement speed of a player (milli-units per second).
pub const SPEED_LIMIT: i64 = 100_000;

/// Largest time slice one tick may advance (milliseconds).
pub const DT_LIMIT: u64 = 10_000;

/// A point or displacement of the plane, in milli-units.
#[derive(Clone, Copy, PartialEq, Eq, Structural, Debug)]
pub struct Vec2 {
    pub x: i64,
    pub y: i64,
}

impl Vec2 {
    /// Both components lie within `lim` in magnitude.
    pub open spec fn in_limit(self, lim: i64) -> bool {
        -lim <= self.x <= lim && -lim <= self.y <= lim
    }

    pub fn new(x: i64, y: i64) -> (r: Vec2)
        ensures
            r == (Vec2 { x, y }),
    {
        Vec2 { x, y }
    }

    pub open spec fn spec_plus(self, o: Vec2) -> Vec2 {
        Vec2 { x: (self.x + o.x) as i64, y: (self.y + o.y) as i64 }
    }

    pub fn plus(self, o: Vec2) -> (r: Vec2)
        requires
            i64::MIN <= self.x + o.x <= i64::MAX,
            i64::MIN <= self.y + o.y <= i64::MAX,
        ensures
            r == self.spec_plus(o),
            r.x == self.x + o.x,
            r.y == self.y + o.y,
    {
        Vec2 { x: self.x + o.x, y: self.y + o.y }
    }

    pub open spec fn spec_minus(self, o: Vec2) -> Vec2 {
        Vec2 { x: (self.x - o.x) as i64, y: (self.y - o.y) as i64 }
    }

    pub fn minus(self, o: Vec2) -> (r: Vec2)
        requires
            i64::MIN <= self.x - o.x <= i64::MAX,
            i64::MIN <= self.y - o.y <= i64::MAX,
        ensures
            r == self.spec_minus(o),
            r.x == self.x - o.x,
            r.y == self.y - o.y,
    {
        Vec2 { x: self.x - o.x, y: self.y - o.y }
    }

    /// True when the displacement is exactly zero.
    pub fn is_zero(self) -> (r: bool)
        ensures
            r == (self.x == 0 && self.y == 0),
    {
        self.x == 0 && self.y == 0
    }
}

/// Clamp `v` into `[lo, hi]` (callers keep `lo <= hi`).
pub open spec fn spec_clamp(v: int, lo: int, hi: int) -> int {
    if v < lo {
        lo
    } else if v > hi {
        hi
    } else {
        v
    }
}

pub fn clamp_i64(v: i64, lo: i64, hi: i64) -> (r: i64)
    ensures
        r == spec_clamp(v as int, lo as int, hi as int),
{
    if v < lo {
        lo
    } else if v > hi {
        hi
    } else {
        v
    }
}

/// Division rounding toward zero (what the machine's signed division
/// does), for a positive divisor.
pub open spec fn div_trunc(a: int, b: int) -> int
    recommends
        b > 0,
{
    if a >= 0 {
        a / b
    } else {
        -((-a) / b)
    }
}

/// Squared Euclidean distance between two points.
pub open spec fn spec_dist_sq(a: Vec2, b: Vec2) -> int {
    (a.x - b.x) * (a.x - b.x) + (a.y - b.y) * (a.y - b.y)
}

pub fn dist_sq(a: Vec2, b: Vec2) -> (r: i64)
    requires
        a.in_limit(CAND_LIMIT),
        b.in_limit(CAND_LIMIT),
    ensures
        r == spec_dist_sq(a, b),
{
    let dx: i64 = a.x - b.x;
    let dy: i64 = a.y - b.y;
    proof {
        lemma_square_bound(dx as int, 2 * CAND_LIMIT as int);
        lemma_square_bound(dy as int, 2 * CAND_LIMIT as int);
    }
    dx * dx + dy * dy
}

/// For `|v| <= m`, the square of `v` lies in `[0, m * m]`.
pub proof fn lemma_square_bound(v: int, m: int)
    requires
        -m <= v <= m,
    ensures
        0 <= v * v <= m * m,
{
    assert(0 <= v * v <= m * m) by (nonlinear_arith)
        requires
            -m <= v <= m,
    ;
}

/// Two circles overlap strictly (their boundaries touching does not count).
pub open spec fn circles_overlap(a: Vec2, ra: int, b: Vec2, rb: int) -> bool {
    spec_dist_sq(a, b) < (ra + rb) * (ra + rb)
}

} // verus!
