//! Collision and movement engine, command application, and the
//! deterministic per-tick step.
//!
//! Movement is resolved as a sweep: the displacement is walked in
//! increments no larger than half the mover's radius, and each candidate
//! position is tested against every solid entity of a reference snapshot
//! and against the map's walls. Only non-penetrating positions are ever
//! committed, so an interrupted sweep leaves the mover at the last valid
//! position.

use vstd::prelude::*;

use crate::geom::{
    circles_overlap, clamp_i64, dist_sq, div_trunc, lemma_square_bound, spec_clamp, spec_dist_sq,
    Vec2, CAND_LIMIT, COORD_LIMIT, DT_LIMIT, MOVE_LIMIT, RADIUS_MAX, SCALE, SPEED_LIMIT, VEL_LIMIT,
};
use crate::player::Input;
use crate::state::{view_slot, view_things, Event, GameMap, State, StateView, SlotView, LEN_LIMIT, MARGIN};
use crate::store::Id;
use crate::thing::{PlayerView, ProjectileThing, Solid, Thing, ThingView, FULL_HEARTS, RESPAWN_MS};

verus! {

/// A circle of the plane: a center and a radius.
#[derive(Clone, Copy, PartialEq, Eq, Structural, Debug)]
pub struct Circle {
    pub c: Vec2,
    pub r: i64,
}

/// What a sweep ran into.
#[derive(Clone, Copy, PartialEq, Eq, Structural, Debug)]
pub enum CollisionResult {
    /// Nothing: the move completed.
    Clear,
    /// A solid entity, named by its identifier.
    Thing(Id),
    /// A map wall; carries the mover's identifier and an (un-normalized)
    /// direction pointing from the wall toward the mover.
    Wall(Id, Vec2),
}

// ---------------------------------------------------------------------
// Circle versus the solid entities of a reference snapshot
// ---------------------------------------------------------------------
/// Does slot `j` hold an entity that blocks a mover at `pos` with radius
/// `r`? Only `Solid` entities block; the mover itself and an optional
/// explicitly ignored entity do not.
pub open spec fn obstacle_at(
    things: Seq<SlotView>,
    j: int,
    me: Id,
    ignore: Option<Id>,
    pos: Vec2,
    r: i64,
) -> bool {
    match things[j].value {
        Some(t) => {
            let oid = Id { slot: j as usize, generation: things[j].generation };
            &&& oid != me
            &&& match ignore {
                Some(ig) => oid != ig,
                None => true,
            }
            &&& t.solid() == Solid::Solid
            &&& circles_overlap(pos, r as int, t.pos(), t.radius() as int)
        },
        None => false,
    }
}

/// First blocking entity at slot index `j` or later.
pub open spec fn first_obstacle_from(
    things: Seq<SlotView>,
    j: int,
    me: Id,
    ignore: Option<Id>,
    pos: Vec2,
    r: i64,
) -> Option<Id>
    decreases things.len() - j,
{
    if j < 0 || j >= things.len() {
        None
    } else if obstacle_at(things, j, me, ignore, pos, r) {
        Some(Id { slot: j as usize, generation: things[j].generation })
    } else {
        first_obstacle_from(things, j + 1, me, ignore, pos, r)
    }
}

/// First blocking entity, scanning slots in index order.
pub open spec fn first_obstacle(
    things: Seq<SlotView>,
    me: Id,
    ignore: Option<Id>,
    pos: Vec2,
    r: i64,
) -> Option<Id> {
    first_obstacle_from(things, 0, me, ignore, pos, r)
}

/// Exec mirror of [`first_obstacle`].
fn find_obstacle(reference: &State, me: Id, ignore: Option<Id>, pos: Vec2, r: i64) -> (res: Option<
    Id,
>)
    requires
        reference.wf(),
        pos.in_limit(CAND_LIMIT),
        0 < r <= RADIUS_MAX,
    ensures
        res == first_obstacle(reference@.things, me, ignore, pos, r),
{
    let ghost things = reference@.things;
    let n: usize = reference.things.slots.len();
    let mut j: usize = 0;
    while j < n
        invariant
            reference.wf(),
            pos.in_limit(CAND_LIMIT),
            0 < r <= RADIUS_MAX,
            things == reference@.things,
            n == things.len(),
            j <= n,
            first_obstacle(things, me, ignore, pos, r) == first_obstacle_from(
                things,
                j as int,
                me,
                ignore,
                pos,
                r,
            ),
        decreases n - j,
    {
        let slot = &reference.things.slots[j];
        match &slot.value {
            Some(t) => {
                let oid = Id { slot: j, generation: slot.generation };
                let is_me = oid.slot == me.slot && oid.generation == me.generation;
                let is_ignored = match ignore {
                    Some(ig) => oid.slot == ig.slot && oid.generation == ig.generation,
                    None => false,
                };
                if !is_me && !is_ignored && matches!(t.solid(), Solid::Solid) {
                    let tr: i64 = t.radius();
                    let tp: Vec2 = t.pos();
                    assert(tp.in_limit(COORD_LIMIT) && 0 < tr <= RADIUS_MAX);
                    let sum: i64 = r + tr;
                    proof {
                        lemma_square_bound(sum as int, 2 * RADIUS_MAX as int);
                    }
                    if dist_sq(pos, tp) < sum * sum {
                        assert(obstacle_at(things, j as int, me, ignore, pos, r));
                        return Some(oid);
                    }
                }
                assert(!obstacle_at(things, j as int, me, ignore, pos, r));
            },
            None => {
                assert(!obstacle_at(things, j as int, me, ignore, pos, r));
            },
        }
        j += 1;
    }
    None
}

// ---------------------------------------------------------------------
// Circle versus walls
// ---------------------------------------------------------------------
/// Does the circle at `pos` with radius `r` penetrate the segment from
/// `a` to `b`? Exact over the integers: the perpendicular case compares
/// the squared cross product against the squared radius scaled by the
/// segment's squared length.
pub open spec fn seg_penetrates(pos: Vec2, r: i64, a: Vec2, b: Vec2) -> bool {
    let apx = pos.x - a.x;
    let apy = pos.y - a.y;
    let abx = b.x - a.x;
    let aby = b.y - a.y;
    let den = abx * abx + aby * aby;
    if den == 0 {
        spec_dist_sq(pos, a) < r * r
    } else {
        let tnum = apx * abx + apy * aby;
        if tnum <= 0 {
            spec_dist_sq(pos, a) < r * r
        } else if tnum >= den {
            spec_dist_sq(pos, b) < r * r
        } else {
            let cross = apx * aby - apy * abx;
            cross * cross < r * r * den
        }
    }
}

/// `|a * b| <= ma * mb` for `|a| <= ma`, `|b| <= mb`.
proof fn lemma_mul_bound(a: int, b: int, ma: int, mb: int)
    requires
        -ma <= a <= ma,
        -mb <= b <= mb,
    ensures
        -(ma * mb) <= a * b <= ma * mb,
{
    assert(-(ma * mb) <= a * b <= ma * mb) by (nonlinear_arith)
        requires
            -ma <= a <= ma,
            -mb <= b <= mb,
    ;
}

/// Exec mirror of [`seg_penetrates`].
fn seg_test(pos: Vec2, r: i64, a: Vec2, b: Vec2) -> (res: bool)
    requires
        pos.in_limit(CAND_LIMIT),
        a.in_limit(COORD_LIMIT),
        b.in_limit(COORD_LIMIT),
        0 < r <= RADIUS_MAX,
    ensures
        res == seg_penetrates(pos, r, a, b),
{
    let apx: i64 = pos.x - a.x;
    let apy: i64 = pos.y - a.y;
    let abx: i64 = b.x - a.x;
    let aby: i64 = b.y - a.y;
    proof {
        lemma_square_bound(abx as int, 2 * COORD_LIMIT as int);
        lemma_square_bound(aby as int, 2 * COORD_LIMIT as int);
        lemma_square_bound(r as int, RADIUS_MAX as int);
        lemma_mul_bound(apx as int, abx as int, 3 * COORD_LIMIT as int, 2 * COORD_LIMIT as int);
        lemma_mul_bound(apy as int, aby as int, 3 * COORD_LIMIT as int, 2 * COORD_LIMIT as int);
        lemma_mul_bound(apx as int, aby as int, 3 * COORD_LIMIT as int, 2 * COORD_LIMIT as int);
        lemma_mul_bound(apy as int, abx as int, 3 * COORD_LIMIT as int, 2 * COORD_LIMIT as int);
    }
    let den: i64 = abx * abx + aby * aby;
    if den == 0 {
        dist_sq(pos, a) < r * r
    } else {
        let tnum: i64 = apx * abx + apy * aby;
        if tnum <= 0 {
            dist_sq(pos, a) < r * r
        } else if tnum >= den {
            dist_sq(pos, b) < r * r
        } else {
            let cross: i64 = apx * aby - apy * abx;
            let c128: i128 = cross as i128;
            let r2: i128 = (r as i128) * (r as i128);
            proof {
                lemma_mul_bound(c128 as int, c128 as int, 13_000_000_000_000int, 13_000_000_000_000int);
                lemma_mul_bound(r2 as int, den as int, 10_000_000_000int, 8_000_000_000_000int);
            }
            c128 * c128 < r2 * (den as i128)
        }
    }
}

/// First penetrated segment of the closed polyline `pts`, scanning from
/// segment `k`; segment `k` joins point `k` to point `(k + 1) % len`.
pub open spec fn first_seg_hit_from(pts: Seq<Vec2>, k: int, pos: Vec2, r: i64) -> Option<int>
    decreases pts.len() - k,
{
    if k < 0 || k >= pts.len() {
        None
    } else if seg_penetrates(pos, r, pts[k], pts[(k + 1) % pts.len() as int]) {
        Some(k)
    } else {
        first_seg_hit_from(pts, k + 1, pos, r)
    }
}

/// First penetrated wall, scanning walls and their segments in order.
pub open spec fn first_wall_hit_from(walls: Seq<Seq<Vec2>>, w: int, pos: Vec2, r: i64) -> Option<
    (int, int),
>
    decreases walls.len() - w,
{
    if w < 0 || w >= walls.len() {
        None
    } else {
        match first_seg_hit_from(walls[w], 0, pos, r) {
            Some(k) => Some((w, k)),
            None => first_wall_hit_from(walls, w + 1, pos, r),
        }
    }
}

pub open spec fn first_wall_hit(walls: Seq<Seq<Vec2>>, pos: Vec2, r: i64) -> Option<(int, int)> {
    first_wall_hit_from(walls, 0, pos, r)
}

/// An (un-normalized) direction from the segment `a`–`b` toward `pos`:
/// the segment's perpendicular, signed to point at the mover. Nothing
/// quantitative is derived from it; it only reports which way the wall
/// pushed.
pub open spec fn seg_normal_toward(pos: Vec2, a: Vec2, b: Vec2) -> Vec2 {
    if a == b {
        Vec2 { x: (pos.x - a.x) as i64, y: (pos.y - a.y) as i64 }
    } else {
        let nx = -(b.y - a.y);
        let ny = b.x - a.x;
        if nx * (pos.x - a.x) + ny * (pos.y - a.y) >= 0 {
            Vec2 { x: nx as i64, y: ny as i64 }
        } else {
            Vec2 { x: (-nx) as i64, y: (-ny) as i64 }
        }
    }
}

/// Exec mirror of [`seg_normal_toward`].
fn seg_normal(pos: Vec2, a: Vec2, b: Vec2) -> (n: Vec2)
    requires
        pos.in_limit(CAND_LIMIT),
        a.in_limit(COORD_LIMIT),
        b.in_limit(COORD_LIMIT),
    ensures
        n == seg_normal_toward(pos, a, b),
{
    if a.x == b.x && a.y == b.y {
        Vec2 { x: pos.x - a.x, y: pos.y - a.y }
    } else {
        let nx: i64 = -(b.y - a.y);
        let ny: i64 = b.x - a.x;
        proof {
            lemma_mul_bound(nx as int, (pos.x - a.x) as int, 2 * COORD_LIMIT as int, 3 * COORD_LIMIT as int);
            lemma_mul_bound(ny as int, (pos.y - a.y) as int, 2 * COORD_LIMIT as int, 3 * COORD_LIMIT as int);
        }
        if nx * (pos.x - a.x) + ny * (pos.y - a.y) >= 0 {
            Vec2 { x: nx, y: ny }
        } else {
            Vec2 { x: -nx, y: -ny }
        }
    }
}

/// Exec mirror of [`first_wall_hit`], also returning the wall's normal
/// toward the mover.
fn find_wall_hit(map: &GameMap, pos: Vec2, r: i64) -> (res: Option<Vec2>)
    requires
        forall|i: int, j: int|
            0 <= i < map@.polylines.len() && 0 <= j < map@.polylines[i].len() ==> (
            #[trigger] map@.polylines[i][j]).in_limit(COORD_LIMIT),
        pos.in_limit(CAND_LIMIT),
        0 < r <= RADIUS_MAX,
    ensures
        match res {
            Some(n) => {
                let hit = first_wall_hit(map@.polylines, pos, r);
                &&& hit is Some
                &&& {
                    let (w, k) = hit->Some_0;
                    let pts = map@.polylines[w];
                    n == seg_normal_toward(pos, pts[k], pts[(k + 1) % pts.len() as int])
                }
            },
            None => first_wall_hit(map@.polylines, pos, r) is None,
        },
{
    let ghost walls = map@.polylines;
    let nw: usize = map.polylines.len();
    let mut w: usize = 0;
    while w < nw
        invariant
            forall|i: int, j: int|
                0 <= i < walls.len() && 0 <= j < walls[i].len() ==> (
                #[trigger] walls[i][j]).in_limit(COORD_LIMIT),
            pos.in_limit(CAND_LIMIT),
            0 < r <= RADIUS_MAX,
            walls == map@.polylines,
            nw == walls.len(),
            w <= nw,
            first_wall_hit(walls, pos, r) == first_wall_hit_from(walls, w as int, pos, r),
        decreases nw - w,
    {
        let pts = &map.polylines[w].points;
        let np: usize = pts.len();
        assert(pts@ == walls[w as int]);
        let mut k: usize = 0;
        while k < np
            invariant
                forall|i: int, j: int|
                    0 <= i < walls.len() && 0 <= j < walls[i].len() ==> (
                    #[trigger] walls[i][j]).in_limit(COORD_LIMIT),
                pos.in_limit(CAND_LIMIT),
                0 < r <= RADIUS_MAX,
                walls == map@.polylines,
                w < walls.len(),
                pts@ == walls[w as int],
                np == pts@.len(),
                k <= np,
                first_wall_hit(walls, pos, r) == first_wall_hit_from(walls, w as int, pos, r),
                first_seg_hit_from(walls[w as int], 0, pos, r) == first_seg_hit_from(
                    walls[w as int],
                    k as int,
                    pos,
                    r,
                ),
            decreases np - k,
        {
            let a: Vec2 = pts[k];
            let knext: usize = if k + 1 < np {
                k + 1
            } else {
                0
            };
            proof {
                if k + 1 < np {
                    vstd::arithmetic::div_mod::lemma_small_mod((k + 1) as nat, np as nat);
                } else {
                    assert((k + 1) as int % np as int == 0) by {
                        vstd::arithmetic::div_mod::lemma_mod_self_0(np as int);
                    }
                }
            }
            let b: Vec2 = pts[knext];
            assert(a.in_limit(COORD_LIMIT) && b.in_limit(COORD_LIMIT));
            if seg_test(pos, r, a, b) {
                proof {
                    assert(first_seg_hit_from(walls[w as int], k as int, pos, r) == Some(
                        k as int,
                    ));
                    assert(first_seg_hit_from(walls[w as int], 0, pos, r) == Some(k as int));
                    assert(first_wall_hit_from(walls, w as int, pos, r) == Some(
                        (w as int, k as int),
                    ));
                    assert(b == walls[w as int][(k as int + 1) % walls[w as int].len() as int]);
                }
                return Some(seg_normal(pos, a, b));
            }
            k += 1;
        }
        assert(first_seg_hit_from(walls[w as int], np as int, pos, r) is None);
        w += 1;
    }
    None
}

// ---------------------------------------------------------------------
// The sweep
// ---------------------------------------------------------------------
/// Magnitude of an integer.
pub open spec fn iabs(x: int) -> int {
    if x >= 0 {
        x
    } else {
        -x
    }
}

/// A position at `pos` with radius `r` penetrates neither a blocking
/// entity of the snapshot nor a wall.
pub open spec fn pos_clear(
    things: Seq<SlotView>,
    walls: Seq<Seq<Vec2>>,
    me: Id,
    ignore: Option<Id>,
    pos: Vec2,
    r: i64,
) -> bool {
    first_obstacle(things, me, ignore, pos, r) is None && first_wall_hit(walls, pos, r) is None
}

/// The collision outcome of standing at `pos`: the first blocking entity
/// in slot order wins; otherwise the first penetrated wall; otherwise
/// clear.
pub open spec fn collide_at(
    things: Seq<SlotView>,
    walls: Seq<Seq<Vec2>>,
    me: Id,
    ignore: Option<Id>,
    pos: Vec2,
    r: i64,
) -> CollisionResult {
    match first_obstacle(things, me, ignore, pos, r) {
        Some(oid) => CollisionResult::Thing(oid),
        None => match first_wall_hit(walls, pos, r) {
            Some((w, k)) => CollisionResult::Wall(
                me,
                seg_normal_toward(pos, walls[w][k], walls[w][(k + 1) % walls[w].len() as int]),
            ),
            None => CollisionResult::Clear,
        },
    }
}

/// `d` scaled by `i / n`, rounding the magnitude down.
pub open spec fn mul_div_mag(d: int, i: int, n: int) -> int
    recommends
        n >= 1,
        0 <= i,
{
    if d >= 0 {
        (d * i) / n
    } else {
        -((-d * i) / n)
    }
}

/// The `i`-th of `n` evenly spaced positions from `start` toward
/// `start + delta`; position `n` lands exactly on the target.
pub open spec fn step_pos(start: Vec2, delta: Vec2, n: int, i: int) -> Vec2 {
    Vec2 {
        x: (start.x + mul_div_mag(delta.x as int, i, n)) as i64,
        y: (start.y + mul_div_mag(delta.y as int, i, n)) as i64,
    }
}

/// Exec mirror of [`mul_div_mag`], with its rounding bounds.
fn mul_div_step(d: i64, i: i64, n: i64) -> (r: i64)
    requires
        1 <= n <= 8_000_000,
        0 <= i <= n,
        -4_000_000 <= d <= 4_000_000,
    ensures
        r == mul_div_mag(d as int, i as int, n as int),
        d >= 0 ==> 0 <= r <= d,
        d < 0 ==> d <= r <= 0,
{
    proof {
        lemma_mul_bound(iabs(d as int), i as int, 4_000_000int, 8_000_000int);
        assert(iabs(d as int) * i >= 0) by (nonlinear_arith)
            requires
                iabs(d as int) >= 0,
                i >= 0,
        ;
        // (|d| * i) / n <= |d| because i <= n
        assert(iabs(d as int) * i <= iabs(d as int) * n) by (nonlinear_arith)
            requires
                iabs(d as int) >= 0,
                i <= n,
        ;
        vstd::arithmetic::div_mod::lemma_div_is_ordered(
            iabs(d as int) * i,
            iabs(d as int) * n,
            n as int,
        );
        vstd::arithmetic::div_mod::lemma_div_by_multiple(iabs(d as int), n as int);
        vstd::arithmetic::div_mod::lemma_div_pos_is_pos(iabs(d as int) * i, n as int);
    }
    if d >= 0 {
        (d * i) / n
    } else {
        -((-d * i) / n)
    }
}

/// One sweep step after another: candidate `i` of `n` is tested, a clear
/// candidate is committed, and the first collision ends the sweep at the
/// last committed position.
pub open spec fn sweep_rec(
    things: Seq<SlotView>,
    walls: Seq<Seq<Vec2>>,
    me: Id,
    ignore: Option<Id>,
    start: Vec2,
    delta: Vec2,
    r: i64,
    n: int,
    i: int,
    committed: Vec2,
) -> (Vec2, CollisionResult)
    decreases n - i + 1,
{
    if i > n {
        (committed, CollisionResult::Clear)
    } else {
        let cand = step_pos(start, delta, n, i);
        let res = collide_at(things, walls, me, ignore, cand, r);
        if res == CollisionResult::Clear {
            sweep_rec(things, walls, me, ignore, start, delta, r, n, i + 1, cand)
        } else {
            (committed, res)
        }
    }
}

/// How many steps a sweep of displacement `delta` takes for a mover of
/// radius `r`: the taxicab length divided (rounding up) by half the
/// radius, so that no single step exceeds half the radius.
pub open spec fn sweep_steps(delta: Vec2, r: i64) -> int {
    let sum = iabs(delta.x as int) + iabs(delta.y as int);
    let ms = if r / 2 >= 1 {
        r / 2
    } else {
        1
    };
    (sum + ms - 1) / ms
}

/// The sweep: where a mover `mover` (identified by `me`) ends up when it
/// asks to move to `target` against the snapshot `sv`, and what it ran
/// into. An entity with no solidity moves unconditionally.
pub open spec fn spec_sweep(
    sv: StateView,
    me: Id,
    mover: ThingView,
    target: Vec2,
    ignore: Option<Id>,
) -> (Vec2, CollisionResult) {
    let start = mover.pos();
    if target == start {
        (start, CollisionResult::Clear)
    } else if mover.solid() == Solid::NonSolid {
        (target, CollisionResult::Clear)
    } else {
        let delta = Vec2 { x: (target.x - start.x) as i64, y: (target.y - start.y) as i64 };
        let n = sweep_steps(delta, mover.radius());
        sweep_rec(
            sv.things,
            sv.map.polylines,
            me,
            ignore,
            start,
            delta,
            mover.radius(),
            n,
            1,
            start,
        )
    }
}

/// Move `thing` toward `new_pos` by sweeping against the reference
/// snapshot, stopping at the first collision. The committed position is
/// always one the sweep found free of penetration (or the starting
/// position), and the outcome reports the first obstacle hit.
pub fn move_thing_direct_sweep(
    thing_id: Id,
    thing: &mut Thing,
    new_pos: Vec2,
    reference: &State,
    ignore: Option<Id>,
) -> (res: CollisionResult)
    requires
        reference.wf(),
        old(thing)@.pos().in_limit(COORD_LIMIT),
        2 <= old(thing)@.radius() <= RADIUS_MAX,
        new_pos.in_limit(CAND_LIMIT),
    ensures
        final(thing)@ == old(thing)@.with_pos(
            spec_sweep(reference@, thing_id, old(thing)@, new_pos, ignore).0,
        ),
        res == spec_sweep(reference@, thing_id, old(thing)@, new_pos, ignore).1,
        final(thing)@.pos().in_limit(CAND_LIMIT),
{
    let start = thing.pos();
    let ghost expected = spec_sweep(reference@, thing_id, old(thing)@, new_pos, ignore);
    if new_pos.x == start.x && new_pos.y == start.y {
        proof {
            assert(old(thing)@.with_pos(start) == old(thing)@);
        }
        thing.set_pos(start);
        return CollisionResult::Clear;
    }
    if matches!(thing.solid(), Solid::NonSolid) {
        thing.set_pos(new_pos);
        return CollisionResult::Clear;
    }
    let r: i64 = thing.radius();
    let dx: i64 = new_pos.x - start.x;
    let dy: i64 = new_pos.y - start.y;
    let ghost delta = Vec2 { x: dx, y: dy };
    let adx: i64 = if dx >= 0 {
        dx
    } else {
        -dx
    };
    let ady: i64 = if dy >= 0 {
        dy
    } else {
        -dy
    };
    let sum: i64 = adx + ady;
    let ms: i64 = if r / 2 >= 1 {
        r / 2
    } else {
        1
    };
    let n: i64 = (sum + ms - 1) / ms;
    proof {
        assert(1 <= sum <= 6_000_000);
        assert(1 <= ms <= RADIUS_MAX / 2);
        assert(sum + ms - 1 <= sum * ms) by (nonlinear_arith)
            requires
                1 <= sum,
                1 <= ms,
        ;
        vstd::arithmetic::div_mod::lemma_div_is_ordered(ms as int, sum + ms - 1, ms as int);
        vstd::arithmetic::div_mod::lemma_div_by_self(ms as int);
        vstd::arithmetic::div_mod::lemma_div_is_ordered(sum + ms - 1, sum * ms, ms as int);
        vstd::arithmetic::div_mod::lemma_div_by_multiple(sum as int, ms as int);
        assert(1 <= n <= sum);
        assert(n == sweep_steps(delta, r));
    }
    let mut committed: Vec2 = start;
    let mut i: i64 = 1;
    let mut out: CollisionResult = CollisionResult::Clear;
    let mut hit: bool = false;
    while i <= n && !hit
        invariant
            reference.wf(),
            start == old(thing)@.pos(),
            start.in_limit(COORD_LIMIT),
            new_pos.in_limit(CAND_LIMIT),
            2 <= r <= RADIUS_MAX,
            r == old(thing)@.radius(),
            dx == new_pos.x - start.x,
            dy == new_pos.y - start.y,
            delta == (Vec2 { x: dx, y: dy }),
            -4_000_000 <= dx <= 4_000_000,
            -4_000_000 <= dy <= 4_000_000,
            1 <= n <= 8_000_000,
            1 <= i <= n + 1,
            committed.in_limit(CAND_LIMIT),
            *thing == *old(thing),
            !hit ==> out == CollisionResult::Clear && expected == sweep_rec(
                reference@.things,
                reference@.map.polylines,
                thing_id,
                ignore,
                start,
                delta,
                r,
                n as int,
                i as int,
                committed,
            ),
            hit ==> expected == (committed, out),
        decreases n - i + (if hit { 0int } else { 1int }),
    {
        let ox: i64 = mul_div_step(dx, i, n);
        let oy: i64 = mul_div_step(dy, i, n);
        let cand = Vec2 { x: start.x + ox, y: start.y + oy };
        proof {
            assert(cand == step_pos(start, delta, n as int, i as int));
            assert(cand.in_limit(CAND_LIMIT));
        }
        match find_obstacle(reference, thing_id, ignore, cand, r) {
            Some(oid) => {
                out = CollisionResult::Thing(oid);
                hit = true;
                proof {
                    assert(collide_at(
                        reference@.things,
                        reference@.map.polylines,
                        thing_id,
                        ignore,
                        cand,
                        r,
                    ) == CollisionResult::Thing(oid));
                }
            },
            None => {
                match find_wall_hit(&reference.map, cand, r) {
                    Some(nrm) => {
                        out = CollisionResult::Wall(thing_id, nrm);
                        hit = true;
                        proof {
                            assert(collide_at(
                                reference@.things,
                                reference@.map.polylines,
                                thing_id,
                                ignore,
                                cand,
                                r,
                            ) == CollisionResult::Wall(thing_id, nrm));
                        }
                    },
                    None => {
                        proof {
                            assert(collide_at(
                                reference@.things,
                                reference@.map.polylines,
                                thing_id,
                                ignore,
                                cand,
                                r,
                            ) == CollisionResult::Clear);
                        }
                        committed = cand;
                        i = i + 1;
                    },
                }
            },
        }
    }
    thing.set_pos(committed);
    out
}

// ---------------------------------------------------------------------
// Laws of the sweep
// ---------------------------------------------------------------------
/// A clear scan means no slot holds a blocker: helper induction.
proof fn lemma_no_obstacle_from(
    things: Seq<SlotView>,
    j0: int,
    j: int,
    me: Id,
    ignore: Option<Id>,
    pos: Vec2,
    r: i64,
)
    requires
        first_obstacle_from(things, j0, me, ignore, pos, r) is None,
        0 <= j0 <= j,
    ensures
        j < things.len() ==> !obstacle_at(things, j, me, ignore, pos, r),
    decreases j - j0,
{
    if j0 < things.len() {
        assert(!obstacle_at(things, j0, me, ignore, pos, r));
        if j0 < j {
            lemma_no_obstacle_from(things, j0 + 1, j, me, ignore, pos, r);
        }
    }
}

/// Each committed sweep position stays clear of penetration: helper
/// induction over the sweep.
proof fn lemma_sweep_rec_clear_preserved(
    things: Seq<SlotView>,
    walls: Seq<Seq<Vec2>>,
    me: Id,
    ignore: Option<Id>,
    start: Vec2,
    delta: Vec2,
    r: i64,
    n: int,
    i: int,
    committed: Vec2,
)
    requires
        pos_clear(things, walls, me, ignore, committed, r),
    ensures
        pos_clear(
            things,
            walls,
            me,
            ignore,
            sweep_rec(things, walls, me, ignore, start, delta, r, n, i, committed).0,
            r,
        ),
    decreases n - i + 1,
{
    if i > n {
    } else {
        let cand = step_pos(start, delta, n, i);
        let res = collide_at(things, walls, me, ignore, cand, r);
        if res == CollisionResult::Clear {
            assert(first_obstacle(things, me, ignore, cand, r) is None);
            assert(first_wall_hit(walls, cand, r) is None);
            lemma_sweep_rec_clear_preserved(
                things,
                walls,
                me,
                ignore,
                start,
                delta,
                r,
                n,
                i + 1,
                cand,
            );
        }
    }
}

/// Sweep non-penetration: a mover that starts free of penetration ends
/// free of penetration — its resulting circle overlaps no `Solid`
/// entity of the reference snapshot (other than itself and the ignored
/// entity) and no wall.
pub proof fn lemma_sweep_non_penetration(
    sv: StateView,
    me: Id,
    mover: ThingView,
    target: Vec2,
    ignore: Option<Id>,
)
    requires
        mover.solid() != Solid::NonSolid,
        pos_clear(sv.things, sv.map.polylines, me, ignore, mover.pos(), mover.radius()),
    ensures
        pos_clear(
            sv.things,
            sv.map.polylines,
            me,
            ignore,
            spec_sweep(sv, me, mover, target, ignore).0,
            mover.radius(),
        ),
{
    let start = mover.pos();
    if target == start {
    } else {
        let delta = Vec2 { x: (target.x - start.x) as i64, y: (target.y - start.y) as i64 };
        let n = sweep_steps(delta, mover.radius());
        lemma_sweep_rec_clear_preserved(
            sv.things,
            sv.map.polylines,
            me,
            ignore,
            start,
            delta,
            mover.radius(),
            n,
            1,
            start,
        );
    }
}

/// Spelled-out corollary: after a clear-starting sweep, the mover's
/// circle overlaps no other solid entity's circle at all.
pub proof fn lemma_sweep_no_overlap(
    sv: StateView,
    me: Id,
    mover: ThingView,
    target: Vec2,
    ignore: Option<Id>,
    j: int,
)
    requires
        mover.solid() != Solid::NonSolid,
        pos_clear(sv.things, sv.map.polylines, me, ignore, mover.pos(), mover.radius()),
        0 <= j < sv.things.len(),
        sv.things[j].value is Some,
        sv.things[j].value->Some_0.solid() == Solid::Solid,
        (Id { slot: j as usize, generation: sv.things[j].generation }) != me,
        ignore is Some ==> (Id { slot: j as usize, generation: sv.things[j].generation })
            != ignore->Some_0,
    ensures
        !circles_overlap(
            spec_sweep(sv, me, mover, target, ignore).0,
            mover.radius() as int,
            sv.things[j].value->Some_0.pos(),
            sv.things[j].value->Some_0.radius() as int,
        ),
{
    lemma_sweep_non_penetration(sv, me, mover, target, ignore);
    let end = spec_sweep(sv, me, mover, target, ignore).0;
    lemma_no_obstacle_from(sv.things, 0, j, me, ignore, end, mover.radius());
}

/// A sweep that reports `Clear` delivered the mover exactly to the
/// requested target: helper induction.
proof fn lemma_sweep_rec_clear_result(
    things: Seq<SlotView>,
    walls: Seq<Seq<Vec2>>,
    me: Id,
    ignore: Option<Id>,
    start: Vec2,
    delta: Vec2,
    r: i64,
    n: int,
    i: int,
    committed: Vec2,
)
    requires
        1 <= i <= n,
    ensures
        sweep_rec(things, walls, me, ignore, start, delta, r, n, i, committed).1
            == CollisionResult::Clear ==> sweep_rec(
            things,
            walls,
            me,
            ignore,
            start,
            delta,
            r,
            n,
            i,
            committed,
        ).0 == step_pos(start, delta, n, n),
    decreases n - i,
{
    let cand = step_pos(start, delta, n, i);
    let res = collide_at(things, walls, me, ignore, cand, r);
    if res == CollisionResult::Clear {
        assert(sweep_rec(things, walls, me, ignore, start, delta, r, n, i, committed)
            == sweep_rec(things, walls, me, ignore, start, delta, r, n, i + 1, cand));
        if i < n {
            lemma_sweep_rec_clear_result(
                things,
                walls,
                me,
                ignore,
                start,
                delta,
                r,
                n,
                i + 1,
                cand,
            );
        } else {
            assert(sweep_rec(things, walls, me, ignore, start, delta, r, n, i + 1, cand) == (
                cand,
                CollisionResult::Clear,
            ));
        }
    } else {
        assert(sweep_rec(things, walls, me, ignore, start, delta, r, n, i, committed) == (
            committed,
            res,
        ));
    }
}

/// A sweep that reports `Clear` ends exactly at the requested target.
pub proof fn lemma_sweep_clear_reaches_target(
    sv: StateView,
    me: Id,
    mover: ThingView,
    target: Vec2,
    ignore: Option<Id>,
)
    requires
        mover.pos().in_limit(COORD_LIMIT),
        target.in_limit(CAND_LIMIT),
    ensures
        spec_sweep(sv, me, mover, target, ignore).1 == CollisionResult::Clear ==> spec_sweep(
            sv,
            me,
            mover,
            target,
            ignore,
        ).0 == target,
{
    let start = mover.pos();
    if target == start {
    } else if mover.solid() == Solid::NonSolid {
    } else {
        let delta = Vec2 { x: (target.x - start.x) as i64, y: (target.y - start.y) as i64 };
        let r = mover.radius();
        let n = sweep_steps(delta, r);
        let sum = iabs(delta.x as int) + iabs(delta.y as int);
        let ms = if r / 2 >= 1 {
            r as int / 2
        } else {
            1int
        };
        assert(sum >= 1);
        assert(ms >= 1);
        assert(n >= 1) by {
            assert(sum + ms - 1 >= ms);
            vstd::arithmetic::div_mod::lemma_div_is_ordered(ms, sum + ms - 1, ms);
            vstd::arithmetic::div_mod::lemma_div_by_self(ms);
        }
        assert(step_pos(start, delta, n, n) == target) by {
            if delta.x >= 0 {
                vstd::arithmetic::div_mod::lemma_div_by_multiple(delta.x as int, n);
            } else {
                vstd::arithmetic::div_mod::lemma_div_by_multiple(-(delta.x as int), n);
            }
            if delta.y >= 0 {
                vstd::arithmetic::div_mod::lemma_div_by_multiple(delta.y as int, n);
            } else {
                vstd::arithmetic::div_mod::lemma_div_by_multiple(-(delta.y as int), n);
            }
        }
        lemma_sweep_rec_clear_result(
            sv.things,
            sv.map.polylines,
            me,
            ignore,
            start,
            delta,
            r,
            n,
            1,
            start,
        );
    }
}

// ---------------------------------------------------------------------
// Bounds enforcement and command application
// ---------------------------------------------------------------------
/// Where bounds enforcement puts a position: clamped into
/// `[MARGIN, width - MARGIN]` by `[2 * MARGIN, height - MARGIN]` (the
/// larger top margin keeps entities clear of the interface).
pub open spec fn spec_clamp_pos(p: Vec2, width: i64, height: i64) -> Vec2 {
    Vec2 {
        x: spec_clamp(p.x as int, MARGIN as int, width - MARGIN) as i64,
        y: spec_clamp(p.y as int, 2 * MARGIN as int, height - MARGIN) as i64,
    }
}

/// Clamp an entity into the world bounds; reports whether the position
/// had to change.
pub fn clamp_to_bounds(thing: &mut Thing, width: i64, height: i64) -> (clamped: bool)
    requires
        old(thing)@.pos().in_limit(CAND_LIMIT),
        2 * MARGIN <= width <= COORD_LIMIT,
        3 * MARGIN <= height <= COORD_LIMIT,
    ensures
        final(thing)@ == old(thing)@.with_pos(spec_clamp_pos(old(thing)@.pos(), width, height)),
        clamped == (spec_clamp_pos(old(thing)@.pos(), width, height) != old(thing)@.pos()),
        final(thing)@.pos().in_limit(COORD_LIMIT),
{
    let p = thing.pos();
    let nx = clamp_i64(p.x, MARGIN, width - MARGIN);
    let ny = clamp_i64(p.y, 2 * MARGIN, height - MARGIN);
    thing.set_pos(Vec2 { x: nx, y: ny });
    nx != p.x || ny != p.y
}

/// The position an alive player asks to move to under a command:
/// current position plus the movement delta scaled by the player's
/// speed.
pub open spec fn spec_move_target(p: PlayerView, input: Input) -> Vec2 {
    Vec2 {
        x: (p.pos.x + div_trunc(input.movement.x as int * p.speed as int, SCALE as int)) as i64,
        y: (p.pos.y + div_trunc(input.movement.y as int * p.speed as int, SCALE as int)) as i64,
    }
}

/// Exec mirror of one component of [`spec_move_target`].
fn scale_movement(m: i64, speed: i64) -> (r: i64)
    requires
        -MOVE_LIMIT <= m <= MOVE_LIMIT,
        0 <= speed <= SPEED_LIMIT,
    ensures
        r == div_trunc(m as int * speed as int, SCALE as int),
        -COORD_LIMIT <= r <= COORD_LIMIT,
{
    proof {
        lemma_mul_bound(m as int, speed as int, MOVE_LIMIT as int, SPEED_LIMIT as int);
        vstd::arithmetic::div_mod::lemma_div_pos_is_pos(iabs(m as int * speed as int), SCALE as int);
        vstd::arithmetic::div_mod::lemma_div_is_ordered(
            iabs(m as int * speed as int),
            MOVE_LIMIT as int * SPEED_LIMIT as int,
            SCALE as int,
        );
    }
    let prod: i64 = m * speed;
    if prod >= 0 {
        prod / SCALE
    } else {
        -((-prod) / SCALE)
    }
}

/// What one command does to the world: if it names an entity that still
/// resolves to an alive player, that player sweeps toward its requested
/// position and is clamped into bounds; any other command is a silent
/// no-op (a stale identifier means the entity is already gone).
pub open spec fn spec_apply_input(sv: StateView, input: Input) -> StateView {
    match input.thing_id {
        None => sv,
        Some(id) => {
            if id.slot < sv.things.len() && sv.things[id.slot as int].generation == id.generation
                && sv.things[id.slot as int].value is Some {
                match sv.things[id.slot as int].value->Some_0 {
                    ThingView::Player(p) => {
                        if p.hearts > 0 {
                            let target = spec_move_target(p, input);
                            let moved = spec_sweep(sv, id, ThingView::Player(p), target, None).0;
                            let fin = spec_clamp_pos(moved, sv.width, sv.height);
                            StateView {
                                things: sv.things.update(
                                    id.slot as int,
                                    SlotView {
                                        generation: id.generation,
                                        value: Some(ThingView::Player(PlayerView { pos: fin, ..p })),
                                    },
                                ),
                                ..sv
                            }
                        } else {
                            sv
                        }
                    },
                    ThingView::Projectile(_) => sv,
                }
            } else {
                sv
            }
        },
    }
}

/// Apply one command to the state. Pure with respect to the state and
/// the command: the server applies it authoritatively, the client
/// speculatively, with identical results.
pub fn apply_input(state: &mut State, input: &Input, authoritative: bool)
    requires
        old(state).wf(),
        input.wf(),
    ensures
        final(state)@ == spec_apply_input(old(state)@, *input),
        final(state).wf(),
{
    let id = match input.thing_id {
        Some(id) => id,
        None => {
            return ;
        },
    };
    let mut target_opt: Option<Vec2> = None;
    match state.things.get(id) {
        Some(t) => match t {
            Thing::Player(p) => {
                if p.hearts > 0 {
                    assert(state@.things[id.slot as int].value->Some_0.wf());
                    let mx = scale_movement(input.movement.x, p.speed);
                    let my = scale_movement(input.movement.y, p.speed);
                    target_opt = Some(Vec2 { x: p.pos.x + mx, y: p.pos.y + my });
                }
            },
            Thing::Projectile(_) => {},
        },
        None => {},
    }
    let target = match target_opt {
        Some(t) => t,
        None => {
            return ;
        },
    };
    let ghost old_view = state@;
    let ghost p_view = match old_view.things[id.slot as int].value->Some_0 {
        ThingView::Player(p) => p,
        ThingView::Projectile(_) => arbitrary(),
    };
    let reference = state.duplicate();
    let t = state.things.get_mut(id);
    move_thing_direct_sweep(id, t, target, &reference, None);
    clamp_to_bounds(t, state.width, state.height);
    proof {
        let moved = spec_sweep(old_view, id, ThingView::Player(p_view), target, None).0;
        let fin = spec_clamp_pos(moved, old_view.width, old_view.height);
        assert(final(t)@ == ThingView::Player(PlayerView { pos: fin, ..p_view }));
    }
    proof {
        assert(state@.things =~= spec_apply_input(old_view, *input).things);
        assert(state@ == spec_apply_input(old_view, *input));
    }
}

// ---------------------------------------------------------------------
// The deterministic step, phase by phase
// ---------------------------------------------------------------------
/// Saturating increment of a score counter.
pub open spec fn sat_inc(x: i32) -> i32 {
    if x < i32::MAX {
        (x + 1) as i32
    } else {
        x
    }
}

/// Phase one of the step: every player's ability cooldown decays toward
/// zero, never below it.
pub open spec fn cooldown_slot(sl: SlotView, dt: u64) -> SlotView {
    match sl.value {
        Some(ThingView::Player(p)) => SlotView {
            generation: sl.generation,
            value: Some(
                ThingView::Player(
                    PlayerView {
                        ability_cooldown: if p.ability_cooldown >= dt {
                            (p.ability_cooldown - dt) as u64
                        } else {
                            0u64
                        },
                        ..p
                    },
                ),
            ),
        },
        _ => sl,
    }
}

pub open spec fn spec_cooldown_pass(sv: StateView, dt: u64) -> StateView {
    StateView {
        things: Seq::new(sv.things.len(), |j: int| cooldown_slot(sv.things[j], dt)),
        ..sv
    }
}

fn cooldown_pass(state: &mut State, dt: u64)
    requires
        old(state)@.wf(),
    ensures
        final(state)@ == spec_cooldown_pass(old(state)@, dt),
        final(state)@.wf(),
{
    let n: usize = state.things.slots.len();
    let mut j: usize = 0;
    while j < n
        invariant
            n == state.things.slots@.len(),
            n == old(state).things.slots@.len(),
            j <= n,
            forall|i: int|
                j <= i < n ==> state.things.slots@[i] == old(state).things.slots@[i],
            forall|i: int|
                0 <= i < j ==> view_slot(#[trigger] state.things.slots@[i]) == cooldown_slot(
                    view_slot(old(state).things.slots@[i]),
                    dt,
                ),
            state.timestamp == old(state).timestamp,
            state.next_spawn == old(state).next_spawn,
            state.events@ == old(state).events@,
            state.map == old(state).map,
            state.width == old(state).width,
            state.height == old(state).height,
        decreases n - j,
    {
        let sl = &mut state.things.slots[j];
        match &mut sl.value {
            Some(t) => match t {
                Thing::Player(p) => {
                    if p.ability_cooldown >= dt {
                        p.ability_cooldown = p.ability_cooldown - dt;
                    } else {
                        p.ability_cooldown = 0;
                    }
                },
                Thing::Projectile(_) => {},
            },
            None => {},
        }
        j += 1;
    }
    proof {
        assert(state@.things =~= spec_cooldown_pass(old(state)@, dt).things);
        assert(state@ == spec_cooldown_pass(old(state)@, dt));
        assert forall|i: int| 0 <= i < state@.things.len() implies match (
        #[trigger] state@.things[i]).value {
            Some(t) => t.wf_at(COORD_LIMIT),
            None => true,
        } by {
            assert(state@.things[i] == cooldown_slot(old(state)@.things[i], dt));
        }
    }
}

/// Phase two of the step: each projectile with nonzero velocity sweeps
/// along its displacement for this slice against the pre-tick snapshot.
/// A projectile that hit an entity records the hit and is marked for
/// removal; one that hit a wall is marked for removal.
pub open spec fn spec_proj_step(
    acc: (StateView, Seq<Id>, Seq<(Id, Id)>),
    reference: StateView,
    dt: u64,
    j: int,
) -> (StateView, Seq<Id>, Seq<(Id, Id)>) {
    let sv = acc.0;
    match sv.things[j].value {
        Some(ThingView::Projectile(pr)) => {
            if pr.vel == (Vec2 { x: 0, y: 0 }) {
                acc
            } else {
                let id = Id { slot: j as usize, generation: sv.things[j].generation };
                let target = Vec2 {
                    x: (pr.pos.x + div_trunc(pr.vel.x as int * dt, 1000)) as i64,
                    y: (pr.pos.y + div_trunc(pr.vel.y as int * dt, 1000)) as i64,
                };
                let res = spec_sweep(reference, id, ThingView::Projectile(pr), target, Some(pr.owner));
                let sv2 = StateView {
                    things: sv.things.update(
                        j,
                        SlotView {
                            generation: id.generation,
                            value: Some(ThingView::Projectile(ProjectileThing { pos: res.0, ..pr })),
                        },
                    ),
                    ..sv
                };
                match res.1 {
                    CollisionResult::Clear => (sv2, acc.1, acc.2),
                    CollisionResult::Thing(tid) => (sv2, acc.1.push(id), acc.2.push((pr.owner, tid))),
                    CollisionResult::Wall(_, _) => (sv2, acc.1.push(id), acc.2),
                }
            }
        },
        _ => acc,
    }
}

pub open spec fn spec_proj_pass_upto(
    sv0: StateView,
    reference: StateView,
    dt: u64,
    j: int,
) -> (StateView, Seq<Id>, Seq<(Id, Id)>)
    decreases j,
{
    if j <= 0 {
        (sv0, Seq::empty(), Seq::empty())
    } else {
        spec_proj_step(spec_proj_pass_upto(sv0, reference, dt, j - 1), reference, dt, j - 1)
    }
}

pub open spec fn spec_proj_pass(sv0: StateView, reference: StateView, dt: u64) -> (
    StateView,
    Seq<Id>,
    Seq<(Id, Id)>,
) {
    spec_proj_pass_upto(sv0, reference, dt, sv0.things.len() as int)
}

/// The projectile pass only rewrites slots it has already visited, and
/// only the projectile's position; its lists grow by at most one entry
/// per visited slot.
proof fn lemma_proj_pass_prefix(sv0: StateView, reference: StateView, dt: u64, j: int)
    requires
        0 <= j <= sv0.things.len(),
    ensures
        ({
            let acc = spec_proj_pass_upto(sv0, reference, dt, j);
            &&& acc.0.things.len() == sv0.things.len()
            &&& forall|i: int| j <= i < sv0.things.len() ==> acc.0.things[i] == sv0.things[i]
            &&& acc.0.timestamp == sv0.timestamp
            &&& acc.0.next_spawn == sv0.next_spawn
            &&& acc.0.events == sv0.events
            &&& acc.0.map == sv0.map
            &&& acc.0.width == sv0.width
            &&& acc.0.height == sv0.height
            &&& acc.1.len() <= j
            &&& acc.2.len() <= j
        }),
    decreases j,
{
    if j > 0 {
        lemma_proj_pass_prefix(sv0, reference, dt, j - 1);
    }
}

fn projectile_pass(state: &mut State, reference: &State, dt: u64) -> (out: (Vec<Id>, Vec<(Id, Id)>))
    requires
        old(state)@.wf(),
        reference.wf(),
        dt <= DT_LIMIT,
    ensures
        ({
            let acc = spec_proj_pass(old(state)@, reference@, dt);
            &&& final(state)@ == acc.0
            &&& out.0@ == acc.1
            &&& out.1@ == acc.2
        }),
        final(state)@.wf_at(CAND_LIMIT),
        out.0@.len() <= old(state)@.things.len(),
        out.1@.len() <= old(state)@.things.len(),
{
    let ghost sv0 = state@;
    let mut removes: Vec<Id> = Vec::new();
    let mut hits: Vec<(Id, Id)> = Vec::new();
    let n: usize = state.things.slots.len();
    let mut j: usize = 0;
    while j < n
        invariant
            n == state.things.slots@.len(),
            n == sv0.things.len(),
            j <= n,
            sv0.wf(),
            reference.wf(),
            dt <= DT_LIMIT,
            forall|i: int| j <= i < n ==> view_slot(#[trigger] state.things.slots@[i]) == sv0.things[i],
            ({
                let acc = spec_proj_pass_upto(sv0, reference@, dt, j as int);
                &&& view_things(state.things) == acc.0.things
                &&& removes@ == acc.1
                &&& hits@ == acc.2
            }),
            state.timestamp == sv0.timestamp,
            state.next_spawn == sv0.next_spawn,
            state.events@ == sv0.events,
            state.map@ == sv0.map,
            state.width == sv0.width,
            state.height == sv0.height,
            state@.wf_at(CAND_LIMIT),
        decreases n - j,
    {
        let ghost acc = spec_proj_pass_upto(sv0, reference@, dt, j as int);
        proof {
            lemma_proj_pass_prefix(sv0, reference@, dt, j as int);
            assert(acc.0.things[j as int] == sv0.things[j as int]);
        }
        let generation: u64 = state.things.slots[j].generation;
        let mut target_opt: Option<(Vec2, Id)> = None;
        match &state.things.slots[j].value {
            Some(t) => match t {
                Thing::Projectile(pr) => {
                    if pr.vel.x != 0 || pr.vel.y != 0 {
                        assert(sv0.things[j as int].value->Some_0.wf());
                        let vx = scale_velocity(pr.vel.x, dt);
                        let vy = scale_velocity(pr.vel.y, dt);
                        target_opt = Some(
                            (Vec2 { x: pr.pos.x + vx, y: pr.pos.y + vy }, pr.owner),
                        );
                    }
                },
                Thing::Player(_) => {},
            },
            None => {},
        }
        match target_opt {
            Some((target, owner)) => {
                let id = Id { slot: j, generation };
                let sl = &mut state.things.slots[j];
                let res = match &mut sl.value {
                    Some(t) => move_thing_direct_sweep(id, t, target, reference, Some(owner)),
                    None => unreached(),
                };
                match res {
                    CollisionResult::Clear => {},
                    CollisionResult::Thing(tid) => {
                        removes.push(id);
                        hits.push((owner, tid));
                    },
                    CollisionResult::Wall(_, _) => {
                        removes.push(id);
                    },
                }
                proof {
                    let acc2 = spec_proj_pass_upto(sv0, reference@, dt, j as int + 1);
                    assert(view_things(state.things) =~= acc2.0.things);
                }
            },
            None => {
                proof {
                    let acc2 = spec_proj_pass_upto(sv0, reference@, dt, j as int + 1);
                    assert(view_things(state.things) =~= acc2.0.things);
                }
            },
        }
        j += 1;
    }
    proof {
        lemma_proj_pass_prefix(sv0, reference@, dt, n as int);
        assert(state@.things == view_things(state.things));
        assert(state@ == spec_proj_pass(sv0, reference@, dt).0);
    }
    (removes, hits)
}

/// Exec mirror of a velocity component scaled by the elapsed slice.
fn scale_velocity(v: i64, dt: u64) -> (r: i64)
    requires
        -VEL_LIMIT <= v <= VEL_LIMIT,
        dt <= DT_LIMIT,
    ensures
        r == div_trunc(v as int * dt as int, 1000),
        -COORD_LIMIT <= r <= COORD_LIMIT,
{
    proof {
        lemma_mul_bound(v as int, dt as int, VEL_LIMIT as int, DT_LIMIT as int);
        vstd::arithmetic::div_mod::lemma_div_pos_is_pos(iabs(v as int * dt as int), 1000);
        vstd::arithmetic::div_mod::lemma_div_is_ordered(
            iabs(v as int * dt as int),
            VEL_LIMIT as int * DT_LIMIT as int,
            1000,
        );
    }
    let prod: i64 = v * (dt as i64);
    if prod >= 0 {
        prod / 1000
    } else {
        -((-prod) / 1000)
    }
}

/// Credit the owner of a lethal hit with a kill, if the owner still
/// resolves to a player.
pub open spec fn spec_credit_kill(sv: StateView, owner: Id) -> StateView {
    if owner.slot < sv.things.len() && sv.things[owner.slot as int].generation == owner.generation
        && sv.things[owner.slot as int].value is Some {
        match sv.things[owner.slot as int].value->Some_0 {
            ThingView::Player(q) => StateView {
                things: sv.things.update(
                    owner.slot as int,
                    SlotView {
                        generation: owner.generation,
                        value: Some(ThingView::Player(PlayerView { kills: sat_inc(q.kills), ..q })),
                    },
                ),
                ..sv
            },
            ThingView::Projectile(_) => sv,
        }
    } else {
        sv
    }
}

/// Phase three of the step, one recorded hit at a time: an alive target
/// loses one heart; a target brought to zero dies — it loses solidity,
/// its respawn countdown starts at the fixed value, its deaths counter
/// and the owner's kills counter advance, and a `PlayerDied` event is
/// emitted at the death position. A stale target is a silent no-op.
pub open spec fn spec_damage_step(sv: StateView, owner: Id, target: Id) -> StateView {
    if target.slot < sv.things.len() && sv.things[target.slot as int].generation
        == target.generation && sv.things[target.slot as int].value is Some {
        match sv.things[target.slot as int].value->Some_0 {
            ThingView::Player(p) => {
                if p.hearts > 0 {
                    if p.hearts == 1 {
                        let p2 = PlayerView {
                            hearts: 0,
                            respawn_timer: RESPAWN_MS,
                            deaths: sat_inc(p.deaths),
                            solid: Solid::NonSolid,
                            ..p
                        };
                        let sv1 = StateView {
                            things: sv.things.update(
                                target.slot as int,
                                SlotView {
                                    generation: target.generation,
                                    value: Some(ThingView::Player(p2)),
                                },
                            ),
                            events: sv.events.push(
                                Event::PlayerDied { thing_id: target, pos: p.pos },
                            ),
                            ..sv
                        };
                        spec_credit_kill(sv1, owner)
                    } else {
                        StateView {
                            things: sv.things.update(
                                target.slot as int,
                                SlotView {
                                    generation: target.generation,
                                    value: Some(
                                        ThingView::Player(
                                            PlayerView { hearts: (p.hearts - 1) as i8, ..p },
                                        ),
                                    ),
                                },
                            ),
                            ..sv
                        }
                    }
                } else {
                    sv
                }
            },
            ThingView::Projectile(_) => sv,
        }
    } else {
        sv
    }
}

pub open spec fn spec_damage_pass_upto(sv0: StateView, hits: Seq<(Id, Id)>, k: int) -> StateView
    decreases k,
{
    if k <= 0 {
        sv0
    } else {
        let prev = spec_damage_pass_upto(sv0, hits, k - 1);
        spec_damage_step(prev, hits[k - 1].0, hits[k - 1].1)
    }
}

pub open spec fn spec_damage_pass(sv0: StateView, hits: Seq<(Id, Id)>) -> StateView {
    spec_damage_pass_upto(sv0, hits, hits.len() as int)
}

/// One damage step never shrinks the store and grows the event list by
/// at most one.
proof fn lemma_damage_pass_shape(sv0: StateView, hits: Seq<(Id, Id)>, k: int)
    requires
        0 <= k,
    ensures
        ({
            let sv = spec_damage_pass_upto(sv0, hits, k);
            &&& sv.things.len() == sv0.things.len()
            &&& sv.events.len() <= sv0.events.len() + k
            &&& sv.timestamp == sv0.timestamp
            &&& sv.next_spawn == sv0.next_spawn
            &&& sv.map == sv0.map
            &&& sv.width == sv0.width
            &&& sv.height == sv0.height
        }),
    decreases k,
{
    if k > 0 {
        lemma_damage_pass_shape(sv0, hits, k - 1);
    }
}

fn damage_pass(state: &mut State, hits: &Vec<(Id, Id)>)
    requires
        old(state)@.wf_at(CAND_LIMIT),
        old(state)@.events.len() + hits@.len() <= LEN_LIMIT,
    ensures
        final(state)@ == spec_damage_pass(old(state)@, hits@),
        final(state)@.wf_at(CAND_LIMIT),
{
    let ghost sv0 = state@;
    let m: usize = hits.len();
    let mut k: usize = 0;
    while k < m
        invariant
            m == hits@.len(),
            k <= m,
            sv0.wf_at(CAND_LIMIT),
            sv0.events.len() + m <= LEN_LIMIT,
            state@ == spec_damage_pass_upto(sv0, hits@, k as int),
            state@.wf_at(CAND_LIMIT),
        decreases m - k,
    {
        proof {
            lemma_damage_pass_shape(sv0, hits@, k as int);
        }
        let owner: Id = hits[k].0;
        let target: Id = hits[k].1;
        let mut died = false;
        let mut death_pos = Vec2 { x: 0, y: 0 };
        if state.things.contains(target) {
            let t = state.things.get_mut(target);
            match t {
                Thing::Player(p) => {
                    if p.hearts > 0 {
                        p.hearts = p.hearts - 1;
                        if p.hearts <= 0 {
                            p.respawn_timer = RESPAWN_MS;
                            p.deaths = if p.deaths < i32::MAX {
                                p.deaths + 1
                            } else {
                                p.deaths
                            };
                            p.solid = Solid::NonSolid;
                            death_pos = p.pos;
                            died = true;
                        }
                    }
                },
                Thing::Projectile(_) => {},
            }
            if died {
                state.events.push(Event::PlayerDied { thing_id: target, pos: death_pos });
                if state.things.contains(owner) {
                    let o = state.things.get_mut(owner);
                    match o {
                        Thing::Player(q) => {
                            q.kills = if q.kills < i32::MAX {
                                q.kills + 1
                            } else {
                                q.kills
                            };
                        },
                        Thing::Projectile(_) => {},
                    }
                }
            }
        }
        proof {
            let next = spec_damage_pass_upto(sv0, hits@, k as int + 1);
            assert(state@.things =~= next.things);
            assert(state@.events =~= next.events);
            assert(state@ == next);
        }
        k += 1;
    }
}

/// Phase four of the step: pick the spawn point the rotation cursor
/// designates. A non-negative cursor walks the spawn points round-robin
/// and wraps to `-1`; a `-1` cursor restarts at a drawn index (`starts`
/// records the draws).
pub open spec fn spec_pick_spawn(cursor: i16, spawns: Seq<Vec2>, starts: Seq<int>, used: int) -> (
    Vec2,
    i16,
    int,
) {
    let len = spawns.len() as int;
    if cursor >= 0 {
        let idx = cursor as int % len;
        let c1 = cursor as int + 1;
        (spawns[idx], (if c1 > len { -1int } else { c1 }) as i16, used)
    } else {
        let start = if 0 <= used < starts.len() && 0 <= starts[used] < len {
            starts[used]
        } else {
            0int
        };
        (spawns[start], (start + 1) as i16, used + 1)
    }
}

/// Phase four, one slot at a time: a dead player without a pending
/// spawn position is assigned the next one from the rotation; the
/// countdown ticks down; at zero or below the player respawns in place.
pub open spec fn spec_respawn_slot(
    sl: SlotView,
    dt: u64,
    cursor: i16,
    spawns: Seq<Vec2>,
    starts: Seq<int>,
    used: int,
) -> (SlotView, i16, int) {
    match sl.value {
        Some(ThingView::Player(p)) => {
            if p.hearts <= 0 {
                let picked = spec_pick_spawn(cursor, spawns, starts, used);
                let assigned = p.spawn_pos is None;
                let p1 = if assigned {
                    PlayerView { spawn_pos: Some(picked.0), ..p }
                } else {
                    p
                };
                let c1 = if assigned {
                    picked.1
                } else {
                    cursor
                };
                let u1 = if assigned {
                    picked.2
                } else {
                    used
                };
                let p2 = PlayerView { respawn_timer: (p1.respawn_timer - dt) as i64, ..p1 };
                let out = if p2.respawn_timer <= 0 {
                    ThingView::Player(p2).spec_spawn()
                } else {
                    ThingView::Player(p2)
                };
                (SlotView { generation: sl.generation, value: Some(out) }, c1, u1)
            } else {
                (sl, cursor, used)
            }
        },
        _ => (sl, cursor, used),
    }
}

pub open spec fn spec_respawn_pass_upto(sv0: StateView, dt: u64, starts: Seq<int>, j: int) -> (
    Seq<SlotView>,
    i16,
    int,
)
    decreases j,
{
    if j <= 0 {
        (sv0.things, sv0.next_spawn, 0int)
    } else {
        let prev = spec_respawn_pass_upto(sv0, dt, starts, j - 1);
        let step = spec_respawn_slot(
            prev.0[j - 1],
            dt,
            prev.1,
            sv0.map.spawn_points,
            starts,
            prev.2,
        );
        (prev.0.update(j - 1, step.0), step.1, step.2)
    }
}

pub open spec fn spec_respawn_pass(sv0: StateView, dt: u64, starts: Seq<int>) -> StateView {
    let done = spec_respawn_pass_upto(sv0, dt, starts, sv0.things.len() as int);
    StateView { things: done.0, next_spawn: done.1, ..sv0 }
}

/// The respawn fold consumes draws one at a time, never out of order.
proof fn lemma_respawn_used_monotone(sv0: StateView, dt: u64, starts: Seq<int>, j: int)
    requires
        0 <= j <= sv0.things.len(),
    ensures
        ({
            let r = spec_respawn_pass_upto(sv0, dt, starts, j);
            &&& 0 <= r.2 <= j
            &&& r.0.len() == sv0.things.len()
            &&& forall|i: int| j <= i < sv0.things.len() ==> r.0[i] == sv0.things[i]
        }),
    decreases j,
{
    if j > 0 {
        lemma_respawn_used_monotone(sv0, dt, starts, j - 1);
    }
}

/// Draws already appended are unaffected by appending another: the fold
/// over a prefix only ever reads draws it has consumed.
proof fn lemma_respawn_starts_extend(sv0: StateView, dt: u64, starts: Seq<int>, extra: int, j: int)
    requires
        0 <= j <= sv0.things.len(),
        spec_respawn_pass_upto(sv0, dt, starts, j).2 <= starts.len(),
    ensures
        spec_respawn_pass_upto(sv0, dt, starts.push(extra), j) == spec_respawn_pass_upto(
            sv0,
            dt,
            starts,
            j,
        ),
    decreases j,
{
    if j > 0 {
        lemma_respawn_used_monotone(sv0, dt, starts, j - 1);
        let prev = spec_respawn_pass_upto(sv0, dt, starts, j - 1);
        let cur = spec_respawn_pass_upto(sv0, dt, starts, j);
        let step = spec_respawn_slot(prev.0[j - 1], dt, prev.1, sv0.map.spawn_points, starts, prev.2);
        assert(cur.2 == step.2);
        assert(prev.2 <= step.2);
        lemma_respawn_starts_extend(sv0, dt, starts, extra, j - 1);
        let stepx = spec_respawn_slot(
            prev.0[j - 1],
            dt,
            prev.1,
            sv0.map.spawn_points,
            starts.push(extra),
            prev.2,
        );
        assert(step == stepx) by {
            match prev.0[j - 1].value {
                Some(ThingView::Player(pl)) => {
                    if pl.hearts <= 0 && pl.spawn_pos is None && prev.1 < 0 {
                        assert(step.2 == prev.2 + 1);
                        assert(prev.2 < starts.len());
                        assert(starts.push(extra)[prev.2] == starts[prev.2]);
                    }
                },
                _ => {},
            }
        }
    }
}

fn respawn_pass(state: &mut State, dt: u64) -> (starts: Ghost<Seq<int>>)
    requires
        old(state)@.wf_at(CAND_LIMIT),
        dt <= DT_LIMIT,
    ensures
        final(state)@ == spec_respawn_pass(old(state)@, dt, starts@),
        final(state)@.wf_at(CAND_LIMIT),
        forall|k: int|
            0 <= k < starts@.len() ==> 0 <= #[trigger] starts@[k] < old(
                state,
            )@.map.spawn_points.len(),
{
    let ghost sv0 = state@;
    let ghost spawns = sv0.map.spawn_points;
    let mut starts: Ghost<Seq<int>> = Ghost(Seq::empty());
    let ghost mut used: int = 0;
    let n: usize = state.things.slots.len();
    let mut j: usize = 0;
    while j < n
        invariant
            n == state.things.slots@.len(),
            n == sv0.things.len(),
            j <= n,
            sv0.wf_at(CAND_LIMIT),
            spawns == sv0.map.spawn_points,
            used == starts@.len(),
            forall|k: int| 0 <= k < starts@.len() ==> 0 <= #[trigger] starts@[k] < spawns.len(),
            ({
                let r = spec_respawn_pass_upto(sv0, dt, starts@, j as int);
                &&& view_things(state.things) == r.0
                &&& state.next_spawn == r.1
                &&& used == r.2
            }),
            state.timestamp == sv0.timestamp,
            state.events@ == sv0.events,
            state.map@ == sv0.map,
            state.width == sv0.width,
            state.height == sv0.height,
            dt <= DT_LIMIT,
            state@.wf_at(CAND_LIMIT),
        decreases n - j,
    {
        proof {
            lemma_respawn_used_monotone(sv0, dt, starts@, j as int);
            assert(view_slot(state.things.slots@[j as int]) == sv0.things[j as int]);
            assert(match sv0.things[j as int].value {
                Some(t) => t.wf_at(CAND_LIMIT),
                None => true,
            });
        }
        let mut is_dead = false;
        let mut needs_assign = false;
        match &state.things.slots[j].value {
            Some(t) => match t {
                Thing::Player(p) => {
                    if p.hearts <= 0 {
                        is_dead = true;
                        if p.spawn_pos.is_none() {
                            needs_assign = true;
                        }
                    }
                },
                Thing::Projectile(_) => {},
            },
            None => {},
        }
        if is_dead {
            let assigned: Option<Vec2> = if needs_assign {
                let ghost c0 = state.next_spawn;
                assert(1 <= state.map.spawn_points@.len());
                let pos = State::next_spawn_pos(&mut state.next_spawn, &state.map.spawn_points);
                proof {
                    if c0 == -1 {
                        let s = choose|s: int|
                            0 <= s < spawns.len() && pos == spawns[s] && state.next_spawn == s + 1;
                        lemma_respawn_starts_extend(sv0, dt, starts@, s, j as int);
                        starts@ = starts@.push(s);
                        used = used + 1;
                    }
                    let picked = spec_pick_spawn(c0, spawns, starts@, used - (if c0 == -1 { 1int } else { 0int }));
                    assert(pos == picked.0 && state.next_spawn == picked.1);
                }
                Some(pos)
            } else {
                None
            };
            let sl = &mut state.things.slots[j];
            match &mut sl.value {
                Some(t) => {
                    match t {
                        Thing::Player(p) => {
                            match assigned {
                                Some(pos) => { p.spawn_pos = Some(pos) },
                                None => {},
                            }
                            p.respawn_timer = p.respawn_timer - dt as i64;
                        },
                        Thing::Projectile(_) => {},
                    }
                    let do_spawn = match t {
                        Thing::Player(p) => p.respawn_timer <= 0,
                        Thing::Projectile(_) => false,
                    };
                    if do_spawn {
                        t.spawn();
                    }
                },
                None => {},
            }
        }
        proof {
            let r2 = spec_respawn_pass_upto(sv0, dt, starts@, j as int + 1);
            assert(view_things(state.things) =~= r2.0);
        }
        j += 1;
    }
    proof {
        assert(state@.things == view_things(state.things));
        assert(state@ == spec_respawn_pass(sv0, dt, starts@));
    }
    starts
}

/// Phase five of the step: every entity is clamped into the world
/// bounds; a projectile the clamp had to move is marked for removal.
pub open spec fn spec_bounds_step(
    acc: (Seq<SlotView>, Seq<Id>),
    width: i64,
    height: i64,
    j: int,
) -> (Seq<SlotView>, Seq<Id>) {
    let (things, removes) = acc;
    match things[j].value {
        Some(t) => {
            let cp = spec_clamp_pos(t.pos(), width, height);
            let things2 = things.update(
                j,
                SlotView { generation: things[j].generation, value: Some(t.with_pos(cp)) },
            );
            match t {
                ThingView::Projectile(_) => if cp != t.pos() {
                    (
                        things2,
                        removes.push(Id { slot: j as usize, generation: things[j].generation }),
                    )
                } else {
                    (things2, removes)
                },
                ThingView::Player(_) => (things2, removes),
            }
        },
        None => acc,
    }
}

pub open spec fn spec_bounds_pass_upto(
    sv0: StateView,
    removes0: Seq<Id>,
    j: int,
) -> (Seq<SlotView>, Seq<Id>)
    decreases j,
{
    if j <= 0 {
        (sv0.things, removes0)
    } else {
        spec_bounds_step(spec_bounds_pass_upto(sv0, removes0, j - 1), sv0.width, sv0.height, j - 1)
    }
}

pub open spec fn spec_bounds_pass(sv0: StateView, removes0: Seq<Id>) -> (StateView, Seq<Id>) {
    let done = spec_bounds_pass_upto(sv0, removes0, sv0.things.len() as int);
    (StateView { things: done.0, ..sv0 }, done.1)
}

proof fn lemma_bounds_pass_shape(sv0: StateView, removes0: Seq<Id>, j: int)
    requires
        0 <= j <= sv0.things.len(),
    ensures
        ({
            let r = spec_bounds_pass_upto(sv0, removes0, j);
            &&& r.0.len() == sv0.things.len()
            &&& forall|i: int| j <= i < sv0.things.len() ==> r.0[i] == sv0.things[i]
            &&& removes0.len() <= r.1.len() <= removes0.len() + j
        }),
    decreases j,
{
    if j > 0 {
        lemma_bounds_pass_shape(sv0, removes0, j - 1);
    }
}

fn bounds_pass(state: &mut State, removes: &mut Vec<Id>)
    requires
        old(state)@.wf_at(CAND_LIMIT),
    ensures
        ({
            let done = spec_bounds_pass(old(state)@, old(removes)@);
            &&& final(state)@ == done.0
            &&& final(removes)@ == done.1
        }),
        final(state)@.wf(),
        final(removes)@.len() <= old(removes)@.len() + old(state)@.things.len(),
{
    let ghost sv0 = state@;
    let ghost removes0 = removes@;
    let n: usize = state.things.slots.len();
    let mut j: usize = 0;
    while j < n
        invariant
            n == state.things.slots@.len(),
            n == sv0.things.len(),
            j <= n,
            sv0.wf_at(CAND_LIMIT),
            ({
                let r = spec_bounds_pass_upto(sv0, removes0, j as int);
                &&& view_things(state.things) == r.0
                &&& removes@ == r.1
            }),
            state.timestamp == sv0.timestamp,
            state.next_spawn == sv0.next_spawn,
            state.events@ == sv0.events,
            state.map@ == sv0.map,
            state.width == sv0.width,
            state.height == sv0.height,
            state@.wf_at(CAND_LIMIT),
            forall|i: int|
                0 <= i < j ==> match (#[trigger] state@.things[i]).value {
                    Some(t) => t.wf(),
                    None => true,
                },
        decreases n - j,
    {
        proof {
            lemma_bounds_pass_shape(sv0, removes0, j as int);
            assert(view_slot(state.things.slots@[j as int]) == sv0.things[j as int]);
        }
        let width: i64 = state.width;
        let height: i64 = state.height;
        let generation: u64 = state.things.slots[j].generation;
        let mut clamped_projectile = false;
        let sl = &mut state.things.slots[j];
        match &mut sl.value {
            Some(t) => {
                let clamped = clamp_to_bounds(t, width, height);
                if clamped {
                    match t {
                        Thing::Projectile(_) => {
                            clamped_projectile = true;
                        },
                        Thing::Player(_) => {},
                    }
                }
            },
            None => {},
        }
        if clamped_projectile {
            removes.push(Id { slot: j, generation });
        }
        proof {
            let r2 = spec_bounds_pass_upto(sv0, removes0, j as int + 1);
            assert(view_things(state.things) =~= r2.0);
            assert(removes@ =~= r2.1);
        }
        j += 1;
    }
    proof {
        lemma_bounds_pass_shape(sv0, removes0, n as int);
        assert(state@.things == view_things(state.things));
        assert(state@ == spec_bounds_pass(sv0, removes0).0);
    }
}

/// Phase six of the step: marked entities are removed; a removed
/// projectile leaves a `ProjectileHit` event at its last position. A
/// mark that no longer resolves (already removed) is a silent no-op.
pub open spec fn spec_remove_step(sv: StateView, id: Id) -> StateView {
    if id.slot < sv.things.len() && sv.things[id.slot as int].generation == id.generation
        && sv.things[id.slot as int].value is Some {
        let t = sv.things[id.slot as int].value->Some_0;
        let g2: u64 = if id.generation < u64::MAX {
            (id.generation + 1) as u64
        } else {
            id.generation
        };
        let sv1 = StateView {
            things: sv.things.update(id.slot as int, SlotView { generation: g2, value: None }),
            ..sv
        };
        match t {
            ThingView::Projectile(pr) => StateView {
                events: sv1.events.push(Event::ProjectileHit { pos: pr.pos }),
                ..sv1
            },
            ThingView::Player(_) => sv1,
        }
    } else {
        sv
    }
}

pub open spec fn spec_removal_pass_upto(sv0: StateView, removes: Seq<Id>, k: int) -> StateView
    decreases k,
{
    if k <= 0 {
        sv0
    } else {
        spec_remove_step(spec_removal_pass_upto(sv0, removes, k - 1), removes[k - 1])
    }
}

pub open spec fn spec_removal_pass(sv0: StateView, removes: Seq<Id>) -> StateView {
    spec_removal_pass_upto(sv0, removes, removes.len() as int)
}

proof fn lemma_removal_pass_shape(sv0: StateView, removes: Seq<Id>, k: int)
    requires
        0 <= k,
    ensures
        ({
            let sv = spec_removal_pass_upto(sv0, removes, k);
            &&& sv.things.len() == sv0.things.len()
            &&& sv.events.len() <= sv0.events.len() + k
            &&& sv.timestamp == sv0.timestamp
            &&& sv.next_spawn == sv0.next_spawn
            &&& sv.map == sv0.map
            &&& sv.width == sv0.width
            &&& sv.height == sv0.height
        }),
    decreases k,
{
    if k > 0 {
        lemma_removal_pass_shape(sv0, removes, k - 1);
    }
}

fn removal_pass(state: &mut State, removes: &Vec<Id>)
    requires
        old(state)@.wf(),
        old(state)@.events.len() + removes@.len() <= LEN_LIMIT,
    ensures
        final(state)@ == spec_removal_pass(old(state)@, removes@),
        final(state)@.wf(),
{
    let ghost sv0 = state@;
    let m: usize = removes.len();
    let mut k: usize = 0;
    while k < m
        invariant
            m == removes@.len(),
            k <= m,
            sv0.wf(),
            sv0.events.len() + m <= LEN_LIMIT,
            state@ == spec_removal_pass_upto(sv0, removes@, k as int),
            state@.wf(),
        decreases m - k,
    {
        proof {
            lemma_removal_pass_shape(sv0, removes@, k as int);
        }
        let id: Id = removes[k];
        let mut hit_pos: Option<Vec2> = None;
        match state.things.remove(id) {
            Some(t) => match t {
                Thing::Projectile(pr) => {
                    hit_pos = Some(pr.pos);
                },
                Thing::Player(_) => {},
            },
            None => {},
        }
        match hit_pos {
            Some(pos) => {
                state.events.push(Event::ProjectileHit { pos });
            },
            None => {},
        }
        proof {
            let next = spec_removal_pass_upto(sv0, removes@, k as int + 1);
            assert(state@.things =~= next.things);
            assert(state@.events =~= next.events);
            assert(state@ == next);
        }
        k += 1;
    }
}

/// The whole deterministic step, phase after phase, in the order that
/// defines the tick: cooldown decay, projectile sweeps, damage
/// resolution, respawn handling, bounds enforcement, and removal of
/// marked entities. `starts` records the random restarts of the spawn
/// rotation that the tick drew.
pub open spec fn spec_update_things(sv: StateView, dt: u64, starts: Seq<int>) -> StateView {
    let sv1 = spec_cooldown_pass(sv, dt);
    let moved = spec_proj_pass(sv1, sv, dt);
    let sv3 = spec_damage_pass(moved.0, moved.2);
    let sv4 = spec_respawn_pass(sv3, dt, starts);
    let bounded = spec_bounds_pass(sv4, moved.1);
    spec_removal_pass(bounded.0, bounded.1)
}

/// Advance the world by one tick.
pub fn update_things(state: &mut State, dt_ms: u64)
    requires
        old(state).wf(),
        dt_ms <= DT_LIMIT,
        old(state)@.events.len() + 3 * old(state)@.things.len() <= LEN_LIMIT,
    ensures
        final(state).wf(),
        final(state)@.things.len() == old(state)@.things.len(),
        final(state)@.timestamp == old(state)@.timestamp,
        final(state)@.map == old(state)@.map,
        final(state)@.width == old(state)@.width,
        final(state)@.height == old(state)@.height,
        forall|x: Id|
            #![trigger spec_dead_id(final(state)@.things, x)]
            spec_dead_id(old(state)@.things, x) ==> spec_dead_id(final(state)@.things, x),
        exists|starts: Seq<int>|
            (forall|k: int|
                0 <= k < starts.len() ==> 0 <= #[trigger] starts[k] < old(
                    state,
                )@.map.spawn_points.len()) && final(state)@ == spec_update_things(
                old(state)@,
                dt_ms,
                starts,
            ),
{
    let ghost sv0 = state@;
    let reference = state.duplicate();
    cooldown_pass(state, dt_ms);
    let ghost sv1 = spec_cooldown_pass(sv0, dt_ms);
    let pair = projectile_pass(state, &reference, dt_ms);
    let mut removes = pair.0;
    let hits = pair.1;
    let ghost moved = spec_proj_pass(sv1, sv0, dt_ms);
    proof {
        lemma_proj_pass_prefix(sv1, sv0, dt_ms, sv1.things.len() as int);
    }
    damage_pass(state, &hits);
    let ghost sv3 = spec_damage_pass(moved.0, moved.2);
    proof {
        lemma_damage_pass_shape(moved.0, moved.2, moved.2.len() as int);
    }
    let starts = respawn_pass(state, dt_ms);
    let ghost sv4 = spec_respawn_pass(sv3, dt_ms, starts@);
    proof {
        lemma_respawn_used_monotone(sv3, dt_ms, starts@, sv3.things.len() as int);
    }
    let ghost rb = removes@;
    bounds_pass(state, &mut removes);
    let ghost bounded = spec_bounds_pass(sv4, rb);
    proof {
        lemma_bounds_pass_shape(sv4, rb, sv4.things.len() as int);
    }
    removal_pass(state, &removes);
    proof {
        lemma_removal_pass_shape(bounded.0, bounded.1, bounded.1.len() as int);
        assert(state@ == spec_update_things(sv0, dt_ms, starts@));
        lemma_update_things_evolves(sv0, dt_ms, starts@);
        assert forall|x: Id|
            spec_dead_id(sv0.things, x) implies #[trigger] spec_dead_id(state@.things, x) by {
            lemma_evolve_preserves_dead(sv0.things, state@.things, x);
        }
    }
}

// ---------------------------------------------------------------------
// Command sequences, and the laws of damage and respawn
// ---------------------------------------------------------------------
/// Applying a command sequence in order: the common core of the server's
/// authoritative pass and the client's reconciliation replay. Both sides
/// produce exactly this fold, which is what makes them converge.
pub open spec fn spec_apply_inputs(sv: StateView, cmds: Seq<Input>) -> StateView
    decreases cmds.len(),
{
    if cmds.len() == 0 {
        sv
    } else {
        spec_apply_inputs(spec_apply_input(sv, cmds[0]), cmds.drop_first())
    }
}

/// Apply a command sequence in order.
pub fn apply_inputs(state: &mut State, cmds: &Vec<Input>)
    requires
        old(state).wf(),
        forall|k: int| 0 <= k < cmds@.len() ==> (#[trigger] cmds@[k]).wf(),
    ensures
        final(state)@ == spec_apply_inputs(old(state)@, cmds@),
        final(state).wf(),
{
    let n: usize = cmds.len();
    proof {
        assert(cmds@.skip(0) =~= cmds@);
    }
    let mut k: usize = 0;
    while k < n
        invariant
            n == cmds@.len(),
            k <= n,
            forall|j: int| 0 <= j < n ==> (#[trigger] cmds@[j]).wf(),
            state.wf(),
            spec_apply_inputs(old(state)@, cmds@) == spec_apply_inputs(
                state@,
                cmds@.skip(k as int),
            ),
        decreases n - k,
    {
        proof {
            assert(cmds@.skip(k as int)[0] == cmds@[k as int]);
            assert(cmds@.skip(k as int).drop_first() =~= cmds@.skip(k as int + 1));
        }
        let ghost prev = state@;
        let input = cmds[k];
        apply_input(state, &input, false);
        proof {
            assert(spec_apply_inputs(prev, cmds@.skip(k as int)) == spec_apply_inputs(
                state@,
                cmds@.skip(k as int + 1),
            ));
        }
        k += 1;
    }
    proof {
        assert(cmds@.skip(n as int) =~= Seq::<Input>::empty());
    }
}

/// A lethal hit: a hit on an alive player with one heart left brings the
/// hearts to zero, clears the solidity, arms the respawn countdown at
/// its fixed value, advances the death counter, and emits a
/// `PlayerDied` event at the death position.
pub proof fn lemma_lethal_hit(sv: StateView, owner: Id, target: Id)
    requires
        owner != target,
        target.slot < sv.things.len(),
        sv.things[target.slot as int].generation == target.generation,
        sv.things[target.slot as int].value matches Some(ThingView::Player(p)) && p.hearts == 1,
    ensures
        ({
            let p = sv.things[target.slot as int].value->Some_0->Player_0;
            let out = spec_damage_step(sv, owner, target);
            &&& out.things[target.slot as int].value matches Some(ThingView::Player(q)) && q == (
            PlayerView {
                hearts: 0,
                respawn_timer: RESPAWN_MS,
                deaths: sat_inc(p.deaths),
                solid: Solid::NonSolid,
                ..p
            })
            &&& out.events == sv.events.push(Event::PlayerDied { thing_id: target, pos: p.pos })
        }),
{
    let p = sv.things[target.slot as int].value->Some_0->Player_0;
    let out = spec_damage_step(sv, owner, target);
    if owner.slot < sv.things.len() && owner.slot != target.slot {
    }
}

/// A dead player cannot be hit again: the damage step leaves the state
/// untouched.
pub proof fn lemma_dead_player_not_hit(sv: StateView, owner: Id, target: Id)
    requires
        target.slot < sv.things.len() ==> (sv.things[target.slot as int].value matches Some(
            ThingView::Player(p),
        ) ==> p.hearts <= 0),
    ensures
        spec_damage_step(sv, owner, target) == sv,
{
}

/// Respawn correctness: once the countdown of a dead player with an
/// assigned spawn position elapses, the respawn pass places the player
/// exactly at that spawn position, restores the full heart count, and
/// makes the player solid again.
pub proof fn lemma_respawn_places_player(
    sl: SlotView,
    dt: u64,
    cursor: i16,
    spawns: Seq<Vec2>,
    starts: Seq<int>,
    used: int,
    sp: Vec2,
)
    requires
        dt <= DT_LIMIT,
        sl.value matches Some(ThingView::Player(p)) && p.hearts <= 0 && p.spawn_pos == Some(sp)
            && 0 <= p.respawn_timer <= dt,
    ensures
        ({
            let out = spec_respawn_slot(sl, dt, cursor, spawns, starts, used);
            &&& out.0.value matches Some(ThingView::Player(q))
            &&& out.0.value->Some_0->Player_0.pos == sp
            &&& out.0.value->Some_0->Player_0.hearts == FULL_HEARTS
            &&& out.0.value->Some_0->Player_0.solid == Solid::Solid
            &&& out.0.value->Some_0->Player_0.respawn_timer == 0
            &&& out.0.value->Some_0->Player_0.spawn_pos is None
            &&& out.1 == cursor
            &&& out.2 == used
        }),
{
}

/// Spawn rotation: while the cursor walks without a randomized restart,
/// two consecutive picks with more than one spawn point never land on
/// the same spawn index. (At a randomized restart — cursor `-1` — the
/// freshly drawn start may repeat the previous index.)
pub proof fn lemma_spawn_rotation(cursor: i16, spawns: Seq<Vec2>, starts: Seq<int>, used: int)
    requires
        0 <= cursor,
        cursor + 1 <= spawns.len(),
        2 <= spawns.len() <= crate::state::SPAWN_LIMIT,
    ensures
        ({
            let first = spec_pick_spawn(cursor, spawns, starts, used);
            let second = spec_pick_spawn(first.1, spawns, starts, first.2);
            &&& first.1 == cursor + 1
            &&& cursor as int % spawns.len() as int != (cursor + 1) as int % spawns.len() as int
            &&& first.0 == spawns[cursor as int % spawns.len() as int]
            &&& second.0 == spawns[(cursor + 1) as int % spawns.len() as int]
        }),
{
    let len = spawns.len() as int;
    vstd::arithmetic::div_mod::lemma_small_mod(cursor as nat, len as nat);
    if cursor + 1 < len {
        vstd::arithmetic::div_mod::lemma_small_mod((cursor + 1) as nat, len as nat);
    } else {
        assert((cursor + 1) as int % len == 0) by {
            vstd::arithmetic::div_mod::lemma_mod_self_0(len);
        }
    }
}

/// Small product and quotient bounds for interpolation offsets.
pub proof fn lemma_scale_small(v: int, alpha: int)
    requires
        -2000 <= v <= 2000,
        0 <= alpha <= 1000,
    ensures
        -2_000_000 <= v * alpha <= 2_000_000,
        -2000 <= div_trunc(v * alpha, 1000) <= 2000,
{
    lemma_mul_bound(v, alpha, 2000, 1000);
    vstd::arithmetic::div_mod::lemma_div_pos_is_pos(iabs(v * alpha), 1000);
    vstd::arithmetic::div_mod::lemma_div_is_ordered(iabs(v * alpha), 2_000_000, 1000);
}

/// A held direction scaled by a tick's milliseconds stays within one
/// command's movement bound.
pub proof fn lemma_mul_small(d: int, dt: int)
    requires
        -SCALE <= d <= SCALE,
        0 <= dt <= DT_LIMIT,
    ensures
        -(SCALE * DT_LIMIT) <= d * dt <= SCALE * DT_LIMIT,
        -MOVE_LIMIT <= div_trunc(d * dt, 1000) <= MOVE_LIMIT,
{
    lemma_mul_bound(d, dt, SCALE as int, DT_LIMIT as int);
    vstd::arithmetic::div_mod::lemma_div_pos_is_pos(iabs(d * dt), 1000);
    vstd::arithmetic::div_mod::lemma_div_is_ordered(iabs(d * dt), SCALE as int * DT_LIMIT as int, 1000);
}

/// Public face of the product bound, for callers outside this module.
pub proof fn lemma_mul_bound_pub(a: int, b: int, ma: int, mb: int)
    requires
        -ma <= a <= ma,
        -mb <= b <= mb,
    ensures
        -(ma * mb) <= a * b <= ma * mb,
{
    lemma_mul_bound(a, b, ma, mb);
}

/// Reconciliation convergence: applying a command sequence is the same
/// as applying a prefix (what the server has acknowledged) and then
/// replaying the remainder on the resulting state — which is exactly
/// what a reconciling client does. Both sides compute one fold of one
/// pure function, so they converge on the same state.
pub proof fn lemma_reconciliation_convergence(sv: StateView, cmds: Seq<Input>, split: int)
    requires
        0 <= split <= cmds.len(),
    ensures
        spec_apply_inputs(sv, cmds) == spec_apply_inputs(
            spec_apply_inputs(sv, cmds.take(split)),
            cmds.skip(split),
        ),
    decreases split,
{
    if split == 0 {
        assert(cmds.take(0) =~= Seq::<Input>::empty());
        assert(cmds.skip(0) =~= cmds);
    } else {
        let first = cmds[0];
        let rest = cmds.drop_first();
        assert(cmds.take(split)[0] == first);
        assert(cmds.take(split).drop_first() =~= rest.take(split - 1));
        assert(cmds.skip(split) =~= rest.skip(split - 1));
        lemma_reconciliation_convergence(spec_apply_input(sv, first), rest, split - 1);
    }
}

// ---------------------------------------------------------------------
// Dead identifiers stay dead across the step
// ---------------------------------------------------------------------
/// View-level mirror of the store's retirement: the identifier's slot
/// has moved past its generation, or sits vacant at the final
/// generation.
pub open spec fn spec_dead_id(things: Seq<SlotView>, id: Id) -> bool {
    id.slot < things.len() && {
        let s = things[id.slot as int];
        id.generation < s.generation || (s.generation == u64::MAX && s.value is None)
    }
}

/// View-level mirror of the store's evolution: generations never
/// regress, slots are never dropped, and a vacant slot at the final
/// generation stays vacant.
pub open spec fn things_evolve(a: Seq<SlotView>, b: Seq<SlotView>) -> bool {
    &&& a.len() <= b.len()
    &&& forall|i: int| 0 <= i < a.len() ==> a[i].generation <= (#[trigger] b[i]).generation
    &&& forall|i: int|
        0 <= i < a.len() && a[i].generation == u64::MAX && a[i].value is None ==> (
        #[trigger] b[i]).value is None
}

/// Evolution keeps dead identifiers dead.
pub proof fn lemma_evolve_preserves_dead(a: Seq<SlotView>, b: Seq<SlotView>, id: Id)
    requires
        things_evolve(a, b),
        spec_dead_id(a, id),
    ensures
        spec_dead_id(b, id),
{
}

pub proof fn lemma_evolve_trans(a: Seq<SlotView>, b: Seq<SlotView>, c: Seq<SlotView>)
    requires
        things_evolve(a, b),
        things_evolve(b, c),
    ensures
        things_evolve(a, c),
{
}

proof fn lemma_evolve_refl(a: Seq<SlotView>)
    ensures
        things_evolve(a, a),
{
}

/// Updating one slot without regressing its generation (and never
/// reviving an exhausted vacancy) is an evolution.
proof fn lemma_update_evolves(a: Seq<SlotView>, j: int, sl: SlotView)
    requires
        0 <= j < a.len(),
        a[j].generation <= sl.generation,
        (a[j].generation == u64::MAX && a[j].value is None) ==> sl.value is None,
    ensures
        things_evolve(a, a.update(j, sl)),
{
}

proof fn lemma_cooldown_pass_evolves(sv: StateView, dt: u64)
    ensures
        things_evolve(sv.things, spec_cooldown_pass(sv, dt).things),
{
    assert forall|i: int|
        0 <= i < sv.things.len() implies sv.things[i].generation <= (
    #[trigger] spec_cooldown_pass(sv, dt).things[i]).generation by {
        assert(spec_cooldown_pass(sv, dt).things[i] == cooldown_slot(sv.things[i], dt));
    }
    assert forall|i: int|
        0 <= i < sv.things.len() && sv.things[i].generation == u64::MAX && sv.things[i].value
            is None implies (#[trigger] spec_cooldown_pass(sv, dt).things[i]).value is None by {
        assert(spec_cooldown_pass(sv, dt).things[i] == cooldown_slot(sv.things[i], dt));
    }
}

proof fn lemma_proj_pass_evolves(sv0: StateView, reference: StateView, dt: u64, j: int)
    requires
        0 <= j <= sv0.things.len(),
    ensures
        things_evolve(sv0.things, spec_proj_pass_upto(sv0, reference, dt, j).0.things),
    decreases j,
{
    if j <= 0 {
        lemma_evolve_refl(sv0.things);
    } else {
        lemma_proj_pass_evolves(sv0, reference, dt, j - 1);
        lemma_proj_pass_prefix(sv0, reference, dt, j - 1);
        let prev = spec_proj_pass_upto(sv0, reference, dt, j - 1);
        let cur = spec_proj_pass_upto(sv0, reference, dt, j);
        if cur.0.things != prev.0.things {
            assert(cur.0.things == prev.0.things.update(
                j - 1,
                cur.0.things[j - 1],
            ));
            lemma_update_evolves(prev.0.things, j - 1, cur.0.things[j - 1]);
            lemma_evolve_trans(sv0.things, prev.0.things, cur.0.things);
        }
    }
}

proof fn lemma_damage_pass_evolves(sv0: StateView, hits: Seq<(Id, Id)>, k: int)
    requires
        0 <= k,
    ensures
        things_evolve(sv0.things, spec_damage_pass_upto(sv0, hits, k).things),
    decreases k,
{
    if k <= 0 {
        lemma_evolve_refl(sv0.things);
    } else {
        lemma_damage_pass_evolves(sv0, hits, k - 1);
        lemma_damage_pass_shape(sv0, hits, k - 1);
        let prev = spec_damage_pass_upto(sv0, hits, k - 1);
        let cur = spec_damage_step(prev, hits[k - 1].0, hits[k - 1].1);
        assert(things_evolve(prev.things, cur.things)) by {
            let target = hits[k - 1].1;
            let owner = hits[k - 1].0;
            if target.slot < prev.things.len() && prev.things[target.slot as int].generation
                == target.generation && prev.things[target.slot as int].value is Some {
                match prev.things[target.slot as int].value->Some_0 {
                    ThingView::Player(p) => {
                        if p.hearts > 0 {
                            let mid1 = prev.things.update(
                                target.slot as int,
                                cur.things[target.slot as int],
                            );
                            lemma_update_evolves(
                                prev.things,
                                target.slot as int,
                                prev.things[target.slot as int],
                            );
                            if p.hearts == 1 {
                                assert(cur.things =~= mid1 || cur.things =~= mid1.update(
                                    owner.slot as int,
                                    cur.things[owner.slot as int],
                                )) by {
                                    assert(true);
                                }
                            }
                            assert forall|i: int|
                                0 <= i < prev.things.len() implies prev.things[i].generation <= (
                            #[trigger] cur.things[i]).generation by {}
                            assert forall|i: int|
                                0 <= i < prev.things.len() && prev.things[i].generation
                                    == u64::MAX && prev.things[i].value is None implies (
                            #[trigger] cur.things[i]).value is None by {}
                        }
                    },
                    ThingView::Projectile(_) => {},
                }
            }
        }
        lemma_evolve_trans(sv0.things, prev.things, cur.things);
    }
}

proof fn lemma_respawn_pass_evolves(sv0: StateView, dt: u64, starts: Seq<int>, j: int)
    requires
        0 <= j <= sv0.things.len(),
    ensures
        things_evolve(sv0.things, spec_respawn_pass_upto(sv0, dt, starts, j).0),
    decreases j,
{
    if j <= 0 {
        lemma_evolve_refl(sv0.things);
    } else {
        lemma_respawn_pass_evolves(sv0, dt, starts, j - 1);
        lemma_respawn_used_monotone(sv0, dt, starts, j - 1);
        let prev = spec_respawn_pass_upto(sv0, dt, starts, j - 1);
        let step = spec_respawn_slot(
            prev.0[j - 1],
            dt,
            prev.1,
            sv0.map.spawn_points,
            starts,
            prev.2,
        );
        lemma_update_evolves(prev.0, j - 1, step.0);
        lemma_evolve_trans(sv0.things, prev.0, prev.0.update(j - 1, step.0));
    }
}

proof fn lemma_bounds_pass_evolves(sv0: StateView, removes0: Seq<Id>, j: int)
    requires
        0 <= j <= sv0.things.len(),
    ensures
        things_evolve(sv0.things, spec_bounds_pass_upto(sv0, removes0, j).0),
    decreases j,
{
    if j <= 0 {
        lemma_evolve_refl(sv0.things);
    } else {
        lemma_bounds_pass_evolves(sv0, removes0, j - 1);
        lemma_bounds_pass_shape(sv0, removes0, j - 1);
        let prev = spec_bounds_pass_upto(sv0, removes0, j - 1);
        let cur = spec_bounds_step(prev, sv0.width, sv0.height, j - 1);
        if cur.0 != prev.0 {
            assert(cur.0 == prev.0.update(j - 1, cur.0[j - 1]));
            lemma_update_evolves(prev.0, j - 1, cur.0[j - 1]);
            lemma_evolve_trans(sv0.things, prev.0, cur.0);
        }
    }
}

proof fn lemma_removal_pass_evolves(sv0: StateView, removes: Seq<Id>, k: int)
    requires
        0 <= k,
    ensures
        things_evolve(sv0.things, spec_removal_pass_upto(sv0, removes, k).things),
    decreases k,
{
    if k <= 0 {
        lemma_evolve_refl(sv0.things);
    } else {
        lemma_removal_pass_evolves(sv0, removes, k - 1);
        lemma_removal_pass_shape(sv0, removes, k - 1);
        let prev = spec_removal_pass_upto(sv0, removes, k - 1);
        let cur = spec_remove_step(prev, removes[k - 1]);
        if cur.things != prev.things {
            let id = removes[k - 1];
            assert(cur.things == prev.things.update(id.slot as int, cur.things[id.slot as int]));
            lemma_update_evolves(prev.things, id.slot as int, cur.things[id.slot as int]);
            lemma_evolve_trans(sv0.things, prev.things, cur.things);
        }
    }
}

/// The whole step is an evolution: a dead identifier before the step is
/// dead after it.
pub proof fn lemma_update_things_evolves(sv: StateView, dt: u64, starts: Seq<int>)
    ensures
        things_evolve(sv.things, spec_update_things(sv, dt, starts).things),
{
    let sv1 = spec_cooldown_pass(sv, dt);
    let moved = spec_proj_pass(sv1, sv, dt);
    let sv3 = spec_damage_pass(moved.0, moved.2);
    let sv4 = spec_respawn_pass(sv3, dt, starts);
    let bounded = spec_bounds_pass(sv4, moved.1);
    lemma_cooldown_pass_evolves(sv, dt);
    lemma_proj_pass_evolves(sv1, sv, dt, sv1.things.len() as int);
    lemma_damage_pass_evolves(moved.0, moved.2, moved.2.len() as int);
    lemma_damage_pass_shape(moved.0, moved.2, moved.2.len() as int);
    lemma_respawn_pass_evolves(sv3, dt, starts, sv3.things.len() as int);
    lemma_respawn_used_monotone(sv3, dt, starts, sv3.things.len() as int);
    lemma_bounds_pass_evolves(sv4, moved.1, sv4.things.len() as int);
    lemma_bounds_pass_shape(sv4, moved.1, sv4.things.len() as int);
    lemma_removal_pass_evolves(bounded.0, bounded.1, bounded.1.len() as int);
    lemma_evolve_trans(sv.things, sv1.things, moved.0.things);
    lemma_evolve_trans(sv.things, moved.0.things, sv3.things);
    lemma_evolve_trans(sv.things, sv3.things, sv4.things);
    lemma_evolve_trans(sv.things, sv4.things, bounded.0.things);
    lemma_evolve_trans(
        sv.things,
        bounded.0.things,
        spec_update_things(sv, dt, starts).things,
    );
}

/// One command is an evolution too: it moves an entity in place.
pub proof fn lemma_apply_input_evolves(sv: StateView, input: Input)
    ensures
        things_evolve(sv.things, spec_apply_input(sv, input).things),
{
    let out = spec_apply_input(sv, input);
    if out.things != sv.things {
        match input.thing_id {
            Some(id) => {
                if id.slot < sv.things.len() {
                    assert(out.things == sv.things.update(id.slot as int, out.things[id.slot as int]));
                    lemma_update_evolves(sv.things, id.slot as int, out.things[id.slot as int]);
                }
            },
            None => {},
        }
    } else {
        lemma_evolve_refl(sv.things);
    }
}

/// Public face of the single-slot evolution step.
pub proof fn lemma_update_evolves_pub(a: Seq<SlotView>, j: int, sl: SlotView)
    requires
        0 <= j < a.len(),
        a[j].generation <= sl.generation,
        (a[j].generation == u64::MAX && a[j].value is None) ==> sl.value is None,
    ensures
        things_evolve(a, a.update(j, sl)),
{
    lemma_update_evolves(a, j, sl);
}

/// Store-level evolution is view-level evolution.
pub proof fn lemma_store_evolve_view(a: crate::store::Store<Thing>, b: crate::store::Store<Thing>)
    requires
        a.evolves_to(b),
    ensures
        things_evolve(view_things(a), view_things(b)),
{
    assert forall|i: int|
        0 <= i < view_things(a).len() implies view_things(a)[i].generation <= (
    #[trigger] view_things(b)[i]).generation by {
        assert(view_things(a)[i] == view_slot(a.slots@[i]));
        assert(view_things(b)[i] == view_slot(b.slots@[i]));
    }
    assert forall|i: int|
        0 <= i < view_things(a).len() && view_things(a)[i].generation == u64::MAX && view_things(
            a,
        )[i].value is None implies (#[trigger] view_things(b)[i]).value is None by {
        assert(view_things(a)[i] == view_slot(a.slots@[i]));
        assert(view_things(b)[i] == view_slot(b.slots@[i]));
    }
}

} // verus!
