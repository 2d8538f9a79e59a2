//! World state: map geometry, the entity store, per-tick events,
//! bookkeeping, and the bounded history of recent states.

use vstd::prelude::*;

use crate::geom::{Vec2, COORD_LIMIT};
use crate::store::{Id, Slot, Store};
use crate::thing::{Thing, ThingView};

verus! {

/// Bounds margin that every entity is clamped into (milli-units; the top
/// margin is twice this).
pub const MARGIN: i64 = 1000;

/// The history buffer starts evicting once it is longer than this.
pub const HISTORY_LIMIT: usize = 20;

/// Upper bound on the number of spawn points (so the cursor fits `i16`).
pub const SPAWN_LIMIT: usize = 10_000;

/// Every collection in a well-formed state is shorter than this, so
/// counts fit the codec's 32-bit length fields.
pub const LEN_LIMIT: usize = 0xffff_ffff;

/// Transient per-tick happening, consumed once by the presentation layer.
#[derive(Clone, Copy, PartialEq, Eq, Structural, Debug)]
pub enum Event {
    PlayerDied { thing_id: Id, pos: Vec2 },
    ProjectileHit { pos: Vec2 },
    ProjectileFired { pos: Vec2 },
}

/// A wall: an ordered point sequence, implicitly closed by joining the
/// last point back to the first.
#[derive(Clone, PartialEq, Debug)]
pub struct Polyline {
    pub points: Vec<Vec2>,
}

impl View for Polyline {
    type V = Seq<Vec2>;

    open spec fn view(&self) -> Seq<Vec2> {
        self.points@
    }
}

/// Immutable per-match geometry: walls and spawn points.
#[derive(Clone, PartialEq, Debug)]
pub struct GameMap {
    pub polylines: Vec<Polyline>,
    pub spawn_points: Vec<Vec2>,
}

/// Mathematical view of the map.
pub struct MapView {
    pub polylines: Seq<Seq<Vec2>>,
    pub spawn_points: Seq<Vec2>,
}

impl View for GameMap {
    type V = MapView;

    open spec fn view(&self) -> MapView {
        MapView {
            polylines: Seq::new(self.polylines@.len(), |i: int| self.polylines@[i]@),
            spawn_points: self.spawn_points@,
        }
    }
}

impl MapView {
    /// Spawn points must exist, and lie inside the clamp region of a
    /// `width` by `height` world so that respawning never places a player
    /// out of bounds.
    pub open spec fn wf(self, width: i64, height: i64) -> bool {
        &&& self.polylines.len() <= LEN_LIMIT
        &&& forall|i: int|
            0 <= i < self.polylines.len() ==> (#[trigger] self.polylines[i]).len() <= LEN_LIMIT
        &&& forall|i: int, j: int|
            0 <= i < self.polylines.len() && 0 <= j < self.polylines[i].len() ==> (
            #[trigger] self.polylines[i][j]).in_limit(COORD_LIMIT)
        &&& 1 <= self.spawn_points.len() <= SPAWN_LIMIT
        &&& forall|i: int|
            0 <= i < self.spawn_points.len() ==> {
                let p = #[trigger] self.spawn_points[i];
                MARGIN <= p.x <= width - MARGIN && 2 * MARGIN <= p.y <= height - MARGIN
            }
    }
}

impl GameMap {
    pub fn new() -> (m: GameMap)
        ensures
            m@.polylines.len() == 0,
            m@.spawn_points.len() == 0,
    {
        GameMap { polylines: Vec::new(), spawn_points: Vec::new() }
    }
}

/// View of one storage slot.
pub struct SlotView {
    pub generation: u64,
    pub value: Option<ThingView>,
}

pub open spec fn view_slot(s: Slot<Thing>) -> SlotView {
    SlotView {
        generation: s.generation,
        value: match s.value {
            Some(t) => Some(t@),
            None => None,
        },
    }
}

pub open spec fn view_things(s: Store<Thing>) -> Seq<SlotView> {
    Seq::new(s.slots@.len(), |i: int| view_slot(s.slots@[i]))
}

/// The whole replicated world state.
#[derive(PartialEq, Debug)]
pub struct State {
    /// Server time of the last tick (milliseconds).
    pub timestamp: u64,
    /// Spawn rotation cursor; `-1` asks for a randomized restart.
    pub next_spawn: i16,
    pub things: Store<Thing>,
    pub events: Vec<Event>,
    pub map: GameMap,
    /// World bounds (milli-units).
    pub width: i64,
    pub height: i64,
}

/// Mathematical view of the whole state: what the codec encodes and what
/// every simulation contract speaks about.
pub struct StateView {
    pub timestamp: u64,
    pub next_spawn: i16,
    pub things: Seq<SlotView>,
    pub events: Seq<Event>,
    pub map: MapView,
    pub width: i64,
    pub height: i64,
}

impl View for State {
    type V = StateView;

    open spec fn view(&self) -> StateView {
        StateView {
            timestamp: self.timestamp,
            next_spawn: self.next_spawn,
            things: view_things(self.things),
            events: self.events@,
            map: self.map@,
            width: self.width,
            height: self.height,
        }
    }
}

impl StateView {
    /// Well-formed, with entity positions admitted up to `lim`; in the
    /// middle of a tick the sweep may leave a position beyond the
    /// steady-state bound until the bounds pass clamps it.
    pub open spec fn wf_at(self, lim: i64) -> bool {
        &&& 2 * MARGIN <= self.width <= COORD_LIMIT
        &&& 3 * MARGIN <= self.height <= COORD_LIMIT
        &&& self.things.len() <= LEN_LIMIT
        &&& forall|i: int|
            0 <= i < self.things.len() ==> match (#[trigger] self.things[i]).value {
                Some(t) => t.wf_at(lim),
                None => true,
            }
        &&& self.events.len() <= LEN_LIMIT
        &&& self.map.wf(self.width, self.height)
        &&& -1 <= self.next_spawn <= self.map.spawn_points.len()
    }

    pub open spec fn wf(self) -> bool {
        self.wf_at(COORD_LIMIT)
    }
}

impl State {
    pub open spec fn wf(self) -> bool {
        self@.wf()
    }

    /// Pick the next spawn position: a round-robin walk over the spawn
    /// points, restarted at a random place whenever the cursor reads
    /// `-1`.
    pub fn next_spawn_pos(next_spawn: &mut i16, spawn_points: &Vec<Vec2>) -> (r: Vec2)
        requires
            1 <= spawn_points@.len() <= SPAWN_LIMIT,
            -1 <= *old(next_spawn) <= spawn_points@.len(),
        ensures
            exists|i: int| 0 <= i < spawn_points@.len() && r == spawn_points@[i],
            -1 <= *final(next_spawn) <= spawn_points@.len(),
            *old(next_spawn) >= 0 ==> {
                &&& r == spawn_points@[*old(next_spawn) as int % spawn_points@.len() as int]
                &&& *final(next_spawn) == if *old(next_spawn) + 1 > spawn_points@.len() {
                    -1int
                } else {
                    *old(next_spawn) + 1
                }
            },
            *old(next_spawn) == -1 ==> exists|s: int|
                0 <= s < spawn_points@.len() && r == spawn_points@[s] && *final(next_spawn) == s
                    + 1,
    {
        let len: usize = spawn_points.len();
        let ghost seeded_fresh: bool = *next_spawn == -1;
        if *next_spawn == -1 {
            let d: i16 = rand::random::<i16>();
            let m: i16 = d % (len as i16);
            *next_spawn = if m < 0 {
                m + len as i16
            } else {
                m
            };
            assert(0 <= *next_spawn < len as i16);
        }
        let c: usize = *next_spawn as usize;
        let i: usize = c % len;
        proof {
            if c < len {
                vstd::arithmetic::div_mod::lemma_small_mod(c as nat, len as nat);
            }
        }
        *next_spawn = *next_spawn + 1;
        if *next_spawn as usize > len {
            *next_spawn = -1;
        }
        let r = spawn_points[i];
        proof {
            if seeded_fresh {
                assert((i as int) < spawn_points@.len() && r == spawn_points@[i as int]
                    && *next_spawn == i as int + 1);
            }
        }
        r
    }

    /// A fresh match state with the built-in map.
    pub fn new() -> (s: State)
        ensures
            s@ == initial_state_view(),
            s.wf(),
    {
        let mut polys: Vec<Polyline> = Vec::new();
        polys.push(
            Polyline {
                points: three_points(
                    Vec2 { x: 7000, y: 8000 },
                    Vec2 { x: 10_000, y: 7000 },
                    Vec2 { x: 9000, y: 13_000 },
                ),
            },
        );
        polys.push(
            Polyline {
                points: three_points(
                    Vec2 { x: 30_000, y: 15_000 },
                    Vec2 { x: 35_000, y: 16_000 },
                    Vec2 { x: 32_000, y: 22_000 },
                ),
            },
        );
        polys.push(
            Polyline {
                points: three_points(
                    Vec2 { x: 5000, y: 25_000 },
                    Vec2 { x: 10_000, y: 25_000 },
                    Vec2 { x: 15_000, y: 21_000 },
                ),
            },
        );
        let mut quad: Vec<Vec2> = three_points(
            Vec2 { x: 21_000, y: 5000 },
            Vec2 { x: 29_000, y: 5000 },
            Vec2 { x: 27_000, y: 15_000 },
        );
        quad.push(Vec2 { x: 22_000, y: 16_000 });
        polys.push(Polyline { points: quad });

        let mut spawns: Vec<Vec2> = Vec::new();
        spawns.push(Vec2 { x: 2000, y: 3000 });
        spawns.push(Vec2 { x: 19_000, y: 15_000 });
        spawns.push(Vec2 { x: 38_000, y: 28_000 });
        spawns.push(Vec2 { x: 19_000, y: 28_000 });
        spawns.push(Vec2 { x: 19_000, y: 3000 });
        spawns.push(Vec2 { x: 39_000, y: 3000 });
        spawns.push(Vec2 { x: 2000, y: 28_000 });
        spawns.push(Vec2 { x: 2000, y: 15_000 });
        spawns.push(Vec2 { x: 38_000, y: 15_000 });

        let s = State {
            timestamp: 0,
            next_spawn: -1,
            things: Store::new(),
            events: Vec::new(),
            map: GameMap { polylines: polys, spawn_points: spawns },
            width: 40_000,
            height: 30_000,
        };
        proof {
            assert(s@.map.polylines =~~= initial_state_view().map.polylines);
            assert(s@.map.spawn_points =~= initial_state_view().map.spawn_points);
            assert(s@.things =~= initial_state_view().things);
            assert(s@.events =~= initial_state_view().events);
            assert(s@ == initial_state_view());
        }
        s
    }
}

impl State {
    /// A value copy with the same view, used to snapshot the state for
    /// delta bases and history entries.
    pub fn duplicate(&self) -> (s: State)
        ensures
            s@ == self@,
    {
        let n: usize = self.things.slots.len();
        let mut slots: Vec<Slot<Thing>> = Vec::new();
        let mut i: usize = 0;
        while i < n
            invariant
                n == self.things.slots@.len(),
                i <= n,
                slots@.len() == i,
                forall|j: int| 0 <= j < i ==> view_slot(#[trigger] slots@[j]) == view_slot(
                    self.things.slots@[j],
                ),
            decreases n - i,
        {
            let src = &self.things.slots[i];
            let value: Option<Thing> = match &src.value {
                Some(t) => Some(t.duplicate()),
                None => None,
            };
            slots.push(Slot { generation: src.generation, value });
            i += 1;
        }

        let m: usize = self.map.polylines.len();
        let mut polylines: Vec<Polyline> = Vec::new();
        let mut k: usize = 0;
        while k < m
            invariant
                m == self.map.polylines@.len(),
                k <= m,
                polylines@.len() == k,
                forall|j: int| 0 <= j < k ==> (#[trigger] polylines@[j])@
                    == self.map.polylines@[j]@,
            decreases m - k,
        {
            polylines.push(Polyline { points: copy_vec(&self.map.polylines[k].points) });
            k += 1;
        }

        let s = State {
            timestamp: self.timestamp,
            next_spawn: self.next_spawn,
            things: Store { slots },
            events: copy_vec(&self.events),
            map: GameMap { polylines, spawn_points: copy_vec(&self.map.spawn_points) },
            width: self.width,
            height: self.height,
        };
        proof {
            assert(s@.things =~= self@.things);
            assert(s@.map.polylines =~= self@.map.polylines);
            assert(s@ == self@);
        }
        s
    }
}

/// Element-wise copy of a vector of plain values.
pub fn copy_vec<T: Copy>(v: &Vec<T>) -> (r: Vec<T>)
    ensures
        r@ == v@,
{
    let n: usize = v.len();
    let mut r: Vec<T> = Vec::new();
    let mut i: usize = 0;
    while i < n
        invariant
            n == v@.len(),
            i <= n,
            r@ =~= v@.subrange(0, i as int),
        decreases n - i,
    {
        r.push(v[i]);
        i += 1;
    }
    proof {
        assert(r@ =~= v@);
    }
    r
}

/// Bounded buffer of recent states: the anchor for render interpolation
/// and the base for delta reconstruction.
#[derive(PartialEq, Debug)]
pub struct StateHistory {
    pub history: Vec<State>,
    pub default_state: State,
}

impl StateHistory {
    /// Views of the remembered states, oldest first.
    pub open spec fn views(self) -> Seq<StateView> {
        Seq::new(self.history@.len(), |i: int| self.history@[i]@)
    }

    /// The state handed out when the buffer is too short.
    pub open spec fn default_view(self) -> StateView {
        self.default_state@
    }

    pub fn new() -> (h: StateHistory)
        ensures
            h.views().len() == 0,
            h.default_view() == initial_state_view(),
    {
        StateHistory { history: Vec::new(), default_state: State::new() }
    }

    /// Append a state; once the buffer is longer than `HISTORY_LIMIT`,
    /// the oldest entry is evicted first.
    pub fn remember(&mut self, state: State)
        ensures
            final(self).default_view() == old(self).default_view(),
            old(self).views().len() <= HISTORY_LIMIT ==> final(self).views() == old(
                self,
            ).views().push(state@),
            old(self).views().len() > HISTORY_LIMIT ==> final(self).views() == old(
                self,
            ).views().drop_first().push(state@),
    {
        if self.history.len() > HISTORY_LIMIT {
            self.history.remove(0);
        }
        self.history.push(state);
        proof {
            if old(self).views().len() <= HISTORY_LIMIT {
                assert(self.views() =~= old(self).views().push(state@));
            } else {
                assert(self.views() =~= old(self).views().drop_first().push(state@));
            }
        }
    }

    pub fn len(&self) -> (n: usize)
        ensures
            n == self.views().len(),
    {
        self.history.len()
    }

    /// The newest remembered state, or the default state if none exists.
    pub fn current(&self) -> (s: &State)
        ensures
            self.views().len() > 0 ==> s@ == self.views().last(),
            self.views().len() == 0 ==> s@ == self.default_view(),
    {
        if self.history.len() > 0 {
            &self.history[self.history.len() - 1]
        } else {
            &self.default_state
        }
    }

    /// The second-newest remembered state, or the default state if the
    /// buffer is too short.
    pub fn prev(&self) -> (s: &State)
        ensures
            self.views().len() >= 2 ==> s@ == self.views()[self.views().len() - 2],
            self.views().len() < 2 ==> s@ == self.default_view(),
    {
        if self.history.len() >= 2 {
            &self.history[self.history.len() - 2]
        } else {
            &self.default_state
        }
    }

    pub fn clear(&mut self)
        ensures
            final(self).views().len() == 0,
            final(self).default_view() == old(self).default_view(),
    {
        self.history.clear();
    }
}

/// Build a three-point polyline corner.
fn three_points(a: Vec2, b: Vec2, c: Vec2) -> (r: Vec<Vec2>)
    ensures
        r@ =~= seq![a, b, c],
{
    let mut v: Vec<Vec2> = Vec::new();
    v.push(a);
    v.push(b);
    v.push(c);
    v
}

/// The view every fresh match state has.
pub open spec fn initial_state_view() -> StateView {
    StateView {
        timestamp: 0,
        next_spawn: -1i16,
        things: Seq::empty(),
        events: Seq::empty(),
        map: MapView {
            polylines: seq![
                seq![
                    Vec2 { x: 7000, y: 8000 },
                    Vec2 { x: 10_000, y: 7000 },
                    Vec2 { x: 9000, y: 13_000 },
                ],
                seq![
                    Vec2 { x: 30_000, y: 15_000 },
                    Vec2 { x: 35_000, y: 16_000 },
                    Vec2 { x: 32_000, y: 22_000 },
                ],
                seq![
                    Vec2 { x: 5000, y: 25_000 },
                    Vec2 { x: 10_000, y: 25_000 },
                    Vec2 { x: 15_000, y: 21_000 },
                ],
                seq![
                    Vec2 { x: 21_000, y: 5000 },
                    Vec2 { x: 29_000, y: 5000 },
                    Vec2 { x: 27_000, y: 15_000 },
                    Vec2 { x: 22_000, y: 16_000 },
                ],
            ],
            spawn_points: seq![
                Vec2 { x: 2000, y: 3000 },
                Vec2 { x: 19_000, y: 15_000 },
                Vec2 { x: 38_000, y: 28_000 },
                Vec2 { x: 19_000, y: 28_000 },
                Vec2 { x: 19_000, y: 3000 },
                Vec2 { x: 39_000, y: 3000 },
                Vec2 { x: 2000, y: 28_000 },
                Vec2 { x: 2000, y: 15_000 },
                Vec2 { x: 38_000, y: 15_000 },
            ],
        },
        width: 40_000,
        height: 30_000,
    }
}

impl State {
    /// Runtime well-formedness check, used to validate states that
    /// arrive over the wire before the simulation touches them.
    pub fn check_wf(&self) -> (r: bool)
        ensures
            r == self.wf(),
    {
        if !(2 * MARGIN <= self.width && self.width <= COORD_LIMIT && 3 * MARGIN <= self.height
            && self.height <= COORD_LIMIT) {
            return false;
        }
        if self.things.slots.len() > LEN_LIMIT || self.events.len() > LEN_LIMIT {
            return false;
        }
        let n: usize = self.things.slots.len();
        let mut j: usize = 0;
        while j < n
            invariant
                n == self@.things.len(),
                n == self.things.slots@.len(),
                j <= n,
                forall|i: int|
                    0 <= i < j ==> match (#[trigger] self@.things[i]).value {
                        Some(t) => t.wf(),
                        None => true,
                    },
            decreases n - j,
        {
            let ok: bool = match &self.things.slots[j].value {
                Some(t) => check_thing_wf(t),
                None => true,
            };
            if !ok {
                proof {
                    assert(view_slot(self.things.slots@[j as int]) == self@.things[j as int]);
                    assert(!self.wf());
                }
                return false;
            }
            j += 1;
        }
        if !check_map_wf(&self.map, self.width, self.height) {
            return false;
        }
        let ok_cursor: bool = if self.next_spawn == -1 {
            true
        } else if self.next_spawn >= 0 {
            (self.next_spawn as usize) <= self.map.spawn_points.len()
        } else {
            false
        };
        if !ok_cursor {
            return false;
        }
        true
    }
}

/// Runtime check of one entity's well-formedness.
pub fn check_thing_wf(t: &Thing) -> (r: bool)
    ensures
        r == t.wf(),
{
    match t {
        Thing::Player(p) => {
            p.pos.x >= -COORD_LIMIT && p.pos.x <= COORD_LIMIT && p.pos.y >= -COORD_LIMIT && p.pos.y
                <= COORD_LIMIT && 2 <= p.radius && p.radius <= crate::geom::RADIUS_MAX && 0
                <= p.hearts && 0 <= p.respawn_timer && p.respawn_timer <= crate::thing::TIMER_LIMIT
                && p.ability_cooldown <= crate::thing::TIMER_LIMIT as u64 && 0 <= p.speed
                && p.speed <= crate::geom::SPEED_LIMIT && p.name.as_str().as_bytes_vec().len()
                <= crate::thing::NAME_LIMIT && (match p.spawn_pos {
                Some(sp) => sp.x >= -COORD_LIMIT && sp.x <= COORD_LIMIT && sp.y >= -COORD_LIMIT
                    && sp.y <= COORD_LIMIT,
                None => true,
            }) && (p.hearts > 0 || matches!(p.solid, crate::thing::Solid::NonSolid))
        },
        Thing::Projectile(p) => {
            p.pos.x >= -COORD_LIMIT && p.pos.x <= COORD_LIMIT && p.pos.y >= -COORD_LIMIT && p.pos.y
                <= COORD_LIMIT && 2 <= p.radius && p.radius <= crate::geom::RADIUS_MAX && p.vel.x
                >= -crate::geom::VEL_LIMIT && p.vel.x <= crate::geom::VEL_LIMIT && p.vel.y
                >= -crate::geom::VEL_LIMIT && p.vel.y <= crate::geom::VEL_LIMIT
        },
    }
}

/// Runtime check of the map's well-formedness for the given bounds.
pub fn check_map_wf(map: &GameMap, width: i64, height: i64) -> (r: bool)
    requires
        2 * MARGIN <= width <= COORD_LIMIT,
        3 * MARGIN <= height <= COORD_LIMIT,
    ensures
        r == map@.wf(width, height),
{
    if map.polylines.len() > LEN_LIMIT {
        return false;
    }
    let np: usize = map.polylines.len();
    let mut i: usize = 0;
    while i < np
        invariant
            np == map@.polylines.len(),
            np == map.polylines@.len(),
            i <= np,
            forall|a: int|
                0 <= a < i ==> (#[trigger] map@.polylines[a]).len() <= LEN_LIMIT,
            forall|a: int, b: int|
                0 <= a < i && 0 <= b < map@.polylines[a].len() ==> (
                #[trigger] map@.polylines[a][b]).in_limit(COORD_LIMIT),
        decreases np - i,
    {
        let pts = &map.polylines[i].points;
        proof {
            assert(pts@ == map@.polylines[i as int]);
        }
        if pts.len() > LEN_LIMIT {
            proof {
                assert(!map@.wf(width, height));
            }
            return false;
        }
        let m: usize = pts.len();
        let mut b: usize = 0;
        while b < m
            invariant
                i < map.polylines@.len(),
                pts@ == map@.polylines[i as int],
                m == pts@.len(),
                b <= m,
                forall|c: int| 0 <= c < b ==> (#[trigger] pts@[c]).in_limit(COORD_LIMIT),
            decreases m - b,
        {
            let q = pts[b];
            if !(q.x >= -COORD_LIMIT && q.x <= COORD_LIMIT && q.y >= -COORD_LIMIT && q.y
                <= COORD_LIMIT) {
                return false;
            }
            b += 1;
        }
        i += 1;
    }
    if map.spawn_points.len() < 1 || map.spawn_points.len() > SPAWN_LIMIT {
        return false;
    }
    let ns: usize = map.spawn_points.len();
    let mut k: usize = 0;
    while k < ns
        invariant
            2 * MARGIN <= width <= COORD_LIMIT,
            3 * MARGIN <= height <= COORD_LIMIT,
            ns == map@.spawn_points.len(),
            ns == map.spawn_points@.len(),
            k <= ns,
            forall|a: int|
                0 <= a < k ==> {
                    let q = #[trigger] map@.spawn_points[a];
                    MARGIN <= q.x <= width - MARGIN && 2 * MARGIN <= q.y <= height - MARGIN
                },
        decreases ns - k,
    {
        let q = map.spawn_points[k];
        if !(MARGIN <= q.x && q.x <= width - MARGIN && 2 * MARGIN <= q.y && q.y <= height
            - MARGIN) {
            return false;
        }
        k += 1;
    }
    true
}

} // verus!
