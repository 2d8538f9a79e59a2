//! Game entities: players and projectiles.
//!
//! Times are milliseconds, positions and radii fixed-point milli-units.
//! Each entity type has a mathematical view; the player's view replaces
//! the display name by its character sequence, so that contracts compare
//! entities by value.

use vstd::prelude::*;

use crate::geom::{div_trunc, spec_dist_sq, Vec2, COORD_LIMIT, RADIUS_MAX, SPEED_LIMIT, VEL_LIMIT};
use crate::store::Id;

verus! {

/// Radius of a player's circle (milli-units).
pub const PLAYER_RADIUS: i64 = 500;

/// Movement speed of a player (milli-units per second).
pub const PLAYER_SPEED: i64 = 7500;

/// Radius of a projectile's circle (milli-units).
pub const PROJECTILE_RADIUS: i64 = 250;

/// Speed of a fired projectile (milli-units per second).
pub const PROJECTILE_SPEED: i64 = 20_000;

/// Hearts a player spawns with.
pub const FULL_HEARTS: i8 = 3;

/// Countdown from death to respawn (milliseconds).
pub const RESPAWN_MS: i64 = 3000;

/// Cooldown between two uses of the fire ability (milliseconds).
pub const ABILITY_COOLDOWN_MS: u64 = 250;

/// Upper bound on any timer a well-formed entity carries (milliseconds).
pub const TIMER_LIMIT: i64 = 1_000_000_000;

/// Upper bound on the encoded length of a display name (bytes).
pub const NAME_LIMIT: usize = 256;

/// Collision participation class of an entity.
#[derive(Clone, Copy, PartialEq, Eq, Structural, Debug)]
pub enum Solid {
    /// No collision influence at all.
    NonSolid,
    /// Influences only its own movement; others ignore it.
    Partial,
    /// Mutually blocking.
    Solid,
}

impl Default for Solid {
    fn default() -> (r: Solid)
        ensures
            r == Solid::Solid,
    {
        Solid::Solid
    }
}

/// A projectile in flight. Velocity is in milli-units per second.
#[derive(Clone, Copy, PartialEq, Eq, Structural, Debug)]
pub struct ProjectileThing {
    pub pos: Vec2,
    pub radius: i64,
    pub solid: Solid,
    pub vel: Vec2,
    pub owner: Id,
}

/// A player entity.
#[derive(Clone, PartialEq, Debug)]
pub struct PlayerThing {
    pub pos: Vec2,
    pub radius: i64,
    pub solid: Solid,
    pub hearts: i8,
    /// Remaining countdown until respawn, when dead (milliseconds).
    pub respawn_timer: i64,
    /// Remaining cooldown of the fire ability (milliseconds).
    pub ability_cooldown: u64,
    /// Movement speed (milli-units per second).
    pub speed: i64,
    pub deaths: i32,
    pub kills: i32,
    pub no_interpolation: bool,
    pub name: String,
    pub spawn_pos: Option<Vec2>,
}

/// Mathematical view of a player: the name becomes its character
/// sequence, every other field is already plain data.
pub struct PlayerView {
    pub pos: Vec2,
    pub radius: i64,
    pub solid: Solid,
    pub hearts: i8,
    pub respawn_timer: i64,
    pub ability_cooldown: u64,
    pub speed: i64,
    pub deaths: i32,
    pub kills: i32,
    pub no_interpolation: bool,
    pub name: Seq<char>,
    pub spawn_pos: Option<Vec2>,
}

impl View for PlayerThing {
    type V = PlayerView;

    open spec fn view(&self) -> PlayerView {
        PlayerView {
            pos: self.pos,
            radius: self.radius,
            solid: self.solid,
            hearts: self.hearts,
            respawn_timer: self.respawn_timer,
            ability_cooldown: self.ability_cooldown,
            speed: self.speed,
            deaths: self.deaths,
            kills: self.kills,
            no_interpolation: self.no_interpolation,
            name: self.name@,
            spawn_pos: self.spawn_pos,
        }
    }
}

impl PlayerThing {
    pub open spec fn spec_is_alive(self) -> bool {
        self.hearts > 0
    }

    /// A player is alive exactly when hearts remain.
    pub fn is_alive(&self) -> (r: bool)
        ensures
            r == self.spec_is_alive(),
    {
        self.hearts > 0
    }

    pub open spec fn wf(self) -> bool {
        self@.wf()
    }
}

impl PlayerView {
    pub open spec fn spec_is_alive(self) -> bool {
        self.hearts > 0
    }

    /// Well-formed, with positions admitted up to `lim` (the sweep may
    /// leave a position beyond the steady-state bound until the bounds
    /// pass clamps it).
    pub open spec fn wf_at(self, lim: i64) -> bool {
        &&& self.pos.in_limit(lim)
        &&& 2 <= self.radius <= RADIUS_MAX
        &&& 0 <= self.hearts
        &&& 0 <= self.respawn_timer <= TIMER_LIMIT
        &&& self.ability_cooldown <= TIMER_LIMIT
        &&& 0 <= self.speed <= SPEED_LIMIT
        &&& vstd::utf8::encode_utf8(self.name).len() <= NAME_LIMIT
        &&& match self.spawn_pos {
            Some(p) => p.in_limit(COORD_LIMIT),
            None => true,
        }
        // a dead player takes no part in collision
        &&& self.hearts <= 0 ==> self.solid == Solid::NonSolid
    }

    pub open spec fn wf(self) -> bool {
        self.wf_at(COORD_LIMIT)
    }
}

impl ProjectileThing {
    pub open spec fn wf_at(self, lim: i64) -> bool {
        &&& self.pos.in_limit(lim)
        &&& 2 <= self.radius <= RADIUS_MAX
        &&& self.vel.in_limit(VEL_LIMIT)
    }

    pub open spec fn wf(self) -> bool {
        self.wf_at(COORD_LIMIT)
    }
}

/// Any simulated entity.
#[derive(Clone, PartialEq, Debug)]
pub enum Thing {
    Player(PlayerThing),
    Projectile(ProjectileThing),
}

/// Mathematical view of an entity.
pub enum ThingView {
    Player(PlayerView),
    Projectile(ProjectileThing),
}

impl View for Thing {
    type V = ThingView;

    open spec fn view(&self) -> ThingView {
        match self {
            Thing::Player(p) => ThingView::Player(p@),
            Thing::Projectile(p) => ThingView::Projectile(*p),
        }
    }
}

impl ThingView {
    pub open spec fn pos(self) -> Vec2 {
        match self {
            ThingView::Player(p) => p.pos,
            ThingView::Projectile(p) => p.pos,
        }
    }

    pub open spec fn radius(self) -> i64 {
        match self {
            ThingView::Player(p) => p.radius,
            ThingView::Projectile(p) => p.radius,
        }
    }

    pub open spec fn solid(self) -> Solid {
        match self {
            ThingView::Player(p) => p.solid,
            ThingView::Projectile(p) => p.solid,
        }
    }

    /// The same entity, moved to `p`.
    pub open spec fn with_pos(self, p: Vec2) -> ThingView {
        match self {
            ThingView::Player(t) => ThingView::Player(PlayerView { pos: p, ..t }),
            ThingView::Projectile(t) => ThingView::Projectile(ProjectileThing { pos: p, ..t }),
        }
    }

    /// A freshly spawned copy of this entity (players only): placed at its
    /// pending spawn position, made solid, hearts restored, timers
    /// cleared.
    pub open spec fn spec_spawn(self) -> ThingView {
        match self {
            ThingView::Player(p) => ThingView::Player(
                PlayerView {
                    pos: match p.spawn_pos {
                        Some(sp) => sp,
                        None => Vec2 { x: 0, y: 0 },
                    },
                    spawn_pos: None,
                    solid: Solid::Solid,
                    hearts: FULL_HEARTS,
                    respawn_timer: 0,
                    ..p
                },
            ),
            ThingView::Projectile(_) => self,
        }
    }
}

impl ThingView {
    pub open spec fn wf_at(self, lim: i64) -> bool {
        match self {
            ThingView::Player(p) => p.wf_at(lim),
            ThingView::Projectile(p) => p.wf_at(lim),
        }
    }

    pub open spec fn wf(self) -> bool {
        self.wf_at(COORD_LIMIT)
    }
}

impl Thing {
    pub open spec fn wf(self) -> bool {
        self@.wf()
    }

    /// A new player entity. It starts dead (no hearts, not solid) with
    /// the respawn countdown armed, and is placed by the next respawn
    /// pass.
    pub fn new_player(name: &str) -> (t: Thing)
        ensures
            t@ == ThingView::Player(
                PlayerView {
                    pos: Vec2 { x: 0, y: 0 },
                    radius: PLAYER_RADIUS,
                    solid: Solid::NonSolid,
                    hearts: 0,
                    respawn_timer: RESPAWN_MS,
                    ability_cooldown: 0,
                    speed: PLAYER_SPEED,
                    deaths: 0,
                    kills: 0,
                    no_interpolation: false,
                    name: name@,
                    spawn_pos: None,
                },
            ),
            vstd::utf8::encode_utf8(name@).len() <= NAME_LIMIT ==> t.wf(),
    {
        Thing::Player(
            PlayerThing {
                pos: Vec2 { x: 0, y: 0 },
                radius: PLAYER_RADIUS,
                solid: Solid::NonSolid,
                hearts: 0,
                respawn_timer: RESPAWN_MS,
                ability_cooldown: 0,
                speed: PLAYER_SPEED,
                deaths: 0,
                kills: 0,
                no_interpolation: false,
                name: String::from_str(name),
                spawn_pos: None,
            },
        )
    }

    /// Respawn this entity in place (players only): see
    /// [`ThingView::spec_spawn`].
    pub fn spawn(&mut self)
        ensures
            final(self)@ == old(self)@.spec_spawn(),
            old(self).wf() ==> final(self).wf(),
    {
        match self {
            Thing::Player(p) => {
                p.pos = match p.spawn_pos {
                    Some(sp) => sp,
                    None => Vec2 { x: 0, y: 0 },
                };
                p.spawn_pos = None;
                p.solid = Solid::Solid;
                p.hearts = FULL_HEARTS;
                p.respawn_timer = 0;
            },
            Thing::Projectile(_) => {},
        }
    }

    /// A new projectile owned by `owner`, partially solid so that it
    /// never blocks anyone else.
    pub fn new_projectile(pos: Vec2, vel: Vec2, owner: Id) -> (t: Thing)
        ensures
            t@ == ThingView::Projectile(
                ProjectileThing { pos, radius: PROJECTILE_RADIUS, solid: Solid::Partial, vel, owner },
            ),
            pos.in_limit(COORD_LIMIT) && vel.in_limit(VEL_LIMIT) ==> t.wf(),
    {
        Thing::Projectile(
            ProjectileThing { pos, radius: PROJECTILE_RADIUS, solid: Solid::Partial, vel, owner },
        )
    }

    pub fn pos(&self) -> (p: Vec2)
        ensures
            p == self@.pos(),
    {
        match self {
            Thing::Player(t) => t.pos,
            Thing::Projectile(t) => t.pos,
        }
    }

    /// The display name; projectiles have none.
    pub fn name(&self) -> (n: &str)
        ensures
            match self@ {
                ThingView::Player(p) => n@ == p.name,
                ThingView::Projectile(_) => n@ == Seq::<char>::empty(),
            },
    {
        let n = match self {
            Thing::Player(t) => t.name.as_str(),
            Thing::Projectile(_) => "",
        };
        proof {
            reveal_strlit("");
            assert(""@ =~= Seq::<char>::empty());
        }
        n
    }

    pub fn radius(&self) -> (r: i64)
        ensures
            r == self@.radius(),
    {
        match self {
            Thing::Player(t) => t.radius,
            Thing::Projectile(t) => t.radius,
        }
    }

    pub fn solid(&self) -> (s: Solid)
        ensures
            s == self@.solid(),
    {
        match self {
            Thing::Player(t) => t.solid,
            Thing::Projectile(t) => t.solid,
        }
    }

    /// Overwrite the solidity class.
    pub fn set_solid(&mut self, s: Solid)
        ensures
            final(self)@ == match old(self)@ {
                ThingView::Player(p) => ThingView::Player(PlayerView { solid: s, ..p }),
                ThingView::Projectile(p) => ThingView::Projectile(
                    ProjectileThing { solid: s, ..p },
                ),
            },
    {
        match self {
            Thing::Player(t) => t.solid = s,
            Thing::Projectile(t) => t.solid = s,
        }
    }

    /// Overwrite the position.
    pub fn set_pos(&mut self, p: Vec2)
        ensures
            final(self)@ == old(self)@.with_pos(p),
    {
        match self {
            Thing::Player(t) => t.pos = p,
            Thing::Projectile(t) => t.pos = p,
        }
    }

    /// Mutable access to the solidity class.
    pub fn solid_mut(&mut self) -> (s: &mut Solid)
        ensures
            *s == old(self)@.solid(),
            final(self)@ == (match old(self)@ {
                ThingView::Player(p) => ThingView::Player(PlayerView { solid: *final(s), ..p }),
                ThingView::Projectile(p) => ThingView::Projectile(
                    ProjectileThing { solid: *final(s), ..p },
                ),
            }),
    {
        match self {
            Thing::Player(t) => &mut t.solid,
            Thing::Projectile(t) => &mut t.solid,
        }
    }

    /// Mutable access to the position.
    pub fn pos_mut(&mut self) -> (p: &mut Vec2)
        ensures
            *p == old(self)@.pos(),
            final(self)@ == old(self)@.with_pos(*final(p)),
    {
        match self {
            Thing::Player(t) => &mut t.pos,
            Thing::Projectile(t) => &mut t.pos,
        }
    }

    /// A value copy with the same view.
    pub fn duplicate(&self) -> (t: Thing)
        ensures
            t@ == self@,
    {
        match self {
            Thing::Player(p) => Thing::Player(
                PlayerThing {
                    pos: p.pos,
                    radius: p.radius,
                    solid: p.solid,
                    hearts: p.hearts,
                    respawn_timer: p.respawn_timer,
                    ability_cooldown: p.ability_cooldown,
                    speed: p.speed,
                    deaths: p.deaths,
                    kills: p.kills,
                    no_interpolation: p.no_interpolation,
                    name: p.name.clone(),
                    spawn_pos: p.spawn_pos,
                },
            ),
            Thing::Projectile(p) => Thing::Projectile(*p),
        }
    }

    /// Should the renderer skip interpolation for this entity?
    pub fn no_interpolate(&self) -> (r: bool)
        ensures
            r == match self@ {
                ThingView::Player(p) => p.no_interpolation,
                ThingView::Projectile(_) => false,
            },
    {
        match self {
            Thing::Player(p) => p.no_interpolation,
            Thing::Projectile(_) => false,
        }
    }
}

/// Positional delta beyond which interpolation snaps to the current
/// position instead of smearing a teleport (milli-units).
pub const LERP_SNAP: i64 = 2000;

/// Where to draw an entity between two snapshots: the previous position
/// moved `alpha` of the way toward the current one — unless the two
/// positions are a teleport apart, in which case the current position is
/// used exactly.
pub open spec fn spec_lerp_pos(prev: Vec2, cur: Vec2, alpha_milli: i64) -> Vec2 {
    if spec_dist_sq(cur, prev) < LERP_SNAP * LERP_SNAP {
        Vec2 {
            x: (prev.x + div_trunc((cur.x - prev.x) * alpha_milli, 1000)) as i64,
            y: (prev.y + div_trunc((cur.y - prev.y) * alpha_milli, 1000)) as i64,
        }
    } else {
        cur
    }
}

impl Thing {
    /// Interpolated render position between the previous snapshot's
    /// entity and this one. A positional delta at or beyond `LERP_SNAP`
    /// yields the current position exactly.
    pub fn lerp_pos(&self, prev: &Thing, alpha_milli: i64) -> (r: Vec2)
        requires
            0 <= alpha_milli <= 1000,
            self@.pos().in_limit(COORD_LIMIT),
            prev@.pos().in_limit(COORD_LIMIT),
        ensures
            r == spec_lerp_pos(prev@.pos(), self@.pos(), alpha_milli),
            spec_dist_sq(self@.pos(), prev@.pos()) >= LERP_SNAP * LERP_SNAP ==> r == self@.pos(),
    {
        let cur = self.pos();
        let pv = prev.pos();
        let d2 = crate::geom::dist_sq(cur, pv);
        proof {
            crate::geom::lemma_square_bound(LERP_SNAP as int, LERP_SNAP as int);
        }
        if d2 < LERP_SNAP * LERP_SNAP {
            let vx: i64 = cur.x - pv.x;
            let vy: i64 = cur.y - pv.y;
            proof {
                assert(vx * vx <= spec_dist_sq(cur, pv)) by (nonlinear_arith)
                    requires
                        vx == cur.x - pv.x,
                        vy == cur.y - pv.y,
                        spec_dist_sq(cur, pv) == vx * vx + vy * vy,
                ;
                assert(vy * vy <= spec_dist_sq(cur, pv)) by (nonlinear_arith)
                    requires
                        vx == cur.x - pv.x,
                        vy == cur.y - pv.y,
                        spec_dist_sq(cur, pv) == vx * vx + vy * vy,
                ;
                assert(-LERP_SNAP <= vx <= LERP_SNAP) by (nonlinear_arith)
                    requires
                        vx * vx < LERP_SNAP * LERP_SNAP,
                        LERP_SNAP == 2000,
                ;
                assert(-LERP_SNAP <= vy <= LERP_SNAP) by (nonlinear_arith)
                    requires
                        vy * vy < LERP_SNAP * LERP_SNAP,
                        LERP_SNAP == 2000,
                ;
                crate::simulation::lemma_scale_small(vx as int, alpha_milli as int);
                crate::simulation::lemma_scale_small(vy as int, alpha_milli as int);
            }
            let ox: i64 = {
                let prod: i64 = vx * alpha_milli;
                if prod >= 0 {
                    prod / 1000
                } else {
                    -((-prod) / 1000)
                }
            };
            let oy: i64 = {
                let prod: i64 = vy * alpha_milli;
                if prod >= 0 {
                    prod / 1000
                } else {
                    -((-prod) / 1000)
                }
            };
            Vec2 { x: pv.x + ox, y: pv.y + oy }
        } else {
            cur
        }
    }
}

} // verus!
