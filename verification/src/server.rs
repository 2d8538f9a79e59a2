//! Server tick orchestrator: population policy, command intake, the
//! deterministic step, and per-client delta dispatch.

use vstd::prelude::*;
use vstd::string::StringSliceAdditionalSpecFns;

use crate::bot::Bot;
use crate::geom::{lemma_square_bound, Vec2, COORD_LIMIT, DT_LIMIT, VEL_LIMIT};
use crate::msg::CustomMsg;
use crate::player::{Input, Player, PlayerSessionView};
use crate::simulation::{
    apply_input, iabs, lemma_apply_input_evolves, lemma_evolve_preserves_dead,
    lemma_store_evolve_view, lemma_update_evolves_pub, spec_apply_inputs, spec_dead_id,
    update_things,
};
use crate::state::{view_slot, Event, SlotView, State, StateHistory, StateView, HISTORY_LIMIT, LEN_LIMIT};
use crate::store::Id;
use crate::thing::{
    PlayerView, ProjectileThing, Solid, Thing, ThingView, ABILITY_COOLDOWN_MS, NAME_LIMIT,
    PROJECTILE_SPEED,
};

verus! {

/// Authoritative ticks per second.
pub const TICK_RATE: u64 = 20;

/// Bots kept alive while fewer than two humans are connected.
pub const BOT_COUNT: usize = 4;

/// Hard cap on simulated entities.
pub const THING_CAP: usize = 1_000_000;

/// Hard cap on connected sessions.
pub const PLAYER_CAP: usize = 64;

/// Hard cap on one session's pending command queue; an overflowing
/// queue drops further commands until the next drain.
pub const INPUT_QUEUE_CAP: usize = 1024;

/// One match instance.
pub struct Server {
    pub current: State,
    pub history: StateHistory,
    pub players: Vec<Player>,
    pub bots: Vec<Bot>,
}

/// The entity store after one identifier is removed: the slot is
/// vacated and its generation bumped (an exhausted generation stays); a
/// stale identifier changes nothing.
pub open spec fn spec_remove_entity(things: Seq<SlotView>, id: Id) -> Seq<SlotView> {
    if id.slot < things.len() && things[id.slot as int].generation == id.generation
        && things[id.slot as int].value is Some {
        things.update(
            id.slot as int,
            SlotView {
                generation: if id.generation < u64::MAX {
                    (id.generation + 1) as u64
                } else {
                    id.generation
                },
                value: None,
            },
        )
    } else {
        things
    }
}

/// Truncate a display name to the codec's byte limit, on a character
/// boundary: a name that fits is kept whole; a longer one keeps its
/// longest encodable character prefix.
fn truncate_name(name: String) -> (r: String)
    ensures
        vstd::utf8::encode_utf8(r@).len() <= NAME_LIMIT,
        vstd::utf8::encode_utf8(name@).len() <= NAME_LIMIT ==> r@ == name@,
        exists|n: int| 0 <= n <= name@.len() && r@ == #[trigger] name@.take(n),
{
    let byte_len: usize = name.as_str().as_bytes_vec().len();
    if byte_len <= NAME_LIMIT {
        proof {
            assert(name@.take(name@.len() as int) =~= name@);
        }
        return name;
    }
    proof {
        vstd::utf8::encode_utf8_valid_utf8(name@);
    }
    let mut cut: usize = NAME_LIMIT;
    while !name.as_str().is_char_boundary(cut)
        invariant
            cut <= NAME_LIMIT,
            vstd::utf8::valid_utf8(vstd::utf8::encode_utf8(name@)),
        decreases cut,
    {
        proof {
            vstd::utf8::is_char_boundary_start_end_of_seq(vstd::utf8::encode_utf8(name@));
        }
        cut = cut - 1;
    }
    let pieces = name.as_str().split_at(cut);
    let head: &str = pieces.0;
    let r = head.to_owned();
    proof {
        let nb = vstd::utf8::encode_utf8(name@);
        vstd::utf8::decode_utf8_split(nb, cut as int);
        vstd::utf8::encode_utf8_decode_utf8(name@);
        vstd::utf8::encode_utf8_decode_utf8(head@);
        assert(head.spec_bytes() == nb.subrange(0, cut as int));
        assert(vstd::utf8::decode_utf8(nb.subrange(0, cut as int)) == head@);
        assert(name@ == head@ + vstd::utf8::decode_utf8(
            nb.subrange(cut as int, nb.len() as int),
        ));
        assert(head@ == name@.take(head@.len() as int)) by {
            assert(head@ =~= name@.take(head@.len() as int));
        }
        assert(vstd::utf8::encode_utf8(r@).len() == cut);
    }
    r
}

/// Does some session belong to this client?
pub open spec fn spec_has_session(players: Seq<Player>, client_id: u64) -> bool {
    exists|i: int| 0 <= i < players.len() && (#[trigger] players[i]).client_id == client_id
}

impl Server {
    pub open spec fn wf(self) -> bool {
        &&& self.current.wf()
        &&& self.current@.things.len() <= THING_CAP
        &&& self.players@.len() <= PLAYER_CAP
        &&& forall|i: int|
            0 <= i < self.players@.len() ==> (#[trigger] self.players@[i]).inputs@.len()
                <= INPUT_QUEUE_CAP
        // one session per client
        &&& forall|i: int, j: int|
            0 <= i < j < self.players@.len() ==> (#[trigger] self.players@[i]).client_id != (
            #[trigger] self.players@[j]).client_id
        &&& forall|i: int| 0 <= i < self.bots@.len() ==> (#[trigger] self.bots@[i]).wf()
    }

    pub fn new() -> (s: Server)
        ensures
            s.wf(),
            s.players@.len() == 0,
            s.bots@.len() == 0,
            s.current@ == crate::state::initial_state_view(),
    {
        Server {
            current: State::new(),
            history: StateHistory::new(),
            players: Vec::new(),
            bots: Vec::new(),
        }
    }
}

impl Default for Server {
    fn default() -> (s: Server)
        ensures
            s.wf(),
            s.players@.len() == 0,
            s.bots@.len() == 0,
    {
        Server::new()
    }
}

/// Insert a new entity unless the entity cap is reached.
fn insert_thing(state: &mut State, t: Thing) -> (r: Option<Id>)
    requires
        old(state).wf(),
        t.wf(),
        old(state)@.things.len() <= THING_CAP,
    ensures
        final(state).wf(),
        final(state)@.things.len() <= THING_CAP,
        old(state)@.things.len() <= final(state)@.things.len() <= old(state)@.things.len() + 1,
        final(state)@.events == old(state)@.events,
        final(state)@.map == old(state)@.map,
        final(state)@.width == old(state)@.width,
        final(state)@.height == old(state)@.height,
        final(state)@.timestamp == old(state)@.timestamp,
        final(state)@.next_spawn == old(state)@.next_spawn,
        match r {
            Some(id) => {
                &&& final(state).things.valid(id)
                &&& final(state).things.at(id) == t
                &&& id.slot < final(state)@.things.len()
                &&& final(state)@.things[id.slot as int].value == Some(t@)
                &&& forall|i: int|
                    0 <= i < old(state)@.things.len() && i != id.slot ==> final(state)@.things[i]
                        == #[trigger] old(state)@.things[i]
                &&& (id.slot < old(state)@.things.len() ==> final(state)@.things.len() == old(
                    state,
                )@.things.len() && old(state)@.things[id.slot as int].value is None)
                &&& (id.slot == old(state)@.things.len() ==> final(state)@.things.len() == old(
                    state,
                )@.things.len() + 1)
            },
            None => *final(state) == *old(state),
        },
        old(state)@.things.len() < THING_CAP ==> r is Some,
        forall|x: Id|
            #![trigger spec_dead_id(final(state)@.things, x)]
            spec_dead_id(old(state)@.things, x) ==> spec_dead_id(final(state)@.things, x),
{
    if state.things.slot_count() < THING_CAP {
        let ghost before = state@.things;
        let ghost tv = t@;
        let id = state.things.insert(t);
        proof {
            assert forall|i: int|
                0 <= i < state@.things.len() implies match (#[trigger] state@.things[i]).value {
                Some(x) => x.wf(),
                None => true,
            } by {
                if i < before.len() && i != id.slot {
                    assert(state@.things[i] == before[i]);
                } else {
                    assert(view_slot(state.things.slots@[i]).value == Some(tv) || state@.things[i]
                        == before[i]);
                }
            }
            assert(state@.things[id.slot as int].value == Some(tv)) by {
                assert(state@.things[id.slot as int] == view_slot(
                    state.things.slots@[id.slot as int],
                ));
            }
            assert forall|i: int|
                0 <= i < before.len() && i != id.slot implies state@.things[i] == #[trigger] before[i] by {
                assert(state@.things[i] == view_slot(state.things.slots@[i]));
            }
            lemma_store_evolve_view(old(state).things, state.things);
            assert forall|x: Id|
                spec_dead_id(before, x) implies #[trigger] spec_dead_id(state@.things, x) by {
                lemma_evolve_preserves_dead(before, state@.things, x);
            }
        }
        Some(id)
    } else {
        None
    }
}

/// Spawn a fresh player entity named `name`, if the name is encodable
/// and room remains.
fn spawn_player_thing(state: &mut State, name: &str) -> (r: Option<Id>)
    requires
        old(state).wf(),
        old(state)@.things.len() <= THING_CAP,
    ensures
        final(state).wf(),
        final(state)@.things.len() <= THING_CAP,
        old(state)@.things.len() <= final(state)@.things.len() <= old(state)@.things.len() + 1,
        final(state)@.events == old(state)@.events,
        final(state)@.timestamp == old(state)@.timestamp,
        final(state)@.map == old(state)@.map,
        final(state)@.width == old(state)@.width,
        final(state)@.height == old(state)@.height,
        (old(state)@.things.len() < THING_CAP && vstd::utf8::encode_utf8(name@).len()
            <= NAME_LIMIT) ==> r is Some,
        forall|x: Id|
            #![trigger spec_dead_id(final(state)@.things, x)]
            spec_dead_id(old(state)@.things, x) ==> spec_dead_id(final(state)@.things, x),
        match r {
            Some(id) => final(state).things.valid(id),
            None => true,
        },
{
    if name.as_bytes_vec().len() <= NAME_LIMIT {
        let t = Thing::new_player(name);
        insert_thing(state, t)
    } else {
        None
    }
}

/// The integer square root: the unique `r >= 0` with
/// `r * r <= n < (r + 1) * (r + 1)`.
pub open spec fn spec_isqrt(n: int) -> int {
    choose|r: int| 0 <= r && #[trigger] (r * r) <= n < (r + 1) * (r + 1)
}

/// The defining property pins the root uniquely.
pub proof fn lemma_isqrt_unique(n: int, a: int, b: int)
    requires
        0 <= a && a * a <= n < (a + 1) * (a + 1),
        0 <= b && b * b <= n < (b + 1) * (b + 1),
    ensures
        a == b,
{
    assert(a == b) by (nonlinear_arith)
        requires
            0 <= a && a * a <= n < (a + 1) * (a + 1),
            0 <= b && b * b <= n < (b + 1) * (b + 1),
    ;
}

/// Integer square root: the largest `r` with `r * r <= n`.
pub fn isqrt64(n: i64) -> (r: i64)
    requires
        0 <= n,
    ensures
        0 <= r,
        r * r <= n,
        n < (r + 1) * (r + 1),
        r == spec_isqrt(n as int),
{
    let mut lo: i64 = 0;
    let mut hi: i64 = 3_037_000_499;
    proof {
        assert((3_037_000_499i64 + 1) * (3_037_000_499i64 + 1) > i64::MAX) by (nonlinear_arith);
    }
    while lo < hi
        invariant
            0 <= lo <= hi <= 3_037_000_499,
            lo * lo <= n,
            n < (hi + 1) * (hi + 1),
        decreases hi - lo,
    {
        let mid: i64 = lo + (hi - lo + 1) / 2;
        proof {
            assert(lo < mid <= hi);
            lemma_square_bound(mid as int, 3_037_000_499int);
        }
        if mid * mid <= n {
            lo = mid;
        } else {
            hi = mid - 1;
        }
    }
    proof {
        let w = spec_isqrt(n as int);
        assert(0 <= w && w * w <= n < (w + 1) * (w + 1)) by {
            assert(0 <= lo as int && lo as int * lo as int <= n < (lo as int + 1) * (lo as int
                + 1));
        }
        lemma_isqrt_unique(n as int, lo as int, w);
    }
    lo
}

/// Does `thing_id` resolve to a player that may fire: alive, with a
/// cold ability?
pub open spec fn spec_can_fire(sv: StateView, thing_id: Id) -> bool {
    &&& thing_id.slot < sv.things.len()
    &&& sv.things[thing_id.slot as int].generation == thing_id.generation
    &&& sv.things[thing_id.slot as int].value matches Some(ThingView::Player(p)) && p.hearts > 0
        && p.ability_cooldown == 0
}

/// The firing player, with its cooldown armed at the fixed value.
pub open spec fn spec_arm_cooldown(things: Seq<SlotView>, thing_id: Id) -> Seq<SlotView>
    recommends
        thing_id.slot < things.len(),
        things[thing_id.slot as int].value matches Some(ThingView::Player(p)),
{
    match things[thing_id.slot as int].value {
        Some(ThingView::Player(p)) => things.update(
            thing_id.slot as int,
            SlotView {
                generation: thing_id.generation,
                value: Some(
                    ThingView::Player(PlayerView { ability_cooldown: ABILITY_COOLDOWN_MS, ..p }),
                ),
            },
        ),
        _ => things,
    }
}

/// The projectile a player at `pos` fires toward `target`: spawned at
/// the player with the fixed projectile speed along the aim, owned by
/// the firer.
pub open spec fn spec_fired_projectile(pos: Vec2, target: Vec2, thing_id: Id) -> ProjectileThing {
    let dx = target.x - pos.x;
    let dy = target.y - pos.y;
    let l = spec_isqrt(dx * dx + dy * dy);
    ProjectileThing {
        pos,
        radius: crate::thing::PROJECTILE_RADIUS,
        solid: Solid::Partial,
        vel: Vec2 {
            x: spec_aim_component(dx, l) as i64,
            y: spec_aim_component(dy, l) as i64,
        },
        owner: thing_id,
    }
}

/// Fire the ability if the controlled player is alive with a cold
/// ability: arm the cooldown, aim from the player toward the target,
/// spawn a projectile at the player with the fixed projectile speed, and
/// emit a `ProjectileFired` event. A dead or warm player, a stale
/// identifier, or an aim at the player's own position spawns nothing.
#[verifier::rlimit(100)]
fn try_fire(state: &mut State, thing_id: Id, target: Vec2)
    requires
        old(state).wf(),
        target.in_limit(COORD_LIMIT),
        old(state)@.things.len() <= THING_CAP,
        old(state)@.events.len() < LEN_LIMIT,
    ensures
        final(state).wf(),
        final(state)@.things.len() <= THING_CAP,
        old(state)@.events.len() <= final(state)@.events.len() <= old(state)@.events.len() + 1,
        forall|e: int|
            0 <= e < old(state)@.events.len() ==> (#[trigger] final(state)@.events[e]) == old(
                state,
            )@.events[e],
        forall|e: int|
            old(state)@.events.len() <= e < final(state)@.events.len() ==> (
            #[trigger] final(state)@.events[e]) matches Event::ProjectileFired { .. },
        final(state)@.timestamp == old(state)@.timestamp,
        final(state)@.map == old(state)@.map,
        final(state)@.width == old(state)@.width,
        final(state)@.height == old(state)@.height,
        forall|x: Id|
            #![trigger spec_dead_id(final(state)@.things, x)]
            spec_dead_id(old(state)@.things, x) ==> spec_dead_id(final(state)@.things, x),
        // a dead or warm player, or a stale identifier, changes nothing
        !spec_can_fire(old(state)@, thing_id) ==> *final(state) == *old(state),
        spec_can_fire(old(state)@, thing_id) ==> ({
            let p = old(state)@.things[thing_id.slot as int].value->Some_0->Player_0;
            let armed = spec_arm_cooldown(old(state)@.things, thing_id);
            &&& (target == p.pos ==> final(state)@ == (StateView {
                things: armed,
                ..old(state)@
            }))
            &&& ((target != p.pos && old(state)@.things.len() < THING_CAP) ==> {
                &&& final(state)@.events == old(state)@.events.push(
                    Event::ProjectileFired { pos: p.pos },
                )
                &&& exists|j: int|
                    {
                        &&& 0 <= j < final(state)@.things.len()
                        &&& (#[trigger] final(state)@.things[j]).value == Some(
                            ThingView::Projectile(spec_fired_projectile(p.pos, target, thing_id)),
                        )
                        &&& armed.len() <= final(state)@.things.len() <= armed.len() + 1
                        &&& (forall|i: int|
                            0 <= i < armed.len() && i != j ==> final(state)@.things[i] == (
                            #[trigger] armed[i]))
                        &&& (j < armed.len() ==> final(state)@.things.len() == armed.len()
                            && armed[j].value is None)
                        &&& (j == armed.len() ==> final(state)@.things.len() == armed.len() + 1)
                    }
            })
        }),
{
    let mut shot: Option<(Vec2, Vec2)> = None;
    let mut arm = false;
    match state.things.get(thing_id) {
        Some(t) => match t {
            Thing::Player(p) => {
                if p.hearts > 0 && p.ability_cooldown == 0 {
                    proof {
                        assert(state@.things[thing_id.slot as int].value->Some_0.wf());
                    }
                    arm = true;
                    let dx: i64 = target.x - p.pos.x;
                    let dy: i64 = target.y - p.pos.y;
                    if dx != 0 || dy != 0 {
                        shot = Some((p.pos, Vec2 { x: dx, y: dy }));
                    }
                }
            },
            Thing::Projectile(_) => {},
        },
        None => {},
    }
    proof {
        assert(arm == spec_can_fire(old(state)@, thing_id));
    }
    if arm {
        let t = state.things.get_mut(thing_id);
        match t {
            Thing::Player(p) => {
                p.ability_cooldown = ABILITY_COOLDOWN_MS;
            },
            Thing::Projectile(_) => {},
        }
        proof {
            assert(state@.things =~= spec_arm_cooldown(old(state)@.things, thing_id));
            crate::simulation::lemma_update_evolves_pub(
                old(state)@.things,
                thing_id.slot as int,
                state@.things[thing_id.slot as int],
            );
        }
    }
    let ghost armed_state = state@;
    proof {
        assert(crate::simulation::things_evolve(old(state)@.things, armed_state.things));
    }
    proof {
        assert forall|i: int|
            0 <= i < state@.things.len() implies match (#[trigger] state@.things[i]).value {
            Some(x) => x.wf(),
            None => true,
        } by {
            if i != thing_id.slot {
                assert(state@.things[i] == old(state)@.things[i]);
            }
        }
    }
    match shot {
        Some((pos, d)) => {
            if d.x != 0 || d.y != 0 {
                proof {
                    lemma_square_bound(d.x as int, 2 * COORD_LIMIT as int);
                    lemma_square_bound(d.y as int, 2 * COORD_LIMIT as int);
                }
                let len2: i64 = d.x * d.x + d.y * d.y;
                proof {
                    assert(len2 >= 1) by (nonlinear_arith)
                        requires
                            d.x != 0 || d.y != 0,
                            len2 == d.x * d.x + d.y * d.y,
                    ;
                }
                let l: i64 = isqrt64(len2);
                proof {
                    assert(l >= 1) by (nonlinear_arith)
                        requires
                            0 <= l,
                            l * l <= len2,
                            len2 < (l + 1) * (l + 1),
                            len2 >= 1,
                    ;
                    assert(l <= 3_000_000) by (nonlinear_arith)
                        requires
                            0 <= l,
                            l * l <= len2,
                            len2 <= 8_000_000_000_000,
                    ;
                    assert(iabs(d.x as int) <= l && iabs(d.y as int) <= l) by (nonlinear_arith)
                        requires
                            d.x * d.x <= len2,
                            d.y * d.y <= len2,
                            len2 < (l + 1) * (l + 1),
                            0 <= l,
                    ;
                }
                let vx: i64 = scale_dir(d.x, l);
                let vy: i64 = scale_dir(d.y, l);
                let proj = Thing::new_projectile(pos, Vec2 { x: vx, y: vy }, thing_id);
                proof {
                    assert(pos.in_limit(COORD_LIMIT));
                    assert(proj.wf());
                    assert(proj@ == ThingView::Projectile(
                        spec_fired_projectile(pos, target, thing_id),
                    ));
                }
                match insert_thing(state, proj) {
                    Some(pid) => {
                        state.events.push(Event::ProjectileFired { pos });
                        proof {
                            assert(state@.events =~= old(state)@.events.push(
                                Event::ProjectileFired { pos },
                            ));
                            let j = pid.slot as int;
                            assert(state@.things[j].value == Some(
                                ThingView::Projectile(
                                    spec_fired_projectile(pos, target, thing_id),
                                ),
                            ));
                            assert forall|i: int|
                                0 <= i < armed_state.things.len() && i != j
                                    implies state@.things[i] == armed_state.things[i] by {
                                assert(state@.things[i] == view_slot(state.things.slots@[i]));
                            }
                            assert(0 <= j < state@.things.len());
                            assert(armed_state.things.len() <= state@.things.len()
                                <= armed_state.things.len() + 1);
                            assert(j < armed_state.things.len() ==> state@.things.len()
                                == armed_state.things.len() && armed_state.things[j].value
                                is None);
                            assert(j == armed_state.things.len() ==> state@.things.len()
                                == armed_state.things.len() + 1);
                        }
                    },
                    None => {},
                }
            }
        },
        None => {},
    }
    proof {
        if !spec_can_fire(old(state)@, thing_id) {
            assert(*state == *old(state));
        } else {
            if shot is None {
                assert(state@ == (StateView {
                    things: spec_arm_cooldown(old(state)@.things, thing_id),
                    ..old(state)@
                }));
            }
        }
    }
}

/// One velocity component of a projectile aimed along `d` at distance
/// `l`: the component scaled to the fixed projectile speed, rounding the
/// magnitude down.
pub open spec fn spec_aim_component(d: int, l: int) -> int {
    crate::geom::div_trunc(d * PROJECTILE_SPEED as int, l)
}

/// One velocity component of a fired projectile: the aim component
/// scaled to the fixed projectile speed. Magnitudes stay within the
/// velocity bound because the component never exceeds the aim length.
fn scale_dir(d: i64, l: i64) -> (r: i64)
    requires
        1 <= l <= 3_000_000,
        -l <= d <= l,
    ensures
        -VEL_LIMIT <= r <= VEL_LIMIT,
        r == spec_aim_component(d as int, l as int),
{
    proof {
        crate::simulation::lemma_mul_bound_pub(d as int, PROJECTILE_SPEED as int, l as int, PROJECTILE_SPEED as int);
        vstd::arithmetic::div_mod::lemma_div_pos_is_pos(iabs(d as int) * PROJECTILE_SPEED as int, l as int);
        vstd::arithmetic::div_mod::lemma_div_by_multiple(PROJECTILE_SPEED as int, l as int);
        assert(iabs(d as int) * PROJECTILE_SPEED as int <= PROJECTILE_SPEED as int * l as int)
            by (nonlinear_arith)
            requires
                0 <= iabs(d as int) <= l as int,
                PROJECTILE_SPEED == 20_000,
        ;
        vstd::arithmetic::div_mod::lemma_div_is_ordered(
            iabs(d as int) * PROJECTILE_SPEED as int,
            PROJECTILE_SPEED as int * l as int,
            l as int,
        );
    }
    let prod: i64 = if d >= 0 {
        d * PROJECTILE_SPEED
    } else {
        (-d) * PROJECTILE_SPEED
    };
    let q: i64 = prod / l;
    if d >= 0 {
        q
    } else {
        -q
    }
}

/// Drain one session's pending commands in arrival order: malformed
/// commands are discarded; each valid command moves the player, and once
/// a command raises the trigger, each later command of this drain may
/// fire. When every queued command is well-formed and none raises the
/// trigger, the result is exactly the command fold — the same fold a
/// reconciling client computes.
fn drain_player(state: &mut State, q: &Vec<Input>, thing: Option<Id>) -> (latest: Option<u64>)
    requires
        old(state).wf(),
        old(state)@.things.len() <= THING_CAP,
        q@.len() <= INPUT_QUEUE_CAP,
        old(state)@.events.len() + q@.len() < LEN_LIMIT,
    ensures
        final(state).wf(),
        final(state)@.things.len() <= THING_CAP,
        old(state)@.events.len() <= final(state)@.events.len() <= old(state)@.events.len()
            + q@.len(),
        forall|e: int|
            0 <= e < old(state)@.events.len() ==> (#[trigger] final(state)@.events[e]) == old(
                state,
            )@.events[e],
        forall|e: int|
            old(state)@.events.len() <= e < final(state)@.events.len() ==> (
            #[trigger] final(state)@.events[e]) matches Event::ProjectileFired { .. },
        final(state)@.timestamp == old(state)@.timestamp,
        final(state)@.map == old(state)@.map,
        final(state)@.width == old(state)@.width,
        final(state)@.height == old(state)@.height,
        forall|x: Id|
            #![trigger spec_dead_id(final(state)@.things, x)]
            spec_dead_id(old(state)@.things, x) ==> spec_dead_id(final(state)@.things, x),
        (forall|k: int|
            0 <= k < q@.len() ==> (#[trigger] q@[k]).wf() && !q@[k].ability_trigger)
            ==> final(state)@ == spec_apply_inputs(old(state)@, q@),
        match latest {
            Some(ts) => exists|k: int| 0 <= k < q@.len() && (#[trigger] q@[k]).timestamp_ms == ts,
            None => true,
        },
{
    let ghost calm = forall|k: int|
        0 <= k < q@.len() ==> (#[trigger] q@[k]).wf() && !q@[k].ability_trigger;
    proof {
        assert(q@.skip(0) =~= q@);
    }
    let n: usize = q.len();
    let mut latest: Option<u64> = None;
    let mut trigger: bool = false;
    let mut k: usize = 0;
    while k < n
        invariant
            n == q@.len(),
            k <= n,
            calm == (forall|j: int|
                0 <= j < q@.len() ==> (#[trigger] q@[j]).wf() && !q@[j].ability_trigger),
            state.wf(),
            state@.things.len() <= THING_CAP,
            old(state)@.events.len() <= state@.events.len() <= old(state)@.events.len() + k,
            forall|e: int|
                0 <= e < old(state)@.events.len() ==> (#[trigger] state@.events[e]) == old(
                    state,
                )@.events[e],
            forall|e: int|
                old(state)@.events.len() <= e < state@.events.len() ==> (
                #[trigger] state@.events[e]) matches Event::ProjectileFired { .. },
            state@.timestamp == old(state)@.timestamp,
            state@.map == old(state)@.map,
            state@.width == old(state)@.width,
            state@.height == old(state)@.height,
            forall|x: Id|
                #![trigger spec_dead_id(state@.things, x)]
                spec_dead_id(old(state)@.things, x) ==> spec_dead_id(state@.things, x),
            old(state)@.events.len() + n < LEN_LIMIT,
            calm ==> spec_apply_inputs(old(state)@, q@) == spec_apply_inputs(
                state@,
                q@.skip(k as int),
            ),
            calm ==> !trigger,
            match latest {
                Some(ts) => exists|j: int|
                    0 <= j < q@.len() && (#[trigger] q@[j]).timestamp_ms == ts,
                None => true,
            },
        decreases n - k,
    {
        proof {
            assert(q@.skip(k as int)[0] == q@[k as int]);
            assert(q@.skip(k as int).drop_first() =~= q@.skip(k as int + 1));
        }
        let input = q[k];
        if input.check_wf() {
            latest = Some(input.timestamp_ms);
            if input.ability_trigger {
                trigger = true;
            }
            let ghost prev = state@;
            apply_input(state, &input, true);
            proof {
                if calm {
                    assert(spec_apply_inputs(prev, q@.skip(k as int)) == spec_apply_inputs(
                        state@,
                        q@.skip(k as int + 1),
                    ));
                }
                lemma_apply_input_evolves(prev, input);
                assert forall|x: Id|
                    spec_dead_id(prev.things, x) implies #[trigger] spec_dead_id(
                    state@.things, x) by {
                    lemma_evolve_preserves_dead(prev.things, state@.things, x);
                }
            }
            if trigger {
                match thing {
                    Some(tid) => {
                        try_fire(state, tid, input.ability_target);
                    },
                    None => {},
                }
            }
        } else {
            proof {
                if calm {
                    assert(q@[k as int].wf());
                }
            }
        }
        k += 1;
    }
    proof {
        if calm {
            assert(q@.skip(n as int) =~= Seq::<Input>::empty());
        }
    }
    latest
}

impl Server {
    /// A client joined: unless a session for it already exists or the
    /// table is full, create one (delta base: the current state); in
    /// every case send it a full snapshot — a full state, never a
    /// delta — plus its player info.
    pub fn client_joined(&mut self, client_id: u64, client_name: String, out: &mut Vec<(u64, CustomMsg)>)
        requires
            old(self).wf(),
        ensures
            final(self).wf(),
            final(self).current == old(self).current,
            final(self).bots@ == old(self).bots@,
            final(self).history == old(self).history,
            // a session for the client exists afterwards, never duplicated
            spec_has_session(old(self).players@, client_id) ==> final(self).players@ == old(
                self,
            ).players@,
            (!spec_has_session(old(self).players@, client_id) && old(self).players@.len()
                < PLAYER_CAP) ==> {
                &&& final(self).players@.len() == old(self).players@.len() + 1
                &&& forall|k: int|
                    0 <= k < old(self).players@.len() ==> final(self).players@[k] == old(
                        self,
                    ).players@[k]
                &&& final(self).players@.last()@ == (PlayerSessionView {
                    client_name: final(self).players@.last()@.client_name,
                    client_id,
                    thing: None,
                    latest_input_timestamp_ms: 0,
                    inputs: Seq::empty(),
                    state: old(self).current@,
                })
                // the stored name: kept whole when it fits the codec's
                // byte limit, else its longest encodable character prefix
                &&& vstd::utf8::encode_utf8(final(self).players@.last()@.client_name).len()
                    <= NAME_LIMIT
                &&& (vstd::utf8::encode_utf8(client_name@).len() <= NAME_LIMIT
                    ==> final(self).players@.last()@.client_name == client_name@)
                &&& exists|n: int|
                    0 <= n <= client_name@.len() && final(self).players@.last()@.client_name == (
                    #[trigger] client_name@.take(n))
                &&& spec_has_session(final(self).players@, client_id)
            },
            (!spec_has_session(old(self).players@, client_id) && old(self).players@.len()
                >= PLAYER_CAP) ==> final(self).players@ == old(self).players@,
            // the two messages, in order, to this client
            final(out)@.len() == old(out)@.len() + 2,
            forall|k: int| 0 <= k < old(out)@.len() ==> final(out)@[k] == old(out)@[k],
            final(out)@[old(out)@.len() as int].0 == client_id,
            final(out)@[old(out)@.len() as int].1 matches CustomMsg::ServerSnapshotFull {
                input_timestamp_ms,
                state,
            } && input_timestamp_ms == 0 && state@ == old(self).current@,
            final(out)@[old(out)@.len() as int + 1].0 == client_id,
            final(out)@[old(out)@.len() as int + 1].1 matches CustomMsg::ServerPlayerInfo {
                thing_id,
                tick_rate,
            } && thing_id is None && tick_rate == TICK_RATE as u8,
    {
        let mut found = false;
        let mut i: usize = 0;
        let n: usize = self.players.len();
        while i < n
            invariant
                n == self.players@.len(),
                i <= n,
                found == (exists|k: int|
                    0 <= k < i && (#[trigger] self.players@[k]).client_id == client_id),
            decreases n - i,
        {
            if self.players[i].client_id == client_id {
                found = true;
            }
            i += 1;
        }
        proof {
            assert(found == spec_has_session(self.players@, client_id));
        }
        if !found && self.players.len() < PLAYER_CAP {
            let safe_name: String = truncate_name(client_name);
            self.players.push(
                Player {
                    client_id,
                    client_name: safe_name,
                    thing: None,
                    latest_input_timestamp_ms: 0,
                    inputs: Vec::new(),
                    state: self.current.duplicate(),
                },
            );
            proof {
                assert(self.players@.last().client_id == client_id);
                assert(spec_has_session(self.players@, client_id));
                assert(self.players@.last()@.inputs =~= Seq::<Input>::empty());
            }
        }
        out.push(
            (
                client_id,
                CustomMsg::ServerSnapshotFull {
                    input_timestamp_ms: 0,
                    state: self.current.duplicate(),
                },
            ),
        );
        out.push(
            (
                client_id,
                CustomMsg::ServerPlayerInfo { thing_id: None, tick_rate: TICK_RATE as u8 },
            ),
        );
    }

    /// A client left: remove its session, and its controlled entity no
    /// longer resolves; an unknown client is a no-op.
    pub fn client_left(&mut self, client_id: u64)
        requires
            old(self).wf(),
        ensures
            final(self).wf(),
            final(self).bots@ == old(self).bots@,
            final(self).history == old(self).history,
            !spec_has_session(old(self).players@, client_id) ==> *final(self) == *old(self),
            spec_has_session(old(self).players@, client_id) ==> exists|i: int|
                {
                    &&& 0 <= i < old(self).players@.len()
                    &&& (#[trigger] old(self).players@[i]).client_id == client_id
                    &&& final(self).players@ == old(self).players@.remove(i)
                    &&& match old(self).players@[i].thing {
                        Some(tid) => {
                            &&& !final(self).current.things.valid(tid)
                            &&& final(self).current@ == (StateView {
                                things: spec_remove_entity(old(self).current@.things, tid),
                                ..old(self).current@
                            })
                        },
                        None => final(self).current == old(self).current,
                    }
                },
    {
        let n: usize = self.players.len();
        let mut i: usize = 0;
        let mut found: Option<usize> = None;
        while i < n
            invariant
                n == self.players@.len(),
                i <= n,
                match found {
                    Some(x) => x < n && self.players@[x as int].client_id == client_id,
                    None => forall|k: int|
                        0 <= k < i ==> (#[trigger] self.players@[k]).client_id != client_id,
                },
            decreases n - i,
        {
            if self.players[i].client_id == client_id && found.is_none() {
                found = Some(i);
            }
            i += 1;
        }
        match found {
            Some(idx) => {
                let p = self.players.remove(idx);
                proof {
                    assert forall|a: int, b: int|
                        0 <= a < b < self.players@.len() implies (
                    #[trigger] self.players@[a]).client_id != (
                    #[trigger] self.players@[b]).client_id by {
                        assert(self.players@[a] == if a < idx {
                            old(self).players@[a]
                        } else {
                            old(self).players@[a + 1]
                        });
                        assert(self.players@[b] == if b < idx {
                            old(self).players@[b]
                        } else {
                            old(self).players@[b + 1]
                        });
                    }
                }
                match p.thing {
                    Some(tid) => {
                        let ghost before = self.current@.things;
                        self.current.things.remove(tid);
                        proof {
                            assert forall|j: int|
                                0 <= j < self.current@.things.len() implies match (
                            #[trigger] self.current@.things[j]).value {
                                Some(x) => x.wf(),
                                None => true,
                            } by {
                                if j != tid.slot {
                                    assert(self.current@.things[j] == before[j]);
                                }
                            }
                            assert(self.current@.things =~= spec_remove_entity(before, tid));
                        }
                    },
                    None => {},
                }
            },
            None => {},
        }
    }

    /// A message arrived from a client: a well-formed command from a
    /// known client is appended at the back of that session's queue
    /// (unless the queue is at its cap) and nothing else changes; a
    /// malformed command, an unknown client, or any other message is a
    /// no-op.
    pub fn recv_custom_msg(&mut self, client_id: u64, msg: CustomMsg)
        requires
            old(self).wf(),
        ensures
            final(self).wf(),
            final(self).current == old(self).current,
            final(self).bots@ == old(self).bots@,
            final(self).history == old(self).history,
            match msg {
                CustomMsg::ClientInput { input } => {
                    &&& final(self).players@.len() == old(self).players@.len()
                    &&& forall|k: int|
                        (0 <= k < old(self).players@.len()
                            && ((#[trigger] old(self).players@[k]).client_id != client_id
                            || !input.wf())) ==> final(self).players@[k] == old(self).players@[k]
                    &&& forall|k: int|
                        (0 <= k < old(self).players@.len()
                            && (#[trigger] old(self).players@[k]).client_id == client_id
                            && input.wf()) ==> (if old(self).players@[k].inputs@.len()
                            < INPUT_QUEUE_CAP {
                            final(self).players@[k]@ == (PlayerSessionView {
                                inputs: old(self).players@[k]@.inputs.push(input),
                                ..old(self).players@[k]@
                            })
                        } else {
                            final(self).players@[k] == old(self).players@[k]
                        })
                },
                _ => *final(self) == *old(self),
            },
    {
        match &msg {
            CustomMsg::ClientInput { input } => {
                let input: Input = *input;
                if input.check_wf() {
                    let n: usize = self.players.len();
                    let mut i: usize = 0;
                    let mut found: Option<usize> = None;
                    while i < n
                        invariant
                            n == self.players@.len(),
                            i <= n,
                            *self == *old(self),
                            match found {
                                Some(x) => x < n && self.players@[x as int].client_id
                                    == client_id,
                                None => forall|k: int|
                                    0 <= k < i ==> (#[trigger] self.players@[k]).client_id
                                        != client_id,
                            },
                        decreases n - i,
                    {
                        if self.players[i].client_id == client_id && found.is_none() {
                            found = Some(i);
                        }
                        i += 1;
                    }
                    match found {
                        Some(idx) => {
                            let ghost iv = idx as int;
                            if self.players[idx].inputs.len() < INPUT_QUEUE_CAP {
                                self.players[idx].inputs.push(input);
                                proof {
                                    assert(self.players@[iv]@.inputs =~= old(
                                        self,
                                    ).players@[iv]@.inputs.push(input));
                                    assert(self.players@[iv]@ == (PlayerSessionView {
                                        inputs: old(self).players@[iv]@.inputs.push(input),
                                        ..old(self).players@[iv]@
                                    }));
                                }
                            }
                            proof {
                                assert(self.wf());
                                assert forall|k: int|
                                    (0 <= k < old(self).players@.len() && (#[trigger] old(
                                        self,
                                    ).players@[k]).client_id == client_id) implies k == iv by {
                                    if k < iv {
                                        assert(old(self).players@[k].client_id != old(
                                            self,
                                        ).players@[iv].client_id);
                                    } else if k > iv {
                                        assert(old(self).players@[iv].client_id != old(
                                            self,
                                        ).players@[k].client_id);
                                    }
                                }
                            }
                        },
                        None => {},
                    }
                }
            },
            _ => {},
        }
    }

    /// One authoritative tick: clear last tick's events, stamp the time,
    /// enforce the population policy (bots fill in below two humans and
    /// leave — entities included — once a third player is present), run
    /// the bots, lazily spawn joined players' entities, drain every
    /// session's commands, advance the simulation by one deterministic
    /// step, send each client the delta against what it last saw, advance
    /// each delta base, and remember the new state.
    #[verifier::rlimit(100)]
    pub fn update(&mut self, time_ms: u64, dt_ms: u64, out: &mut Vec<(u64, CustomMsg)>)
        requires
            old(self).wf(),
            dt_ms <= DT_LIMIT,
        ensures
            final(self).wf(),
            // population policy: bots leave, entities included
            old(self).players@.len() >= 2 ==> final(self).bots@.len() == 0,
            old(self).players@.len() >= 2 ==> forall|i: int|
                #![trigger old(self).bots@[i]]
                (0 <= i < old(self).bots@.len() && old(self).current.things.valid(
                    old(self).bots@[i].thing_id,
                )) ==> !final(self).current.things.valid(old(self).bots@[i].thing_id),
            old(self).players@.len() < 2 && old(self).bots@.len() > 0 ==> final(self).bots@.len()
                == old(self).bots@.len(),
            old(self).players@.len() < 2 && old(self).bots@.len() == 0 && old(
                self,
            ).current@.things.len() + BOT_COUNT <= THING_CAP ==> final(self).bots@.len()
                == BOT_COUNT,
            // the state advances: the new state is one deterministic step
            // of a well-formed mid-tick state carrying this tick's stamp
            // and the same map (commands, spawns and random draws land in
            // the mid-tick state; the step is spec_update_things exactly)
            exists|mid: StateView, starts: Seq<int>|
                {
                    &&& mid.wf()
                    &&& mid.timestamp == time_ms
                    &&& mid.map == old(self).current@.map
                    &&& mid.width == old(self).current@.width
                    &&& mid.height == old(self).current@.height
                    // the mid-tick state carries only this tick's
                    // firing events; everything else the new state's
                    // event list holds was emitted by the step itself
                    &&& (forall|e: int|
                        0 <= e < mid.events.len() ==> #[trigger] mid.events[e] matches
                            Event::ProjectileFired { .. })
                    &&& (forall|k: int|
                        0 <= k < starts.len() ==> 0 <= #[trigger] starts[k]
                            < mid.map.spawn_points.len())
                    &&& final(self).current@ == #[trigger] crate::simulation::spec_update_things(
                        mid,
                        dt_ms,
                        starts,
                    )
                },
            final(self).current@.timestamp == time_ms,
            final(self).current@.map == old(self).current@.map,
            final(self).current@.width == old(self).current@.width,
            final(self).current@.height == old(self).current@.height,
            // per-session delta dispatch: one ServerSnapshotDelta per
            // session, in session order, addressed to that session's
            // client, whose delta carries the new state against that
            // session's last-sent state and that session's latest
            // processed command timestamp; the base advances and the
            // queue is drained
            final(self).players@.len() == old(self).players@.len(),
            forall|k: int|
                0 <= k < old(self).players@.len() ==> (#[trigger] final(self).players@[k]).client_id
                    == old(self).players@[k].client_id,
            final(out)@.len() >= old(out)@.len() + old(self).players@.len(),
            forall|k: int| 0 <= k < old(out)@.len() ==> final(out)@[k] == old(out)@[k],
            // between the preserved prefix and the trailing deltas, the
            // tick appends only entity-assignment notices
            forall|k: int|
                old(out)@.len() <= k < final(out)@.len() - old(self).players@.len() ==> ((
                #[trigger] final(out)@[k]).1 matches CustomMsg::ServerPlayerInfo {
                    thing_id,
                    tick_rate,
                } && thing_id is Some && tick_rate == TICK_RATE as u8),
            forall|k: int|
                #![trigger old(self).players@[k]]
                0 <= k < old(self).players@.len() ==> {
                    let m = final(out)@[final(out)@.len() - old(self).players@.len() + k];
                    &&& m.0 == old(self).players@[k].client_id
                    &&& m.1 matches CustomMsg::ServerSnapshotDelta { input_timestamp_ms, delta }
                        && input_timestamp_ms
                        == final(self).players@[k].latest_input_timestamp_ms && delta@
                        == crate::codec::spec_diff(
                        crate::codec::spec_enc_state(old(self).players@[k].state@),
                        crate::codec::spec_enc_state(final(self).current@),
                    )
                    &&& final(self).players@[k]@.state == final(self).current@
                    &&& final(self).players@[k]@.inputs.len() == 0
                },
            // the new state is remembered as the newest history entry
            final(self).history.views().len() > 0,
            final(self).history.views().last() == final(self).current@,
            final(self).history.views() == (if old(self).history.views().len() <= HISTORY_LIMIT {
                old(self).history.views().push(final(self).current@)
            } else {
                old(self).history.views().drop_first().push(final(self).current@)
            }),
            final(self).history.default_view() == old(self).history.default_view(),
    {
        self.current.events.clear();
        self.current.timestamp = time_ms;
        proof {
            assert(self.current@.events.len() == 0);
            assert(self.current.wf());
        }
        if self.players.len() < 2 {
            if self.bots.len() == 0 {
                let mut k: usize = 0;
                while k < BOT_COUNT
                    invariant
                        self.current.wf(),
                        self.current@.things.len() <= THING_CAP,
                        self.current@.events.len() == 0,
                        self.current@.timestamp == time_ms,
                        self.current@.map == old(self).current@.map,
                        self.current@.width == old(self).current@.width,
                        self.current@.height == old(self).current@.height,
                        k <= BOT_COUNT,
                        self.bots@.len() <= k,
                        old(self).current@.things.len() + BOT_COUNT <= THING_CAP ==> self.bots@.len()
                            == k && self.current@.things.len() <= old(self).current@.things.len()
                            + k,
                        forall|i: int| 0 <= i < self.bots@.len() ==> (#[trigger] self.bots@[i]).wf(),
                        self.players@ == old(self).players@,
                        self.history == old(self).history,
                    decreases BOT_COUNT - k,
                {
                    proof {
                        reveal_strlit("bot");
                        assert(vstd::utf8::is_ascii_chars("bot"@));
                        vstd::utf8::is_ascii_chars_encode_utf8("bot"@);
                        assert(vstd::utf8::encode_utf8("bot"@).len() <= NAME_LIMIT);
                    }
                    match spawn_player_thing(&mut self.current, "bot") {
                        Some(id) => {
                            self.bots.push(Bot::new(id));
                        },
                        None => {},
                    }
                    k += 1;
                }
            }
        } else {
            while self.bots.len() > 0
                invariant
                    self.current.wf(),
                    self.current@.things.len() <= THING_CAP,
                    self.current@.events.len() == 0,
                    self.current@.timestamp == time_ms,
                    self.current@.map == old(self).current@.map,
                    self.current@.width == old(self).current@.width,
                    self.current@.height == old(self).current@.height,
                    self.players@ == old(self).players@,
                    self.history == old(self).history,
                    self.bots@.len() <= old(self).bots@.len(),
                    self.bots@ == old(self).bots@.take(self.bots@.len() as int),
                    forall|i: int|
                        #![trigger old(self).bots@[i]]
                        (self.bots@.len() <= i < old(self).bots@.len() && old(
                            self,
                        ).current.things.valid(old(self).bots@[i].thing_id)) ==> spec_dead_id(
                            self.current@.things,
                            old(self).bots@[i].thing_id,
                        ),
                    forall|i: int|
                        #![trigger old(self).bots@[i]]
                        (0 <= i < self.bots@.len() && old(self).current.things.valid(
                            old(self).bots@[i].thing_id,
                        )) ==> (self.current.things.valid(old(self).bots@[i].thing_id)
                            || spec_dead_id(self.current@.things, old(self).bots@[i].thing_id)),
                decreases self.bots@.len(),
            {
                let ghost pre_bots = self.bots@;
                match self.bots.pop() {
                    Some(bot) => {
                        let ghost m = pre_bots.len() - 1;
                        proof {
                            assert(bot == pre_bots[m]);
                            assert(pre_bots == old(self).bots@.take(pre_bots.len() as int));
                            assert(old(self).bots@.take(pre_bots.len() as int)[m] == old(
                                self,
                            ).bots@[m]);
                            assert(self.bots@ =~= pre_bots.subrange(0, m));
                            assert forall|j: int|
                                0 <= j < m implies pre_bots.subrange(0, m)[j] == old(
                            self).bots@[j] by {
                                assert(pre_bots[j] == old(self).bots@.take(
                                    pre_bots.len() as int,
                                )[j]);
                            }
                            assert(self.bots@ =~= old(self).bots@.take(m));
                            assert(m == self.bots@.len());
                        }
                        let ghost pre = self.current.things;
                        let ghost before = self.current@.things;
                        let removed_now = self.current.things.contains(bot.thing_id);
                        self.current.things.remove(bot.thing_id);
                        proof {
                            assert forall|j: int|
                                0 <= j < self.current@.things.len() implies match (
                            #[trigger] self.current@.things[j]).value {
                                Some(x) => x.wf(),
                                None => true,
                            } by {
                                if j != bot.thing_id.slot {
                                    assert(self.current@.things[j] == before[j]);
                                }
                            }
                            lemma_store_evolve_view(pre, self.current.things);
                            assert forall|x: Id|
                                spec_dead_id(before, x) implies #[trigger] spec_dead_id(
                            self.current@.things, x) by {
                                lemma_evolve_preserves_dead(before, self.current@.things, x);
                            }
                            if old(self).current.things.valid(bot.thing_id) {
                                if removed_now {
                                    assert(self.current.things.dead(bot.thing_id));
                                    assert(spec_dead_id(self.current@.things, bot.thing_id)) by {
                                        assert(self.current@.things[bot.thing_id.slot as int]
                                            == view_slot(
                                            self.current.things.slots@[bot.thing_id.slot as int],
                                        ));
                                    }
                                } else {
                                    assert(spec_dead_id(before, bot.thing_id)) by {
                                        assert(before[bot.thing_id.slot as int] == view_slot(
                                            pre.slots@[bot.thing_id.slot as int],
                                        ));
                                    }
                                }
                            }
                        }
                    },
                    None => {},
                }
            }
        }
        let nb: usize = self.bots.len();
        let mut bi: usize = 0;
        while bi < nb
            invariant
                dt_ms <= DT_LIMIT,
                nb == self.bots@.len(),
                bi <= nb,
                self.current.wf(),
                self.current@.things.len() <= THING_CAP,
                self.current@.events.len() == 0,
                self.current@.timestamp == time_ms,
                self.current@.map == old(self).current@.map,
                self.current@.width == old(self).current@.width,
                self.current@.height == old(self).current@.height,
                self.players@ == old(self).players@,
                self.history == old(self).history,
                (old(self).players@.len() >= 2 ==> forall|i: int|
                    #![trigger old(self).bots@[i]]
                    (0 <= i < old(self).bots@.len() && old(self).current.things.valid(
                        old(self).bots@[i].thing_id,
                    )) ==> spec_dead_id(self.current@.things, old(self).bots@[i].thing_id)),
                forall|i: int| 0 <= i < self.bots@.len() ==> (#[trigger] self.bots@[i]).wf(),
            decreases nb - bi,
        {
            let bot = &mut self.bots[bi];
            bot.tick(&mut self.current, dt_ms);
            bi += 1;
        }
        let np: usize = self.players.len();
        let ghost out0 = out@;
        proof {
            assert(out0 == old(out)@);
        }
        let mut pi: usize = 0;
        while pi < np
            invariant
                dt_ms <= DT_LIMIT,
                np == self.players@.len(),
                np <= PLAYER_CAP,
                pi <= np,
                self.current.wf(),
                self.current@.things.len() <= THING_CAP,
                self.current@.events.len() <= pi * INPUT_QUEUE_CAP,
                forall|e: int|
                    0 <= e < self.current@.events.len() ==> (
                    #[trigger] self.current@.events[e]) matches Event::ProjectileFired { .. },
                self.current@.timestamp == time_ms,
                self.current@.map == old(self).current@.map,
                self.current@.width == old(self).current@.width,
                self.current@.height == old(self).current@.height,
                self.bots@.len() == nb,
                self.history == old(self).history,
                (old(self).players@.len() >= 2 ==> forall|i: int|
                    #![trigger old(self).bots@[i]]
                    (0 <= i < old(self).bots@.len() && old(self).current.things.valid(
                        old(self).bots@[i].thing_id,
                    )) ==> spec_dead_id(self.current@.things, old(self).bots@[i].thing_id)),
                out@.len() >= out0.len(),
                forall|i: int| 0 <= i < out0.len() ==> out@[i] == out0[i],
                forall|i: int|
                    out0.len() <= i < out@.len() ==> ((#[trigger] out@[i]).1 matches
                        CustomMsg::ServerPlayerInfo { thing_id, tick_rate } && thing_id is Some
                        && tick_rate == TICK_RATE as u8),
                forall|i: int| 0 <= i < self.bots@.len() ==> (#[trigger] self.bots@[i]).wf(),
                forall|i: int|
                    0 <= i < self.players@.len() ==> (#[trigger] self.players@[i]).inputs@.len()
                        <= INPUT_QUEUE_CAP,
                forall|i: int|
                    0 <= i < self.players@.len() ==> (#[trigger] self.players@[i]).client_id
                        == old(self).players@[i].client_id,
                forall|i: int|
                    0 <= i < self.players@.len() ==> (#[trigger] self.players@[i]).state == old(
                        self,
                    ).players@[i].state,
                forall|i: int| 0 <= i < pi ==> (#[trigger] self.players@[i]).inputs@.len() == 0,
                forall|i: int, j: int|
                    0 <= i < j < self.players@.len() ==> (#[trigger] self.players@[i]).client_id
                        != (#[trigger] self.players@[j]).client_id,
            decreases np - pi,
        {
            if self.players[pi].thing.is_none() {
                let id_opt = {
                    let name_owned = self.players[pi].client_name.clone();
                    spawn_player_thing(&mut self.current, name_owned.as_str())
                };
                match id_opt {
                    Some(id) => {
                        self.players[pi].thing = Some(id);
                        let cid = self.players[pi].client_id;
                        out.push(
                            (
                                cid,
                                CustomMsg::ServerPlayerInfo {
                                    thing_id: Some(id),
                                    tick_rate: TICK_RATE as u8,
                                },
                            ),
                        );
                    },
                    None => {},
                }
            }
            let mut q: Vec<Input> = Vec::new();
            core::mem::swap(&mut q, &mut self.players[pi].inputs);
            let tid_opt = self.players[pi].thing;
            proof {
                assert(self.current@.events.len() + q@.len() < LEN_LIMIT);
            }
            let latest = drain_player(&mut self.current, &q, tid_opt);
            match latest {
                Some(ts) => {
                    self.players[pi].latest_input_timestamp_ms = ts;
                },
                None => {},
            }
            proof {
                assert(self.current@.events.len() <= (pi + 1) * INPUT_QUEUE_CAP);
            }
            pi += 1;
        }
        proof {
            assert(self.current@.events.len() <= PLAYER_CAP * INPUT_QUEUE_CAP);
            assert(self.current@.events.len() + 3 * self.current@.things.len() <= LEN_LIMIT);
        }
        let ghost mid = self.current@;
        update_things(&mut self.current, dt_ms);
        proof {
            assert(self.current@.things.len() <= LEN_LIMIT);
            let s0 = choose|starts: Seq<int>|
                (forall|k: int|
                    0 <= k < starts.len() ==> 0 <= #[trigger] starts[k]
                        < mid.map.spawn_points.len()) && self.current@
                    == crate::simulation::spec_update_things(mid, dt_ms, starts);
            assert({
                &&& mid.wf()
                &&& mid.timestamp == time_ms
                &&& mid.map == old(self).current@.map
                &&& mid.width == old(self).current@.width
                &&& mid.height == old(self).current@.height
                &&& (forall|k: int|
                    0 <= k < s0.len() ==> 0 <= #[trigger] s0[k] < mid.map.spawn_points.len())
                &&& self.current@ == crate::simulation::spec_update_things(mid, dt_ms, s0)
            });
        }
        let ghost final_cur = self.current@;
        let ghost out_mid = out@;
        let ghost pls = self.players@;
        let np2: usize = self.players.len();
        let mut pj: usize = 0;
        while pj < np2
            invariant
                np2 == self.players@.len(),
                np2 == pls.len(),
                np2 <= PLAYER_CAP,
                pj <= np2,
                self.current.wf(),
                self.current@.things.len() <= THING_CAP,
                self.current@ == final_cur,
                (old(self).players@.len() >= 2 ==> forall|i: int|
                    #![trigger old(self).bots@[i]]
                    (0 <= i < old(self).bots@.len() && old(self).current.things.valid(
                        old(self).bots@[i].thing_id,
                    )) ==> spec_dead_id(self.current@.things, old(self).bots@[i].thing_id)),
                self.history == old(self).history,
                self.bots@.len() == nb,
                out@.len() == out_mid.len() + pj,
                forall|i: int| 0 <= i < out_mid.len() ==> out@[i] == out_mid[i],
                forall|i: int| 0 <= i < self.bots@.len() ==> (#[trigger] self.bots@[i]).wf(),
                forall|i: int|
                    0 <= i < self.players@.len() ==> (#[trigger] self.players@[i]).client_id
                        == pls[i].client_id,
                forall|i: int|
                    0 <= i < self.players@.len() ==> (#[trigger] self.players@[i]).inputs@
                        == pls[i].inputs@,
                forall|i: int|
                    0 <= i < self.players@.len()
                        ==> (#[trigger] self.players@[i]).latest_input_timestamp_ms
                        == pls[i].latest_input_timestamp_ms,
                forall|i: int|
                    pj <= i < self.players@.len() ==> (#[trigger] self.players@[i]).state
                        == pls[i].state,
                forall|i: int|
                    0 <= i < pj ==> (#[trigger] self.players@[i]).state@ == final_cur,
                forall|i: int|
                    #![trigger pls[i]]
                    0 <= i < pj ==> {
                        let m = out@[out_mid.len() + i];
                        &&& m.0 == pls[i].client_id
                        &&& m.1 matches CustomMsg::ServerSnapshotDelta {
                            input_timestamp_ms,
                            delta,
                        } && input_timestamp_ms == pls[i].latest_input_timestamp_ms && delta@
                            == crate::codec::spec_diff(
                            crate::codec::spec_enc_state(pls[i].state@),
                            crate::codec::spec_enc_state(final_cur),
                        )
                    },
                forall|i: int, j: int|
                    0 <= i < j < self.players@.len() ==> (#[trigger] self.players@[i]).client_id
                        != (#[trigger] self.players@[j]).client_id,
            decreases np2 - pj,
        {
            let delta = self.current.to_delta(&self.players[pj].state);
            let cid = self.players[pj].client_id;
            let ts = self.players[pj].latest_input_timestamp_ms;
            out.push(
                (cid, CustomMsg::ServerSnapshotDelta { input_timestamp_ms: ts, delta }),
            );
            self.players[pj].state = self.current.duplicate();
            pj += 1;
        }
        self.history.remember(self.current.duplicate());
        proof {
            assert(out@.len() == out_mid.len() + old(self).players@.len());
            assert forall|k: int|
                old(out)@.len() <= k < out@.len() - old(self).players@.len() implies ((
            #[trigger] out@[k]).1 matches CustomMsg::ServerPlayerInfo { thing_id, tick_rate }
                && thing_id is Some && tick_rate == TICK_RATE as u8) by {
                assert(out@[k] == out_mid[k]);
            }
            if old(self).players@.len() >= 2 {
                assert forall|i: int|
                    (0 <= i < old(self).bots@.len() && old(self).current.things.valid(
                        (#[trigger] old(self).bots@[i]).thing_id,
                    )) implies !self.current.things.valid(old(self).bots@[i].thing_id) by {
                    let id = old(self).bots@[i].thing_id;
                    assert(spec_dead_id(self.current@.things, id));
                    assert(self.current@.things[id.slot as int] == view_slot(
                        self.current.things.slots@[id.slot as int],
                    ));
                }
            }
        }
    }
}

} // verus!
