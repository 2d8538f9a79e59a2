//! The deterministic step: movement, damage, respawn, bounds, events.

use arena_sync::simulation::{move_thing_direct_sweep, CollisionResult};
use arena_sync::thing::{PlayerThing, ProjectileThing, Solid, Thing};
use arena_sync::{apply_input, update_things, Event, Id, Input, State, Vec2};

fn player_at(name: &str, x: i64, y: i64, hearts: i8) -> Thing {
    Thing::Player(PlayerThing {
        pos: Vec2 { x, y },
        radius: 500,
        solid: if hearts > 0 { Solid::Solid } else { Solid::NonSolid },
        hearts,
        respawn_timer: 0,
        ability_cooldown: 0,
        speed: 7500,
        deaths: 0,
        kills: 0,
        no_interpolation: false,
        name: name.to_string(),
        spawn_pos: None,
    })
}

fn projectile_at(x: i64, y: i64, vx: i64, vy: i64, owner: Id) -> Thing {
    Thing::Projectile(ProjectileThing {
        pos: Vec2 { x, y },
        radius: 250,
        solid: Solid::Partial,
        vel: Vec2 { x: vx, y: vy },
        owner,
    })
}

fn hearts_of(state: &State, id: Id) -> i8 {
    match state.things.get(id) {
        Some(Thing::Player(p)) => p.hearts,
        _ => panic!("not a player"),
    }
}

#[test]
fn lethal_projectile_hit_kills_and_reports() {
    let mut st = State::new();
    let shooter = st.things.insert(player_at("shooter", 20000, 20000, 3));
    let victim = st.things.insert(player_at("victim", 5000, 5000, 1));
    let proj = st.things.insert(projectile_at(2000, 5000, 30000, 0, shooter));
    update_things(&mut st, 100);
    // the victim died: hearts zero, no longer solid, countdown armed
    match st.things.get(victim) {
        Some(Thing::Player(p)) => {
            assert_eq!(p.hearts, 0);
            assert_eq!(p.solid, Solid::NonSolid);
            // armed at the fixed 3000 ms, already ticked once this step
            assert_eq!(p.respawn_timer, 2900);
            assert_eq!(p.deaths, 1);
        }
        _ => panic!("victim vanished"),
    }
    // the shooter got the kill
    match st.things.get(shooter) {
        Some(Thing::Player(p)) => assert_eq!(p.kills, 1),
        _ => panic!("shooter vanished"),
    }
    // the projectile is gone
    assert!(st.things.get(proj).is_none());
    // a PlayerDied event carries the death position
    assert!(st.events.iter().any(|e| matches!(
        e,
        Event::PlayerDied { thing_id, pos } if *thing_id == victim && *pos == (Vec2 { x: 5000, y: 5000 })
    )));
    // and the removed projectile left a ProjectileHit event
    assert!(st.events.iter().any(|e| matches!(e, Event::ProjectileHit { .. })));
}

#[test]
fn dead_player_cannot_be_hit_again() {
    let mut st = State::new();
    let shooter = st.things.insert(player_at("shooter", 20000, 20000, 3));
    let victim = st.things.insert(Thing::Player(PlayerThing {
        pos: Vec2 { x: 5000, y: 5000 },
        radius: 500,
        solid: Solid::NonSolid,
        hearts: 0,
        respawn_timer: 3000,
        ability_cooldown: 0,
        speed: 7500,
        deaths: 1,
        kills: 0,
        no_interpolation: false,
        name: "victim".to_string(),
        spawn_pos: None,
    }));
    // dead players are not solid, so the projectile flies straight past
    st.things.insert(projectile_at(2000, 5000, 30000, 0, shooter));
    update_things(&mut st, 100);
    assert_eq!(hearts_of(&st, victim), 0);
    assert!(!st
        .events
        .iter()
        .any(|e| matches!(e, Event::PlayerDied { .. })));
}

#[test]
fn projectile_hitting_wall_is_removed_with_event() {
    let mut st = State::new();
    let owner = st.things.insert(player_at("gunner", 30000, 25000, 3));
    let proj = st.things.insert(projectile_at(3000, 8000, 20000, 0, owner));
    update_things(&mut st, 1000);
    assert!(st.things.get(proj).is_none());
    // removed at the last position before touching the wall corner
    assert!(st.events.iter().any(|e| matches!(
        e,
        Event::ProjectileHit { pos } if *pos == (Vec2 { x: 6750, y: 8000 })
    )));
}

#[test]
fn respawn_places_player_exactly_at_pending_spawn() {
    let mut st = State::new();
    let id = st.things.insert(Thing::Player(PlayerThing {
        pos: Vec2 { x: 9000, y: 9000 },
        radius: 500,
        solid: Solid::NonSolid,
        hearts: 0,
        respawn_timer: 500,
        ability_cooldown: 0,
        speed: 7500,
        deaths: 1,
        kills: 0,
        no_interpolation: false,
        name: "lazarus".to_string(),
        spawn_pos: Some(Vec2 { x: 2000, y: 3000 }),
    }));
    update_things(&mut st, 1000);
    match st.things.get(id) {
        Some(Thing::Player(p)) => {
            assert_eq!(p.pos, Vec2 { x: 2000, y: 3000 });
            assert_eq!(p.hearts, 3);
            assert_eq!(p.solid, Solid::Solid);
            assert_eq!(p.respawn_timer, 0);
            assert!(p.spawn_pos.is_none());
        }
        _ => panic!("player vanished"),
    }
}

#[test]
fn dead_player_is_assigned_a_declared_spawn_point() {
    let mut st = State::new();
    st.next_spawn = 0;
    let id = st.things.insert(Thing::Player(PlayerThing {
        pos: Vec2 { x: 9000, y: 9000 },
        radius: 500,
        solid: Solid::NonSolid,
        hearts: 0,
        respawn_timer: 2500,
        ability_cooldown: 0,
        speed: 7500,
        deaths: 0,
        kills: 0,
        no_interpolation: false,
        name: "w".to_string(),
        spawn_pos: None,
    }));
    update_things(&mut st, 100);
    match st.things.get(id) {
        Some(Thing::Player(p)) => {
            let sp = p.spawn_pos.expect("spawn position assigned");
            assert!(st.map.spawn_points.contains(&sp));
            assert_eq!(sp, st.map.spawn_points[0]);
            assert_eq!(p.respawn_timer, 2400);
        }
        _ => panic!("player vanished"),
    }
    assert_eq!(st.next_spawn, 1);
}

#[test]
fn spawn_rotation_cycles_without_repetition() {
    let st = State::new();
    let mut cursor: i16 = 0;
    let a = State::next_spawn_pos(&mut cursor, &st.map.spawn_points);
    let b = State::next_spawn_pos(&mut cursor, &st.map.spawn_points);
    assert_eq!(a, st.map.spawn_points[0]);
    assert_eq!(b, st.map.spawn_points[1]);
    assert_ne!(a, b);
    assert_eq!(cursor, 2);
}

#[test]
fn randomized_restart_picks_declared_spawn() {
    let st = State::new();
    let mut cursor: i16 = -1;
    let p = State::next_spawn_pos(&mut cursor, &st.map.spawn_points);
    assert!(st.map.spawn_points.contains(&p));
    assert!(cursor >= 1 && (cursor as usize) <= st.map.spawn_points.len());
}

#[test]
fn cooldown_decays_to_zero_never_below() {
    let mut st = State::new();
    let id = st.things.insert(Thing::Player(PlayerThing {
        ability_cooldown: 150,
        ..match player_at("cd", 5000, 5000, 3) {
            Thing::Player(p) => p,
            _ => unreachable!(),
        }
    }));
    update_things(&mut st, 100);
    match st.things.get(id) {
        Some(Thing::Player(p)) => assert_eq!(p.ability_cooldown, 50),
        _ => panic!(),
    }
    update_things(&mut st, 100);
    match st.things.get(id) {
        Some(Thing::Player(p)) => assert_eq!(p.ability_cooldown, 0),
        _ => panic!(),
    }
}

#[test]
fn sweep_stops_without_penetration() {
    let mut st = State::new();
    let blocker = st.things.insert(player_at("wall", 10000, 18000, 3));
    let mover_id = st.things.insert(player_at("mover", 5000, 18000, 3));
    let reference = st.duplicate();
    let mut mover = player_at("mover", 5000, 18000, 3);
    let res = move_thing_direct_sweep(
        mover_id,
        &mut mover,
        Vec2 { x: 12000, y: 18000 },
        &reference,
        None,
    );
    assert_eq!(res, CollisionResult::Thing(blocker));
    let end = mover.pos();
    // resulting circle does not overlap the blocker (sum of radii 1000)
    let dx = end.x - 10000;
    let dy = end.y - 18000;
    assert!(dx * dx + dy * dy >= 1000 * 1000);
    // and it advanced from its start toward the blocker
    assert!(end.x > 5000 && end.x < 10000);
}

#[test]
fn zero_solidity_moves_unconditionally() {
    let mut st = State::new();
    st.things.insert(player_at("wall", 10000, 10000, 3));
    let ghost_id = st.things.insert(player_at("ghost", 5000, 10000, 0));
    let reference = st.duplicate();
    let mut ghost = player_at("ghost", 5000, 10000, 0);
    let res = move_thing_direct_sweep(
        ghost_id,
        &mut ghost,
        Vec2 { x: 12000, y: 10000 },
        &reference,
        None,
    );
    assert_eq!(res, CollisionResult::Clear);
    assert_eq!(ghost.pos(), Vec2 { x: 12000, y: 10000 });
}

#[test]
fn apply_input_moves_alive_player_and_clamps() {
    let mut st = State::new();
    let id = st.things.insert(player_at("runner", 2000, 5000, 3));
    let cmd = Input {
        timestamp_ms: 1,
        thing_id: Some(id),
        movement_dir: Vec2 { x: -1000, y: 0 },
        movement: Vec2 { x: -1000, y: 0 }, // one full second to the left
        ability_trigger: false,
        ability_target: Vec2 { x: 0, y: 0 },
    };
    apply_input(&mut st, &cmd, true);
    match st.things.get(id) {
        // 2000 - 7500 would leave the world; clamped to the margin
        Some(Thing::Player(p)) => assert_eq!(p.pos, Vec2 { x: 1000, y: 5000 }),
        _ => panic!(),
    }
}

#[test]
fn stale_identifier_command_is_silent() {
    let mut st = State::new();
    let id = st.things.insert(player_at("gone", 5000, 5000, 3));
    st.things.remove(id);
    let before = st.duplicate();
    let cmd = Input {
        timestamp_ms: 1,
        thing_id: Some(id),
        movement_dir: Vec2 { x: 1000, y: 0 },
        movement: Vec2 { x: 1000, y: 0 },
        ability_trigger: false,
        ability_target: Vec2 { x: 0, y: 0 },
    };
    apply_input(&mut st, &cmd, true);
    assert_eq!(st, before);
}
