//! Entity accessors and defaults.

use arena_sync::player::Player;
use arena_sync::thing::{PlayerThing, Solid, Thing};
use arena_sync::{Id, Input, State, Vec2};

#[test]
fn new_player_starts_dead_and_armed_to_respawn() {
    let t = Thing::new_player("nia");
    match &t {
        Thing::Player(p) => {
            assert_eq!(p.hearts, 0);
            assert_eq!(p.solid, Solid::NonSolid);
            assert_eq!(p.respawn_timer, 3000);
            assert_eq!(p.radius, 500);
            assert_eq!(p.speed, 7500);
            assert!(!p.is_alive());
        }
        _ => panic!(),
    }
    assert_eq!(t.name(), "nia");
    assert_eq!(t.radius(), 500);
    assert!(!t.no_interpolate());
}

#[test]
fn new_projectile_is_partially_solid() {
    let owner = Id { slot: 3, generation: 1 };
    let t = Thing::new_projectile(Vec2 { x: 1, y: 2 }, Vec2 { x: 5, y: 6 }, owner);
    assert_eq!(t.pos(), Vec2 { x: 1, y: 2 });
    assert_eq!(t.solid(), Solid::Partial);
    assert_eq!(t.name(), "");
    match t {
        Thing::Projectile(p) => assert_eq!(p.owner, owner),
        _ => panic!(),
    }
}

#[test]
fn spawn_restores_a_player_in_place() {
    let mut t = Thing::new_player("rex");
    match &mut t {
        Thing::Player(p) => p.spawn_pos = Some(Vec2 { x: 4000, y: 5000 }),
        _ => panic!(),
    }
    t.spawn();
    match &t {
        Thing::Player(p) => {
            assert_eq!(p.pos, Vec2 { x: 4000, y: 5000 });
            assert_eq!(p.hearts, 3);
            assert_eq!(p.solid, Solid::Solid);
            assert!(p.spawn_pos.is_none());
        }
        _ => panic!(),
    }
}

#[test]
fn mutable_accessors_write_through() {
    let mut t = Thing::new_player("mut");
    *t.solid_mut() = Solid::Partial;
    *t.pos_mut() = Vec2 { x: 9, y: 9 };
    assert_eq!(t.solid(), Solid::Partial);
    assert_eq!(t.pos(), Vec2 { x: 9, y: 9 });
}

#[test]
fn defaults_are_neutral() {
    assert_eq!(Solid::default(), Solid::Solid);
    let i = Input::default();
    assert!(i.thing_id.is_none());
    assert!(!i.ability_trigger);
    assert_eq!(i.movement, Vec2 { x: 0, y: 0 });
}

#[test]
fn session_clear_inputs_empties_the_queue() {
    let mut p = Player {
        client_id: 1,
        client_name: "s".to_string(),
        thing: None,
        latest_input_timestamp_ms: 0,
        inputs: vec![Input::default(), Input::default()],
        state: State::new(),
    };
    p.clear_inputs();
    assert!(p.inputs.is_empty());
}

#[test]
fn well_formedness_check_rejects_bad_states() {
    let mut st = State::new();
    assert!(st.check_wf());
    st.things.insert(Thing::Player(PlayerThing {
        pos: Vec2 { x: 0, y: 0 },
        radius: 0, // invariant: radius must be positive
        solid: Solid::Solid,
        hearts: 1,
        respawn_timer: 0,
        ability_cooldown: 0,
        speed: 7500,
        deaths: 0,
        kills: 0,
        no_interpolation: false,
        name: "bad".to_string(),
        spawn_pos: None,
    }));
    assert!(!st.check_wf());
}
