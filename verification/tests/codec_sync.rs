//! State synchronization: deterministic encoding and delta round trips.

use arena_sync::codec::{decode_state, encode_state};
use arena_sync::thing::{PlayerThing, Solid, Thing};
use arena_sync::{Event, State, Vec2};

fn sample_player(name: &str, x: i64, y: i64, hearts: i8) -> Thing {
    Thing::Player(PlayerThing {
        pos: Vec2 { x, y },
        radius: 500,
        solid: if hearts > 0 { Solid::Solid } else { Solid::NonSolid },
        hearts,
        respawn_timer: 0,
        ability_cooldown: 0,
        speed: 7500,
        deaths: 0,
        kills: 0,
        no_interpolation: false,
        name: name.to_string(),
        spawn_pos: None,
    })
}

#[test]
fn encode_decode_initial_state() {
    let a = State::new();
    let bytes = encode_state(&a);
    let back = decode_state(&bytes).expect("own encoding must decode");
    assert_eq!(back, a);
}

#[test]
fn encode_decode_populated_state() {
    let mut b = State::new();
    b.timestamp = 42;
    b.next_spawn = 3;
    b.things.insert(sample_player("alice", 5000, 6000, 3));
    b.things.insert(sample_player("bob", 20000, 9000, 1));
    b.events.push(Event::ProjectileHit { pos: Vec2 { x: 7, y: -9 } });
    let bytes = encode_state(&b);
    let back = decode_state(&bytes).expect("own encoding must decode");
    assert_eq!(back, b);
}

#[test]
fn delta_round_trip_is_exact() {
    let a = State::new();
    let mut b = State::new();
    b.timestamp = 1000;
    b.things.insert(sample_player("alice", 5000, 6000, 3));
    b.events.push(Event::PlayerDied {
        thing_id: arena_sync::Id { slot: 0, generation: 0 },
        pos: Vec2 { x: 5000, y: 6000 },
    });
    let delta = b.to_delta(&a);
    let rebuilt = State::from_delta(&a, &delta).expect("delta against its base must apply");
    assert_eq!(rebuilt, b);
    assert_eq!(encode_state(&rebuilt), encode_state(&b));
}

#[test]
fn delta_of_identical_states_is_small() {
    let a = State::new();
    let b = State::new();
    let delta = b.to_delta(&a);
    // only the length header: no differing byte positions
    assert_eq!(delta.len(), 8);
    let rebuilt = State::from_delta(&a, &delta).expect("empty delta applies");
    assert_eq!(rebuilt, b);
}

#[test]
fn truncated_delta_is_rejected() {
    let a = State::new();
    let mut b = State::new();
    b.timestamp = 7;
    let mut delta = b.to_delta(&a);
    delta.truncate(3);
    assert!(State::from_delta(&a, &delta).is_none());
}

#[test]
fn garbage_bytes_do_not_decode() {
    let bytes = vec![0xffu8; 40];
    assert!(decode_state(&bytes).is_none());
}
