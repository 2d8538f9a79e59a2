//! Render-time interpolation: alpha bounds and teleport snapping.

use arena_sync::client::Client;
use arena_sync::state::StateHistory;
use arena_sync::thing::{PlayerThing, Solid, Thing};
use arena_sync::{State, Vec2};

fn player_at(x: i64, y: i64) -> Thing {
    Thing::Player(PlayerThing {
        pos: Vec2 { x, y },
        radius: 500,
        solid: Solid::Solid,
        hearts: 3,
        respawn_timer: 0,
        ability_cooldown: 0,
        speed: 7500,
        deaths: 0,
        kills: 0,
        no_interpolation: false,
        name: "i".to_string(),
        spawn_pos: None,
    })
}

#[test]
fn alpha_is_always_between_zero_and_one() {
    assert_eq!(Client::compute_alpha(0, 20), 0);
    assert_eq!(Client::compute_alpha(25, 20), 500);
    assert_eq!(Client::compute_alpha(50, 20), 1000);
    assert_eq!(Client::compute_alpha(75, 20), 1000);
    assert_eq!(Client::compute_alpha(1000, 20), 1000);
    assert_eq!(Client::compute_alpha(u64::MAX, 255), 1000);
    assert_eq!(Client::compute_alpha(12345, 0), 0);
}

#[test]
fn small_delta_interpolates_linearly() {
    let prev = player_at(9000, 10000);
    let cur = player_at(10000, 10000);
    assert_eq!(cur.lerp_pos(&prev, 0), Vec2 { x: 9000, y: 10000 });
    assert_eq!(cur.lerp_pos(&prev, 500), Vec2 { x: 9500, y: 10000 });
    assert_eq!(cur.lerp_pos(&prev, 1000), Vec2 { x: 10000, y: 10000 });
}

#[test]
fn teleport_delta_snaps_to_current_position() {
    let prev = player_at(2000, 2000);
    let cur = player_at(10000, 10000);
    assert_eq!(cur.lerp_pos(&prev, 500), Vec2 { x: 10000, y: 10000 });
}

#[test]
fn history_keeps_the_two_newest_states() {
    let mut h = StateHistory::new();
    assert_eq!(h.len(), 0);
    let mut a = State::new();
    a.timestamp = 1;
    let mut b = State::new();
    b.timestamp = 2;
    h.remember(a);
    h.remember(b);
    assert_eq!(h.len(), 2);
    assert_eq!(h.current().timestamp, 2);
    assert_eq!(h.prev().timestamp, 1);
    h.clear();
    assert_eq!(h.len(), 0);
    // too short: the default state stands in
    assert_eq!(h.current().timestamp, 0);
}

#[test]
fn history_evicts_oldest_beyond_capacity() {
    let mut h = StateHistory::new();
    for t in 0..30u64 {
        let mut s = State::new();
        s.timestamp = t;
        h.remember(s);
    }
    assert!(h.len() <= 21);
    assert_eq!(h.current().timestamp, 29);
}

#[test]
fn client_frame_buffers_and_returns_command() {
    let mut c = Client::new();
    let (cmd, events) = c.update(100, 50, Vec2 { x: 1000, y: 0 }, false, Vec2 { x: 0, y: 0 });
    assert_eq!(cmd.timestamp_ms, 100);
    assert_eq!(cmd.movement, Vec2 { x: 50, y: 0 });
    assert_eq!(c.input_history.len(), 1);
    assert!(events.is_empty());
    assert!(c.lerp_alpha_milli >= 0 && c.lerp_alpha_milli <= 1000);
}
