//! Server orchestration and client reconciliation, end to end.

use arena_sync::client::Client;
use arena_sync::server::{Server, BOT_COUNT};
use arena_sync::simulation::apply_inputs;
use arena_sync::thing::{PlayerThing, Solid, Thing};
use arena_sync::{apply_input, CustomMsg, Id, Input, State, Vec2};

fn player_at(name: &str, x: i64, y: i64, hearts: i8) -> Thing {
    Thing::Player(PlayerThing {
        pos: Vec2 { x, y },
        radius: 500,
        solid: if hearts > 0 { Solid::Solid } else { Solid::NonSolid },
        hearts,
        respawn_timer: 0,
        ability_cooldown: 0,
        speed: 7500,
        deaths: 0,
        kills: 0,
        no_interpolation: false,
        name: name.to_string(),
        spawn_pos: None,
    })
}

fn move_cmd(id: Id, ts: u64, dx: i64) -> Input {
    Input {
        timestamp_ms: ts,
        thing_id: Some(id),
        movement_dir: Vec2 { x: dx.signum() * 1000, y: 0 },
        movement: Vec2 { x: dx, y: 0 },
        ability_trigger: false,
        ability_target: Vec2 { x: 0, y: 0 },
    }
}

#[test]
fn bots_fill_in_and_leave_with_their_entities() {
    let mut server = Server::new();
    let mut out = Vec::new();
    server.update(0, 50, &mut out);
    assert_eq!(server.bots.len(), BOT_COUNT);
    let bot_ids: Vec<Id> = server.bots.iter().map(|b| b.thing_id).collect();
    for id in &bot_ids {
        assert!(server.current.things.get(*id).is_some());
    }
    // two players present, two bots as filler; a third player joins
    server.client_joined(1, "ann".to_string(), &mut out);
    server.client_joined(2, "ben".to_string(), &mut out);
    server.client_joined(3, "eve".to_string(), &mut out);
    server.update(50, 50, &mut out);
    // bots are removed and their entities deleted within the same tick
    assert_eq!(server.bots.len(), 0);
    for id in &bot_ids {
        assert!(server.current.things.get(*id).is_none());
    }
}

#[test]
fn join_gets_full_snapshot_then_delta_applies() {
    let mut server = Server::new();
    let mut out = Vec::new();
    server.client_joined(7, "zoe".to_string(), &mut out);
    let mut client = Client::new();
    let mut got_full = false;
    for (cid, msg) in out.drain(..) {
        assert_eq!(cid, 7);
        match msg {
            CustomMsg::ServerSnapshotFull { input_timestamp_ms, state } => {
                client.recv_snapshot_full(state, input_timestamp_ms);
                got_full = true;
            }
            CustomMsg::ServerPlayerInfo { thing_id, tick_rate } => {
                client.recv_player_info(thing_id, tick_rate);
            }
            _ => {}
        }
    }
    assert!(got_full);
    // the next tick sends a delta, and the client can apply it
    server.update(50, 50, &mut out);
    let mut applied_delta = false;
    for (_cid, msg) in out.drain(..) {
        match msg {
            CustomMsg::ServerSnapshotDelta { input_timestamp_ms, delta } => {
                assert!(client.recv_snapshot_delta(&delta, input_timestamp_ms));
                applied_delta = true;
            }
            CustomMsg::ServerPlayerInfo { thing_id, tick_rate } => {
                client.recv_player_info(thing_id, tick_rate);
            }
            _ => {}
        }
    }
    assert!(applied_delta);
    assert_eq!(client.current, server.current);
}

#[test]
fn corrupt_delta_asks_for_resync() {
    let mut client = Client::new();
    let garbage = vec![9u8, 9, 9];
    assert!(!client.recv_snapshot_delta(&garbage, 0));
}

#[test]
fn replaying_commands_matches_authoritative_application() {
    let mut base = State::new();
    let id = base.things.insert(player_at("racer", 5000, 5000, 3));
    let cmds = vec![
        move_cmd(id, 1, 200),
        move_cmd(id, 2, 150),
        move_cmd(id, 3, -80),
    ];
    // the server applies each command authoritatively ...
    let mut server_side = base.duplicate();
    for c in &cmds {
        apply_input(&mut server_side, c, true);
    }
    // ... the client replays the same commands during reconciliation
    let mut client_side = base.duplicate();
    apply_inputs(&mut client_side, &cmds);
    assert_eq!(server_side, client_side);
}

#[test]
fn reconciliation_drops_acknowledged_commands_and_replays_rest() {
    let mut authoritative = State::new();
    let id = authoritative.things.insert(player_at("p", 5000, 5000, 3));
    let mut client = Client::new();
    client.recv_player_info(Some(id), 20);
    client.input_history = vec![
        move_cmd(id, 1, 100),
        move_cmd(id, 2, 100),
        move_cmd(id, 3, 100),
    ];
    let mut expect = authoritative.duplicate();
    client.recv_snapshot_full(authoritative, 2);
    // only the unacknowledged command (timestamp 3) is kept and replayed
    assert_eq!(client.input_history.len(), 1);
    assert_eq!(client.input_history[0].timestamp_ms, 3);
    apply_input(&mut expect, &move_cmd(id, 3, 100), false);
    assert_eq!(client.current, expect);
}

#[test]
fn firing_spawns_projectile_and_event() {
    let mut server = Server::new();
    let mut out = Vec::new();
    server.client_joined(1, "gun".to_string(), &mut out);
    server.update(0, 50, &mut out); // spawns the entity
    out.clear();
    // find the controlled entity and revive it so it can fire
    let id = server.players[0].thing.expect("entity assigned");
    match server.current.things.get_mut(id) {
        Thing::Player(p) => {
            p.hearts = 3;
            p.solid = Solid::Solid;
            p.pos = Vec2 { x: 20000, y: 20000 };
        }
        _ => panic!(),
    }
    let fire = Input {
        timestamp_ms: 9,
        thing_id: Some(id),
        movement_dir: Vec2 { x: 0, y: 0 },
        movement: Vec2 { x: 0, y: 0 },
        ability_trigger: true,
        ability_target: Vec2 { x: 30000, y: 20000 },
    };
    server.recv_custom_msg(1, CustomMsg::ClientInput { input: fire });
    server.update(50, 50, &mut out);
    // the shot was fired: the event is in this tick's state, and the
    // projectile entity is in flight
    assert!(server
        .current
        .events
        .iter()
        .any(|e| matches!(e, arena_sync::Event::ProjectileFired { .. })));
    assert!(server.current.things.slots.iter().any(|s| matches!(
        s.value,
        Some(Thing::Projectile(_))
    )));
    assert_eq!(server.players[0].latest_input_timestamp_ms, 9);
    let mut saw_delta = false;
    for (_cid, msg) in out.drain(..) {
        if let CustomMsg::ServerSnapshotDelta { input_timestamp_ms, .. } = msg {
            assert_eq!(input_timestamp_ms, 9);
            saw_delta = true;
        }
    }
    assert!(saw_delta);
}

#[test]
fn long_join_name_is_truncated_on_a_character_boundary() {
    let mut server = Server::new();
    let mut out = Vec::new();
    let long_ascii = "a".repeat(300);
    server.client_joined(1, long_ascii, &mut out);
    assert_eq!(server.players[0].client_name, "a".repeat(256));
    // a multibyte character straddling the limit is dropped whole
    let mut tricky = "b".repeat(255);
    tricky.push('é'); // two bytes: 255 + 2 > 256
    tricky.push_str(&"c".repeat(100));
    server.client_joined(2, tricky, &mut out);
    assert_eq!(server.players[1].client_name, "b".repeat(255));
}

#[test]
fn joining_twice_keeps_one_session() {
    let mut server = Server::new();
    let mut out = Vec::new();
    server.client_joined(9, "dup".to_string(), &mut out);
    server.client_joined(9, "dup".to_string(), &mut out);
    assert_eq!(server.players.len(), 1);
    server.client_left(9);
    assert_eq!(server.players.len(), 0);
    // leaving again is a silent no-op
    server.client_left(9);
}

#[test]
fn malformed_command_is_discarded() {
    let mut server = Server::new();
    let mut out = Vec::new();
    server.client_joined(1, "x".to_string(), &mut out);
    let bad = Input {
        timestamp_ms: 5,
        thing_id: None,
        movement_dir: Vec2 { x: 0, y: 0 },
        movement: Vec2 { x: 99_999_999, y: 0 }, // far beyond the movement bound
        ability_trigger: false,
        ability_target: Vec2 { x: 0, y: 0 },
    };
    server.recv_custom_msg(1, CustomMsg::ClientInput { input: bad });
    assert_eq!(server.players[0].inputs.len(), 0);
}
