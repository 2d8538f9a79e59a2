//! Authoritative simulation and state-synchronization core of a small
//! real-time multiplayer arena game.
//!
//! The world is simulated on a fixed-point integer grid (1000 steps per
//! world unit), which keeps every movement, collision and codec rule a
//! provable function of plain values.

pub mod bot;
pub mod client;
pub mod codec;
pub mod geom;
pub mod msg;
pub mod player;
pub mod rng;
pub mod server;
pub mod simulation;
pub mod state;
pub mod store;
pub mod thing;

pub use bot::Bot;
pub use client::Client;
pub use geom::Vec2;
pub use msg::CustomMsg;
pub use player::{Input, Player};
pub use simulation::{apply_input, clamp_to_bounds, move_thing_direct_sweep, update_things, Circle, CollisionResult};
pub use server::Server;
pub use state::StateHistory;
pub use state::{Event, GameMap, Polyline, State};
pub use store::Id;
pub use thing::{PlayerThing, ProjectileThing, Solid, Thing};
