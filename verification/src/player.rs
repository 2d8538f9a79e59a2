//! Commands and the server-side per-client session record.

use vstd::prelude::*;

use crate::geom::{Vec2, COORD_LIMIT, MOVE_LIMIT, SCALE};
use crate::state::{State, StateView};
use crate::store::Id;

verus! {

/// One player's intended action for a time slice. Clients produce one
/// per local tick; the server consumes them in arrival order.
#[derive(Clone, Copy, PartialEq, Eq, Structural, Debug)]
pub struct Input {
    /// When the command was issued (milliseconds).
    pub timestamp_ms: u64,
    /// The entity this command steers.
    pub thing_id: Option<Id>,
    /// Held movement direction, in milli-units (a unit vector scaled by
    /// `SCALE`, or zero).
    pub movement_dir: Vec2,
    /// The movement delta for this slice: direction scaled by the
    /// elapsed milliseconds over `SCALE`.
    pub movement: Vec2,
    /// The player wants to use the fire ability.
    pub ability_trigger: bool,
    /// Where the player is aiming, in world coordinates.
    pub ability_target: Vec2,
}

impl Input {
    /// Bounds every inbound command must satisfy; commands that fail
    /// this are discarded at the decode boundary.
    pub open spec fn wf(self) -> bool {
        &&& self.movement.in_limit(MOVE_LIMIT)
        &&& self.movement_dir.in_limit((2 * SCALE) as i64)
        &&& self.ability_target.in_limit(COORD_LIMIT)
    }

    pub fn check_wf(&self) -> (r: bool)
        ensures
            r == self.wf(),
    {
        self.movement.x >= -MOVE_LIMIT && self.movement.x <= MOVE_LIMIT && self.movement.y
            >= -MOVE_LIMIT && self.movement.y <= MOVE_LIMIT && self.movement_dir.x >= -2 * SCALE
            && self.movement_dir.x <= 2 * SCALE && self.movement_dir.y >= -2 * SCALE
            && self.movement_dir.y <= 2 * SCALE && self.ability_target.x >= -COORD_LIMIT
            && self.ability_target.x <= COORD_LIMIT && self.ability_target.y >= -COORD_LIMIT
            && self.ability_target.y <= COORD_LIMIT
    }
}

impl Default for Input {
    /// The neutral command: no target entity, no movement, no trigger.
    fn default() -> (r: Input)
        ensures
            r == (Input {
                timestamp_ms: 0,
                thing_id: None,
                movement_dir: Vec2 { x: 0, y: 0 },
                movement: Vec2 { x: 0, y: 0 },
                ability_trigger: false,
                ability_target: Vec2 { x: 0, y: 0 },
            }),
    {
        Input {
            timestamp_ms: 0,
            thing_id: None,
            movement_dir: Vec2 { x: 0, y: 0 },
            movement: Vec2 { x: 0, y: 0 },
            ability_trigger: false,
            ability_target: Vec2 { x: 0, y: 0 },
        }
    }
}

/// Mathematical view of a session record.
pub struct PlayerSessionView {
    pub client_id: u64,
    pub client_name: Seq<char>,
    pub thing: Option<Id>,
    pub latest_input_timestamp_ms: u64,
    pub inputs: Seq<Input>,
    pub state: StateView,
}

/// Server-side record of one connected client: identity, controlled
/// entity, pending commands, and the last state sent (the delta base).
#[derive(PartialEq, Debug)]
pub struct Player {
    pub client_id: u64,
    pub client_name: String,
    pub thing: Option<Id>,
    pub latest_input_timestamp_ms: u64,
    /// Pending commands, oldest first; drained every tick.
    pub inputs: Vec<Input>,
    /// Last state transmitted to this client.
    pub state: State,
}

impl View for Player {
    type V = PlayerSessionView;

    open spec fn view(&self) -> PlayerSessionView {
        PlayerSessionView {
            client_id: self.client_id,
            client_name: self.client_name@,
            thing: self.thing,
            latest_input_timestamp_ms: self.latest_input_timestamp_ms,
            inputs: self.inputs@,
            state: self.state@,
        }
    }
}

impl Player {
    /// Drop all pending commands.
    pub fn clear_inputs(&mut self)
        ensures
            final(self)@ == (PlayerSessionView { inputs: Seq::empty(), ..old(self)@ }),
    {
        self.inputs.clear();
        proof {
            assert(self.inputs@ =~= Seq::<Input>::empty());
        }
    }
}

} // verus!
