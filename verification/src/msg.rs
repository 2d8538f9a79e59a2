//! Messages crossing the core boundary between server and clients.
//!
//! These are carried as values; the state payloads inside them use the
//! verified deterministic codec (`codec::encode_state`, `State::to_delta`).

use vstd::prelude::*;

use crate::player::Input;
use crate::state::State;
use crate::store::Id;

verus! {

/// One protocol message.
pub enum CustomMsg {
    /// A full authoritative snapshot, with the timestamp of the last
    /// command of this client the server has processed.
    ServerSnapshotFull { input_timestamp_ms: u64, state: State },
    /// A delta against the last state sent to this client.
    ServerSnapshotDelta { input_timestamp_ms: u64, delta: Vec<u8> },
    /// The client's controlled entity and the server tick rate.
    ServerPlayerInfo { thing_id: Option<Id>, tick_rate: u8 },
    /// A command from a client.
    ClientInput { input: Input },
}

} // verus!
