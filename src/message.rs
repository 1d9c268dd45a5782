//! The requests that connections send to the coordinator.
use vstd::prelude::*;

verus! {

/// A text frame for one client.
pub struct ChatMessage(pub String);

/// Add the named client to a room: session, room name, client name.
pub struct JoinRoom(pub u128, pub String, pub String);

/// Remove a client from a room: session, room name, client id.
pub struct LeaveRoom(pub u128, pub String, pub u64);

/// List the room names of a session.
pub struct ListRooms(pub u128);

/// Hand a message to the first client, in any session, with a given name.
pub struct RelaySignalMessage {
    pub from: String,
    pub to: String,
    pub message: ChatMessage,
}

/// Drop a whole session.
pub struct CleanupSession(pub u128);

/// Relay a signal payload between two named clients of a session that share a room.
pub struct ValidateAndRelaySignal {
    pub session_id: u128,
    pub from_user: String,
    pub to_user: String,
    pub payload: String,
}

} // verus!
