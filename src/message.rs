//! Requests that sessions send to the world broker, and its replies.
use crate::protocol::Message;
use crate::types::{Coords2, Coords3, Quaternion};
use vstd::prelude::*;

verus! {

/// The id that the broker assigned on a join.
#[derive(Debug, Clone, Copy, PartialEq, Eq, Structural)]
pub struct JoinResult {
    pub id: u64,
}

/// Asks the broker to add a session to a world.
#[derive(Debug, Clone)]
pub struct JoinWorld {
    pub world_name: String,
    pub client_name: Option<Vec<u8>>,
    pub render_radius: i16,
}

/// Asks the broker to remove a session from a world.
#[derive(Debug, Clone)]
pub struct LeaveWorld {
    pub world_name: String,
    pub client_id: u64,
}

/// A partial update of a member's state: only the fields that are present
/// change.
#[derive(Debug, Clone)]
pub struct PlayerUpdate {
    pub world_name: String,
    pub client_id: u64,
    pub name: Option<Vec<u8>>,
    pub position: Option<Coords3<u32>>,
    pub rotation: Option<Quaternion>,
    pub chunk: Option<Coords2<i32>>,
}

/// Chat content to relay to the other members of a world.
#[derive(Debug, Clone)]
pub struct SendMessage {
    pub world_name: String,
    pub client_id: u64,
    pub content: Message,
}

/// The bytes held by an optional name.
pub open spec fn opt_bytes(o: Option<Vec<u8>>) -> Option<Seq<u8>> {
    match o {
        Some(v) => Some(v@),
        None => None,
    }
}

/// Copies an optional name.
pub fn clone_name(o: &Option<Vec<u8>>) -> (r: Option<Vec<u8>>)
    ensures
        opt_bytes(r) == opt_bytes(*o),
{
    match o {
        Some(v) => Some(v.clone()),
        None => None,
    }
}

} // verus!
