//! Session and world broker core of a multiplayer voxel-world server:
//! geometry values, the binary message protocol, the per-connection
//! session state machine and the world registry that routes broadcasts.

pub mod vec;
pub mod types;
pub mod protocol;
pub mod message;
pub mod broker;
pub mod session;
pub mod registry;
