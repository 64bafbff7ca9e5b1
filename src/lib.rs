//! Room and session coordination for small real-time rooms: validated
//! identifiers, the member table of a room, the registry of rooms, and the
//! decisions of each connection session (handshake, event loop, eviction).

pub mod text;
pub mod names;
pub mod protocol;
mod platform;
pub mod room;
pub mod session;
pub mod registry;
