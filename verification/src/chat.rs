//! A room-scoped text chat service: clients take a unique name, join named
//! rooms and exchange messages that reach every member of the same room.

pub mod client;
pub mod codec;
pub mod command;
pub mod dispatcher;
pub mod laws;
pub mod message;
pub mod registry;
pub mod round_trip;
pub mod session;
pub mod state;
pub mod state_lemmas;
