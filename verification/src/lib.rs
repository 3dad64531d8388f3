//! Verified cores of two small network protocols: a room-based chat service
//! (message codec, presence registry, session state machine and dispatcher,
//! client session) and the DNS message wire format.

pub mod chat;
pub mod dns;
pub mod endian;
pub mod scan;
mod text;
