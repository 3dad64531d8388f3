//! The wire format of DNS messages: header, questions and resource records.

pub mod header;
pub mod message;
pub mod name;
pub mod name_laws;
pub mod question;
pub mod record;
pub mod resolver;
pub mod round_trip;
