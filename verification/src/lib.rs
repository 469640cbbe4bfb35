//! A sans-I/O responder for the opening exchange of a block-game server: it
//! reads a handshake, answers a status query or refuses a login with a message
//! that tells the client its own address, and hangs up.
//!
//! The crate never touches a socket. [`session::Session`] says which action
//! its driver has to perform next and is told what came of it;
//! [`conversation::handle_packets`] is that session driven over a buffer.
//! [`varint`], [`frame`] and [`json`] hold the wire format, [`invariants`]
//! and [`exchanges`] what is proved of the protocol as a whole.

pub mod error;
pub mod varint;
pub mod frame;
pub mod json;
pub mod session;
pub mod invariants;
pub mod conversation;
pub mod exchanges;
