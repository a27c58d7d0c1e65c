//! The session core of a collaborative whiteboard server.
//!
//! Clients talk to the server in frames, one message each. `messages` says what a message is,
//! `format` how it lies on the wire, and `ser` and `de` write and read that layout; `roundtrip`
//! proves that the two agree. `client` holds the state machine of one connection, `server` the
//! boards and their registry, and `fanout` says what a broadcast does when channels fail;
//! `laws` proves what follows for those who share a board. `transport` is the way out: the
//! calls on the channels of the transport, and the record that is kept of them.

pub mod auth;
pub mod client;
pub mod de;
pub mod error;
pub mod fanout;
pub mod format;
pub mod laws;
pub mod messages;
pub mod roundtrip;
pub mod ser;
pub mod server;
pub mod transport;
