//! The terminal session bridge.
//!
//! One session owns one shell on one pseudo-terminal and one client channel.
//! Three relays move bytes between them and a coordinator tears the whole
//! session down as soon as either side is gone.
//!
//! * [`session`] is the coordinator: the life of one session.
//! * [`relay`] holds the three relays, one decision per message or chunk.
//! * [`stream`] states what the relays do to whole streams of bytes.
//! * [`registry`] keeps apart the sessions that are open at one time.
//! * [`isolation`] states that sessions see nothing of each other's traffic.

pub mod isolation;
pub mod registry;
pub mod relay;
pub mod session;
pub mod stream;
