//! Netplay lobby: the synchronous state machine a host drives once a
//! connection is up — the phase, the settings exchange, the ready
//! handshake and the handoff into a match — and the compatibility check
//! between the two peers' settings.
//!
//! The machine decides and queues; the host performs. Wire sends come out
//! as [`Command`]s, failures the machine notices about itself come out as
//! [`Error`]s to feed back through [`State::apply`], and the outside work
//! (serializing, hashing, sockets) is the host's, which reports its
//! results back in.
pub mod client;
pub mod compat;
pub mod exchange;
pub mod handoff;
pub mod handshake;
pub mod protocol;
pub mod pump;
pub mod reconcile;
pub mod state;
