//! Connection core of a small multiplayer session server.
//!
//! The crate provides the pieces that any routing policy would be built on:
//! a frame codec that turns a raw byte stream into discrete messages and
//! back, a tagged message model with a mandatory handshake, a registry that
//! maps live connection identities to their outbound-message handles, and the
//! per-connection state machine that drives the handshake and the multiplex
//! loop.  An embedding program owns the sockets and the task scheduler; every
//! decision it takes per connection is a call into this crate.

pub mod actor;
pub mod codec;
pub mod messages;
pub mod outbound;
pub mod registry;
