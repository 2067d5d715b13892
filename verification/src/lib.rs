//! Client-side library for composing calls against a pluggable state-machine
//! runtime and for consuming its event log.
//!
//! The library is organised around five pieces:
//! - [`codec`]: the compact, self-describing binary encoding for unsigned
//!   integers and length-prefixed byte strings;
//! - [`capability`]: named runtime capabilities and the structural check that
//!   a call family's requirements are declared by a target runtime;
//! - [`calls`]: the contracts-module call builder, which turns typed
//!   arguments into an opaque encoded payload;
//! - [`events`]: the event decoder and the log scanner that routes raw
//!   event-log entries to typed events;
//! - [`poller`]: the block-by-block polling state machine that trails a
//!   growing block sequence.
//!
//! The library never performs I/O itself: a transport collaborator resolves
//! block hashes, fetches event logs and submits payloads, and hands this
//! library plain values.

pub mod capability;
pub mod calls;
pub mod codec;
pub mod errors;
pub mod events;
pub mod poller;
pub mod types;
