//! Core of a small multi-client chat relay: the wire codec for message
//! envelopes, the per-connection session state machine, the shared client
//! registry with its broadcast dispatcher, the history archiver's record
//! selection, and the command-line grammars spoken by clients.
//!
//! Everything here is pure logic over plain values.  Sockets, the persistence
//! gateway and the task plumbing live outside and talk to this crate through
//! its public functions.

pub mod codec;
pub mod commands;
pub mod dispatcher;
pub mod model;
pub mod registry;
pub mod session;
pub mod text;
