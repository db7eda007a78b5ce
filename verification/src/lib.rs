//! Verified core of a multi-client line-broadcast relay.
//!
//! The library models the relay's logic: per-connection byte-to-line framing,
//! the registry of currently connected peers, broadcast fan-out planning, and
//! the two execution-model state machines (an aggregator fed by per-connection
//! workers, and a single-threaded reactor driven by readiness notifications).
//! All I/O — accepting sockets, reading, writing, arming kernel interest —
//! is left to the embedding program, which drives these state machines and
//! performs the effects they return.

pub mod aggregator;
pub mod fanout;
pub mod framer;
pub mod history;
pub mod reactor;
pub mod registry;
