//! Liveness metadata for a catalogue of content identifiers, gathered by
//! querying distributed tracking servers over a compact binary wire protocol.
//!
//! The library is organised leaf-first: a wire codec for the four fixed
//! binary messages, a per-endpoint session layer, a batch planner, a pure
//! fan-out plan, and an aggregation layer that reconciles per-server answers
//! into one verdict per identifier.  The surrounding I/O (sockets, files,
//! HTTP) lives outside the library and hands it plain values.

pub mod aggregate;
pub mod codec;
pub mod identifier;
pub mod orchestrator;
pub mod planner;
pub mod records;
pub mod search;
pub mod session;
pub mod text;
