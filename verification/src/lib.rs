//! Manager for externally started audio programs wired together through a
//! JACK-style audio-routing daemon.
//!
//! The library holds the verified core: parsing of the daemon's text
//! protocol, wildcard/affinity resolution of connection intents, use-case
//! filter collection, reconciliation planning, and the process-supervision
//! decisions (idempotent start against a persisted liveness marker, cleanup
//! of stale markers). Port, node and command names are byte strings; the
//! surrounding binary performs the actual process spawns, daemon commands and
//! file I/O and hands the library plain snapshots of the outside state.

pub mod filters;
pub mod model;
pub mod names;
pub mod parse;
pub mod pattern;
pub mod pid;
pub mod reconcile;
pub mod resolve;
pub mod supervisor;
