//! Topic rooms over a live event feed: a registry of rooms that match event
//! text by whole-word topic patterns, a fan-out bus, and the per-connection
//! session state machine.

pub mod bus;
pub mod event;
pub mod ingest;
pub mod matcher;
pub mod registry;
pub mod session;
