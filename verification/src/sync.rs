//! File synchronisation with a remote store: what differs, what to do
//! about it, and how the outcome is tallied.
pub mod conflict;
pub mod diff;
pub mod engine;
pub mod remote;
pub mod scan;
pub mod state;
pub mod status;
