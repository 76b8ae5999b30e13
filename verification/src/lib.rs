//! Core engine for a guild-scoped social-deduction game: authoritative game
//! state, a time-bounded cache in front of it, day/night phase transitions,
//! and deterministic vote tallies.
//!
//! The crate is organised leaf-first:
//! - [`state`]: the data model (games, players, per-guild configuration);
//! - [`tally`]: the pure vote-tally engine and its laws;
//! - [`cache`]: a capacity-bounded, time-to-live cache keyed by guild;
//! - [`store`]: the in-memory system of record and its atomic updates;
//! - [`engine`]: the session manager tying store and cache together.

pub mod cache;
pub mod engine;
pub mod state;
pub mod store;
pub mod tally;
