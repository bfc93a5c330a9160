//! Core of a pie-portfolio dashboard: a store of investment "pies" merged
//! from periodic remote listings, one-time enrichment metadata, a tolerant
//! wire codec for the remote API's response shapes, and whole-store
//! persistence with a proven round trip.
//!
//! The process around this library runs the refresh cycle: it performs the
//! network fetches and file writes, holds the store behind a lock for the
//! in-memory operations only, and renders snapshots. Every rule — how a
//! fetched record merges into the store, when enrichment is owed, how a
//! response is classified, what the persisted file holds — lives here.
pub mod codec;
pub mod engine;
pub mod json;
pub mod numeral;
pub mod record;
pub mod store;
pub mod wire;
