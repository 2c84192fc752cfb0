//! A verified model of a blockchain node's snapshot storage lifecycle.
//!
//! Periodic checkpoints ("snapshots") of the node's global state are large,
//! file-backed databases, each identified by the epoch at which it was taken.
//! This crate verifies the component that owns those databases on disk and
//! arbitrates concurrent access to them: an open-handle cache mapping each
//! directory to its open state, a counting admission gate bounding how many
//! databases may be open at once, a deterministic directory-naming scheme, and
//! the create-by-merging / destroy / full-sync-commit lifecycle built on top
//! of them.
//!
//! The on-disk database engine and the host filesystem are external
//! collaborators.  They are represented here by explicit models ([`db_model`]
//! and [`fs_model`]) whose states are plain values, so every lifecycle
//! decision — what may be opened, which copy strategy is taken, what a merge
//! commits, when a directory may be removed — is a verified function of those
//! states.  The suspension points of a concurrent deployment (waiting on
//! the admission gate, waiting for an asynchronous close to finish) are
//! surfaced as distinguished results that a driver retries.

pub mod ids;
pub mod hex;
pub mod paths;
pub mod db_model;
pub mod fs_model;
pub mod pool;
pub mod registry;
pub mod errors;
pub mod manager;
pub mod laws;
pub mod trace_key;
