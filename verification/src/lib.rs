//! A versioned history store for configuration snapshots.
//!
//! The store keeps, per managed entity, an ordered index of snapshot
//! metadata together with the snapshot blobs themselves, enforces a
//! retention bound on automatic saves, de-duplicates consecutive
//! automatic saves by checksum, and supports point-in-time lookup and
//! deletion.  All structural operations are verified; the surrounding
//! process (file persistence, clock, identifier generation) enters only
//! through narrow trusted boundaries.

pub mod checksum;
pub mod definitions;
pub mod errors;
pub mod index;
pub mod outside;
pub mod store_model;
pub mod version_storage;
pub mod laws;
pub mod manager;
pub mod preferences;
pub mod restore;

