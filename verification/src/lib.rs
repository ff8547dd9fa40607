//! Core of a block-aware cache for near-tip chain data.
//!
//! The crate provides a backend-agnostic storage capability whose operations
//! are serialized through a single exclusive owner, an ordered index from
//! block numbers to the cache keys recorded while each block was the observed
//! head, and the coordinator logic that evicts index ranges on chain
//! reorganizations and retires entries once finality has passed them.

pub mod config;
pub mod database;
pub mod health;
