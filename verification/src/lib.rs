//! A content-addressed file deduplication engine.
//!
//! The crate holds the decisions of the engine: how files are sampled and
//! hashed, how candidates are bucketed and grouped, what the state store
//! records, where a vault object lives, and in which order a duplicate is
//! swapped for a link. Everything that touches the disk is left to the
//! caller, who performs the operations the crate asks for and reports back
//! how they went.

pub mod types;
pub mod hasher;
pub mod ops;
pub mod dedupe;
pub mod vault;
pub mod state;
pub mod codec;
pub mod grouping;
pub mod scanner;
pub mod pipeline;
pub mod linking;
pub mod safety;
