//! Core of a sharded chain node: the height-keyed store of shard chunks and
//! blocks, the engines that commit them, the proposers that bridge them to a
//! consensus layer, and the supervisor that wires one proposer per shard.
//!
//! Every function here carries a contract that Verus proves. The few items
//! that reach outside the crate are marked and documented where they stand.

pub mod types;
pub mod wire;
pub mod proto;
pub mod format;
pub mod codec;
pub mod roundtrip;
pub mod hash;
pub mod storage;
pub mod consensus;
pub mod node;
