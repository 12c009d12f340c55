//! The proposers: what stands between the consensus layer and the engines.

pub mod pending;
pub mod proposer;
pub mod table;
