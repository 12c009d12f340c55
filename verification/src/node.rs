//! The supervisor of a node's shards.

pub mod snapchain_node;
