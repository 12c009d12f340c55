//! The height-keyed stores and the engines that write to them.

pub mod block;
pub mod engine;
pub mod laws;
pub mod shard;
