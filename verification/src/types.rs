//! Plain values shared by every layer: heights, shard identifiers and the
//! verdict a proposer gives on a peer's proposal.

use crate::wire::{bytes_eq, copy_bytes};
use vstd::prelude::*;

verus! {

/// Largest identifier a data shard may carry. Identifier 0 is the block shard.
pub const MAX_SHARDS: u32 = 3;

/// Identifier of the block shard.
pub const BLOCK_SHARD: u32 = 0;

/// Length in bytes of every hash the node produces.
pub const HASH_LEN: usize = 32;

/// A position in one shard's history.
#[derive(Clone, Copy, Debug, PartialEq, Eq, Structural)]
pub struct Height {
    pub shard_index: u32,
    pub block_number: u64,
}

impl Height {
    pub fn new(shard_index: u32, block_number: u64) -> (h: Height)
        ensures
            h.shard_index == shard_index,
            h.block_number == block_number,
    {
        Height { shard_index, block_number }
    }
}

/// Whether a shard identifier names a data shard.
pub open spec fn is_data_shard(shard_id: u32) -> bool {
    1 <= shard_id <= MAX_SHARDS
}

/// Verdict on a proposal received from a peer.
#[derive(Clone, Copy, Debug, PartialEq, Eq, Structural)]
pub enum Validity {
    Valid,
    Invalid,
}

/// Names a proposed value within a round: the hash of the value and the
/// shard it is proposed for.
#[derive(Debug, PartialEq, Eq)]
pub struct ShardHash {
    pub hash: Vec<u8>,
    pub shard_index: u32,
}

pub struct ShardHashView {
    pub hash: Seq<u8>,
    pub shard_index: u32,
}

impl View for ShardHash {
    type V = ShardHashView;

    open spec fn view(&self) -> ShardHashView {
        ShardHashView { hash: self.hash@, shard_index: self.shard_index }
    }
}

impl DeepView for ShardHash {
    type V = ShardHashView;

    open spec fn deep_view(&self) -> ShardHashView {
        self@
    }
}

impl Clone for ShardHash {
    fn clone(&self) -> (r: Self)
        ensures
            r@ == self@,
    {
        ShardHash { hash: copy_bytes(&self.hash), shard_index: self.shard_index }
    }
}

impl ShardHash {
    /// Whether both name the same value.
    pub fn same(&self, other: &ShardHash) -> (r: bool)
        ensures
            r == (self@ == other@),
    {
        self.shard_index == other.shard_index && bytes_eq(&self.hash, &other.hash)
    }
}

/// A validator as a proposer comes to know it. `current_height` is what the
/// validator last advertised; it only decides whether to catch up from it.
#[derive(Debug, PartialEq, Eq)]
pub struct SnapchainValidator {
    pub shard_index: u32,
    pub public_key: Vec<u8>,
    pub rpc_address: Option<String>,
    pub current_height: u64,
}

} // verus!
