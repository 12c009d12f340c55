use snapchain::consensus::proposer::{
    BlockCatchUp, BlockProposer, BlocksRequest, Proposer, ShardCatchUp, ShardChunksRequest,
    ShardProposer, POLL_INTERVAL_MILLIS,
};
use snapchain::node::snapchain_node::NodeError;
use snapchain::storage::db::Db;
use snapchain::storage::store::block::{BlockStorageError, BlockStore};
use snapchain::storage::store::engine::{BlockEngine, EngineError, ShardEngine};
use snapchain::storage::store::shard::{DbError, ShardStorageError, ShardStore};
use snapchain::types::{Height, ShardHash, SnapchainValidator, Validity};
use std::time::Duration;

#[test]
fn shard_storage_errors_have_their_messages() {
    assert_eq!(ShardStorageError::ShardMissingHeader.message(), "Shard missing header");
    assert_eq!(ShardStorageError::ShardMissingHeight.message(), "Shard missing height");
    assert_eq!(ShardStorageError::TooManyShardsInResult.message(), "Too many shards in result");
    assert_eq!(
        ShardStorageError::DbError(DbError::Malformed).message(),
        DbError::Malformed.message()
    );
    assert_eq!(DbError::Malformed.message(), "Stored value is malformed");
}

#[test]
fn block_storage_errors_have_their_messages() {
    assert_eq!(BlockStorageError::BlockMissingHeader.message(), "Block missing header");
    assert_eq!(BlockStorageError::BlockMissingHeight.message(), "Block missing height");
    assert_eq!(
        BlockStorageError::DbError(DbError::Malformed).message(),
        "Stored value is malformed"
    );
}

#[test]
fn engine_errors_pass_on_the_message_of_the_store() {
    assert_eq!(
        EngineError::ShardStorage(ShardStorageError::ShardMissingHeader).message(),
        "Shard missing header"
    );
    assert_eq!(
        EngineError::BlockStorage(BlockStorageError::BlockMissingHeight).message(),
        "Block missing height"
    );
    assert_eq!(EngineError::Conflict.message(), "Another value is committed at this height");
}

#[test]
fn node_errors_have_their_messages() {
    assert_eq!(
        NodeError::ReservedShardId.message(),
        "Shard ID 0 is reserved for the block shard"
    );
    assert_eq!(NodeError::ShardIdOutOfRange.message(), "Shard ID must be between 1 and 3");
    assert_eq!(NodeError::DuplicateShardId.message(), "Shard ID must not be given twice");
    assert_eq!(NodeError::HeightExhausted.message(), "Store is at the last block number");
}

#[test]
fn the_inbound_channel_is_looked_at_every_ten_milliseconds() {
    assert_eq!(POLL_INTERVAL_MILLIS, 10);
}

/// Drives any proposer through a proposal and its decision.
fn propose_and_decide<P: Proposer>(p: &mut P, shard: u32) -> Option<P::Decided> {
    let height = Height::new(shard, 1);
    assert_eq!(p.get_confirmed_height(), Height::new(shard, 0));
    let proposal = p.propose_value(height, 0, Duration::from_secs(1)).unwrap();
    assert_eq!(proposal.height, Some(height));
    assert_eq!(p.add_proposed_value(&proposal), Validity::Valid);
    assert_eq!(p.get_confirmed_height().block_number, 0);
    let unknown = ShardHash { hash: vec![], shard_index: shard };
    assert!(p.decide(height, 0, unknown).unwrap().is_none());
    let decided = p.decide(height, 0, proposal.shard_hash().unwrap()).unwrap();
    assert_eq!(p.get_confirmed_height().block_number, 1);
    assert!(p.decide(height, 0, proposal.shard_hash().unwrap()).unwrap().is_none());
    let peer = SnapchainValidator {
        shard_index: shard,
        public_key: vec![],
        rpc_address: Some("peer".to_string()),
        current_height: 2,
    };
    assert!(p.register_validator(&peer).is_some());
    assert_eq!(p.get_confirmed_height(), Height::new(shard, 1));
    let level = SnapchainValidator { current_height: 1, ..peer };
    assert!(p.register_validator(&level).is_none());
    decided
}

#[test]
fn both_proposers_serve_consensus_alike() {
    let mut shard =
        ShardProposer::new(vec![1], 1, ShardEngine::new(1, ShardStore::new(Db::new())));
    let chunk = propose_and_decide(&mut shard, 1).unwrap();
    assert_eq!(chunk.block_number(), Some(1));
    let mut block =
        BlockProposer::new(vec![1], 0, 0, BlockEngine::new(BlockStore::new(Db::new())));
    let decided = propose_and_decide(&mut block, 0).unwrap();
    assert_eq!(decided.block_number(), Some(1));
}

#[test]
fn through_the_trait_a_request_is_what_the_proposer_asks_for() {
    let shard = ShardProposer::new(vec![1], 2, ShardEngine::new(2, ShardStore::new(Db::new())));
    let peer = SnapchainValidator {
        shard_index: 2,
        public_key: vec![],
        rpc_address: Some("peer:1".to_string()),
        current_height: 3,
    };
    assert_eq!(
        Proposer::register_validator(&shard, &peer),
        Some(ShardCatchUp {
            destination_addr: "http://peer:1".to_string(),
            request: ShardChunksRequest {
                shard_id: 2,
                start_block_number: 1,
                stop_block_number: None,
            },
        })
    );
    let block = BlockProposer::new(vec![1], 0, 0, BlockEngine::new(BlockStore::new(Db::new())));
    assert_eq!(
        Proposer::register_validator(&block, &peer),
        Some(BlockCatchUp {
            destination_addr: "http://peer:1".to_string(),
            request: BlocksRequest { shard_id: 0, start_block_number: 1, stop_block_number: None },
        })
    );
}
