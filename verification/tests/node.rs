use snapchain::node::snapchain_node::{
    check_shard_ids, decimal_string, shard_db_path, NodeError, NodeSetup, ShardConfig, SnapchainNode,
    SHARD_DECISION_CHANNEL_CAPACITY,
};
use snapchain::proto::{Block, BlockHeader, ShardChunk, ShardHeader};
use snapchain::storage::db::Db;
use snapchain::storage::store::block::BlockStore;
use snapchain::storage::store::shard::ShardStore;
use snapchain::types::{Height, MAX_SHARDS};

fn config(shard_id: u32) -> ShardConfig {
    ShardConfig { shard_id, store: ShardStore::new(Db::new()) }
}

fn chunk(shard: u32, block_number: u64) -> ShardChunk {
    let header = ShardHeader {
        parent_hash: vec![0u8; 32],
        timestamp: 10,
        height: Some(Height::new(shard, block_number)),
        shard_root: vec![],
    };
    let hash = header.hash();
    ShardChunk { header: Some(header), hash, transactions: vec![], votes: None }
}

fn block(block_number: u64) -> Block {
    let header = BlockHeader {
        parent_hash: vec![0u8; 32],
        chain_id: 0,
        version: 0,
        shard_headers_hash: vec![],
        validators_hash: vec![],
        timestamp: 1,
        height: Some(Height::new(0, block_number)),
    };
    let hash = header.hash();
    Block { header: Some(header), hash, validators: None, votes: None, shard_chunks: vec![] }
}

fn create(ids: &[u32]) -> Result<NodeSetup, NodeError> {
    SnapchainNode::create(
        vec![0x12, 0xef, 3, 4],
        ids.iter().map(|id| config(*id)).collect(),
        Some("me:3383".to_string()),
        BlockStore::new(Db::new()),
    )
}

fn fault(ids: &[u32]) -> Option<NodeError> {
    create(ids).err()
}

#[test]
fn the_fan_in_channel_holds_a_hundred_chunks() {
    assert_eq!(SHARD_DECISION_CHANNEL_CAPACITY, 100);
    assert_eq!(MAX_SHARDS, 3);
}

#[test]
fn shard_zero_is_reserved() {
    assert_eq!(fault(&[0]), Some(NodeError::ReservedShardId));
    assert_eq!(fault(&[1, 0]), Some(NodeError::ReservedShardId));
}

#[test]
fn shards_above_the_maximum_are_refused() {
    assert_eq!(fault(&[4]), Some(NodeError::ShardIdOutOfRange));
    assert_eq!(fault(&[1, 2, u32::MAX]), Some(NodeError::ShardIdOutOfRange));
    assert_eq!(fault(&[3]), None);
}

#[test]
fn a_shard_named_twice_is_refused() {
    assert_eq!(fault(&[2, 2]), Some(NodeError::DuplicateShardId));
    assert_eq!(fault(&[1, 2, 1]), Some(NodeError::DuplicateShardId));
}

#[test]
fn the_first_fault_in_the_list_is_reported() {
    assert_eq!(fault(&[4, 0]), Some(NodeError::ShardIdOutOfRange));
    assert_eq!(fault(&[0, 4]), Some(NodeError::ReservedShardId));
    assert_eq!(fault(&[1, 1, 0]), Some(NodeError::DuplicateShardId));
    assert_eq!(fault(&[1, 7, 1]), Some(NodeError::ShardIdOutOfRange));
}

#[test]
fn a_store_at_the_last_block_number_is_refused() {
    let mut store = ShardStore::new(Db::new());
    store.put_shard_chunk(chunk(1, u64::MAX)).unwrap();
    let r = SnapchainNode::create(
        vec![1, 2],
        vec![ShardConfig { shard_id: 1, store }],
        None,
        BlockStore::new(Db::new()),
    );
    assert_eq!(r.err(), Some(NodeError::HeightExhausted));
    let mut blocks = BlockStore::new(Db::new());
    blocks.put_block(block(u64::MAX)).unwrap();
    let r = SnapchainNode::create(vec![1, 2], vec![config(1)], None, blocks);
    assert_eq!(r.err(), Some(NodeError::HeightExhausted));
}

#[test]
fn a_node_without_data_shards_has_the_block_shard_alone() {
    let setup = create(&[]).unwrap();
    assert_eq!(setup.node.stop(), vec![0]);
    assert_eq!(setup.shards.len(), 0);
    let mut block = setup.block;
    assert_eq!(
        block.proposer.collect_confirmed_shard_chunks(Height::new(0, 1), None),
        Some(vec![])
    );
}

#[test]
fn shards_are_set_up_in_the_order_configured() {
    let setup = create(&[3, 1]).unwrap();
    assert_eq!(setup.shards.len(), 2);
    assert_eq!(setup.shards[0].shard_id, 3);
    assert_eq!(setup.shards[1].shard_id, 1);
    for shard in &setup.shards {
        assert_eq!(shard.params.start_height, Height::new(shard.shard_id, 1));
        assert_eq!(shard.params.address, vec![0x12, 0xef, 3, 4]);
        assert_eq!(
            shard.params.threshold_params,
            informalsystems_malachitebft_core_types::ThresholdParams::default()
        );
        assert_eq!(shard.params.initial_validator_set.len(), 1);
        let me = &shard.params.initial_validator_set[0];
        assert_eq!(me.shard_index, shard.shard_id);
        assert_eq!(me.public_key, vec![0x12, 0xef, 3, 4]);
        assert_eq!(me.rpc_address, Some("me:3383".to_string()));
        assert_eq!(me.current_height, 0);
        assert_eq!(shard.proposer.get_confirmed_height(), Height::new(shard.shard_id, 0));
    }
    assert_eq!(setup.block.params.start_height, Height::new(0, 1));
    assert_eq!(setup.block.params.initial_validator_set[0].shard_index, 0);
    assert_eq!(setup.block.proposer.get_confirmed_height(), Height::new(0, 0));
}

#[test]
fn consensus_starts_behind_the_last_committed_height() {
    let mut store = ShardStore::new(Db::new());
    store.put_shard_chunk(chunk(2, 1)).unwrap();
    store.put_shard_chunk(chunk(2, 2)).unwrap();
    let mut blocks = BlockStore::new(Db::new());
    blocks.put_block(block(7)).unwrap();
    let setup = SnapchainNode::create(
        vec![9; 32],
        vec![ShardConfig { shard_id: 2, store }],
        None,
        blocks,
    )
    .ok()
    .unwrap();
    assert_eq!(setup.shards[0].params.start_height, Height::new(2, 3));
    assert_eq!(setup.shards[0].params.initial_validator_set[0].current_height, 2);
    assert_eq!(setup.shards[0].params.initial_validator_set[0].rpc_address, None);
    assert_eq!(setup.shards[0].proposer.get_confirmed_height(), Height::new(2, 2));
    assert_eq!(setup.block.params.start_height, Height::new(0, 8));
    assert_eq!(setup.block.params.initial_validator_set[0].current_height, 7);
}

#[test]
fn the_block_proposer_waits_for_every_data_shard() {
    let setup = create(&[1, 2]).unwrap();
    let mut block = setup.block;
    let h = Height::new(0, 1);
    assert_eq!(block.proposer.collect_confirmed_shard_chunks(h, Some(chunk(1, 1))), None);
    assert_eq!(
        block.proposer.collect_confirmed_shard_chunks(h, Some(chunk(2, 1))),
        Some(vec![chunk(1, 1), chunk(2, 1)])
    );
}

#[test]
fn decided_chunks_flow_from_the_shards_into_a_block() {
    let setup = create(&[2, 1]).unwrap();
    let mut shards = setup.shards;
    let mut block = setup.block;
    let mut fan_in = Vec::new();
    for shard in shards.iter_mut() {
        let height = Height::new(shard.shard_id, 1);
        let proposal = shard.proposer.propose_value_at(height, 0, 100);
        let decided = shard.proposer.decide(height, 0, proposal.shard_hash().unwrap()).unwrap();
        fan_in.push(decided.unwrap());
    }
    let h = Height::new(0, 1);
    let mut collected = None;
    for chunk in fan_in {
        collected = block.proposer.collect_confirmed_shard_chunks(h, Some(chunk));
    }
    let collected = collected.unwrap();
    assert_eq!(collected.len(), 2);
    assert_eq!(collected[0].header.clone().unwrap().height, Some(Height::new(1, 1)));
    assert_eq!(collected[1].header.clone().unwrap().height, Some(Height::new(2, 1)));
    let proposal = block.proposer.propose_value_at(h, 0, 101);
    assert_eq!(proposal.block().unwrap().shard_chunks, collected);
    let published = block.proposer.decide(h, 0, proposal.shard_hash().unwrap()).unwrap();
    assert_eq!(published, proposal.block());
}

#[test]
fn messages_are_routed_by_shard() {
    let node = create(&[3, 1]).unwrap().node;
    assert_eq!(node.stop(), vec![0, 1, 3]);
    assert_eq!(node.dispatch(0), Some(0));
    assert_eq!(node.dispatch(1), Some(1));
    assert_eq!(node.dispatch(3), Some(2));
    assert_eq!(node.dispatch(2), None);
    assert_eq!(node.dispatch(4), None);
    assert_eq!(node.dispatch(u32::MAX), None);
}

#[test]
fn start_height_goes_to_every_shard() {
    let node = create(&[2, 3, 1]).unwrap().node;
    assert_eq!(
        node.start_height(9),
        vec![Height::new(0, 9), Height::new(1, 9), Height::new(2, 9), Height::new(3, 9)]
    );
    assert_eq!(node.start_height(0).len(), 4);
}

#[test]
fn id_is_the_first_two_bytes_in_hex() {
    let node = create(&[1]).unwrap().node;
    assert_eq!(node.id(), "12ef");
    let short = SnapchainNode::create(vec![0xff], vec![], None, BlockStore::new(Db::new()))
        .ok()
        .unwrap()
        .node;
    assert_eq!(short.id(), "");
    let zero = SnapchainNode::create(vec![0, 0x0a, 9], vec![], None, BlockStore::new(Db::new()))
        .ok()
        .unwrap()
        .node;
    assert_eq!(zero.id(), "000a");
}

#[test]
fn shard_stores_are_kept_under_the_directory_of_the_node() {
    assert_eq!(shard_db_path(&".rocks".to_string(), 1), ".rocks/shard1");
    assert_eq!(shard_db_path(&"/var/db".to_string(), 3), "/var/db/shard3");
    assert_eq!(shard_db_path(&"".to_string(), 12), "/shard12");
    assert_eq!(decimal_string(0), "0");
    assert_eq!(decimal_string(9), "9");
    assert_eq!(decimal_string(10), "10");
    assert_eq!(decimal_string(4_294_967_295), "4294967295");
}

#[test]
fn shard_ids_are_checked_before_anything_is_opened() {
    assert_eq!(check_shard_ids(&vec![]), Ok(()));
    assert_eq!(check_shard_ids(&vec![1, 2, 3]), Ok(()));
    assert_eq!(check_shard_ids(&vec![3, 1]), Ok(()));
    assert_eq!(check_shard_ids(&vec![0]), Err(NodeError::ReservedShardId));
    assert_eq!(check_shard_ids(&vec![4]), Err(NodeError::ShardIdOutOfRange));
    assert_eq!(check_shard_ids(&vec![2, 2]), Err(NodeError::DuplicateShardId));
    assert_eq!(check_shard_ids(&vec![1, 4, 0]), Err(NodeError::ShardIdOutOfRange));
    assert_eq!(check_shard_ids(&vec![1, 0, 4]), Err(NodeError::ReservedShardId));
    assert_eq!(check_shard_ids(&vec![1, 1, 0]), Err(NodeError::DuplicateShardId));
    assert_eq!(check_shard_ids(&vec![0, 0]), Err(NodeError::ReservedShardId));
}

#[test]
fn a_node_set_up_over_a_store_with_chunks_chains_on() {
    let mut store = ShardStore::new(Db::new());
    store.put_shard_chunk(chunk(1, 1)).unwrap();
    let setup = SnapchainNode::create(
        vec![9; 32],
        vec![ShardConfig { shard_id: 1, store }],
        None,
        BlockStore::new(Db::new()),
    )
    .ok()
    .unwrap();
    let mut shards = setup.shards;
    let start = shards[0].params.start_height;
    assert_eq!(start, Height::new(1, 2));
    let proposal = shards[0].proposer.propose_value_at(start, 0, 5);
    let header = proposal.shard_chunk().unwrap().header.unwrap();
    let parent = chunk(1, 1).header.unwrap();
    assert_eq!(header.parent_hash, blake3::hash(&parent.encode_to_vec()).as_bytes().to_vec());
}

#[test]
fn the_block_proposer_of_a_new_node_holds_nothing() {
    let setup = create(&[1, 2]).unwrap();
    let mut block = setup.block;
    for n in 0..3u64 {
        assert_eq!(block.proposer.collected_shard_chunks(Height::new(0, n)), vec![]);
    }
    let unknown = snapchain::types::ShardHash { hash: vec![], shard_index: 0 };
    assert_eq!(block.proposer.decide(Height::new(0, 1), 0, unknown), Ok(None));
}
