use snapchain::consensus::proposer::{
    current_time, make_destination, make_genesis_parent_hash, seconds_since_epoch, ShardCatchUp,
    ShardChunksRequest, ShardProposer, FARCASTER_EPOCH,
};
use snapchain::proto::{
    Block, FullProposal, ProposedValue, ShardChunk, ShardHeader, Transaction,
};
use snapchain::storage::db::Db;
use snapchain::storage::store::engine::{EngineError, ShardEngine};
use snapchain::storage::store::shard::ShardStore;
use snapchain::types::{Height, ShardHash, SnapchainValidator, Validity};
use std::time::Duration;

fn address() -> Vec<u8> {
    vec![0xab; 32]
}

fn proposer(shard: u32) -> ShardProposer {
    ShardProposer::new(address(), shard, ShardEngine::new(shard, ShardStore::new(Db::new())))
}

fn chunk_of(proposal: &FullProposal) -> ShardChunk {
    proposal.shard_chunk().unwrap()
}

fn validator(current_height: u64, rpc_address: Option<&str>) -> SnapchainValidator {
    SnapchainValidator {
        shard_index: 1,
        public_key: vec![1; 32],
        rpc_address: rpc_address.map(|s| s.to_string()),
        current_height,
    }
}

/// Proposes and decides heights 1 to `n`, and returns the chunks decided.
fn advance(p: &mut ShardProposer, n: u64) -> Vec<ShardChunk> {
    let mut decided = Vec::new();
    for h in 1..=n {
        p.add_transaction(Transaction { fid: h, payload: vec![h as u8] });
        let proposal = p.propose_value_at(Height::new(1, h), 0, 1000 + h);
        let published = p.decide(Height::new(1, h), 0, proposal.shard_hash().unwrap()).unwrap();
        decided.push(published.unwrap());
    }
    decided
}

#[test]
fn timestamp_counts_from_the_first_day_of_2021() {
    assert_eq!(FARCASTER_EPOCH, 1_609_459_200);
    assert_eq!(seconds_since_epoch(1_609_459_200), Some(0));
    assert_eq!(seconds_since_epoch(1_609_459_201), Some(1));
    assert_eq!(seconds_since_epoch(1_700_000_000), Some(90_540_800));
    assert_eq!(seconds_since_epoch(u64::MAX), Some(u64::MAX - 1_609_459_200));
    assert_eq!(seconds_since_epoch(1_609_459_199), None);
    assert_eq!(seconds_since_epoch(0), None);
}

#[test]
fn current_time_reads_the_system_clock() {
    let before = std::time::SystemTime::now()
        .duration_since(std::time::UNIX_EPOCH)
        .unwrap()
        .as_secs();
    let t = current_time().unwrap();
    let after = std::time::SystemTime::now()
        .duration_since(std::time::UNIX_EPOCH)
        .unwrap()
        .as_secs();
    assert!(before - FARCASTER_EPOCH <= t);
    assert!(t <= after - FARCASTER_EPOCH);
}

#[test]
fn genesis_parent_hash_is_32_zero_bytes() {
    assert_eq!(make_genesis_parent_hash(), vec![0u8; 32]);
}

#[test]
fn genesis_propose() {
    let mut p = proposer(1);
    let proposal = p.propose_value(Height::new(1, 1), 0, Duration::from_secs(1)).unwrap();
    assert_eq!(proposal.height, Some(Height::new(1, 1)));
    assert_eq!(proposal.round, 0);
    assert_eq!(proposal.proposer, address());
    let chunk = chunk_of(&proposal);
    let header = chunk.header.clone().unwrap();
    assert_eq!(header.parent_hash, vec![0u8; 32]);
    assert_eq!(header.height.unwrap().block_number, 1);
    assert_eq!(header.height.unwrap().shard_index, 1);
    assert_eq!(chunk.hash, blake3::hash(&header.encode_to_vec()).as_bytes().to_vec());
    assert_eq!(chunk.votes, None);
    assert_eq!(chunk.transactions, vec![]);
    assert_eq!(
        proposal.shard_hash(),
        Some(ShardHash { hash: chunk.hash.clone(), shard_index: 1 })
    );
}

#[test]
fn proposed_chunk_is_built_from_its_parts() {
    let mut p = proposer(2);
    p.add_transaction(Transaction { fid: 5, payload: vec![1] });
    let mut twin = ShardEngine::new(2, ShardStore::new(Db::new()));
    twin.add_transaction(Transaction { fid: 5, payload: vec![1] });
    let change = twin.propose_state_change(2);
    let proposal = p.propose_value_at(Height::new(2, 1), 3, 777);
    let header = ShardHeader {
        parent_hash: vec![0u8; 32],
        timestamp: 777,
        height: Some(Height::new(2, 1)),
        shard_root: change.new_state_root,
    };
    let expected = FullProposal {
        height: Some(Height::new(2, 1)),
        round: 3,
        proposer: address(),
        proposed_value: Some(ProposedValue::Shard(ShardChunk {
            hash: header.hash(),
            header: Some(header),
            transactions: vec![Transaction { fid: 5, payload: vec![1] }],
            votes: None,
        })),
    };
    assert_eq!(proposal, expected);
}

#[test]
fn propose_then_decide() {
    let mut p = proposer(1);
    let proposal = p.propose_value_at(Height::new(1, 1), 0, 50);
    let shard_hash = proposal.shard_hash().unwrap();
    assert_eq!(p.get_confirmed_height().block_number, 0);
    let published = p.decide(Height::new(1, 1), 0, shard_hash.clone()).unwrap();
    assert_eq!(published, Some(chunk_of(&proposal)));
    assert_eq!(p.get_shard_chunks(1, None), Ok(vec![chunk_of(&proposal)]));
    assert_eq!(p.get_confirmed_height(), Height::new(1, 1));
    // the proposal is gone: a second decision finds nothing to publish
    assert_eq!(p.decide(Height::new(1, 1), 0, shard_hash), Ok(None));
    assert_eq!(p.get_shard_chunks(1, None), Ok(vec![chunk_of(&proposal)]));
}

#[test]
fn decide_of_an_unknown_hash_does_nothing() {
    let mut p = proposer(1);
    p.propose_value_at(Height::new(1, 1), 0, 50);
    let unknown = ShardHash { hash: vec![1; 32], shard_index: 1 };
    assert_eq!(p.decide(Height::new(1, 1), 0, unknown), Ok(None));
    assert_eq!(p.get_confirmed_height().block_number, 0);
    assert_eq!(p.get_shard_chunks(0, None), Ok(vec![]));
}

#[test]
fn decide_tells_hashes_of_other_shards_apart() {
    let mut p = proposer(1);
    let proposal = p.propose_value_at(Height::new(1, 1), 0, 50);
    let mut other = proposal.shard_hash().unwrap();
    other.shard_index = 2;
    assert_eq!(p.decide(Height::new(1, 1), 0, other), Ok(None));
    assert_eq!(p.get_confirmed_height().block_number, 0);
}

#[test]
fn parent_hash_is_the_hash_of_the_header_before() {
    let mut p = proposer(1);
    let decided = advance(&mut p, 3);
    for h in 1..3usize {
        let parent = decided[h - 1].header.clone().unwrap();
        let child = decided[h].header.clone().unwrap();
        assert_eq!(child.parent_hash, blake3::hash(&parent.encode_to_vec()).as_bytes().to_vec());
        assert_eq!(child.parent_hash, decided[h - 1].hash);
    }
    assert_eq!(decided[0].header.clone().unwrap().parent_hash, vec![0u8; 32]);
    let next = p.propose_value_at(Height::new(1, 4), 0, 9);
    assert_eq!(chunk_of(&next).header.unwrap().parent_hash, decided[2].hash);
}

#[test]
fn parent_hash_is_computed_and_not_taken_from_the_peer() {
    let mut author = proposer(1);
    let mut proposal = author.propose_value_at(Height::new(1, 1), 0, 50);
    // a peer's chunk whose hash field is not the hash of its header
    if let Some(ProposedValue::Shard(chunk)) = proposal.proposed_value.as_mut() {
        chunk.hash = vec![3; 32];
    }
    let mut p = proposer(1);
    assert_eq!(p.add_proposed_value(&proposal), Validity::Valid);
    let published = p.decide(Height::new(1, 1), 0, proposal.shard_hash().unwrap()).unwrap();
    let header = published.unwrap().header.unwrap();
    let next = p.propose_value_at(Height::new(1, 2), 0, 51);
    assert_eq!(
        chunk_of(&next).header.unwrap().parent_hash,
        blake3::hash(&header.encode_to_vec()).as_bytes().to_vec()
    );
}

#[test]
fn valid_peer_proposal_is_kept_and_can_be_decided() {
    let mut author = proposer(1);
    author.add_transaction(Transaction { fid: 1, payload: vec![] });
    let proposal = author.propose_value_at(Height::new(1, 1), 0, 50);
    let mut p = proposer(1);
    assert_eq!(p.add_proposed_value(&proposal), Validity::Valid);
    assert_eq!(p.get_confirmed_height().block_number, 0);
    let published = p.decide(Height::new(1, 1), 0, proposal.shard_hash().unwrap()).unwrap();
    assert_eq!(published, Some(chunk_of(&proposal)));
    assert_eq!(p.get_confirmed_height().block_number, 1);
}

#[test]
fn invalid_peer_proposal() {
    let mut author = proposer(1);
    author.add_transaction(Transaction { fid: 1, payload: vec![] });
    let mut proposal = author.propose_value_at(Height::new(1, 1), 0, 50);
    if let Some(ProposedValue::Shard(chunk)) = proposal.proposed_value.as_mut() {
        chunk.header.as_mut().unwrap().shard_root[0] ^= 0xff;
    }
    let mut p = proposer(1);
    assert_eq!(p.add_proposed_value(&proposal), Validity::Invalid);
    assert_eq!(p.get_confirmed_height().block_number, 0);
    assert_eq!(p.get_shard_chunks(0, None), Ok(vec![]));
}

#[test]
fn invalid_shard_proposal_is_still_kept_for_the_decision() {
    let mut author = proposer(1);
    let mut proposal = author.propose_value_at(Height::new(1, 1), 0, 50);
    if let Some(ProposedValue::Shard(chunk)) = proposal.proposed_value.as_mut() {
        chunk.transactions.push(Transaction { fid: 8, payload: vec![] });
    }
    let mut p = proposer(1);
    assert_eq!(p.add_proposed_value(&proposal), Validity::Invalid);
    let published = p.decide(Height::new(1, 1), 0, proposal.shard_hash().unwrap()).unwrap();
    assert_eq!(published, Some(chunk_of(&proposal)));
}

#[test]
fn proposals_that_are_no_shard_proposals_are_invalid_and_not_kept() {
    let mut p = proposer(1);
    let block = Block {
        header: None,
        hash: vec![1; 32],
        validators: None,
        votes: None,
        shard_chunks: vec![],
    };
    let with_block = FullProposal {
        height: Some(Height::new(1, 1)),
        round: 0,
        proposer: vec![],
        proposed_value: Some(ProposedValue::Block(block)),
    };
    assert_eq!(p.add_proposed_value(&with_block), Validity::Invalid);
    assert_eq!(p.decide(Height::new(1, 1), 0, with_block.shard_hash().unwrap()), Ok(None));

    let without_value =
        FullProposal { height: Some(Height::new(1, 1)), round: 0, proposer: vec![], proposed_value: None };
    assert_eq!(p.add_proposed_value(&without_value), Validity::Invalid);

    let mut author = proposer(1);
    let good = author.propose_value_at(Height::new(1, 1), 0, 50);

    let mut without_height = good.clone();
    without_height.height = None;
    assert_eq!(p.add_proposed_value(&without_height), Validity::Invalid);
    assert_eq!(without_height.shard_hash(), None);

    let mut without_header = good.clone();
    if let Some(ProposedValue::Shard(chunk)) = without_header.proposed_value.as_mut() {
        chunk.header = None;
    }
    assert_eq!(p.add_proposed_value(&without_header), Validity::Invalid);

    let mut without_chunk_height = good.clone();
    if let Some(ProposedValue::Shard(chunk)) = without_chunk_height.proposed_value.as_mut() {
        chunk.header.as_mut().unwrap().height = None;
    }
    assert_eq!(p.add_proposed_value(&without_chunk_height), Validity::Invalid);

    // none of them was kept
    assert_eq!(p.decide(Height::new(1, 1), 0, good.shard_hash().unwrap()), Ok(None));
    assert_eq!(p.get_confirmed_height().block_number, 0);
}

#[test]
fn two_proposals_for_one_height_wait_side_by_side() {
    let mut p = proposer(1);
    let first = p.propose_value_at(Height::new(1, 1), 0, 50);
    let second = p.propose_value_at(Height::new(1, 1), 1, 60);
    assert_ne!(first.shard_hash(), second.shard_hash());
    let published = p.decide(Height::new(1, 1), 1, second.shard_hash().unwrap()).unwrap();
    assert_eq!(published, Some(chunk_of(&second)));
    // the other value was not decided; deciding it now is a conflict at height 1
    assert_eq!(
        p.decide(Height::new(1, 1), 0, first.shard_hash().unwrap()),
        Err(EngineError::Conflict)
    );
    assert_eq!(p.get_shard_chunks(0, None), Ok(vec![chunk_of(&second)]));
}

#[test]
fn destination_is_the_rpc_address_behind_the_scheme() {
    assert_eq!(make_destination(&"127.0.0.1:3383".to_string()), "http://127.0.0.1:3383");
    assert_eq!(make_destination(&"".to_string()), "http://");
}

#[test]
fn register_validator_asks_for_what_is_missing() {
    let mut p = proposer(1);
    advance(&mut p, 5);
    assert_eq!(
        p.register_validator(&validator(10, Some("peer:3383"))),
        Some(ShardCatchUp {
            destination_addr: "http://peer:3383".to_string(),
            request: ShardChunksRequest {
                shard_id: 1,
                start_block_number: 6,
                stop_block_number: None,
            },
        })
    );
}

#[test]
fn register_validator_skips_a_peer_that_is_not_ahead_or_has_no_address() {
    let mut p = proposer(1);
    advance(&mut p, 5);
    assert_eq!(p.register_validator(&validator(5, Some("peer:3383"))), None);
    assert_eq!(p.register_validator(&validator(4, Some("peer:3383"))), None);
    assert_eq!(p.register_validator(&validator(10, None)), None);
    assert_eq!(p.register_validator(&validator(0, None)), None);
    let fresh = proposer(1);
    assert_eq!(fresh.register_validator(&validator(0, Some("peer:3383"))), None);
    assert!(fresh.register_validator(&validator(1, Some("peer:3383"))).is_some());
    assert!(fresh.register_validator(&validator(u64::MAX, Some("peer:3383"))).is_some());
}

#[test]
fn catch_up() {
    let mut local = proposer(1);
    let mut peer = proposer(1);
    let ours = advance(&mut local, 5);
    let theirs = advance(&mut peer, 10);
    assert_eq!(ours[..], theirs[..5]);
    let ask = local.register_validator(&validator(10, Some("peer:3383"))).unwrap();
    assert_eq!(ask.destination_addr, "http://peer:3383");
    // the peer answers the request from its store
    let answer = peer
        .get_shard_chunks(ask.request.start_block_number, ask.request.stop_block_number)
        .unwrap();
    // each chunk of the answer is published, in the order of the answer
    let numbers: Vec<u64> = answer.iter().map(|c| c.block_number().unwrap()).collect();
    assert_eq!(numbers, vec![6, 7, 8, 9, 10]);
    assert_eq!(answer[..], theirs[5..]);
}

#[test]
fn evicting_old_chunks_keeps_the_chain() {
    let mut p = proposer(1);
    p.evict_old_chunks();
    let genesis = p.propose_value_at(Height::new(1, 1), 5, 1);
    assert_eq!(chunk_of(&genesis).header.unwrap().parent_hash, vec![0u8; 32]);
    let mut p = proposer(1);
    let decided = advance(&mut p, 4);
    p.evict_old_chunks();
    p.evict_old_chunks();
    let next = p.propose_value_at(Height::new(1, 5), 0, 9);
    assert_eq!(chunk_of(&next).header.unwrap().parent_hash, decided[3].hash);
    // the store keeps every chunk
    assert_eq!(p.get_shard_chunks(1, None), Ok(decided));
}

#[test]
fn a_proposer_made_over_a_store_with_chunks_chains_to_its_last_chunk() {
    let mut first = proposer(1);
    let decided = advance(&mut first, 2);
    // the node stops; a new proposer is made over the store it left
    let mut store = ShardStore::new(Db::new());
    for chunk in &decided {
        store.put_shard_chunk(chunk.clone()).unwrap();
    }
    let mut p = ShardProposer::new(address(), 1, ShardEngine::new(1, store));
    assert_eq!(p.get_confirmed_height(), Height::new(1, 2));
    let proposal = p.propose_value_at(Height::new(1, 3), 0, 77);
    let parent = decided[1].header.clone().unwrap();
    let header = chunk_of(&proposal).header.unwrap();
    assert_eq!(header.parent_hash, blake3::hash(&parent.encode_to_vec()).as_bytes().to_vec());
    assert_ne!(header.parent_hash, vec![0u8; 32]);
    // once it has decided a chunk itself, it chains to that one
    let published = p.decide(Height::new(1, 3), 0, proposal.shard_hash().unwrap()).unwrap();
    let next = p.propose_value_at(Height::new(1, 4), 0, 78);
    assert_eq!(chunk_of(&next).header.unwrap().parent_hash, published.unwrap().hash);
}

#[test]
fn a_proposer_over_an_unreadable_store_starts_from_the_genesis_hash() {
    let mut db = Db::new();
    db.put(snapchain::storage::store::shard::make_shard_key(3), vec![1, 2, 3]);
    let mut p = ShardProposer::new(address(), 1, ShardEngine::new(1, ShardStore::new(db)));
    let proposal = p.propose_value_at(Height::new(1, 1), 0, 1);
    assert_eq!(chunk_of(&proposal).header.unwrap().parent_hash, vec![0u8; 32]);
}
