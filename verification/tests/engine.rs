use snapchain::proto::{Block, BlockHeader, ShardChunk, ShardHeader, Transaction};
use snapchain::storage::db::Db;
use snapchain::storage::store::block::{make_block_key, BlockStorageError, BlockStore};
use snapchain::storage::store::engine::{BlockEngine, EngineError, ShardEngine, ShardStateChange};
use snapchain::storage::store::shard::{DbError, ShardStorageError, ShardStore};
use snapchain::types::Height;
use snapchain::wire::{put_bytes, put_u64};

fn tx(fid: u64) -> Transaction {
    Transaction { fid, payload: vec![fid as u8, 1] }
}

fn chunk_at(block_number: u64, root: u8) -> ShardChunk {
    let header = ShardHeader {
        parent_hash: vec![0u8; 32],
        timestamp: 10,
        height: Some(Height::new(1, block_number)),
        shard_root: vec![root; 32],
    };
    let hash = header.hash();
    ShardChunk { header: Some(header), hash, transactions: vec![tx(block_number)], votes: None }
}

fn block_at(block_number: u64, stamp: u64) -> Block {
    let header = BlockHeader {
        parent_hash: vec![0u8; 32],
        chain_id: 0,
        version: 0,
        shard_headers_hash: vec![],
        validators_hash: vec![],
        timestamp: stamp,
        height: Some(Height::new(0, block_number)),
    };
    let hash = header.hash();
    Block { header: Some(header), hash, validators: None, votes: None, shard_chunks: vec![] }
}

fn engine() -> ShardEngine {
    ShardEngine::new(1, ShardStore::new(Db::new()))
}

/// The state root as the engine defines it, computed here from its parts.
fn expected_root(committed: &[u8], transactions: &[Transaction]) -> Vec<u8> {
    let mut input = Vec::new();
    put_bytes(&mut input, &committed.to_vec());
    put_u64(&mut input, transactions.len() as u64);
    for t in transactions {
        put_u64(&mut input, t.fid);
        put_bytes(&mut input, &t.payload);
    }
    blake3::hash(&input).as_bytes().to_vec()
}

#[test]
fn new_engine_confirms_nothing() {
    let e = engine();
    assert_eq!(e.shard_id(), 1);
    assert_eq!(e.get_confirmed_height(), Height::new(1, 0));
    assert_eq!(e.get_shard_chunks(0, None), Ok(vec![]));
}

#[test]
fn proposed_state_change_drains_the_pool() {
    let mut e = engine();
    e.add_transaction(tx(1));
    e.add_transaction(tx(2));
    let change = e.propose_state_change(1);
    assert_eq!(change.shard_id, 1);
    assert_eq!(change.transactions, vec![tx(1), tx(2)]);
    assert_eq!(change.new_state_root, expected_root(&[], &[tx(1), tx(2)]));
    assert_eq!(e.get_confirmed_height(), Height::new(1, 0));
    let next = e.propose_state_change(1);
    assert_eq!(next.transactions, vec![]);
    assert_eq!(next.new_state_root, expected_root(&[], &[]));
}

#[test]
fn state_root_builds_on_the_last_committed_root() {
    let mut e = engine();
    e.commit_shard_chunk(chunk_at(1, 42)).unwrap();
    e.add_transaction(tx(9));
    let change = e.propose_state_change(1);
    assert_eq!(change.new_state_root, expected_root(&[42u8; 32], &[tx(9)]));
    assert_ne!(change.new_state_root, expected_root(&[], &[tx(9)]));
}

#[test]
fn validate_accepts_the_engines_own_state_change() {
    let mut a = engine();
    let b = engine();
    a.add_transaction(tx(1));
    let change = a.propose_state_change(1);
    assert!(b.validate_state_change(&change));
    assert!(a.validate_state_change(&change));
}

#[test]
fn validate_rejects_another_root_or_other_transactions() {
    let mut a = engine();
    a.add_transaction(tx(1));
    let change = a.propose_state_change(1);
    let mut wrong_root = ShardStateChange {
        shard_id: 1,
        new_state_root: change.new_state_root.clone(),
        transactions: vec![tx(1)],
    };
    wrong_root.new_state_root[0] ^= 1;
    assert!(!a.validate_state_change(&wrong_root));
    let wrong_transactions = ShardStateChange {
        shard_id: 1,
        new_state_root: change.new_state_root.clone(),
        transactions: vec![tx(2)],
    };
    assert!(!a.validate_state_change(&wrong_transactions));
    let short_root =
        ShardStateChange { shard_id: 1, new_state_root: vec![], transactions: vec![tx(1)] };
    assert!(!a.validate_state_change(&short_root));
}

#[test]
fn commit_raises_the_confirmed_height() {
    let mut e = engine();
    assert_eq!(e.commit_shard_chunk(chunk_at(1, 0)), Ok(()));
    assert_eq!(e.get_confirmed_height(), Height::new(1, 1));
    assert_eq!(e.commit_shard_chunk(chunk_at(2, 0)), Ok(()));
    assert_eq!(e.get_confirmed_height(), Height::new(1, 2));
    assert_eq!(e.get_shard_chunks(1, None), Ok(vec![chunk_at(1, 0), chunk_at(2, 0)]));
}

#[test]
fn commit_below_the_confirmed_height_does_not_lower_it() {
    let mut e = engine();
    e.commit_shard_chunk(chunk_at(5, 0)).unwrap();
    e.commit_shard_chunk(chunk_at(3, 0)).unwrap();
    assert_eq!(e.get_confirmed_height(), Height::new(1, 5));
    assert_eq!(e.get_shard_chunks(0, None), Ok(vec![chunk_at(3, 0), chunk_at(5, 0)]));
}

#[test]
fn committing_the_same_chunk_twice_changes_nothing() {
    let mut e = engine();
    e.commit_shard_chunk(chunk_at(1, 0)).unwrap();
    e.commit_shard_chunk(chunk_at(2, 0)).unwrap();
    let height = e.get_confirmed_height();
    let chunks = e.get_shard_chunks(0, None);
    assert_eq!(e.commit_shard_chunk(chunk_at(2, 0)), Ok(()));
    assert_eq!(e.commit_shard_chunk(chunk_at(1, 0)), Ok(()));
    assert_eq!(e.get_confirmed_height(), height);
    assert_eq!(e.get_shard_chunks(0, None), chunks);
}

#[test]
fn another_chunk_at_a_committed_height_is_a_conflict() {
    let mut e = engine();
    e.commit_shard_chunk(chunk_at(1, 0)).unwrap();
    assert_eq!(e.commit_shard_chunk(chunk_at(1, 7)), Err(EngineError::Conflict));
    assert_eq!(e.get_shard_chunks(0, None), Ok(vec![chunk_at(1, 0)]));
    assert_eq!(e.get_confirmed_height(), Height::new(1, 1));
}

#[test]
fn commit_refuses_a_chunk_without_header_or_height() {
    let mut e = engine();
    let mut c = chunk_at(1, 0);
    c.header = None;
    assert_eq!(
        e.commit_shard_chunk(c),
        Err(EngineError::ShardStorage(ShardStorageError::ShardMissingHeader))
    );
    let mut c = chunk_at(1, 0);
    c.header.as_mut().unwrap().height = None;
    assert_eq!(
        e.commit_shard_chunk(c),
        Err(EngineError::ShardStorage(ShardStorageError::ShardMissingHeight))
    );
    assert_eq!(e.get_confirmed_height(), Height::new(1, 0));
}

#[test]
fn commit_keeps_the_pool() {
    let mut e = engine();
    e.add_transaction(tx(4));
    e.commit_shard_chunk(chunk_at(1, 0)).unwrap();
    assert_eq!(e.propose_state_change(1).transactions, vec![tx(4)]);
}

#[test]
fn confirmed_height_is_zero_over_an_unreadable_store() {
    let mut db = Db::new();
    db.put(snapchain::storage::store::shard::make_shard_key(9), vec![1, 2, 3]);
    let e = ShardEngine::new(2, ShardStore::new(db));
    assert_eq!(e.get_confirmed_height(), Height::new(2, 0));
    assert_eq!(e.get_shard_chunks(0, None), Err(ShardStorageError::DbError(DbError::Malformed)));
}

#[test]
fn block_engine_commits_and_returns_the_last_block() {
    let mut e = BlockEngine::new(BlockStore::new(Db::new()));
    assert_eq!(e.get_last_block(), None);
    assert_eq!(e.get_confirmed_height(), Height::new(0, 0));
    assert_eq!(e.commit_block(block_at(1, 5)), Ok(()));
    assert_eq!(e.commit_block(block_at(2, 6)), Ok(()));
    assert_eq!(e.get_last_block(), Some(block_at(2, 6)));
    assert_eq!(e.get_confirmed_height(), Height::new(0, 2));
    assert_eq!(e.commit_block(block_at(2, 6)), Ok(()));
    assert_eq!(e.commit_block(block_at(2, 7)), Err(EngineError::Conflict));
    assert_eq!(e.get_last_block(), Some(block_at(2, 6)));
}

#[test]
fn block_engine_refuses_a_block_without_header_or_height() {
    let mut e = BlockEngine::new(BlockStore::new(Db::new()));
    let mut b = block_at(1, 0);
    b.header = None;
    assert_eq!(
        e.commit_block(b),
        Err(EngineError::BlockStorage(BlockStorageError::BlockMissingHeader))
    );
    let mut b = block_at(1, 0);
    b.header.as_mut().unwrap().height = None;
    assert_eq!(
        e.commit_block(b),
        Err(EngineError::BlockStorage(BlockStorageError::BlockMissingHeight))
    );
}

#[test]
fn block_store_writes_under_the_block_prefix() {
    let mut store = BlockStore::new(Db::new());
    assert_eq!(make_block_key(3), vec![1, 0, 0, 0, 0, 0, 0, 0, 3]);
    assert_eq!(store.max_block_number(), Ok(0));
    store.put_block(block_at(3, 1)).unwrap();
    assert_eq!(store.stored_bytes(3), Some(block_at(3, 1).encode_to_vec()));
    assert_eq!(store.stored_bytes(4), None);
    assert_eq!(store.get_last_block(), Ok(Some(block_at(3, 1))));
    assert_eq!(store.max_block_number(), Ok(3));
    let mut b = block_at(1, 0);
    b.header = None;
    assert_eq!(store.put_block(b), Err(BlockStorageError::BlockMissingHeader));
    let mut b = block_at(1, 0);
    b.header.as_mut().unwrap().height = None;
    assert_eq!(store.put_block(b), Err(BlockStorageError::BlockMissingHeight));
}

#[test]
fn block_store_reports_an_unreadable_block() {
    let mut db = Db::new();
    db.put(make_block_key(1), vec![7]);
    let store = BlockStore::new(db);
    assert_eq!(store.get_last_block(), Err(BlockStorageError::DbError(DbError::Malformed)));
    assert_eq!(store.max_block_number(), Err(BlockStorageError::DbError(DbError::Malformed)));
    let e = BlockEngine::new(store);
    assert_eq!(e.get_last_block(), None);
    assert_eq!(e.get_confirmed_height(), Height::new(0, 0));
}

#[test]
fn shard_and_block_keys_do_not_meet() {
    let mut db = Db::new();
    db.put(make_block_key(9), block_at(9, 0).encode_to_vec());
    let shard = ShardStore::new(db);
    assert_eq!(shard.get_last_shard_chunk(), Ok(None));
    assert_eq!(shard.max_block_number(), Ok(0));
    assert_eq!(shard.stored_bytes(9), None);
}

#[test]
fn last_shard_chunk_is_the_one_with_the_greatest_block_number() {
    let mut e = engine();
    assert_eq!(e.get_last_shard_chunk(), None);
    e.commit_shard_chunk(chunk_at(2, 0)).unwrap();
    e.commit_shard_chunk(chunk_at(1, 0)).unwrap();
    assert_eq!(e.get_last_shard_chunk(), Some(chunk_at(2, 0)));
    let mut db = Db::new();
    db.put(snapchain::storage::store::shard::make_shard_key(9), vec![1]);
    let unreadable = ShardEngine::new(1, ShardStore::new(db));
    assert_eq!(unreadable.get_last_shard_chunk(), None);
}
