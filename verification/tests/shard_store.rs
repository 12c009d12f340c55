use snapchain::proto::{ShardChunk, ShardHeader, Transaction};
use snapchain::storage::db::{Db, PageOptions};
use snapchain::storage::store::shard::{
    get_current_height, get_last_shard_chunk, get_shard_chunks_in_range, make_shard_key,
    put_shard_chunk, single_shard_chunk, DbError, ShardPage, ShardStorageError, ShardStore,
};
use snapchain::types::Height;

fn chunk_at(shard_index: u32, block_number: u64) -> ShardChunk {
    let header = ShardHeader {
        parent_hash: vec![0u8; 32],
        timestamp: 1000 + block_number,
        height: Some(Height::new(shard_index, block_number)),
        shard_root: vec![block_number as u8; 32],
    };
    let hash = header.hash();
    ShardChunk {
        header: Some(header),
        hash,
        transactions: vec![Transaction { fid: block_number, payload: vec![1, 2, 3] }],
        votes: None,
    }
}

fn store_with(numbers: &[u64]) -> ShardStore {
    let mut store = ShardStore::new(Db::new());
    for n in numbers {
        store.put_shard_chunk(chunk_at(1, *n)).unwrap();
    }
    store
}

#[test]
fn shard_key_is_prefix_then_big_endian_number() {
    assert_eq!(make_shard_key(0), vec![2, 0, 0, 0, 0, 0, 0, 0, 0]);
    assert_eq!(make_shard_key(1), vec![2, 0, 0, 0, 0, 0, 0, 0, 1]);
    assert_eq!(make_shard_key(258), vec![2, 0, 0, 0, 0, 0, 0, 1, 2]);
    assert_eq!(make_shard_key(u64::MAX), vec![2, 255, 255, 255, 255, 255, 255, 255, 255]);
}

#[test]
fn empty_store_has_no_last_chunk_and_height_zero() {
    let store = ShardStore::new(Db::new());
    assert_eq!(store.get_last_shard_chunk(), Ok(None));
    assert_eq!(store.max_block_number(), Ok(0));
    assert_eq!(store.get_shard_chunks(0, None), Ok(vec![]));
}

#[test]
fn last_chunk_is_the_one_with_the_greatest_block_number() {
    let store = store_with(&[3, 1, 300, 2]);
    assert_eq!(store.get_last_shard_chunk(), Ok(Some(chunk_at(1, 300))));
    assert_eq!(store.max_block_number(), Ok(300));
}

#[test]
fn put_rejects_chunk_without_header() {
    let mut db = Db::new();
    let mut chunk = chunk_at(1, 1);
    chunk.header = None;
    assert_eq!(put_shard_chunk(&mut db, chunk), Err(ShardStorageError::ShardMissingHeader));
    assert_eq!(db.len(), 0);
}

#[test]
fn put_rejects_chunk_without_height() {
    let mut db = Db::new();
    let mut chunk = chunk_at(1, 1);
    chunk.header.as_mut().unwrap().height = None;
    assert_eq!(put_shard_chunk(&mut db, chunk), Err(ShardStorageError::ShardMissingHeight));
    assert_eq!(db.len(), 0);
}

#[test]
fn put_writes_the_encoded_chunk_under_its_key() {
    let mut db = Db::new();
    let chunk = chunk_at(1, 7);
    assert_eq!(put_shard_chunk(&mut db, chunk.clone()), Ok(()));
    assert_eq!(db.len(), 1);
    assert_eq!(db.get(&make_shard_key(7)), Some(chunk.encode_to_vec()));
    assert_eq!(get_last_shard_chunk(&db), Ok(Some(chunk)));
    assert_eq!(get_current_height(&db), Ok(Some(7)));
}

#[test]
fn current_height_is_none_without_chunks() {
    let db = Db::new();
    assert_eq!(get_current_height(&db), Ok(None));
}

#[test]
fn undecodable_value_is_a_db_error() {
    let mut db = Db::new();
    db.put(make_shard_key(4), vec![9, 9, 9]);
    assert_eq!(
        get_last_shard_chunk(&db),
        Err(ShardStorageError::DbError(DbError::Malformed))
    );
    let store = ShardStore::new(db);
    assert_eq!(store.max_block_number(), Err(ShardStorageError::DbError(DbError::Malformed)));
    assert_eq!(
        store.get_shard_chunks(0, None),
        Err(ShardStorageError::DbError(DbError::Malformed))
    );
}

#[test]
fn single_shard_chunk_rejects_a_page_of_two() {
    let page = ShardPage {
        shard_chunks: vec![chunk_at(1, 1), chunk_at(1, 2)],
        next_page_token: None,
    };
    assert_eq!(single_shard_chunk(page), Err(ShardStorageError::TooManyShardsInResult));
    let page = ShardPage { shard_chunks: vec![chunk_at(1, 1)], next_page_token: None };
    assert_eq!(single_shard_chunk(page), Ok(Some(chunk_at(1, 1))));
    let page = ShardPage { shard_chunks: vec![], next_page_token: None };
    assert_eq!(single_shard_chunk(page), Ok(None));
}

#[test]
fn range_is_half_open_and_ascending() {
    let store = store_with(&[5, 1, 3, 2, 4]);
    let got = store.get_shard_chunks(2, Some(5)).unwrap();
    assert_eq!(got, vec![chunk_at(1, 2), chunk_at(1, 3), chunk_at(1, 4)]);
    let got = store.get_shard_chunks(4, None).unwrap();
    assert_eq!(got, vec![chunk_at(1, 4), chunk_at(1, 5)]);
    assert_eq!(store.get_shard_chunks(6, None), Ok(vec![]));
    assert_eq!(store.get_shard_chunks(3, Some(3)), Ok(vec![]));
    assert_eq!(store.get_shard_chunks(4, Some(2)), Ok(vec![]));
}

#[test]
fn numeric_order_is_kept_across_byte_boundaries() {
    let store = store_with(&[256, 255, 65536, 1]);
    let got = store.get_shard_chunks(0, None).unwrap();
    let numbers: Vec<u64> = got.iter().map(|c| c.block_number().unwrap()).collect();
    assert_eq!(numbers, vec![1, 255, 256, 65536]);
}

#[test]
fn pages_carry_a_token_exactly_when_more_remain() {
    let mut db = Db::new();
    for n in 1..=5u64 {
        put_shard_chunk(&mut db, chunk_at(1, n)).unwrap();
    }
    let options = PageOptions { page_size: Some(2), page_token: None, reverse: false };
    let first = get_shard_chunks_in_range(&db, &options, 1, None).unwrap();
    assert_eq!(first.shard_chunks, vec![chunk_at(1, 1), chunk_at(1, 2)]);
    assert_eq!(first.next_page_token, Some(make_shard_key(2)));
    let options =
        PageOptions { page_size: Some(2), page_token: first.next_page_token, reverse: false };
    let second = get_shard_chunks_in_range(&db, &options, 1, None).unwrap();
    assert_eq!(second.shard_chunks, vec![chunk_at(1, 3), chunk_at(1, 4)]);
    assert_eq!(second.next_page_token, Some(make_shard_key(4)));
    let options =
        PageOptions { page_size: Some(2), page_token: second.next_page_token, reverse: false };
    let third = get_shard_chunks_in_range(&db, &options, 1, None).unwrap();
    assert_eq!(third.shard_chunks, vec![chunk_at(1, 5)]);
    assert_eq!(third.next_page_token, None);
}

#[test]
fn a_full_last_page_carries_no_token() {
    let mut db = Db::new();
    for n in 1..=4u64 {
        put_shard_chunk(&mut db, chunk_at(1, n)).unwrap();
    }
    let options = PageOptions { page_size: Some(4), page_token: None, reverse: false };
    let page = get_shard_chunks_in_range(&db, &options, 1, None).unwrap();
    assert_eq!(page.shard_chunks.len(), 4);
    assert_eq!(page.next_page_token, None);
}

#[test]
fn page_of_size_zero_is_empty_without_token() {
    let mut db = Db::new();
    put_shard_chunk(&mut db, chunk_at(1, 1)).unwrap();
    let options = PageOptions { page_size: Some(0), page_token: None, reverse: false };
    let page = get_shard_chunks_in_range(&db, &options, 1, None).unwrap();
    assert_eq!(page.shard_chunks, vec![]);
    assert_eq!(page.next_page_token, None);
}

#[test]
fn reverse_pages_run_from_the_last_key_down() {
    let mut db = Db::new();
    for n in 1..=5u64 {
        put_shard_chunk(&mut db, chunk_at(1, n)).unwrap();
    }
    let options = PageOptions { page_size: Some(2), page_token: None, reverse: true };
    let first = get_shard_chunks_in_range(&db, &options, 2, None).unwrap();
    assert_eq!(first.shard_chunks, vec![chunk_at(1, 5), chunk_at(1, 4)]);
    assert_eq!(first.next_page_token, Some(make_shard_key(4)));
    let options =
        PageOptions { page_size: Some(5), page_token: first.next_page_token, reverse: true };
    let second = get_shard_chunks_in_range(&db, &options, 2, None).unwrap();
    assert_eq!(second.shard_chunks, vec![chunk_at(1, 3), chunk_at(1, 2)]);
    assert_eq!(second.next_page_token, None);
}

#[test]
fn scan_in_pages_equals_scan_in_one_page() {
    let mut numbers: Vec<u64> = Vec::new();
    for n in 0..250u64 {
        numbers.push((n * 7919) % 1000 + 1);
    }
    let store = store_with(&numbers);
    let mut db = Db::new();
    for n in &numbers {
        put_shard_chunk(&mut db, chunk_at(1, *n)).unwrap();
    }
    let paged = store.get_shard_chunks(10, Some(900)).unwrap();
    let options = PageOptions { page_size: Some(100_000), page_token: None, reverse: false };
    let whole = get_shard_chunks_in_range(&db, &options, 10, Some(900)).unwrap();
    assert_eq!(whole.next_page_token, None);
    assert!(paged.len() > 200);
    assert_eq!(paged, whole.shard_chunks);
    let mut sorted: Vec<u64> = numbers.iter().copied().filter(|n| *n >= 10 && *n < 900).collect();
    sorted.sort();
    sorted.dedup();
    let got: Vec<u64> = paged.iter().map(|c| c.block_number().unwrap()).collect();
    assert_eq!(got, sorted);
}

#[test]
fn writing_a_block_number_again_replaces_the_chunk() {
    let mut store = store_with(&[1, 2]);
    let mut other = chunk_at(1, 2);
    other.transactions.clear();
    store.put_shard_chunk(other.clone()).unwrap();
    assert_eq!(store.get_shard_chunks(0, None), Ok(vec![chunk_at(1, 1), other]));
}

#[test]
fn default_store_is_empty() {
    let store = ShardStore::default();
    assert_eq!(store.get_last_shard_chunk(), Ok(None));
    assert_eq!(store.max_block_number(), Ok(0));
    assert_eq!(Db::default().len(), 0);
}

#[test]
fn a_cloned_store_is_a_store_of_its_own() {
    let mut store = store_with(&[1, 2]);
    let copy = store.clone();
    assert_eq!(copy.get_shard_chunks(0, None), store.get_shard_chunks(0, None));
    store.put_shard_chunk(chunk_at(1, 3)).unwrap();
    assert_eq!(store.max_block_number(), Ok(3));
    assert_eq!(copy.max_block_number(), Ok(2));
    let mut db = Db::new();
    db.put(vec![2], vec![20]);
    db.put(vec![1], vec![10]);
    let twin = db.clone();
    db.put(vec![1], vec![11]);
    assert_eq!(twin.get(&vec![1]), Some(vec![10]));
    assert_eq!(twin.get(&vec![2]), Some(vec![20]));
    assert_eq!(twin.len(), 2);
}
