//! The store of the block shard: committed blocks keyed by block number.

use crate::format::{decode_block, ser_block};
use crate::proto::{Block, BlockView};
use crate::storage::db::{apply_puts, get_spec, put_spec, scan, sorted, Db, Txn};
use crate::storage::store::shard::{DbError, BLOCK_PREFIX};
use crate::wire::{be_u64, opt_bytes_view, put_u64};
use vstd::prelude::*;
use vstd::string::StringExecFns;

verus! {

#[derive(Clone, Copy, Debug, PartialEq, Eq, Structural)]
pub enum BlockStorageError {
    DbError(DbError),
    BlockMissingHeader,
    BlockMissingHeight,
}

impl BlockStorageError {
    /// The words that tell of the error.
    pub open spec fn message_of(self) -> Seq<char> {
        match self {
            BlockStorageError::DbError(e) => e.message_of(),
            BlockStorageError::BlockMissingHeader => "Block missing header"@,
            BlockStorageError::BlockMissingHeight => "Block missing height"@,
        }
    }

    pub fn message(&self) -> (s: String)
        ensures
            s@ == self.message_of(),
    {
        match self {
            BlockStorageError::DbError(e) => e.message(),
            BlockStorageError::BlockMissingHeader => String::from_str("Block missing header"),
            BlockStorageError::BlockMissingHeight => String::from_str("Block missing height"),
        }
    }
}

/// The key of the block at `block_number`: the block prefix, then the
/// number in big-endian bytes.
pub open spec fn block_key(block_number: u64) -> Seq<u8> {
    seq![BLOCK_PREFIX] + be_u64(block_number)
}

/// The least byte string after every block key.
pub open spec fn block_keys_end() -> Seq<u8> {
    seq![(BLOCK_PREFIX + 1) as u8]
}

/// The entries of the blocks in `s`, in rising order of their keys.
pub open spec fn block_entries(s: Seq<(Seq<u8>, Seq<u8>)>) -> Seq<(Seq<u8>, Seq<u8>)> {
    scan(s, block_key(0), Some(block_keys_end()), None, false)
}

/// The block stored under the greatest block key of `s`: none in a store
/// without blocks, an error where the value there encodes no block.
pub open spec fn last_block(s: Seq<(Seq<u8>, Seq<u8>)>) -> Result<
    Option<BlockView>,
    BlockStorageError,
> {
    let entries = block_entries(s);
    if entries.len() == 0 {
        Ok(None)
    } else {
        match decode_block(entries.last().1) {
            Some(block) => Ok(Some(block)),
            None => Err(BlockStorageError::DbError(DbError::Malformed)),
        }
    }
}

/// The block number of the last block; 0 where there is none, or it has no
/// header or no height.
pub open spec fn last_block_number(s: Seq<(Seq<u8>, Seq<u8>)>) -> Result<u64, BlockStorageError> {
    match last_block(s) {
        Ok(Some(block)) => match block.block_number() {
            Some(n) => Ok(n),
            None => Ok(0u64),
        },
        Ok(None) => Ok(0u64),
        Err(e) => Err(e),
    }
}

/// Whether `r` is `expected`, block for block.
pub open spec fn is_block_result(
    r: Result<Option<Block>, BlockStorageError>,
    expected: Result<Option<BlockView>, BlockStorageError>,
) -> bool {
    match expected {
        Ok(block) => r matches Ok(found) && found.deep_view() == block,
        Err(e) => r matches Err(found) && found == e,
    }
}

/// What `put_block` returns for `block`, and the store it leaves: a block
/// without a header or without a height is refused and nothing is written;
/// any other is written under the key of its block number.
pub open spec fn put_block_result(
    r: Result<(), BlockStorageError>,
    before: Seq<(Seq<u8>, Seq<u8>)>,
    after: Seq<(Seq<u8>, Seq<u8>)>,
    block: BlockView,
) -> bool {
    match block.header {
        None => r == Err::<(), BlockStorageError>(BlockStorageError::BlockMissingHeader) && after
            == before,
        Some(header) => match header.height {
            None => r == Err::<(), BlockStorageError>(BlockStorageError::BlockMissingHeight)
                && after == before,
            Some(height) => r == Ok::<(), BlockStorageError>(()) && after == put_spec(
                before,
                block_key(height.block_number),
                ser_block(block),
            ),
        },
    }
}

pub fn make_block_key(block_number: u64) -> (key: Vec<u8>)
    ensures
        key@ == block_key(block_number),
{
    let mut key: Vec<u8> = Vec::new();
    key.push(BLOCK_PREFIX);
    put_u64(&mut key, block_number);
    assert(key@ =~= block_key(block_number));
    key
}

fn make_block_keys_end() -> (key: Vec<u8>)
    ensures
        key@ == block_keys_end(),
{
    let mut key: Vec<u8> = Vec::new();
    key.push(BLOCK_PREFIX + 1);
    assert(key@ =~= block_keys_end());
    key
}

/// The store of the block shard.
pub struct BlockStore {
    db: Db,
}

impl View for BlockStore {
    type V = Seq<(Seq<u8>, Seq<u8>)>;

    closed spec fn view(&self) -> Seq<(Seq<u8>, Seq<u8>)> {
        self.db@
    }
}

impl BlockStore {
    pub fn new(db: Db) -> (store: BlockStore)
        ensures
            store@ == db@,
    {
        BlockStore { db }
    }

    /// Writes the block under the key of its block number, in one
    /// transaction.
    pub fn put_block(&mut self, block: Block) -> (r: Result<(), BlockStorageError>)
        ensures
            put_block_result(r, old(self)@, final(self)@, block@),
            sorted(old(self)@),
            sorted(final(self)@),
    {
        // Reading the length brings to light that the store is sorted.
        let _ = self.db.len();
        let mut txn = Txn::new();
        let header = match &block.header {
            Some(h) => h,
            None => { return Err(BlockStorageError::BlockMissingHeader); },
        };
        let height = match &header.height {
            Some(h) => h,
            None => { return Err(BlockStorageError::BlockMissingHeight); },
        };
        let primary_key = make_block_key(height.block_number);
        let value = block.encode_to_vec();
        txn.put(primary_key, value);
        proof {
            let puts = txn@;
            assert(puts.drop_first() =~= Seq::<(Seq<u8>, Seq<u8>)>::empty());
            assert(apply_puts(old(self)@, puts) == apply_puts(
                put_spec(old(self)@, puts[0].0, puts[0].1),
                puts.drop_first(),
            ));
        }
        self.db.commit(txn);
        Ok(())
    }

    /// The block with the greatest block number in the store.
    pub fn get_last_block(&self) -> (r: Result<Option<Block>, BlockStorageError>)
        ensures
            is_block_result(r, last_block(self@)),
            sorted(self@),
    {
        let start = make_block_key(0);
        let stop = make_block_keys_end();
        match self.db.last_in_range(&start, &stop) {
            Some(entry) => match Block::decode(&entry.value) {
                Some(block) => Ok(Some(block)),
                None => Err(BlockStorageError::DbError(DbError::Malformed)),
            },
            None => Ok(None),
        }
    }

    /// The greatest block number in the store.
    pub fn max_block_number(&self) -> (r: Result<u64, BlockStorageError>)
        ensures
            r == last_block_number(self@),
            sorted(self@),
    {
        let block = match self.get_last_block() {
            Ok(b) => b,
            Err(e) => { return Err(e); },
        };
        match block {
            Some(block) => match block.block_number() {
                Some(n) => Ok(n),
                None => Ok(0),
            },
            None => Ok(0),
        }
    }

    /// The bytes stored for the block at `block_number`.
    pub fn stored_bytes(&self, block_number: u64) -> (r: Option<Vec<u8>>)
        ensures
            opt_bytes_view(r) == get_spec(self@, block_key(block_number)),
    {
        let key = make_block_key(block_number);
        self.db.get(&key)
    }
}

} // verus!
