//! The engines: the boundary at which a shard's state changes. An engine
//! proposes a state change from the transactions it holds, checks a peer's
//! state change against its own committed state, and commits what consensus
//! decided.
//!
//! What a transaction does to an account is not decided here. The state
//! root is a commitment to the root before and to the transactions applied:
//! the BLAKE3 digest of the two, encoded one after the other.

use crate::codec::put_transactions;
use crate::format::{ser_block, ser_shard_chunk, ser_transactions};
use crate::hash::{blake3_digest, blake3_hash};
use crate::proto::{Block, BlockView, ShardChunk, ShardChunkView, Transaction, TransactionView};
use crate::storage::db::{get_spec, put_spec, sorted};
use crate::storage::store::block::{
    block_key, last_block, last_block_number, BlockStorageError, BlockStore,
};
use crate::storage::store::shard::{
    current_height, decode_chunks, entries_in_range, last_chunk, shard_key, DbError,
    ShardStorageError, ShardStore,
};
use crate::types::{Height, BLOCK_SHARD};
use crate::wire::{bytes_eq, put_bytes, ser_bytes};
use vstd::prelude::*;
use vstd::string::StringExecFns;

verus! {

/// Why an engine did not commit.
#[derive(Clone, Copy, Debug, PartialEq, Eq, Structural)]
pub enum EngineError {
    /// The shard store refused the chunk.
    ShardStorage(ShardStorageError),
    /// The block store refused the block.
    BlockStorage(BlockStorageError),
    /// Another value is committed at the same height.
    Conflict,
}

impl EngineError {
    /// The words that tell of the error.
    pub open spec fn message_of(self) -> Seq<char> {
        match self {
            EngineError::ShardStorage(e) => e.message_of(),
            EngineError::BlockStorage(e) => e.message_of(),
            EngineError::Conflict => "Another value is committed at this height"@,
        }
    }

    pub fn message(&self) -> (s: String)
        ensures
            s@ == self.message_of(),
    {
        match self {
            EngineError::ShardStorage(e) => e.message(),
            EngineError::BlockStorage(e) => e.message(),
            EngineError::Conflict => String::from_str("Another value is committed at this height"),
        }
    }
}

/// A set of transactions and the state root that applying them gives.
#[derive(Debug, PartialEq, Eq)]
pub struct ShardStateChange {
    pub shard_id: u32,
    pub new_state_root: Vec<u8>,
    pub transactions: Vec<Transaction>,
}

pub struct ShardStateChangeView {
    pub shard_id: u32,
    pub new_state_root: Seq<u8>,
    pub transactions: Seq<TransactionView>,
}

impl View for ShardStateChange {
    type V = ShardStateChangeView;

    open spec fn view(&self) -> ShardStateChangeView {
        ShardStateChangeView {
            shard_id: self.shard_id,
            new_state_root: self.new_state_root@,
            transactions: self.transactions.deep_view(),
        }
    }
}

/// The state root of the last committed chunk; empty before the first.
pub open spec fn committed_root(store: Seq<(Seq<u8>, Seq<u8>)>) -> Seq<u8> {
    match last_chunk(store) {
        Ok(Some(chunk)) => match chunk.header {
            Some(header) => header.shard_root,
            None => Seq::empty(),
        },
        _ => Seq::empty(),
    }
}

/// The last committed chunk, where there is one that can be read.
pub open spec fn last_committed_chunk(store: Seq<(Seq<u8>, Seq<u8>)>) -> Option<ShardChunkView> {
    match last_chunk(store) {
        Ok(chunk) => chunk,
        Err(_) => None,
    }
}

/// The state root after `transactions` are applied to a state with root
/// `root`.
pub open spec fn state_root(root: Seq<u8>, transactions: Seq<TransactionView>) -> Seq<u8> {
    blake3_digest(ser_bytes(root) + ser_transactions(transactions))
}

/// The greatest committed block number of a shard store; 0 before the first
/// commit, and where the last chunk cannot be read.
pub open spec fn confirmed_block_number(store: Seq<(Seq<u8>, Seq<u8>)>) -> u64 {
    match current_height(store) {
        Ok(Some(n)) => n,
        _ => 0,
    }
}

/// What committing `value` under `key` returns, and the store it leaves.
/// The same value again is accepted and changes nothing; another value
/// under a key that is taken is a conflict and changes nothing.
pub open spec fn commit_result(
    r: Result<(), EngineError>,
    before: Seq<(Seq<u8>, Seq<u8>)>,
    after: Seq<(Seq<u8>, Seq<u8>)>,
    key: Seq<u8>,
    value: Seq<u8>,
) -> bool {
    match get_spec(before, key) {
        Some(stored) => after == before && if stored == value {
            r == Ok::<(), EngineError>(())
        } else {
            r == Err::<(), EngineError>(EngineError::Conflict)
        },
        None => after == put_spec(before, key, value) && r == Ok::<(), EngineError>(()),
    }
}

/// What committing `chunk` returns, and the store it leaves.
pub open spec fn commit_chunk_result(
    r: Result<(), EngineError>,
    before: Seq<(Seq<u8>, Seq<u8>)>,
    after: Seq<(Seq<u8>, Seq<u8>)>,
    chunk: ShardChunkView,
) -> bool {
    match chunk.header {
        None => after == before && r == Err::<(), EngineError>(
            EngineError::ShardStorage(ShardStorageError::ShardMissingHeader),
        ),
        Some(header) => match header.height {
            None => after == before && r == Err::<(), EngineError>(
                EngineError::ShardStorage(ShardStorageError::ShardMissingHeight),
            ),
            Some(height) => commit_result(
                r,
                before,
                after,
                shard_key(height.block_number),
                ser_shard_chunk(chunk),
            ),
        },
    }
}

/// What committing `block` returns, and the store it leaves.
pub open spec fn commit_block_result(
    r: Result<(), EngineError>,
    before: Seq<(Seq<u8>, Seq<u8>)>,
    after: Seq<(Seq<u8>, Seq<u8>)>,
    block: BlockView,
) -> bool {
    match block.header {
        None => after == before && r == Err::<(), EngineError>(
            EngineError::BlockStorage(BlockStorageError::BlockMissingHeader),
        ),
        Some(header) => match header.height {
            None => after == before && r == Err::<(), EngineError>(
                EngineError::BlockStorage(BlockStorageError::BlockMissingHeight),
            ),
            Some(height) => commit_result(
                r,
                before,
                after,
                block_key(height.block_number),
                ser_block(block),
            ),
        },
    }
}

/// The engine of one data shard.
pub struct ShardEngine {
    shard_id: u32,
    shard_store: ShardStore,
    pool: Vec<Transaction>,
}

impl ShardEngine {
    /// The shard the engine belongs to.
    pub closed spec fn shard(&self) -> u32 {
        self.shard_id
    }

    /// The entries of the engine's store.
    pub closed spec fn store(&self) -> Seq<(Seq<u8>, Seq<u8>)> {
        self.shard_store@
    }

    /// The transactions that wait to be proposed.
    pub closed spec fn pending(&self) -> Seq<TransactionView> {
        self.pool.deep_view()
    }

    pub fn new(shard_id: u32, shard_store: ShardStore) -> (engine: ShardEngine)
        ensures
            engine.shard() == shard_id,
            engine.store() == shard_store@,
            engine.pending() == Seq::<TransactionView>::empty(),
    {
        let engine = ShardEngine { shard_id, shard_store, pool: Vec::new() };
        assert(engine.pending() =~= Seq::<TransactionView>::empty());
        engine
    }

    pub fn shard_id(&self) -> (id: u32)
        ensures
            id == self.shard(),
    {
        self.shard_id
    }

    /// Takes a transaction into the pool of those the next proposal holds.
    pub fn add_transaction(&mut self, transaction: Transaction)
        ensures
            final(self).pending() == old(self).pending().push(transaction@),
            final(self).store() == old(self).store(),
            final(self).shard() == old(self).shard(),
    {
        self.pool.push(transaction);
        assert(self.pending() =~= old(self).pending().push(transaction@));
    }

    /// The most recently committed chunk: the one with the greatest block
    /// number in the store.
    pub fn get_last_shard_chunk(&self) -> (chunk: Option<ShardChunk>)
        ensures
            chunk.deep_view() == last_committed_chunk(self.store()),
    {
        match self.shard_store.get_last_shard_chunk() {
            Ok(chunk) => chunk,
            Err(_) => None,
        }
    }

    /// The state root of the last committed chunk.
    fn committed_state_root(&self) -> (root: Vec<u8>)
        ensures
            root@ == committed_root(self.store()),
    {
        match self.shard_store.get_last_shard_chunk() {
            Ok(Some(chunk)) => match chunk.header {
                Some(header) => header.shard_root,
                None => Vec::new(),
            },
            _ => Vec::new(),
        }
    }

    /// The state root that `transactions` give on the committed state.
    fn root_after(&self, transactions: &Vec<Transaction>) -> (root: Vec<u8>)
        ensures
            root@ == state_root(committed_root(self.store()), transactions.deep_view()),
            root@.len() == 32,
    {
        let committed = self.committed_state_root();
        let mut input: Vec<u8> = Vec::new();
        put_bytes(&mut input, &committed);
        put_transactions(&mut input, transactions);
        assert(input@ =~= ser_bytes(committed@) + ser_transactions(transactions.deep_view()));
        blake3_hash(&input)
    }

    /// Drains the pool into a state change for `shard`: the transactions
    /// that waited, and the state root they give on the committed state.
    /// The store is not written.
    pub fn propose_state_change(&mut self, shard: u32) -> (change: ShardStateChange)
        ensures
            change@ == (ShardStateChangeView {
                shard_id: shard,
                new_state_root: state_root(
                    committed_root(old(self).store()),
                    old(self).pending(),
                ),
                transactions: old(self).pending(),
            }),
            change@.new_state_root.len() == 32,
            final(self).pending() == Seq::<TransactionView>::empty(),
            final(self).store() == old(self).store(),
            final(self).shard() == old(self).shard(),
    {
        let mut transactions: Vec<Transaction> = Vec::new();
        core::mem::swap(&mut self.pool, &mut transactions);
        assert(self.pending() =~= Seq::<TransactionView>::empty());
        let new_state_root = self.root_after(&transactions);
        ShardStateChange { shard_id: shard, new_state_root, transactions }
    }

    /// Whether applying the transactions of `change` to the committed state
    /// gives the state root that `change` names.
    pub fn validate_state_change(&self, change: &ShardStateChange) -> (valid: bool)
        ensures
            valid == (change@.new_state_root == state_root(
                committed_root(self.store()),
                change@.transactions,
            )),
    {
        let root = self.root_after(&change.transactions);
        bytes_eq(&root, &change.new_state_root)
    }

    /// Commits `chunk` at the height in its header.
    pub fn commit_shard_chunk(&mut self, chunk: ShardChunk) -> (r: Result<(), EngineError>)
        ensures
            commit_chunk_result(r, old(self).store(), final(self).store(), chunk@),
            final(self).pending() == old(self).pending(),
            final(self).shard() == old(self).shard(),
    {
        let block_number = match &chunk.header {
            None => {
                return Err(EngineError::ShardStorage(ShardStorageError::ShardMissingHeader));
            },
            Some(header) => match header.height {
                None => {
                    return Err(EngineError::ShardStorage(ShardStorageError::ShardMissingHeight));
                },
                Some(height) => height.block_number,
            },
        };
        match self.shard_store.stored_bytes(block_number) {
            Some(stored) => {
                let value = chunk.encode_to_vec();
                if bytes_eq(&stored, &value) {
                    Ok(())
                } else {
                    Err(EngineError::Conflict)
                }
            },
            None => match self.shard_store.put_shard_chunk(chunk) {
                Ok(()) => Ok(()),
                Err(e) => Err(EngineError::ShardStorage(e)),
            },
        }
    }

    /// The greatest height committed in this shard; block number 0 before
    /// the first commit.
    pub fn get_confirmed_height(&self) -> (height: Height)
        ensures
            height == (Height {
                shard_index: self.shard(),
                block_number: confirmed_block_number(self.store()),
            }),
            sorted(self.store()),
    {
        let block_number = match self.shard_store.max_block_number() {
            Ok(n) => n,
            Err(_) => 0,
        };
        Height { shard_index: self.shard_id, block_number }
    }

    /// The committed chunks with a block number from `start_block_number`
    /// on and before `stop_block_number`, for peers that catch up.
    pub fn get_shard_chunks(&self, start_block_number: u64, stop_block_number: Option<u64>) -> (r:
        Result<Vec<ShardChunk>, ShardStorageError>)
        ensures
            match decode_chunks(
                entries_in_range(self.store(), start_block_number, stop_block_number),
            ) {
                Some(chunks) => r matches Ok(found) && found.deep_view() == chunks,
                None => r matches Err(ShardStorageError::DbError(DbError::Malformed)),
            },
    {
        self.shard_store.get_shard_chunks(start_block_number, stop_block_number)
    }
}

/// The greatest committed block number of a block store; 0 before the first
/// commit, and where the last block cannot be read.
pub open spec fn confirmed_block(store: Seq<(Seq<u8>, Seq<u8>)>) -> u64 {
    match last_block_number(store) {
        Ok(n) => n,
        Err(_) => 0,
    }
}

/// The last committed block, where there is one that can be read.
pub open spec fn last_committed_block(store: Seq<(Seq<u8>, Seq<u8>)>) -> Option<BlockView> {
    match last_block(store) {
        Ok(block) => block,
        Err(_) => None,
    }
}

/// The engine of the block shard.
pub struct BlockEngine {
    block_store: BlockStore,
}

impl BlockEngine {
    /// The entries of the engine's store.
    pub closed spec fn store(&self) -> Seq<(Seq<u8>, Seq<u8>)> {
        self.block_store@
    }

    pub fn new(block_store: BlockStore) -> (engine: BlockEngine)
        ensures
            engine.store() == block_store@,
    {
        BlockEngine { block_store }
    }

    /// Commits `block` at the height in its header.
    pub fn commit_block(&mut self, block: Block) -> (r: Result<(), EngineError>)
        ensures
            commit_block_result(r, old(self).store(), final(self).store(), block@),
    {
        let block_number = match &block.header {
            None => {
                return Err(EngineError::BlockStorage(BlockStorageError::BlockMissingHeader));
            },
            Some(header) => match header.height {
                None => {
                    return Err(EngineError::BlockStorage(BlockStorageError::BlockMissingHeight));
                },
                Some(height) => height.block_number,
            },
        };
        match self.block_store.stored_bytes(block_number) {
            Some(stored) => {
                let value = block.encode_to_vec();
                if bytes_eq(&stored, &value) {
                    Ok(())
                } else {
                    Err(EngineError::Conflict)
                }
            },
            None => match self.block_store.put_block(block) {
                Ok(()) => Ok(()),
                Err(e) => Err(EngineError::BlockStorage(e)),
            },
        }
    }

    /// The most recently committed block.
    pub fn get_last_block(&self) -> (block: Option<Block>)
        ensures
            block.deep_view() == last_committed_block(self.store()),
    {
        match self.block_store.get_last_block() {
            Ok(block) => block,
            Err(_) => None,
        }
    }

    /// The greatest height committed in the block shard; block number 0
    /// before the first commit.
    pub fn get_confirmed_height(&self) -> (height: Height)
        ensures
            height == (Height {
                shard_index: BLOCK_SHARD,
                block_number: confirmed_block(self.store()),
            }),
            sorted(self.store()),
    {
        let block_number = match self.block_store.max_block_number() {
            Ok(n) => n,
            Err(_) => 0,
        };
        Height { shard_index: BLOCK_SHARD, block_number }
    }
}

} // verus!
