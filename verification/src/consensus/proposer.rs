//! The proposers. A proposer turns the state of its engine into a value to
//! propose, judges the values that peers propose, and commits the value
//! that consensus decides. It talks to no channel and no peer itself: each
//! step returns what is to be published or asked for, and whoever drives the
//! proposer sends it.

use crate::consensus::pending::{
    ascending, holds_shard, lemma_placed_ascending, lemma_slot_of, placed, shard_index_of,
    shard_of, slot_of, PendingChunks,
};
use crate::consensus::table::ProposalTable;
use crate::format::{ser_block_header, ser_shard_header};
use crate::hash::blake3_digest;
use crate::proto::{
    Block, BlockHeader, BlockHeaderView, BlockView, FullProposal, FullProposalView, ProposedValue,
    ProposedValueView, ShardChunk, ShardChunkView, ShardHeader, ShardHeaderView, Transaction,
    TransactionView,
};
use crate::storage::store::shard::{
    decode_chunks, entries_in_range, last_chunk, DbError, ShardStorageError,
};
use crate::storage::store::engine::{
    commit_block_result, commit_chunk_result, committed_root, confirmed_block,
    confirmed_block_number, last_committed_block, last_committed_chunk, state_root, BlockEngine, EngineError,
    ShardEngine, ShardStateChange,
};
use crate::storage::db::sorted;
use crate::types::{
    is_data_shard, Height, ShardHash, ShardHashView, SnapchainValidator, Validity, BLOCK_SHARD,
    MAX_SHARDS,
};
use crate::wire::copy_bytes;
use std::time::{Duration, SystemTime, SystemTimeError};
use vstd::prelude::*;
use vstd::string::StringExecFns;

verus! {

/// Seconds from the Unix epoch to 2021-01-01 00:00:00 UTC, from which the
/// timestamps in headers count.
pub const FARCASTER_EPOCH: u64 = 1609459200;

#[verifier::external_type_specification]
#[verifier::external_body]
pub struct ExSystemTime(SystemTime);

#[verifier::external_type_specification]
#[verifier::external_body]
pub struct ExSystemTimeError(SystemTimeError);

/// Calls `SystemTime::now`. Trusted, and nothing is claimed of the time it
/// returns.
#[verifier::external_body]
fn system_now() -> SystemTime {
    SystemTime::now()
}

/// Calls `SystemTime::duration_since` with `UNIX_EPOCH`. Trusted, and
/// nothing is claimed of the result: it is an error where the clock stands
/// before the Unix epoch.
#[verifier::external_body]
fn since_unix_epoch(time: &SystemTime) -> Result<Duration, SystemTimeError> {
    time.duration_since(std::time::UNIX_EPOCH)
}

/// Calls `Duration::as_secs`. Trusted, and nothing is claimed of the number
/// it returns.
#[verifier::external_body]
fn whole_seconds(duration: &Duration) -> u64 {
    duration.as_secs()
}

/// The timestamp for a clock that reads `unix_seconds` seconds since the
/// Unix epoch; none for a clock that stands before 2021.
pub open spec fn timestamp_at(unix_seconds: u64) -> Option<u64> {
    if unix_seconds >= FARCASTER_EPOCH {
        Some((unix_seconds - FARCASTER_EPOCH) as u64)
    } else {
        None
    }
}

/// The timestamp for a clock that reads `unix_seconds`.
pub fn seconds_since_epoch(unix_seconds: u64) -> (r: Option<u64>)
    ensures
        r == timestamp_at(unix_seconds),
{
    if unix_seconds >= FARCASTER_EPOCH {
        Some(unix_seconds - FARCASTER_EPOCH)
    } else {
        None
    }
}

/// The timestamp of this moment: the seconds since 2021-01-01 UTC on the
/// system clock. `None` where the clock stands before that day. Whatever the
/// clock reads, a timestamp returned is one that `timestamp_at` gives.
pub fn current_time() -> (r: Option<u64>)
    ensures
        r matches Some(t) ==> timestamp_at((t + FARCASTER_EPOCH) as u64) == Some(t),
{
    let now = system_now();
    match since_unix_epoch(&now) {
        Ok(elapsed) => seconds_since_epoch(whole_seconds(&elapsed)),
        Err(_) => None,
    }
}

/// The parent hash of the first chunk of a shard: 32 zero bytes.
pub open spec fn genesis_parent_hash() -> Seq<u8> {
    Seq::new(32, |i: int| 0u8)
}

pub fn make_genesis_parent_hash() -> (hash: Vec<u8>)
    ensures
        hash@ == genesis_parent_hash(),
{
    let mut hash: Vec<u8> = Vec::new();
    let mut i: usize = 0;
    while i < 32
        invariant
            i <= 32,
            hash@.len() == i,
            forall|j: int| 0 <= j < i ==> hash@[j] == 0u8,
        decreases 32 - i,
    {
        hash.push(0u8);
        i += 1;
    }
    assert(hash@ =~= genesis_parent_hash());
    hash
}

/// The hash by which the chunk behind `chunk` names it as its parent: the
/// BLAKE3 digest of the chunk's encoded header. (A chunk without a header
/// is never committed; were one there, its own hash field would stand in.)
pub open spec fn naming_hash(chunk: ShardChunkView) -> Seq<u8> {
    match chunk.header {
        Some(header) => blake3_digest(ser_shard_header(header)),
        None => chunk.hash,
    }
}

/// The parent hash of the next chunk of a proposer that remembers `recent`
/// and stands over `store`: the naming hash of the chunk it decided last;
/// where it has decided none yet, that of the last chunk committed in the
/// store; and the genesis hash only where the store holds none either.
pub open spec fn parent_hash_of(
    recent: Seq<ShardChunkView>,
    store: Seq<(Seq<u8>, Seq<u8>)>,
) -> Seq<u8> {
    if recent.len() > 0 {
        naming_hash(recent.last())
    } else {
        match last_committed_chunk(store) {
            Some(chunk) => naming_hash(chunk),
            None => genesis_parent_hash(),
        }
    }
}

pub fn naming_hash_of(chunk: &ShardChunk) -> (hash: Vec<u8>)
    ensures
        hash@ == naming_hash(chunk@),
{
    match &chunk.header {
        Some(header) => header.hash(),
        None => copy_bytes(&chunk.hash),
    }
}

/// The chunk a shard proposer builds: a header over the parent hash, the
/// time, the height and the new state root; the header's hash; and the
/// transactions of the state change.
pub open spec fn built_chunk(
    parent_hash: Seq<u8>,
    timestamp: u64,
    height: Height,
    new_state_root: Seq<u8>,
    transactions: Seq<TransactionView>,
) -> ShardChunkView {
    let header = ShardHeaderView {
        parent_hash,
        timestamp,
        height: Some(height),
        shard_root: new_state_root,
    };
    ShardChunkView {
        header: Some(header),
        hash: blake3_digest(ser_shard_header(header)),
        transactions,
        votes: None,
    }
}

/// The chunks of a shard are chained by their headers. The chunk built
/// behind a chunk decided in this run names the BLAKE3 digest of that
/// chunk's encoded header as its parent. The first chunk built over a store
/// that holds chunks already names the digest of the header of the last
/// chunk committed there. And the chunk built with nothing decided and
/// nothing committed names 32 zero bytes.
pub proof fn lemma_parent_hash_chain(
    recent: Seq<ShardChunkView>,
    decided: ShardChunkView,
    store: Seq<(Seq<u8>, Seq<u8>)>,
    timestamp: u64,
    height: Height,
    new_state_root: Seq<u8>,
    transactions: Seq<TransactionView>,
)
    requires
        decided.header is Some,
    ensures
        built_chunk(
            parent_hash_of(recent.push(decided), store),
            timestamp,
            height,
            new_state_root,
            transactions,
        ).header->0.parent_hash == blake3_digest(ser_shard_header(decided.header->0)),
        last_chunk(store) == Ok::<Option<ShardChunkView>, ShardStorageError>(Some(decided))
            ==> built_chunk(
            parent_hash_of(Seq::empty(), store),
            timestamp,
            height,
            new_state_root,
            transactions,
        ).header->0.parent_hash == blake3_digest(ser_shard_header(decided.header->0)),
        last_chunk(store) == Ok::<Option<ShardChunkView>, ShardStorageError>(None)
            ==> built_chunk(
            parent_hash_of(Seq::empty(), store),
            timestamp,
            height,
            new_state_root,
            transactions,
        ).header->0.parent_hash == Seq::new(32, |i: int| 0u8),
{
    assert(recent.push(decided).last() == decided);
}

/// A request for the shard chunks of one shard from a block number on.
#[derive(Debug, PartialEq, Eq)]
pub struct ShardChunksRequest {
    pub shard_id: u32,
    pub start_block_number: u64,
    pub stop_block_number: Option<u64>,
}

/// What to ask a peer for to catch up with it, and where.
#[derive(Debug, PartialEq, Eq)]
pub struct ShardCatchUp {
    pub destination_addr: String,
    pub request: ShardChunksRequest,
}

/// Whether `proposal` is one a shard proposer keeps for a later decision: it
/// has a height and carries a shard chunk whose header names a height.
pub open spec fn is_shard_proposal(proposal: FullProposalView) -> bool {
    proposal.height is Some && (proposal.shard_chunk() matches Some(chunk)
        && chunk.block_number() is Some)
}

/// The address a peer's RPC service is reached at.
pub open spec fn destination_of(rpc_address: Seq<char>) -> Seq<char> {
    "http://"@ + rpc_address
}

pub fn make_destination(rpc_address: &String) -> (destination: String)
    ensures
        destination@ == destination_of(rpc_address@),
{
    let mut destination = String::from_str("http://");
    destination.append(rpc_address.as_str());
    destination
}

/// The proposer of one data shard.
pub struct ShardProposer {
    shard_id: u32,
    address: Vec<u8>,
    chunks: Vec<ShardChunk>,
    proposed_chunks: ProposalTable,
    engine: ShardEngine,
}

impl ShardProposer {
    /// The shard the proposer proposes for.
    pub closed spec fn shard(&self) -> u32 {
        self.shard_id
    }

    /// The address the proposer signs its proposals with.
    pub closed spec fn address(&self) -> Seq<u8> {
        self.address@
    }

    /// The chunks decided since the proposer was made, oldest first.
    pub closed spec fn recent_chunks(&self) -> Seq<ShardChunkView> {
        self.chunks.deep_view()
    }

    /// The proposals that await a decision.
    pub closed spec fn proposed(&self) -> Map<ShardHashView, FullProposalView> {
        self.proposed_chunks@
    }

    /// The entries of the store behind the proposer's engine.
    pub closed spec fn store(&self) -> Seq<(Seq<u8>, Seq<u8>)> {
        self.engine.store()
    }

    /// The transactions that the next proposal will hold.
    pub closed spec fn pending_transactions(&self) -> Seq<TransactionView> {
        self.engine.pending()
    }

    /// The shard of the engine behind the proposer.
    pub closed spec fn engine_shard(&self) -> u32 {
        self.engine.shard()
    }

    /// Whether every chunk the proposer remembers has a header. Holds of a
    /// new proposer, and every step keeps it.
    pub open spec fn wf(&self) -> bool {
        forall|i: int|
            0 <= i < self.recent_chunks().len() ==> (#[trigger] self.recent_chunks()[i]).header
                is Some
    }

    /// A proposer over `engine` that has decided nothing yet. Its first
    /// chunk is chained to the last chunk committed in the engine's store,
    /// and to the genesis hash only where the store holds none.
    pub fn new(address: Vec<u8>, shard_id: u32, engine: ShardEngine) -> (proposer: ShardProposer)
        ensures
            proposer.shard() == shard_id,
            proposer.address() == address@,
            proposer.recent_chunks() == Seq::<ShardChunkView>::empty(),
            proposer.proposed() == Map::<ShardHashView, FullProposalView>::empty(),
            proposer.store() == engine.store(),
            proposer.pending_transactions() == engine.pending(),
            proposer.engine_shard() == engine.shard(),
            proposer.wf(),
    {
        let proposer = ShardProposer {
            shard_id,
            address,
            chunks: Vec::new(),
            proposed_chunks: ProposalTable::new(),
            engine,
        };
        assert(proposer.recent_chunks() =~= Seq::<ShardChunkView>::empty());
        proposer
    }

    /// Hands a transaction to the engine, for the next proposal.
    pub fn add_transaction(&mut self, transaction: Transaction)
        ensures
            final(self).pending_transactions() == old(self).pending_transactions().push(
                transaction@,
            ),
            final(self).store() == old(self).store(),
            final(self).shard() == old(self).shard(),
            final(self).engine_shard() == old(self).engine_shard(),
            final(self).address() == old(self).address(),
            final(self).recent_chunks() == old(self).recent_chunks(),
            final(self).proposed() == old(self).proposed(),
    {
        self.engine.add_transaction(transaction);
    }

    /// The parent hash for the next chunk.
    fn next_parent_hash(&self) -> (hash: Vec<u8>)
        ensures
            hash@ == parent_hash_of(self.recent_chunks(), self.store()),
    {
        let n = self.chunks.len();
        if n == 0 {
            return match self.engine.get_last_shard_chunk() {
                Some(chunk) => naming_hash_of(&chunk),
                None => make_genesis_parent_hash(),
            };
        }
        assert(self.recent_chunks().last() == self.chunks@[n - 1]@);
        naming_hash_of(&self.chunks[n - 1])
    }

    /// Builds the chunk for `height` from the engine's state change, stamps
    /// it with `timestamp`, and keeps the proposal for the decision.
    pub fn propose_value_at(&mut self, height: Height, round: i64, timestamp: u64) -> (proposal:
        FullProposal)
        ensures
            proposal@ == (FullProposalView {
                height: Some(height),
                round,
                proposer: old(self).address(),
                proposed_value: Some(
                    ProposedValueView::Shard(
                        built_chunk(
                            parent_hash_of(old(self).recent_chunks(), old(self).store()),
                            timestamp,
                            height,
                            state_root(
                                committed_root(old(self).store()),
                                old(self).pending_transactions(),
                            ),
                            old(self).pending_transactions(),
                        ),
                    ),
                ),
            }),
            is_shard_proposal(proposal@),
            final(self).proposed() == old(self).proposed().insert(
                proposal@.shard_hash()->0,
                proposal@,
            ),
            final(self).pending_transactions() == Seq::<TransactionView>::empty(),
            final(self).store() == old(self).store(),
            final(self).recent_chunks() == old(self).recent_chunks(),
            final(self).shard() == old(self).shard(),
            final(self).engine_shard() == old(self).engine_shard(),
            final(self).address() == old(self).address(),
    {
        let parent_hash = self.next_parent_hash();
        let state_change = self.engine.propose_state_change(self.shard_id);
        let shard_header = ShardHeader {
            parent_hash,
            timestamp,
            height: Some(height),
            shard_root: state_change.new_state_root,
        };
        let hash = shard_header.hash();
        let shard_hash = ShardHash { hash: copy_bytes(&hash), shard_index: height.shard_index };
        let chunk = ShardChunk {
            header: Some(shard_header),
            hash,
            transactions: state_change.transactions,
            votes: None,
        };
        let proposal = FullProposal {
            height: Some(height),
            round,
            proposer: copy_bytes(&self.address),
            proposed_value: Some(ProposedValue::Shard(chunk)),
        };
        self.proposed_chunks.insert(shard_hash, proposal.clone());
        proposal
    }

    /// Proposes as `propose_value_at` does, with the timestamp of this
    /// moment. `None`, and nothing changed, where the system clock stands
    /// before 2021. The time allowed is not used: a shard proposer waits for
    /// nothing.
    pub fn propose_value(&mut self, height: Height, round: i64, _timeout: Duration) -> (proposal:
        Option<FullProposal>)
        ensures
            match proposal {
                Some(p) => {
                    &&& is_shard_proposal(p@)
                    &&& p@.height == Some(height)
                    &&& p@.round == round
                    &&& p@.proposer == old(self).address()
                    &&& p@.shard_chunk() == Some(
                        built_chunk(
                            parent_hash_of(old(self).recent_chunks(), old(self).store()),
                            p@.shard_chunk()->0.header->0.timestamp,
                            height,
                            state_root(
                                committed_root(old(self).store()),
                                old(self).pending_transactions(),
                            ),
                            old(self).pending_transactions(),
                        ),
                    )
                    &&& timestamp_at(
                        (p@.shard_chunk()->0.header->0.timestamp + FARCASTER_EPOCH) as u64,
                    ) == Some(p@.shard_chunk()->0.header->0.timestamp)
                    &&& final(self).proposed() == old(self).proposed().insert(
                        p@.shard_hash()->0,
                        p@,
                    )
                    &&& final(self).pending_transactions() == Seq::<TransactionView>::empty()
                },
                None => {
                    &&& final(self).proposed() == old(self).proposed()
                    &&& final(self).pending_transactions() == old(self).pending_transactions()
                },
            },
            final(self).store() == old(self).store(),
            final(self).recent_chunks() == old(self).recent_chunks(),
            final(self).shard() == old(self).shard(),
            final(self).engine_shard() == old(self).engine_shard(),
            final(self).address() == old(self).address(),
    {
        match current_time() {
            Some(timestamp) => Some(self.propose_value_at(height, round, timestamp)),
            None => None,
        }
    }

    /// Judges a peer's proposal. A proposal that carries a shard chunk with
    /// a height is kept for the decision, and is valid exactly where the
    /// chunk's transactions, applied to the committed state, give the state
    /// root in its header. Any other proposal is invalid and is not kept.
    /// The store is not written.
    pub fn add_proposed_value(&mut self, full_proposal: &FullProposal) -> (validity: Validity)
        ensures
            is_shard_proposal(full_proposal@) ==> {
                &&& final(self).proposed() == old(self).proposed().insert(
                    full_proposal@.shard_hash()->0,
                    full_proposal@,
                )
                &&& (validity == Validity::Valid) == (full_proposal@.shard_chunk()->0.header->0.shard_root
                    == state_root(
                    committed_root(old(self).store()),
                    full_proposal@.shard_chunk()->0.transactions,
                ))
            },
            !is_shard_proposal(full_proposal@) ==> validity == Validity::Invalid && final(self).proposed() == old(self).proposed(),
            final(self).store() == old(self).store(),
            final(self).pending_transactions() == old(self).pending_transactions(),
            final(self).recent_chunks() == old(self).recent_chunks(),
            final(self).shard() == old(self).shard(),
            final(self).engine_shard() == old(self).engine_shard(),
            final(self).address() == old(self).address(),
    {
        let shard_hash = match full_proposal.shard_hash() {
            Some(h) => h,
            None => { return Validity::Invalid; },
        };
        let chunk = match full_proposal.shard_chunk() {
            Some(c) => c,
            None => { return Validity::Invalid; },
        };
        let (shard_index, new_state_root) = match chunk.header {
            Some(header) => match header.height {
                Some(height) => (height.shard_index, header.shard_root),
                None => { return Validity::Invalid; },
            },
            None => { return Validity::Invalid; },
        };
        self.proposed_chunks.insert(shard_hash, full_proposal.clone());
        let state = ShardStateChange {
            shard_id: shard_index,
            new_state_root,
            transactions: chunk.transactions,
        };
        if self.engine.validate_state_change(&state) {
            Validity::Valid
        } else {
            Validity::Invalid
        }
    }

    /// Applies a decision. Where no proposal stands under `value`, nothing
    /// happens. Where one does, its chunk is committed; committed, it joins
    /// the chunks remembered, the proposal leaves the table, and the chunk
    /// is returned to be published. Where the commit fails the error is
    /// returned and nothing has changed.
    pub fn decide(&mut self, _height: Height, _round: i64, value: ShardHash) -> (r: Result<
        Option<ShardChunk>,
        EngineError,
    >)
        ensures
            !old(self).proposed().dom().contains(value@) ==> r == Ok::<
                Option<ShardChunk>,
                EngineError,
            >(None) && final(self).proposed() == old(self).proposed() && final(self).store() == old(self).store() && final(self).recent_chunks() == old(self).recent_chunks(),
            old(self).proposed().dom().contains(value@) ==> match old(self).proposed()[value@].shard_chunk() {
                Some(chunk) => match r {
                    Ok(published) => {
                        &&& published.deep_view() == Some(chunk)
                        &&& commit_chunk_result(
                            Ok(()),
                            old(self).store(),
                            final(self).store(),
                            chunk,
                        )
                        &&& final(self).recent_chunks() == old(self).recent_chunks().push(chunk)
                        &&& final(self).proposed() == old(self).proposed().remove(value@)
                    },
                    Err(e) => {
                        &&& commit_chunk_result(
                            Err(e),
                            old(self).store(),
                            final(self).store(),
                            chunk,
                        )
                        &&& final(self).store() == old(self).store()
                        &&& final(self).recent_chunks() == old(self).recent_chunks()
                        &&& final(self).proposed() == old(self).proposed()
                    },
                },
                None => {
                    &&& r == Ok::<Option<ShardChunk>, EngineError>(None)
                    &&& final(self).proposed() == old(self).proposed().remove(value@)
                    &&& final(self).store() == old(self).store()
                    &&& final(self).recent_chunks() == old(self).recent_chunks()
                },
            },
            final(self).pending_transactions() == old(self).pending_transactions(),
            final(self).shard() == old(self).shard(),
            final(self).engine_shard() == old(self).engine_shard(),
            final(self).address() == old(self).address(),
            old(self).wf() ==> final(self).wf(),
    {
        let proposal = match self.proposed_chunks.get(&value) {
            Some(p) => p,
            None => { return Ok(None); },
        };
        let chunk = match proposal.shard_chunk() {
            Some(c) => c,
            None => {
                self.proposed_chunks.remove(&value);
                return Ok(None);
            },
        };
        match self.engine.commit_shard_chunk(chunk.clone()) {
            Ok(()) => {},
            Err(e) => { return Err(e); },
        }
        let ghost before = self.chunks.deep_view();
        self.chunks.push(chunk.clone());
        assert(self.chunks.deep_view() =~= before.push(chunk@));
        self.proposed_chunks.remove(&value);
        Ok(Some(chunk))
    }

    /// Forgets the chunks remembered but the last, which alone the next
    /// proposal reads. The parent hash of the next chunk stays what it was.
    pub fn evict_old_chunks(&mut self)
        ensures
            final(self).recent_chunks() == if old(self).recent_chunks().len() == 0 {
                Seq::<ShardChunkView>::empty()
            } else {
                seq![old(self).recent_chunks().last()]
            },
            parent_hash_of(final(self).recent_chunks(), final(self).store()) == parent_hash_of(
                old(self).recent_chunks(),
                old(self).store(),
            ),
            final(self).proposed() == old(self).proposed(),
            final(self).store() == old(self).store(),
            final(self).pending_transactions() == old(self).pending_transactions(),
            final(self).shard() == old(self).shard(),
            final(self).engine_shard() == old(self).engine_shard(),
            final(self).address() == old(self).address(),
            old(self).wf() ==> final(self).wf(),
    {
        let ghost before = self.chunks.deep_view();
        let n = self.chunks.len();
        if n > 1 {
            assert(before.last() == self.chunks@[n - 1]@);
            let last = self.chunks.pop().unwrap();
            self.chunks.clear();
            self.chunks.push(last);
            assert(self.chunks.deep_view() =~= seq![before.last()]);
            assert(self.recent_chunks().last() == before.last());
        } else {
            assert(n == 1 ==> before =~= seq![before.last()]);
            assert(n == 0 ==> before =~= Seq::<ShardChunkView>::empty());
        }
    }

    /// The greatest height committed in this shard. The store behind the
    /// proposer is sorted, and says so here.
    pub fn get_confirmed_height(&self) -> (height: Height)
        ensures
            height == (Height {
                shard_index: self.engine_shard(),
                block_number: confirmed_block_number(self.store()),
            }),
            sorted(self.store()),
    {
        self.engine.get_confirmed_height()
    }

    /// The committed chunks with a block number from `start_block_number`
    /// on and before `stop_block_number`: what a peer that catches up is
    /// answered with.
    pub fn get_shard_chunks(&self, start_block_number: u64, stop_block_number: Option<u64>) -> (r:
        Result<Vec<ShardChunk>, ShardStorageError>)
        ensures
            match decode_chunks(
                entries_in_range(self.store(), start_block_number, stop_block_number),
            ) {
                Some(chunks) => r matches Ok(found) && found.deep_view() == chunks,
                None => r matches Err(ShardStorageError::DbError(DbError::Malformed)),
            },
    {
        self.engine.get_shard_chunks(start_block_number, stop_block_number)
    }

    /// What to ask `validator` for: the chunks behind the last one
    /// committed here, where the validator advertises a greater height and
    /// an RPC address; nothing otherwise.
    pub fn register_validator(&self, validator: &SnapchainValidator) -> (r: Option<ShardCatchUp>)
        ensures
            match r {
                Some(ask) => {
                    &&& validator.current_height > confirmed_block_number(self.store())
                    &&& validator.rpc_address matches Some(rpc_address) && ask.destination_addr@
                        == destination_of(rpc_address@)
                    &&& ask.request == (ShardChunksRequest {
                        shard_id: self.shard(),
                        start_block_number: (confirmed_block_number(self.store()) + 1) as u64,
                        stop_block_number: None,
                    })
                },
                None => validator.current_height <= confirmed_block_number(self.store())
                    || validator.rpc_address is None,
            },
    {
        let prev_block_number = self.engine.get_confirmed_height().block_number;
        if validator.current_height > prev_block_number {
            match &validator.rpc_address {
                None => None,
                Some(rpc_address) => Some(
                    ShardCatchUp {
                        destination_addr: make_destination(rpc_address),
                        request: ShardChunksRequest {
                            shard_id: self.shard_id,
                            start_block_number: prev_block_number + 1,
                            stop_block_number: None,
                        },
                    },
                ),
            }
        } else {
            None
        }
    }
}

/// Milliseconds between two looks at the inbound channel while the block
/// proposer gathers shard chunks.
pub const POLL_INTERVAL_MILLIS: u64 = 10;

/// The parent hash of the block that follows `last`: the hash of the last
/// block's header, and the genesis hash where no block is committed. (A
/// block without a header is never committed; were one there, its own hash
/// field would stand in.)
pub open spec fn block_parent_hash_of(last: Option<BlockView>) -> Seq<u8> {
    match last {
        None => genesis_parent_hash(),
        Some(block) => match block.header {
            Some(header) => blake3_digest(ser_block_header(header)),
            None => block.hash,
        },
    }
}

/// The block a block proposer builds: a header over the parent hash, the
/// time and the height; the header's hash; and the shard chunks gathered.
pub open spec fn built_block(
    parent_hash: Seq<u8>,
    timestamp: u64,
    height: Height,
    shard_chunks: Seq<ShardChunkView>,
) -> BlockView {
    let header = BlockHeaderView {
        parent_hash,
        chain_id: 0,
        version: 0,
        shard_headers_hash: Seq::empty(),
        validators_hash: Seq::empty(),
        timestamp,
        height: Some(height),
    };
    BlockView {
        header: Some(header),
        hash: blake3_digest(ser_block_header(header)),
        validators: None,
        votes: None,
        shard_chunks,
    }
}

/// A request for the blocks of the block shard from a block number on.
#[derive(Debug, PartialEq, Eq)]
pub struct BlocksRequest {
    pub shard_id: u32,
    pub start_block_number: u64,
    pub stop_block_number: Option<u64>,
}

/// What to ask a peer for to catch up with it, and where.
#[derive(Debug, PartialEq, Eq)]
pub struct BlockCatchUp {
    pub destination_addr: String,
    pub request: BlocksRequest,
}

/// Whether `proposal` is one a block proposer keeps for a later decision:
/// it has a height and carries a block.
pub open spec fn is_block_proposal(proposal: FullProposalView) -> bool {
    proposal.height is Some && proposal.block() is Some
}

/// Whether a block proposer that waits for the chunks of `shards` data
/// shards takes in `chunk` among the chunks `pending` for its block number:
/// the chunk is of a data shard, fewer than `shards` chunks wait there, and
/// none of them is of the chunk's shard.
pub open spec fn admits(pending: Seq<ShardChunkView>, chunk: ShardChunkView, shards: u32) -> bool {
    &&& is_data_shard(shard_of(chunk))
    &&& pending.len() < shards
    &&& !holds_shard(pending, shard_of(chunk))
}

/// The chunks that wait for a block number after `chunk` came in for it:
/// with the chunk at the place of its shard where it is taken in, and as
/// they were where it is not.
pub open spec fn taken_in(pending: Seq<ShardChunkView>, chunk: ShardChunkView, shards: u32) -> Seq<
    ShardChunkView,
> {
    if admits(pending, chunk, shards) {
        placed(pending, chunk)
    } else {
        pending
    }
}

/// The proposer of the block shard. It gathers the shard chunks decided in
/// the data shards, by block number, and proposes blocks made of them.
pub struct BlockProposer {
    shard_id: u32,
    address: Vec<u8>,
    proposed_blocks: ProposalTable,
    pending_chunks: PendingChunks,
    num_shards: u32,
    engine: BlockEngine,
    received: Ghost<Seq<ShardChunkView>>,
}

impl BlockProposer {
    /// The shard the proposer proposes for.
    pub closed spec fn shard(&self) -> u32 {
        self.shard_id
    }

    /// The address the proposer signs its proposals with.
    pub closed spec fn address(&self) -> Seq<u8> {
        self.address@
    }

    /// The number of data shards whose chunks make a full block.
    pub closed spec fn shards(&self) -> u32 {
        self.num_shards
    }

    /// The proposals that await a decision.
    pub closed spec fn proposed(&self) -> Map<ShardHashView, FullProposalView> {
        self.proposed_blocks@
    }

    /// The chunks gathered for `block_number`, in rising order of shards.
    pub closed spec fn pending(&self, block_number: u64) -> Seq<ShardChunkView> {
        self.pending_chunks.at(block_number)
    }

    /// Every chunk handed to the proposer so far, in the order of arrival.
    pub closed spec fn received(&self) -> Seq<ShardChunkView> {
        self.received@
    }

    /// The entries of the store behind the proposer's engine.
    pub closed spec fn store(&self) -> Seq<(Seq<u8>, Seq<u8>)> {
        self.engine.store()
    }

    /// Whether every chunk gathered was handed in, is of a data shard and
    /// stands under its own block number, no shard has two chunks under one
    /// block number, and no block number has more chunks than there are
    /// data shards to wait for. Holds of a new proposer, and every step
    /// keeps it.
    pub open spec fn wf(&self) -> bool {
        forall|n: u64|
            {
                &&& ascending(#[trigger] self.pending(n))
                &&& self.pending(n).len() <= self.shards()
                &&& forall|i: int|
                    0 <= i < self.pending(n).len() ==> {
                        &&& (#[trigger] self.pending(n)[i]).block_number() == Some(n)
                        &&& is_data_shard(shard_of(self.pending(n)[i]))
                        &&& self.received().contains(self.pending(n)[i])
                    }
            }
    }

    /// A step that leaves the chunks handed in as they were, and the chunks
    /// gathered under each block number as they were or forgets them, keeps
    /// the proposer well-formed.
    pub proof fn lemma_wf_kept(before: BlockProposer, after: BlockProposer)
        requires
            before.wf(),
            after.received() == before.received(),
            after.shards() == before.shards(),
            forall|m: u64|
                #[trigger] after.pending(m) == before.pending(m) || after.pending(m).len() == 0,
        ensures
            after.wf(),
    {
        assert forall|n: u64|
            {
                &&& ascending(#[trigger] after.pending(n))
                &&& after.pending(n).len() <= after.shards()
                &&& forall|i: int|
                    0 <= i < after.pending(n).len() ==> {
                        &&& (#[trigger] after.pending(n)[i]).block_number() == Some(n)
                        &&& is_data_shard(shard_of(after.pending(n)[i]))
                        &&& after.received().contains(after.pending(n)[i])
                    }
            } by {
            assert(ascending(before.pending(n)));
            assert(after.pending(n) == before.pending(n) || after.pending(n).len() == 0);
        }
    }

    /// Taking in a chunk keeps the proposer well-formed: the chunk joins
    /// those handed in, and the chunks gathered for its block number are
    /// `taken_in` of what they were.
    pub proof fn lemma_wf_after_intake(
        before: BlockProposer,
        after: BlockProposer,
        chunk: ShardChunkView,
    )
        requires
            before.wf(),
            after.received() == before.received().push(chunk),
            after.shards() == before.shards(),
            match chunk.block_number() {
                Some(n) => {
                    &&& after.pending(n) == taken_in(before.pending(n), chunk, before.shards())
                    &&& forall|m: u64| m != n ==> after.pending(m) == before.pending(m)
                },
                None => forall|m: u64| after.pending(m) == before.pending(m),
            },
        ensures
            after.wf(),
    {
        let handed = before.received();
        assert forall|n: u64|
            {
                &&& ascending(#[trigger] after.pending(n))
                &&& after.pending(n).len() <= after.shards()
                &&& forall|i: int|
                    0 <= i < after.pending(n).len() ==> {
                        &&& (#[trigger] after.pending(n)[i]).block_number() == Some(n)
                        &&& is_data_shard(shard_of(after.pending(n)[i]))
                        &&& after.received().contains(after.pending(n)[i])
                    }
            } by {
            let now = after.pending(n);
            let was = before.pending(n);
            assert(ascending(was));
            lemma_slot_of(was, shard_of(chunk));
            if now != was {
                lemma_placed_ascending(was, chunk);
            }
            assert forall|i: int| 0 <= i < now.len() implies {
                &&& (#[trigger] now[i]).block_number() == Some(n)
                &&& is_data_shard(shard_of(now[i]))
                &&& after.received().contains(now[i])
            } by {
                if now == was {
                    assert(handed.contains(was[i]));
                    let j = handed.index_of(was[i]);
                    assert(after.received()[j] == was[i]);
                } else {
                    let at = slot_of(was, shard_of(chunk)) as int;
                    if i == at {
                        assert(now[i] == chunk);
                        assert(after.received()[handed.len() as int] == chunk);
                    } else {
                        let k = if i < at {
                            i
                        } else {
                            i - 1
                        };
                        assert(now[i] == was[k]);
                        assert(handed.contains(was[k]));
                        let j = handed.index_of(was[k]);
                        assert(after.received()[j] == was[k]);
                    }
                }
            }
        }
    }

    pub fn new(address: Vec<u8>, shard_id: u32, num_shards: u32, engine: BlockEngine) -> (proposer:
        BlockProposer)
        ensures
            proposer.shard() == shard_id,
            proposer.address() == address@,
            proposer.shards() == num_shards,
            proposer.proposed() == Map::<ShardHashView, FullProposalView>::empty(),
            forall|n: u64| proposer.pending(n) == Seq::<ShardChunkView>::empty(),
            proposer.received() == Seq::<ShardChunkView>::empty(),
            proposer.store() == engine.store(),
            proposer.wf(),
    {
        BlockProposer {
            shard_id,
            address,
            proposed_blocks: ProposalTable::new(),
            pending_chunks: PendingChunks::new(),
            num_shards,
            engine,
            received: Ghost(Seq::empty()),
        }
    }

    /// Takes in a shard chunk that a data shard decided. The chunk joins
    /// those gathered for its block number, at the place of its shard.
    /// `false`, and nothing gathered, for a chunk without a block number,
    /// for a chunk that is of no data shard, for a second chunk of one shard
    /// under one block number, and for a chunk under a block number that has
    /// a chunk for every data shard already.
    pub fn index_shard_chunk(&mut self, chunk: ShardChunk) -> (added: bool)
        ensures
            final(self).received() == old(self).received().push(chunk@),
            match chunk@.block_number() {
                Some(n) => {
                    &&& final(self).pending(n) == taken_in(
                        old(self).pending(n),
                        chunk@,
                        old(self).shards(),
                    )
                    &&& added == admits(old(self).pending(n), chunk@, old(self).shards())
                    &&& forall|m: u64| m != n ==> final(self).pending(m) == old(self).pending(m)
                },
                None => !added && forall|m: u64| final(self).pending(m) == old(self).pending(m),
            },
            final(self).proposed() == old(self).proposed(),
            final(self).store() == old(self).store(),
            final(self).shard() == old(self).shard(),
            final(self).address() == old(self).address(),
            final(self).shards() == old(self).shards(),
            old(self).wf() ==> final(self).wf(),
    {
        let ghost before = self.received@;
        self.received = Ghost(before.push(chunk@));
        let added = match chunk.block_number() {
            Some(n) => {
                let shard = shard_index_of(&chunk);
                if 1 <= shard && shard <= MAX_SHARDS && self.pending_chunks.count(n)
                    < self.num_shards as usize {
                    self.pending_chunks.add(n, chunk)
                } else {
                    false
                }
            },
            None => false,
        };
        proof {
            if old(self).wf() {
                Self::lemma_wf_after_intake(*old(self), *self, chunk@);
            }
        }
        added
    }

    /// The chunks gathered for `height`, in rising order of shards.
    pub fn collected_shard_chunks(&self, height: Height) -> (chunks: Vec<ShardChunk>)
        ensures
            chunks.deep_view() == self.pending(height.block_number),
    {
        self.pending_chunks.get(height.block_number)
    }

    /// One step of gathering the chunks for `height`: takes in `arrived`,
    /// what the inbound channel held at this moment, and returns the chunks
    /// gathered for `height` once every data shard has one there. `None`
    /// says to wait on; whoever waits calls `collected_shard_chunks` where
    /// the time allowed runs out first.
    pub fn collect_confirmed_shard_chunks(&mut self, height: Height, arrived: Option<ShardChunk>) -> (r:
        Option<Vec<ShardChunk>>)
        ensures
            match r {
                Some(chunks) => chunks.deep_view() == final(self).pending(height.block_number)
                    && chunks.len() == old(self).shards(),
                None => final(self).pending(height.block_number).len() != old(self).shards(),
            },
            match arrived {
                Some(chunk) => {
                    &&& final(self).received() == old(self).received().push(chunk@)
                    &&& match chunk@.block_number() {
                        Some(n) => {
                            &&& final(self).pending(n) == taken_in(
                                old(self).pending(n),
                                chunk@,
                                old(self).shards(),
                            )
                            &&& forall|m: u64|
                                m != n ==> final(self).pending(m) == old(self).pending(m)
                        },
                        None => forall|m: u64| final(self).pending(m) == old(self).pending(m),
                    }
                },
                None => final(self).received() == old(self).received() && forall|m: u64|
                    final(self).pending(m) == old(self).pending(m),
            },
            final(self).proposed() == old(self).proposed(),
            final(self).store() == old(self).store(),
            final(self).shard() == old(self).shard(),
            final(self).address() == old(self).address(),
            final(self).shards() == old(self).shards(),
            old(self).wf() ==> final(self).wf(),
    {
        match arrived {
            Some(chunk) => {
                self.index_shard_chunk(chunk);
            },
            None => {},
        }
        if self.pending_chunks.count(height.block_number) == self.num_shards as usize {
            Some(self.pending_chunks.get(height.block_number))
        } else {
            None
        }
    }

    /// The parent hash for the next block.
    fn next_parent_hash(&self) -> (hash: Vec<u8>)
        ensures
            hash@ == block_parent_hash_of(last_committed_block(self.store())),
    {
        match self.engine.get_last_block() {
            None => make_genesis_parent_hash(),
            Some(block) => match &block.header {
                Some(header) => header.hash(),
                None => copy_bytes(&block.hash),
            },
        }
    }

    /// Builds the block for `height` from the chunks gathered for its block
    /// number, few or many, stamps it with `timestamp`, and keeps the
    /// proposal for the decision.
    pub fn propose_value_at(&mut self, height: Height, round: i64, timestamp: u64) -> (proposal:
        FullProposal)
        ensures
            proposal@ == (FullProposalView {
                height: Some(height),
                round,
                proposer: old(self).address(),
                proposed_value: Some(
                    ProposedValueView::Block(
                        built_block(
                            block_parent_hash_of(last_committed_block(old(self).store())),
                            timestamp,
                            height,
                            old(self).pending(height.block_number),
                        ),
                    ),
                ),
            }),
            is_block_proposal(proposal@),
            old(self).wf() ==> forall|i: int|
                0 <= i < proposal@.block()->0.shard_chunks.len() ==> {
                    &&& old(self).received().contains(#[trigger] proposal@.block()->0.shard_chunks[i])
                    &&& proposal@.block()->0.shard_chunks[i].block_number() == Some(
                        height.block_number,
                    )
                },
            final(self).proposed() == old(self).proposed().insert(
                proposal@.shard_hash()->0,
                proposal@,
            ),
            forall|m: u64| final(self).pending(m) == old(self).pending(m),
            final(self).received() == old(self).received(),
            final(self).store() == old(self).store(),
            final(self).shard() == old(self).shard(),
            final(self).address() == old(self).address(),
            final(self).shards() == old(self).shards(),
            old(self).wf() ==> final(self).wf(),
    {
        let shard_chunks = self.pending_chunks.get(height.block_number);
        let parent_hash = self.next_parent_hash();
        let block_header = BlockHeader {
            parent_hash,
            chain_id: 0,
            version: 0,
            shard_headers_hash: Vec::new(),
            validators_hash: Vec::new(),
            timestamp,
            height: Some(height),
        };
        let hash = block_header.hash();
        let shard_hash = ShardHash { hash: copy_bytes(&hash), shard_index: height.shard_index };
        let block = Block {
            header: Some(block_header),
            hash,
            validators: None,
            votes: None,
            shard_chunks,
        };
        let proposal = FullProposal {
            height: Some(height),
            round,
            proposer: copy_bytes(&self.address),
            proposed_value: Some(ProposedValue::Block(block)),
        };
        self.proposed_blocks.insert(shard_hash, proposal.clone());
        proof {
            assert(old(self).pending(height.block_number) == self.pending(height.block_number));
            if old(self).wf() {
                Self::lemma_wf_kept(*old(self), *self);
            }
        }
        proposal
    }

    /// Proposes as `propose_value_at` does, with the timestamp of this
    /// moment. `None`, and nothing changed, where the system clock stands
    /// before 2021. The gathering is over when this is called: the block
    /// holds the chunks that have come in, and the time allowed, which
    /// whoever gathered has spent, is not used.
    pub fn propose_value(&mut self, height: Height, round: i64, _timeout: Duration) -> (proposal:
        Option<FullProposal>)
        ensures
            match proposal {
                Some(p) => {
                    &&& is_block_proposal(p@)
                    &&& p@.height == Some(height)
                    &&& p@.round == round
                    &&& p@.proposer == old(self).address()
                    &&& p@.block() == Some(
                        built_block(
                            block_parent_hash_of(last_committed_block(old(self).store())),
                            p@.block()->0.header->0.timestamp,
                            height,
                            old(self).pending(height.block_number),
                        ),
                    )
                    &&& timestamp_at(
                        (p@.block()->0.header->0.timestamp + FARCASTER_EPOCH) as u64,
                    ) == Some(p@.block()->0.header->0.timestamp)
                    &&& final(self).proposed() == old(self).proposed().insert(
                        p@.shard_hash()->0,
                        p@,
                    )
                },
                None => final(self).proposed() == old(self).proposed(),
            },
            forall|m: u64| final(self).pending(m) == old(self).pending(m),
            final(self).received() == old(self).received(),
            final(self).store() == old(self).store(),
            final(self).shard() == old(self).shard(),
            final(self).address() == old(self).address(),
            final(self).shards() == old(self).shards(),
            old(self).wf() ==> final(self).wf(),
    {
        match current_time() {
            Some(timestamp) => Some(self.propose_value_at(height, round, timestamp)),
            None => None,
        }
    }

    /// Takes in a peer's proposal. A proposal that carries a block and has
    /// a height is kept for the decision. Every proposal is held valid:
    /// neither the proposer's signature nor the chunks in the block are
    /// checked here.
    pub fn add_proposed_value(&mut self, full_proposal: &FullProposal) -> (validity: Validity)
        ensures
            validity == Validity::Valid,
            final(self).proposed() == if is_block_proposal(full_proposal@) {
                old(self).proposed().insert(full_proposal@.shard_hash()->0, full_proposal@)
            } else {
                old(self).proposed()
            },
            forall|m: u64| final(self).pending(m) == old(self).pending(m),
            final(self).received() == old(self).received(),
            final(self).store() == old(self).store(),
            final(self).shard() == old(self).shard(),
            final(self).address() == old(self).address(),
            final(self).shards() == old(self).shards(),
            old(self).wf() ==> final(self).wf(),
    {
        match &full_proposal.proposed_value {
            Some(ProposedValue::Block(_)) => {
                match full_proposal.shard_hash() {
                    Some(shard_hash) => {
                        self.proposed_blocks.insert(shard_hash, full_proposal.clone());
                    },
                    None => {},
                }
            },
            _ => {},
        }
        proof {
            if old(self).wf() {
                Self::lemma_wf_kept(*old(self), *self);
            }
        }
        Validity::Valid
    }

    /// Applies a decision. Where no proposal stands under `value`, nothing
    /// happens. Where one does, its block is committed; committed, the
    /// proposal leaves the table, the chunks gathered for the block number
    /// of `height` are forgotten, and the block is returned to be
    /// published. Where the commit fails the error is returned and nothing
    /// has changed.
    pub fn decide(&mut self, height: Height, _round: i64, value: ShardHash) -> (r: Result<
        Option<Block>,
        EngineError,
    >)
        ensures
            !old(self).proposed().dom().contains(value@) ==> r == Ok::<Option<Block>, EngineError>(
                None,
            ) && final(self).proposed() == old(self).proposed() && final(self).store() == old(self).store() && forall|m: u64| final(self).pending(m) == old(self).pending(m),
            old(self).proposed().dom().contains(value@) ==> match old(self).proposed()[value@].block() {
                Some(block) => match r {
                    Ok(published) => {
                        &&& published.deep_view() == Some(block)
                        &&& commit_block_result(
                            Ok(()),
                            old(self).store(),
                            final(self).store(),
                            block,
                        )
                        &&& final(self).proposed() == old(self).proposed().remove(value@)
                        &&& final(self).pending(height.block_number) == Seq::<
                            ShardChunkView,
                        >::empty()
                        &&& forall|m: u64|
                            m != height.block_number ==> final(self).pending(m) == old(self).pending(m)
                    },
                    Err(e) => {
                        &&& commit_block_result(
                            Err(e),
                            old(self).store(),
                            final(self).store(),
                            block,
                        )
                        &&& final(self).store() == old(self).store()
                        &&& final(self).proposed() == old(self).proposed()
                        &&& forall|m: u64| final(self).pending(m) == old(self).pending(m)
                    },
                },
                None => {
                    &&& r == Ok::<Option<Block>, EngineError>(None)
                    &&& final(self).proposed() == old(self).proposed().remove(value@)
                    &&& final(self).store() == old(self).store()
                    &&& forall|m: u64| final(self).pending(m) == old(self).pending(m)
                },
            },
            final(self).received() == old(self).received(),
            final(self).shard() == old(self).shard(),
            final(self).address() == old(self).address(),
            final(self).shards() == old(self).shards(),
            old(self).wf() ==> final(self).wf(),
    {
        let proposal = match self.proposed_blocks.get(&value) {
            Some(p) => p,
            None => { return Ok(None); },
        };
        let block = match proposal.block() {
            Some(b) => b,
            None => {
                self.proposed_blocks.remove(&value);
                proof {
                    if old(self).wf() {
                        Self::lemma_wf_kept(*old(self), *self);
                    }
                }
                return Ok(None);
            },
        };
        match self.engine.commit_block(block.clone()) {
            Ok(()) => {},
            Err(e) => {
                proof {
                    if old(self).wf() {
                        Self::lemma_wf_kept(*old(self), *self);
                    }
                }
                return Err(e);
            },
        }
        self.proposed_blocks.remove(&value);
        self.pending_chunks.remove(height.block_number);
        proof {
            if old(self).wf() {
                Self::lemma_wf_kept(*old(self), *self);
            }
        }
        Ok(Some(block))
    }

    /// The greatest height committed in the block shard. The store behind
    /// the proposer is sorted, and says so here.
    pub fn get_confirmed_height(&self) -> (height: Height)
        ensures
            height == (Height {
                shard_index: BLOCK_SHARD,
                block_number: confirmed_block(self.store()),
            }),
            sorted(self.store()),
    {
        self.engine.get_confirmed_height()
    }

    /// The most recently committed block.
    pub fn get_last_block(&self) -> (block: Option<Block>)
        ensures
            block.deep_view() == last_committed_block(self.store()),
    {
        self.engine.get_last_block()
    }

    /// What to ask `validator` for: the blocks behind the last one
    /// committed here, where the validator advertises a greater height and
    /// an RPC address; nothing otherwise.
    pub fn register_validator(&self, validator: &SnapchainValidator) -> (r: Option<BlockCatchUp>)
        ensures
            match r {
                Some(ask) => {
                    &&& validator.current_height > confirmed_block(self.store())
                    &&& validator.rpc_address matches Some(rpc_address) && ask.destination_addr@
                        == destination_of(rpc_address@)
                    &&& ask.request == (BlocksRequest {
                        shard_id: self.shard(),
                        start_block_number: (confirmed_block(self.store()) + 1) as u64,
                        stop_block_number: None,
                    })
                },
                None => validator.current_height <= confirmed_block(self.store())
                    || validator.rpc_address is None,
            },
    {
        let prev_block_number = self.engine.get_confirmed_height().block_number;
        if validator.current_height > prev_block_number {
            match &validator.rpc_address {
                None => None,
                Some(rpc_address) => Some(
                    BlockCatchUp {
                        destination_addr: make_destination(rpc_address),
                        request: BlocksRequest {
                            shard_id: self.shard_id,
                            start_block_number: prev_block_number + 1,
                            stop_block_number: None,
                        },
                    },
                ),
            }
        } else {
            None
        }
    }
}

/// The timestamp in the header of the value a proposal carries; 0 where it
/// carries no value, or a value without a header.
pub open spec fn proposal_timestamp(proposal: FullProposalView) -> u64 {
    match proposal.proposed_value {
        Some(ProposedValueView::Shard(chunk)) => match chunk.header {
            Some(header) => header.timestamp,
            None => 0,
        },
        Some(ProposedValueView::Block(block)) => match block.header {
            Some(header) => header.timestamp,
            None => 0,
        },
        None => 0,
    }
}

/// What the consensus layer asks of the proposer of a shard, be it a data
/// shard or the block shard, and what holds of either: a value proposed
/// waits under its name until it is decided; a decision on a name under
/// which nothing waits changes nothing; a decision that succeeds takes the
/// value out of those that wait; and only a decision moves the confirmed
/// height.
pub trait Proposer {
    /// What a decision gives to publish.
    type Decided;

    /// What there is to ask a peer for to catch up with it.
    type CatchUp;

    /// The greatest block number committed.
    spec fn confirmed(&self) -> u64;

    /// The shard in which the proposer's engine commits.
    spec fn home(&self) -> u32;

    /// The proposals that await a decision, by name.
    spec fn awaiting(&self) -> Map<ShardHashView, FullProposalView>;

    /// The proposal the proposer builds for `height` in `round` when the
    /// clock gives `timestamp`.
    spec fn builds(&self, height: Height, round: i64, timestamp: u64) -> FullProposalView;

    /// Whether the proposer keeps a peer's proposal for the decision.
    spec fn keeps(&self, proposal: FullProposalView) -> bool;

    /// What the proposer says of a peer's proposal.
    spec fn verdict(&self, proposal: FullProposalView) -> Validity;

    /// Creates the value to propose at `height`, and keeps it for the
    /// decision. The clock decides whether there is a proposal and which
    /// timestamp it carries; all else of it is what `builds` says.
    fn propose_value(&mut self, height: Height, round: i64, timeout: Duration) -> (proposal:
        Option<FullProposal>)
        ensures
            final(self).confirmed() == old(self).confirmed(),
            match proposal {
                Some(p) => {
                    &&& p@ == old(self).builds(height, round, proposal_timestamp(p@))
                    &&& timestamp_at((proposal_timestamp(p@) + FARCASTER_EPOCH) as u64) == Some(
                        proposal_timestamp(p@),
                    )
                    &&& p@.height == Some(height)
                    &&& p@.round == round
                    &&& p@.shard_hash() is Some
                    &&& final(self).awaiting() == old(self).awaiting().insert(
                        p@.shard_hash()->0,
                        p@,
                    )
                },
                None => final(self).awaiting() == old(self).awaiting(),
            },
    ;

    /// Takes in the value a peer proposes, and says whether it is valid:
    /// the verdict is `verdict` of the proposal, and the proposal waits for
    /// the decision exactly where `keeps` says so.
    fn add_proposed_value(&mut self, full_proposal: &FullProposal) -> (validity: Validity)
        ensures
            validity == old(self).verdict(full_proposal@),
            final(self).confirmed() == old(self).confirmed(),
            old(self).keeps(full_proposal@) ==> full_proposal@.shard_hash() is Some && final(self).awaiting() == old(self).awaiting().insert(
                full_proposal@.shard_hash()->0,
                full_proposal@,
            ),
            !old(self).keeps(full_proposal@) ==> final(self).awaiting() == old(self).awaiting(),
    ;

    /// Applies the decision of consensus on the value that `value` names.
    fn decide(&mut self, height: Height, round: i64, value: ShardHash) -> (r: Result<
        Option<Self::Decided>,
        EngineError,
    >)
        ensures
            !old(self).awaiting().dom().contains(value@) ==> {
                &&& r matches Ok(None)
                &&& final(self).awaiting() == old(self).awaiting()
                &&& final(self).confirmed() == old(self).confirmed()
            },
            old(self).awaiting().dom().contains(value@) ==> match r {
                Ok(_) => final(self).awaiting() == old(self).awaiting().remove(value@),
                Err(_) => final(self).awaiting() == old(self).awaiting() && final(self).confirmed()
                    == old(self).confirmed(),
            },
    ;

    /// The greatest height committed: the block number confirmed, in the
    /// shard of the proposer's engine.
    fn get_confirmed_height(&self) -> (height: Height)
        ensures
            height == (Height { shard_index: self.home(), block_number: self.confirmed() }),
    ;

    /// Takes note of a validator, and says what to ask it for: something
    /// exactly where the validator advertises a greater height than the
    /// one confirmed here, and an address to ask at.
    fn register_validator(&self, validator: &SnapchainValidator) -> (r: Option<Self::CatchUp>)
        ensures
            r is Some <==> (validator.current_height > self.confirmed() && validator.rpc_address
                is Some),
    ;
}

impl Proposer for ShardProposer {
    type Decided = ShardChunk;

    type CatchUp = ShardCatchUp;

    open spec fn confirmed(&self) -> u64 {
        confirmed_block_number(self.store())
    }

    open spec fn home(&self) -> u32 {
        self.engine_shard()
    }

    open spec fn awaiting(&self) -> Map<ShardHashView, FullProposalView> {
        self.proposed()
    }

    open spec fn builds(&self, height: Height, round: i64, timestamp: u64) -> FullProposalView {
        FullProposalView {
            height: Some(height),
            round,
            proposer: self.address(),
            proposed_value: Some(
                ProposedValueView::Shard(
                    built_chunk(
                        parent_hash_of(self.recent_chunks(), self.store()),
                        timestamp,
                        height,
                        state_root(committed_root(self.store()), self.pending_transactions()),
                        self.pending_transactions(),
                    ),
                ),
            ),
        }
    }

    open spec fn keeps(&self, proposal: FullProposalView) -> bool {
        is_shard_proposal(proposal)
    }

    open spec fn verdict(&self, proposal: FullProposalView) -> Validity {
        if is_shard_proposal(proposal) && proposal.shard_chunk()->0.header->0.shard_root
            == state_root(committed_root(self.store()), proposal.shard_chunk()->0.transactions) {
            Validity::Valid
        } else {
            Validity::Invalid
        }
    }

    fn propose_value(&mut self, height: Height, round: i64, timeout: Duration) -> (proposal:
        Option<FullProposal>)
        ensures
            proposal is Some ==> final(self).pending_transactions() == Seq::<
                TransactionView,
            >::empty(),
            proposal is None ==> final(self).pending_transactions() == old(self).pending_transactions(),
            final(self).store() == old(self).store(),
            final(self).recent_chunks() == old(self).recent_chunks(),
            final(self).shard() == old(self).shard(),
            final(self).address() == old(self).address(),
    {
        ShardProposer::propose_value(self, height, round, timeout)
    }

    fn add_proposed_value(&mut self, full_proposal: &FullProposal) -> (validity: Validity)
        ensures
            final(self).store() == old(self).store(),
            final(self).pending_transactions() == old(self).pending_transactions(),
            final(self).recent_chunks() == old(self).recent_chunks(),
            final(self).shard() == old(self).shard(),
            final(self).address() == old(self).address(),
    {
        ShardProposer::add_proposed_value(self, full_proposal)
    }

    fn decide(&mut self, height: Height, round: i64, value: ShardHash) -> (r: Result<
        Option<ShardChunk>,
        EngineError,
    >)
        ensures
            !old(self).proposed().dom().contains(value@) ==> r == Ok::<
                Option<ShardChunk>,
                EngineError,
            >(None) && final(self).proposed() == old(self).proposed() && final(self).store() == old(self).store() && final(self).recent_chunks() == old(self).recent_chunks(),
            old(self).proposed().dom().contains(value@) ==> match old(self).proposed()[value@].shard_chunk() {
                Some(chunk) => match r {
                    Ok(published) => {
                        &&& published.deep_view() == Some(chunk)
                        &&& commit_chunk_result(
                            Ok(()),
                            old(self).store(),
                            final(self).store(),
                            chunk,
                        )
                        &&& final(self).recent_chunks() == old(self).recent_chunks().push(chunk)
                        &&& final(self).proposed() == old(self).proposed().remove(value@)
                    },
                    Err(e) => {
                        &&& commit_chunk_result(
                            Err(e),
                            old(self).store(),
                            final(self).store(),
                            chunk,
                        )
                        &&& final(self).store() == old(self).store()
                        &&& final(self).recent_chunks() == old(self).recent_chunks()
                        &&& final(self).proposed() == old(self).proposed()
                    },
                },
                None => {
                    &&& r == Ok::<Option<ShardChunk>, EngineError>(None)
                    &&& final(self).proposed() == old(self).proposed().remove(value@)
                    &&& final(self).store() == old(self).store()
                    &&& final(self).recent_chunks() == old(self).recent_chunks()
                },
            },
            final(self).pending_transactions() == old(self).pending_transactions(),
            final(self).shard() == old(self).shard(),
            final(self).engine_shard() == old(self).engine_shard(),
            final(self).address() == old(self).address(),
            old(self).wf() ==> final(self).wf(),
    {
        ShardProposer::decide(self, height, round, value)
    }

    fn get_confirmed_height(&self) -> (height: Height)
        ensures
            sorted(self.store()),
    {
        ShardProposer::get_confirmed_height(self)
    }

    fn register_validator(&self, validator: &SnapchainValidator) -> (r: Option<ShardCatchUp>)
        ensures
            match r {
                Some(ask) => {
                    &&& validator.current_height > confirmed_block_number(self.store())
                    &&& validator.rpc_address matches Some(rpc_address) && ask.destination_addr@
                        == destination_of(rpc_address@)
                    &&& ask.request == (ShardChunksRequest {
                        shard_id: self.shard(),
                        start_block_number: (confirmed_block_number(self.store()) + 1) as u64,
                        stop_block_number: None,
                    })
                },
                None => validator.current_height <= confirmed_block_number(self.store())
                    || validator.rpc_address is None,
            },
    {
        ShardProposer::register_validator(self, validator)
    }
}

impl Proposer for BlockProposer {
    type Decided = Block;

    type CatchUp = BlockCatchUp;

    open spec fn confirmed(&self) -> u64 {
        confirmed_block(self.store())
    }

    open spec fn home(&self) -> u32 {
        BLOCK_SHARD
    }

    open spec fn awaiting(&self) -> Map<ShardHashView, FullProposalView> {
        self.proposed()
    }

    open spec fn builds(&self, height: Height, round: i64, timestamp: u64) -> FullProposalView {
        FullProposalView {
            height: Some(height),
            round,
            proposer: self.address(),
            proposed_value: Some(
                ProposedValueView::Block(
                    built_block(
                        block_parent_hash_of(last_committed_block(self.store())),
                        timestamp,
                        height,
                        self.pending(height.block_number),
                    ),
                ),
            ),
        }
    }

    open spec fn keeps(&self, proposal: FullProposalView) -> bool {
        is_block_proposal(proposal)
    }

    open spec fn verdict(&self, proposal: FullProposalView) -> Validity {
        Validity::Valid
    }

    fn propose_value(&mut self, height: Height, round: i64, timeout: Duration) -> (proposal:
        Option<FullProposal>)
        ensures
            forall|m: u64| final(self).pending(m) == old(self).pending(m),
            final(self).received() == old(self).received(),
            final(self).store() == old(self).store(),
            final(self).shard() == old(self).shard(),
            final(self).address() == old(self).address(),
            final(self).shards() == old(self).shards(),
            old(self).wf() ==> final(self).wf(),
    {
        BlockProposer::propose_value(self, height, round, timeout)
    }

    fn add_proposed_value(&mut self, full_proposal: &FullProposal) -> (validity: Validity)
        ensures
            forall|m: u64| final(self).pending(m) == old(self).pending(m),
            final(self).received() == old(self).received(),
            final(self).store() == old(self).store(),
            final(self).shard() == old(self).shard(),
            final(self).address() == old(self).address(),
            final(self).shards() == old(self).shards(),
            old(self).wf() ==> final(self).wf(),
    {
        BlockProposer::add_proposed_value(self, full_proposal)
    }

    fn decide(&mut self, height: Height, round: i64, value: ShardHash) -> (r: Result<
        Option<Block>,
        EngineError,
    >)
        ensures
            !old(self).proposed().dom().contains(value@) ==> r == Ok::<Option<Block>, EngineError>(
                None,
            ) && final(self).proposed() == old(self).proposed() && final(self).store() == old(self).store() && forall|m: u64| final(self).pending(m) == old(self).pending(m),
            old(self).proposed().dom().contains(value@) ==> match old(self).proposed()[value@].block() {
                Some(block) => match r {
                    Ok(published) => {
                        &&& published.deep_view() == Some(block)
                        &&& commit_block_result(
                            Ok(()),
                            old(self).store(),
                            final(self).store(),
                            block,
                        )
                        &&& final(self).proposed() == old(self).proposed().remove(value@)
                        &&& final(self).pending(height.block_number) == Seq::<
                            ShardChunkView,
                        >::empty()
                        &&& forall|m: u64|
                            m != height.block_number ==> final(self).pending(m) == old(self).pending(m)
                    },
                    Err(e) => {
                        &&& commit_block_result(
                            Err(e),
                            old(self).store(),
                            final(self).store(),
                            block,
                        )
                        &&& final(self).store() == old(self).store()
                        &&& final(self).proposed() == old(self).proposed()
                        &&& forall|m: u64| final(self).pending(m) == old(self).pending(m)
                    },
                },
                None => {
                    &&& r == Ok::<Option<Block>, EngineError>(None)
                    &&& final(self).proposed() == old(self).proposed().remove(value@)
                    &&& final(self).store() == old(self).store()
                    &&& forall|m: u64| final(self).pending(m) == old(self).pending(m)
                },
            },
            final(self).received() == old(self).received(),
            final(self).shard() == old(self).shard(),
            final(self).address() == old(self).address(),
            final(self).shards() == old(self).shards(),
            old(self).wf() ==> final(self).wf(),
    {
        BlockProposer::decide(self, height, round, value)
    }

    fn get_confirmed_height(&self) -> (height: Height)
        ensures
            sorted(self.store()),
    {
        BlockProposer::get_confirmed_height(self)
    }

    fn register_validator(&self, validator: &SnapchainValidator) -> (r: Option<BlockCatchUp>)
        ensures
            match r {
                Some(ask) => {
                    &&& validator.current_height > confirmed_block(self.store())
                    &&& validator.rpc_address matches Some(rpc_address) && ask.destination_addr@
                        == destination_of(rpc_address@)
                    &&& ask.request == (BlocksRequest {
                        shard_id: self.shard(),
                        start_block_number: (confirmed_block(self.store()) + 1) as u64,
                        stop_block_number: None,
                    })
                },
                None => validator.current_height <= confirmed_block(self.store())
                    || validator.rpc_address is None,
            },
    {
        BlockProposer::register_validator(self, validator)
    }
}

} // verus!
