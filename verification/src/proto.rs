//! The messages the node agrees on and stores: shard chunks, blocks and the
//! proposals that carry them. Each message has a view in which byte vectors
//! are sequences; contracts speak of the views.

use crate::types::{Height, ShardHash, ShardHashView};
use crate::wire::{copy_bytes, copy_opt_bytes, opt_bytes_view};
use vstd::prelude::*;

verus! {

/// A transaction as the core sees it: the account it belongs to and the
/// encoded messages it carries. What the messages mean is not decided here.
#[derive(Debug, PartialEq, Eq)]
pub struct Transaction {
    pub fid: u64,
    pub payload: Vec<u8>,
}

pub struct TransactionView {
    pub fid: u64,
    pub payload: Seq<u8>,
}

impl View for Transaction {
    type V = TransactionView;

    open spec fn view(&self) -> TransactionView {
        TransactionView { fid: self.fid, payload: self.payload@ }
    }
}

impl DeepView for Transaction {
    type V = TransactionView;

    open spec fn deep_view(&self) -> TransactionView {
        self@
    }
}

impl Clone for Transaction {
    fn clone(&self) -> (r: Self)
        ensures
            r@ == self@,
    {
        Transaction { fid: self.fid, payload: copy_bytes(&self.payload) }
    }
}

/// Header of a shard chunk. The chunk's hash is taken over its encoding.
#[derive(Debug, PartialEq, Eq)]
pub struct ShardHeader {
    pub parent_hash: Vec<u8>,
    pub timestamp: u64,
    pub height: Option<Height>,
    pub shard_root: Vec<u8>,
}

pub struct ShardHeaderView {
    pub parent_hash: Seq<u8>,
    pub timestamp: u64,
    pub height: Option<Height>,
    pub shard_root: Seq<u8>,
}

impl View for ShardHeader {
    type V = ShardHeaderView;

    open spec fn view(&self) -> ShardHeaderView {
        ShardHeaderView {
            parent_hash: self.parent_hash@,
            timestamp: self.timestamp,
            height: self.height,
            shard_root: self.shard_root@,
        }
    }
}

impl DeepView for ShardHeader {
    type V = ShardHeaderView;

    open spec fn deep_view(&self) -> ShardHeaderView {
        self@
    }
}

impl Clone for ShardHeader {
    fn clone(&self) -> (r: Self)
        ensures
            r@ == self@,
    {
        ShardHeader {
            parent_hash: copy_bytes(&self.parent_hash),
            timestamp: self.timestamp,
            height: self.height,
            shard_root: copy_bytes(&self.shard_root),
        }
    }
}

/// The unit a data shard commits at one height.
#[derive(Debug, PartialEq, Eq)]
pub struct ShardChunk {
    pub header: Option<ShardHeader>,
    pub hash: Vec<u8>,
    pub transactions: Vec<Transaction>,
    pub votes: Option<Vec<u8>>,
}

pub struct ShardChunkView {
    pub header: Option<ShardHeaderView>,
    pub hash: Seq<u8>,
    pub transactions: Seq<TransactionView>,
    pub votes: Option<Seq<u8>>,
}

impl ShardChunkView {
    /// The block number in the header, where header and height are there.
    pub open spec fn block_number(self) -> Option<u64> {
        match self.header {
            Some(header) => match header.height {
                Some(height) => Some(height.block_number),
                None => None,
            },
            None => None,
        }
    }
}

impl View for ShardChunk {
    type V = ShardChunkView;

    open spec fn view(&self) -> ShardChunkView {
        ShardChunkView {
            header: self.header.deep_view(),
            hash: self.hash@,
            transactions: self.transactions.deep_view(),
            votes: opt_bytes_view(self.votes),
        }
    }
}

impl DeepView for ShardChunk {
    type V = ShardChunkView;

    open spec fn deep_view(&self) -> ShardChunkView {
        self@
    }
}

/// A copy of a list of transactions.
pub fn copy_transactions(ts: &Vec<Transaction>) -> (r: Vec<Transaction>)
    ensures
        r.deep_view() == ts.deep_view(),
{
    let mut r: Vec<Transaction> = Vec::new();
    let mut i: usize = 0;
    while i < ts.len()
        invariant
            i <= ts.len(),
            r.len() == i,
            forall|j: int| 0 <= j < i ==> r@[j]@ == ts@[j]@,
        decreases ts.len() - i,
    {
        r.push(ts[i].clone());
        i += 1;
    }
    assert(r.deep_view() =~= ts.deep_view());
    r
}

pub fn copy_opt_shard_header(h: &Option<ShardHeader>) -> (r: Option<ShardHeader>)
    ensures
        r.deep_view() == h.deep_view(),
{
    match h {
        Some(h) => Some(h.clone()),
        None => None,
    }
}

impl Clone for ShardChunk {
    fn clone(&self) -> (r: Self)
        ensures
            r@ == self@,
    {
        ShardChunk {
            header: copy_opt_shard_header(&self.header),
            hash: copy_bytes(&self.hash),
            transactions: copy_transactions(&self.transactions),
            votes: copy_opt_bytes(&self.votes),
        }
    }
}

impl ShardChunk {
    /// The block number in the header, where header and height are there.
    pub fn block_number(&self) -> (r: Option<u64>)
        ensures
            r == self@.block_number(),
    {
        match &self.header {
            Some(header) => match header.height {
                Some(height) => Some(height.block_number),
                None => None,
            },
            None => None,
        }
    }
}

/// Header of a block. The block's hash is taken over its encoding.
#[derive(Debug, PartialEq, Eq)]
pub struct BlockHeader {
    pub parent_hash: Vec<u8>,
    pub chain_id: u32,
    pub version: u32,
    pub shard_headers_hash: Vec<u8>,
    pub validators_hash: Vec<u8>,
    pub timestamp: u64,
    pub height: Option<Height>,
}

pub struct BlockHeaderView {
    pub parent_hash: Seq<u8>,
    pub chain_id: u32,
    pub version: u32,
    pub shard_headers_hash: Seq<u8>,
    pub validators_hash: Seq<u8>,
    pub timestamp: u64,
    pub height: Option<Height>,
}

impl View for BlockHeader {
    type V = BlockHeaderView;

    open spec fn view(&self) -> BlockHeaderView {
        BlockHeaderView {
            parent_hash: self.parent_hash@,
            chain_id: self.chain_id,
            version: self.version,
            shard_headers_hash: self.shard_headers_hash@,
            validators_hash: self.validators_hash@,
            timestamp: self.timestamp,
            height: self.height,
        }
    }
}

impl DeepView for BlockHeader {
    type V = BlockHeaderView;

    open spec fn deep_view(&self) -> BlockHeaderView {
        self@
    }
}

impl Clone for BlockHeader {
    fn clone(&self) -> (r: Self)
        ensures
            r@ == self@,
    {
        BlockHeader {
            parent_hash: copy_bytes(&self.parent_hash),
            chain_id: self.chain_id,
            version: self.version,
            shard_headers_hash: copy_bytes(&self.shard_headers_hash),
            validators_hash: copy_bytes(&self.validators_hash),
            timestamp: self.timestamp,
            height: self.height,
        }
    }
}

/// The unit the block shard commits at one height: the shard chunks decided
/// at that height across the data shards.
#[derive(Debug, PartialEq, Eq)]
pub struct Block {
    pub header: Option<BlockHeader>,
    pub hash: Vec<u8>,
    pub validators: Option<Vec<u8>>,
    pub votes: Option<Vec<u8>>,
    pub shard_chunks: Vec<ShardChunk>,
}

pub struct BlockView {
    pub header: Option<BlockHeaderView>,
    pub hash: Seq<u8>,
    pub validators: Option<Seq<u8>>,
    pub votes: Option<Seq<u8>>,
    pub shard_chunks: Seq<ShardChunkView>,
}

impl BlockView {
    /// The block number in the header, where header and height are there.
    pub open spec fn block_number(self) -> Option<u64> {
        match self.header {
            Some(header) => match header.height {
                Some(height) => Some(height.block_number),
                None => None,
            },
            None => None,
        }
    }
}

impl View for Block {
    type V = BlockView;

    open spec fn view(&self) -> BlockView {
        BlockView {
            header: self.header.deep_view(),
            hash: self.hash@,
            validators: opt_bytes_view(self.validators),
            votes: opt_bytes_view(self.votes),
            shard_chunks: self.shard_chunks.deep_view(),
        }
    }
}

impl DeepView for Block {
    type V = BlockView;

    open spec fn deep_view(&self) -> BlockView {
        self@
    }
}

/// A copy of a list of shard chunks.
pub fn copy_shard_chunks(cs: &Vec<ShardChunk>) -> (r: Vec<ShardChunk>)
    ensures
        r.deep_view() == cs.deep_view(),
{
    let mut r: Vec<ShardChunk> = Vec::new();
    let mut i: usize = 0;
    while i < cs.len()
        invariant
            i <= cs.len(),
            r.len() == i,
            forall|j: int| 0 <= j < i ==> r@[j]@ == cs@[j]@,
        decreases cs.len() - i,
    {
        r.push(cs[i].clone());
        i += 1;
    }
    assert(r.deep_view() =~= cs.deep_view());
    r
}

pub fn copy_opt_block_header(h: &Option<BlockHeader>) -> (r: Option<BlockHeader>)
    ensures
        r.deep_view() == h.deep_view(),
{
    match h {
        Some(h) => Some(h.clone()),
        None => None,
    }
}

impl Clone for Block {
    fn clone(&self) -> (r: Self)
        ensures
            r@ == self@,
    {
        Block {
            header: copy_opt_block_header(&self.header),
            hash: copy_bytes(&self.hash),
            validators: copy_opt_bytes(&self.validators),
            votes: copy_opt_bytes(&self.votes),
            shard_chunks: copy_shard_chunks(&self.shard_chunks),
        }
    }
}

impl Block {
    /// The block number in the header, where header and height are there.
    pub fn block_number(&self) -> (r: Option<u64>)
        ensures
            r == self@.block_number(),
    {
        match &self.header {
            Some(header) => match header.height {
                Some(height) => Some(height.block_number),
                None => None,
            },
            None => None,
        }
    }
}

/// What a proposal proposes: a shard chunk, or a block.
#[derive(Debug, PartialEq, Eq)]
pub enum ProposedValue {
    Shard(ShardChunk),
    Block(Block),
}

pub enum ProposedValueView {
    Shard(ShardChunkView),
    Block(BlockView),
}

impl View for ProposedValue {
    type V = ProposedValueView;

    open spec fn view(&self) -> ProposedValueView {
        match self {
            ProposedValue::Shard(chunk) => ProposedValueView::Shard(chunk@),
            ProposedValue::Block(block) => ProposedValueView::Block(block@),
        }
    }
}

impl DeepView for ProposedValue {
    type V = ProposedValueView;

    open spec fn deep_view(&self) -> ProposedValueView {
        self@
    }
}

impl Clone for ProposedValue {
    fn clone(&self) -> (r: Self)
        ensures
            r@ == self@,
    {
        match self {
            ProposedValue::Shard(chunk) => ProposedValue::Shard(chunk.clone()),
            ProposedValue::Block(block) => ProposedValue::Block(block.clone()),
        }
    }
}

/// The envelope in which a value travels to the validators of a shard.
#[derive(Debug, PartialEq, Eq)]
pub struct FullProposal {
    pub height: Option<Height>,
    pub round: i64,
    pub proposer: Vec<u8>,
    pub proposed_value: Option<ProposedValue>,
}

pub struct FullProposalView {
    pub height: Option<Height>,
    pub round: i64,
    pub proposer: Seq<u8>,
    pub proposed_value: Option<ProposedValueView>,
}

impl FullProposalView {
    /// The name of the proposal: the hash of the value it carries and the
    /// shard of its height. A proposal without a height or without a value
    /// has none.
    pub open spec fn shard_hash(self) -> Option<ShardHashView> {
        match (self.height, self.proposed_value) {
            (Some(height), Some(ProposedValueView::Shard(chunk))) => Some(
                ShardHashView { hash: chunk.hash, shard_index: height.shard_index },
            ),
            (Some(height), Some(ProposedValueView::Block(block))) => Some(
                ShardHashView { hash: block.hash, shard_index: height.shard_index },
            ),
            _ => None,
        }
    }

    /// The shard chunk the proposal carries, where it carries one.
    pub open spec fn shard_chunk(self) -> Option<ShardChunkView> {
        match self.proposed_value {
            Some(ProposedValueView::Shard(chunk)) => Some(chunk),
            _ => None,
        }
    }

    /// The block the proposal carries, where it carries one.
    pub open spec fn block(self) -> Option<BlockView> {
        match self.proposed_value {
            Some(ProposedValueView::Block(block)) => Some(block),
            _ => None,
        }
    }
}

impl View for FullProposal {
    type V = FullProposalView;

    open spec fn view(&self) -> FullProposalView {
        FullProposalView {
            height: self.height,
            round: self.round,
            proposer: self.proposer@,
            proposed_value: self.proposed_value.deep_view(),
        }
    }
}

impl DeepView for FullProposal {
    type V = FullProposalView;

    open spec fn deep_view(&self) -> FullProposalView {
        self@
    }
}

impl Clone for FullProposal {
    fn clone(&self) -> (r: Self)
        ensures
            r@ == self@,
    {
        let proposed_value = match &self.proposed_value {
            Some(v) => Some(v.clone()),
            None => None,
        };
        FullProposal {
            height: self.height,
            round: self.round,
            proposer: copy_bytes(&self.proposer),
            proposed_value,
        }
    }
}

impl FullProposal {
    pub fn shard_hash(&self) -> (r: Option<ShardHash>)
        ensures
            r.deep_view() == self@.shard_hash(),
    {
        let height = match self.height {
            Some(h) => h,
            None => { return None; },
        };
        match &self.proposed_value {
            Some(ProposedValue::Shard(chunk)) => Some(
                ShardHash { hash: copy_bytes(&chunk.hash), shard_index: height.shard_index },
            ),
            Some(ProposedValue::Block(block)) => Some(
                ShardHash { hash: copy_bytes(&block.hash), shard_index: height.shard_index },
            ),
            None => None,
        }
    }

    pub fn shard_chunk(&self) -> (r: Option<ShardChunk>)
        ensures
            r.deep_view() == self@.shard_chunk(),
    {
        match &self.proposed_value {
            Some(ProposedValue::Shard(chunk)) => Some(chunk.clone()),
            _ => None,
        }
    }

    pub fn block(&self) -> (r: Option<Block>)
        ensures
            r.deep_view() == self@.block(),
    {
        match &self.proposed_value {
            Some(ProposedValue::Block(block)) => Some(block.clone()),
            _ => None,
        }
    }
}

} // verus!
