//! Decoding undoes encoding. For every message of the format, parsing the
//! encoding of a value, with anything behind it, gives the value back and
//! leaves what was behind it; so a decoder returns the value that was
//! encoded, and two values with one encoding are one value.

use crate::format::{
    block_encodable, block_header_encodable, decode_block, decode_shard_chunk, parse_block,
    parse_block_header, parse_height, parse_opt_block_header, parse_opt_height,
    parse_opt_shard_header, parse_shard_chunk, parse_shard_chunk_items, parse_shard_chunks,
    parse_shard_header, parse_transaction, parse_transaction_items, parse_transactions, ser_block,
    ser_block_header, ser_height, ser_opt_block_header, ser_opt_height, ser_opt_shard_header,
    ser_shard_chunk, ser_shard_chunk_items, ser_shard_chunks, ser_shard_header, ser_transaction,
    ser_transaction_items, ser_transactions, shard_chunk_encodable, shard_chunks_encodable,
    shard_header_encodable, transaction_encodable, transactions_encodable,
};
use crate::proto::{
    Block, BlockHeaderView, BlockView, ShardChunk, ShardChunkView, ShardHeaderView,
    TransactionView,
};
use crate::types::Height;
use crate::wire::{
    be_u32, be_u64, lemma_parse_bytes, lemma_parse_opt_bytes, lemma_parse_tag, lemma_parse_u32,
    lemma_parse_u64, ser_bytes, ser_opt_bytes, ser_tag,
};
use vstd::prelude::*;

verus! {

/// Five parts and a rest, regrouped from the right.
proof fn lemma_regroup(
    a: Seq<u8>,
    b: Seq<u8>,
    c: Seq<u8>,
    d: Seq<u8>,
    e: Seq<u8>,
    rest: Seq<u8>,
)
    ensures
        (a + b + c + d + e) + rest == a + (b + (c + (d + (e + rest)))),
{
    assert((a + b + c + d + e) + rest =~= a + (b + (c + (d + (e + rest)))));
}

pub proof fn lemma_parse_height(h: Height, rest: Seq<u8>)
    ensures
        parse_height(ser_height(h) + rest) == Some((h, rest)),
{
    assert(ser_height(h) + rest =~= be_u32(h.shard_index) + (be_u64(h.block_number) + rest));
    lemma_parse_u32(h.shard_index, be_u64(h.block_number) + rest);
    lemma_parse_u64(h.block_number, rest);
}

pub proof fn lemma_parse_opt_height(h: Option<Height>, rest: Seq<u8>)
    ensures
        parse_opt_height(ser_opt_height(h) + rest) == Some((h, rest)),
{
    match h {
        Some(x) => {
            assert(ser_opt_height(h) + rest =~= ser_tag(true) + (ser_height(x) + rest));
            lemma_parse_tag(true, ser_height(x) + rest);
            lemma_parse_height(x, rest);
        },
        None => {
            lemma_parse_tag(false, rest);
        },
    }
}

pub proof fn lemma_parse_shard_header(h: ShardHeaderView, rest: Seq<u8>)
    requires
        shard_header_encodable(h),
    ensures
        parse_shard_header(ser_shard_header(h) + rest) == Some((h, rest)),
{
    reveal(parse_shard_header);
    let r3 = ser_bytes(h.shard_root) + rest;
    let r2 = ser_opt_height(h.height) + r3;
    let r1 = be_u64(h.timestamp) + r2;
    assert(ser_shard_header(h) + rest =~= ser_bytes(h.parent_hash) + r1);
    lemma_parse_bytes(h.parent_hash, r1);
    lemma_parse_u64(h.timestamp, r2);
    lemma_parse_opt_height(h.height, r3);
    lemma_parse_bytes(h.shard_root, rest);
}

pub proof fn lemma_parse_opt_shard_header(h: Option<ShardHeaderView>, rest: Seq<u8>)
    requires
        h matches Some(x) ==> shard_header_encodable(x),
    ensures
        parse_opt_shard_header(ser_opt_shard_header(h) + rest) == Some((h, rest)),
{
    match h {
        Some(x) => {
            assert(ser_opt_shard_header(h) + rest =~= ser_tag(true) + (ser_shard_header(x)
                + rest));
            lemma_parse_tag(true, ser_shard_header(x) + rest);
            lemma_parse_shard_header(x, rest);
        },
        None => {
            lemma_parse_tag(false, rest);
        },
    }
}

pub proof fn lemma_parse_transaction(t: TransactionView, rest: Seq<u8>)
    requires
        transaction_encodable(t),
    ensures
        parse_transaction(ser_transaction(t) + rest) == Some((t, rest)),
{
    reveal(parse_transaction);
    assert(ser_transaction(t) + rest =~= be_u64(t.fid) + (ser_bytes(t.payload) + rest));
    lemma_parse_u64(t.fid, ser_bytes(t.payload) + rest);
    lemma_parse_bytes(t.payload, rest);
}

pub proof fn lemma_parse_transaction_items(ts: Seq<TransactionView>, rest: Seq<u8>)
    requires
        forall|i: int| 0 <= i < ts.len() ==> transaction_encodable(#[trigger] ts[i]),
    ensures
        parse_transaction_items(ts.len(), ser_transaction_items(ts) + rest) == Some((ts, rest)),
    decreases ts.len(),
{
    if ts.len() == 0 {
        assert(ser_transaction_items(ts) + rest =~= rest);
        assert(ts =~= Seq::<TransactionView>::empty());
    } else {
        let tail = ts.drop_first();
        assert forall|i: int| 0 <= i < tail.len() implies transaction_encodable(
            #[trigger] tail[i],
        ) by {
            assert(tail[i] == ts[i + 1]);
        }
        let r1 = ser_transaction_items(tail) + rest;
        assert(ser_transaction_items(ts) + rest =~= ser_transaction(ts[0]) + r1);
        lemma_parse_transaction(ts[0], r1);
        lemma_parse_transaction_items(tail, rest);
        assert(seq![ts[0]] + tail =~= ts);
    }
}

pub proof fn lemma_parse_transactions(ts: Seq<TransactionView>, rest: Seq<u8>)
    requires
        transactions_encodable(ts),
    ensures
        parse_transactions(ser_transactions(ts) + rest) == Some((ts, rest)),
{
    let n = ts.len() as u64;
    assert(ser_transactions(ts) + rest =~= be_u64(n) + (ser_transaction_items(ts) + rest));
    lemma_parse_u64(n, ser_transaction_items(ts) + rest);
    lemma_parse_transaction_items(ts, rest);
}

pub proof fn lemma_parse_shard_chunk(c: ShardChunkView, rest: Seq<u8>)
    requires
        shard_chunk_encodable(c),
    ensures
        parse_shard_chunk(ser_shard_chunk(c) + rest) == Some((c, rest)),
{
    reveal(parse_shard_chunk);
    let r3 = ser_opt_bytes(c.votes) + rest;
    let r2 = ser_transactions(c.transactions) + r3;
    let r1 = ser_bytes(c.hash) + r2;
    assert(ser_shard_chunk(c) + rest =~= ser_opt_shard_header(c.header) + r1);
    lemma_parse_opt_shard_header(c.header, r1);
    lemma_parse_bytes(c.hash, r2);
    lemma_parse_transactions(c.transactions, r3);
    lemma_parse_opt_bytes(c.votes, rest);
}

/// Decoding the encoding of a shard chunk gives the chunk.
pub proof fn lemma_decode_shard_chunk(c: ShardChunkView)
    requires
        shard_chunk_encodable(c),
    ensures
        decode_shard_chunk(ser_shard_chunk(c)) == Some(c),
{
    lemma_parse_shard_chunk(c, Seq::empty());
    assert(ser_shard_chunk(c) + Seq::<u8>::empty() =~= ser_shard_chunk(c));
}

pub proof fn lemma_parse_block_header(h: BlockHeaderView, rest: Seq<u8>)
    requires
        block_header_encodable(h),
    ensures
        parse_block_header(ser_block_header(h) + rest) == Some((h, rest)),
{
    reveal(parse_block_header);
    let r6 = ser_opt_height(h.height) + rest;
    let r5 = be_u64(h.timestamp) + r6;
    let r4 = ser_bytes(h.validators_hash) + r5;
    let r3 = ser_bytes(h.shard_headers_hash) + r4;
    let r2 = be_u32(h.version) + r3;
    let r1 = be_u32(h.chain_id) + r2;
    assert(ser_block_header(h) + rest =~= ser_bytes(h.parent_hash) + r1);
    lemma_parse_bytes(h.parent_hash, r1);
    lemma_parse_u32(h.chain_id, r2);
    lemma_parse_u32(h.version, r3);
    lemma_parse_bytes(h.shard_headers_hash, r4);
    lemma_parse_bytes(h.validators_hash, r5);
    lemma_parse_u64(h.timestamp, r6);
    lemma_parse_opt_height(h.height, rest);
}

pub proof fn lemma_parse_opt_block_header(h: Option<BlockHeaderView>, rest: Seq<u8>)
    requires
        h matches Some(x) ==> block_header_encodable(x),
    ensures
        parse_opt_block_header(ser_opt_block_header(h) + rest) == Some((h, rest)),
{
    match h {
        Some(x) => {
            assert(ser_opt_block_header(h) + rest =~= ser_tag(true) + (ser_block_header(x)
                + rest));
            lemma_parse_tag(true, ser_block_header(x) + rest);
            lemma_parse_block_header(x, rest);
        },
        None => {
            lemma_parse_tag(false, rest);
        },
    }
}

pub proof fn lemma_parse_shard_chunk_items(cs: Seq<ShardChunkView>, rest: Seq<u8>)
    requires
        forall|i: int| 0 <= i < cs.len() ==> shard_chunk_encodable(#[trigger] cs[i]),
    ensures
        parse_shard_chunk_items(cs.len(), ser_shard_chunk_items(cs) + rest) == Some((cs, rest)),
    decreases cs.len(),
{
    if cs.len() == 0 {
        assert(ser_shard_chunk_items(cs) + rest =~= rest);
        assert(cs =~= Seq::<ShardChunkView>::empty());
    } else {
        let tail = cs.drop_first();
        assert forall|i: int| 0 <= i < tail.len() implies shard_chunk_encodable(
            #[trigger] tail[i],
        ) by {
            assert(tail[i] == cs[i + 1]);
        }
        let r1 = ser_shard_chunk_items(tail) + rest;
        assert(ser_shard_chunk_items(cs) + rest =~= ser_shard_chunk(cs[0]) + r1);
        lemma_parse_shard_chunk(cs[0], r1);
        lemma_parse_shard_chunk_items(tail, rest);
        assert(seq![cs[0]] + tail =~= cs);
    }
}

pub proof fn lemma_parse_shard_chunks(cs: Seq<ShardChunkView>, rest: Seq<u8>)
    requires
        shard_chunks_encodable(cs),
    ensures
        parse_shard_chunks(ser_shard_chunks(cs) + rest) == Some((cs, rest)),
{
    let n = cs.len() as u64;
    assert(ser_shard_chunks(cs) + rest =~= be_u64(n) + (ser_shard_chunk_items(cs) + rest));
    lemma_parse_u64(n, ser_shard_chunk_items(cs) + rest);
    lemma_parse_shard_chunk_items(cs, rest);
}

pub proof fn lemma_parse_block(b: BlockView, rest: Seq<u8>)
    requires
        block_encodable(b),
    ensures
        parse_block(ser_block(b) + rest) == Some((b, rest)),
{
    let header = ser_opt_block_header(b.header);
    let hash = ser_bytes(b.hash);
    let validators = ser_opt_bytes(b.validators);
    let votes = ser_opt_bytes(b.votes);
    let chunks = ser_shard_chunks(b.shard_chunks);
    let r4 = chunks + rest;
    let r3 = votes + r4;
    let r2 = validators + r3;
    let r1 = hash + r2;
    lemma_regroup(header, hash, validators, votes, chunks, rest);
    assert(ser_block(b) + rest == header + r1);
    lemma_parse_opt_block_header(b.header, r1);
    lemma_parse_bytes(b.hash, r2);
    lemma_parse_opt_bytes(b.validators, r3);
    lemma_parse_opt_bytes(b.votes, r4);
    lemma_parse_shard_chunks(b.shard_chunks, rest);
    assert(parse_block(header + r1) == Some((b, rest))) by {
        reveal(parse_block);
    }
}

/// Decoding the encoding of a block gives the block.
pub proof fn lemma_decode_block(b: BlockView)
    requires
        block_encodable(b),
    ensures
        decode_block(ser_block(b)) == Some(b),
{
    lemma_parse_block(b, Seq::empty());
    assert(ser_block(b) + Seq::<u8>::empty() =~= ser_block(b));
}

/// Every shard chunk in memory can be encoded: its lengths fit their
/// prefixes.
pub proof fn lemma_shard_chunk_encodable(c: ShardChunk)
    ensures
        shard_chunk_encodable(c@),
{
    let v = c@;
    assert(c.hash@.len() == c.hash.len());
    assert(c.transactions@.len() == c.transactions.len());
    if let Some(h) = c.header {
        assert(h.parent_hash@.len() == h.parent_hash.len());
        assert(h.shard_root@.len() == h.shard_root.len());
    }
    if let Some(votes) = c.votes {
        assert(votes@.len() == votes.len());
    }
    assert forall|i: int| 0 <= i < v.transactions.len() implies transaction_encodable(
        #[trigger] v.transactions[i],
    ) by {
        let t = c.transactions@[i];
        assert(v.transactions[i] == t@);
        assert(t.payload@.len() == t.payload.len());
    }
}

/// Every block in memory can be encoded.
pub proof fn lemma_block_encodable(b: Block)
    ensures
        block_encodable(b@),
{
    let v = b@;
    assert(b.hash@.len() == b.hash.len());
    assert(b.shard_chunks@.len() == b.shard_chunks.len());
    if let Some(h) = b.header {
        assert(h.parent_hash@.len() == h.parent_hash.len());
        assert(h.shard_headers_hash@.len() == h.shard_headers_hash.len());
        assert(h.validators_hash@.len() == h.validators_hash.len());
    }
    if let Some(x) = b.votes {
        assert(x@.len() == x.len());
    }
    if let Some(x) = b.validators {
        assert(x@.len() == x.len());
    }
    assert forall|i: int| 0 <= i < v.shard_chunks.len() implies shard_chunk_encodable(
        #[trigger] v.shard_chunks[i],
    ) by {
        let c = b.shard_chunks@[i];
        assert(v.shard_chunks[i] == c@);
        lemma_shard_chunk_encodable(c);
    }
}

/// A shard chunk read back from its own encoding is the chunk.
pub proof fn lemma_shard_chunk_round_trip(c: ShardChunk)
    ensures
        decode_shard_chunk(ser_shard_chunk(c@)) == Some(c@),
{
    lemma_shard_chunk_encodable(c);
    lemma_decode_shard_chunk(c@);
}

/// A block read back from its own encoding is the block.
pub proof fn lemma_block_round_trip(b: Block)
    ensures
        decode_block(ser_block(b@)) == Some(b@),
{
    lemma_block_encodable(b);
    lemma_decode_block(b@);
}

/// Two shard chunks with the same encoding are the same chunk.
pub proof fn lemma_shard_chunk_encoding_injective(a: ShardChunkView, b: ShardChunkView)
    requires
        shard_chunk_encodable(a),
        shard_chunk_encodable(b),
        ser_shard_chunk(a) == ser_shard_chunk(b),
    ensures
        a == b,
{
    lemma_decode_shard_chunk(a);
    lemma_decode_shard_chunk(b);
}

/// Two blocks with the same encoding are the same block.
pub proof fn lemma_block_encoding_injective(a: BlockView, b: BlockView)
    requires
        block_encodable(a),
        block_encodable(b),
        ser_block(a) == ser_block(b),
    ensures
        a == b,
{
    lemma_decode_block(a);
    lemma_decode_block(b);
}

} // verus!
