//! The canonical encoding of headers, shard chunks and blocks, as functions
//! on byte sequences.
//!
//! A message is the concatenation of its fields in declaration order. Numbers
//! are big-endian and of fixed width, every byte string and every list stands
//! behind its length, and an optional field stands behind a one-byte tag. A
//! parser reads one message off the front of a sequence and hands back what
//! follows, so each encoding can be told from any other and from its own
//! extensions.

use crate::proto::{
    BlockHeaderView, BlockView, ShardChunkView, ShardHeaderView, TransactionView,
};
use crate::types::Height;
use crate::wire::{
    be_u32, be_u64, fits_prefix, parse_bytes, parse_opt_bytes, parse_tag, parse_u32, parse_u64,
    ser_bytes, ser_opt_bytes, ser_tag,
};
use vstd::prelude::*;

verus! {

pub open spec fn ser_height(h: Height) -> Seq<u8> {
    be_u32(h.shard_index) + be_u64(h.block_number)
}

pub open spec fn parse_height(s: Seq<u8>) -> Option<(Height, Seq<u8>)> {
    match parse_u32(s) {
        Some((shard_index, r1)) => match parse_u64(r1) {
            Some((block_number, r2)) => Some((Height { shard_index, block_number }, r2)),
            None => None,
        },
        None => None,
    }
}

pub open spec fn ser_opt_height(h: Option<Height>) -> Seq<u8> {
    match h {
        Some(h) => ser_tag(true) + ser_height(h),
        None => ser_tag(false),
    }
}

pub open spec fn parse_opt_height(s: Seq<u8>) -> Option<(Option<Height>, Seq<u8>)> {
    match parse_tag(s) {
        Some((true, r1)) => match parse_height(r1) {
            Some((h, r2)) => Some((Some(h), r2)),
            None => None,
        },
        Some((false, r1)) => Some((None, r1)),
        None => None,
    }
}

pub open spec fn ser_shard_header(h: ShardHeaderView) -> Seq<u8> {
    ser_bytes(h.parent_hash) + be_u64(h.timestamp) + ser_opt_height(h.height) + ser_bytes(
        h.shard_root,
    )
}

#[verifier::opaque]
pub open spec fn parse_shard_header(s: Seq<u8>) -> Option<(ShardHeaderView, Seq<u8>)> {
    match parse_bytes(s) {
        Some((parent_hash, r1)) => match parse_u64(r1) {
            Some((timestamp, r2)) => match parse_opt_height(r2) {
                Some((height, r3)) => match parse_bytes(r3) {
                    Some((shard_root, r4)) => Some(
                        (ShardHeaderView { parent_hash, timestamp, height, shard_root }, r4),
                    ),
                    None => None,
                },
                None => None,
            },
            None => None,
        },
        None => None,
    }
}

pub open spec fn ser_opt_shard_header(h: Option<ShardHeaderView>) -> Seq<u8> {
    match h {
        Some(h) => ser_tag(true) + ser_shard_header(h),
        None => ser_tag(false),
    }
}

pub open spec fn parse_opt_shard_header(s: Seq<u8>) -> Option<
    (Option<ShardHeaderView>, Seq<u8>),
> {
    match parse_tag(s) {
        Some((true, r1)) => match parse_shard_header(r1) {
            Some((h, r2)) => Some((Some(h), r2)),
            None => None,
        },
        Some((false, r1)) => Some((None, r1)),
        None => None,
    }
}

pub open spec fn ser_transaction(t: TransactionView) -> Seq<u8> {
    be_u64(t.fid) + ser_bytes(t.payload)
}

#[verifier::opaque]
pub open spec fn parse_transaction(s: Seq<u8>) -> Option<(TransactionView, Seq<u8>)> {
    match parse_u64(s) {
        Some((fid, r1)) => match parse_bytes(r1) {
            Some((payload, r2)) => Some((TransactionView { fid, payload }, r2)),
            None => None,
        },
        None => None,
    }
}

/// The transactions of a list, one after the other.
pub open spec fn ser_transaction_items(ts: Seq<TransactionView>) -> Seq<u8>
    decreases ts.len(),
{
    if ts.len() == 0 {
        Seq::empty()
    } else {
        ser_transaction(ts[0]) + ser_transaction_items(ts.drop_first())
    }
}

/// Reads `n` transactions off the front of `s`.
pub open spec fn parse_transaction_items(n: nat, s: Seq<u8>) -> Option<
    (Seq<TransactionView>, Seq<u8>),
>
    decreases n,
{
    if n == 0 {
        Some((Seq::empty(), s))
    } else {
        match parse_transaction(s) {
            Some((t, r1)) => match parse_transaction_items((n - 1) as nat, r1) {
                Some((ts, r2)) => Some((seq![t] + ts, r2)),
                None => None,
            },
            None => None,
        }
    }
}

pub open spec fn ser_transactions(ts: Seq<TransactionView>) -> Seq<u8> {
    be_u64(ts.len() as u64) + ser_transaction_items(ts)
}

pub open spec fn parse_transactions(s: Seq<u8>) -> Option<(Seq<TransactionView>, Seq<u8>)> {
    match parse_u64(s) {
        Some((n, r1)) => parse_transaction_items(n as nat, r1),
        None => None,
    }
}

pub open spec fn ser_shard_chunk(c: ShardChunkView) -> Seq<u8> {
    ser_opt_shard_header(c.header) + ser_bytes(c.hash) + ser_transactions(c.transactions)
        + ser_opt_bytes(c.votes)
}

#[verifier::opaque]
pub open spec fn parse_shard_chunk(s: Seq<u8>) -> Option<(ShardChunkView, Seq<u8>)> {
    match parse_opt_shard_header(s) {
        Some((header, r1)) => match parse_bytes(r1) {
            Some((hash, r2)) => match parse_transactions(r2) {
                Some((transactions, r3)) => match parse_opt_bytes(r3) {
                    Some((votes, r4)) => Some(
                        (ShardChunkView { header, hash, transactions, votes }, r4),
                    ),
                    None => None,
                },
                None => None,
            },
            None => None,
        },
        None => None,
    }
}

/// The shard chunk that `s` encodes, where it encodes one and nothing more.
pub open spec fn decode_shard_chunk(s: Seq<u8>) -> Option<ShardChunkView> {
    match parse_shard_chunk(s) {
        Some((c, rest)) => if rest.len() == 0 {
            Some(c)
        } else {
            None
        },
        None => None,
    }
}

pub open spec fn ser_block_header(h: BlockHeaderView) -> Seq<u8> {
    ser_bytes(h.parent_hash) + be_u32(h.chain_id) + be_u32(h.version) + ser_bytes(
        h.shard_headers_hash,
    ) + ser_bytes(h.validators_hash) + be_u64(h.timestamp) + ser_opt_height(h.height)
}

#[verifier::opaque]
pub open spec fn parse_block_header(s: Seq<u8>) -> Option<(BlockHeaderView, Seq<u8>)> {
    match parse_bytes(s) {
        Some((parent_hash, r1)) => match parse_u32(r1) {
            Some((chain_id, r2)) => match parse_u32(r2) {
                Some((version, r3)) => match parse_bytes(r3) {
                    Some((shard_headers_hash, r4)) => match parse_bytes(r4) {
                        Some((validators_hash, r5)) => match parse_u64(r5) {
                            Some((timestamp, r6)) => match parse_opt_height(r6) {
                                Some((height, r7)) => Some(
                                    (
                                        BlockHeaderView {
                                            parent_hash,
                                            chain_id,
                                            version,
                                            shard_headers_hash,
                                            validators_hash,
                                            timestamp,
                                            height,
                                        },
                                        r7,
                                    ),
                                ),
                                None => None,
                            },
                            None => None,
                        },
                        None => None,
                    },
                    None => None,
                },
                None => None,
            },
            None => None,
        },
        None => None,
    }
}

pub open spec fn ser_opt_block_header(h: Option<BlockHeaderView>) -> Seq<u8> {
    match h {
        Some(h) => ser_tag(true) + ser_block_header(h),
        None => ser_tag(false),
    }
}

pub open spec fn parse_opt_block_header(s: Seq<u8>) -> Option<
    (Option<BlockHeaderView>, Seq<u8>),
> {
    match parse_tag(s) {
        Some((true, r1)) => match parse_block_header(r1) {
            Some((h, r2)) => Some((Some(h), r2)),
            None => None,
        },
        Some((false, r1)) => Some((None, r1)),
        None => None,
    }
}

/// The shard chunks of a list, one after the other.
pub open spec fn ser_shard_chunk_items(cs: Seq<ShardChunkView>) -> Seq<u8>
    decreases cs.len(),
{
    if cs.len() == 0 {
        Seq::empty()
    } else {
        ser_shard_chunk(cs[0]) + ser_shard_chunk_items(cs.drop_first())
    }
}

/// Reads `n` shard chunks off the front of `s`.
pub open spec fn parse_shard_chunk_items(n: nat, s: Seq<u8>) -> Option<
    (Seq<ShardChunkView>, Seq<u8>),
>
    decreases n,
{
    if n == 0 {
        Some((Seq::empty(), s))
    } else {
        match parse_shard_chunk(s) {
            Some((c, r1)) => match parse_shard_chunk_items((n - 1) as nat, r1) {
                Some((cs, r2)) => Some((seq![c] + cs, r2)),
                None => None,
            },
            None => None,
        }
    }
}

pub open spec fn ser_shard_chunks(cs: Seq<ShardChunkView>) -> Seq<u8> {
    be_u64(cs.len() as u64) + ser_shard_chunk_items(cs)
}

pub open spec fn parse_shard_chunks(s: Seq<u8>) -> Option<(Seq<ShardChunkView>, Seq<u8>)> {
    match parse_u64(s) {
        Some((n, r1)) => parse_shard_chunk_items(n as nat, r1),
        None => None,
    }
}

pub open spec fn ser_block(b: BlockView) -> Seq<u8> {
    ser_opt_block_header(b.header) + ser_bytes(b.hash) + ser_opt_bytes(b.validators)
        + ser_opt_bytes(b.votes) + ser_shard_chunks(b.shard_chunks)
}

#[verifier::opaque]
pub open spec fn parse_block(s: Seq<u8>) -> Option<(BlockView, Seq<u8>)> {
    match parse_opt_block_header(s) {
        Some((header, r1)) => match parse_bytes(r1) {
            Some((hash, r2)) => match parse_opt_bytes(r2) {
                Some((validators, r3)) => match parse_opt_bytes(r3) {
                    Some((votes, r4)) => match parse_shard_chunks(r4) {
                        Some((shard_chunks, r5)) => Some(
                            (BlockView { header, hash, validators, votes, shard_chunks }, r5),
                        ),
                        None => None,
                    },
                    None => None,
                },
                None => None,
            },
            None => None,
        },
        None => None,
    }
}

/// The block that `s` encodes, where it encodes one and nothing more.
pub open spec fn decode_block(s: Seq<u8>) -> Option<BlockView> {
    match parse_block(s) {
        Some((b, rest)) => if rest.len() == 0 {
            Some(b)
        } else {
            None
        },
        None => None,
    }
}

/// Whether every length in the header can be written as a length prefix.
/// The view of every header in memory is of this kind.
pub open spec fn shard_header_encodable(h: ShardHeaderView) -> bool {
    fits_prefix(h.parent_hash.len()) && fits_prefix(h.shard_root.len())
}

pub open spec fn transaction_encodable(t: TransactionView) -> bool {
    fits_prefix(t.payload.len())
}

pub open spec fn transactions_encodable(ts: Seq<TransactionView>) -> bool {
    fits_prefix(ts.len()) && forall|i: int| 0 <= i < ts.len() ==> transaction_encodable(#[trigger] ts[i])
}

pub open spec fn shard_chunk_encodable(c: ShardChunkView) -> bool {
    &&& c.header matches Some(h) ==> shard_header_encodable(h)
    &&& fits_prefix(c.hash.len())
    &&& transactions_encodable(c.transactions)
    &&& c.votes matches Some(v) ==> fits_prefix(v.len())
}

pub open spec fn block_header_encodable(h: BlockHeaderView) -> bool {
    fits_prefix(h.parent_hash.len()) && fits_prefix(h.shard_headers_hash.len()) && fits_prefix(
        h.validators_hash.len(),
    )
}

pub open spec fn shard_chunks_encodable(cs: Seq<ShardChunkView>) -> bool {
    fits_prefix(cs.len()) && forall|i: int| 0 <= i < cs.len() ==> shard_chunk_encodable(#[trigger] cs[i])
}

pub open spec fn block_encodable(b: BlockView) -> bool {
    &&& b.header matches Some(h) ==> block_header_encodable(h)
    &&& fits_prefix(b.hash.len())
    &&& b.validators matches Some(v) ==> fits_prefix(v.len())
    &&& b.votes matches Some(v) ==> fits_prefix(v.len())
    &&& shard_chunks_encodable(b.shard_chunks)
}

} // verus!
