//! Executable encoders and decoders for the canonical encoding. Each encoder
//! appends exactly the bytes the format names; each decoder returns exactly
//! what the format's parser returns on the bytes it is given.

use crate::format::{
    decode_block, decode_shard_chunk, parse_block, parse_block_header, parse_height,
    parse_opt_block_header, parse_opt_height, parse_opt_shard_header, parse_shard_chunk,
    parse_shard_chunk_items, parse_shard_chunks, parse_shard_header, parse_transaction,
    parse_transaction_items, parse_transactions, ser_block, ser_block_header, ser_height,
    ser_opt_block_header, ser_opt_height, ser_opt_shard_header, ser_shard_chunk,
    ser_shard_chunk_items, ser_shard_chunks, ser_shard_header, ser_transaction,
    ser_transaction_items, ser_transactions,
};
use crate::proto::{Block, BlockHeader, ShardChunk, ShardChunkView, ShardHeader, Transaction,
    TransactionView};
use crate::types::Height;
use crate::wire::{
    put_bytes, put_opt_bytes, put_tag, put_u32, put_u64, read_bytes, read_matches,
    read_opt_bytes, read_tag, read_u32, read_u64,
};
use vstd::prelude::*;

verus! {

/// What a reader of messages returns for a parse of the bytes from `pos` on:
/// a message with the parsed view, and the position at which the rest begins.
pub open spec fn read_view_matches<T: DeepView>(
    r: Option<(T, usize)>,
    parsed: Option<(T::V, Seq<u8>)>,
    buf: Seq<u8>,
    pos: usize,
) -> bool {
    match parsed {
        Some((value, rest)) => r matches Some((v, next)) && v.deep_view() == value && pos <= next
            <= buf.len() && rest == buf.skip(next as int),
        None => r is None,
    }
}

pub fn put_height(out: &mut Vec<u8>, h: &Height)
    ensures
        final(out)@ == old(out)@ + ser_height(*h),
{
    put_u32(out, h.shard_index);
    put_u64(out, h.block_number);
    assert(out@ =~= old(out)@ + ser_height(*h));
}

pub fn read_height(buf: &Vec<u8>, pos: usize) -> (r: Option<(Height, usize)>)
    requires
        pos <= buf.len(),
    ensures
        read_matches(r, parse_height(buf@.skip(pos as int)), buf@, pos),
{
    let (shard_index, at1) = match read_u32(buf, pos) {
        Some(p) => p,
        None => { return None; },
    };
    let (block_number, at2) = match read_u64(buf, at1) {
        Some(p) => p,
        None => { return None; },
    };
    Some((Height { shard_index, block_number }, at2))
}

pub fn put_opt_height(out: &mut Vec<u8>, h: &Option<Height>)
    ensures
        final(out)@ == old(out)@ + ser_opt_height(*h),
{
    match h {
        Some(h) => {
            put_tag(out, true);
            put_height(out, h);
            assert(out@ =~= old(out)@ + ser_opt_height(Some(*h)));
        },
        None => {
            put_tag(out, false);
        },
    }
}

pub fn read_opt_height(buf: &Vec<u8>, pos: usize) -> (r: Option<(Option<Height>, usize)>)
    requires
        pos <= buf.len(),
    ensures
        read_matches(r, parse_opt_height(buf@.skip(pos as int)), buf@, pos),
{
    let (present, at1) = match read_tag(buf, pos) {
        Some(p) => p,
        None => { return None; },
    };
    if !present {
        return Some((None, at1));
    }
    match read_height(buf, at1) {
        Some((h, at2)) => Some((Some(h), at2)),
        None => None,
    }
}

pub fn put_shard_header(out: &mut Vec<u8>, h: &ShardHeader)
    ensures
        final(out)@ == old(out)@ + ser_shard_header(h@),
{
    put_bytes(out, &h.parent_hash);
    put_u64(out, h.timestamp);
    put_opt_height(out, &h.height);
    put_bytes(out, &h.shard_root);
    assert(out@ =~= old(out)@ + ser_shard_header(h@));
}

pub fn read_shard_header(buf: &Vec<u8>, pos: usize) -> (r: Option<(ShardHeader, usize)>)
    requires
        pos <= buf.len(),
    ensures
        read_view_matches(r, parse_shard_header(buf@.skip(pos as int)), buf@, pos),
{
    proof {
        reveal(parse_shard_header);
    }
    let (parent_hash, at1) = match read_bytes(buf, pos) {
        Some(p) => p,
        None => { return None; },
    };
    let (timestamp, at2) = match read_u64(buf, at1) {
        Some(p) => p,
        None => { return None; },
    };
    let (height, at3) = match read_opt_height(buf, at2) {
        Some(p) => p,
        None => { return None; },
    };
    let (shard_root, at4) = match read_bytes(buf, at3) {
        Some(p) => p,
        None => { return None; },
    };
    Some((ShardHeader { parent_hash, timestamp, height, shard_root }, at4))
}

pub fn put_opt_shard_header(out: &mut Vec<u8>, h: &Option<ShardHeader>)
    ensures
        final(out)@ == old(out)@ + ser_opt_shard_header(h.deep_view()),
{
    match h {
        Some(h) => {
            put_tag(out, true);
            put_shard_header(out, h);
            assert(out@ =~= old(out)@ + ser_opt_shard_header(Some(h@)));
        },
        None => {
            put_tag(out, false);
        },
    }
}

pub fn read_opt_shard_header(buf: &Vec<u8>, pos: usize) -> (r: Option<
    (Option<ShardHeader>, usize),
>)
    requires
        pos <= buf.len(),
    ensures
        read_view_matches(r, parse_opt_shard_header(buf@.skip(pos as int)), buf@, pos),
{
    let (present, at1) = match read_tag(buf, pos) {
        Some(p) => p,
        None => { return None; },
    };
    if !present {
        return Some((None, at1));
    }
    match read_shard_header(buf, at1) {
        Some((h, at2)) => Some((Some(h), at2)),
        None => None,
    }
}

pub fn put_transaction(out: &mut Vec<u8>, t: &Transaction)
    ensures
        final(out)@ == old(out)@ + ser_transaction(t@),
{
    put_u64(out, t.fid);
    put_bytes(out, &t.payload);
    assert(out@ =~= old(out)@ + ser_transaction(t@));
}

pub fn read_transaction(buf: &Vec<u8>, pos: usize) -> (r: Option<(Transaction, usize)>)
    requires
        pos <= buf.len(),
    ensures
        read_view_matches(r, parse_transaction(buf@.skip(pos as int)), buf@, pos),
{
    proof {
        reveal(parse_transaction);
    }
    let (fid, at1) = match read_u64(buf, pos) {
        Some(p) => p,
        None => { return None; },
    };
    let (payload, at2) = match read_bytes(buf, at1) {
        Some(p) => p,
        None => { return None; },
    };
    Some((Transaction { fid, payload }, at2))
}

/// The encoding of a list grows at its end as the list does.
pub proof fn lemma_transaction_items_push(ts: Seq<TransactionView>, t: TransactionView)
    ensures
        ser_transaction_items(ts.push(t)) == ser_transaction_items(ts) + ser_transaction(t),
    decreases ts.len(),
{
    if ts.len() == 0 {
        assert(ts.push(t).drop_first() =~= Seq::<TransactionView>::empty());
        assert(ser_transaction_items(Seq::<TransactionView>::empty()) =~= Seq::<u8>::empty());
        assert(ser_transaction_items(ts.push(t)) =~= ser_transaction(t));
        assert(ser_transaction_items(ts) + ser_transaction(t) =~= ser_transaction(t));
    } else {
        assert(ts.push(t).drop_first() =~= ts.drop_first().push(t));
        lemma_transaction_items_push(ts.drop_first(), t);
        assert(ser_transaction_items(ts.push(t)) =~= ser_transaction_items(ts) + ser_transaction(
            t,
        ));
    }
}

pub fn put_transactions(out: &mut Vec<u8>, ts: &Vec<Transaction>)
    ensures
        final(out)@ == old(out)@ + ser_transactions(ts.deep_view()),
{
    put_u64(out, ts.len() as u64);
    let ghost views = ts.deep_view();
    let ghost base = out@;
    let mut i: usize = 0;
    assert(views.take(0) =~= Seq::<TransactionView>::empty());
    assert(out@ =~= base + ser_transaction_items(views.take(0)));
    while i < ts.len()
        invariant
            i <= ts.len(),
            views == ts.deep_view(),
            out@ == base + ser_transaction_items(views.take(i as int)),
        decreases ts.len() - i,
    {
        put_transaction(out, &ts[i]);
        proof {
            lemma_transaction_items_push(views.take(i as int), views[i as int]);
            assert(views.take(i + 1) =~= views.take(i as int).push(views[i as int]));
            assert(out@ =~= base + ser_transaction_items(views.take(i + 1)));
        }
        i += 1;
    }
    assert(views.take(ts.len() as int) =~= views);
    assert(out@ =~= old(out)@ + ser_transactions(views));
}

/// What is left to parse of a list, put behind what was read of it already.
pub open spec fn after_read<T>(done: Seq<T>, left: Option<(Seq<T>, Seq<u8>)>) -> Option<
    (Seq<T>, Seq<u8>),
> {
    match left {
        Some((items, rest)) => Some((done + items, rest)),
        None => None,
    }
}

pub fn read_transactions(buf: &Vec<u8>, pos: usize) -> (r: Option<(Vec<Transaction>, usize)>)
    requires
        pos <= buf.len(),
    ensures
        read_view_matches(r, parse_transactions(buf@.skip(pos as int)), buf@, pos),
{
    let (n, start) = match read_u64(buf, pos) {
        Some(p) => p,
        None => { return None; },
    };
    let ghost whole = parse_transaction_items(n as nat, buf@.skip(start as int));
    let mut ts: Vec<Transaction> = Vec::new();
    let mut at: usize = start;
    let mut i: u64 = 0;
    assert(after_read(ts.deep_view(), whole) == whole) by {
        if let Some((items, rest)) = whole {
            assert(ts.deep_view() + items =~= items);
        }
    }
    while i < n
        invariant
            i <= n,
            pos <= at <= buf.len(),
            whole == parse_transactions(buf@.skip(pos as int)),
            whole == after_read(
                ts.deep_view(),
                parse_transaction_items((n - i) as nat, buf@.skip(at as int)),
            ),
        decreases n - i,
    {
        let ghost done = ts.deep_view();
        match read_transaction(buf, at) {
            Some((t, next)) => {
                proof {
                    let left = parse_transaction_items((n - i - 1) as nat, buf@.skip(next as int));
                    if let Some((items, rest)) = left {
                        assert(done + (seq![t@] + items) =~= done.push(t@) + items);
                    }
                }
                ts.push(t);
                assert(ts.deep_view() =~= done.push(t@));
                at = next;
                i += 1;
            },
            None => {
                assert(parse_transaction_items((n - i) as nat, buf@.skip(at as int)) is None);
                return None;
            },
        }
    }
    assert(ts.deep_view() + Seq::<TransactionView>::empty() =~= ts.deep_view());
    Some((ts, at))
}

pub fn put_shard_chunk(out: &mut Vec<u8>, c: &ShardChunk)
    ensures
        final(out)@ == old(out)@ + ser_shard_chunk(c@),
{
    put_opt_shard_header(out, &c.header);
    put_bytes(out, &c.hash);
    put_transactions(out, &c.transactions);
    put_opt_bytes(out, &c.votes);
    assert(out@ =~= old(out)@ + ser_shard_chunk(c@));
}

pub fn read_shard_chunk(buf: &Vec<u8>, pos: usize) -> (r: Option<(ShardChunk, usize)>)
    requires
        pos <= buf.len(),
    ensures
        read_view_matches(r, parse_shard_chunk(buf@.skip(pos as int)), buf@, pos),
{
    proof {
        reveal(parse_shard_chunk);
    }
    let (header, at1) = match read_opt_shard_header(buf, pos) {
        Some(p) => p,
        None => { return None; },
    };
    let (hash, at2) = match read_bytes(buf, at1) {
        Some(p) => p,
        None => { return None; },
    };
    let (transactions, at3) = match read_transactions(buf, at2) {
        Some(p) => p,
        None => { return None; },
    };
    let (votes, at4) = match read_opt_bytes(buf, at3) {
        Some(p) => p,
        None => { return None; },
    };
    Some((ShardChunk { header, hash, transactions, votes }, at4))
}

pub fn put_block_header(out: &mut Vec<u8>, h: &BlockHeader)
    ensures
        final(out)@ == old(out)@ + ser_block_header(h@),
{
    put_bytes(out, &h.parent_hash);
    put_u32(out, h.chain_id);
    put_u32(out, h.version);
    put_bytes(out, &h.shard_headers_hash);
    put_bytes(out, &h.validators_hash);
    put_u64(out, h.timestamp);
    put_opt_height(out, &h.height);
    assert(out@ =~= old(out)@ + ser_block_header(h@));
}

pub fn read_block_header(buf: &Vec<u8>, pos: usize) -> (r: Option<(BlockHeader, usize)>)
    requires
        pos <= buf.len(),
    ensures
        read_view_matches(r, parse_block_header(buf@.skip(pos as int)), buf@, pos),
{
    proof {
        reveal(parse_block_header);
    }
    let (parent_hash, at1) = match read_bytes(buf, pos) {
        Some(p) => p,
        None => { return None; },
    };
    let (chain_id, at2) = match read_u32(buf, at1) {
        Some(p) => p,
        None => { return None; },
    };
    let (version, at3) = match read_u32(buf, at2) {
        Some(p) => p,
        None => { return None; },
    };
    let (shard_headers_hash, at4) = match read_bytes(buf, at3) {
        Some(p) => p,
        None => { return None; },
    };
    let (validators_hash, at5) = match read_bytes(buf, at4) {
        Some(p) => p,
        None => { return None; },
    };
    let (timestamp, at6) = match read_u64(buf, at5) {
        Some(p) => p,
        None => { return None; },
    };
    let (height, at7) = match read_opt_height(buf, at6) {
        Some(p) => p,
        None => { return None; },
    };
    Some(
        (
            BlockHeader {
                parent_hash,
                chain_id,
                version,
                shard_headers_hash,
                validators_hash,
                timestamp,
                height,
            },
            at7,
        ),
    )
}

pub fn put_opt_block_header(out: &mut Vec<u8>, h: &Option<BlockHeader>)
    ensures
        final(out)@ == old(out)@ + ser_opt_block_header(h.deep_view()),
{
    match h {
        Some(h) => {
            put_tag(out, true);
            put_block_header(out, h);
            assert(out@ =~= old(out)@ + ser_opt_block_header(Some(h@)));
        },
        None => {
            put_tag(out, false);
        },
    }
}

pub fn read_opt_block_header(buf: &Vec<u8>, pos: usize) -> (r: Option<
    (Option<BlockHeader>, usize),
>)
    requires
        pos <= buf.len(),
    ensures
        read_view_matches(r, parse_opt_block_header(buf@.skip(pos as int)), buf@, pos),
{
    let (present, at1) = match read_tag(buf, pos) {
        Some(p) => p,
        None => { return None; },
    };
    if !present {
        return Some((None, at1));
    }
    match read_block_header(buf, at1) {
        Some((h, at2)) => Some((Some(h), at2)),
        None => None,
    }
}

/// The encoding of a list grows at its end as the list does.
pub proof fn lemma_shard_chunk_items_push(cs: Seq<ShardChunkView>, c: ShardChunkView)
    ensures
        ser_shard_chunk_items(cs.push(c)) == ser_shard_chunk_items(cs) + ser_shard_chunk(c),
    decreases cs.len(),
{
    if cs.len() == 0 {
        assert(cs.push(c).drop_first() =~= Seq::<ShardChunkView>::empty());
        assert(ser_shard_chunk_items(Seq::<ShardChunkView>::empty()) =~= Seq::<u8>::empty());
        assert(ser_shard_chunk_items(cs.push(c)) =~= ser_shard_chunk(c));
        assert(ser_shard_chunk_items(cs) + ser_shard_chunk(c) =~= ser_shard_chunk(c));
    } else {
        assert(cs.push(c).drop_first() =~= cs.drop_first().push(c));
        lemma_shard_chunk_items_push(cs.drop_first(), c);
        assert(ser_shard_chunk_items(cs.push(c)) =~= ser_shard_chunk_items(cs) + ser_shard_chunk(
            c,
        ));
    }
}

pub fn put_shard_chunks(out: &mut Vec<u8>, cs: &Vec<ShardChunk>)
    ensures
        final(out)@ == old(out)@ + ser_shard_chunks(cs.deep_view()),
{
    put_u64(out, cs.len() as u64);
    let ghost views = cs.deep_view();
    let ghost base = out@;
    let mut i: usize = 0;
    assert(views.take(0) =~= Seq::<ShardChunkView>::empty());
    assert(out@ =~= base + ser_shard_chunk_items(views.take(0)));
    while i < cs.len()
        invariant
            i <= cs.len(),
            views == cs.deep_view(),
            out@ == base + ser_shard_chunk_items(views.take(i as int)),
        decreases cs.len() - i,
    {
        put_shard_chunk(out, &cs[i]);
        proof {
            lemma_shard_chunk_items_push(views.take(i as int), views[i as int]);
            assert(views.take(i + 1) =~= views.take(i as int).push(views[i as int]));
            assert(out@ =~= base + ser_shard_chunk_items(views.take(i + 1)));
        }
        i += 1;
    }
    assert(views.take(cs.len() as int) =~= views);
    assert(out@ =~= old(out)@ + ser_shard_chunks(views));
}

pub fn read_shard_chunks(buf: &Vec<u8>, pos: usize) -> (r: Option<(Vec<ShardChunk>, usize)>)
    requires
        pos <= buf.len(),
    ensures
        read_view_matches(r, parse_shard_chunks(buf@.skip(pos as int)), buf@, pos),
{
    let (n, start) = match read_u64(buf, pos) {
        Some(p) => p,
        None => { return None; },
    };
    let ghost whole = parse_shard_chunk_items(n as nat, buf@.skip(start as int));
    let mut cs: Vec<ShardChunk> = Vec::new();
    let mut at: usize = start;
    let mut i: u64 = 0;
    assert(after_read(cs.deep_view(), whole) == whole) by {
        if let Some((items, rest)) = whole {
            assert(cs.deep_view() + items =~= items);
        }
    }
    while i < n
        invariant
            i <= n,
            pos <= at <= buf.len(),
            whole == parse_shard_chunks(buf@.skip(pos as int)),
            whole == after_read(
                cs.deep_view(),
                parse_shard_chunk_items((n - i) as nat, buf@.skip(at as int)),
            ),
        decreases n - i,
    {
        let ghost done = cs.deep_view();
        match read_shard_chunk(buf, at) {
            Some((c, next)) => {
                proof {
                    let left = parse_shard_chunk_items((n - i - 1) as nat, buf@.skip(next as int));
                    if let Some((items, rest)) = left {
                        assert(done + (seq![c@] + items) =~= done.push(c@) + items);
                    }
                }
                cs.push(c);
                assert(cs.deep_view() =~= done.push(c@));
                at = next;
                i += 1;
            },
            None => {
                assert(parse_shard_chunk_items((n - i) as nat, buf@.skip(at as int)) is None);
                return None;
            },
        }
    }
    assert(cs.deep_view() + Seq::<ShardChunkView>::empty() =~= cs.deep_view());
    Some((cs, at))
}

pub fn put_block(out: &mut Vec<u8>, b: &Block)
    ensures
        final(out)@ == old(out)@ + ser_block(b@),
{
    put_opt_block_header(out, &b.header);
    put_bytes(out, &b.hash);
    put_opt_bytes(out, &b.validators);
    put_opt_bytes(out, &b.votes);
    put_shard_chunks(out, &b.shard_chunks);
    assert(out@ =~= old(out)@ + ser_block(b@));
}

pub fn read_block(buf: &Vec<u8>, pos: usize) -> (r: Option<(Block, usize)>)
    requires
        pos <= buf.len(),
    ensures
        read_view_matches(r, parse_block(buf@.skip(pos as int)), buf@, pos),
{
    proof {
        reveal(parse_block);
    }
    let (header, at1) = match read_opt_block_header(buf, pos) {
        Some(p) => p,
        None => { return None; },
    };
    let (hash, at2) = match read_bytes(buf, at1) {
        Some(p) => p,
        None => { return None; },
    };
    let (validators, at3) = match read_opt_bytes(buf, at2) {
        Some(p) => p,
        None => { return None; },
    };
    let (votes, at4) = match read_opt_bytes(buf, at3) {
        Some(p) => p,
        None => { return None; },
    };
    let (shard_chunks, at5) = match read_shard_chunks(buf, at4) {
        Some(p) => p,
        None => { return None; },
    };
    Some((Block { header, hash, validators, votes, shard_chunks }, at5))
}

impl ShardHeader {
    /// The canonical encoding of the header.
    pub fn encode_to_vec(&self) -> (r: Vec<u8>)
        ensures
            r@ == ser_shard_header(self@),
    {
        let mut out: Vec<u8> = Vec::new();
        put_shard_header(&mut out, self);
        assert(out@ =~= ser_shard_header(self@));
        out
    }
}

impl BlockHeader {
    /// The canonical encoding of the header.
    pub fn encode_to_vec(&self) -> (r: Vec<u8>)
        ensures
            r@ == ser_block_header(self@),
    {
        let mut out: Vec<u8> = Vec::new();
        put_block_header(&mut out, self);
        assert(out@ =~= ser_block_header(self@));
        out
    }
}

impl ShardChunk {
    /// The canonical encoding of the chunk.
    pub fn encode_to_vec(&self) -> (r: Vec<u8>)
        ensures
            r@ == ser_shard_chunk(self@),
    {
        let mut out: Vec<u8> = Vec::new();
        put_shard_chunk(&mut out, self);
        assert(out@ =~= ser_shard_chunk(self@));
        out
    }

    /// The chunk that `buf` encodes. `None` where `buf` encodes none, or
    /// holds bytes after one.
    pub fn decode(buf: &Vec<u8>) -> (r: Option<ShardChunk>)
        ensures
            r.deep_view() == decode_shard_chunk(buf@),
    {
        assert(buf@.skip(0) =~= buf@);
        match read_shard_chunk(buf, 0) {
            Some((c, end)) => {
                if end == buf.len() {
                    Some(c)
                } else {
                    None
                }
            },
            None => None,
        }
    }
}

impl Block {
    /// The canonical encoding of the block.
    pub fn encode_to_vec(&self) -> (r: Vec<u8>)
        ensures
            r@ == ser_block(self@),
    {
        let mut out: Vec<u8> = Vec::new();
        put_block(&mut out, self);
        assert(out@ =~= ser_block(self@));
        out
    }

    /// The block that `buf` encodes. `None` where `buf` encodes none, or
    /// holds bytes after one.
    pub fn decode(buf: &Vec<u8>) -> (r: Option<Block>)
        ensures
            r.deep_view() == decode_block(buf@),
    {
        assert(buf@.skip(0) =~= buf@);
        match read_block(buf, 0) {
            Some((b, end)) => {
                if end == buf.len() {
                    Some(b)
                } else {
                    None
                }
            },
            None => None,
        }
    }
}

} // verus!
