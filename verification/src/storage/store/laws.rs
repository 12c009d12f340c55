//! What holds of a shard engine over every history of commits: a chunk
//! committed again changes nothing, a height once taken admits no other
//! chunk, and the confirmed height is the greatest height committed.

use crate::format::{
    block_encodable, decode_shard_chunk, ser_block, ser_shard_chunk, shard_chunk_encodable,
};
use crate::proto::{BlockView, ShardChunkView};
use crate::roundtrip::{
    lemma_block_encoding_injective, lemma_decode_shard_chunk,
    lemma_shard_chunk_encoding_injective,
};
use crate::storage::store::block::block_key;
use crate::storage::db::{
    get_spec, lemma_get_put_other, lemma_put_sorted, lemma_rank_bound, lemma_rank_insert,
    lemma_rank_is, lemma_rank_monotone, lemma_rank_splits, rank, sorted,
};
use crate::storage::keys::{
    key_lt, lemma_key_lt_asymmetric, lemma_key_lt_irreflexive, lemma_key_lt_total,
};
use crate::storage::store::engine::{
    commit_block_result, commit_chunk_result, confirmed_block_number, EngineError,
};
use crate::storage::store::shard::{
    last_chunk, lemma_shard_key_in_range, lemma_shard_key_order, shard_entries, shard_key,
    shard_keys_end,
};
use vstd::prelude::*;

verus! {

/// Whether a chunk is stored for block number `h`.
pub open spec fn holds(store: Seq<(Seq<u8>, Seq<u8>)>, h: u64) -> bool {
    get_spec(store, shard_key(h)) is Some
}

/// The block number of the chunk that an entry encodes.
pub open spec fn stored_number(entry: (Seq<u8>, Seq<u8>)) -> Option<u64> {
    match decode_shard_chunk(entry.1) {
        Some(chunk) => chunk.block_number(),
        None => None,
    }
}

/// Whether every shard entry of the store is a chunk under the key of the
/// block number in its own header. Holds of an empty store, and every
/// commit keeps it.
pub open spec fn consistent(store: Seq<(Seq<u8>, Seq<u8>)>) -> bool {
    &&& sorted(store)
    &&& forall|i: int|
        rank(store, shard_key(0)) <= i < rank(store, shard_keys_end()) ==> (stored_number(
            #[trigger] store[i],
        ) matches Some(n) && store[i].0 == shard_key(n))
}

/// An empty store is consistent, and nothing is confirmed in it.
pub proof fn lemma_empty_store()
    ensures
        consistent(Seq::<(Seq<u8>, Seq<u8>)>::empty()),
        confirmed_block_number(Seq::<(Seq<u8>, Seq<u8>)>::empty()) == 0,
        forall|h: u64| !holds(Seq::<(Seq<u8>, Seq<u8>)>::empty(), h),
{
}

/// Committing a chunk a second time is accepted, and leaves the store, and
/// with it the confirmed height, as the first commit left them.
pub proof fn lemma_commit_idempotent(
    before: Seq<(Seq<u8>, Seq<u8>)>,
    after: Seq<(Seq<u8>, Seq<u8>)>,
    chunk: ShardChunkView,
    again: Result<(), EngineError>,
    last: Seq<(Seq<u8>, Seq<u8>)>,
)
    requires
        sorted(before),
        commit_chunk_result(Ok(()), before, after, chunk),
        commit_chunk_result(again, after, last, chunk),
    ensures
        again == Ok::<(), EngineError>(()),
        last == after,
        confirmed_block_number(last) == confirmed_block_number(after),
{
    let h = chunk.block_number()->0;
    lemma_put_sorted(before, shard_key(h), ser_shard_chunk(chunk));
}

/// Where a chunk is committed at a height, another chunk for that height
/// is refused as a conflict and the store stays as it was: two chunks are
/// never both committed at one height.
pub proof fn lemma_commit_conflict(
    before: Seq<(Seq<u8>, Seq<u8>)>,
    after: Seq<(Seq<u8>, Seq<u8>)>,
    first: ShardChunkView,
    second: ShardChunkView,
    r: Result<(), EngineError>,
    last: Seq<(Seq<u8>, Seq<u8>)>,
)
    requires
        sorted(before),
        shard_chunk_encodable(first),
        shard_chunk_encodable(second),
        first != second,
        first.block_number() is Some,
        first.block_number() == second.block_number(),
        commit_chunk_result(Ok(()), before, after, first),
        commit_chunk_result(r, after, last, second),
    ensures
        r == Err::<(), EngineError>(EngineError::Conflict),
        last == after,
{
    let h = first.block_number()->0;
    lemma_put_sorted(before, shard_key(h), ser_shard_chunk(first));
    if ser_shard_chunk(first) == ser_shard_chunk(second) {
        lemma_shard_chunk_encoding_injective(first, second);
    }
}

/// Committing a block a second time is accepted, and leaves the store as
/// the first commit left it.
pub proof fn lemma_block_commit_idempotent(
    before: Seq<(Seq<u8>, Seq<u8>)>,
    after: Seq<(Seq<u8>, Seq<u8>)>,
    block: BlockView,
    again: Result<(), EngineError>,
    last: Seq<(Seq<u8>, Seq<u8>)>,
)
    requires
        sorted(before),
        commit_block_result(Ok(()), before, after, block),
        commit_block_result(again, after, last, block),
    ensures
        again == Ok::<(), EngineError>(()),
        last == after,
{
    let h = block.block_number()->0;
    lemma_put_sorted(before, block_key(h), ser_block(block));
}

/// Where a block is committed at a height, another block for that height
/// is refused as a conflict and the store stays as it was.
pub proof fn lemma_block_commit_conflict(
    before: Seq<(Seq<u8>, Seq<u8>)>,
    after: Seq<(Seq<u8>, Seq<u8>)>,
    first: BlockView,
    second: BlockView,
    r: Result<(), EngineError>,
    last: Seq<(Seq<u8>, Seq<u8>)>,
)
    requires
        sorted(before),
        block_encodable(first),
        block_encodable(second),
        first != second,
        first.block_number() is Some,
        first.block_number() == second.block_number(),
        commit_block_result(Ok(()), before, after, first),
        commit_block_result(r, after, last, second),
    ensures
        r == Err::<(), EngineError>(EngineError::Conflict),
        last == after,
{
    let h = first.block_number()->0;
    lemma_put_sorted(before, block_key(h), ser_block(first));
    if ser_block(first) == ser_block(second) {
        lemma_block_encoding_injective(first, second);
    }
}

/// In a consistent store the confirmed height is the greatest height that
/// holds a chunk: every height that holds one is at most the confirmed
/// height, and the confirmed height holds one unless the store has none.
pub proof fn lemma_confirmed_is_greatest(store: Seq<(Seq<u8>, Seq<u8>)>, h: u64)
    requires
        consistent(store),
    ensures
        holds(store, h) ==> h <= confirmed_block_number(store),
        shard_entries(store).len() > 0 ==> holds(store, confirmed_block_number(store)),
        shard_entries(store).len() == 0 ==> confirmed_block_number(store) == 0 && !holds(
            store,
            h,
        ),
{
    let a = rank(store, shard_key(0)) as int;
    let b = rank(store, shard_keys_end()) as int;
    lemma_rank_splits(store, shard_key(0));
    lemma_rank_splits(store, shard_keys_end());
    lemma_rank_splits(store, shard_key(h));
    lemma_shard_key_in_range(h);
    let i = rank(store, shard_key(h)) as int;
    if holds(store, h) {
        assert(store[i].0 == shard_key(h));
        assert(a <= i) by {
            if i < a {
                assert(key_lt(store[i].0, shard_key(0)));
            }
        }
        assert(i < b) by {
            if i >= b {
                assert(!key_lt(store[i].0, shard_keys_end()));
            }
        }
    }
    if a < b {
        let last = store[b - 1];
        assert(shard_entries(store).last() == last);
        let n = stored_number(last)->0;
        assert(confirmed_block_number(store) == n);
        assert(last.0 == shard_key(n));
        assert forall|j: int| 0 <= j < b - 1 implies key_lt((#[trigger] store[j]).0, shard_key(n)) by {
            assert(key_lt(store[j].0, store[b - 1].0));
        }
        assert forall|j: int| b - 1 <= j < store.len() implies !key_lt(
            (#[trigger] store[j]).0,
            shard_key(n),
        ) by {
            if j == b - 1 {
                lemma_key_lt_irreflexive(shard_key(n));
            } else {
                assert(key_lt(store[b - 1].0, store[j].0));
                lemma_key_lt_asymmetric(shard_key(n), store[j].0);
            }
        }
        lemma_rank_is(store, shard_key(n), b - 1);
        if holds(store, h) {
            lemma_shard_key_order(n, h);
            if i < b - 1 {
                assert(key_lt(store[i].0, store[b - 1].0));
                lemma_key_lt_asymmetric(shard_key(h), shard_key(n));
            }
        }
    }
}

/// In a consistent store that holds chunks, the last chunk is the chunk of
/// the confirmed height, and it has a header: so the proposer that starts
/// over such a store names the header of that height as the parent of its
/// first chunk.
pub proof fn lemma_last_chunk_is_confirmed(store: Seq<(Seq<u8>, Seq<u8>)>)
    requires
        consistent(store),
        shard_entries(store).len() > 0,
    ensures
        last_chunk(store) matches Ok(Some(chunk)) && chunk.header is Some && chunk.block_number()
            == Some(confirmed_block_number(store)),
{
    let a = rank(store, shard_key(0)) as int;
    let b = rank(store, shard_keys_end()) as int;
    lemma_rank_bound(store, shard_keys_end());
    assert(shard_entries(store).last() == store[b - 1]);
    assert(stored_number(store[b - 1]) is Some);
}

/// A commit keeps the store consistent, adds the height of the chunk to
/// the heights that hold a chunk and leaves the others as they were, and
/// raises the confirmed height to the height of the chunk if that is
/// greater. So the confirmed height reaches `h` only by a commit at `h` or
/// above, and never falls.
pub proof fn lemma_commit_confirms(
    before: Seq<(Seq<u8>, Seq<u8>)>,
    after: Seq<(Seq<u8>, Seq<u8>)>,
    chunk: ShardChunkView,
    h: u64,
)
    requires
        consistent(before),
        shard_chunk_encodable(chunk),
        chunk.block_number() == Some(h),
        commit_chunk_result(Ok(()), before, after, chunk),
    ensures
        consistent(after),
        holds(after, h),
        forall|other: u64| other != h ==> holds(after, other) == holds(before, other),
        confirmed_block_number(after) == if h > confirmed_block_number(before) {
            h
        } else {
            confirmed_block_number(before)
        },
{
    let k = shard_key(h);
    let v = ser_shard_chunk(chunk);
    lemma_put_sorted(before, k, v);
    lemma_confirmed_is_greatest(before, h);
    if get_spec(before, k) is Some {
        assert(after == before);
    } else {
        let i = rank(before, k) as int;
        let a = rank(before, shard_key(0)) as int;
        let b = rank(before, shard_keys_end()) as int;
        assert(after == before.insert(i, (k, v)));
        lemma_shard_key_in_range(h);
        lemma_rank_insert(before, k, v, shard_key(0));
        lemma_rank_insert(before, k, v, shard_keys_end());
        lemma_key_lt_total(shard_key(0), k);
        lemma_rank_monotone(before, shard_key(0), k);
        lemma_rank_monotone(before, k, shard_keys_end());
        lemma_rank_bound(before, shard_keys_end());
        lemma_rank_splits(before, k);
        lemma_decode_shard_chunk(chunk);
        assert(rank(after, shard_key(0)) == a);
        assert(rank(after, shard_keys_end()) == b + 1);
        assert(a <= i <= b);
        assert forall|j: int| a <= j < b + 1 implies (stored_number(#[trigger] after[j]) matches Some(
            n,
        ) && after[j].0 == shard_key(n)) by {
            if j < i {
                assert(after[j] == before[j]);
            } else if j > i {
                assert(after[j] == before[j - 1]);
            } else {
                assert(after[j] == (k, v));
            }
        }
        assert forall|other: u64| other != h implies holds(after, other) == holds(
            before,
            other,
        ) by {
            lemma_shard_key_order(other, h);
            lemma_get_put_other(before, k, v, shard_key(other));
        }
        assert(shard_entries(after).last() == after[b]);
        if i == b {
            assert(after[b] == (k, v));
            assert(confirmed_block_number(after) == h);
            if a < b {
                let n = confirmed_block_number(before);
                assert(shard_entries(before).last() == before[b - 1]);
                assert(before[b - 1].0 == shard_key(n));
                assert(key_lt(before[b - 1].0, k));
                lemma_shard_key_order(n, h);
            }
        } else {
            assert(after[b] == before[b - 1]);
            assert(shard_entries(before).last() == before[b - 1]);
            let n = confirmed_block_number(before);
            assert(before[b - 1].0 == shard_key(n));
            assert(!key_lt(before[b - 1].0, k));
            lemma_shard_key_order(n, h);
        }
    }
}

} // verus!
