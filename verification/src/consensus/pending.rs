//! The shard chunks that wait to be put into a block, by block number. The
//! chunks of one block number stand in rising order of their shards, one
//! chunk to a shard: a chunk for a shard that has one already is dropped.

use crate::proto::{copy_shard_chunks, ShardChunk, ShardChunkView};
use std::collections::BTreeMap;
use vstd::prelude::*;

verus! {

broadcast use vstd::std_specs::btree::group_btree_axioms;

/// The shard a chunk belongs to, as its header gives it; 0 for a chunk
/// without header or height.
pub open spec fn shard_of(chunk: ShardChunkView) -> u32 {
    match chunk.header {
        Some(header) => match header.height {
            Some(height) => height.shard_index,
            None => 0,
        },
        None => 0,
    }
}

/// The index of the first chunk of `chunks` whose shard is `shard` or
/// greater; the length of `chunks` where there is none.
pub open spec fn slot_of(chunks: Seq<ShardChunkView>, shard: u32) -> nat
    decreases chunks.len(),
{
    if chunks.len() == 0 {
        0
    } else if shard_of(chunks[0]) >= shard {
        0
    } else {
        1 + slot_of(chunks.drop_first(), shard)
    }
}

/// Whether `chunks` holds a chunk at the slot of `shard` that is of `shard`.
pub open spec fn holds_shard(chunks: Seq<ShardChunkView>, shard: u32) -> bool {
    let i = slot_of(chunks, shard) as int;
    i < chunks.len() && shard_of(chunks[i]) == shard
}

/// `chunks` with `chunk` put in at the slot of its shard, or `chunks` as
/// they are where a chunk of that shard stands there.
pub open spec fn placed(chunks: Seq<ShardChunkView>, chunk: ShardChunkView) -> Seq<
    ShardChunkView,
> {
    if holds_shard(chunks, shard_of(chunk)) {
        chunks
    } else {
        chunks.insert(slot_of(chunks, shard_of(chunk)) as int, chunk)
    }
}

/// Whether the shards rise strictly along `chunks`.
pub open spec fn ascending(chunks: Seq<ShardChunkView>) -> bool {
    forall|i: int, j: int|
        0 <= i < j < chunks.len() ==> shard_of(#[trigger] chunks[i]) < shard_of(
            #[trigger] chunks[j],
        )
}

/// The slot of a shard lies within the list, behind the chunks of lesser
/// shards and at a chunk that is not of a lesser shard.
pub proof fn lemma_slot_of(chunks: Seq<ShardChunkView>, shard: u32)
    ensures
        slot_of(chunks, shard) <= chunks.len(),
        forall|j: int| 0 <= j < slot_of(chunks, shard) ==> shard_of(#[trigger] chunks[j]) < shard,
        slot_of(chunks, shard) < chunks.len() ==> shard_of(chunks[slot_of(chunks, shard) as int])
            >= shard,
    decreases chunks.len(),
{
    if chunks.len() > 0 && shard_of(chunks[0]) < shard {
        let rest = chunks.drop_first();
        lemma_slot_of(rest, shard);
        assert forall|j: int| 0 <= j < slot_of(chunks, shard) implies shard_of(
            #[trigger] chunks[j],
        ) < shard by {
            if j > 0 {
                assert(chunks[j] == rest[j - 1]);
            }
        }
        if slot_of(chunks, shard) < chunks.len() {
            assert(chunks[slot_of(chunks, shard) as int] == rest[slot_of(rest, shard) as int]);
        }
    }
}

/// Placing a chunk keeps the shards rising.
pub proof fn lemma_placed_ascending(chunks: Seq<ShardChunkView>, chunk: ShardChunkView)
    requires
        ascending(chunks),
    ensures
        ascending(placed(chunks, chunk)),
{
    let shard = shard_of(chunk);
    let i = slot_of(chunks, shard) as int;
    let p = placed(chunks, chunk);
    lemma_slot_of(chunks, shard);
    if !holds_shard(chunks, shard) {
        assert forall|a: int, b: int| 0 <= a < b < p.len() implies shard_of(#[trigger] p[a])
            < shard_of(#[trigger] p[b]) by {
            if b < i {
                assert(p[a] == chunks[a] && p[b] == chunks[b]);
            } else if b == i {
                assert(p[a] == chunks[a]);
            } else if a < i {
                assert(p[a] == chunks[a] && p[b] == chunks[b - 1]);
                if b - 1 > i {
                    assert(shard_of(chunks[i]) < shard_of(chunks[b - 1]));
                }
            } else if a == i {
                assert(p[b] == chunks[b - 1]);
                if b - 1 > i {
                    assert(shard_of(chunks[i]) < shard_of(chunks[b - 1]));
                }
            } else {
                assert(p[a] == chunks[a - 1] && p[b] == chunks[b - 1]);
            }
        }
    }
}

/// The shard of `chunk`.
pub fn shard_index_of(chunk: &ShardChunk) -> (shard: u32)
    ensures
        shard == shard_of(chunk@),
{
    match &chunk.header {
        Some(header) => match header.height {
            Some(height) => height.shard_index,
            None => 0,
        },
        None => 0,
    }
}

/// Puts `chunk` into `list` at the slot of its shard. `false`, and `list`
/// unchanged, where a chunk of that shard stands there.
pub fn place_chunk(list: &mut Vec<ShardChunk>, chunk: ShardChunk) -> (added: bool)
    ensures
        final(list).deep_view() == placed(old(list).deep_view(), chunk@),
        added == !holds_shard(old(list).deep_view(), shard_of(chunk@)),
{
    let shard = shard_index_of(&chunk);
    let ghost views = list.deep_view();
    let mut i: usize = 0;
    assert(views.skip(0) =~= views);
    while i < list.len() && shard_index_of(&list[i]) < shard
        invariant
            i <= list.len(),
            views == list.deep_view(),
            slot_of(views, shard) == i + slot_of(views.skip(i as int), shard),
        decreases list.len() - i,
    {
        assert(views.skip(i as int)[0] == views[i as int]);
        assert(views.skip(i as int).drop_first() =~= views.skip(i + 1));
        i += 1;
    }
    proof {
        if i < list.len() {
            assert(views.skip(i as int)[0] == views[i as int]);
        }
        assert(slot_of(views, shard) == i);
    }
    if i < list.len() && shard_index_of(&list[i]) == shard {
        false
    } else {
        list.insert(i, chunk);
        assert(list.deep_view() =~= views.insert(i as int, chunk@));
        true
    }
}

/// The chunks that wait, by block number.
pub struct PendingChunks {
    by_block: BTreeMap<u64, Vec<ShardChunk>>,
}

impl PendingChunks {
    /// The chunks that wait for `block_number`, in rising order of shards.
    pub closed spec fn at(&self, block_number: u64) -> Seq<ShardChunkView> {
        if self.by_block@.contains_key(block_number) {
            self.by_block@[block_number].deep_view()
        } else {
            Seq::empty()
        }
    }

    pub fn new() -> (pending: PendingChunks)
        ensures
            forall|n: u64| pending.at(n) == Seq::<ShardChunkView>::empty(),
    {
        PendingChunks { by_block: BTreeMap::new() }
    }

    /// Puts `chunk` among those that wait for `block_number`. `false`, and
    /// nothing changed, where a chunk of its shard waits there already.
    pub fn add(&mut self, block_number: u64, chunk: ShardChunk) -> (added: bool)
        ensures
            final(self).at(block_number) == placed(old(self).at(block_number), chunk@),
            added == !holds_shard(old(self).at(block_number), shard_of(chunk@)),
            forall|n: u64| n != block_number ==> final(self).at(n) == old(self).at(n),
    {
        let mut list: Vec<ShardChunk> = match self.by_block.remove(&block_number) {
            Some(list) => list,
            None => Vec::new(),
        };
        assert(list.deep_view() =~= old(self).at(block_number));
        let added = place_chunk(&mut list, chunk);
        self.by_block.insert(block_number, list);
        assert forall|n: u64| n != block_number implies self.at(n) == old(self).at(n) by {}
        added
    }

    /// The chunks that wait for `block_number`.
    pub fn get(&self, block_number: u64) -> (chunks: Vec<ShardChunk>)
        ensures
            chunks.deep_view() == self.at(block_number),
    {
        match self.by_block.get(&block_number) {
            Some(list) => copy_shard_chunks(list),
            None => {
                let chunks: Vec<ShardChunk> = Vec::new();
                assert(chunks.deep_view() =~= self.at(block_number));
                chunks
            },
        }
    }

    /// How many chunks wait for `block_number`.
    pub fn count(&self, block_number: u64) -> (n: usize)
        ensures
            n == self.at(block_number).len(),
    {
        match self.by_block.get(&block_number) {
            Some(list) => list.len(),
            None => 0,
        }
    }

    /// Forgets the chunks that wait for `block_number`.
    pub fn remove(&mut self, block_number: u64)
        ensures
            final(self).at(block_number) == Seq::<ShardChunkView>::empty(),
            forall|n: u64| n != block_number ==> final(self).at(n) == old(self).at(n),
    {
        self.by_block.remove(&block_number);
        assert forall|n: u64| n != block_number implies self.at(n) == old(self).at(n) by {}
    }
}

} // verus!
