//! The store of one data shard: committed shard chunks keyed by block
//! number, written one at a time and read back last-first or in pages.

use crate::format::{decode_shard_chunk, ser_shard_chunk};
use crate::proto::{ShardChunk, ShardChunkView};
use crate::storage::db::{
    apply_puts, entry_views, get_spec, lemma_scan_resume, lemma_scan_reverse, page_of, put_spec, scan, sorted, token_of, Db,
    PageOptions, Txn,
};
use crate::storage::keys::{key_lt, lemma_key_lt_at};
use crate::wire::{be_lt, be_u64, lemma_be_u64_order, opt_bytes_view, put_u64};
use vstd::prelude::*;
use vstd::string::StringExecFns;

verus! {

/// First byte of every key of a block store.
pub const BLOCK_PREFIX: u8 = 1;

/// First byte of every key of a shard store.
pub const SHARD_PREFIX: u8 = 2;

/// Entries that `ShardStore::get_shard_chunks` asks for at a time.
pub const PAGE_SIZE: usize = 100;

/// Why the store under a shard store could not answer.
#[derive(Clone, Copy, Debug, PartialEq, Eq, Structural)]
pub enum DbError {
    /// A stored value is not the encoding of what the store holds.
    Malformed,
}

#[derive(Clone, Copy, Debug, PartialEq, Eq, Structural)]
pub enum ShardStorageError {
    DbError(DbError),
    ShardMissingHeader,
    ShardMissingHeight,
    TooManyShardsInResult,
}

impl DbError {
    /// The words that tell of the error.
    pub open spec fn message_of(self) -> Seq<char> {
        "Stored value is malformed"@
    }

    pub fn message(&self) -> (s: String)
        ensures
            s@ == self.message_of(),
    {
        String::from_str("Stored value is malformed")
    }
}

impl ShardStorageError {
    /// The words that tell of the error.
    pub open spec fn message_of(self) -> Seq<char> {
        match self {
            ShardStorageError::DbError(e) => e.message_of(),
            ShardStorageError::ShardMissingHeader => "Shard missing header"@,
            ShardStorageError::ShardMissingHeight => "Shard missing height"@,
            ShardStorageError::TooManyShardsInResult => "Too many shards in result"@,
        }
    }

    pub fn message(&self) -> (s: String)
        ensures
            s@ == self.message_of(),
    {
        match self {
            ShardStorageError::DbError(e) => e.message(),
            ShardStorageError::ShardMissingHeader => String::from_str("Shard missing header"),
            ShardStorageError::ShardMissingHeight => String::from_str("Shard missing height"),
            ShardStorageError::TooManyShardsInResult => String::from_str(
                "Too many shards in result",
            ),
        }
    }
}

/// A page of shard chunks, with the token to ask for the next one.
#[derive(Debug, PartialEq, Eq)]
pub struct ShardPage {
    pub shard_chunks: Vec<ShardChunk>,
    pub next_page_token: Option<Vec<u8>>,
}

/// The key of the chunk at `block_number`: the shard prefix, then the number
/// in big-endian bytes, so that keys are ordered as block numbers are.
pub open spec fn shard_key(block_number: u64) -> Seq<u8> {
    seq![SHARD_PREFIX] + be_u64(block_number)
}

/// The least byte string after every shard key.
pub open spec fn shard_keys_end() -> Seq<u8> {
    seq![(SHARD_PREFIX + 1) as u8]
}

/// Shard keys are ordered as block numbers are, and each block number has a
/// key of its own.
pub proof fn lemma_shard_key_order(a: u64, b: u64)
    ensures
        key_lt(shard_key(a), shard_key(b)) <==> a < b,
        shard_key(a) == shard_key(b) <==> a == b,
{
    let x = shard_key(a);
    let y = shard_key(b);
    lemma_be_u64_order(a, b);
    assert(x.len() == 9 && y.len() == 9);
    assert forall|i: int| 0 <= i < 8 implies x[i + 1] == be_u64(a)[i] && y[i + 1] == be_u64(b)[i] by {}
    assert(x.skip(0) =~= x && y.skip(0) =~= y);
    assert(!key_lt(x.skip(9), y.skip(9)));
    lemma_key_lt_at(x, y, 8);
    lemma_key_lt_at(x, y, 7);
    lemma_key_lt_at(x, y, 6);
    lemma_key_lt_at(x, y, 5);
    lemma_key_lt_at(x, y, 4);
    lemma_key_lt_at(x, y, 3);
    lemma_key_lt_at(x, y, 2);
    lemma_key_lt_at(x, y, 1);
    lemma_key_lt_at(x, y, 0);
    assert(key_lt(x, y) == be_lt(x, y, 1));
    assert(be_lt(x, y, 1) == be_lt(be_u64(a), be_u64(b), 0));
    if x == y {
        assert(be_u64(a) =~= x.skip(1));
        assert(be_u64(b) =~= y.skip(1));
    }
}

/// Every shard key lies from the first shard key on and before the end of
/// the shard keys.
pub proof fn lemma_shard_key_in_range(n: u64)
    ensures
        !key_lt(shard_key(n), shard_key(0)),
        key_lt(shard_key(n), shard_keys_end()),
{
    lemma_shard_key_order(n, 0);
    let x = shard_key(n);
    let e = shard_keys_end();
    assert(x[0] == SHARD_PREFIX && e[0] == SHARD_PREFIX + 1);
}

/// The chunks that the values of `entries` encode, in the same order; `None`
/// where one of the values encodes no chunk.
pub open spec fn decode_chunks(entries: Seq<(Seq<u8>, Seq<u8>)>) -> Option<Seq<ShardChunkView>>
    decreases entries.len(),
{
    if entries.len() == 0 {
        Some(Seq::empty())
    } else {
        match decode_chunks(entries.drop_last()) {
            Some(chunks) => match decode_shard_chunk(entries.last().1) {
                Some(chunk) => Some(chunks.push(chunk)),
                None => None,
            },
            None => None,
        }
    }
}

/// Decoding a list is decoding its two halves.
pub proof fn lemma_decode_chunks_concat(x: Seq<(Seq<u8>, Seq<u8>)>, y: Seq<(Seq<u8>, Seq<u8>)>)
    ensures
        decode_chunks(x + y) == match (decode_chunks(x), decode_chunks(y)) {
            (Some(a), Some(b)) => Some(a + b),
            _ => None,
        },
    decreases y.len(),
{
    if y.len() == 0 {
        assert(x + y =~= x);
        if let Some(a) = decode_chunks(x) {
            assert(a + Seq::<ShardChunkView>::empty() =~= a);
        }
    } else {
        assert((x + y).drop_last() =~= x + y.drop_last());
        assert((x + y).last() == y.last());
        lemma_decode_chunks_concat(x, y.drop_last());
        if let (Some(a), Some(b)) = (decode_chunks(x), decode_chunks(y.drop_last())) {
            if let Some(c) = decode_shard_chunk(y.last().1) {
                assert((a + b).push(c) =~= a + b.push(c));
            }
        }
    }
}

/// What a page read from the store holds, where `all` is what the scan
/// behind it returns uncut and `limit` the size of a page: the chunks that
/// the first `limit` values encode, and the scan's token.
pub open spec fn page_result(
    r: Result<ShardPage, ShardStorageError>,
    all: Seq<(Seq<u8>, Seq<u8>)>,
    limit: nat,
) -> bool {
    match decode_chunks(page_of(all, limit)) {
        Some(chunks) => r matches Ok(page) && page.shard_chunks.deep_view() == chunks
            && opt_bytes_view(page.next_page_token) == token_of(all, limit),
        None => r == Err::<ShardPage, ShardStorageError>(
            ShardStorageError::DbError(DbError::Malformed),
        ),
    }
}

pub fn make_shard_key(block_number: u64) -> (key: Vec<u8>)
    ensures
        key@ == shard_key(block_number),
{
    let mut key: Vec<u8> = Vec::new();
    key.push(SHARD_PREFIX);
    put_u64(&mut key, block_number);
    assert(key@ =~= shard_key(block_number));
    key
}

fn make_shard_keys_end() -> (key: Vec<u8>)
    ensures
        key@ == shard_keys_end(),
{
    let mut key: Vec<u8> = Vec::new();
    key.push(SHARD_PREFIX + 1);
    assert(key@ =~= shard_keys_end());
    key
}

/// The key a scan starts at: `start_prefix`, or the first shard key.
pub open spec fn start_key(start_prefix: Option<Seq<u8>>) -> Seq<u8> {
    match start_prefix {
        Some(k) => k,
        None => shard_key(0),
    }
}

/// The key a scan stops before: `stop_prefix`, or the end of the shard keys.
pub open spec fn stop_key(stop_prefix: Option<Seq<u8>>) -> Seq<u8> {
    match stop_prefix {
        Some(k) => k,
        None => shard_keys_end(),
    }
}

/// One page of the chunks stored under the keys from `start_prefix` on and
/// before `stop_prefix`. Without a bound the scan starts at the first shard
/// key, and stops behind the last.
pub fn get_shard_page_by_prefix(
    db: &Db,
    page_options: &PageOptions,
    start_prefix: Option<Vec<u8>>,
    stop_prefix: Option<Vec<u8>>,
) -> (r: Result<ShardPage, ShardStorageError>)
    ensures
        page_result(
            r,
            scan(
                db@,
                start_key(opt_bytes_view(start_prefix)),
                Some(stop_key(opt_bytes_view(stop_prefix))),
                opt_bytes_view(page_options.page_token),
                page_options.reverse,
            ),
            page_options.limit(),
        ),
        sorted(db@),
{
    let ghost all = scan(
        db@,
        start_key(opt_bytes_view(start_prefix)),
        Some(stop_key(opt_bytes_view(stop_prefix))),
        opt_bytes_view(page_options.page_token),
        page_options.reverse,
    );
    let start = match start_prefix {
        Some(k) => k,
        None => make_shard_key(0),
    };
    let stop = match stop_prefix {
        Some(k) => k,
        None => make_shard_keys_end(),
    };
    let page = db.get_range(&start, &Some(stop), page_options);
    let ghost entries = entry_views(page.entries@);
    let mut shard_chunks: Vec<ShardChunk> = Vec::new();
    let mut i: usize = 0;
    assert(entries.take(0) =~= Seq::<(Seq<u8>, Seq<u8>)>::empty());
    while i < page.entries.len()
        invariant
            i <= page.entries.len(),
            entries == entry_views(page.entries@),
            entries == page_of(all, page_options.limit()),
            all == scan(
                db@,
                start_key(opt_bytes_view(start_prefix)),
                Some(stop_key(opt_bytes_view(stop_prefix))),
                opt_bytes_view(page_options.page_token),
                page_options.reverse,
            ),
            sorted(db@),
            decode_chunks(entries.take(i as int)) == Some(shard_chunks.deep_view()),
        decreases page.entries.len() - i,
    {
        let ghost done = shard_chunks.deep_view();
        proof {
            assert(entries.take(i + 1).drop_last() =~= entries.take(i as int));
            assert(entries.take(i + 1).last() == entries[i as int]);
            assert(entries =~= entries.take(i + 1) + entries.skip(i + 1));
            lemma_decode_chunks_concat(entries.take(i + 1), entries.skip(i + 1));
        }
        match ShardChunk::decode(&page.entries[i].value) {
            Some(chunk) => {
                shard_chunks.push(chunk);
                assert(shard_chunks.deep_view() =~= done.push(chunk@));
            },
            None => {
                return Err(ShardStorageError::DbError(DbError::Malformed));
            },
        }
        i += 1;
    }
    assert(entries.take(page.entries.len() as int) =~= entries);
    Ok(ShardPage { shard_chunks, next_page_token: page.next_page_token })
}

/// The entries of the shard chunks in `s`, in rising order of their keys.
pub open spec fn shard_entries(s: Seq<(Seq<u8>, Seq<u8>)>) -> Seq<(Seq<u8>, Seq<u8>)> {
    scan(s, shard_key(0), Some(shard_keys_end()), None, false)
}

/// The chunk stored under the greatest shard key of `s`: none in a store
/// without shard chunks, an error where the value there encodes no chunk.
pub open spec fn last_chunk(s: Seq<(Seq<u8>, Seq<u8>)>) -> Result<
    Option<ShardChunkView>,
    ShardStorageError,
> {
    let entries = shard_entries(s);
    if entries.len() == 0 {
        Ok(None)
    } else {
        match decode_shard_chunk(entries.last().1) {
            Some(chunk) => Ok(Some(chunk)),
            None => Err(ShardStorageError::DbError(DbError::Malformed)),
        }
    }
}

/// The block number of the last chunk, where it has a header with a height.
pub open spec fn current_height(s: Seq<(Seq<u8>, Seq<u8>)>) -> Result<
    Option<u64>,
    ShardStorageError,
> {
    match last_chunk(s) {
        Ok(Some(chunk)) => Ok(chunk.block_number()),
        Ok(None) => Ok(None),
        Err(e) => Err(e),
    }
}

/// Whether `r` is `expected`, chunk for chunk.
pub open spec fn is_chunk_result(
    r: Result<Option<ShardChunk>, ShardStorageError>,
    expected: Result<Option<ShardChunkView>, ShardStorageError>,
) -> bool {
    match expected {
        Ok(chunk) => r matches Ok(found) && found.deep_view() == chunk,
        Err(e) => r matches Err(found) && found == e,
    }
}

/// The one chunk of a page meant to hold at most one.
pub fn single_shard_chunk(page: ShardPage) -> (r: Result<Option<ShardChunk>, ShardStorageError>)
    ensures
        page.shard_chunks.len() > 1 ==> r == Err::<Option<ShardChunk>, ShardStorageError>(
            ShardStorageError::TooManyShardsInResult,
        ),
        page.shard_chunks.len() == 1 ==> (r matches Ok(Some(chunk)) && chunk@
            == page.shard_chunks@[0]@),
        page.shard_chunks.len() == 0 ==> r == Ok::<Option<ShardChunk>, ShardStorageError>(None),
{
    if page.shard_chunks.len() > 1 {
        return Err(ShardStorageError::TooManyShardsInResult);
    }
    if page.shard_chunks.len() == 1 {
        Ok(Some(page.shard_chunks[0].clone()))
    } else {
        Ok(None)
    }
}

/// The chunk with the greatest block number in the store.
pub fn get_last_shard_chunk(db: &Db) -> (r: Result<Option<ShardChunk>, ShardStorageError>)
    ensures
        is_chunk_result(r, last_chunk(db@)),
        sorted(db@),
{
    let start_block_key = make_shard_key(0);
    let options = PageOptions { reverse: true, page_size: Some(1), page_token: None };
    let ghost down = scan(db@, shard_key(0), Some(shard_keys_end()), None, true);
    let ghost up = shard_entries(db@);
    let shard_page = get_shard_page_by_prefix(db, &options, Some(start_block_key), None);
    proof {
        lemma_scan_reverse(db@, shard_key(0), Some(shard_keys_end()));
        assert(down.len() == up.len());
        if up.len() > 0 {
            assert(down[0] == up.last());
            let first = page_of(down, 1);
            assert(first.len() == 1 && first[0] == up.last());
            assert(first.drop_last() =~= Seq::<(Seq<u8>, Seq<u8>)>::empty());
            assert(decode_chunks(first.drop_last()) == Some(Seq::<ShardChunkView>::empty()));
            assert(first.last() == up.last());
            match decode_shard_chunk(up.last().1) {
                Some(chunk) => {
                    assert(decode_chunks(first) == Some(
                        Seq::<ShardChunkView>::empty().push(chunk),
                    ));
                },
                None => {
                    assert(decode_chunks(first) is None);
                },
            }
        } else {
            assert(page_of(down, 1) =~= Seq::<(Seq<u8>, Seq<u8>)>::empty());
            assert(decode_chunks(page_of(down, 1)) == Some(Seq::<ShardChunkView>::empty()));
        }
    }
    match shard_page {
        Ok(page) => {
            let ghost views = page.shard_chunks.deep_view();
            assert(views.len() == page.shard_chunks.len());
            assert(views.len() == 1 ==> views[0] == page.shard_chunks@[0]@);
            single_shard_chunk(page)
        },
        Err(e) => Err(e),
    }
}

/// The greatest block number in the store, as the header of the last chunk
/// gives it.
pub fn get_current_height(db: &Db) -> (r: Result<Option<u64>, ShardStorageError>)
    ensures
        r == current_height(db@),
        sorted(db@),
{
    let shard_chunk = match get_last_shard_chunk(db) {
        Ok(c) => c,
        Err(e) => { return Err(e); },
    };
    match shard_chunk {
        None => Ok(None),
        Some(shard_chunk) => match shard_chunk.header {
            None => Ok(None),
            Some(header) => match header.height {
                None => Ok(None),
                Some(height) => Ok(Some(height.block_number)),
            },
        },
    }
}

/// What `put_shard_chunk` returns for `chunk`, and the store it leaves:
/// a chunk without a header or without a height is refused and nothing is
/// written; any other is written under the key of its block number.
pub open spec fn put_result(
    r: Result<(), ShardStorageError>,
    before: Seq<(Seq<u8>, Seq<u8>)>,
    after: Seq<(Seq<u8>, Seq<u8>)>,
    chunk: ShardChunkView,
) -> bool {
    match chunk.header {
        None => r == Err::<(), ShardStorageError>(ShardStorageError::ShardMissingHeader) && after
            == before,
        Some(header) => match header.height {
            None => r == Err::<(), ShardStorageError>(ShardStorageError::ShardMissingHeight)
                && after == before,
            Some(height) => r == Ok::<(), ShardStorageError>(()) && after == put_spec(
                before,
                shard_key(height.block_number),
                ser_shard_chunk(chunk),
            ),
        },
    }
}

/// Writes the chunk under the key of its block number, in one transaction.
pub fn put_shard_chunk(db: &mut Db, shard_chunk: ShardChunk) -> (r: Result<(), ShardStorageError>)
    ensures
        put_result(r, old(db)@, final(db)@, shard_chunk@),
        sorted(old(db)@),
        sorted(final(db)@),
{
    // Reading the length brings to light that the store is sorted.
    let _ = db.len();
    let mut txn = Txn::new();
    let header = match &shard_chunk.header {
        Some(h) => h,
        None => { return Err(ShardStorageError::ShardMissingHeader); },
    };
    let height = match &header.height {
        Some(h) => h,
        None => { return Err(ShardStorageError::ShardMissingHeight); },
    };
    let primary_key = make_shard_key(height.block_number);
    let value = shard_chunk.encode_to_vec();
    txn.put(primary_key, value);
    proof {
        let puts = txn@;
        assert(puts.drop_first() =~= Seq::<(Seq<u8>, Seq<u8>)>::empty());
        assert(apply_puts(old(db)@, puts) == apply_puts(
            put_spec(old(db)@, puts[0].0, puts[0].1),
            puts.drop_first(),
        ));
    }
    db.commit(txn);
    Ok(())
}

/// The key a scan by block numbers stops before.
pub open spec fn stop_key_of(stop_block_number: Option<u64>) -> Seq<u8> {
    match stop_block_number {
        Some(n) => shard_key(n),
        None => shard_keys_end(),
    }
}

/// One page of the chunks with a block number from `start_block_number` on
/// and before `stop_block_number`.
pub fn get_shard_chunks_in_range(
    db: &Db,
    page_options: &PageOptions,
    start_block_number: u64,
    stop_block_number: Option<u64>,
) -> (r: Result<ShardPage, ShardStorageError>)
    ensures
        page_result(
            r,
            scan(
                db@,
                shard_key(start_block_number),
                Some(stop_key_of(stop_block_number)),
                opt_bytes_view(page_options.page_token),
                page_options.reverse,
            ),
            page_options.limit(),
        ),
        sorted(db@),
{
    let start_primary_key = make_shard_key(start_block_number);
    let stop_prefix = match stop_block_number {
        Some(block_number) => Some(make_shard_key(block_number)),
        None => None,
    };
    get_shard_page_by_prefix(db, page_options, Some(start_primary_key), stop_prefix)
}

/// The store of one data shard.
pub struct ShardStore {
    db: Db,
}

impl View for ShardStore {
    type V = Seq<(Seq<u8>, Seq<u8>)>;

    closed spec fn view(&self) -> Seq<(Seq<u8>, Seq<u8>)> {
        self.db@
    }
}

/// The entries of the chunks with a block number from `start` on and before
/// `stop`, in rising order of block numbers.
pub open spec fn entries_in_range(s: Seq<(Seq<u8>, Seq<u8>)>, start: u64, stop: Option<u64>) -> Seq<
    (Seq<u8>, Seq<u8>),
> {
    scan(s, shard_key(start), Some(stop_key_of(stop)), None, false)
}

impl ShardStore {
    pub fn new(db: Db) -> (store: ShardStore)
        ensures
            store@ == db@,
    {
        ShardStore { db }
    }

    pub fn put_shard_chunk(&mut self, shard_chunk: ShardChunk) -> (r: Result<
        (),
        ShardStorageError,
    >)
        ensures
            put_result(r, old(self)@, final(self)@, shard_chunk@),
            sorted(old(self)@),
            sorted(final(self)@),
    {
        put_shard_chunk(&mut self.db, shard_chunk)
    }

    pub fn get_last_shard_chunk(&self) -> (r: Result<Option<ShardChunk>, ShardStorageError>)
        ensures
            is_chunk_result(r, last_chunk(self@)),
            sorted(self@),
    {
        get_last_shard_chunk(&self.db)
    }

    /// The bytes stored for the chunk at `block_number`.
    pub fn stored_bytes(&self, block_number: u64) -> (r: Option<Vec<u8>>)
        ensures
            opt_bytes_view(r) == get_spec(self@, shard_key(block_number)),
    {
        let key = make_shard_key(block_number);
        self.db.get(&key)
    }

    /// The greatest block number in the store; 0 where it holds no chunk, or
    /// the last chunk has no header or no height.
    pub fn max_block_number(&self) -> (r: Result<u64, ShardStorageError>)
        ensures
            r == match current_height(self@) {
                Ok(Some(height)) => Ok::<u64, ShardStorageError>(height),
                Ok(None) => Ok(0u64),
                Err(e) => Err(e),
            },
            sorted(self@),
    {
        let current_height = match get_current_height(&self.db) {
            Ok(h) => h,
            Err(e) => { return Err(e); },
        };
        match current_height {
            None => Ok(0),
            Some(height) => Ok(height),
        }
    }

    /// All chunks with a block number from `start_block_number` on and before
    /// `stop_block_number`, in rising order, read page by page.
    pub fn get_shard_chunks(&self, start_block_number: u64, stop_block_number: Option<u64>) -> (r:
        Result<Vec<ShardChunk>, ShardStorageError>)
        ensures
            match decode_chunks(entries_in_range(self@, start_block_number, stop_block_number)) {
                Some(chunks) => r matches Ok(found) && found.deep_view() == chunks,
                None => r matches Err(ShardStorageError::DbError(DbError::Malformed)),
            },
            sorted(self@),
    {
        let ghost all = entries_in_range(self@, start_block_number, stop_block_number);
        let mut shard_chunks: Vec<ShardChunk> = Vec::new();
        let mut options = PageOptions {
            page_size: Some(PAGE_SIZE),
            page_token: None,
            reverse: false,
        };
        let mut done = false;
        let ghost mut k: int = 0;
        // Reading the length brings to light that the store is sorted.
        let _ = self.db.len();
        assert(all.take(0) =~= Seq::<(Seq<u8>, Seq<u8>)>::empty());
        while !done
            invariant
                sorted(self@),
                all == entries_in_range(self@, start_block_number, stop_block_number),
                0 <= k <= all.len(),
                decode_chunks(all.take(k)) == Some(shard_chunks.deep_view()),
                done ==> k == all.len(),
                options.page_size == Some(PAGE_SIZE),
                !options.reverse,
                !done ==> match options.page_token {
                    None => k == 0,
                    Some(t) => 0 < k < all.len() && t@ == all[k - 1].0,
                },
            decreases
                    all.len() - k + if done {
                        0int
                    } else {
                        1int
                    },
        {
            let ghost done_views = shard_chunks.deep_view();
            let ghost rest = scan(
                self@,
                shard_key(start_block_number),
                Some(stop_key_of(stop_block_number)),
                opt_bytes_view(options.page_token),
                false,
            );
            proof {
                if k > 0 {
                    lemma_scan_resume(
                        self@,
                        shard_key(start_block_number),
                        Some(stop_key_of(stop_block_number)),
                        false,
                        k,
                    );
                } else {
                    assert(all.skip(0) =~= all);
                }
                assert(rest == all.skip(k));
                let first = page_of(rest, PAGE_SIZE as nat);
                assert(all.take(k + first.len()) =~= all.take(k) + first);
                lemma_decode_chunks_concat(all.take(k), first);
                assert(all =~= all.take(k + first.len()) + all.skip(k + first.len()));
                lemma_decode_chunks_concat(
                    all.take(k + first.len()),
                    all.skip(k + first.len()),
                );
            }
            let mut page = match get_shard_chunks_in_range(
                &self.db,
                &options,
                start_block_number,
                stop_block_number,
            ) {
                Ok(p) => p,
                Err(e) => { return Err(e); },
            };
            let ghost page_views = page.shard_chunks.deep_view();
            shard_chunks.append(&mut page.shard_chunks);
            assert(shard_chunks.deep_view() =~= done_views + page_views);
            proof {
                k = k + page_of(rest, PAGE_SIZE as nat).len();
            }
            if page.next_page_token.is_none() {
                done = true;
            } else {
                options.page_token = page.next_page_token;
            }
        }
        assert(all.take(k) =~= all);
        Ok(shard_chunks)
    }
}

impl Default for ShardStore {
    /// A store over an empty database.
    fn default() -> (store: ShardStore)
        ensures
            store@ == Seq::<(Seq<u8>, Seq<u8>)>::empty(),
    {
        ShardStore { db: Db::new() }
    }
}

impl Clone for ShardStore {
    /// A store of its own with the same chunks. What is committed to one of
    /// the two afterwards is not in the other.
    fn clone(&self) -> (store: ShardStore)
        ensures
            store@ == self@,
    {
        ShardStore { db: self.db.clone() }
    }
}

} // verus!
