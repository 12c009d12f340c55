//! BLAKE3 hashing of encoded headers.

use crate::codec::{put_block_header, put_shard_header};
use crate::format::{ser_block_header, ser_shard_header};
use crate::proto::{BlockHeader, ShardHeader};
use vstd::prelude::*;

verus! {

/// The BLAKE3 digest of `input`, as `blake3::hash` computes it.
pub uninterp spec fn blake3_digest(input: Seq<u8>) -> Seq<u8>;

/// Calls `blake3::hash` on `input` and copies the 32 bytes of the `Hash` it
/// returns. Trusted: the result is the digest of exactly the bytes given, and
/// it is 32 bytes long (`blake3::OUT_LEN`).
#[verifier::external_body]
pub(crate) fn blake3_hash(input: &Vec<u8>) -> (digest: Vec<u8>)
    ensures
        digest@ == blake3_digest(input@),
        digest@.len() == 32,
{
    blake3::hash(input.as_slice()).as_bytes().to_vec()
}

impl ShardHeader {
    /// The hash that names a chunk with this header: the BLAKE3 digest of
    /// the header's canonical encoding.
    pub fn hash(&self) -> (digest: Vec<u8>)
        ensures
            digest@ == blake3_digest(ser_shard_header(self@)),
            digest@.len() == 32,
    {
        let mut encoded: Vec<u8> = Vec::new();
        put_shard_header(&mut encoded, self);
        assert(encoded@ =~= ser_shard_header(self@));
        blake3_hash(&encoded)
    }
}

impl BlockHeader {
    /// The hash that names a block with this header: the BLAKE3 digest of
    /// the header's canonical encoding.
    pub fn hash(&self) -> (digest: Vec<u8>)
        ensures
            digest@ == blake3_digest(ser_block_header(self@)),
            digest@.len() == 32,
    {
        let mut encoded: Vec<u8> = Vec::new();
        put_block_header(&mut encoded, self);
        assert(encoded@ =~= ser_block_header(self@));
        blake3_hash(&encoded)
    }
}

} // verus!
