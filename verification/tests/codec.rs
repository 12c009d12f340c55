use snapchain::proto::{Block, BlockHeader, ShardChunk, ShardHeader, Transaction};
use snapchain::types::Height;
use snapchain::wire::{
    bytes_eq, put_bytes, put_opt_bytes, put_tag, put_u32, put_u64, read_bytes, read_opt_bytes,
    read_tag, read_u32, read_u64,
};

fn header() -> ShardHeader {
    ShardHeader {
        parent_hash: vec![1, 2],
        timestamp: 3,
        height: Some(Height::new(1, 2)),
        shard_root: vec![9],
    }
}

fn chunk(block_number: u64) -> ShardChunk {
    let header = ShardHeader {
        parent_hash: vec![7u8; 32],
        timestamp: 500,
        height: Some(Height::new(2, block_number)),
        shard_root: vec![8u8; 32],
    };
    let hash = header.hash();
    ShardChunk {
        header: Some(header),
        hash,
        transactions: vec![
            Transaction { fid: 1, payload: vec![] },
            Transaction { fid: u64::MAX, payload: vec![0, 255, 1] },
        ],
        votes: Some(vec![5, 5]),
    }
}

#[test]
fn u64_is_eight_bytes_big_endian() {
    let mut out = vec![0xaa];
    put_u64(&mut out, 0x0102030405060708);
    assert_eq!(out, vec![0xaa, 1, 2, 3, 4, 5, 6, 7, 8]);
    assert_eq!(read_u64(&out, 1), Some((0x0102030405060708, 9)));
    assert_eq!(read_u64(&out, 2), None);
    let mut out = Vec::new();
    put_u64(&mut out, u64::MAX);
    assert_eq!(out, vec![255; 8]);
    assert_eq!(read_u64(&out, 0), Some((u64::MAX, 8)));
}

#[test]
fn u32_is_four_bytes_big_endian() {
    let mut out = Vec::new();
    put_u32(&mut out, 0xdeadbeef);
    assert_eq!(out, vec![0xde, 0xad, 0xbe, 0xef]);
    assert_eq!(read_u32(&out, 0), Some((0xdeadbeef, 4)));
    assert_eq!(read_u32(&out, 1), None);
}

#[test]
fn tag_is_zero_or_one() {
    let mut out = Vec::new();
    put_tag(&mut out, true);
    put_tag(&mut out, false);
    out.push(2);
    assert_eq!(out, vec![1, 0, 2]);
    assert_eq!(read_tag(&out, 0), Some((true, 1)));
    assert_eq!(read_tag(&out, 1), Some((false, 2)));
    assert_eq!(read_tag(&out, 2), None);
    assert_eq!(read_tag(&out, 3), None);
}

#[test]
fn bytes_stand_behind_their_length() {
    let mut out = Vec::new();
    put_bytes(&mut out, &vec![4, 5, 6]);
    assert_eq!(out, vec![0, 0, 0, 0, 0, 0, 0, 3, 4, 5, 6]);
    assert_eq!(read_bytes(&out, 0), Some((vec![4, 5, 6], 11)));
    out.pop();
    assert_eq!(read_bytes(&out, 0), None);
    let mut empty = Vec::new();
    put_bytes(&mut empty, &vec![]);
    assert_eq!(empty, vec![0; 8]);
    assert_eq!(read_bytes(&empty, 0), Some((vec![], 8)));
}

#[test]
fn length_beyond_the_buffer_is_rejected() {
    let buf = vec![255u8; 8];
    assert_eq!(read_bytes(&buf, 0), None);
}

#[test]
fn optional_bytes_stand_behind_a_tag() {
    let mut out = Vec::new();
    put_opt_bytes(&mut out, &Some(vec![9]));
    put_opt_bytes(&mut out, &None);
    assert_eq!(out, vec![1, 0, 0, 0, 0, 0, 0, 0, 1, 9, 0]);
    assert_eq!(read_opt_bytes(&out, 0), Some((Some(vec![9]), 10)));
    assert_eq!(read_opt_bytes(&out, 10), Some((None, 11)));
}

#[test]
fn bytes_eq_compares_contents() {
    assert!(bytes_eq(&vec![1, 2], &vec![1, 2]));
    assert!(!bytes_eq(&vec![1, 2], &vec![1, 3]));
    assert!(!bytes_eq(&vec![1, 2], &vec![1]));
    assert!(bytes_eq(&vec![], &vec![]));
}

#[test]
fn shard_header_encoding_is_its_fields_in_order() {
    let expected: Vec<u8> = vec![
        0, 0, 0, 0, 0, 0, 0, 2, 1, 2, // parent hash
        0, 0, 0, 0, 0, 0, 0, 3, // timestamp
        1, 0, 0, 0, 1, 0, 0, 0, 0, 0, 0, 0, 2, // height
        0, 0, 0, 0, 0, 0, 0, 1, 9, // shard root
    ];
    assert_eq!(header().encode_to_vec(), expected);
}

#[test]
fn shard_header_without_height_has_a_zero_tag() {
    let mut h = header();
    h.height = None;
    let expected: Vec<u8> = vec![
        0, 0, 0, 0, 0, 0, 0, 2, 1, 2, 0, 0, 0, 0, 0, 0, 0, 3, 0, 0, 0, 0, 0, 0, 0, 0, 1, 9,
    ];
    assert_eq!(h.encode_to_vec(), expected);
}

#[test]
fn block_header_encoding_is_its_fields_in_order() {
    let h = BlockHeader {
        parent_hash: vec![1],
        chain_id: 2,
        version: 3,
        shard_headers_hash: vec![],
        validators_hash: vec![4],
        timestamp: 5,
        height: Some(Height::new(0, 6)),
    };
    let expected: Vec<u8> = vec![
        0, 0, 0, 0, 0, 0, 0, 1, 1, // parent hash
        0, 0, 0, 2, // chain id
        0, 0, 0, 3, // version
        0, 0, 0, 0, 0, 0, 0, 0, // shard headers hash
        0, 0, 0, 0, 0, 0, 0, 1, 4, // validators hash
        0, 0, 0, 0, 0, 0, 0, 5, // timestamp
        1, 0, 0, 0, 0, 0, 0, 0, 0, 0, 0, 0, 6, // height
    ];
    assert_eq!(h.encode_to_vec(), expected);
}

#[test]
fn shard_header_hash_is_blake3_of_the_encoding() {
    let h = header();
    let digest = h.hash();
    assert_eq!(digest.len(), 32);
    assert_eq!(digest, blake3::hash(&h.encode_to_vec()).as_bytes().to_vec());
    assert_ne!(digest, h.encode_to_vec());
}

#[test]
fn block_header_hash_is_blake3_of_the_encoding() {
    let h = BlockHeader {
        parent_hash: vec![0; 32],
        chain_id: 0,
        version: 0,
        shard_headers_hash: vec![],
        validators_hash: vec![],
        timestamp: 77,
        height: Some(Height::new(0, 1)),
    };
    assert_eq!(h.hash(), blake3::hash(&h.encode_to_vec()).as_bytes().to_vec());
}

#[test]
fn hash_of_the_empty_input_is_the_known_digest() {
    // A header cannot encode to nothing, so the known vector is checked on
    // the crate the library calls, and the library against the crate above.
    let known = "af1349b9f5f9a1a6a0404dea36dcc9499bcb25c9adc112b7cc9a93cae41f3262";
    assert_eq!(blake3::hash(&[]).to_hex().as_str(), known);
}

#[test]
fn shard_chunk_round_trips() {
    let c = chunk(4);
    assert_eq!(ShardChunk::decode(&c.encode_to_vec()), Some(c));
}

#[test]
fn shard_chunk_without_optional_parts_round_trips() {
    let c = ShardChunk { header: None, hash: vec![], transactions: vec![], votes: None };
    let encoded = c.encode_to_vec();
    assert_eq!(encoded, vec![0, 0, 0, 0, 0, 0, 0, 0, 0, 0, 0, 0, 0, 0, 0, 0, 0, 0]);
    assert_eq!(ShardChunk::decode(&encoded), Some(c));
}

#[test]
fn block_round_trips() {
    let header = BlockHeader {
        parent_hash: vec![3; 32],
        chain_id: 1,
        version: 2,
        shard_headers_hash: vec![1, 2, 3],
        validators_hash: vec![4, 5],
        timestamp: 99,
        height: Some(Height::new(0, 12)),
    };
    let hash = header.hash();
    let b = Block {
        header: Some(header),
        hash,
        validators: Some(vec![1]),
        votes: None,
        shard_chunks: vec![chunk(12), chunk(12), chunk(13)],
    };
    assert_eq!(Block::decode(&b.encode_to_vec()), Some(b));
    let empty =
        Block { header: None, hash: vec![], validators: None, votes: None, shard_chunks: vec![] };
    assert_eq!(Block::decode(&empty.encode_to_vec()), Some(empty));
}

#[test]
fn truncated_encodings_decode_to_nothing() {
    let encoded = chunk(1).encode_to_vec();
    for n in 0..encoded.len() {
        assert_eq!(ShardChunk::decode(&encoded[..n].to_vec()), None, "prefix of {} bytes", n);
    }
}

#[test]
fn trailing_bytes_decode_to_nothing() {
    let mut encoded = chunk(1).encode_to_vec();
    encoded.push(0);
    assert_eq!(ShardChunk::decode(&encoded), None);
}

#[test]
fn a_tag_other_than_zero_or_one_decodes_to_nothing() {
    let mut encoded = chunk(1).encode_to_vec();
    assert_eq!(encoded[0], 1);
    encoded[0] = 2;
    assert_eq!(ShardChunk::decode(&encoded), None);
}

#[test]
fn a_transaction_count_beyond_the_buffer_decodes_to_nothing() {
    let c = ShardChunk { header: None, hash: vec![], transactions: vec![], votes: None };
    let mut encoded = c.encode_to_vec();
    // header tag, eight bytes of hash length, then the transaction count
    encoded[9] = 255;
    assert_eq!(ShardChunk::decode(&encoded), None);
}

#[test]
fn different_chunks_have_different_encodings() {
    let a = chunk(1);
    let mut b = chunk(1);
    b.transactions[0].fid = 2;
    assert_ne!(a.encode_to_vec(), b.encode_to_vec());
    let mut c = chunk(1);
    c.votes = None;
    assert_ne!(a.encode_to_vec(), c.encode_to_vec());
}

#[test]
fn clone_keeps_every_field() {
    let c = chunk(3);
    assert_eq!(c.clone(), c);
    assert_eq!(c.block_number(), Some(3));
    let none = ShardChunk { header: None, hash: vec![], transactions: vec![], votes: None };
    assert_eq!(none.block_number(), None);
}
