//! Byte-level building blocks of the canonical encoding: fixed-width
//! big-endian integers, presence tags and length-prefixed byte strings.
//!
//! Each item comes as a serialiser (`be_*`, `ser_*`), a parser on the front
//! of a byte sequence (`parse_*`, which hands back the value and the bytes
//! that follow it), the executable pair (`put_*`, `read_*`), and the lemma
//! that parsing undoes serialising.

use vstd::prelude::*;

verus! {

/// The eight bytes of `x`, most significant first.
pub open spec fn be_u64(x: u64) -> Seq<u8> {
    seq![
        ((x >> 56) & 0xff) as u8,
        ((x >> 48) & 0xff) as u8,
        ((x >> 40) & 0xff) as u8,
        ((x >> 32) & 0xff) as u8,
        ((x >> 24) & 0xff) as u8,
        ((x >> 16) & 0xff) as u8,
        ((x >> 8) & 0xff) as u8,
        (x & 0xff) as u8,
    ]
}

/// The number whose big-endian bytes are the first eight of `s`.
pub open spec fn u64_from_be(s: Seq<u8>) -> u64 {
    (s[0] as u64) << 56 | (s[1] as u64) << 48 | (s[2] as u64) << 40 | (s[3] as u64) << 32 | (
    s[4] as u64) << 24 | (s[5] as u64) << 16 | (s[6] as u64) << 8 | (s[7] as u64)
}

/// The four bytes of `x`, most significant first.
pub open spec fn be_u32(x: u32) -> Seq<u8> {
    seq![
        ((x >> 24) & 0xff) as u8,
        ((x >> 16) & 0xff) as u8,
        ((x >> 8) & 0xff) as u8,
        (x & 0xff) as u8,
    ]
}

/// The number whose big-endian bytes are the first four of `s`.
pub open spec fn u32_from_be(s: Seq<u8>) -> u32 {
    (s[0] as u32) << 24 | (s[1] as u32) << 16 | (s[2] as u32) << 8 | (s[3] as u32)
}

pub open spec fn parse_u64(s: Seq<u8>) -> Option<(u64, Seq<u8>)> {
    if s.len() >= 8 {
        Some((u64_from_be(s), s.skip(8)))
    } else {
        None
    }
}

pub open spec fn parse_u32(s: Seq<u8>) -> Option<(u32, Seq<u8>)> {
    if s.len() >= 4 {
        Some((u32_from_be(s), s.skip(4)))
    } else {
        None
    }
}

/// One byte that says whether an optional field follows.
pub open spec fn ser_tag(present: bool) -> Seq<u8> {
    if present {
        seq![1u8]
    } else {
        seq![0u8]
    }
}

/// Only 0 and 1 are tags; any other byte is rejected.
pub open spec fn parse_tag(s: Seq<u8>) -> Option<(bool, Seq<u8>)> {
    if s.len() >= 1 && s[0] <= 1 {
        Some((s[0] == 1, s.skip(1)))
    } else {
        None
    }
}

/// A byte string behind its length.
pub open spec fn ser_bytes(b: Seq<u8>) -> Seq<u8> {
    be_u64(b.len() as u64) + b
}

pub open spec fn parse_bytes(s: Seq<u8>) -> Option<(Seq<u8>, Seq<u8>)> {
    match parse_u64(s) {
        Some((n, rest)) => if n <= rest.len() {
            Some((rest.take(n as int), rest.skip(n as int)))
        } else {
            None
        },
        None => None,
    }
}

/// An optional byte string: a tag, and the string where the tag says so.
pub open spec fn ser_opt_bytes(b: Option<Seq<u8>>) -> Seq<u8> {
    match b {
        Some(b) => ser_tag(true) + ser_bytes(b),
        None => ser_tag(false),
    }
}

pub open spec fn parse_opt_bytes(s: Seq<u8>) -> Option<(Option<Seq<u8>>, Seq<u8>)> {
    match parse_tag(s) {
        Some((true, rest)) => match parse_bytes(rest) {
            Some((b, rest)) => Some((Some(b), rest)),
            None => None,
        },
        Some((false, rest)) => Some((None, rest)),
        None => None,
    }
}

/// Whether a length can be written as a length prefix.
pub open spec fn fits_prefix(len: nat) -> bool {
    len <= u64::MAX
}

pub proof fn lemma_parse_u64(x: u64, rest: Seq<u8>)
    ensures
        parse_u64(be_u64(x) + rest) == Some((x, rest)),
{
    let s = be_u64(x) + rest;
    assert((((x >> 56) & 0xff) as u8 as u64) << 56 | (((x >> 48) & 0xff) as u8 as u64) << 48 | (((x
        >> 40) & 0xff) as u8 as u64) << 40 | (((x >> 32) & 0xff) as u8 as u64) << 32 | (((x >> 24)
        & 0xff) as u8 as u64) << 24 | (((x >> 16) & 0xff) as u8 as u64) << 16 | (((x >> 8)
        & 0xff) as u8 as u64) << 8 | ((x & 0xff) as u8 as u64) == x) by (bit_vector);
    assert(s.skip(8) =~= rest);
}

pub proof fn lemma_parse_u32(x: u32, rest: Seq<u8>)
    ensures
        parse_u32(be_u32(x) + rest) == Some((x, rest)),
{
    let s = be_u32(x) + rest;
    assert((((x >> 24) & 0xff) as u8 as u32) << 24 | (((x >> 16) & 0xff) as u8 as u32) << 16 | (((x
        >> 8) & 0xff) as u8 as u32) << 8 | ((x & 0xff) as u8 as u32) == x) by (bit_vector);
    assert(s.skip(4) =~= rest);
}

pub proof fn lemma_parse_tag(present: bool, rest: Seq<u8>)
    ensures
        parse_tag(ser_tag(present) + rest) == Some((present, rest)),
{
    assert((ser_tag(present) + rest).skip(1) =~= rest);
}

pub proof fn lemma_parse_bytes(b: Seq<u8>, rest: Seq<u8>)
    requires
        fits_prefix(b.len()),
    ensures
        parse_bytes(ser_bytes(b) + rest) == Some((b, rest)),
{
    let n = b.len() as u64;
    assert(ser_bytes(b) + rest =~= be_u64(n) + (b + rest));
    lemma_parse_u64(n, b + rest);
    assert((b + rest).take(n as int) =~= b);
    assert((b + rest).skip(n as int) =~= rest);
}

pub proof fn lemma_parse_opt_bytes(b: Option<Seq<u8>>, rest: Seq<u8>)
    requires
        b matches Some(s) ==> fits_prefix(s.len()),
    ensures
        parse_opt_bytes(ser_opt_bytes(b) + rest) == Some((b, rest)),
{
    match b {
        Some(s) => {
            assert(ser_opt_bytes(b) + rest =~= ser_tag(true) + (ser_bytes(s) + rest));
            lemma_parse_tag(true, ser_bytes(s) + rest);
            lemma_parse_bytes(s, rest);
        },
        None => {
            lemma_parse_tag(false, rest);
        },
    }
}

/// Whether the eight bytes at `i` in `x` stand before those at `i` in `y`,
/// compared from the first on.
pub open spec fn be_lt(x: Seq<u8>, y: Seq<u8>, i: int) -> bool {
    x[i] < y[i] || (x[i] == y[i] && (x[i + 1] < y[i + 1] || (x[i + 1] == y[i + 1] && (x[i + 2]
        < y[i + 2] || (x[i + 2] == y[i + 2] && (x[i + 3] < y[i + 3] || (x[i + 3] == y[i + 3] && (x[i
        + 4] < y[i + 4] || (x[i + 4] == y[i + 4] && (x[i + 5] < y[i + 5] || (x[i + 5] == y[i + 5]
        && (x[i + 6] < y[i + 6] || (x[i + 6] == y[i + 6] && x[i + 7] < y[i + 7])))))))))))))
}

/// Big-endian bytes are ordered as the numbers are: of two numbers the
/// lesser has the lesser byte at the first place where their bytes differ.
pub proof fn lemma_be_u64_order(a: u64, b: u64)
    ensures
        a < b <==> be_lt(be_u64(a), be_u64(b), 0),
        a == b <==> be_u64(a) == be_u64(b),
{
    let a7 = (a >> 56) & 0xff;
    let a6 = (a >> 48) & 0xff;
    let a5 = (a >> 40) & 0xff;
    let a4 = (a >> 32) & 0xff;
    let a3 = (a >> 24) & 0xff;
    let a2 = (a >> 16) & 0xff;
    let a1 = (a >> 8) & 0xff;
    let a0 = a & 0xff;
    let b7 = (b >> 56) & 0xff;
    let b6 = (b >> 48) & 0xff;
    let b5 = (b >> 40) & 0xff;
    let b4 = (b >> 32) & 0xff;
    let b3 = (b >> 24) & 0xff;
    let b2 = (b >> 16) & 0xff;
    let b1 = (b >> 8) & 0xff;
    let b0 = b & 0xff;
    assert(a7 <= 0xff && a6 <= 0xff && a5 <= 0xff && a4 <= 0xff && a3 <= 0xff && a2 <= 0xff && a1
        <= 0xff && a0 <= 0xff) by (bit_vector)
        requires
            a7 == (a >> 56) & 0xff,
            a6 == (a >> 48) & 0xff,
            a5 == (a >> 40) & 0xff,
            a4 == (a >> 32) & 0xff,
            a3 == (a >> 24) & 0xff,
            a2 == (a >> 16) & 0xff,
            a1 == (a >> 8) & 0xff,
            a0 == a & 0xff,
    ;
    assert(b7 <= 0xff && b6 <= 0xff && b5 <= 0xff && b4 <= 0xff && b3 <= 0xff && b2 <= 0xff && b1
        <= 0xff && b0 <= 0xff) by (bit_vector)
        requires
            b7 == (b >> 56) & 0xff,
            b6 == (b >> 48) & 0xff,
            b5 == (b >> 40) & 0xff,
            b4 == (b >> 32) & 0xff,
            b3 == (b >> 24) & 0xff,
            b2 == (b >> 16) & 0xff,
            b1 == (b >> 8) & 0xff,
            b0 == b & 0xff,
    ;
    assert((a < b) == (a7 < b7 || (a7 == b7 && (a6 < b6 || (a6 == b6 && (a5 < b5 || (a5 == b5 && (a4
        < b4 || (a4 == b4 && (a3 < b3 || (a3 == b3 && (a2 < b2 || (a2 == b2 && (a1 < b1 || (a1
        == b1 && a0 < b0))))))))))))))) by (bit_vector)
        requires
            a7 == (a >> 56) & 0xff,
            a6 == (a >> 48) & 0xff,
            a5 == (a >> 40) & 0xff,
            a4 == (a >> 32) & 0xff,
            a3 == (a >> 24) & 0xff,
            a2 == (a >> 16) & 0xff,
            a1 == (a >> 8) & 0xff,
            a0 == a & 0xff,
            b7 == (b >> 56) & 0xff,
            b6 == (b >> 48) & 0xff,
            b5 == (b >> 40) & 0xff,
            b4 == (b >> 32) & 0xff,
            b3 == (b >> 24) & 0xff,
            b2 == (b >> 16) & 0xff,
            b1 == (b >> 8) & 0xff,
            b0 == b & 0xff,
    ;
    let x = be_u64(a);
    let y = be_u64(b);
    assert(x[0] == a7 && x[1] == a6 && x[2] == a5 && x[3] == a4 && x[4] == a3 && x[5] == a2 && x[6]
        == a1 && x[7] == a0);
    assert(y[0] == b7 && y[1] == b6 && y[2] == b5 && y[3] == b4 && y[4] == b3 && y[5] == b2 && y[6]
        == b1 && y[7] == b0);
    if x == y {
        assert(!be_lt(x, y, 0));
        if a != b {
            lemma_parse_u64(a, Seq::empty());
            lemma_parse_u64(b, Seq::empty());
        }
    }
}

/// Appends the big-endian bytes of `x` to `out`.
pub fn put_u64(out: &mut Vec<u8>, x: u64)
    ensures
        final(out)@ == old(out)@ + be_u64(x),
{
    out.push(((x >> 56) & 0xff) as u8);
    out.push(((x >> 48) & 0xff) as u8);
    out.push(((x >> 40) & 0xff) as u8);
    out.push(((x >> 32) & 0xff) as u8);
    out.push(((x >> 24) & 0xff) as u8);
    out.push(((x >> 16) & 0xff) as u8);
    out.push(((x >> 8) & 0xff) as u8);
    out.push((x & 0xff) as u8);
    assert(out@ =~= old(out)@ + be_u64(x));
}

/// Appends the big-endian bytes of `x` to `out`.
pub fn put_u32(out: &mut Vec<u8>, x: u32)
    ensures
        final(out)@ == old(out)@ + be_u32(x),
{
    out.push(((x >> 24) & 0xff) as u8);
    out.push(((x >> 16) & 0xff) as u8);
    out.push(((x >> 8) & 0xff) as u8);
    out.push((x & 0xff) as u8);
    assert(out@ =~= old(out)@ + be_u32(x));
}

pub fn put_tag(out: &mut Vec<u8>, present: bool)
    ensures
        final(out)@ == old(out)@ + ser_tag(present),
{
    if present {
        out.push(1u8);
    } else {
        out.push(0u8);
    }
    assert(out@ =~= old(out)@ + ser_tag(present));
}

/// Appends the bytes of `b` to `out`, unframed.
pub fn put_raw(out: &mut Vec<u8>, b: &Vec<u8>)
    ensures
        final(out)@ == old(out)@ + b@,
{
    let mut i: usize = 0;
    while i < b.len()
        invariant
            i <= b.len(),
            out@ == old(out)@ + b@.take(i as int),
        decreases b.len() - i,
    {
        out.push(b[i]);
        i += 1;
        assert(out@ =~= old(out)@ + b@.take(i as int));
    }
    assert(b@.take(b.len() as int) =~= b@);
}

pub fn put_bytes(out: &mut Vec<u8>, b: &Vec<u8>)
    ensures
        final(out)@ == old(out)@ + ser_bytes(b@),
{
    put_u64(out, b.len() as u64);
    put_raw(out, b);
    assert(out@ =~= old(out)@ + ser_bytes(b@));
}

pub fn put_opt_bytes(out: &mut Vec<u8>, b: &Option<Vec<u8>>)
    ensures
        final(out)@ == old(out)@ + ser_opt_bytes(opt_bytes_view(*b)),
{
    match b {
        Some(v) => {
            put_tag(out, true);
            put_bytes(out, v);
            assert(out@ =~= old(out)@ + ser_opt_bytes(opt_bytes_view(*b)));
        },
        None => {
            put_tag(out, false);
        },
    }
}

/// The contents of an optional byte vector.
pub open spec fn opt_bytes_view(b: Option<Vec<u8>>) -> Option<Seq<u8>> {
    match b {
        Some(v) => Some(v@),
        None => None,
    }
}

/// What a reader that stands at `pos` in a buffer of `len` bytes returns for
/// a parse of the bytes from `pos` on: the same value, and the position at
/// which the rest begins.
pub open spec fn read_matches<T>(
    r: Option<(T, usize)>,
    parsed: Option<(T, Seq<u8>)>,
    buf: Seq<u8>,
    pos: usize,
) -> bool {
    match parsed {
        Some((value, rest)) => r matches Some((v, next)) && v == value && pos <= next <= buf.len()
            && rest == buf.skip(next as int),
        None => r is None,
    }
}

pub fn read_u64(buf: &Vec<u8>, pos: usize) -> (r: Option<(u64, usize)>)
    requires
        pos <= buf.len(),
    ensures
        read_matches(r, parse_u64(buf@.skip(pos as int)), buf@, pos),
{
    if buf.len() - pos < 8 {
        return None;
    }
    let ghost s = buf@.skip(pos as int);
    assert(s[0] == buf@[pos + 0] && s[1] == buf@[pos + 1] && s[2] == buf@[pos + 2] && s[3]
        == buf@[pos + 3] && s[4] == buf@[pos + 4] && s[5] == buf@[pos + 5] && s[6] == buf@[pos
        + 6] && s[7] == buf@[pos + 7]);
    let v: u64 = (buf[pos] as u64) << 56 | (buf[pos + 1] as u64) << 48 | (buf[pos + 2] as u64)
        << 40 | (buf[pos + 3] as u64) << 32 | (buf[pos + 4] as u64) << 24 | (buf[pos + 5] as u64)
        << 16 | (buf[pos + 6] as u64) << 8 | (buf[pos + 7] as u64);
    assert(s.skip(8) =~= buf@.skip(pos + 8));
    Some((v, pos + 8))
}

pub fn read_u32(buf: &Vec<u8>, pos: usize) -> (r: Option<(u32, usize)>)
    requires
        pos <= buf.len(),
    ensures
        read_matches(r, parse_u32(buf@.skip(pos as int)), buf@, pos),
{
    if buf.len() - pos < 4 {
        return None;
    }
    let ghost s = buf@.skip(pos as int);
    assert(s[0] == buf@[pos + 0] && s[1] == buf@[pos + 1] && s[2] == buf@[pos + 2] && s[3]
        == buf@[pos + 3]);
    let v: u32 = (buf[pos] as u32) << 24 | (buf[pos + 1] as u32) << 16 | (buf[pos + 2] as u32)
        << 8 | (buf[pos + 3] as u32);
    assert(s.skip(4) =~= buf@.skip(pos + 4));
    Some((v, pos + 4))
}

pub fn read_tag(buf: &Vec<u8>, pos: usize) -> (r: Option<(bool, usize)>)
    requires
        pos <= buf.len(),
    ensures
        read_matches(r, parse_tag(buf@.skip(pos as int)), buf@, pos),
{
    if pos >= buf.len() {
        return None;
    }
    let ghost s = buf@.skip(pos as int);
    assert(s[0] == buf@[pos + 0]);
    let b: u8 = buf[pos];
    if b > 1 {
        return None;
    }
    assert(s.skip(1) =~= buf@.skip(pos + 1));
    Some((b == 1, pos + 1))
}

/// What a reader of byte strings returns: as `read_matches`, with the vector
/// read holding the bytes parsed.
pub open spec fn read_bytes_matches(
    r: Option<(Vec<u8>, usize)>,
    parsed: Option<(Seq<u8>, Seq<u8>)>,
    buf: Seq<u8>,
    pos: usize,
) -> bool {
    match parsed {
        Some((value, rest)) => r matches Some((v, next)) && v@ == value && pos <= next <= buf.len()
            && rest == buf.skip(next as int),
        None => r is None,
    }
}

pub fn read_bytes(buf: &Vec<u8>, pos: usize) -> (r: Option<(Vec<u8>, usize)>)
    requires
        pos <= buf.len(),
    ensures
        read_bytes_matches(r, parse_bytes(buf@.skip(pos as int)), buf@, pos),
{
    let (n, start) = match read_u64(buf, pos) {
        Some(p) => p,
        None => { return None; },
    };
    if n > (buf.len() - start) as u64 {
        return None;
    }
    let len: usize = n as usize;
    let ghost body = buf@.skip(start as int);
    let mut v: Vec<u8> = Vec::new();
    let mut i: usize = 0;
    while i < len
        invariant
            i <= len,
            start + len <= buf.len(),
            body == buf@.skip(start as int),
            v@ == body.take(i as int),
        decreases len - i,
    {
        assert(body[i as int] == buf@[start + i]);
        v.push(buf[start + i]);
        i += 1;
        assert(v@ =~= body.take(i as int));
    }
    assert(body.skip(len as int) =~= buf@.skip(start + len));
    Some((v, start + len))
}

pub open spec fn read_opt_bytes_matches(
    r: Option<(Option<Vec<u8>>, usize)>,
    parsed: Option<(Option<Seq<u8>>, Seq<u8>)>,
    buf: Seq<u8>,
    pos: usize,
) -> bool {
    match parsed {
        Some((value, rest)) => r matches Some((v, next)) && opt_bytes_view(v) == value && pos
            <= next <= buf.len() && rest == buf.skip(next as int),
        None => r is None,
    }
}

pub fn read_opt_bytes(buf: &Vec<u8>, pos: usize) -> (r: Option<(Option<Vec<u8>>, usize)>)
    requires
        pos <= buf.len(),
    ensures
        read_opt_bytes_matches(r, parse_opt_bytes(buf@.skip(pos as int)), buf@, pos),
{
    let (present, next) = match read_tag(buf, pos) {
        Some(p) => p,
        None => { return None; },
    };
    if !present {
        return Some((None, next));
    }
    match read_bytes(buf, next) {
        Some((v, end)) => Some((Some(v), end)),
        None => None,
    }
}

/// A copy of `b`.
pub fn copy_bytes(b: &Vec<u8>) -> (r: Vec<u8>)
    ensures
        r@ == b@,
{
    let mut r: Vec<u8> = Vec::new();
    put_raw(&mut r, b);
    assert(r@ =~= b@);
    r
}

pub fn copy_opt_bytes(b: &Option<Vec<u8>>) -> (r: Option<Vec<u8>>)
    ensures
        opt_bytes_view(r) == opt_bytes_view(*b),
{
    match b {
        Some(v) => Some(copy_bytes(v)),
        None => None,
    }
}

/// Whether two byte vectors hold the same bytes.
pub fn bytes_eq(a: &Vec<u8>, b: &Vec<u8>) -> (r: bool)
    ensures
        r == (a@ == b@),
{
    if a.len() != b.len() {
        return false;
    }
    let mut i: usize = 0;
    while i < a.len()
        invariant
            i <= a.len(),
            a.len() == b.len(),
            a@.take(i as int) == b@.take(i as int),
        decreases a.len() - i,
    {
        if a[i] != b[i] {
            return false;
        }
        i += 1;
        assert(a@.take(i as int) =~= a@.take(i - 1).push(a@[i - 1]));
        assert(b@.take(i as int) =~= b@.take(i - 1).push(b@[i - 1]));
    }
    assert(a@.take(a.len() as int) =~= a@);
    assert(b@.take(b.len() as int) =~= b@);
    true
}

} // verus!
