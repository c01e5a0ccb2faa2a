//! Big-endian integer encodings: the bytes an integer is written as, the
//! integer some bytes denote, and the calls into `byteorder` that compute
//! them.
use byteorder::{BigEndian, ByteOrder, WriteBytesExt};
use vstd::prelude::*;

verus! {

/// The value of two bytes read as a big-endian `u16`.
pub open spec fn u16_of(b0: u8, b1: u8) -> u16 {
    (((b0 as u16) << 8u16) | (b1 as u16)) as u16
}

/// The value of three bytes read as a big-endian 24-bit integer.
pub open spec fn u24_of(b0: u8, b1: u8, b2: u8) -> u32 {
    (((b0 as u32) << 16u32) | ((b1 as u32) << 8u32) | (b2 as u32)) as u32
}

/// The value of four bytes read as a big-endian `u32`.
pub open spec fn u32_of(b0: u8, b1: u8, b2: u8, b3: u8) -> u32 {
    (((b0 as u32) << 24u32) | ((b1 as u32) << 16u32) | ((b2 as u32) << 8u32) | (b3 as u32)) as u32
}

/// The value of eight bytes read as a big-endian `u64`.
pub open spec fn u64_of(b: Seq<u8>) -> u64 {
    (((u32_of(b[0], b[1], b[2], b[3]) as u64) << 32u64) | (u32_of(b[4], b[5], b[6], b[7]) as u64)) as u64
}

/// The two bytes of `v` in big-endian order.
pub open spec fn u16_bytes(v: u16) -> Seq<u8> {
    seq![(v >> 8u16) as u8, v as u8]
}

/// The three low bytes of `v` in big-endian order.
pub open spec fn u24_bytes(v: u32) -> Seq<u8> {
    seq![(v >> 16u32) as u8, (v >> 8u32) as u8, v as u8]
}

/// The four bytes of `v` in big-endian order.
pub open spec fn u32_bytes(v: u32) -> Seq<u8> {
    seq![(v >> 24u32) as u8, (v >> 16u32) as u8, (v >> 8u32) as u8, v as u8]
}

/// The eight bytes of `v` in big-endian order.
pub open spec fn u64_bytes(v: u64) -> Seq<u8> {
    u32_bytes((v >> 32u64) as u32) + u32_bytes(v as u32)
}

/// Splits a leading byte off `s`.
pub open spec fn take_u8(s: Seq<u8>) -> Option<(u8, Seq<u8>)> {
    if s.len() >= 1 {
        Some((s[0], s.skip(1)))
    } else {
        None
    }
}

/// Splits a leading big-endian `u16` off `s`.
pub open spec fn take_u16(s: Seq<u8>) -> Option<(u16, Seq<u8>)> {
    if s.len() >= 2 {
        Some((u16_of(s[0], s[1]), s.skip(2)))
    } else {
        None
    }
}

/// Splits a leading big-endian 24-bit integer off `s`.
pub open spec fn take_u24(s: Seq<u8>) -> Option<(u32, Seq<u8>)> {
    if s.len() >= 3 {
        Some((u24_of(s[0], s[1], s[2]), s.skip(3)))
    } else {
        None
    }
}

/// Splits a leading big-endian `u32` off `s`.
pub open spec fn take_u32(s: Seq<u8>) -> Option<(u32, Seq<u8>)> {
    if s.len() >= 4 {
        Some((u32_of(s[0], s[1], s[2], s[3]), s.skip(4)))
    } else {
        None
    }
}

/// Splits a leading big-endian `u64` off `s`.
pub open spec fn take_u64(s: Seq<u8>) -> Option<(u64, Seq<u8>)> {
    if s.len() >= 8 {
        Some((u64_of(s), s.skip(8)))
    } else {
        None
    }
}

/// Splits the leading `n` bytes off `s`.
pub open spec fn take_bytes(s: Seq<u8>, n: int) -> Option<(Seq<u8>, Seq<u8>)> {
    if 0 <= n <= s.len() {
        Some((s.take(n), s.skip(n)))
    } else {
        None
    }
}

#[verifier::spinoff_prover]
pub proof fn lemma_u16_roundtrip(v: u16)
    ensures
        u16_of((v >> 8u16) as u8, v as u8) == v,
{
    assert((((((v >> 8u16) as u8) as u16) << 8u16) | ((v as u8) as u16)) as u16 == v) by (bit_vector);
}

#[verifier::spinoff_prover]
pub proof fn lemma_u24_roundtrip(v: u32)
    requires
        v < 0x1000000,
    ensures
        u24_of((v >> 16u32) as u8, (v >> 8u32) as u8, v as u8) == v,
{
    assert(v < 0x1000000 ==> (((((v >> 16u32) as u8) as u32) << 16u32) | ((((v >> 8u32) as u8) as u32) << 8u32) | ((v as u8) as u32)) as u32 == v) by (bit_vector);
}

#[verifier::spinoff_prover]
pub proof fn lemma_u32_roundtrip(v: u32)
    ensures
        u32_of((v >> 24u32) as u8, (v >> 16u32) as u8, (v >> 8u32) as u8, v as u8) == v,
{
    assert((((((v >> 24u32) as u8) as u32) << 24u32) | ((((v >> 16u32) as u8) as u32) << 16u32) | ((((v >> 8u32) as u8) as u32) << 8u32) | ((v as u8) as u32)) as u32 == v) by (bit_vector);
}

#[verifier::spinoff_prover]
pub proof fn lemma_u64_split(v: u64)
    ensures
        ((((v >> 32u64) as u32) as u64) << 32u64 | ((v as u32) as u64)) as u64 == v,
{
    assert(((((v >> 32u64) as u32) as u64) << 32u64 | ((v as u32) as u64)) as u64 == v) by (bit_vector);
}

/// Reading back the two bytes of `v` gives `v` and leaves what followed.
pub broadcast proof fn lemma_take_u16(v: u16, rest: Seq<u8>)
    ensures
        #[trigger] take_u16(u16_bytes(v) + rest) == Some((v, rest)),
{
    lemma_u16_roundtrip(v);
    assert((u16_bytes(v) + rest).skip(2) =~= rest);
}

/// Reading back the three bytes of a 24-bit `v` gives `v` and leaves what followed.
pub broadcast proof fn lemma_take_u24(v: u32, rest: Seq<u8>)
    requires
        v < 0x1000000,
    ensures
        #[trigger] take_u24(u24_bytes(v) + rest) == Some((v, rest)),
{
    lemma_u24_roundtrip(v);
    assert((u24_bytes(v) + rest).skip(3) =~= rest);
}

/// Reading back the four bytes of `v` gives `v` and leaves what followed.
pub broadcast proof fn lemma_take_u32(v: u32, rest: Seq<u8>)
    ensures
        #[trigger] take_u32(u32_bytes(v) + rest) == Some((v, rest)),
{
    lemma_u32_roundtrip(v);
    assert((u32_bytes(v) + rest).skip(4) =~= rest);
}

/// Reading back the eight bytes of `v` gives `v` and leaves what followed.
pub broadcast proof fn lemma_take_u64(v: u64, rest: Seq<u8>)
    ensures
        #[trigger] take_u64(u64_bytes(v) + rest) == Some((v, rest)),
{
    let s = u64_bytes(v) + rest;
    lemma_u32_roundtrip((v >> 32u64) as u32);
    lemma_u32_roundtrip(v as u32);
    lemma_u64_split(v);
    assert(s.skip(8) =~= rest);
    assert(u32_of(s[0], s[1], s[2], s[3]) == (v >> 32u64) as u32);
    assert(u32_of(s[4], s[5], s[6], s[7]) == v as u32);
}

/// The eight bytes of `v` denote `v`.
#[verifier::spinoff_prover]
pub proof fn lemma_u64_of_bytes(v: u64)
    ensures
        u64_of(u64_bytes(v)) == v,
        u64_bytes(v).len() == 8,
{
    lemma_take_u64(v, Seq::empty());
    assert(u64_bytes(v) + Seq::<u8>::empty() =~= u64_bytes(v));
}

/// Reading back a byte gives it and leaves what followed.
pub broadcast proof fn lemma_take_u8(v: u8, rest: Seq<u8>)
    ensures
        #[trigger] take_u8(seq![v] + rest) == Some((v, rest)),
{
    assert((seq![v] + rest).skip(1) =~= rest);
}

/// Reading back `n` bytes gives them and leaves what followed.
pub broadcast proof fn lemma_take_bytes(b: Seq<u8>, rest: Seq<u8>)
    ensures
        #[trigger] take_bytes(b + rest, b.len() as int) == Some((b, rest)),
{
    assert((b + rest).take(b.len() as int) =~= b);
    assert((b + rest).skip(b.len() as int) =~= rest);
}

pub broadcast group group_take_lemmas {
    lemma_take_u8,
    lemma_take_u16,
    lemma_take_u24,
    lemma_take_u32,
    lemma_take_u64,
    lemma_take_bytes,
}

/// Calls `byteorder::BigEndian::read_u16` on the two bytes of `data` at `i`;
/// the contract claims the big-endian value of those bytes.
#[verifier::external_body]
pub(crate) fn be_read_u16(data: &[u8], i: usize) -> (res: u16)
    requires
        i + 2 <= data@.len(),
    ensures
        res == u16_of(data@[i as int], data@[i + 1]),
{
    BigEndian::read_u16(&data[i..])
}

/// Calls `byteorder::BigEndian::read_u24` on the three bytes of `data` at
/// `i`; the contract claims the big-endian value of those bytes.
#[verifier::external_body]
pub(crate) fn be_read_u24(data: &[u8], i: usize) -> (res: u32)
    requires
        i + 3 <= data@.len(),
    ensures
        res == u24_of(data@[i as int], data@[i + 1], data@[i + 2]),
{
    BigEndian::read_u24(&data[i..])
}

/// Calls `byteorder::BigEndian::read_u32` on the four bytes of `data` at `i`;
/// the contract claims the big-endian value of those bytes.
#[verifier::external_body]
pub(crate) fn be_read_u32(data: &[u8], i: usize) -> (res: u32)
    requires
        i + 4 <= data@.len(),
    ensures
        res == u32_of(data@[i as int], data@[i + 1], data@[i + 2], data@[i + 3]),
{
    BigEndian::read_u32(&data[i..])
}

/// Calls `byteorder::BigEndian::read_u64` on the eight bytes of `data` at
/// `i`; the contract claims the big-endian value of those bytes.
#[verifier::external_body]
pub(crate) fn be_read_u64(data: &[u8], i: usize) -> (res: u64)
    requires
        i + 8 <= data@.len(),
    ensures
        res == u64_of(data@.subrange(i as int, i + 8)),
{
    BigEndian::read_u64(&data[i..])
}

/// Calls `byteorder::WriteBytesExt::write_u16::<BigEndian>` on a vector,
/// which appends the two big-endian bytes of `v` (writing to a `Vec<u8>`
/// does not fail).
#[verifier::external_body]
pub(crate) fn be_write_u16(buf: &mut Vec<u8>, v: u16)
    ensures
        final(buf)@ == old(buf)@ + u16_bytes(v),
{
    let _ = buf.write_u16::<BigEndian>(v);
}

/// Calls `byteorder::WriteBytesExt::write_u24::<BigEndian>` on a vector,
/// which appends the three big-endian bytes of `v`; it panics (an assertion
/// in `write_uint`) where `v` does not fit in 24 bits, which the contract
/// leaves out.
#[verifier::external_body]
pub(crate) fn be_write_u24(buf: &mut Vec<u8>, v: u32)
    requires
        v < 0x1000000,
    ensures
        final(buf)@ == old(buf)@ + u24_bytes(v),
{
    let _ = buf.write_u24::<BigEndian>(v);
}

/// Calls `byteorder::WriteBytesExt::write_u32::<BigEndian>` on a vector,
/// which appends the four big-endian bytes of `v`.
#[verifier::external_body]
pub(crate) fn be_write_u32(buf: &mut Vec<u8>, v: u32)
    ensures
        final(buf)@ == old(buf)@ + u32_bytes(v),
{
    let _ = buf.write_u32::<BigEndian>(v);
}

/// Calls `byteorder::WriteBytesExt::write_u64::<BigEndian>` on a vector,
/// which appends the eight big-endian bytes of `v`.
#[verifier::external_body]
pub(crate) fn be_write_u64(buf: &mut Vec<u8>, v: u64)
    ensures
        final(buf)@ == old(buf)@ + u64_bytes(v),
{
    let _ = buf.write_u64::<BigEndian>(v);
}

/// Calls `byteorder::BigEndian::read_i32` on the four bytes of `data` at `i`,
/// which reads them as a big-endian `u32` and reinterprets it as an `i32`.
#[verifier::external_body]
pub(crate) fn be_read_i32(data: &[u8], i: usize) -> (res: i32)
    requires
        i + 4 <= data@.len(),
    ensures
        res == u32_of(data@[i as int], data@[i + 1], data@[i + 2], data@[i + 3]) as i32,
{
    BigEndian::read_i32(&data[i..])
}

/// Calls `byteorder::WriteBytesExt::write_i32::<BigEndian>` on a vector,
/// which appends the four big-endian bytes of `v` taken as a `u32`.
#[verifier::external_body]
pub(crate) fn be_write_i32(buf: &mut Vec<u8>, v: i32)
    ensures
        final(buf)@ == old(buf)@ + u32_bytes(v as u32),
{
    let _ = buf.write_i32::<BigEndian>(v);
}

/// Calls `byteorder::BigEndian::read_i16` on the two bytes of `data` at `i`,
/// which reads them as a big-endian `u16` and reinterprets it as an `i16`.
#[verifier::external_body]
pub(crate) fn be_read_i16(data: &[u8], i: usize) -> (res: i16)
    requires
        i + 2 <= data@.len(),
    ensures
        res == u16_of(data@[i as int], data@[i + 1]) as i16,
{
    BigEndian::read_i16(&data[i..])
}

/// Calls `byteorder::WriteBytesExt::write_i16::<BigEndian>` on a vector,
/// which appends the two big-endian bytes of `v` taken as a `u16`.
#[verifier::external_body]
pub(crate) fn be_write_i16(buf: &mut Vec<u8>, v: i16)
    ensures
        final(buf)@ == old(buf)@ + u16_bytes(v as u16),
{
    let _ = buf.write_i16::<BigEndian>(v);
}

} // verus!
