//! Box headers and what every box decoder and encoder shares.
use crate::bigendian::{
    be_write_u24, be_write_u32, be_write_u64, group_take_lemmas, lemma_u16_roundtrip, lemma_u32_roundtrip,
    lemma_u64_of_bytes, take_u24, take_u8, u16_bytes, u16_of, u24_bytes,
    u24_of, u32_bytes, u32_of, u64_bytes, u64_of,
};
use crate::error::{Error, Result};
use crate::reader::Reader;
use crate::types::{box_type_code, box_type_of, BoxType};
use vstd::prelude::*;

pub mod adrm;
pub mod avc1;
pub mod co64;
pub mod descriptor;
pub mod dinf;
pub mod emsg;
pub mod enca;
pub mod encv;
pub mod frma;
pub mod ftyp;
pub mod gps;
pub mod hdlr;
pub mod ilst;
pub mod mehd;
pub mod meta;
pub mod mfhd;
pub mod moof;
pub mod mp4a;
pub mod mvex;
pub mod mvhd;
pub mod opus;
pub mod pssh;
pub mod saio;
pub mod saiz;
pub mod schi;
pub mod schm;
pub mod sinf;
pub mod senc;
pub mod smhd;
pub mod stsc;
pub mod stsd;
pub mod stts;
pub mod tenc;
pub mod tfdt;
pub mod tfhd;
pub mod tkhd;
pub mod traf;
pub mod trex;
pub mod trun;
pub mod tx3g;
pub mod uuid;
pub mod vmhd;
pub mod vp09;
pub mod vpcc;

verus! {

broadcast use group_take_lemmas;

/// The size of a box header without a large size.
pub const HEADER_SIZE: u64 = 8;

/// The size of the version and flags that follow the header of a full box.
pub const HEADER_EXT_SIZE: u64 = 4;

/// The type and size of a box.
#[derive(Debug, Clone, Copy, PartialEq, Eq, Structural)]
pub struct BoxHeader {
    pub name: BoxType,
    pub size: u64,
}

/// The big-endian `u16` at offset `i` of `s`.
pub open spec fn be16_at(s: Seq<u8>, i: int) -> u16 {
    u16_of(s[i], s[i + 1])
}

/// The big-endian 24-bit integer at offset `i` of `s`.
pub open spec fn be24_at(s: Seq<u8>, i: int) -> u32 {
    u24_of(s[i], s[i + 1], s[i + 2])
}

/// The big-endian `u32` at offset `i` of `s`.
pub open spec fn be32_at(s: Seq<u8>, i: int) -> u32 {
    u32_of(s[i], s[i + 1], s[i + 2], s[i + 3])
}

/// The big-endian `u64` at offset `i` of `s`.
pub open spec fn be64_at(s: Seq<u8>, i: int) -> u64 {
    u64_of(s.subrange(i, i + 8))
}

/// The bytes of a box header: the size as a `u32` and the type, or, where
/// the size does not fit in a `u32`, the marker 1, the type and the size as
/// a `u64`.
pub open spec fn header_bytes(name: BoxType, size: u64) -> Seq<u8> {
    if size > u32::MAX {
        u32_bytes(1) + u32_bytes(box_type_code(name)) + u64_bytes(size)
    } else {
        u32_bytes(size as u32) + u32_bytes(box_type_code(name))
    }
}

/// The header at the start of `s` and the number of bytes it takes. A
/// 32-bit size of 1 announces a 64-bit size after the type; the header then
/// reports that size less the 8 bytes of the short header.
pub open spec fn parse_header(s: Seq<u8>) -> Result<(BoxHeader, int)> {
    if s.len() < 8 {
        Err(Error::IoError)
    } else {
        let size = be32_at(s, 0);
        let name = box_type_of(be32_at(s, 4));
        if size == 1 {
            if s.len() < 16 {
                Err(Error::IoError)
            } else if be64_at(s, 8) < HEADER_SIZE {
                Err(Error::InvalidData("box size too small"))
            } else {
                Ok((BoxHeader { name, size: (be64_at(s, 8) - HEADER_SIZE) as u64 }, 16))
            }
        } else {
            Ok((BoxHeader { name, size: size as u64 }, 8))
        }
    }
}

/// The version and the 24-bit flags that open the body of a full box.
pub open spec fn ext_bytes(version: u8, flags: u32) -> Seq<u8> {
    seq![version] + u24_bytes(flags)
}

/// `p` where the box that starts at `start` and is `size` bytes long ends at
/// a position that a `u64` can hold, else the error for that position.
pub open spec fn box_result<V>(p: Result<V>, start: int, size: u64) -> Result<V> {
    match p {
        Ok(v) => if start + size <= u64::MAX {
            Ok(v)
        } else {
            Err(Error::InvalidData("box end out of range"))
        },
        Err(e) => Err(e),
    }
}

/// `res` is `expected`, comparing a decoded value by its view.
pub open spec fn read_outcome<T: View>(res: Result<T>, expected: Result<T::V>) -> bool {
    match res {
        Ok(b) => expected == Ok::<T::V, Error>(b@),
        Err(e) => expected == Err::<T::V, Error>(e),
    }
}

impl BoxHeader {
    pub fn new(name: BoxType, size: u64) -> (h: BoxHeader)
        ensures
            h == (BoxHeader { name, size }),
    {
        BoxHeader { name, size }
    }

    /// Reads a box header.
    pub fn read(reader: &mut Reader) -> (res: Result<BoxHeader>)
        ensures
            final(reader).data_seq() == old(reader).data_seq(),
            match res {
                Ok(h) => parse_header(old(reader).rem()) matches Ok((h2, n))
                    && h == h2 && final(reader).pos() == old(reader).pos() + n
                    && final(reader).rem() == old(reader).rem().skip(n),
                Err(e) => parse_header(old(reader).rem()) == Err::<(BoxHeader, int), Error>(e),
            },
    {
        let size = reader.read_u32()?;
        let typ = reader.read_u32()?;
        if size == 1 {
            let largesize = reader.read_u64()?;
            if largesize < HEADER_SIZE {
                return Err(Error::InvalidData("box size too small"));
            }
            proof {
                assert(old(reader).rem().skip(4).skip(4).skip(8) =~= old(reader).rem().skip(16));
                assert(old(reader).rem().skip(8).take(8) =~= old(reader).rem().subrange(8, 16));
            }
            Ok(BoxHeader { name: BoxType::from_u32(typ), size: largesize - HEADER_SIZE })
        } else {
            proof {
                assert(old(reader).rem().skip(4).skip(4) =~= old(reader).rem().skip(8));
            }
            Ok(BoxHeader { name: BoxType::from_u32(typ), size: size as u64 })
        }
    }

    /// Writes the header.
    pub fn write(&self, writer: &mut Vec<u8>) -> (res: Result<u64>)
        ensures
            final(writer)@ == old(writer)@ + header_bytes(self.name, self.size),
            res == Ok::<u64, Error>(header_bytes(self.name, self.size).len() as u64),
    {
        if self.size > u32::MAX as u64 {
            be_write_u32(writer, 1);
            be_write_u32(writer, self.name.to_u32());
            be_write_u64(writer, self.size);
            assert(final(writer)@ =~= old(writer)@ + header_bytes(self.name, self.size));
            Ok(16)
        } else {
            be_write_u32(writer, self.size as u32);
            be_write_u32(writer, self.name.to_u32());
            assert(final(writer)@ =~= old(writer)@ + header_bytes(self.name, self.size));
            Ok(8)
        }
    }
}

/// Reads the version and flags of a full box.
pub fn read_box_header_ext(reader: &mut Reader) -> (res: Result<(u8, u32)>)
    ensures
        final(reader).data_seq() == old(reader).data_seq(),
        match res {
            Ok((v, f)) => old(reader).rem().len() >= 4 && v == old(reader).rem()[0]
                && f == be24_at(old(reader).rem(), 1) && final(reader).pos() == old(reader).pos() + 4
                && final(reader).rem() == old(reader).rem().skip(4),
            Err(e) => old(reader).rem().len() < 4 && e == Error::IoError,
        },
{
    let version = reader.read_u8()?;
    let flags = reader.read_u24()?;
    assert(old(reader).rem().skip(1).skip(3) =~= old(reader).rem().skip(4));
    Ok((version, flags))
}

/// Writes the version and flags of a full box. Flags must fit in 24 bits.
pub fn write_box_header_ext(w: &mut Vec<u8>, v: u8, f: u32) -> (res: Result<u64>)
    requires
        f < 0x1000000,
    ensures
        final(w)@ == old(w)@ + ext_bytes(v, f),
        res == Ok::<u64, Error>(4),
{
    w.push(v);
    be_write_u24(w, f);
    assert(final(w)@ =~= old(w)@ + ext_bytes(v, f));
    Ok(4)
}

/// The position at which the box whose header was just read starts.
pub fn box_start(reader: &Reader) -> (start: u64)
    requires
        reader.pos() >= HEADER_SIZE,
    ensures
        start == reader.pos() - HEADER_SIZE,
{
    reader.position() - HEADER_SIZE
}

/// Moves the reader to the end of a box that starts at `start` and is
/// `size` bytes long.
pub fn skip_bytes_to(reader: &mut Reader, start: u64, size: u64) -> (res: Result<()>)
    ensures
        final(reader).data_seq() == old(reader).data_seq(),
        match res {
            Ok(_) => start + size <= u64::MAX && final(reader).pos() == start + size,
            Err(e) => start + size > u64::MAX && e == Error::InvalidData("box end out of range")
                && *final(reader) == *old(reader),
        },
{
    if size > u64::MAX - start {
        Err(Error::InvalidData("box end out of range"))
    } else {
        reader.seek_to(start + size);
        Ok(())
    }
}

/// Moves the reader `size` bytes forward, which may take it past the end.
pub fn skip_bytes(reader: &mut Reader, size: u64) -> (res: Result<()>)
    ensures
        final(reader).data_seq() == old(reader).data_seq(),
        match res {
            Ok(_) => old(reader).pos() + size <= u64::MAX && final(reader).pos() == old(reader).pos() + size,
            Err(e) => old(reader).pos() + size > u64::MAX && e == Error::InvalidData("box end out of range"),
        },
{
    let pos = reader.position();
    skip_bytes_to(reader, pos, size)
}

/// Skips the box whose header was just read and which is `size` bytes long.
pub fn skip_box(reader: &mut Reader, size: u64) -> (res: Result<()>)
    requires
        old(reader).pos() >= HEADER_SIZE,
    ensures
        final(reader).data_seq() == old(reader).data_seq(),
        match res {
            Ok(_) => old(reader).pos() - HEADER_SIZE + size <= u64::MAX
                && final(reader).pos() == old(reader).pos() - HEADER_SIZE + size,
            Err(e) => old(reader).pos() - HEADER_SIZE + size > u64::MAX
                && e == Error::InvalidData("box end out of range"),
        },
{
    let start = box_start(reader);
    skip_bytes_to(reader, start, size)
}

/// Appends `size` zero bytes.
pub fn write_zeros(writer: &mut Vec<u8>, size: u64) -> (res: Result<()>)
    ensures
        final(writer)@ == old(writer)@ + Seq::new(size as nat, |i: int| 0u8),
        res is Ok,
{
    let mut i: u64 = 0;
    while i < size
        invariant
            i <= size,
            writer@ == old(writer)@ + Seq::new(i as nat, |j: int| 0u8),
        decreases size - i,
    {
        writer.push(0);
        i = i + 1;
        assert(writer@ =~= old(writer)@ + Seq::new(i as nat, |j: int| 0u8));
    }
    Ok(())
}

} // verus!

verus! {

/// Reading back a header that was written with a 32-bit size other than 1
/// gives the same type and size, 8 bytes later.
#[verifier::spinoff_prover]
pub proof fn lemma_header_roundtrip(name: BoxType, size: u64, rest: Seq<u8>)
    requires
        size <= u32::MAX,
        size != 1,
        name matches BoxType::UnknownBox(t) ==> box_type_of(t) == name,
    ensures
        parse_header(header_bytes(name, size) + rest) == Ok::<(BoxHeader, int), Error>(
            (BoxHeader { name, size }, 8),
        ),
        (header_bytes(name, size) + rest).skip(8) == rest,
{
    crate::bigendian::lemma_u32_roundtrip(size as u32);
    crate::bigendian::lemma_u32_roundtrip(box_type_code(name));
    crate::types::lemma_box_type_roundtrip(name);
    let s = header_bytes(name, size) + rest;
    assert(s.skip(8) =~= rest);
}

/// A header written with a 64-bit size reads back as that size less 8: the
/// header reader reports large sizes net of the short header.
#[verifier::spinoff_prover]
pub proof fn lemma_header_large_size(name: BoxType, size: u64, rest: Seq<u8>)
    requires
        size > u32::MAX,
        name matches BoxType::UnknownBox(t) ==> box_type_of(t) == name,
    ensures
        parse_header(header_bytes(name, size) + rest) == Ok::<(BoxHeader, int), Error>(
            (BoxHeader { name, size: (size - HEADER_SIZE) as u64 }, 16),
        ),
        (header_bytes(name, size) + rest).skip(16) == rest,
{
    crate::bigendian::lemma_u32_roundtrip(1);
    crate::bigendian::lemma_u32_roundtrip(box_type_code(name));
    crate::types::lemma_box_type_roundtrip(name);
    let s = header_bytes(name, size) + rest;
    assert(s.subrange(8, 16) =~= u64_bytes(size));
    crate::bigendian::lemma_take_u64(size, Seq::empty());
    assert(u64_bytes(size) + Seq::<u8>::empty() =~= u64_bytes(size));
    assert(u64_of(u64_bytes(size)) == size);
    assert(s.skip(16) =~= rest);
}

} // verus!

verus! {

/// What every box can say of itself: its type and its encoded size.
pub trait Mp4Box: Sized {
    /// Whether the encoded size of the box is defined and fits in a `u64`.
    spec fn has_size(&self) -> bool;

    fn box_type(&self) -> BoxType;

    fn box_size(&self) -> u64
        requires
            self.has_size(),
    ;
}

/// A box that can be decoded from a reader positioned just after its header.
pub trait ReadBox: Sized {
    /// Whether the decoder accepts a box that is `size` bytes long.
    spec fn size_accepted(size: u64) -> bool;

    /// Decodes a box that is `size` bytes long, header included, and moves
    /// the reader to its end.
    #[verifier::spinoff_prover]
    fn read_box(reader: &mut Reader, size: u64) -> (res: Result<Self>)
        requires
            old(reader).pos() >= HEADER_SIZE,
            Self::size_accepted(size),
        ensures
            final(reader).data_seq() == old(reader).data_seq(),
    ;
}

/// A box that can be encoded, header included, at the end of a byte vector.
pub trait WriteBox: Sized {
    /// Whether the box can be encoded: its fields are in the ranges that
    /// its encoding has room for.
    spec fn writable(&self) -> bool;

    /// Appends the encoded box and returns the number of bytes appended.
    #[verifier::spinoff_prover]
    fn write_box(&self, writer: &mut Vec<u8>) -> (res: Result<u64>)
        requires
            self.writable(),
    ;
}

} // verus!

verus! {

/// The `u16` written after `p` is read back at offset `p.len()`.
#[verifier::spinoff_prover]
pub proof fn lemma_be16_at_word(p: Seq<u8>, x: u16, t: Seq<u8>)
    ensures
        be16_at(p + (u16_bytes(x) + t), p.len() as int) == x,
{
    lemma_u16_roundtrip(x);
    let s = p + (u16_bytes(x) + t);
    let n = p.len() as int;
    assert(s[n] == u16_bytes(x)[0]);
    assert(s[n + 1] == u16_bytes(x)[1]);
}

/// The `u32` written after `p` is read back at offset `p.len()`.
#[verifier::spinoff_prover]
pub proof fn lemma_be32_at_word(p: Seq<u8>, x: u32, t: Seq<u8>)
    ensures
        be32_at(p + (u32_bytes(x) + t), p.len() as int) == x,
{
    lemma_u32_roundtrip(x);
    let s = p + (u32_bytes(x) + t);
    let n = p.len() as int;
    assert(s[n] == u32_bytes(x)[0]);
    assert(s[n + 1] == u32_bytes(x)[1]);
    assert(s[n + 2] == u32_bytes(x)[2]);
    assert(s[n + 3] == u32_bytes(x)[3]);
}

/// The `u64` written after `p` is read back at offset `p.len()`.
#[verifier::spinoff_prover]
pub proof fn lemma_be64_at_word(p: Seq<u8>, x: u64, t: Seq<u8>)
    ensures
        be64_at(p + (u64_bytes(x) + t), p.len() as int) == x,
{
    lemma_u64_of_bytes(x);
    let s = p + (u64_bytes(x) + t);
    let n = p.len() as int;
    assert(s.subrange(n, n + 8) =~= u64_bytes(x));
}

} // verus!

verus! {

/// Reading at offset `p.len() + o` of `p + q` reads `q` at `o`.
#[verifier::spinoff_prover]
pub proof fn lemma_be32_shift(p: Seq<u8>, q: Seq<u8>, o: int)
    requires
        0 <= o,
        o + 4 <= q.len(),
    ensures
        be32_at(p + q, p.len() + o) == be32_at(q, o),
{
    let s = p + q;
    let n = p.len() as int;
    assert(s[n + o] == q[o]);
    assert(s[n + o + 1] == q[o + 1]);
    assert(s[n + o + 2] == q[o + 2]);
    assert(s[n + o + 3] == q[o + 3]);
}

/// Reading at offset `p.len() + o` of `p + q` reads `q` at `o`.
#[verifier::spinoff_prover]
pub proof fn lemma_be64_shift(p: Seq<u8>, q: Seq<u8>, o: int)
    requires
        0 <= o,
        o + 8 <= q.len(),
    ensures
        be64_at(p + q, p.len() + o) == be64_at(q, o),
{
    let n = p.len() as int;
    assert((p + q).subrange(n + o, n + o + 8) =~= q.subrange(o, o + 8));
}

/// Reading at offset `p.len() + o` of `p + q` reads `q` at `o`.
#[verifier::spinoff_prover]
pub proof fn lemma_be16_shift(p: Seq<u8>, q: Seq<u8>, o: int)
    requires
        0 <= o,
        o + 2 <= q.len(),
    ensures
        be16_at(p + q, p.len() + o) == be16_at(q, o),
{
    let s = p + q;
    let n = p.len() as int;
    assert(s[n + o] == q[o]);
    assert(s[n + o + 1] == q[o + 1]);
}

} // verus!
