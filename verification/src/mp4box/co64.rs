//! The 64-bit chunk offset box.
use crate::bigendian::{be_write_u32, group_take_lemmas, lemma_u24_roundtrip, lemma_u32_roundtrip, u32_bytes};
use crate::error::{Error, Result};
use crate::mp4box::{
    be24_at, be32_at, box_result, box_start, ext_bytes, header_bytes, read_box_header_ext, read_outcome,
    skip_bytes_to, write_box_header_ext, BoxHeader, Mp4Box, ReadBox, WriteBox, HEADER_EXT_SIZE, HEADER_SIZE,
};
use crate::reader::Reader;
use crate::types::BoxType;
use crate::words::{be64_words, lemma_u64s_bytes, read_be64_words, u64s_bytes, write_be64_words};
use vstd::prelude::*;

verus! {

broadcast use group_take_lemmas;

#[derive(Debug, Clone, PartialEq, Eq, Default)]
pub struct Co64Box {
    pub version: u8,
    pub flags: u32,
    pub entries: Vec<u64>,
}

/// What a co64 box holds, as mathematical values.
pub struct Co64BoxView {
    pub version: u8,
    pub flags: u32,
    pub entries: Seq<u64>,
}

impl View for Co64Box {
    type V = Co64BoxView;

    open spec fn view(&self) -> Co64BoxView {
        Co64BoxView { version: self.version, flags: self.flags, entries: self.entries@ }
    }
}

/// The size of a co64 box with `n` chunk offsets.
pub open spec fn co64_size(n: nat) -> int {
    16 + 8 * (n as int)
}

/// The co64 box that the body at the start of `s` encodes.
pub open spec fn parse_co64(s: Seq<u8>) -> Result<Co64BoxView> {
    if s.len() < 8 {
        Err(Error::IoError)
    } else if s.len() < 8 + 8 * be32_at(s, 4) {
        Err(Error::IoError)
    } else {
        Ok(Co64BoxView { version: s[0], flags: be24_at(s, 1), entries: be64_words(s.skip(8), be32_at(s, 4) as nat) })
    }
}

/// The encoding of a co64 box, header included; the entry count is stored
/// as its low 32 bits.
pub open spec fn co64_bytes(b: Co64BoxView) -> Seq<u8> {
    header_bytes(BoxType::Co64Box, co64_size(b.entries.len()) as u64) + ext_bytes(b.version, b.flags)
        + u32_bytes(b.entries.len() as u32) + u64s_bytes(b.entries)
}

impl Mp4Box for Co64Box {
    open spec fn has_size(&self) -> bool {
        co64_size(self.entries@.len()) <= u64::MAX
    }

    fn box_type(&self) -> (t: BoxType)
        ensures
            t == BoxType::Co64Box,
    {
        BoxType::Co64Box
    }

    fn box_size(&self) -> (s: u64)
        ensures
            s == co64_size(self.entries@.len()),
    {
        HEADER_SIZE + HEADER_EXT_SIZE + 4 + 8 * self.entries.len() as u64
    }
}

impl ReadBox for Co64Box {
    open spec fn size_accepted(size: u64) -> bool {
        true
    }

    #[verifier::spinoff_prover]
    fn read_box(reader: &mut Reader, size: u64) -> (res: Result<Self>)
        ensures
            res is Ok ==> final(reader).pos() == old(reader).pos() - HEADER_SIZE + size,
            read_outcome(res, box_result(parse_co64(old(reader).rem()), old(reader).pos() - HEADER_SIZE, size)),
    {
        let ghost s = old(reader).rem();
        let start = box_start(reader);
        let (version, flags) = read_box_header_ext(reader)?;
        let entry_count = reader.read_u32()?;
        assert(reader.rem() =~= s.skip(8));
        let entries = read_be64_words(reader, entry_count)?;
        skip_bytes_to(reader, start, size)?;
        Ok(Co64Box { version, flags, entries })
    }
}

impl WriteBox for Co64Box {
    open spec fn writable(&self) -> bool {
        &&& self.flags < 0x1000000
        &&& self.has_size()
    }

    #[verifier::spinoff_prover]
    fn write_box(&self, writer: &mut Vec<u8>) -> (res: Result<u64>)
        ensures
            final(writer)@ == old(writer)@ + co64_bytes(self@),
            res == Ok::<u64, Error>(co64_size(self.entries@.len()) as u64),
    {
        let size = self.box_size();
        BoxHeader::new(self.box_type(), size).write(writer)?;
        write_box_header_ext(writer, self.version, self.flags)?;
        be_write_u32(writer, self.entries.len() as u32);
        write_be64_words(writer, self.entries.as_slice());
        assert(final(writer)@ =~= old(writer)@ + co64_bytes(self@));
        Ok(size)
    }
}

/// Decoding the body of an encoded co64 box gives the box back, where the
/// box is small enough for a 32-bit size.
#[verifier::spinoff_prover]
pub proof fn lemma_co64_roundtrip(b: Co64BoxView, rest: Seq<u8>)
    requires
        b.flags < 0x1000000,
        co64_size(b.entries.len()) <= u32::MAX,
    ensures
        co64_bytes(b).len() == co64_size(b.entries.len()),
        parse_co64((co64_bytes(b) + rest).skip(8)) == Ok::<Co64BoxView, Error>(b),
{
    let n = b.entries.len();
    lemma_u24_roundtrip(b.flags);
    lemma_u32_roundtrip(n as u32);
    lemma_u64s_bytes(b.entries, rest);
    let h = header_bytes(BoxType::Co64Box, co64_size(n) as u64);
    assert(h.len() == 8);
    let s = (co64_bytes(b) + rest).skip(8);
    assert(s =~= ext_bytes(b.version, b.flags) + u32_bytes(n as u32) + (u64s_bytes(b.entries) + rest));
    assert(s.skip(8) =~= u64s_bytes(b.entries) + rest);
}

} // verus!
