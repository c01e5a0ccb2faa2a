//! The movie fragment header box.
use crate::bigendian::{be_write_u32, group_take_lemmas, lemma_u24_roundtrip, lemma_u32_roundtrip, u32_bytes};
use crate::error::{Error, Result};
use crate::mp4box::{
    be24_at, be32_at, box_result, box_start, ext_bytes, header_bytes, read_box_header_ext,
    read_outcome, skip_bytes_to, write_box_header_ext, BoxHeader, Mp4Box, ReadBox, WriteBox,
    HEADER_EXT_SIZE, HEADER_SIZE,
};
use crate::reader::Reader;
use crate::types::BoxType;
use vstd::prelude::*;

verus! {

broadcast use group_take_lemmas;

#[derive(Debug, Clone, PartialEq, Eq, Structural)]
pub struct MfhdBox {
    pub version: u8,
    pub flags: u32,
    pub sequence_number: u32,
}

impl View for MfhdBox {
    type V = MfhdBox;

    open spec fn view(&self) -> MfhdBox {
        *self
    }
}

/// The mfhd box that the body at the start of `s` encodes.
pub open spec fn parse_mfhd(s: Seq<u8>) -> Result<MfhdBox> {
    if s.len() < 8 {
        Err(Error::IoError)
    } else {
        Ok(MfhdBox { version: s[0], flags: be24_at(s, 1), sequence_number: be32_at(s, 4) })
    }
}

/// The encoding of an mfhd box, header included.
pub open spec fn mfhd_bytes(b: MfhdBox) -> Seq<u8> {
    header_bytes(BoxType::MfhdBox, 16) + ext_bytes(b.version, b.flags) + u32_bytes(b.sequence_number)
}

impl Default for MfhdBox {
    fn default() -> (b: Self)
        ensures
            b == (MfhdBox { version: 0, flags: 0, sequence_number: 1 }),
    {
        MfhdBox { version: 0, flags: 0, sequence_number: 1 }
    }
}

impl MfhdBox {
    pub fn get_type(&self) -> (t: BoxType)
        ensures
            t == BoxType::MfhdBox,
    {
        BoxType::MfhdBox
    }

    pub fn get_size(&self) -> (s: u64)
        ensures
            s == 16,
    {
        HEADER_SIZE + HEADER_EXT_SIZE + 4
    }
}

impl Mp4Box for MfhdBox {
    open spec fn has_size(&self) -> bool {
        true
    }

    fn box_type(&self) -> (t: BoxType)
        ensures
            t == BoxType::MfhdBox,
    {
        self.get_type()
    }

    fn box_size(&self) -> (s: u64)
        ensures
            s == 16,
    {
        self.get_size()
    }
}

impl ReadBox for MfhdBox {
    open spec fn size_accepted(size: u64) -> bool {
        true
    }

    #[verifier::spinoff_prover]
    fn read_box(reader: &mut Reader, size: u64) -> (res: Result<Self>)
        ensures
            res is Ok ==> final(reader).pos() == old(reader).pos() - HEADER_SIZE + size,
            read_outcome(res, box_result(parse_mfhd(old(reader).rem()), old(reader).pos() - HEADER_SIZE, size)),
    {
        let start = box_start(reader);
        let (version, flags) = read_box_header_ext(reader)?;
        let sequence_number = reader.read_u32()?;
        skip_bytes_to(reader, start, size)?;
        Ok(MfhdBox { version, flags, sequence_number })
    }
}

impl WriteBox for MfhdBox {
    open spec fn writable(&self) -> bool {
        self.flags < 0x1000000
    }

    #[verifier::spinoff_prover]
    fn write_box(&self, writer: &mut Vec<u8>) -> (res: Result<u64>)
        ensures
            final(writer)@ == old(writer)@ + mfhd_bytes(*self),
            res == Ok::<u64, Error>(16),
    {
        let size = self.box_size();
        BoxHeader::new(self.box_type(), size).write(writer)?;
        write_box_header_ext(writer, self.version, self.flags)?;
        be_write_u32(writer, self.sequence_number);
        assert(final(writer)@ =~= old(writer)@ + mfhd_bytes(*self));
        Ok(size)
    }
}

/// Decoding the body of an encoded mfhd box gives the box back.
#[verifier::spinoff_prover]
pub proof fn lemma_mfhd_roundtrip(b: MfhdBox, rest: Seq<u8>)
    requires
        b.flags < 0x1000000,
    ensures
        mfhd_bytes(b).len() == 16,
        parse_mfhd((mfhd_bytes(b) + rest).skip(8)) == Ok::<MfhdBox, Error>(b),
{
    lemma_u24_roundtrip(b.flags);
    lemma_u32_roundtrip(b.sequence_number);
}

} // verus!
