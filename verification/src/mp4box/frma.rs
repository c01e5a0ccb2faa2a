//! The original format box of protected sample entries.
use crate::bigendian::{be_write_u32, group_take_lemmas, lemma_u32_roundtrip, u32_bytes};
use crate::error::{Error, Result};
use crate::mp4box::{
    be32_at, box_result, box_start, header_bytes, read_outcome, skip_bytes_to, BoxHeader, Mp4Box,
    ReadBox, WriteBox, HEADER_SIZE,
};
use crate::reader::Reader;
use crate::types::{fourcc_code, fourcc_of, lemma_fourcc_of_code, BoxType, FourCC};
use vstd::prelude::*;

verus! {

broadcast use group_take_lemmas;

#[derive(Debug, Clone, PartialEq, Eq, Default)]
pub struct FrmaBox {
    pub original_format: FourCC,
}

impl View for FrmaBox {
    type V = FrmaBox;

    open spec fn view(&self) -> FrmaBox {
        *self
    }
}

/// The frma box that the body at the start of `s` encodes.
pub open spec fn parse_frma(s: Seq<u8>) -> Result<FrmaBox> {
    if s.len() < 4 {
        Err(Error::IoError)
    } else {
        Ok(FrmaBox { original_format: fourcc_of(be32_at(s, 0)) })
    }
}

/// The encoding of an frma box, header included.
pub open spec fn frma_bytes(b: FrmaBox) -> Seq<u8> {
    header_bytes(BoxType::FrmaBox, 12) + u32_bytes(fourcc_code(b.original_format))
}

impl FrmaBox {
    pub fn get_type(&self) -> (t: BoxType)
        ensures
            t == BoxType::FrmaBox,
    {
        BoxType::FrmaBox
    }

    pub fn get_size(&self) -> (s: u64)
        ensures
            s == 12,
    {
        HEADER_SIZE + 4
    }
}

impl Mp4Box for FrmaBox {
    open spec fn has_size(&self) -> bool {
        true
    }

    fn box_type(&self) -> (t: BoxType)
        ensures
            t == BoxType::FrmaBox,
    {
        self.get_type()
    }

    fn box_size(&self) -> (s: u64)
        ensures
            s == 12,
    {
        self.get_size()
    }
}

impl ReadBox for FrmaBox {
    open spec fn size_accepted(size: u64) -> bool {
        true
    }

    #[verifier::spinoff_prover]
    fn read_box(reader: &mut Reader, size: u64) -> (res: Result<Self>)
        ensures
            res is Ok ==> final(reader).pos() == old(reader).pos() - HEADER_SIZE + size,
            read_outcome(res, box_result(parse_frma(old(reader).rem()), old(reader).pos() - HEADER_SIZE, size)),
    {
        let start = box_start(reader);
        let original_format = reader.read_u32()?;
        skip_bytes_to(reader, start, size)?;
        Ok(FrmaBox { original_format: FourCC::from_u32(original_format) })
    }
}

impl WriteBox for FrmaBox {
    open spec fn writable(&self) -> bool {
        true
    }

    #[verifier::spinoff_prover]
    fn write_box(&self, writer: &mut Vec<u8>) -> (res: Result<u64>)
        ensures
            final(writer)@ == old(writer)@ + frma_bytes(*self),
            res == Ok::<u64, Error>(12),
    {
        let size = self.box_size();
        BoxHeader::new(self.box_type(), size).write(writer)?;
        be_write_u32(writer, self.original_format.to_u32());
        assert(final(writer)@ =~= old(writer)@ + frma_bytes(*self));
        Ok(size)
    }
}

/// Decoding the body of an encoded frma box gives the box back.
#[verifier::spinoff_prover]
pub proof fn lemma_frma_roundtrip(b: FrmaBox, rest: Seq<u8>)
    ensures
        frma_bytes(b).len() == 12,
        parse_frma((frma_bytes(b) + rest).skip(8)) == Ok::<FrmaBox, Error>(b),
{
    lemma_u32_roundtrip(fourcc_code(b.original_format));
    lemma_fourcc_of_code(b.original_format);
}

} // verus!
