//! The scheme type box of protected sample entries.
use crate::bigendian::{be_write_u32, group_take_lemmas, lemma_u24_roundtrip, lemma_u32_roundtrip, u32_bytes};
use crate::error::{Error, Result};
use crate::mp4box::{
    be32_at, box_result, box_start, ext_bytes, header_bytes, read_box_header_ext, read_outcome,
    skip_bytes_to, write_box_header_ext, BoxHeader, Mp4Box, ReadBox, WriteBox, HEADER_EXT_SIZE,
    HEADER_SIZE,
};
use crate::reader::Reader;
use crate::types::{fourcc_code, fourcc_of, lemma_fourcc_of_code, BoxType, FourCC};
use vstd::prelude::*;

verus! {

broadcast use group_take_lemmas;

#[derive(Debug, Clone, PartialEq, Eq, Default)]
pub struct SchmBox {
    pub version: u8,
    pub scheme_type: FourCC,
    pub scheme_version: u32,
}

impl View for SchmBox {
    type V = SchmBox;

    open spec fn view(&self) -> SchmBox {
        *self
    }
}

/// The schm box that the body at the start of `s` encodes; the flags are
/// not kept.
pub open spec fn parse_schm(s: Seq<u8>) -> Result<SchmBox> {
    if s.len() < 12 {
        Err(Error::IoError)
    } else {
        Ok(SchmBox { version: s[0], scheme_type: fourcc_of(be32_at(s, 4)), scheme_version: be32_at(s, 8) })
    }
}

/// The encoding of an schm box, header included; the flags are written as 0.
pub open spec fn schm_bytes(b: SchmBox) -> Seq<u8> {
    header_bytes(BoxType::SchmBox, 20) + ext_bytes(b.version, 0) + u32_bytes(fourcc_code(b.scheme_type))
        + u32_bytes(b.scheme_version)
}

impl SchmBox {
    pub const FLAG_SCHEME_URI: u32 = 0x01;

    pub fn get_type(&self) -> (t: BoxType)
        ensures
            t == BoxType::SchmBox,
    {
        BoxType::SchmBox
    }

    pub fn get_size(&self) -> (s: u64)
        ensures
            s == 20,
    {
        HEADER_SIZE + HEADER_EXT_SIZE + 8
    }
}

impl Mp4Box for SchmBox {
    open spec fn has_size(&self) -> bool {
        true
    }

    fn box_type(&self) -> (t: BoxType)
        ensures
            t == BoxType::SchmBox,
    {
        self.get_type()
    }

    fn box_size(&self) -> (s: u64)
        ensures
            s == 20,
    {
        self.get_size()
    }
}

impl ReadBox for SchmBox {
    open spec fn size_accepted(size: u64) -> bool {
        true
    }

    #[verifier::spinoff_prover]
    fn read_box(reader: &mut Reader, size: u64) -> (res: Result<Self>)
        ensures
            res is Ok ==> final(reader).pos() == old(reader).pos() - HEADER_SIZE + size,
            read_outcome(res, box_result(parse_schm(old(reader).rem()), old(reader).pos() - HEADER_SIZE, size)),
    {
        let start = box_start(reader);
        let (version, _flags) = read_box_header_ext(reader)?;
        let scheme_type = reader.read_u32()?;
        let scheme_version = reader.read_u32()?;
        skip_bytes_to(reader, start, size)?;
        Ok(SchmBox { version, scheme_type: FourCC::from_u32(scheme_type), scheme_version })
    }
}

impl WriteBox for SchmBox {
    open spec fn writable(&self) -> bool {
        true
    }

    #[verifier::spinoff_prover]
    fn write_box(&self, writer: &mut Vec<u8>) -> (res: Result<u64>)
        ensures
            final(writer)@ == old(writer)@ + schm_bytes(*self),
            res == Ok::<u64, Error>(20),
    {
        let size = self.box_size();
        BoxHeader::new(self.box_type(), size).write(writer)?;
        write_box_header_ext(writer, self.version, 0)?;
        be_write_u32(writer, self.scheme_type.to_u32());
        be_write_u32(writer, self.scheme_version);
        assert(final(writer)@ =~= old(writer)@ + schm_bytes(*self));
        Ok(size)
    }
}

/// Decoding the body of an encoded schm box gives the box back.
#[verifier::spinoff_prover]
pub proof fn lemma_schm_roundtrip(b: SchmBox, rest: Seq<u8>)
    ensures
        schm_bytes(b).len() == 20,
        parse_schm((schm_bytes(b) + rest).skip(8)) == Ok::<SchmBox, Error>(b),
{
    lemma_u32_roundtrip(fourcc_code(b.scheme_type));
    lemma_u32_roundtrip(b.scheme_version);
    lemma_fourcc_of_code(b.scheme_type);
}

} // verus!
