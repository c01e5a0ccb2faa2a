//! The video media header box.
use crate::bigendian::{be_write_u16, group_take_lemmas, lemma_u16_roundtrip, lemma_u24_roundtrip, u16_bytes};
use crate::error::{Error, Result};
use crate::mp4box::{
    be16_at, be24_at, box_result, box_start, ext_bytes, header_bytes, read_box_header_ext,
    read_outcome, skip_bytes_to, write_box_header_ext, BoxHeader, Mp4Box, ReadBox, WriteBox,
    HEADER_EXT_SIZE, HEADER_SIZE,
};
use crate::reader::Reader;
use crate::types::BoxType;
use vstd::prelude::*;

verus! {

broadcast use group_take_lemmas;

#[derive(Debug, Clone, PartialEq, Eq, Default, Structural)]
pub struct RgbColor {
    pub red: u16,
    pub green: u16,
    pub blue: u16,
}

#[derive(Debug, Clone, PartialEq, Eq, Default, Structural)]
pub struct VmhdBox {
    pub version: u8,
    pub flags: u32,
    pub graphics_mode: u16,
    pub op_color: RgbColor,
}

impl View for VmhdBox {
    type V = VmhdBox;

    open spec fn view(&self) -> VmhdBox {
        *self
    }
}

/// The vmhd box that the body at the start of `s` encodes.
pub open spec fn parse_vmhd(s: Seq<u8>) -> Result<VmhdBox> {
    if s.len() < 12 {
        Err(Error::IoError)
    } else {
        Ok(VmhdBox {
            version: s[0],
            flags: be24_at(s, 1),
            graphics_mode: be16_at(s, 4),
            op_color: RgbColor { red: be16_at(s, 6), green: be16_at(s, 8), blue: be16_at(s, 10) },
        })
    }
}

/// The encoding of a vmhd box, header included.
pub open spec fn vmhd_bytes(b: VmhdBox) -> Seq<u8> {
    header_bytes(BoxType::VmhdBox, 20) + ext_bytes(b.version, b.flags) + u16_bytes(b.graphics_mode)
        + u16_bytes(b.op_color.red) + u16_bytes(b.op_color.green) + u16_bytes(b.op_color.blue)
}

impl Mp4Box for VmhdBox {
    open spec fn has_size(&self) -> bool {
        true
    }

    fn box_type(&self) -> (t: BoxType)
        ensures
            t == BoxType::VmhdBox,
    {
        BoxType::VmhdBox
    }

    fn box_size(&self) -> (s: u64)
        ensures
            s == 20,
    {
        HEADER_SIZE + HEADER_EXT_SIZE + 8
    }
}

impl ReadBox for VmhdBox {
    open spec fn size_accepted(size: u64) -> bool {
        true
    }

    #[verifier::spinoff_prover]
    fn read_box(reader: &mut Reader, size: u64) -> (res: Result<Self>)
        ensures
            res is Ok ==> final(reader).pos() == old(reader).pos() - HEADER_SIZE + size,
            read_outcome(res, box_result(parse_vmhd(old(reader).rem()), old(reader).pos() - HEADER_SIZE, size)),
    {
        let start = box_start(reader);
        let (version, flags) = read_box_header_ext(reader)?;
        let graphics_mode = reader.read_u16()?;
        let red = reader.read_u16()?;
        let green = reader.read_u16()?;
        let blue = reader.read_u16()?;
        skip_bytes_to(reader, start, size)?;
        Ok(VmhdBox { version, flags, graphics_mode, op_color: RgbColor { red, green, blue } })
    }
}

impl WriteBox for VmhdBox {
    open spec fn writable(&self) -> bool {
        self.flags < 0x1000000
    }

    #[verifier::spinoff_prover]
    fn write_box(&self, writer: &mut Vec<u8>) -> (res: Result<u64>)
        ensures
            final(writer)@ == old(writer)@ + vmhd_bytes(*self),
            res == Ok::<u64, Error>(20),
    {
        let size = self.box_size();
        BoxHeader::new(self.box_type(), size).write(writer)?;
        write_box_header_ext(writer, self.version, self.flags)?;
        be_write_u16(writer, self.graphics_mode);
        be_write_u16(writer, self.op_color.red);
        be_write_u16(writer, self.op_color.green);
        be_write_u16(writer, self.op_color.blue);
        assert(final(writer)@ =~= old(writer)@ + vmhd_bytes(*self));
        Ok(size)
    }
}

/// Decoding the body of an encoded vmhd box gives the box back.
#[verifier::spinoff_prover]
pub proof fn lemma_vmhd_roundtrip(b: VmhdBox, rest: Seq<u8>)
    requires
        b.flags < 0x1000000,
    ensures
        vmhd_bytes(b).len() == 20,
        parse_vmhd((vmhd_bytes(b) + rest).skip(8)) == Ok::<VmhdBox, Error>(b),
{
    lemma_u24_roundtrip(b.flags);
    lemma_u16_roundtrip(b.graphics_mode);
    lemma_u16_roundtrip(b.op_color.red);
    lemma_u16_roundtrip(b.op_color.green);
    lemma_u16_roundtrip(b.op_color.blue);
}

} // verus!
