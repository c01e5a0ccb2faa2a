//! The sound media header box: the stereo balance of an audio track.
use crate::bigendian::{be_write_i16, be_write_u16, group_take_lemmas, lemma_u16_roundtrip, lemma_u24_roundtrip, u16_bytes};
use crate::error::{Error, Result};
use crate::mp4box::{
    be16_at, be24_at, box_result, box_start, ext_bytes, header_bytes, read_box_header_ext, read_outcome,
    skip_bytes_to, write_box_header_ext, BoxHeader, Mp4Box, ReadBox, WriteBox, HEADER_EXT_SIZE, HEADER_SIZE,
};
use crate::reader::Reader;
use crate::types::{BoxType, FixedPointI8};
use vstd::prelude::*;

verus! {

broadcast use group_take_lemmas;

#[derive(Debug, Clone, Copy, PartialEq, Eq, Structural)]
pub struct SmhdBox {
    pub version: u8,
    pub flags: u32,
    pub balance: FixedPointI8,
}

/// What an smhd box holds, the balance by its raw bits.
pub struct SmhdBoxView {
    pub version: u8,
    pub flags: u32,
    pub balance: i16,
}

impl View for SmhdBox {
    type V = SmhdBoxView;

    open spec fn view(&self) -> SmhdBoxView {
        SmhdBoxView { version: self.version, flags: self.flags, balance: self.balance@ }
    }
}

impl Default for SmhdBox {
    /// Version 0 and a centered balance.
    fn default() -> (b: Self)
        ensures
            b@ == (SmhdBoxView { version: 0, flags: 0, balance: 0 }),
    {
        SmhdBox { version: 0, flags: 0, balance: FixedPointI8::new_raw(0) }
    }
}

/// The smhd box that the body at the start of `s` encodes.
pub open spec fn parse_smhd(s: Seq<u8>) -> Result<SmhdBoxView> {
    if s.len() < 6 {
        Err(Error::IoError)
    } else {
        Ok(SmhdBoxView { version: s[0], flags: be24_at(s, 1), balance: be16_at(s, 4) as i16 })
    }
}

/// The encoding of an smhd box, header included: the balance and two
/// reserved zero bytes.
pub open spec fn smhd_bytes(b: SmhdBoxView) -> Seq<u8> {
    header_bytes(BoxType::SmhdBox, 16) + ext_bytes(b.version, b.flags) + u16_bytes(b.balance as u16) + u16_bytes(0)
}

impl SmhdBox {
    pub fn get_type(&self) -> (t: BoxType)
        ensures
            t == BoxType::SmhdBox,
    {
        BoxType::SmhdBox
    }

    pub fn get_size(&self) -> (s: u64)
        ensures
            s == 16,
    {
        HEADER_SIZE + HEADER_EXT_SIZE + 4
    }
}

impl Mp4Box for SmhdBox {
    open spec fn has_size(&self) -> bool {
        true
    }

    fn box_type(&self) -> (t: BoxType)
        ensures
            t == BoxType::SmhdBox,
    {
        self.get_type()
    }

    fn box_size(&self) -> (s: u64)
        ensures
            s == 16,
    {
        self.get_size()
    }
}

impl ReadBox for SmhdBox {
    open spec fn size_accepted(size: u64) -> bool {
        true
    }

    #[verifier::spinoff_prover]
    fn read_box(reader: &mut Reader, size: u64) -> (res: Result<Self>)
        ensures
            res is Ok ==> final(reader).pos() == old(reader).pos() - HEADER_SIZE + size,
            read_outcome(res, box_result(parse_smhd(old(reader).rem()), old(reader).pos() - HEADER_SIZE, size)),
    {
        let start = box_start(reader);
        let (version, flags) = read_box_header_ext(reader)?;
        let balance = FixedPointI8::new_raw(reader.read_i16()?);
        skip_bytes_to(reader, start, size)?;
        Ok(SmhdBox { version, flags, balance })
    }
}

impl WriteBox for SmhdBox {
    open spec fn writable(&self) -> bool {
        self.flags < 0x1000000
    }

    #[verifier::spinoff_prover]
    fn write_box(&self, writer: &mut Vec<u8>) -> (res: Result<u64>)
        ensures
            final(writer)@ == old(writer)@ + smhd_bytes(self@),
            res == Ok::<u64, Error>(16),
    {
        let size = self.box_size();
        BoxHeader::new(self.box_type(), size).write(writer)?;
        write_box_header_ext(writer, self.version, self.flags)?;
        be_write_i16(writer, self.balance.raw_value());
        be_write_u16(writer, 0);
        assert(final(writer)@ =~= old(writer)@ + smhd_bytes(self@));
        Ok(size)
    }
}

/// Decoding the body of an encoded smhd box gives the box back.
#[verifier::spinoff_prover]
pub proof fn lemma_smhd_roundtrip(b: SmhdBoxView, rest: Seq<u8>)
    requires
        b.flags < 0x1000000,
    ensures
        smhd_bytes(b).len() == 16,
        parse_smhd((smhd_bytes(b) + rest).skip(8)) == Ok::<SmhdBoxView, Error>(b),
{
    lemma_u24_roundtrip(b.flags);
    let x = b.balance;
    lemma_u16_roundtrip(x as u16);
    assert((x as u16) as i16 == x) by (bit_vector);
    let s = (smhd_bytes(b) + rest).skip(8);
    assert(s.subrange(4, 6) =~= u16_bytes(x as u16));
    assert(s[4] == u16_bytes(x as u16)[0] && s[5] == u16_bytes(x as u16)[1]);
}

} // verus!
