//! The VP codec configuration box.
use crate::bigendian::{be_write_u16, group_take_lemmas, lemma_u16_roundtrip, lemma_u24_roundtrip, u16_bytes};
use crate::error::{Error, Result};
use crate::mp4box::{
    be16_at, be24_at, box_result, box_start, ext_bytes, header_bytes, read_box_header_ext, read_outcome,
    skip_bytes_to, write_box_header_ext, BoxHeader, Mp4Box, ReadBox, WriteBox, HEADER_EXT_SIZE, HEADER_SIZE,
};
use crate::reader::Reader;
use crate::types::BoxType;
use vstd::prelude::*;

verus! {

broadcast use group_take_lemmas;

#[derive(Debug, Clone, Copy, PartialEq, Eq, Default, Structural)]
pub struct VpccBox {
    pub version: u8,
    pub flags: u32,
    pub profile: u8,
    pub level: u8,
    pub bit_depth: u8,
    pub chroma_subsampling: u8,
    pub video_full_range_flag: bool,
    pub color_primaries: u8,
    pub transfer_characteristics: u8,
    pub matrix_coefficients: u8,
    pub codec_initialization_data_size: u16,
}

impl View for VpccBox {
    type V = VpccBox;

    open spec fn view(&self) -> VpccBox {
        *self
    }
}

/// The byte that packs the bit depth, chroma subsampling and full range
/// flag.
pub open spec fn vpcc_packed(b: VpccBox) -> u8 {
    ((b.bit_depth << 4u8) | (b.chroma_subsampling << 1u8) | (if b.video_full_range_flag { 1u8 } else { 0u8 })) as u8
}

/// The vpcc box that the body at the start of `s` encodes. The decoder
/// reads one byte fewer than the encoder writes: it takes no color
/// primaries (they read as 0), so the transfer characteristics, matrix
/// coefficients and data size are read from one byte earlier.
pub open spec fn parse_vpcc(s: Seq<u8>) -> Result<VpccBox> {
    if s.len() < 11 {
        Err(Error::IoError)
    } else {
        Ok(VpccBox {
            version: s[0],
            flags: be24_at(s, 1),
            profile: s[4],
            level: s[5],
            bit_depth: s[6] >> 4u8,
            chroma_subsampling: ((s[6] << 4u8) as u8) >> 5u8,
            video_full_range_flag: s[6] & 0x01u8 == 1,
            color_primaries: 0,
            transfer_characteristics: s[7],
            matrix_coefficients: s[8],
            codec_initialization_data_size: be16_at(s, 9),
        })
    }
}

/// The encoding of a vpcc box, header included.
pub open spec fn vpcc_bytes(b: VpccBox) -> Seq<u8> {
    header_bytes(BoxType::VpccBox, 20) + ext_bytes(b.version, b.flags) + seq![
        b.profile,
        b.level,
        vpcc_packed(b),
        b.color_primaries,
        b.transfer_characteristics,
        b.matrix_coefficients,
    ] + u16_bytes(b.codec_initialization_data_size)
}

impl VpccBox {
    pub const DEFAULT_VERSION: u8 = 1;
    pub const DEFAULT_BIT_DEPTH: u8 = 8;
}

impl Mp4Box for VpccBox {
    open spec fn has_size(&self) -> bool {
        true
    }

    fn box_type(&self) -> (t: BoxType)
        ensures
            t == BoxType::VpccBox,
    {
        BoxType::VpccBox
    }

    fn box_size(&self) -> (s: u64)
        ensures
            s == 20,
    {
        HEADER_SIZE + HEADER_EXT_SIZE + 8
    }
}

impl ReadBox for VpccBox {
    open spec fn size_accepted(size: u64) -> bool {
        true
    }

    #[verifier::spinoff_prover]
    fn read_box(reader: &mut Reader, size: u64) -> (res: Result<Self>)
        ensures
            res is Ok ==> final(reader).pos() == old(reader).pos() - HEADER_SIZE + size,
            read_outcome(res, box_result(parse_vpcc(old(reader).rem()), old(reader).pos() - HEADER_SIZE, size)),
    {
        let start = box_start(reader);
        let (version, flags) = read_box_header_ext(reader)?;
        let profile: u8 = reader.read_u8()?;
        let level: u8 = reader.read_u8()?;
        let b = reader.read_u8()?;
        let bit_depth = b >> 4;
        let chroma_subsampling = (b << 4) >> 5;
        let video_full_range_flag = b & 0x01 == 1;
        let transfer_characteristics: u8 = reader.read_u8()?;
        let matrix_coefficients: u8 = reader.read_u8()?;
        let codec_initialization_data_size: u16 = reader.read_u16()?;
        skip_bytes_to(reader, start, size)?;
        Ok(VpccBox {
            version,
            flags,
            profile,
            level,
            bit_depth,
            chroma_subsampling,
            video_full_range_flag,
            color_primaries: 0,
            transfer_characteristics,
            matrix_coefficients,
            codec_initialization_data_size,
        })
    }
}

impl WriteBox for VpccBox {
    open spec fn writable(&self) -> bool {
        self.flags < 0x1000000
    }

    fn write_box(&self, writer: &mut Vec<u8>) -> (res: Result<u64>)
        ensures
            final(writer)@ == old(writer)@ + vpcc_bytes(*self),
            res == Ok::<u64, Error>(20),
    {
        assert(self.writable());
        assert(self.flags < 0x1000000);
        let size = self.box_size();
        BoxHeader::new(self.box_type(), size).write(writer)?;
        write_box_header_ext(writer, self.version, self.flags)?;
        writer.push(self.profile);
        writer.push(self.level);
        writer.push((self.bit_depth << 4) | (self.chroma_subsampling << 1) | (self.video_full_range_flag as u8));
        writer.push(self.color_primaries);
        writer.push(self.transfer_characteristics);
        writer.push(self.matrix_coefficients);
        be_write_u16(writer, self.codec_initialization_data_size);
        assert(final(writer)@ =~= old(writer)@ + vpcc_bytes(*self));
        Ok(size)
    }
}

/// Decoding the body of an encoded vpcc box gives the box back, where the
/// bit depth fits in 4 bits, the chroma subsampling in 3, and the color
/// primaries, transfer characteristics, matrix coefficients and data size
/// are 0: the decoder reads the fields after the packed byte one byte
/// early, and only zeros survive that.
#[verifier::spinoff_prover]
pub proof fn lemma_vpcc_roundtrip(b: VpccBox, rest: Seq<u8>)
    requires
        b.flags < 0x1000000,
        b.bit_depth < 16,
        b.chroma_subsampling < 8,
        b.color_primaries == 0,
        b.transfer_characteristics == 0,
        b.matrix_coefficients == 0,
        b.codec_initialization_data_size == 0,
    ensures
        vpcc_bytes(b).len() == 20,
        parse_vpcc((vpcc_bytes(b) + rest).skip(8)) == Ok::<VpccBox, Error>(b),
{
    lemma_u24_roundtrip(b.flags);
    lemma_u16_roundtrip(0);
    let d = b.bit_depth;
    let c = b.chroma_subsampling;
    let f: u8 = if b.video_full_range_flag { 1 } else { 0 };
    assert(d < 16 && c < 8 && f < 2 ==> {
        let p = ((d << 4u8) | (c << 1u8) | f) as u8;
        &&& p >> 4u8 == d
        &&& ((p << 4u8) as u8) >> 5u8 == c
        &&& (p & 0x01u8 == 1) == (f == 1)
    }) by (bit_vector);
    assert(u16_bytes(0) =~= seq![(0u16 >> 8u16) as u8, 0u16 as u8]);
    assert((0u16 >> 8u16) as u8 == 0 && 0u16 as u8 == 0) by (bit_vector);
    let s = (vpcc_bytes(b) + rest).skip(8);
    assert(s[9] == 0 && s[10] == 0);
    assert(be16_at(s, 9) == 0) by {
        assert(((0u8 as u16) << 8u16 | (0u8 as u16)) as u16 == 0) by (bit_vector);
    }
}

} // verus!
