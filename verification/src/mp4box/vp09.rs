//! The VP9 sample entry box.
use crate::bigendian::{be_write_u16, group_take_lemmas, lemma_u16_roundtrip, lemma_u24_roundtrip, u16_bytes};
use crate::error::{Error, Result};
use crate::mp4box::vpcc::{lemma_vpcc_roundtrip, parse_vpcc, vpcc_bytes, VpccBox};
use crate::mp4box::{
    be16_at, be24_at, box_result, box_start, ext_bytes, header_bytes, lemma_header_roundtrip, parse_header,
    read_box_header_ext, read_outcome, skip_bytes_to, write_box_header_ext, BoxHeader, Mp4Box, ReadBox,
    WriteBox, HEADER_SIZE,
};
use crate::reader::{write_all, Reader};
use crate::types::{BoxType, Vp9Config};
use vstd::prelude::*;

verus! {

broadcast use group_take_lemmas;

#[derive(Debug, Clone, Copy, PartialEq, Eq, Default)]
pub struct Vp09Box {
    pub version: u8,
    pub flags: u32,
    pub start_code: u16,
    pub data_reference_index: u16,
    pub reserved0: [u8; 16],
    pub width: u16,
    pub height: u16,
    pub horizresolution: (u16, u16),
    pub vertresolution: (u16, u16),
    pub reserved1: [u8; 4],
    pub frame_count: u16,
    pub compressorname: [u8; 32],
    pub depth: u16,
    pub end_code: u16,
    pub vpcc: VpccBox,
}

/// What a vp09 box holds, as mathematical values.
pub struct Vp09BoxView {
    pub version: u8,
    pub flags: u32,
    pub start_code: u16,
    pub data_reference_index: u16,
    pub reserved0: Seq<u8>,
    pub width: u16,
    pub height: u16,
    pub horizresolution: (u16, u16),
    pub vertresolution: (u16, u16),
    pub reserved1: Seq<u8>,
    pub frame_count: u16,
    pub compressorname: Seq<u8>,
    pub depth: u16,
    pub end_code: u16,
    pub vpcc: VpccBox,
}

impl View for Vp09Box {
    type V = Vp09BoxView;

    open spec fn view(&self) -> Vp09BoxView {
        Vp09BoxView {
            version: self.version,
            flags: self.flags,
            start_code: self.start_code,
            data_reference_index: self.data_reference_index,
            reserved0: self.reserved0@,
            width: self.width,
            height: self.height,
            horizresolution: self.horizresolution,
            vertresolution: self.vertresolution,
            reserved1: self.reserved1@,
            frame_count: self.frame_count,
            compressorname: self.compressorname@,
            depth: self.depth,
            end_code: self.end_code,
            vpcc: self.vpcc,
        }
    }
}

/// The fields of a vp09 box whose 78 body bytes start `s`, with `vpcc` as
/// its configuration box.
pub open spec fn vp09_fields(s: Seq<u8>, vpcc: VpccBox) -> Vp09BoxView {
    Vp09BoxView {
        version: s[0],
        flags: be24_at(s, 1),
        start_code: be16_at(s, 4),
        data_reference_index: be16_at(s, 6),
        reserved0: s.subrange(8, 24),
        width: be16_at(s, 24),
        height: be16_at(s, 26),
        horizresolution: (be16_at(s, 28), be16_at(s, 30)),
        vertresolution: (be16_at(s, 32), be16_at(s, 34)),
        reserved1: s.subrange(36, 40),
        frame_count: be16_at(s, 40),
        compressorname: s.subrange(42, 74),
        depth: be16_at(s, 74),
        end_code: be16_at(s, 76),
        vpcc,
    }
}

/// The vp09 box whose body starts `s`, `s` standing at position `pos` and
/// the box being `size` bytes long: 78 bytes of fields, then a vpcc box,
/// read through its own header wherever that header says it ends.
pub open spec fn parse_vp09(s: Seq<u8>, pos: int, size: u64) -> Result<Vp09BoxView> {
    if s.len() < 78 {
        Err(Error::IoError)
    } else {
        match parse_header(s.skip(78)) {
            Err(e) => Err(e),
            Ok((h, n)) => match box_result(parse_vpcc(s.skip(78 + n)), pos + 78 + n - HEADER_SIZE, h.size) {
                Err(e) => Err(e),
                Ok(vpcc) => box_result(Ok(vp09_fields(s, vpcc)), pos - HEADER_SIZE, size),
            },
        }
    }
}

/// The 78 body bytes of a vp09 box before its vpcc box.
#[verifier::opaque]
pub open spec fn vp09_body_bytes(b: Vp09BoxView) -> Seq<u8> {
    ext_bytes(b.version, b.flags) + u16_bytes(b.start_code) + u16_bytes(b.data_reference_index) + b.reserved0
        + u16_bytes(b.width) + u16_bytes(b.height) + u16_bytes(b.horizresolution.0) + u16_bytes(
        b.horizresolution.1,
    ) + u16_bytes(b.vertresolution.0) + u16_bytes(b.vertresolution.1) + b.reserved1 + u16_bytes(b.frame_count)
        + b.compressorname + u16_bytes(b.depth) + u16_bytes(b.end_code)
}

/// The encoding of a vp09 box, header included: its size is always
/// written as 106.
pub open spec fn vp09_bytes(b: Vp09BoxView) -> Seq<u8> {
    header_bytes(BoxType::Vp09Box, 106) + (vp09_body_bytes(b) + vpcc_bytes(b.vpcc))
}

impl Vp09Box {
    pub const DEFAULT_START_CODE: u16 = 0;
    pub const DEFAULT_END_CODE: u16 = 0xFFFF;
    pub const DEFAULT_DATA_REFERENCE_INDEX: u16 = 1;
    pub const DEFAULT_HORIZRESOLUTION: (u16, u16) = (0x48, 0x00);
    pub const DEFAULT_VERTRESOLUTION: (u16, u16) = (0x48, 0x00);
    pub const DEFAULT_FRAME_COUNT: u16 = 1;
    pub const DEFAULT_COMPRESSORNAME: [u8; 32] = [
        0, 0, 0, 0, 0, 0, 0, 0, 0, 0, 0, 0, 0, 0, 0, 0, 0, 0, 0, 0, 0, 0, 0, 0, 0, 0, 0, 0, 0, 0, 0, 0,
    ];
    pub const DEFAULT_DEPTH: u16 = 24;

    /// The sample entry for a VP9 track of the configured dimensions, with
    /// default values elsewhere.
    pub fn new(config: &Vp9Config) -> (b: Self)
        ensures
            b.version == 0,
            b.flags == 0,
            b.start_code == 0,
            b.data_reference_index == 1,
            b.reserved0@ == Seq::new(16, |i: int| 0u8),
            b.width == config.width,
            b.height == config.height,
            b.horizresolution == (0x48u16, 0u16),
            b.vertresolution == (0x48u16, 0u16),
            b.reserved1@ == Seq::new(4, |i: int| 0u8),
            b.frame_count == 1,
            b.compressorname@ == Seq::new(32, |i: int| 0u8),
            b.depth == 24,
            b.end_code == 0xFFFF,
            b.vpcc == (VpccBox {
                version: 1,
                flags: 0,
                profile: 0,
                level: 0x1F,
                bit_depth: 8,
                chroma_subsampling: 0,
                video_full_range_flag: false,
                color_primaries: 0,
                transfer_characteristics: 0,
                matrix_coefficients: 0,
                codec_initialization_data_size: 0,
            }),
    {
        let b = Vp09Box {
            version: 0,
            flags: 0,
            start_code: Vp09Box::DEFAULT_START_CODE,
            data_reference_index: Vp09Box::DEFAULT_DATA_REFERENCE_INDEX,
            reserved0: [0u8; 16],
            width: config.width,
            height: config.height,
            horizresolution: Vp09Box::DEFAULT_HORIZRESOLUTION,
            vertresolution: Vp09Box::DEFAULT_VERTRESOLUTION,
            reserved1: [0u8; 4],
            frame_count: Vp09Box::DEFAULT_FRAME_COUNT,
            compressorname: Vp09Box::DEFAULT_COMPRESSORNAME,
            depth: Vp09Box::DEFAULT_DEPTH,
            end_code: Vp09Box::DEFAULT_END_CODE,
            vpcc: VpccBox {
                version: VpccBox::DEFAULT_VERSION,
                flags: 0,
                profile: 0,
                level: 0x1F,
                bit_depth: VpccBox::DEFAULT_BIT_DEPTH,
                chroma_subsampling: 0,
                video_full_range_flag: false,
                color_primaries: 0,
                transfer_characteristics: 0,
                matrix_coefficients: 0,
                codec_initialization_data_size: 0,
            },
        };
        assert(b.reserved0@ =~= Seq::new(16, |i: int| 0u8));
        assert(b.reserved1@ =~= Seq::new(4, |i: int| 0u8));
        assert(b.compressorname@ =~= Seq::new(32, |i: int| 0u8));
        b
    }

    pub fn get_type(&self) -> (t: BoxType)
        ensures
            t == BoxType::Vp09Box,
    {
        BoxType::Vp09Box
    }

    pub fn get_size(&self) -> (s: u64)
        ensures
            s == 106,
    {
        0x6A
    }
}

impl Mp4Box for Vp09Box {
    open spec fn has_size(&self) -> bool {
        true
    }

    fn box_type(&self) -> (t: BoxType)
        ensures
            t == BoxType::Vp09Box,
    {
        self.get_type()
    }

    fn box_size(&self) -> (s: u64)
        ensures
            s == 106,
    {
        self.get_size()
    }
}

impl ReadBox for Vp09Box {
    open spec fn size_accepted(size: u64) -> bool {
        true
    }

    #[verifier::spinoff_prover]
    #[verifier::rlimit(30)]
    fn read_box(reader: &mut Reader, size: u64) -> (res: Result<Self>)
        ensures
            res is Ok ==> final(reader).pos() == old(reader).pos() - HEADER_SIZE + size,
            read_outcome(res, parse_vp09(old(reader).rem(), old(reader).pos(), size)),
    {
        let ghost s = old(reader).rem();
        let start = box_start(reader);
        let (version, flags) = read_box_header_ext(reader)?;
        let start_code = reader.read_u16()?;
        let data_reference_index = reader.read_u16()?;
        let reserved0 = reader.read_array::<16>()?;
        let width = reader.read_u16()?;
        let height = reader.read_u16()?;
        let h0 = reader.read_u16()?;
        let h1 = reader.read_u16()?;
        let v0 = reader.read_u16()?;
        let v1 = reader.read_u16()?;
        let reserved1 = reader.read_array::<4>()?;
        let frame_count = reader.read_u16()?;
        let compressorname = reader.read_array::<32>()?;
        let depth = reader.read_u16()?;
        let end_code = reader.read_u16()?;
        proof {
            assert(reader.rem() =~= s.skip(78));
            assert(reserved0@ =~= s.subrange(8, 24));
            assert(reserved1@ =~= s.subrange(36, 40));
            assert(compressorname@ =~= s.subrange(42, 74));
        }
        let header = BoxHeader::read(reader)?;
        let vpcc = VpccBox::read_box(reader, header.size)?;
        skip_bytes_to(reader, start, size)?;
        let b = Vp09Box {
            version,
            flags,
            start_code,
            data_reference_index,
            reserved0,
            width,
            height,
            horizresolution: (h0, h1),
            vertresolution: (v0, v1),
            reserved1,
            frame_count,
            compressorname,
            depth,
            end_code,
            vpcc,
        };
        assert(b@ == vp09_fields(s, vpcc));
        Ok(b)
    }
}

impl WriteBox for Vp09Box {
    open spec fn writable(&self) -> bool {
        self.flags < 0x1000000 && self.vpcc.flags < 0x1000000
    }

    #[verifier::spinoff_prover]
    fn write_box(&self, writer: &mut Vec<u8>) -> (res: Result<u64>)
        ensures
            final(writer)@ == old(writer)@ + vp09_bytes(self@),
            res == Ok::<u64, Error>(106),
    {
        let size = self.box_size();
        BoxHeader::new(self.box_type(), size).write(writer)?;
        write_box_header_ext(writer, self.version, self.flags)?;
        be_write_u16(writer, self.start_code);
        be_write_u16(writer, self.data_reference_index);
        write_all(writer, &self.reserved0);
        be_write_u16(writer, self.width);
        be_write_u16(writer, self.height);
        be_write_u16(writer, self.horizresolution.0);
        be_write_u16(writer, self.horizresolution.1);
        be_write_u16(writer, self.vertresolution.0);
        be_write_u16(writer, self.vertresolution.1);
        write_all(writer, &self.reserved1);
        be_write_u16(writer, self.frame_count);
        write_all(writer, &self.compressorname);
        be_write_u16(writer, self.depth);
        be_write_u16(writer, self.end_code);
        self.vpcc.write_box(writer)?;
        reveal(vp09_body_bytes);
        assert(final(writer)@ =~= old(writer)@ + vp09_bytes(self@));
        Ok(size)
    }
}

/// A `u16` whose two bytes stand at offset `o` of `s` is read back there.
#[verifier::spinoff_prover]
proof fn lemma_be16_at_bytes(s: Seq<u8>, o: int, x: u16)
    requires
        0 <= o,
        o + 2 <= s.len(),
        s.subrange(o, o + 2) == u16_bytes(x),
    ensures
        be16_at(s, o) == x,
{
    lemma_u16_roundtrip(x);
    assert(s[o] == s.subrange(o, o + 2)[0]);
    assert(s[o + 1] == s.subrange(o, o + 2)[1]);
}

/// The fields of an encoded vp09 body are read back at their offsets.
#[verifier::spinoff_prover]
proof fn lemma_vp09_fields(b: Vp09BoxView, t: Seq<u8>)
    requires
        b.flags < 0x1000000,
        b.reserved0.len() == 16,
        b.reserved1.len() == 4,
        b.compressorname.len() == 32,
    ensures
        vp09_body_bytes(b).len() == 78,
        vp09_fields(vp09_body_bytes(b) + t, b.vpcc) == b,
{
    reveal(vp09_body_bytes);
    let s = vp09_body_bytes(b) + t;
    lemma_u24_roundtrip(b.flags);
    assert(s.subrange(4, 6) =~= u16_bytes(b.start_code));
    assert(s.subrange(6, 8) =~= u16_bytes(b.data_reference_index));
    assert(s.subrange(24, 26) =~= u16_bytes(b.width));
    assert(s.subrange(26, 28) =~= u16_bytes(b.height));
    assert(s.subrange(28, 30) =~= u16_bytes(b.horizresolution.0));
    assert(s.subrange(30, 32) =~= u16_bytes(b.horizresolution.1));
    assert(s.subrange(32, 34) =~= u16_bytes(b.vertresolution.0));
    assert(s.subrange(34, 36) =~= u16_bytes(b.vertresolution.1));
    assert(s.subrange(40, 42) =~= u16_bytes(b.frame_count));
    assert(s.subrange(74, 76) =~= u16_bytes(b.depth));
    assert(s.subrange(76, 78) =~= u16_bytes(b.end_code));
    lemma_be16_at_bytes(s, 4, b.start_code);
    lemma_be16_at_bytes(s, 6, b.data_reference_index);
    lemma_be16_at_bytes(s, 24, b.width);
    lemma_be16_at_bytes(s, 26, b.height);
    lemma_be16_at_bytes(s, 28, b.horizresolution.0);
    lemma_be16_at_bytes(s, 30, b.horizresolution.1);
    lemma_be16_at_bytes(s, 32, b.vertresolution.0);
    lemma_be16_at_bytes(s, 34, b.vertresolution.1);
    lemma_be16_at_bytes(s, 40, b.frame_count);
    lemma_be16_at_bytes(s, 74, b.depth);
    lemma_be16_at_bytes(s, 76, b.end_code);
    assert(s.subrange(8, 24) =~= b.reserved0);
    assert(s.subrange(36, 40) =~= b.reserved1);
    assert(s.subrange(42, 74) =~= b.compressorname);
}

/// An encoded vp09 box is its header, its body and its vpcc box.
#[verifier::spinoff_prover]
proof fn lemma_vp09_split(b: Vp09BoxView, rest: Seq<u8>)
    requires
        b.flags < 0x1000000,
        b.reserved0.len() == 16,
        b.reserved1.len() == 4,
        b.compressorname.len() == 32,
    ensures
        vp09_bytes(b).len() == 106,
        (vp09_bytes(b) + rest).skip(8) == vp09_body_bytes(b) + (vpcc_bytes(b.vpcc) + rest),
        (vp09_bytes(b) + rest).skip(8).skip(78) == vpcc_bytes(b.vpcc) + rest,
{
    let h = header_bytes(BoxType::Vp09Box, 106);
    let body = vp09_body_bytes(b);
    let t = vpcc_bytes(b.vpcc) + rest;
    lemma_vp09_fields(b, t);
    lemma_header_roundtrip(BoxType::Vp09Box, 106, body + t);
    assert(h + (body + vpcc_bytes(b.vpcc)) + rest =~= h + (body + t));
    assert((body + t).skip(78) =~= t);
}

/// The vpcc box at the end of an encoded vp09 box reads its header back.
#[verifier::spinoff_prover]
proof fn lemma_vp09_vpcc_header(c: VpccBox, rest: Seq<u8>)
    ensures
        parse_header(vpcc_bytes(c) + rest) == Ok::<(BoxHeader, int), Error>(
            (BoxHeader { name: BoxType::VpccBox, size: 20 }, 8),
        ),
{
    let v = vpcc_bytes(c);
    let vh = header_bytes(BoxType::VpccBox, 20);
    assert(v =~= vh + v.skip(8));
    assert(v + rest =~= vh + (v.skip(8) + rest));
    lemma_header_roundtrip(BoxType::VpccBox, 20, v.skip(8) + rest);
}

/// Decoding the body of an encoded vp09 box gives the box back, where the
/// box stands at a position from which its end can be reached and its vpcc
/// box is one that reads back as itself.
#[verifier::spinoff_prover]
pub proof fn lemma_vp09_roundtrip(b: Vp09BoxView, pos: int, rest: Seq<u8>)
    requires
        b.flags < 0x1000000,
        b.reserved0.len() == 16,
        b.reserved1.len() == 4,
        b.compressorname.len() == 32,
        b.vpcc.flags < 0x1000000,
        b.vpcc.bit_depth < 16,
        b.vpcc.chroma_subsampling < 8,
        b.vpcc.color_primaries == 0,
        b.vpcc.transfer_characteristics == 0,
        b.vpcc.matrix_coefficients == 0,
        b.vpcc.codec_initialization_data_size == 0,
        HEADER_SIZE <= pos,
        pos + 98 <= u64::MAX,
    ensures
        vp09_bytes(b).len() == 106,
        parse_vp09((vp09_bytes(b) + rest).skip(8), pos, 106) == Ok::<Vp09BoxView, Error>(b),
{
    let t = vpcc_bytes(b.vpcc) + rest;
    lemma_vp09_split(b, rest);
    lemma_vp09_fields(b, t);
    lemma_vp09_vpcc_header(b.vpcc, rest);
    lemma_vpcc_roundtrip(b.vpcc, rest);
    let s = (vp09_bytes(b) + rest).skip(8);
    assert(s.skip(78).skip(8) =~= s.skip(86));
}


/// Whether the encoding of a vp09 box keeps all of it: its fields fit
/// their bytes and its vpcc box holds what reads back as itself.
pub open spec fn vp09_kept(b: Vp09BoxView) -> bool {
    &&& b.flags < 0x1000000
    &&& b.reserved0.len() == 16
    &&& b.reserved1.len() == 4
    &&& b.compressorname.len() == 32
    &&& b.vpcc.flags < 0x1000000
    &&& b.vpcc.bit_depth < 16
    &&& b.vpcc.chroma_subsampling < 8
    &&& b.vpcc.color_primaries == 0
    &&& b.vpcc.transfer_characteristics == 0
    &&& b.vpcc.matrix_coefficients == 0
    &&& b.vpcc.codec_initialization_data_size == 0
}

/// Reading the body of an encoded vp09 box that starts `s`, in a box of any
/// size that ends at a position a `u64` can hold, gives it back, where its
/// encoding keeps all of it.
#[verifier::spinoff_prover]
pub proof fn lemma_vp09_body(b: Vp09BoxView, pos: int, size: u64, rest: Seq<u8>)
    requires
        vp09_kept(b),
        HEADER_SIZE <= pos,
        pos + 98 <= u64::MAX,
        pos - HEADER_SIZE + size <= u64::MAX,
    ensures
        vp09_bytes(b).len() == 106,
        parse_vp09((vp09_bytes(b) + rest).skip(8), pos, size) == Ok::<Vp09BoxView, Error>(b),
{
    lemma_vp09_roundtrip(b, pos, rest);
}

} // verus!
