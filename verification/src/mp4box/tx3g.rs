//! The 3GPP timed text sample entry box.
use crate::bigendian::{
    be_write_i16, be_write_u16, be_write_u32, group_take_lemmas, lemma_u16_roundtrip, lemma_u32_roundtrip,
    u16_bytes, u32_bytes,
};
use crate::error::{Error, Result};
use crate::mp4box::{
    be16_at, be32_at, box_result, box_start, header_bytes, read_outcome, skip_bytes_to, BoxHeader, Mp4Box, ReadBox,
    WriteBox, HEADER_SIZE,
};
use crate::reader::{write_all, Reader};
use crate::types::BoxType;
use vstd::prelude::*;

verus! {

broadcast use group_take_lemmas;

#[derive(Debug, Clone, Copy, PartialEq, Eq, Default, Structural)]
pub struct RgbaColor {
    pub red: u8,
    pub green: u8,
    pub blue: u8,
    pub alpha: u8,
}

#[derive(Debug, Clone, PartialEq, Eq)]
pub struct Tx3gBox {
    pub data_reference_index: u16,
    pub display_flags: u32,
    pub horizontal_justification: i8,
    pub vertical_justification: i8,
    pub bg_color_rgba: RgbaColor,
    pub box_record: [i16; 4],
    pub style_record: [u8; 12],
}

/// What a tx3g box holds, as mathematical values.
pub struct Tx3gBoxView {
    pub data_reference_index: u16,
    pub display_flags: u32,
    pub horizontal_justification: i8,
    pub vertical_justification: i8,
    pub bg_color_rgba: RgbaColor,
    pub box_record: Seq<i16>,
    pub style_record: Seq<u8>,
}

impl View for Tx3gBox {
    type V = Tx3gBoxView;

    open spec fn view(&self) -> Tx3gBoxView {
        Tx3gBoxView {
            data_reference_index: self.data_reference_index,
            display_flags: self.display_flags,
            horizontal_justification: self.horizontal_justification,
            vertical_justification: self.vertical_justification,
            bg_color_rgba: self.bg_color_rgba,
            box_record: self.box_record@,
            style_record: self.style_record@,
        }
    }
}

impl Default for Tx3gBox {
    fn default() -> (b: Self)
        ensures
            b.data_reference_index == 0,
            b.display_flags == 0,
            b.horizontal_justification == 1,
            b.vertical_justification == -1,
            b.bg_color_rgba == (RgbaColor { red: 0, green: 0, blue: 0, alpha: 255 }),
            b.box_record@ == seq![0i16, 0, 0, 0],
            b.style_record@ == seq![0u8, 0, 0, 0, 0, 1, 0, 16, 255, 255, 255, 255],
    {
        let b = Tx3gBox {
            data_reference_index: 0,
            display_flags: 0,
            horizontal_justification: 1,
            vertical_justification: -1,
            bg_color_rgba: RgbaColor { red: 0, green: 0, blue: 0, alpha: 255 },
            box_record: [0, 0, 0, 0],
            style_record: [0, 0, 0, 0, 0, 1, 0, 16, 255, 255, 255, 255],
        };
        assert(b.box_record@ =~= seq![0i16, 0, 0, 0]);
        assert(b.style_record@ =~= seq![0u8, 0, 0, 0, 0, 1, 0, 16, 255, 255, 255, 255]);
        b
    }
}

/// The tx3g box that the body at the start of `s` encodes: six reserved
/// bytes, then the fields, the box record as four big-endian `i16`s and the
/// style record.
pub open spec fn parse_tx3g(s: Seq<u8>) -> Result<Tx3gBoxView> {
    if s.len() < 38 {
        Err(Error::IoError)
    } else {
        Ok(Tx3gBoxView {
            data_reference_index: be16_at(s, 6),
            display_flags: be32_at(s, 8),
            horizontal_justification: s[12] as i8,
            vertical_justification: s[13] as i8,
            bg_color_rgba: RgbaColor { red: s[14], green: s[15], blue: s[16], alpha: s[17] },
            box_record: seq![be16_at(s, 18) as i16, be16_at(s, 20) as i16, be16_at(s, 22) as i16, be16_at(s, 24) as i16],
            style_record: s.subrange(26, 38),
        })
    }
}

/// The encoding of a tx3g box, header included.
pub open spec fn tx3g_bytes(b: Tx3gBoxView) -> Seq<u8> {
    header_bytes(BoxType::Tx3gBox, 46) + u32_bytes(0) + u16_bytes(0) + u16_bytes(b.data_reference_index) + u32_bytes(
        b.display_flags,
    ) + seq![
        b.horizontal_justification as u8,
        b.vertical_justification as u8,
        b.bg_color_rgba.red,
        b.bg_color_rgba.green,
        b.bg_color_rgba.blue,
        b.bg_color_rgba.alpha,
    ] + u16_bytes(b.box_record[0] as u16) + u16_bytes(b.box_record[1] as u16) + u16_bytes(b.box_record[2] as u16)
        + u16_bytes(b.box_record[3] as u16) + b.style_record
}

impl Tx3gBox {
    pub fn get_type(&self) -> (t: BoxType)
        ensures
            t == BoxType::Tx3gBox,
    {
        BoxType::Tx3gBox
    }

    pub fn get_size(&self) -> (s: u64)
        ensures
            s == 46,
    {
        HEADER_SIZE + 6 + 32
    }
}

impl Mp4Box for Tx3gBox {
    open spec fn has_size(&self) -> bool {
        true
    }

    fn box_type(&self) -> (t: BoxType)
        ensures
            t == BoxType::Tx3gBox,
    {
        self.get_type()
    }

    fn box_size(&self) -> (s: u64)
        ensures
            s == 46,
    {
        self.get_size()
    }
}

impl ReadBox for Tx3gBox {
    open spec fn size_accepted(size: u64) -> bool {
        true
    }

    #[verifier::spinoff_prover]
    fn read_box(reader: &mut Reader, size: u64) -> (res: Result<Self>)
        ensures
            res is Ok ==> final(reader).pos() == old(reader).pos() - HEADER_SIZE + size,
            read_outcome(res, box_result(parse_tx3g(old(reader).rem()), old(reader).pos() - HEADER_SIZE, size)),
    {
        let ghost s = old(reader).rem();
        let start = box_start(reader);
        reader.read_u32()?;
        reader.read_u16()?;
        let data_reference_index = reader.read_u16()?;
        let display_flags = reader.read_u32()?;
        let horizontal_justification = reader.read_u8()? as i8;
        let vertical_justification = reader.read_u8()? as i8;
        let red = reader.read_u8()?;
        let green = reader.read_u8()?;
        let blue = reader.read_u8()?;
        let alpha = reader.read_u8()?;
        let bg_color_rgba = RgbaColor { red, green, blue, alpha };
        let b0 = reader.read_i16()?;
        let b1 = reader.read_i16()?;
        let b2 = reader.read_i16()?;
        let b3 = reader.read_i16()?;
        let box_record: [i16; 4] = [b0, b1, b2, b3];
        let style_record = reader.read_array::<12>()?;
        proof {
            assert(box_record@ =~= seq![be16_at(s, 18) as i16, be16_at(s, 20) as i16, be16_at(s, 22) as i16, be16_at(s, 24) as i16]);
            assert(style_record@ =~= s.subrange(26, 38));
        }
        skip_bytes_to(reader, start, size)?;
        Ok(Tx3gBox {
            data_reference_index,
            display_flags,
            horizontal_justification,
            vertical_justification,
            bg_color_rgba,
            box_record,
            style_record,
        })
    }
}

impl WriteBox for Tx3gBox {
    open spec fn writable(&self) -> bool {
        true
    }

    #[verifier::spinoff_prover]
    fn write_box(&self, writer: &mut Vec<u8>) -> (res: Result<u64>)
        ensures
            final(writer)@ == old(writer)@ + tx3g_bytes(self@),
            res == Ok::<u64, Error>(46),
    {
        let size = self.box_size();
        BoxHeader::new(self.box_type(), size).write(writer)?;
        be_write_u32(writer, 0);
        be_write_u16(writer, 0);
        be_write_u16(writer, self.data_reference_index);
        be_write_u32(writer, self.display_flags);
        writer.push(self.horizontal_justification as u8);
        writer.push(self.vertical_justification as u8);
        writer.push(self.bg_color_rgba.red);
        writer.push(self.bg_color_rgba.green);
        writer.push(self.bg_color_rgba.blue);
        writer.push(self.bg_color_rgba.alpha);
        be_write_i16(writer, self.box_record[0]);
        be_write_i16(writer, self.box_record[1]);
        be_write_i16(writer, self.box_record[2]);
        be_write_i16(writer, self.box_record[3]);
        write_all(writer, &self.style_record);
        assert(final(writer)@ =~= old(writer)@ + tx3g_bytes(self@));
        Ok(size)
    }
}

/// Decoding the body of an encoded tx3g box gives the box back.
#[verifier::spinoff_prover]
pub proof fn lemma_tx3g_roundtrip(b: Tx3gBox, rest: Seq<u8>)
    ensures
        tx3g_bytes(b@).len() == 46,
        parse_tx3g((tx3g_bytes(b@) + rest).skip(8)) == Ok::<Tx3gBoxView, Error>(b@),
{
    let v = b@;
    lemma_u16_roundtrip(v.data_reference_index);
    lemma_u32_roundtrip(v.display_flags);
    let h = v.horizontal_justification;
    let w = v.vertical_justification;
    assert((h as u8) as i8 == h) by (bit_vector);
    assert((w as u8) as i8 == w) by (bit_vector);
    let r = v.box_record;
    let (r0, r1, r2, r3) = (b.box_record[0], b.box_record[1], b.box_record[2], b.box_record[3]);
    lemma_u16_roundtrip(r0 as u16);
    lemma_u16_roundtrip(r1 as u16);
    lemma_u16_roundtrip(r2 as u16);
    lemma_u16_roundtrip(r3 as u16);
    assert((r0 as u16) as i16 == r0) by (bit_vector);
    assert((r1 as u16) as i16 == r1) by (bit_vector);
    assert((r2 as u16) as i16 == r2) by (bit_vector);
    assert((r3 as u16) as i16 == r3) by (bit_vector);
    let s = (tx3g_bytes(v) + rest).skip(8);
    assert(s.subrange(26, 38) =~= v.style_record);
    assert(r =~= seq![be16_at(s, 18) as i16, be16_at(s, 20) as i16, be16_at(s, 22) as i16, be16_at(s, 24) as i16]);
}


/// An encoded tx3g box is its header and 38 bytes of body.
pub proof fn lemma_tx3g_split(b: Tx3gBox)
    ensures
        tx3g_bytes(b@) == header_bytes(BoxType::Tx3gBox, 46) + tx3g_bytes(b@).skip(8),
        header_bytes(BoxType::Tx3gBox, 46).len() == 8,
{
    lemma_tx3g_roundtrip(b, Seq::empty());
    assert(header_bytes(BoxType::Tx3gBox, 46).len() == 8);
    assert(tx3g_bytes(b@) =~= header_bytes(BoxType::Tx3gBox, 46) + tx3g_bytes(b@).skip(8));
}

} // verus!
