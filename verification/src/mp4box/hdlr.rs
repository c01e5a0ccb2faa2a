//! The handler reference box: the kind of a track's media and a name.
use crate::bigendian::{be_write_u32, group_take_lemmas, lemma_u24_roundtrip, lemma_u32_roundtrip, u32_bytes};
use crate::error::{Error, Result};
use crate::mp4box::{
    be24_at, be32_at, box_result, box_start, ext_bytes, header_bytes, read_box_header_ext, read_outcome,
    skip_bytes, skip_bytes_to, write_box_header_ext, BoxHeader, Mp4Box, ReadBox, WriteBox, HEADER_EXT_SIZE, HEADER_SIZE,
};
use crate::reader::{write_all, Reader};
use crate::text::{lemma_decoded_bytes, str_bytes, string_from_utf8};
use crate::types::{fourcc_code, fourcc_of, lemma_fourcc_of_code, BoxType, FourCC};
use vstd::prelude::*;
use vstd::utf8::{decode_utf8, encode_utf8_decode_utf8, encode_utf8_valid_utf8, valid_utf8};

verus! {

broadcast use group_take_lemmas;

#[derive(Debug, Clone, PartialEq, Eq)]
pub struct HdlrBox {
    pub version: u8,
    pub flags: u32,
    pub handler_type: FourCC,
    pub name: String,
}

/// What an hdlr box holds, as mathematical values.
pub struct HdlrBoxView {
    pub version: u8,
    pub flags: u32,
    pub handler_type: FourCC,
    pub name: Seq<char>,
}

impl View for HdlrBox {
    type V = HdlrBoxView;

    open spec fn view(&self) -> HdlrBoxView {
        HdlrBoxView { version: self.version, flags: self.flags, handler_type: self.handler_type, name: self.name@ }
    }
}

impl Default for HdlrBox {
    /// Version 0, no flags, an all-zero handler type and an empty name.
    fn default() -> (b: Self)
        ensures
            b@ == (HdlrBoxView { version: 0, flags: 0, handler_type: FourCC { value: [0u8, 0u8, 0u8, 0u8] }, name: Seq::empty() }),
    {
        HdlrBox { version: 0, flags: 0, handler_type: FourCC { value: [0, 0, 0, 0] }, name: String::new() }
    }
}

/// The size of an hdlr box whose name takes `n` bytes.
pub open spec fn hdlr_size(n: nat) -> int {
    33 + n as int
}

/// The name that `b` holds: its UTF-8 decoding, or "null" where it is not
/// UTF-8.
pub open spec fn hdlr_name(b: Seq<u8>) -> Seq<char> {
    if valid_utf8(b) {
        decode_utf8(b)
    } else {
        "null"@
    }
}

/// The hdlr box that the body at the start of `s` encodes, in a box that is
/// `size` bytes long and starts at `start`: the name fills the box up to
/// its last byte, which ends it. The 12 reserved bytes are skipped, not
/// read, so an empty name needs no bytes there.
pub open spec fn parse_hdlr(s: Seq<u8>, start: int, size: u64) -> Result<HdlrBoxView> {
    if s.len() < 12 {
        Err(Error::IoError)
    } else if start + 32 > u64::MAX {
        Err(Error::InvalidData("box end out of range"))
    } else if size < 33 {
        Err(Error::InvalidData("hdlr size too small"))
    } else if size > 33 && s.len() < 24 + (size - 33) {
        Err(Error::IoError)
    } else {
        Ok(HdlrBoxView {
            version: s[0],
            flags: be24_at(s, 1),
            handler_type: fourcc_of(be32_at(s, 8)),
            name: hdlr_name(if size == 33 { Seq::empty() } else { s.subrange(24, 24 + (size - 33)) }),
        })
    }
}

/// The encoding of an hdlr box, header included.
pub open spec fn hdlr_bytes(b: HdlrBoxView) -> Seq<u8> {
    header_bytes(BoxType::HdlrBox, hdlr_size(str_bytes(b.name).len()) as u64) + (ext_bytes(b.version, b.flags) + (
    u32_bytes(0) + (u32_bytes(fourcc_code(b.handler_type)) + (u32_bytes(0) + u32_bytes(0) + u32_bytes(0)
        + (str_bytes(b.name) + seq![0u8])))))
}

impl HdlrBox {
    pub fn get_type(&self) -> (t: BoxType)
        ensures
            t == BoxType::HdlrBox,
    {
        BoxType::HdlrBox
    }

    pub fn get_size(&self) -> (s: u64)
        requires
            hdlr_size(str_bytes(self.name@).len()) <= u64::MAX,
        ensures
            s == hdlr_size(str_bytes(self.name@).len()),
    {
        proof {
            reveal(str_bytes);
        }
        HEADER_SIZE + HEADER_EXT_SIZE + 20 + self.name.as_str().as_bytes().len() as u64 + 1
    }
}

impl Mp4Box for HdlrBox {
    open spec fn has_size(&self) -> bool {
        hdlr_size(str_bytes(self.name@).len()) <= u64::MAX
    }

    fn box_type(&self) -> (t: BoxType)
        ensures
            t == BoxType::HdlrBox,
    {
        self.get_type()
    }

    fn box_size(&self) -> (s: u64)
        ensures
            s == hdlr_size(str_bytes(self.name@).len()),
    {
        self.get_size()
    }
}

impl ReadBox for HdlrBox {
    open spec fn size_accepted(size: u64) -> bool {
        true
    }

    /// Decodes the box; a box too small for its fixed fields is refused as
    /// invalid data.
    #[verifier::spinoff_prover]
    fn read_box(reader: &mut Reader, size: u64) -> (res: Result<Self>)
        ensures
            res is Ok ==> final(reader).pos() == old(reader).pos() - HEADER_SIZE + size,
            read_outcome(res, box_result(parse_hdlr(old(reader).rem(), old(reader).pos() - HEADER_SIZE, size), old(reader).pos() - HEADER_SIZE, size)),
    {
        let ghost s = old(reader).rem();
        let start = box_start(reader);
        let (version, flags) = read_box_header_ext(reader)?;
        reader.read_u32()?;
        let handler = reader.read_u32()?;
        skip_bytes(reader, 12)?;
        assert(s.len() >= 24 ==> reader.rem() =~= s.skip(24));
        if size < HEADER_SIZE + HEADER_EXT_SIZE + 20 + 1 {
            return Err(Error::InvalidData("hdlr size too small"));
        }
        let buf_size = size - HEADER_SIZE - HEADER_EXT_SIZE - 20 - 1;
        let buf = reader.read_bytes(buf_size)?;
        let ghost raw = buf@;
        assert(raw =~= if size == 33 { Seq::empty() } else { s.subrange(24, 24 + (size - 33)) });
        let name = match string_from_utf8(buf) {
            Some(t) => {
                proof {
                    lemma_decoded_bytes(raw);
                    reveal(str_bytes);
                }
                if t.as_str().as_bytes().len() as u64 != buf_size {
                    return Err(Error::InvalidData("string too small"));
                }
                t
            },
            None => {
                let t = String::from_str("null");
                proof {
                    reveal_strlit("null");
                }
                t
            },
        };
        skip_bytes_to(reader, start, size)?;
        Ok(HdlrBox { version, flags, handler_type: FourCC::from_u32(handler), name })
    }
}

impl WriteBox for HdlrBox {
    open spec fn writable(&self) -> bool {
        &&& self.flags < 0x1000000
        &&& self.has_size()
    }

    #[verifier::spinoff_prover]
    fn write_box(&self, writer: &mut Vec<u8>) -> (res: Result<u64>)
        ensures
            final(writer)@ == old(writer)@ + hdlr_bytes(self@),
            res == Ok::<u64, Error>(hdlr_size(str_bytes(self.name@).len()) as u64),
    {
        let size = self.box_size();
        BoxHeader::new(self.box_type(), size).write(writer)?;
        write_box_header_ext(writer, self.version, self.flags)?;
        be_write_u32(writer, 0);
        be_write_u32(writer, self.handler_type.to_u32());
        be_write_u32(writer, 0);
        be_write_u32(writer, 0);
        be_write_u32(writer, 0);
        proof {
            reveal(str_bytes);
        }
        write_all(writer, self.name.as_str().as_bytes());
        writer.push(0);
        assert(final(writer)@ =~= old(writer)@ + hdlr_bytes(self@));
        Ok(size)
    }
}

/// Decoding the body of an encoded hdlr box gives the box back, where the
/// box is small enough for a 32-bit size and ends at a position that a
/// `u64` can hold.
#[verifier::spinoff_prover]
pub proof fn lemma_hdlr_roundtrip(b: HdlrBoxView, start: int, rest: Seq<u8>)
    requires
        b.flags < 0x1000000,
        0 <= start,
        start + hdlr_size(str_bytes(b.name).len()) <= u64::MAX,
        hdlr_size(str_bytes(b.name).len()) <= u32::MAX,
    ensures
        hdlr_bytes(b).len() == hdlr_size(str_bytes(b.name).len()),
        parse_hdlr((hdlr_bytes(b) + rest).skip(8), start, hdlr_size(str_bytes(b.name).len()) as u64) == Ok::<
            HdlrBoxView,
            Error,
        >(b),
{
    reveal(str_bytes);
    let n = str_bytes(b.name);
    lemma_u24_roundtrip(b.flags);
    lemma_u32_roundtrip(fourcc_code(b.handler_type));
    lemma_fourcc_of_code(b.handler_type);
    encode_utf8_valid_utf8(b.name);
    encode_utf8_decode_utf8(b.name);
    let h = header_bytes(BoxType::HdlrBox, hdlr_size(n.len()) as u64);
    assert(h.len() == 8);
    let s = (hdlr_bytes(b) + rest).skip(8);
    assert(s =~= ext_bytes(b.version, b.flags) + u32_bytes(0) + u32_bytes(fourcc_code(b.handler_type)) + u32_bytes(0)
        + u32_bytes(0) + u32_bytes(0) + (n + (seq![0u8] + rest)));
    assert(s.subrange(24, 24 + n.len() as int) =~= n);
}

} // verus!
