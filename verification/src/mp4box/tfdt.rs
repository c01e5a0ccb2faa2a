//! The track fragment decode time box.
use crate::bigendian::{
    be_write_u32, be_write_u64, group_take_lemmas, lemma_u32_roundtrip, lemma_u64_of_bytes, u32_bytes,
    u64_bytes,
};
use crate::error::{Error, Result};
use crate::mp4box::{
    be32_at, be64_at, ext_bytes, header_bytes, read_box_header_ext, read_outcome, write_box_header_ext,
    BoxHeader, Mp4Box, ReadBox, WriteBox, HEADER_EXT_SIZE, HEADER_SIZE,
};
use crate::reader::Reader;
use crate::types::BoxType;
use vstd::prelude::*;

verus! {

broadcast use group_take_lemmas;

#[derive(Debug, Clone, PartialEq, Eq, Structural)]
pub struct TfdtBox {
    pub version: u8,
    pub base_media_decode_time: u64,
}

impl View for TfdtBox {
    type V = TfdtBox;

    open spec fn view(&self) -> TfdtBox {
        *self
    }
}

impl Default for TfdtBox {
    fn default() -> (b: Self)
        ensures
            b == (TfdtBox { version: 0, base_media_decode_time: 0 }),
    {
        TfdtBox { version: 0, base_media_decode_time: 0 }
    }
}

/// The size of a tfdt box of version 0 or 1.
pub open spec fn tfdt_size(v: u8) -> u64 {
    if v == 0 {
        16
    } else {
        20
    }
}

/// The tfdt box that the body at the start of `s` encodes: a 32-bit time in
/// version 0, a 64-bit one in version 1; the flags are not kept.
pub open spec fn parse_tfdt(s: Seq<u8>) -> Result<TfdtBox> {
    if s.len() < 4 {
        Err(Error::IoError)
    } else if s[0] == 0 {
        if s.len() < 8 {
            Err(Error::IoError)
        } else {
            Ok(TfdtBox { version: 0, base_media_decode_time: be32_at(s, 4) as u64 })
        }
    } else if s[0] == 1 {
        if s.len() < 12 {
            Err(Error::IoError)
        } else {
            Ok(TfdtBox { version: 1, base_media_decode_time: be64_at(s, 4) })
        }
    } else {
        Err(Error::InvalidData("version must be 0 or 1"))
    }
}

/// The encoding of a tfdt box of version 0 or 1, header included; the flags
/// are written as 0.
pub open spec fn tfdt_bytes(b: TfdtBox) -> Seq<u8> {
    header_bytes(BoxType::TfdtBox, tfdt_size(b.version)) + ext_bytes(b.version, 0) + if b.version == 0 {
        u32_bytes(b.base_media_decode_time as u32)
    } else {
        u64_bytes(b.base_media_decode_time)
    }
}

impl TfdtBox {
    pub fn get_type(&self) -> (t: BoxType)
        ensures
            t == BoxType::TfdtBox,
    {
        BoxType::TfdtBox
    }

    /// The size of the box, which is defined for versions 0 and 1 only.
    pub fn get_size(&self) -> (s: u64)
        requires
            self.version <= 1,
        ensures
            s == tfdt_size(self.version),
    {
        let mut size = HEADER_SIZE + HEADER_EXT_SIZE;
        if self.version == 0 {
            size = size + 4;
        } else {
            size = size + 8;
        }
        size
    }
}

impl Mp4Box for TfdtBox {
    open spec fn has_size(&self) -> bool {
        self.version <= 1
    }

    fn box_type(&self) -> (t: BoxType)
        ensures
            t == BoxType::TfdtBox,
    {
        self.get_type()
    }

    fn box_size(&self) -> (s: u64)
        ensures
            s == tfdt_size(self.version),
    {
        self.get_size()
    }
}

impl ReadBox for TfdtBox {
    open spec fn size_accepted(size: u64) -> bool {
        true
    }

    /// Decodes the box. The reader stops after the decode time: the size is
    /// not used.
    #[verifier::spinoff_prover]
    fn read_box(reader: &mut Reader, size: u64) -> (res: Result<Self>)
        ensures
            res matches Ok(b) ==> final(reader).pos() == old(reader).pos() + tfdt_size(b.version) - HEADER_SIZE,
            read_outcome(res, parse_tfdt(old(reader).rem())),
    {
        let (version, _flags) = read_box_header_ext(reader)?;
        let base_media_decode_time = if version == 0 {
            reader.read_u32()? as u64
        } else if version == 1 {
            let t = reader.read_u64()?;
            assert(old(reader).rem().skip(4).take(8) =~= old(reader).rem().subrange(4, 12));
            t
        } else {
            return Err(Error::InvalidData("version must be 0 or 1"));
        };
        Ok(TfdtBox { version, base_media_decode_time })
    }
}

impl WriteBox for TfdtBox {
    open spec fn writable(&self) -> bool {
        &&& self.version <= 1
        &&& self.version == 0 ==> self.base_media_decode_time <= u32::MAX
    }

    #[verifier::spinoff_prover]
    fn write_box(&self, writer: &mut Vec<u8>) -> (res: Result<u64>)
        ensures
            final(writer)@ == old(writer)@ + tfdt_bytes(*self),
            res == Ok::<u64, Error>(tfdt_size(self.version)),
    {
        let size = self.box_size();
        BoxHeader::new(self.box_type(), size).write(writer)?;
        write_box_header_ext(writer, self.version, 0)?;
        if self.version == 0 {
            be_write_u32(writer, self.base_media_decode_time as u32);
        } else {
            be_write_u64(writer, self.base_media_decode_time);
        }
        assert(final(writer)@ =~= old(writer)@ + tfdt_bytes(*self));
        Ok(size)
    }
}

/// Decoding the body of an encoded tfdt box gives the box back.
#[verifier::spinoff_prover]
pub proof fn lemma_tfdt_roundtrip(b: TfdtBox, rest: Seq<u8>)
    requires
        b.writable(),
    ensures
        tfdt_bytes(b).len() == tfdt_size(b.version),
        parse_tfdt((tfdt_bytes(b) + rest).skip(8)) == Ok::<TfdtBox, Error>(b),
{
    let h = header_bytes(BoxType::TfdtBox, tfdt_size(b.version));
    assert(h.len() == 8);
    let s = (tfdt_bytes(b) + rest).skip(8);
    crate::bigendian::lemma_u24_roundtrip(0);
    if b.version == 0 {
        let tail = u32_bytes(b.base_media_decode_time as u32);
        assert(s =~= ext_bytes(b.version, 0) + tail + rest);
        lemma_u32_roundtrip(b.base_media_decode_time as u32);
    } else {
        let tail = u64_bytes(b.base_media_decode_time);
        assert(s =~= ext_bytes(b.version, 0) + tail + rest);
        lemma_u64_of_bytes(b.base_media_decode_time);
        assert(s.subrange(4, 12) =~= tail);
    }
}

} // verus!
