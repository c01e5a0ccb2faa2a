//! The movie extends header box: the duration of a fragmented movie.
use crate::bigendian::{
    be_write_u32, be_write_u64, group_take_lemmas, lemma_u24_roundtrip, lemma_u32_roundtrip,
    lemma_u64_of_bytes, u32_bytes, u64_bytes,
};
use crate::error::{Error, Result};
use crate::mp4box::{
    be24_at, be32_at, be64_at, box_result, box_start, ext_bytes, header_bytes, read_box_header_ext,
    read_outcome, skip_bytes_to, write_box_header_ext, BoxHeader, Mp4Box, ReadBox, WriteBox,
    HEADER_EXT_SIZE, HEADER_SIZE,
};
use crate::reader::Reader;
use crate::types::BoxType;
use vstd::prelude::*;

verus! {

broadcast use group_take_lemmas;

#[derive(Debug, Clone, PartialEq, Eq, Structural)]
pub struct MehdBox {
    pub version: u8,
    pub flags: u32,
    pub fragment_duration: u64,
}

impl View for MehdBox {
    type V = MehdBox;

    open spec fn view(&self) -> MehdBox {
        *self
    }
}

impl Default for MehdBox {
    fn default() -> (b: Self)
        ensures
            b == (MehdBox { version: 0, flags: 0, fragment_duration: 0 }),
    {
        MehdBox { version: 0, flags: 0, fragment_duration: 0 }
    }
}

/// The size of an mehd box of version `v`: the duration takes 8 bytes in
/// version 1, 4 in version 0 and none otherwise.
pub open spec fn mehd_size(v: u8) -> u64 {
    if v == 1 {
        20
    } else if v == 0 {
        16
    } else {
        12
    }
}

/// The mehd box that the body at the start of `s` encodes: a 64-bit
/// duration in version 1, a 32-bit one in version 0.
pub open spec fn parse_mehd(s: Seq<u8>) -> Result<MehdBox> {
    if s.len() < 4 {
        Err(Error::IoError)
    } else if s[0] == 1 {
        if s.len() < 12 {
            Err(Error::IoError)
        } else {
            Ok(MehdBox { version: 1, flags: be24_at(s, 1), fragment_duration: be64_at(s, 4) })
        }
    } else if s[0] == 0 {
        if s.len() < 8 {
            Err(Error::IoError)
        } else {
            Ok(MehdBox { version: 0, flags: be24_at(s, 1), fragment_duration: be32_at(s, 4) as u64 })
        }
    } else {
        Err(Error::InvalidData("version must be 0 or 1"))
    }
}

/// The encoding of an mehd box of version 0 or 1, header included; in
/// version 0 the duration is cut to its low 32 bits.
pub open spec fn mehd_bytes(b: MehdBox) -> Seq<u8> {
    header_bytes(BoxType::MehdBox, mehd_size(b.version)) + ext_bytes(b.version, b.flags) + if b.version
        == 1 {
        u64_bytes(b.fragment_duration)
    } else {
        u32_bytes(b.fragment_duration as u32)
    }
}

impl MehdBox {
    pub fn get_type(&self) -> (t: BoxType)
        ensures
            t == BoxType::MehdBox,
    {
        BoxType::MehdBox
    }

    pub fn get_size(&self) -> (s: u64)
        ensures
            s == mehd_size(self.version),
    {
        let mut size = HEADER_SIZE + HEADER_EXT_SIZE;
        if self.version == 1 {
            size = size + 8;
        } else if self.version == 0 {
            size = size + 4;
        }
        size
    }
}

impl Mp4Box for MehdBox {
    open spec fn has_size(&self) -> bool {
        true
    }

    fn box_type(&self) -> (t: BoxType)
        ensures
            t == BoxType::MehdBox,
    {
        self.get_type()
    }

    fn box_size(&self) -> (s: u64)
        ensures
            s == mehd_size(self.version),
    {
        self.get_size()
    }
}

impl ReadBox for MehdBox {
    open spec fn size_accepted(size: u64) -> bool {
        true
    }

    #[verifier::spinoff_prover]
    fn read_box(reader: &mut Reader, size: u64) -> (res: Result<Self>)
        ensures
            res is Ok ==> final(reader).pos() == old(reader).pos() - HEADER_SIZE + size,
            read_outcome(res, box_result(parse_mehd(old(reader).rem()), old(reader).pos() - HEADER_SIZE, size)),
    {
        let start = box_start(reader);
        let (version, flags) = read_box_header_ext(reader)?;
        let fragment_duration = if version == 1 {
            let d = reader.read_u64()?;
            assert(old(reader).rem().skip(4).take(8) =~= old(reader).rem().subrange(4, 12));
            d
        } else if version == 0 {
            reader.read_u32()? as u64
        } else {
            return Err(Error::InvalidData("version must be 0 or 1"));
        };
        skip_bytes_to(reader, start, size)?;
        Ok(MehdBox { version, flags, fragment_duration })
    }
}

impl WriteBox for MehdBox {
    open spec fn writable(&self) -> bool {
        self.flags < 0x1000000
    }

    /// Writes the box; a version other than 0 or 1 is refused after the
    /// header, version and flags have been written.
    #[verifier::spinoff_prover]
    fn write_box(&self, writer: &mut Vec<u8>) -> (res: Result<u64>)
        ensures
            self.version <= 1 ==> final(writer)@ == old(writer)@ + mehd_bytes(*self)
                && res == Ok::<u64, Error>(mehd_size(self.version)),
            self.version > 1 ==> final(writer)@ == old(writer)@ + header_bytes(BoxType::MehdBox, 12)
                + ext_bytes(self.version, self.flags)
                && res == Err::<u64, Error>(Error::InvalidData("version must be 0 or 1")),
    {
        let size = self.box_size();
        BoxHeader::new(self.box_type(), size).write(writer)?;
        write_box_header_ext(writer, self.version, self.flags)?;
        if self.version == 1 {
            be_write_u64(writer, self.fragment_duration);
        } else if self.version == 0 {
            be_write_u32(writer, self.fragment_duration as u32);
        } else {
            assert(final(writer)@ =~= old(writer)@ + header_bytes(BoxType::MehdBox, 12)
                + ext_bytes(self.version, self.flags));
            return Err(Error::InvalidData("version must be 0 or 1"));
        }
        assert(final(writer)@ =~= old(writer)@ + mehd_bytes(*self));
        Ok(size)
    }
}

/// Decoding the body of an encoded mehd box gives the box back, for
/// version 0 or 1, and a duration that fits in 32 bits in version 0.
#[verifier::spinoff_prover]
pub proof fn lemma_mehd_roundtrip(b: MehdBox, rest: Seq<u8>)
    requires
        b.flags < 0x1000000,
        b.version <= 1,
        b.version == 0 ==> b.fragment_duration <= u32::MAX,
    ensures
        mehd_bytes(b).len() == mehd_size(b.version),
        parse_mehd((mehd_bytes(b) + rest).skip(8)) == Ok::<MehdBox, Error>(b),
{
    lemma_u24_roundtrip(b.flags);
    let h = header_bytes(BoxType::MehdBox, mehd_size(b.version));
    assert(h.len() == 8);
    let s = (mehd_bytes(b) + rest).skip(8);
    if b.version == 1 {
        let tail = u64_bytes(b.fragment_duration);
        assert(s =~= ext_bytes(b.version, b.flags) + tail + rest);
        lemma_u64_of_bytes(b.fragment_duration);
        assert(s.subrange(4, 12) =~= tail);
    } else {
        let tail = u32_bytes(b.fragment_duration as u32);
        assert(s =~= ext_bytes(b.version, b.flags) + tail + rest);
        lemma_u32_roundtrip(b.fragment_duration as u32);
    }
}

} // verus!
