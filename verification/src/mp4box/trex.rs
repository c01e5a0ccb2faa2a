//! The track extends box: defaults for the samples of a fragmented track.
use crate::bigendian::{be_write_u32, group_take_lemmas, lemma_u24_roundtrip, lemma_u32_roundtrip, u32_bytes, u32_of};
use crate::error::{Error, Result};
use crate::mp4box::{
    be24_at, be32_at, box_result, box_start, ext_bytes, header_bytes, read_box_header_ext,
    read_outcome, skip_bytes_to, write_box_header_ext, BoxHeader, Mp4Box, ReadBox, WriteBox,
    HEADER_EXT_SIZE, HEADER_SIZE,
};
use crate::reader::Reader;
use crate::types::BoxType;
use vstd::prelude::*;

verus! {

broadcast use group_take_lemmas;

#[derive(Debug, Clone, PartialEq, Eq, Default, Structural)]
pub struct TrexBox {
    pub version: u8,
    pub flags: u32,
    pub track_id: u32,
    pub default_sample_description_index: u32,
    pub default_sample_duration: u32,
    pub default_sample_size: u32,
    pub default_sample_flags: u32,
}

impl View for TrexBox {
    type V = TrexBox;

    open spec fn view(&self) -> TrexBox {
        *self
    }
}

/// The trex box that the body at the start of `s` encodes; the four bytes
/// after the flags are reserved.
pub open spec fn parse_trex(s: Seq<u8>) -> Result<TrexBox> {
    if s.len() < 28 {
        Err(Error::IoError)
    } else {
        Ok(TrexBox {
            version: s[0],
            flags: be24_at(s, 1),
            track_id: be32_at(s, 8),
            default_sample_description_index: be32_at(s, 12),
            default_sample_duration: be32_at(s, 16),
            default_sample_size: be32_at(s, 20),
            default_sample_flags: be32_at(s, 24),
        })
    }
}

/// The encoding of a trex box, header included.
pub open spec fn trex_bytes(b: TrexBox) -> Seq<u8> {
    header_bytes(BoxType::TrexBox, 36) + ext_bytes(b.version, b.flags) + u32_bytes(0)
        + u32_bytes(b.track_id) + u32_bytes(b.default_sample_description_index)
        + u32_bytes(b.default_sample_duration) + u32_bytes(b.default_sample_size)
        + u32_bytes(b.default_sample_flags)
}

impl TrexBox {
    pub fn get_type(&self) -> (t: BoxType)
        ensures
            t == BoxType::TrexBox,
    {
        BoxType::TrexBox
    }

    pub fn get_size(&self) -> (s: u64)
        ensures
            s == 36,
    {
        HEADER_SIZE + HEADER_EXT_SIZE + 4 + 20
    }
}

impl Mp4Box for TrexBox {
    open spec fn has_size(&self) -> bool {
        true
    }

    fn box_type(&self) -> (t: BoxType)
        ensures
            t == BoxType::TrexBox,
    {
        self.get_type()
    }

    fn box_size(&self) -> (s: u64)
        ensures
            s == 36,
    {
        self.get_size()
    }
}

impl ReadBox for TrexBox {
    open spec fn size_accepted(size: u64) -> bool {
        true
    }

    #[verifier::spinoff_prover]
    fn read_box(reader: &mut Reader, size: u64) -> (res: Result<Self>)
        ensures
            res is Ok ==> final(reader).pos() == old(reader).pos() - HEADER_SIZE + size,
            read_outcome(res, box_result(parse_trex(old(reader).rem()), old(reader).pos() - HEADER_SIZE, size)),
    {
        let start = box_start(reader);
        let (version, flags) = read_box_header_ext(reader)?;
        reader.read_u32()?;
        let track_id = reader.read_u32()?;
        let default_sample_description_index = reader.read_u32()?;
        let default_sample_duration = reader.read_u32()?;
        let default_sample_size = reader.read_u32()?;
        let default_sample_flags = reader.read_u32()?;
        skip_bytes_to(reader, start, size)?;
        Ok(TrexBox {
            version,
            flags,
            track_id,
            default_sample_description_index,
            default_sample_duration,
            default_sample_size,
            default_sample_flags,
        })
    }
}

impl WriteBox for TrexBox {
    open spec fn writable(&self) -> bool {
        self.flags < 0x1000000
    }

    #[verifier::spinoff_prover]
    fn write_box(&self, writer: &mut Vec<u8>) -> (res: Result<u64>)
        ensures
            final(writer)@ == old(writer)@ + trex_bytes(*self),
            res == Ok::<u64, Error>(36),
    {
        let size = self.box_size();
        BoxHeader::new(self.box_type(), size).write(writer)?;
        write_box_header_ext(writer, self.version, self.flags)?;
        be_write_u32(writer, 0);
        be_write_u32(writer, self.track_id);
        be_write_u32(writer, self.default_sample_description_index);
        be_write_u32(writer, self.default_sample_duration);
        be_write_u32(writer, self.default_sample_size);
        be_write_u32(writer, self.default_sample_flags);
        assert(final(writer)@ =~= old(writer)@ + trex_bytes(*self));
        Ok(size)
    }
}

/// Decoding the body of an encoded trex box gives the box back.
#[verifier::spinoff_prover]
pub proof fn lemma_trex_roundtrip(b: TrexBox, rest: Seq<u8>)
    requires
        b.flags < 0x1000000,
    ensures
        trex_bytes(b).len() == 36,
        parse_trex((trex_bytes(b) + rest).skip(8)) == Ok::<TrexBox, Error>(b),
{
    lemma_u24_roundtrip(b.flags);
    lemma_u32_roundtrip(b.track_id);
    lemma_u32_roundtrip(b.default_sample_description_index);
    lemma_u32_roundtrip(b.default_sample_duration);
    lemma_u32_roundtrip(b.default_sample_size);
    lemma_u32_roundtrip(b.default_sample_flags);
}

/// The layout of a trex body: after version, flags and four reserved bytes
/// come, as big-endian words, the track id at offset 8, the default sample
/// description index at 12, the default sample duration at 16, the default
/// sample size at 20 and the default sample flags at 24.
pub proof fn lemma_trex_body_layout(s: Seq<u8>)
    requires
        s.len() >= 28,
    ensures
        parse_trex(s) matches Ok(b) && b.version == s[0]
            && b.track_id == u32_of(s[8], s[9], s[10], s[11])
            && b.default_sample_description_index == u32_of(s[12], s[13], s[14], s[15])
            && b.default_sample_duration == u32_of(s[16], s[17], s[18], s[19])
            && b.default_sample_size == u32_of(s[20], s[21], s[22], s[23])
            && b.default_sample_flags == u32_of(s[24], s[25], s[26], s[27]),
{
}

/// The layout of an encoded trex box: the 8-byte header, version and flags,
/// a reserved zero word, then the track id, the default sample description index,
/// the default sample duration, the default sample size and the default
/// sample flags, each as a big-endian word, in that order.
pub proof fn lemma_trex_bytes_layout(b: TrexBox)
    ensures
        trex_bytes(b).len() == 36,
        trex_bytes(b).subrange(8, 9) == seq![b.version],
        trex_bytes(b).subrange(12, 16) == u32_bytes(0),
        trex_bytes(b).subrange(16, 20) == u32_bytes(b.track_id),
        trex_bytes(b).subrange(20, 24) == u32_bytes(b.default_sample_description_index),
        trex_bytes(b).subrange(24, 28) == u32_bytes(b.default_sample_duration),
        trex_bytes(b).subrange(28, 32) == u32_bytes(b.default_sample_size),
        trex_bytes(b).subrange(32, 36) == u32_bytes(b.default_sample_flags),
{
    let t = trex_bytes(b);
    assert(t.subrange(8, 9) =~= seq![b.version]);
    assert(t.subrange(12, 16) =~= u32_bytes(0));
    assert(t.subrange(16, 20) =~= u32_bytes(b.track_id));
    assert(t.subrange(20, 24) =~= u32_bytes(b.default_sample_description_index));
    assert(t.subrange(24, 28) =~= u32_bytes(b.default_sample_duration));
    assert(t.subrange(28, 32) =~= u32_bytes(b.default_sample_size));
    assert(t.subrange(32, 36) =~= u32_bytes(b.default_sample_flags));
}

} // verus!
