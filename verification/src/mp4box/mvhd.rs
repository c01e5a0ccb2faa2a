//! The movie header box: the timing of the whole presentation.
use crate::bigendian::{
    be_write_u32, be_write_u64, group_take_lemmas, lemma_u24_roundtrip, u32_bytes, u64_bytes,
};
use crate::error::{Error, Result};
use crate::mp4box::{
    be24_at, be32_at, be64_at, box_result, box_start, ext_bytes, header_bytes, lemma_be32_at_word,
    lemma_be32_shift, lemma_be64_at_word, lemma_be64_shift, read_box_header_ext, read_outcome, skip_bytes_to,
    write_box_header_ext, write_zeros, BoxHeader, Mp4Box, ReadBox, WriteBox, HEADER_EXT_SIZE, HEADER_SIZE,
};
use crate::reader::Reader;
use crate::types::{BoxType, FixedPointU16};
use vstd::prelude::*;

verus! {

broadcast use group_take_lemmas;

#[derive(Debug, Clone, Copy, PartialEq, Eq, Structural)]
pub struct MvhdBox {
    pub version: u8,
    pub flags: u32,
    pub creation_time: u64,
    pub modification_time: u64,
    pub timescale: u32,
    pub duration: u64,
    pub rate: FixedPointU16,
}

/// What an mvhd box holds, the rate by its raw bits.
pub struct MvhdBoxView {
    pub version: u8,
    pub flags: u32,
    pub creation_time: u64,
    pub modification_time: u64,
    pub timescale: u32,
    pub duration: u64,
    pub rate: u32,
}

impl View for MvhdBox {
    type V = MvhdBoxView;

    open spec fn view(&self) -> MvhdBoxView {
        MvhdBoxView {
            version: self.version,
            flags: self.flags,
            creation_time: self.creation_time,
            modification_time: self.modification_time,
            timescale: self.timescale,
            duration: self.duration,
            rate: self.rate@,
        }
    }
}

impl Default for MvhdBox {
    /// Version 0, no times, a timescale of 1000 and a rate of 1.
    fn default() -> (b: Self)
        ensures
            b@ == (MvhdBoxView {
                version: 0,
                flags: 0,
                creation_time: 0,
                modification_time: 0,
                timescale: 1000,
                duration: 0,
                rate: 0x10000,
            }),
    {
        MvhdBox {
            version: 0,
            flags: 0,
            creation_time: 0,
            modification_time: 0,
            timescale: 1000,
            duration: 0,
            rate: FixedPointU16::new(1),
        }
    }
}

/// The number of bytes that the times take in version `v`.
pub open spec fn mvhd_times_size(v: u8) -> int {
    if v == 1 {
        28
    } else {
        16
    }
}

/// The size of an mvhd box of version `v`, 0 or 1.
pub open spec fn mvhd_size(v: u8) -> u64 {
    (12 + mvhd_times_size(v) + 80) as u64
}

/// The mvhd box that the body at the start of `s` encodes: the times, as
/// 64-bit numbers in version 1 and 32-bit ones in version 0, then the rate.
pub open spec fn parse_mvhd(s: Seq<u8>) -> Result<MvhdBoxView> {
    if s.len() < 4 {
        Err(Error::IoError)
    } else if s[0] != 0 && s[0] != 1 {
        Err(Error::InvalidData("version must be 0 or 1"))
    } else if s.len() < 4 + mvhd_times_size(s[0]) + 4 {
        Err(Error::IoError)
    } else {
        Ok(MvhdBoxView {
            version: s[0],
            flags: be24_at(s, 1),
            creation_time: if s[0] == 1 { be64_at(s, 4) } else { be32_at(s, 4) as u64 },
            modification_time: if s[0] == 1 { be64_at(s, 12) } else { be32_at(s, 8) as u64 },
            timescale: if s[0] == 1 { be32_at(s, 20) } else { be32_at(s, 12) },
            duration: if s[0] == 1 { be64_at(s, 24) } else { be32_at(s, 16) as u64 },
            rate: be32_at(s, 4 + mvhd_times_size(s[0])),
        })
    }
}

/// The encoding of the times: in version 0 each is cut to its low 32 bits.
#[verifier::opaque]
pub open spec fn mvhd_times_bytes(b: MvhdBoxView) -> Seq<u8> {
    if b.version == 1 {
        u64_bytes(b.creation_time) + (u64_bytes(b.modification_time) + (u32_bytes(b.timescale) + u64_bytes(
            b.duration,
        )))
    } else {
        u32_bytes(b.creation_time as u32) + (u32_bytes(b.modification_time as u32) + (u32_bytes(b.timescale)
            + u32_bytes(b.duration as u32)))
    }
}

/// The encoding of an mvhd box of version 0 or 1, header included: the
/// times, the rate and 76 zero bytes.
pub open spec fn mvhd_bytes(b: MvhdBoxView) -> Seq<u8> {
    header_bytes(BoxType::MvhdBox, mvhd_size(b.version)) + (ext_bytes(b.version, b.flags) + (mvhd_times_bytes(b)
        + (u32_bytes(b.rate) + Seq::new(76, |i: int| 0u8))))
}

impl MvhdBox {
    pub fn get_type(&self) -> (t: BoxType)
        ensures
            t == BoxType::MvhdBox,
    {
        BoxType::MvhdBox
    }

    pub fn get_size(&self) -> (s: u64)
        requires
            self.version <= 1,
        ensures
            s == mvhd_size(self.version),
    {
        let mut size = HEADER_SIZE + HEADER_EXT_SIZE;
        if self.version == 1 {
            size = size + 28;
        } else {
            size = size + 16;
        }
        size + 80
    }
}

impl Mp4Box for MvhdBox {
    /// Only versions 0 and 1 have a size.
    open spec fn has_size(&self) -> bool {
        self.version <= 1
    }

    fn box_type(&self) -> (t: BoxType)
        ensures
            t == BoxType::MvhdBox,
    {
        self.get_type()
    }

    fn box_size(&self) -> (s: u64)
        ensures
            s == mvhd_size(self.version),
    {
        self.get_size()
    }
}

/// Reads the times of an mvhd box of version 0 or 1: creation time,
/// modification time, timescale and duration.
fn read_mvhd_times(reader: &mut Reader, version: u8) -> (res: Result<(u64, u64, u32, u64)>)
    requires
        version <= 1,
    ensures
        final(reader).data_seq() == old(reader).data_seq(),
        match res {
            Ok((c, m, t, d)) => {
                let s = old(reader).rem();
                &&& s.len() >= mvhd_times_size(version)
                &&& final(reader).pos() == old(reader).pos() + mvhd_times_size(version)
                &&& final(reader).rem() == s.skip(mvhd_times_size(version))
                &&& version == 1 ==> c == be64_at(s, 0) && m == be64_at(s, 8) && t == be32_at(s, 16) && d
                    == be64_at(s, 20)
                &&& version == 0 ==> c == be32_at(s, 0) && m == be32_at(s, 4) && t == be32_at(s, 8) && d
                    == be32_at(s, 12)
            },
            Err(e) => old(reader).rem().len() < mvhd_times_size(version) && e == Error::IoError,
        },
{
    let ghost s = old(reader).rem();
    if version == 1 {
        let c = reader.read_u64()?;
        let m = reader.read_u64()?;
        let t = reader.read_u32()?;
        let d = reader.read_u64()?;
        proof {
            assert(s.take(8) =~= s.subrange(0, 8));
            assert(s.skip(8).take(8) =~= s.subrange(8, 16));
            assert(s.skip(20).take(8) =~= s.subrange(20, 28));
            assert(reader.rem() =~= s.skip(28));
        }
        Ok((c, m, t, d))
    } else {
        let c = reader.read_u32()?;
        let m = reader.read_u32()?;
        let t = reader.read_u32()?;
        let d = reader.read_u32()?;
        assert(reader.rem() =~= s.skip(16));
        Ok((c as u64, m as u64, t, d as u64))
    }
}

impl ReadBox for MvhdBox {
    open spec fn size_accepted(size: u64) -> bool {
        true
    }

    /// Reads the box; a version other than 0 or 1 is refused.
    #[verifier::spinoff_prover]
    fn read_box(reader: &mut Reader, size: u64) -> (res: Result<Self>)
        ensures
            res is Ok ==> final(reader).pos() == old(reader).pos() - HEADER_SIZE + size,
            read_outcome(res, box_result(parse_mvhd(old(reader).rem()), old(reader).pos() - HEADER_SIZE, size)),
    {
        let ghost s = old(reader).rem();
        let start = box_start(reader);
        let (version, flags) = read_box_header_ext(reader)?;
        if version != 0 && version != 1 {
            return Err(Error::InvalidData("version must be 0 or 1"));
        }
        let (creation_time, modification_time, timescale, duration) = read_mvhd_times(reader, version)?;
        let ghost o = 4 + mvhd_times_size(version);
        assert(reader.rem() =~= s.skip(o));
        let rate = FixedPointU16::new_raw(reader.read_u32()?);
        proof {
            assert(be32_at(s, o) == be32_at(s.skip(o), 0));
            let r = s.skip(4);
            if version == 1 {
                assert(r.subrange(0, 8) =~= s.subrange(4, 12));
                assert(r.subrange(8, 16) =~= s.subrange(12, 20));
                assert(r.subrange(20, 28) =~= s.subrange(24, 32));
            }
        }
        skip_bytes_to(reader, start, size)?;
        Ok(MvhdBox { version, flags, creation_time, modification_time, timescale, duration, rate })
    }
}

/// Writes the times of an mvhd box of version 0 or 1.
fn write_mvhd_times(writer: &mut Vec<u8>, b: &MvhdBox)
    requires
        b.version <= 1,
    ensures
        final(writer)@ == old(writer)@ + mvhd_times_bytes(b@),
{
    if b.version == 1 {
        be_write_u64(writer, b.creation_time);
        be_write_u64(writer, b.modification_time);
        be_write_u32(writer, b.timescale);
        be_write_u64(writer, b.duration);
    } else {
        be_write_u32(writer, b.creation_time as u32);
        be_write_u32(writer, b.modification_time as u32);
        be_write_u32(writer, b.timescale);
        be_write_u32(writer, b.duration as u32);
    }
    reveal(mvhd_times_bytes);
    assert(final(writer)@ =~= old(writer)@ + mvhd_times_bytes(b@));
}

impl WriteBox for MvhdBox {
    /// Only versions 0 and 1 can be written.
    open spec fn writable(&self) -> bool {
        self.flags < 0x1000000 && self.version <= 1
    }

    #[verifier::spinoff_prover]
    fn write_box(&self, writer: &mut Vec<u8>) -> (res: Result<u64>)
        ensures
            final(writer)@ == old(writer)@ + mvhd_bytes(self@),
            res == Ok::<u64, Error>(mvhd_size(self.version)),
    {
        let size = self.box_size();
        BoxHeader::new(self.box_type(), size).write(writer)?;
        write_box_header_ext(writer, self.version, self.flags)?;
        write_mvhd_times(writer, self);
        be_write_u32(writer, self.rate.raw_value());
        write_zeros(writer, 76)?;
        assert(final(writer)@ =~= old(writer)@ + mvhd_bytes(self@));
        Ok(size)
    }
}

/// The times of an encoded version 1 mvhd body are read back at their
/// offsets.
#[verifier::spinoff_prover]
#[verifier::rlimit(80)]
proof fn lemma_mvhd_times_v1(b: MvhdBoxView, r: Seq<u8>)
    requires
        b.version == 1,
    ensures
        mvhd_times_bytes(b).len() == 28,
        be64_at(mvhd_times_bytes(b) + r, 0) == b.creation_time,
        be64_at(mvhd_times_bytes(b) + r, 8) == b.modification_time,
        be32_at(mvhd_times_bytes(b) + r, 16) == b.timescale,
        be64_at(mvhd_times_bytes(b) + r, 20) == b.duration,
{
    reveal(mvhd_times_bytes);
    let u = mvhd_times_bytes(b) + r;
    let e = Seq::<u8>::empty();
    let p0 = u64_bytes(b.creation_time);
    let p1 = u64_bytes(b.modification_time);
    let p2 = u32_bytes(b.timescale);
    let p3 = u64_bytes(b.duration);
    assert(u =~= e + (p0 + (p1 + (p2 + (p3 + r)))));
    lemma_be64_at_word(e, b.creation_time, p1 + (p2 + (p3 + r)));
    assert(u =~= p0 + (p1 + (p2 + (p3 + r))));
    lemma_be64_at_word(p0, b.modification_time, p2 + (p3 + r));
    assert(u =~= (p0 + p1) + (p2 + (p3 + r)));
    lemma_be32_at_word(p0 + p1, b.timescale, p3 + r);
    assert(u =~= (p0 + p1 + p2) + (p3 + r));
    lemma_be64_at_word(p0 + p1 + p2, b.duration, r);
}

/// The times of an encoded version 0 mvhd body are read back at their
/// offsets, where they fit in 32 bits.
#[verifier::spinoff_prover]
#[verifier::rlimit(80)]
proof fn lemma_mvhd_times_v0(b: MvhdBoxView, r: Seq<u8>)
    requires
        b.version == 0,
        b.creation_time <= u32::MAX,
        b.modification_time <= u32::MAX,
        b.duration <= u32::MAX,
    ensures
        mvhd_times_bytes(b).len() == 16,
        be32_at(mvhd_times_bytes(b) + r, 0) == b.creation_time,
        be32_at(mvhd_times_bytes(b) + r, 4) == b.modification_time,
        be32_at(mvhd_times_bytes(b) + r, 8) == b.timescale,
        be32_at(mvhd_times_bytes(b) + r, 12) == b.duration,
{
    reveal(mvhd_times_bytes);
    let u = mvhd_times_bytes(b) + r;
    let e = Seq::<u8>::empty();
    let p0 = u32_bytes(b.creation_time as u32);
    let p1 = u32_bytes(b.modification_time as u32);
    let p2 = u32_bytes(b.timescale);
    let p3 = u32_bytes(b.duration as u32);
    assert(u =~= e + (p0 + (p1 + (p2 + (p3 + r)))));
    lemma_be32_at_word(e, b.creation_time as u32, p1 + (p2 + (p3 + r)));
    assert(u =~= p0 + (p1 + (p2 + (p3 + r))));
    lemma_be32_at_word(p0, b.modification_time as u32, p2 + (p3 + r));
    assert(u =~= (p0 + p1) + (p2 + (p3 + r)));
    lemma_be32_at_word(p0 + p1, b.timescale, p3 + r);
    assert(u =~= (p0 + p1 + p2) + (p3 + r));
    lemma_be32_at_word(p0 + p1 + p2, b.duration as u32, r);
}

/// An encoded mvhd box is its header, version and flags, times, rate and
/// zeros.
#[verifier::spinoff_prover]
proof fn lemma_mvhd_split(b: MvhdBoxView, rest: Seq<u8>)
    requires
        b.version <= 1,
        mvhd_times_bytes(b).len() == mvhd_times_size(b.version),
    ensures
        mvhd_bytes(b).len() == mvhd_size(b.version),
        (mvhd_bytes(b) + rest).skip(8) == ext_bytes(b.version, b.flags) + (mvhd_times_bytes(b) + (u32_bytes(
            b.rate,
        ) + (Seq::new(76, |i: int| 0u8) + rest))),
{
    let h = header_bytes(BoxType::MvhdBox, mvhd_size(b.version));
    let e = ext_bytes(b.version, b.flags);
    let tm = mvhd_times_bytes(b);
    let r = u32_bytes(b.rate);
    let z = Seq::new(76, |i: int| 0u8);
    assert(h.len() == 8);
    assert(h + (e + (tm + (r + z))) + rest =~= h + (e + (tm + (r + (z + rest)))));
    assert((h + (e + (tm + (r + (z + rest))))).skip(8) =~= e + (tm + (r + (z + rest))));
}

/// Decoding the body of an encoded mvhd box gives the box back, for
/// version 0 or 1 and, in version 0, times that fit in 32 bits.
#[verifier::spinoff_prover]
pub proof fn lemma_mvhd_roundtrip(b: MvhdBoxView, rest: Seq<u8>)
    requires
        b.flags < 0x1000000,
        b.version <= 1,
        b.version == 0 ==> b.creation_time <= u32::MAX && b.modification_time <= u32::MAX && b.duration
            <= u32::MAX,
    ensures
        mvhd_bytes(b).len() == mvhd_size(b.version),
        parse_mvhd((mvhd_bytes(b) + rest).skip(8)) == Ok::<MvhdBoxView, Error>(b),
{
    lemma_u24_roundtrip(b.flags);
    let e = ext_bytes(b.version, b.flags);
    let t = Seq::new(76, |i: int| 0u8) + rest;
    let r = u32_bytes(b.rate) + t;
    let u = mvhd_times_bytes(b) + r;
    if b.version == 1 {
        lemma_mvhd_times_v1(b, r);
    } else {
        lemma_mvhd_times_v0(b, r);
    }
    lemma_be32_at_word(mvhd_times_bytes(b), b.rate, t);
    lemma_mvhd_split(b, rest);
    let n = mvhd_times_size(b.version);
    lemma_be32_shift(e, u, n);
    if b.version == 1 {
        lemma_be64_shift(e, u, 0);
        lemma_be64_shift(e, u, 8);
        lemma_be32_shift(e, u, 16);
        lemma_be64_shift(e, u, 20);
    } else {
        lemma_be32_shift(e, u, 0);
        lemma_be32_shift(e, u, 4);
        lemma_be32_shift(e, u, 8);
        lemma_be32_shift(e, u, 12);
    }
}

} // verus!
