//! The track header box: a track's identity, timing, layering and
//! presentation.
use crate::bigendian::{
    be_write_i32, be_write_u16, be_write_u32, be_write_u64, group_take_lemmas, lemma_u16_roundtrip,
    lemma_u24_roundtrip, lemma_u32_roundtrip, lemma_u64_of_bytes, u16_bytes, u32_bytes, u64_bytes,
};
use crate::error::{Error, Result};
use crate::mp4box::{
    lemma_be64_shift, lemma_be16_at_word, lemma_be16_shift, lemma_be32_at_word, lemma_be32_shift, lemma_be64_at_word, be16_at, be24_at, be32_at, be64_at, box_result, box_start, ext_bytes, header_bytes, read_box_header_ext,
    read_outcome, skip_bytes_to, write_box_header_ext, BoxHeader, Mp4Box, ReadBox, WriteBox, HEADER_EXT_SIZE,
    HEADER_SIZE,
};
use crate::reader::Reader;
use crate::types::{BoxType, FixedPointU16, FixedPointU8};
use vstd::prelude::*;

verus! {

broadcast use group_take_lemmas;

/// A flag of a track header.
#[derive(Debug, Clone, Copy, PartialEq, Eq, Structural)]
pub enum TrackFlag {
    TrackEnabled,
}

impl TrackFlag {
    /// The bit of the flag in the header's flags.
    pub fn value(&self) -> (v: u32)
        ensures
            v == 1,
    {
        match self {
            TrackFlag::TrackEnabled => 0x000001,
        }
    }
}

/// A transformation matrix of a track, in 16.16 and 2.30 fixed point.
#[derive(Debug, Clone, Copy, PartialEq, Eq, Structural)]
pub struct Matrix {
    pub a: i32,
    pub b: i32,
    pub u: i32,
    pub c: i32,
    pub d: i32,
    pub v: i32,
    pub x: i32,
    pub y: i32,
    pub w: i32,
}

impl Default for Matrix {
    /// The unity matrix.
    fn default() -> (m: Self)
        ensures
            m == (Matrix { a: 0x00010000, b: 0, u: 0, c: 0, d: 0x00010000, v: 0, x: 0, y: 0, w: 0x40000000 }),
    {
        Matrix { a: 0x00010000, b: 0, u: 0, c: 0, d: 0x00010000, v: 0, x: 0, y: 0, w: 0x40000000 }
    }
}

/// The matrix whose nine big-endian `i32` start `s`.
pub open spec fn parse_matrix(s: Seq<u8>) -> Matrix {
    Matrix {
        a: be32_at(s, 0) as i32,
        b: be32_at(s, 4) as i32,
        u: be32_at(s, 8) as i32,
        c: be32_at(s, 12) as i32,
        d: be32_at(s, 16) as i32,
        v: be32_at(s, 20) as i32,
        x: be32_at(s, 24) as i32,
        y: be32_at(s, 28) as i32,
        w: be32_at(s, 32) as i32,
    }
}

/// The encoding of a matrix: its nine entries as big-endian `i32`.
pub open spec fn matrix_bytes(m: Matrix) -> Seq<u8> {
    u32_bytes(m.a as u32) + (u32_bytes(m.b as u32) + (u32_bytes(m.u as u32) + (u32_bytes(m.c as u32) + (
    u32_bytes(m.d as u32) + (u32_bytes(m.v as u32) + (u32_bytes(m.x as u32) + (u32_bytes(m.y as u32)
        + u32_bytes(m.w as u32))))))))
}

/// Reads a matrix.
fn read_matrix(reader: &mut Reader) -> (res: Result<Matrix>)
    ensures
        final(reader).data_seq() == old(reader).data_seq(),
        match res {
            Ok(m) => old(reader).rem().len() >= 36 && m == parse_matrix(old(reader).rem())
                && final(reader).pos() == old(reader).pos() + 36 && final(reader).rem() == old(reader).rem().skip(36),
            Err(e) => old(reader).rem().len() < 36 && e == Error::IoError,
        },
{
    let ghost s = old(reader).rem();
    let a = reader.read_i32()?;
    let b = reader.read_i32()?;
    let u = reader.read_i32()?;
    let c = reader.read_i32()?;
    let d = reader.read_i32()?;
    let v = reader.read_i32()?;
    let x = reader.read_i32()?;
    let y = reader.read_i32()?;
    let w = reader.read_i32()?;
    assert(reader.rem() =~= s.skip(36));
    Ok(Matrix { a, b, u, c, d, v, x, y, w })
}

/// Writes a matrix.
fn write_matrix(writer: &mut Vec<u8>, m: &Matrix)
    ensures
        final(writer)@ == old(writer)@ + matrix_bytes(*m),
{
    be_write_i32(writer, m.a);
    be_write_i32(writer, m.b);
    be_write_i32(writer, m.u);
    be_write_i32(writer, m.c);
    be_write_i32(writer, m.d);
    be_write_i32(writer, m.v);
    be_write_i32(writer, m.x);
    be_write_i32(writer, m.y);
    be_write_i32(writer, m.w);
    assert(final(writer)@ =~= old(writer)@ + matrix_bytes(*m));
}

/// A matrix reads back as itself.
#[verifier::spinoff_prover]
proof fn lemma_matrix_roundtrip(m: Matrix, rest: Seq<u8>)
    ensures
        matrix_bytes(m).len() == 36,
        parse_matrix(matrix_bytes(m) + rest) == m,
        (matrix_bytes(m) + rest).skip(36) == rest,
{
    let s = matrix_bytes(m) + rest;
    let es = seq![m.a, m.b, m.u, m.c, m.d, m.v, m.x, m.y, m.w];
    assert forall|k: int| 0 <= k < 9 implies #[trigger] s.subrange(4 * k, 4 * k + 4) == u32_bytes(es[k] as u32) by {
        assert(s.subrange(4 * k, 4 * k + 4) =~= u32_bytes(es[k] as u32));
    }
    assert forall|k: int| 0 <= k < 9 implies #[trigger] be32_at(s, 4 * k) as i32 == es[k] by {
        let e = es[k];
        lemma_u32_roundtrip(e as u32);
        assert(s.subrange(4 * k, 4 * k + 4) == u32_bytes(e as u32));
        assert(s[4 * k] == s.subrange(4 * k, 4 * k + 4)[0]);
        assert(s[4 * k + 1] == s.subrange(4 * k, 4 * k + 4)[1]);
        assert(s[4 * k + 2] == s.subrange(4 * k, 4 * k + 4)[2]);
        assert(s[4 * k + 3] == s.subrange(4 * k, 4 * k + 4)[3]);
        assert((e as u32) as i32 == e) by (bit_vector);
    }
    assert(be32_at(s, 4 * 0int) as i32 == es[0]);
    assert(be32_at(s, 4 * 1int) as i32 == es[1]);
    assert(be32_at(s, 4 * 2int) as i32 == es[2]);
    assert(be32_at(s, 4 * 3int) as i32 == es[3]);
    assert(be32_at(s, 4 * 4int) as i32 == es[4]);
    assert(be32_at(s, 4 * 5int) as i32 == es[5]);
    assert(be32_at(s, 4 * 6int) as i32 == es[6]);
    assert(be32_at(s, 4 * 7int) as i32 == es[7]);
    assert(be32_at(s, 4 * 8int) as i32 == es[8]);
    assert(s.skip(36) =~= rest);
}

#[derive(Debug, Clone, Copy, PartialEq, Eq, Structural)]
pub struct TkhdBox {
    pub version: u8,
    pub flags: u32,
    pub creation_time: u64,
    pub modification_time: u64,
    pub track_id: u32,
    pub duration: u64,
    pub layer: u16,
    pub alternate_group: u16,
    pub volume: FixedPointU8,
    pub matrix: Matrix,
    pub width: FixedPointU16,
    pub height: FixedPointU16,
}

/// What a tkhd box holds, the fixed-point numbers by their raw bits.
pub struct TkhdBoxView {
    pub version: u8,
    pub flags: u32,
    pub creation_time: u64,
    pub modification_time: u64,
    pub track_id: u32,
    pub duration: u64,
    pub layer: u16,
    pub alternate_group: u16,
    pub volume: u16,
    pub matrix: Matrix,
    pub width: u32,
    pub height: u32,
}

impl View for TkhdBox {
    type V = TkhdBoxView;

    open spec fn view(&self) -> TkhdBoxView {
        TkhdBoxView {
            version: self.version,
            flags: self.flags,
            creation_time: self.creation_time,
            modification_time: self.modification_time,
            track_id: self.track_id,
            duration: self.duration,
            layer: self.layer,
            alternate_group: self.alternate_group,
            volume: self.volume@,
            matrix: self.matrix,
            width: self.width@,
            height: self.height@,
        }
    }
}

impl Default for TkhdBox {
    /// An enabled track with no times, full volume, the unity matrix and no
    /// dimensions.
    fn default() -> (b: Self)
        ensures
            b@ == (TkhdBoxView {
                version: 0,
                flags: 1,
                creation_time: 0,
                modification_time: 0,
                track_id: 0,
                duration: 0,
                layer: 0,
                alternate_group: 0,
                volume: 0x100,
                matrix: Matrix { a: 0x00010000, b: 0, u: 0, c: 0, d: 0x00010000, v: 0, x: 0, y: 0, w: 0x40000000 },
                width: 0,
                height: 0,
            }),
    {
        TkhdBox {
            version: 0,
            flags: TrackFlag::TrackEnabled.value(),
            creation_time: 0,
            modification_time: 0,
            track_id: 0,
            duration: 0,
            layer: 0,
            alternate_group: 0,
            volume: FixedPointU8::new(1),
            matrix: Matrix::default(),
            width: FixedPointU16::new(0),
            height: FixedPointU16::new(0),
        }
    }
}

/// The number of bytes that the times take in version `v`.
pub open spec fn tkhd_times_size(v: u8) -> int {
    if v == 1 {
        32
    } else if v == 0 {
        20
    } else {
        0
    }
}

/// The size of a tkhd box of version `v`.
pub open spec fn tkhd_size(v: u8) -> u64 {
    (12 + tkhd_times_size(v) + 60) as u64
}

/// The tkhd box that the body at the start of `s` encodes: the times, as
/// 64-bit numbers in version 1 and 32-bit ones in version 0, then 60 bytes
/// of layering, volume, matrix and dimensions.
pub open spec fn parse_tkhd(s: Seq<u8>) -> Result<TkhdBoxView> {
    if s.len() < 4 {
        Err(Error::IoError)
    } else if s[0] != 0 && s[0] != 1 {
        Err(Error::InvalidData("version must be 0 or 1"))
    } else if s.len() < 4 + tkhd_times_size(s[0]) + 60 {
        Err(Error::IoError)
    } else {
        let o = 4 + tkhd_times_size(s[0]);
        Ok(TkhdBoxView {
            version: s[0],
            flags: be24_at(s, 1),
            creation_time: if s[0] == 1 { be64_at(s, 4) } else { be32_at(s, 4) as u64 },
            modification_time: if s[0] == 1 { be64_at(s, 12) } else { be32_at(s, 8) as u64 },
            track_id: if s[0] == 1 { be32_at(s, 20) } else { be32_at(s, 12) },
            duration: if s[0] == 1 { be64_at(s, 28) } else { be32_at(s, 20) as u64 },
            layer: be16_at(s, o + 8),
            alternate_group: be16_at(s, o + 10),
            volume: be16_at(s, o + 12),
            matrix: parse_matrix(s.skip(o + 16)),
            width: be32_at(s, o + 52),
            height: be32_at(s, o + 56),
        })
    }
}

/// The encoding of the times: in version 0 each is cut to its low 32 bits.
#[verifier::opaque]
pub open spec fn tkhd_times_bytes(b: TkhdBoxView) -> Seq<u8> {
    if b.version == 1 {
        u64_bytes(b.creation_time) + (u64_bytes(b.modification_time) + (u32_bytes(b.track_id) + (u32_bytes(0)
            + u64_bytes(b.duration))))
    } else {
        u32_bytes(b.creation_time as u32) + (u32_bytes(b.modification_time as u32) + (u32_bytes(b.track_id) + (
        u32_bytes(0) + u32_bytes(b.duration as u32))))
    }
}

/// The encoding of the 60 bytes after the times.
#[verifier::opaque]
pub open spec fn tkhd_tail_bytes(b: TkhdBoxView) -> Seq<u8> {
    u64_bytes(0) + (u16_bytes(b.layer) + (u16_bytes(b.alternate_group) + (u16_bytes(b.volume) + (u16_bytes(0)
        + (matrix_bytes(b.matrix) + (u32_bytes(b.width) + u32_bytes(b.height)))))))
}

/// The encoding of a tkhd box of version 0 or 1, header included.
pub open spec fn tkhd_bytes(b: TkhdBoxView) -> Seq<u8> {
    header_bytes(BoxType::TkhdBox, tkhd_size(b.version)) + (ext_bytes(b.version, b.flags) + (tkhd_times_bytes(b)
        + tkhd_tail_bytes(b)))
}

impl TkhdBox {
    pub fn get_type(&self) -> (t: BoxType)
        ensures
            t == BoxType::TkhdBox,
    {
        BoxType::TkhdBox
    }

    pub fn get_size(&self) -> (s: u64)
        ensures
            s == tkhd_size(self.version),
    {
        let mut size = HEADER_SIZE + HEADER_EXT_SIZE;
        if self.version == 1 {
            size = size + 32;
        } else if self.version == 0 {
            size = size + 20;
        }
        size + 60
    }

    /// Sets the width to a whole number.
    pub fn set_width(&mut self, width: u16)
        ensures
            final(self)@ == (TkhdBoxView { width: (width * 0x10000) as u32, ..old(self)@ }),
    {
        self.width = FixedPointU16::new(width);
    }

    /// Sets the height to a whole number.
    pub fn set_height(&mut self, height: u16)
        ensures
            final(self)@ == (TkhdBoxView { height: (height * 0x10000) as u32, ..old(self)@ }),
    {
        self.height = FixedPointU16::new(height);
    }
}

impl Mp4Box for TkhdBox {
    open spec fn has_size(&self) -> bool {
        true
    }

    fn box_type(&self) -> (t: BoxType)
        ensures
            t == BoxType::TkhdBox,
    {
        self.get_type()
    }

    fn box_size(&self) -> (s: u64)
        ensures
            s == tkhd_size(self.version),
    {
        self.get_size()
    }
}

/// Reads the times of a tkhd box of version 0 or 1: creation time,
/// modification time, track id and duration.
fn read_tkhd_times(reader: &mut Reader, version: u8) -> (res: Result<(u64, u64, u32, u64)>)
    requires
        version <= 1,
    ensures
        final(reader).data_seq() == old(reader).data_seq(),
        match res {
            Ok((c, m, t, d)) => {
                let s = old(reader).rem();
                &&& s.len() >= tkhd_times_size(version)
                &&& final(reader).pos() == old(reader).pos() + tkhd_times_size(version)
                &&& final(reader).rem() == s.skip(tkhd_times_size(version))
                &&& version == 1 ==> c == be64_at(s, 0) && m == be64_at(s, 8) && t == be32_at(s, 16) && d
                    == be64_at(s, 24)
                &&& version == 0 ==> c == be32_at(s, 0) && m == be32_at(s, 4) && t == be32_at(s, 8) && d
                    == be32_at(s, 16)
            },
            Err(e) => old(reader).rem().len() < tkhd_times_size(version) && e == Error::IoError,
        },
{
    let ghost s = old(reader).rem();
    if version == 1 {
        let c = reader.read_u64()?;
        let m = reader.read_u64()?;
        let t = reader.read_u32()?;
        reader.read_u32()?;
        let d = reader.read_u64()?;
        proof {
            assert(s.take(8) =~= s.subrange(0, 8));
            assert(s.skip(8).take(8) =~= s.subrange(8, 16));
            assert(s.skip(24).take(8) =~= s.subrange(24, 32));
            assert(reader.rem() =~= s.skip(32));
        }
        Ok((c, m, t, d))
    } else {
        let c = reader.read_u32()?;
        let m = reader.read_u32()?;
        let t = reader.read_u32()?;
        reader.read_u32()?;
        let d = reader.read_u32()?;
        assert(reader.rem() =~= s.skip(20));
        Ok((c as u64, m as u64, t, d as u64))
    }
}

impl ReadBox for TkhdBox {
    open spec fn size_accepted(size: u64) -> bool {
        true
    }

    #[verifier::spinoff_prover]
    #[verifier::rlimit(30)]
    fn read_box(reader: &mut Reader, size: u64) -> (res: Result<Self>)
        ensures
            res is Ok ==> final(reader).pos() == old(reader).pos() - HEADER_SIZE + size,
            read_outcome(res, box_result(parse_tkhd(old(reader).rem()), old(reader).pos() - HEADER_SIZE, size)),
    {
        let ghost s = old(reader).rem();
        let start = box_start(reader);
        let (version, flags) = read_box_header_ext(reader)?;
        if version != 0 && version != 1 {
            return Err(Error::InvalidData("version must be 0 or 1"));
        }
        let (creation_time, modification_time, track_id, duration) = read_tkhd_times(reader, version)?;
        let ghost o = 4 + tkhd_times_size(version);
        assert(reader.rem() =~= s.skip(o));
        reader.read_u64()?;
        let layer = reader.read_u16()?;
        let alternate_group = reader.read_u16()?;
        let volume = FixedPointU8::new_raw(reader.read_u16()?);
        reader.read_u16()?;
        assert(reader.rem() =~= s.skip(o + 16));
        let matrix = read_matrix(reader)?;
        let width = FixedPointU16::new_raw(reader.read_u32()?);
        let height = FixedPointU16::new_raw(reader.read_u32()?);
        proof {
            let t = s.skip(o);
            assert(be16_at(s, o + 8) == be16_at(t, 8));
            assert(be16_at(s, o + 10) == be16_at(t, 10));
            assert(be16_at(s, o + 12) == be16_at(t, 12));
            assert(be32_at(s, o + 52) == be32_at(t, 52));
            assert(be32_at(s, o + 56) == be32_at(t, 56));
            let r = s.skip(4);
            if version == 1 {
                assert(r.subrange(0, 8) =~= s.subrange(4, 12));
                assert(r.subrange(8, 16) =~= s.subrange(12, 20));
                assert(r.subrange(24, 32) =~= s.subrange(28, 36));
            }
        }
        skip_bytes_to(reader, start, size)?;
        Ok(TkhdBox {
            version,
            flags,
            creation_time,
            modification_time,
            track_id,
            duration,
            layer,
            alternate_group,
            volume,
            matrix,
            width,
            height,
        })
    }
}

/// Writes the times of a tkhd box of version 0 or 1.
fn write_tkhd_times(writer: &mut Vec<u8>, b: &TkhdBox)
    requires
        b.version <= 1,
    ensures
        final(writer)@ == old(writer)@ + tkhd_times_bytes(b@),
{
    if b.version == 1 {
        be_write_u64(writer, b.creation_time);
        be_write_u64(writer, b.modification_time);
        be_write_u32(writer, b.track_id);
        be_write_u32(writer, 0);
        be_write_u64(writer, b.duration);
    } else {
        be_write_u32(writer, b.creation_time as u32);
        be_write_u32(writer, b.modification_time as u32);
        be_write_u32(writer, b.track_id);
        be_write_u32(writer, 0);
        be_write_u32(writer, b.duration as u32);
    }
    reveal(tkhd_times_bytes);
    assert(final(writer)@ =~= old(writer)@ + tkhd_times_bytes(b@));
}

/// Writes the 60 bytes after the times.
fn write_tkhd_tail(writer: &mut Vec<u8>, b: &TkhdBox)
    ensures
        final(writer)@ == old(writer)@ + tkhd_tail_bytes(b@),
{
    be_write_u64(writer, 0);
    be_write_u16(writer, b.layer);
    be_write_u16(writer, b.alternate_group);
    be_write_u16(writer, b.volume.raw_value());
    be_write_u16(writer, 0);
    write_matrix(writer, &b.matrix);
    be_write_u32(writer, b.width.raw_value());
    be_write_u32(writer, b.height.raw_value());
    reveal(tkhd_tail_bytes);
    assert(final(writer)@ =~= old(writer)@ + tkhd_tail_bytes(b@));
}

impl WriteBox for TkhdBox {
    open spec fn writable(&self) -> bool {
        self.flags < 0x1000000
    }

    /// Writes the box; a version other than 0 or 1 is refused after the
    /// header, version and flags have been written.
    #[verifier::spinoff_prover]
    fn write_box(&self, writer: &mut Vec<u8>) -> (res: Result<u64>)
        ensures
            self.version <= 1 ==> final(writer)@ == old(writer)@ + tkhd_bytes(self@) && res == Ok::<u64, Error>(
                tkhd_size(self.version),
            ),
            self.version > 1 ==> final(writer)@ == old(writer)@ + (header_bytes(BoxType::TkhdBox, 72) + ext_bytes(
                self.version,
                self.flags,
            )) && res == Err::<u64, Error>(Error::InvalidData("version must be 0 or 1")),
    {
        let size = self.box_size();
        BoxHeader::new(self.box_type(), size).write(writer)?;
        write_box_header_ext(writer, self.version, self.flags)?;
        if self.version > 1 {
            assert(final(writer)@ =~= old(writer)@ + (header_bytes(BoxType::TkhdBox, 72) + ext_bytes(
                self.version,
                self.flags,
            )));
            return Err(Error::InvalidData("version must be 0 or 1"));
        }
        write_tkhd_times(writer, self);
        write_tkhd_tail(writer, self);
        assert(final(writer)@ =~= old(writer)@ + tkhd_bytes(self@));
        Ok(size)
    }
}

/// The times of an encoded version 1 tkhd box are read back at their
/// offsets.
#[verifier::spinoff_prover]
#[verifier::rlimit(80)]
proof fn lemma_tkhd_times_v1(b: TkhdBoxView, t: Seq<u8>)
    requires
        b.version == 1,
    ensures
        tkhd_times_bytes(b).len() == 32,
        (tkhd_times_bytes(b) + t).skip(32) == t,
        be64_at(tkhd_times_bytes(b) + t, 0) == b.creation_time,
        be64_at(tkhd_times_bytes(b) + t, 8) == b.modification_time,
        be32_at(tkhd_times_bytes(b) + t, 16) == b.track_id,
        be64_at(tkhd_times_bytes(b) + t, 24) == b.duration,
{
    reveal(tkhd_times_bytes);
    let u = tkhd_times_bytes(b) + t;
    let e = Seq::<u8>::empty();
    let p0 = u64_bytes(b.creation_time);
    let p1 = u64_bytes(b.modification_time);
    let p2 = u32_bytes(b.track_id);
    let p3 = u32_bytes(0);
    let p4 = u64_bytes(b.duration);
    assert(u =~= e + (p0 + (p1 + (p2 + (p3 + (p4 + t))))));
    lemma_be64_at_word(e, b.creation_time, p1 + (p2 + (p3 + (p4 + t))));
    assert(u =~= p0 + (p1 + (p2 + (p3 + (p4 + t)))));
    lemma_be64_at_word(p0, b.modification_time, p2 + (p3 + (p4 + t)));
    assert(u =~= (p0 + p1) + (p2 + (p3 + (p4 + t))));
    lemma_be32_at_word(p0 + p1, b.track_id, p3 + (p4 + t));
    assert(u =~= (p0 + p1 + p2 + p3) + (p4 + t));
    lemma_be64_at_word(p0 + p1 + p2 + p3, b.duration, t);
    assert(u.skip(32) =~= t);
}

/// The times of an encoded version 0 tkhd box are read back at their
/// offsets, where they fit in 32 bits.
#[verifier::spinoff_prover]
#[verifier::rlimit(80)]
proof fn lemma_tkhd_times_v0(b: TkhdBoxView, t: Seq<u8>)
    requires
        b.version == 0,
        b.creation_time <= u32::MAX,
        b.modification_time <= u32::MAX,
        b.duration <= u32::MAX,
    ensures
        tkhd_times_bytes(b).len() == 20,
        (tkhd_times_bytes(b) + t).skip(20) == t,
        be32_at(tkhd_times_bytes(b) + t, 0) == b.creation_time,
        be32_at(tkhd_times_bytes(b) + t, 4) == b.modification_time,
        be32_at(tkhd_times_bytes(b) + t, 8) == b.track_id,
        be32_at(tkhd_times_bytes(b) + t, 16) == b.duration,
{
    reveal(tkhd_times_bytes);
    let u = tkhd_times_bytes(b) + t;
    let e = Seq::<u8>::empty();
    let p0 = u32_bytes(b.creation_time as u32);
    let p1 = u32_bytes(b.modification_time as u32);
    let p2 = u32_bytes(b.track_id);
    let p3 = u32_bytes(0);
    let p4 = u32_bytes(b.duration as u32);
    assert(u =~= e + (p0 + (p1 + (p2 + (p3 + (p4 + t))))));
    lemma_be32_at_word(e, b.creation_time as u32, p1 + (p2 + (p3 + (p4 + t))));
    assert(u =~= p0 + (p1 + (p2 + (p3 + (p4 + t)))));
    lemma_be32_at_word(p0, b.modification_time as u32, p2 + (p3 + (p4 + t)));
    assert(u =~= (p0 + p1) + (p2 + (p3 + (p4 + t))));
    lemma_be32_at_word(p0 + p1, b.track_id, p3 + (p4 + t));
    assert(u =~= (p0 + p1 + p2 + p3) + (p4 + t));
    lemma_be32_at_word(p0 + p1 + p2 + p3, b.duration as u32, t);
    assert(u.skip(20) =~= t);
}

/// The 60 bytes after the times of an encoded tkhd box are read back at
/// their offsets.
#[verifier::spinoff_prover]
proof fn lemma_tkhd_tail(b: TkhdBoxView, rest: Seq<u8>)
    ensures
        tkhd_tail_bytes(b).len() == 60,
        ({
            let u = tkhd_tail_bytes(b) + rest;
            &&& be16_at(u, 8) == b.layer
            &&& be16_at(u, 10) == b.alternate_group
            &&& be16_at(u, 12) == b.volume
            &&& parse_matrix(u.skip(16)) == b.matrix
            &&& be32_at(u, 52) == b.width
            &&& be32_at(u, 56) == b.height
        }),
{
    reveal(tkhd_tail_bytes);
    let u = tkhd_tail_bytes(b) + rest;
    let p0 = u64_bytes(0);
    let pl = u16_bytes(b.layer);
    let pa = u16_bytes(b.alternate_group);
    let pv = u16_bytes(b.volume);
    let pr = u16_bytes(0);
    let m = matrix_bytes(b.matrix);
    let pw = u32_bytes(b.width);
    let ph = u32_bytes(b.height);
    lemma_matrix_roundtrip(b.matrix, pw + (ph + rest));
    assert(u =~= p0 + (pl + (pa + (pv + (pr + (m + (pw + (ph + rest))))))));
    lemma_be16_at_word(p0, b.layer, pa + (pv + (pr + (m + (pw + (ph + rest))))));
    assert(u =~= (p0 + pl) + (pa + (pv + (pr + (m + (pw + (ph + rest)))))));
    lemma_be16_at_word(p0 + pl, b.alternate_group, pv + (pr + (m + (pw + (ph + rest)))));
    assert(u =~= (p0 + pl + pa) + (pv + (pr + (m + (pw + (ph + rest))))));
    lemma_be16_at_word(p0 + pl + pa, b.volume, pr + (m + (pw + (ph + rest))));
    assert(u.skip(16) =~= m + (pw + (ph + rest)));
    assert(u =~= (p0 + pl + pa + pv + pr + m) + (pw + (ph + rest)));
    lemma_be32_at_word(p0 + pl + pa + pv + pr + m, b.width, ph + rest);
    assert(u =~= (p0 + pl + pa + pv + pr + m + pw) + (ph + rest));
    lemma_be32_at_word(p0 + pl + pa + pv + pr + m + pw, b.height, rest);
}

/// An encoded tkhd box is its header, version and flags, times and tail.
#[verifier::spinoff_prover]
proof fn lemma_tkhd_split(b: TkhdBoxView, rest: Seq<u8>)
    requires
        b.version <= 1,
        tkhd_times_bytes(b).len() == tkhd_times_size(b.version),
        tkhd_tail_bytes(b).len() == 60,
    ensures
        tkhd_bytes(b).len() == tkhd_size(b.version),
        (tkhd_bytes(b) + rest).skip(8) == ext_bytes(b.version, b.flags) + (tkhd_times_bytes(b) + (
        tkhd_tail_bytes(b) + rest)),
{
    let h = header_bytes(BoxType::TkhdBox, tkhd_size(b.version));
    let e = ext_bytes(b.version, b.flags);
    let tm = tkhd_times_bytes(b);
    let tl = tkhd_tail_bytes(b);
    assert(h.len() == 8);
    assert(h + (e + (tm + tl)) + rest =~= h + (e + (tm + (tl + rest))));
    assert((h + (e + (tm + (tl + rest)))).skip(8) =~= e + (tm + (tl + rest)));
}

/// Decoding the body of an encoded tkhd box gives the box back, for
/// version 0 or 1 and, in version 0, times that fit in 32 bits.
#[verifier::spinoff_prover]
#[verifier::rlimit(30)]
pub proof fn lemma_tkhd_roundtrip(b: TkhdBoxView, rest: Seq<u8>)
    requires
        b.flags < 0x1000000,
        b.version <= 1,
        b.version == 0 ==> b.creation_time <= u32::MAX && b.modification_time <= u32::MAX && b.duration
            <= u32::MAX,
    ensures
        tkhd_bytes(b).len() == tkhd_size(b.version),
        parse_tkhd((tkhd_bytes(b) + rest).skip(8)) == Ok::<TkhdBoxView, Error>(b),
{
    lemma_u24_roundtrip(b.flags);
    let e = ext_bytes(b.version, b.flags);
    let tm = tkhd_times_bytes(b);
    let tl = tkhd_tail_bytes(b) + rest;
    if b.version == 1 {
        lemma_tkhd_times_v1(b, tl);
    } else {
        lemma_tkhd_times_v0(b, tl);
    }
    lemma_tkhd_tail(b, rest);
    lemma_tkhd_split(b, rest);
    let o = 4 + tkhd_times_size(b.version);
    let s = (tkhd_bytes(b) + rest).skip(8);
    let u = tm + tl;
    assert(s.skip(4) =~= u);
    let pre = e + tm;
    assert(s =~= pre + tl);
    assert(pre.len() == o);
    assert(s.skip(o) =~= tl);
    assert(s.skip(o + 16) =~= tl.skip(16));
    lemma_be16_shift(pre, tl, 8);
    lemma_be16_shift(pre, tl, 10);
    lemma_be16_shift(pre, tl, 12);
    lemma_be32_shift(pre, tl, 52);
    lemma_be32_shift(pre, tl, 56);
    if b.version == 1 {
        lemma_be64_shift(e, u, 0);
        lemma_be64_shift(e, u, 8);
        lemma_be32_shift(e, u, 16);
        lemma_be64_shift(e, u, 24);
    } else {
        lemma_be32_shift(e, u, 0);
        lemma_be32_shift(e, u, 4);
        lemma_be32_shift(e, u, 8);
        lemma_be32_shift(e, u, 16);
    }
}

} // verus!
