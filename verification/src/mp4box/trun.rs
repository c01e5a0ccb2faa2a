//! The track fragment run box: the samples of a run, each with the fields
//! that the flags of the box select.
use crate::bigendian::{
    be_write_i32, be_write_u32, group_take_lemmas, lemma_u24_roundtrip, lemma_u32_roundtrip, u32_bytes,
};
use crate::error::{Error, Result};
use crate::mp4box::{
    be24_at, be32_at, box_result, box_start, ext_bytes, header_bytes, read_box_header_ext,
    read_outcome, skip_bytes_to, write_box_header_ext, BoxHeader, Mp4Box, ReadBox, WriteBox,
    HEADER_EXT_SIZE, HEADER_SIZE,
};
use crate::reader::Reader;
use crate::types::BoxType;
use vstd::prelude::*;

verus! {

broadcast use group_take_lemmas;

#[derive(Debug, Clone, PartialEq, Eq, Default)]
pub struct TrunBox {
    pub version: u8,
    pub flags: u32,
    pub sample_count: u32,
    pub data_offset: Option<i32>,
    pub first_sample_flags: Option<u32>,
    pub sample_durations: Vec<u32>,
    pub sample_sizes: Vec<u32>,
    pub sample_flags: Vec<u32>,
    pub sample_cts: Vec<u32>,
}

/// What a trun box holds, as mathematical values.
pub struct TrunBoxView {
    pub version: u8,
    pub flags: u32,
    pub sample_count: u32,
    pub data_offset: Option<i32>,
    pub first_sample_flags: Option<u32>,
    pub sample_durations: Seq<u32>,
    pub sample_sizes: Seq<u32>,
    pub sample_flags: Seq<u32>,
    pub sample_cts: Seq<u32>,
}

impl View for TrunBox {
    type V = TrunBoxView;

    open spec fn view(&self) -> TrunBoxView {
        TrunBoxView {
            version: self.version,
            flags: self.flags,
            sample_count: self.sample_count,
            data_offset: self.data_offset,
            first_sample_flags: self.first_sample_flags,
            sample_durations: self.sample_durations@,
            sample_sizes: self.sample_sizes@,
            sample_flags: self.sample_flags@,
            sample_cts: self.sample_cts@,
        }
    }
}

/// Whether the flag `bit` is set in `flags`.
pub open spec fn trun_has(flags: u32, bit: u32) -> bool {
    bit & flags > 0
}

/// The number of bytes that the field selected by `bit` takes.
pub open spec fn field_len(flags: u32, bit: u32) -> int {
    if trun_has(flags, bit) {
        4
    } else {
        0
    }
}

/// The number of bytes that each sample takes.
pub open spec fn row_len(flags: u32) -> int {
    field_len(flags, 0x100) + field_len(flags, 0x200) + field_len(flags, 0x400) + field_len(flags, 0x800)
}

/// The offset of the field selected by `bit` within the bytes of a sample.
pub open spec fn col_off(flags: u32, bit: u32) -> int {
    if bit == 0x100 {
        0
    } else if bit == 0x200 {
        field_len(flags, 0x100)
    } else if bit == 0x400 {
        field_len(flags, 0x100) + field_len(flags, 0x200)
    } else {
        field_len(flags, 0x100) + field_len(flags, 0x200) + field_len(flags, 0x400)
    }
}

/// The number of body bytes before the samples: version, flags, sample
/// count and the optional data offset and first sample flags.
pub open spec fn head_len(flags: u32) -> int {
    8 + field_len(flags, 0x01) + field_len(flags, 0x04)
}

/// The size of a trun box with these flags and this many samples.
pub open spec fn trun_size(flags: u32, count: u32) -> int {
    8 + head_len(flags) + row_len(flags) * count
}

/// The number of bytes a box `size` bytes long leaves for the samples.
pub open spec fn trun_room(size: u64, flags: u32) -> int {
    if size >= 8 + head_len(flags) {
        size - 8 - head_len(flags)
    } else {
        0
    }
}

/// The field selected by `bit` of each of `count` samples stored from the
/// start of `s`, or nothing where the flag is not set.
pub open spec fn trun_column(s: Seq<u8>, flags: u32, count: u32, bit: u32) -> Seq<u32> {
    if trun_has(flags, bit) {
        Seq::new(count as nat, |k: int| be32_at(s, row_len(flags) * k + col_off(flags, bit)))
    } else {
        Seq::empty()
    }
}

/// The trun box that the body at the start of `s` encodes, in a box that is
/// `size` bytes long.
pub open spec fn parse_trun(s: Seq<u8>, size: u64) -> Result<TrunBoxView> {
    if s.len() < 8 {
        Err(Error::IoError)
    } else {
        let flags = be24_at(s, 1);
        let count = be32_at(s, 4);
        if s.len() < head_len(flags) {
            Err(Error::IoError)
        } else if count * row_len(flags) > trun_room(size, flags) {
            Err(Error::InvalidData("trun sample_count indicates more values than could fit in the box"))
        } else if s.len() < head_len(flags) + row_len(flags) * count {
            Err(Error::IoError)
        } else {
            let samples = s.skip(head_len(flags));
            Ok(TrunBoxView {
                version: s[0],
                flags,
                sample_count: count,
                data_offset: if trun_has(flags, 0x01) {
                    Some(be32_at(s, 8) as i32)
                } else {
                    None
                },
                first_sample_flags: if trun_has(flags, 0x04) {
                    Some(be32_at(s, 8 + field_len(flags, 0x01)))
                } else {
                    None
                },
                sample_durations: trun_column(samples, flags, count, 0x100),
                sample_sizes: trun_column(samples, flags, count, 0x200),
                sample_flags: trun_column(samples, flags, count, 0x400),
                sample_cts: trun_column(samples, flags, count, 0x800),
            })
        }
    }
}

/// The bytes of value `k` of `v` where `present`, else none.
pub open spec fn opt_word(present: bool, v: Seq<u32>, k: int) -> Seq<u8> {
    if present {
        u32_bytes(v[k])
    } else {
        Seq::empty()
    }
}

/// The bytes of sample `k` of `b`.
pub open spec fn trun_row_bytes(b: TrunBoxView, k: int) -> Seq<u8> {
    opt_word(trun_has(b.flags, 0x100), b.sample_durations, k) + opt_word(
        trun_has(b.flags, 0x200),
        b.sample_sizes,
        k,
    ) + opt_word(trun_has(b.flags, 0x400), b.sample_flags, k) + opt_word(
        trun_has(b.flags, 0x800),
        b.sample_cts,
        k,
    )
}

/// The bytes of the first `n` samples of `b`.
pub open spec fn trun_rows_bytes(b: TrunBoxView, n: nat) -> Seq<u8>
    decreases n,
{
    if n == 0 {
        Seq::empty()
    } else {
        trun_rows_bytes(b, (n - 1) as nat) + trun_row_bytes(b, n - 1)
    }
}

/// The header, version, flags, sample count and the optional data offset
/// and first sample flags of `b`, each written where it is present.
pub open spec fn trun_head_bytes(b: TrunBoxView) -> Seq<u8> {
    header_bytes(BoxType::TrunBox, trun_size(b.flags, b.sample_count) as u64) + ext_bytes(b.version, b.flags)
        + u32_bytes(b.sample_count) + match b.data_offset {
        Some(v) => u32_bytes(v as u32),
        None => Seq::empty(),
    } + match b.first_sample_flags {
        Some(v) => u32_bytes(v),
        None => Seq::empty(),
    }
}

/// Whether the sample count of `b` is the number of its sample sizes.
pub open spec fn trun_in_sync(b: TrunBoxView) -> bool {
    b.sample_count == b.sample_sizes.len() as u32
}

/// The bytes that encoding `b` appends: the samples follow only where the
/// sample count is in sync.
pub open spec fn trun_bytes(b: TrunBoxView) -> Seq<u8> {
    trun_head_bytes(b) + if trun_in_sync(b) {
        trun_rows_bytes(b, b.sample_count as nat)
    } else {
        Seq::empty()
    }
}

/// Reads a big-endian `u32` onto the end of `v` where `present`.
fn read_opt_u32(reader: &mut Reader, present: bool, v: &mut Vec<u32>) -> (res: Result<()>)
    ensures
        final(reader).data_seq() == old(reader).data_seq(),
        match res {
            Ok(_) => if present {
                old(reader).rem().len() >= 4 && final(v)@ == old(v)@.push(be32_at(old(reader).rem(), 0))
                    && final(reader).rem() == old(reader).rem().skip(4)
                    && final(reader).pos() == old(reader).pos() + 4
            } else {
                final(v)@ == old(v)@ && final(reader).rem() == old(reader).rem()
                    && final(reader).pos() == old(reader).pos()
            },
            Err(e) => present && old(reader).rem().len() < 4 && e == Error::IoError,
        },
{
    if present {
        let x = reader.read_u32()?;
        v.push(x);
    }
    Ok(())
}

/// The four columns of `count` samples, as read from the start of `s`.
pub open spec fn trun_columns(s: Seq<u8>, flags: u32, count: u32) -> (Seq<u32>, Seq<u32>, Seq<u32>, Seq<u32>) {
    (
        trun_column(s, flags, count, 0x100),
        trun_column(s, flags, count, 0x200),
        trun_column(s, flags, count, 0x400),
        trun_column(s, flags, count, 0x800),
    )
}

/// The first `k` values of a column.
pub open spec fn column_prefix(s: Seq<u8>, flags: u32, k: int, bit: u32) -> Seq<u32> {
    if trun_has(flags, bit) {
        Seq::new(k as nat, |j: int| be32_at(s, row_len(flags) * j + col_off(flags, bit)))
    } else {
        Seq::empty()
    }
}

/// Reads the fields of one sample onto the ends of the four columns.
fn read_trun_row(
    reader: &mut Reader,
    flags: u32,
    d: &mut Vec<u32>,
    z: &mut Vec<u32>,
    f: &mut Vec<u32>,
    c: &mut Vec<u32>,
) -> (res: Result<()>)
    ensures
        final(reader).data_seq() == old(reader).data_seq(),
        match res {
            Ok(_) => {
                let r = old(reader).rem();
                &&& r.len() >= row_len(flags)
                &&& final(reader).rem() == r.skip(row_len(flags))
                &&& final(reader).pos() == old(reader).pos() + row_len(flags)
                &&& final(d)@ == old(d)@ + opt_value(r, flags, 0x100)
                &&& final(z)@ == old(z)@ + opt_value(r, flags, 0x200)
                &&& final(f)@ == old(f)@ + opt_value(r, flags, 0x400)
                &&& final(c)@ == old(c)@ + opt_value(r, flags, 0x800)
            },
            Err(e) => old(reader).rem().len() < row_len(flags) && e == Error::IoError,
        },
{
    let ghost r = old(reader).rem();
    read_opt_u32(reader, TrunBox::FLAG_SAMPLE_DURATION & flags > 0, d)?;
    let ghost o1 = field_len(flags, 0x100);
    assert(reader.rem() == r.skip(o1));
    read_opt_u32(reader, TrunBox::FLAG_SAMPLE_SIZE & flags > 0, z)?;
    let ghost o2 = o1 + field_len(flags, 0x200);
    assert(reader.rem() =~= r.skip(o2));
    read_opt_u32(reader, TrunBox::FLAG_SAMPLE_FLAGS & flags > 0, f)?;
    let ghost o3 = o2 + field_len(flags, 0x400);
    assert(reader.rem() =~= r.skip(o3));
    read_opt_u32(reader, TrunBox::FLAG_SAMPLE_CTS & flags > 0, c)?;
    assert(reader.rem() =~= r.skip(row_len(flags)));
    assert(final(d)@ =~= old(d)@ + opt_value(r, flags, 0x100));
    assert(final(z)@ =~= old(z)@ + opt_value(r, flags, 0x200));
    assert(final(f)@ =~= old(f)@ + opt_value(r, flags, 0x400));
    assert(final(c)@ =~= old(c)@ + opt_value(r, flags, 0x800));
    Ok(())
}

/// The field selected by `bit` of the sample stored at the start of `r`,
/// where the flag is set.
pub open spec fn opt_value(r: Seq<u8>, flags: u32, bit: u32) -> Seq<u32> {
    if trun_has(flags, bit) {
        seq![be32_at(r, col_off(flags, bit))]
    } else {
        Seq::empty()
    }
}

/// Reads the fields of `count` samples.
fn read_trun_samples(reader: &mut Reader, flags: u32, count: u32) -> (res: Result<
    (Vec<u32>, Vec<u32>, Vec<u32>, Vec<u32>),
>)
    ensures
        final(reader).data_seq() == old(reader).data_seq(),
        match res {
            Ok((d, z, f, c)) => old(reader).rem().len() >= row_len(flags) * count && (d@, z@, f@, c@)
                == trun_columns(old(reader).rem(), flags, count) && final(reader).pos() == old(reader).pos()
                + row_len(flags) * count,
            Err(e) => old(reader).rem().len() < row_len(flags) * count && e == Error::IoError,
        },
{
    let ghost r0 = old(reader).rem();
    let ghost rl = row_len(flags);
    let mut d: Vec<u32> = Vec::new();
    let mut z: Vec<u32> = Vec::new();
    let mut f: Vec<u32> = Vec::new();
    let mut c: Vec<u32> = Vec::new();
    let mut k: u32 = 0;
    while k < count
        invariant
            k <= count,
            rl == row_len(flags),
            r0 == old(reader).rem(),
            reader.data_seq() == old(reader).data_seq(),
            r0.len() >= rl * k,
            reader.rem() == r0.skip(rl * k),
            reader.pos() == old(reader).pos() + rl * k,
            d@ == column_prefix(r0, flags, k as int, 0x100),
            z@ == column_prefix(r0, flags, k as int, 0x200),
            f@ == column_prefix(r0, flags, k as int, 0x400),
            c@ == column_prefix(r0, flags, k as int, 0x800),
        decreases count - k,
    {
        proof {
            assert(rl * (k + 1) == rl * k + rl) by (nonlinear_arith);
            assert(rl * (k + 1) <= rl * count) by (nonlinear_arith)
                requires
                    k + 1 <= count,
                    rl >= 0,
            ;
        }
        let ghost r = reader.rem();
        read_trun_row(reader, flags, &mut d, &mut z, &mut f, &mut c)?;
        proof {
            assert(reader.rem() =~= r0.skip(rl * (k + 1)));
            assert(d@ =~= column_prefix(r0, flags, k + 1, 0x100));
            assert(z@ =~= column_prefix(r0, flags, k + 1, 0x200));
            assert(f@ =~= column_prefix(r0, flags, k + 1, 0x400));
            assert(c@ =~= column_prefix(r0, flags, k + 1, 0x800));
        }
        k = k + 1;
    }
    assert(d@ =~= trun_column(r0, flags, count, 0x100));
    assert(z@ =~= trun_column(r0, flags, count, 0x200));
    assert(f@ =~= trun_column(r0, flags, count, 0x400));
    assert(c@ =~= trun_column(r0, flags, count, 0x800));
    Ok((d, z, f, c))
}

/// Appends the fields of the first `count` samples of `b`.
fn write_trun_samples(writer: &mut Vec<u8>, b: &TrunBox)
    requires
        trun_has(b.flags, 0x100) ==> b.sample_durations@.len() >= b.sample_count,
        trun_has(b.flags, 0x200) ==> b.sample_sizes@.len() >= b.sample_count,
        trun_has(b.flags, 0x400) ==> b.sample_flags@.len() >= b.sample_count,
        trun_has(b.flags, 0x800) ==> b.sample_cts@.len() >= b.sample_count,
    ensures
        final(writer)@ == old(writer)@ + trun_rows_bytes(b@, b.sample_count as nat),
{
    let count = b.sample_count;
    let mut i: u32 = 0;
    while i < count
        invariant
            i <= count,
            count == b.sample_count,
            trun_has(b.flags, 0x100) ==> b.sample_durations@.len() >= count,
            trun_has(b.flags, 0x200) ==> b.sample_sizes@.len() >= count,
            trun_has(b.flags, 0x400) ==> b.sample_flags@.len() >= count,
            trun_has(b.flags, 0x800) ==> b.sample_cts@.len() >= count,
            writer@ == old(writer)@ + trun_rows_bytes(b@, i as nat),
        decreases count - i,
    {
        let ghost before = writer@;
        let k = i as usize;
        if TrunBox::FLAG_SAMPLE_DURATION & b.flags > 0 {
            be_write_u32(writer, b.sample_durations[k]);
        }
        if TrunBox::FLAG_SAMPLE_SIZE & b.flags > 0 {
            be_write_u32(writer, b.sample_sizes[k]);
        }
        if TrunBox::FLAG_SAMPLE_FLAGS & b.flags > 0 {
            be_write_u32(writer, b.sample_flags[k]);
        }
        if TrunBox::FLAG_SAMPLE_CTS & b.flags > 0 {
            be_write_u32(writer, b.sample_cts[k]);
        }
        assert(writer@ =~= before + trun_row_bytes(b@, i as int));
        i = i + 1;
        assert(writer@ =~= old(writer)@ + trun_rows_bytes(b@, i as nat));
    }
}

impl TrunBox {
    pub const FLAG_DATA_OFFSET: u32 = 0x01;
    pub const FLAG_FIRST_SAMPLE_FLAGS: u32 = 0x04;
    pub const FLAG_SAMPLE_DURATION: u32 = 0x100;
    pub const FLAG_SAMPLE_SIZE: u32 = 0x200;
    pub const FLAG_SAMPLE_FLAGS: u32 = 0x400;
    pub const FLAG_SAMPLE_CTS: u32 = 0x800;

    pub fn get_type(&self) -> (t: BoxType)
        ensures
            t == BoxType::TrunBox,
    {
        BoxType::TrunBox
    }

    /// The encoded size: the header, the sample count, and each field that
    /// the flags select, once or once per sample.
    pub fn get_size(&self) -> (s: u64)
        ensures
            s == trun_size(self.flags, self.sample_count),
    {
        let count = self.sample_count as u64;
        let mut sum: u64 = HEADER_SIZE + HEADER_EXT_SIZE + 4;
        if TrunBox::FLAG_DATA_OFFSET & self.flags > 0 {
            sum = sum + 4;
        }
        if TrunBox::FLAG_FIRST_SAMPLE_FLAGS & self.flags > 0 {
            sum = sum + 4;
        }
        let mut per: u64 = 0;
        if TrunBox::FLAG_SAMPLE_DURATION & self.flags > 0 {
            per = per + 4;
        }
        if TrunBox::FLAG_SAMPLE_SIZE & self.flags > 0 {
            per = per + 4;
        }
        if TrunBox::FLAG_SAMPLE_FLAGS & self.flags > 0 {
            per = per + 4;
        }
        if TrunBox::FLAG_SAMPLE_CTS & self.flags > 0 {
            per = per + 4;
        }
        assert(per * count <= 16 * 0xffff_ffffu64) by (nonlinear_arith)
            requires
                per <= 16,
                count <= 0xffff_ffffu64,
        ;
        sum = sum + per * count;
        sum
    }
}

impl Mp4Box for TrunBox {
    open spec fn has_size(&self) -> bool {
        true
    }

    fn box_type(&self) -> (t: BoxType)
        ensures
            t == BoxType::TrunBox,
    {
        self.get_type()
    }

    fn box_size(&self) -> (s: u64)
        ensures
            s == trun_size(self.flags, self.sample_count),
    {
        self.get_size()
    }
}

impl ReadBox for TrunBox {
    open spec fn size_accepted(size: u64) -> bool {
        true
    }

    #[verifier::spinoff_prover]
    fn read_box(reader: &mut Reader, size: u64) -> (res: Result<Self>)
        ensures
            res is Ok ==> final(reader).pos() == old(reader).pos() - HEADER_SIZE + size,
            read_outcome(res, box_result(parse_trun(old(reader).rem(), size), old(reader).pos() - HEADER_SIZE, size)),
    {
        let ghost s = old(reader).rem();
        let start = box_start(reader);
        let (version, flags) = read_box_header_ext(reader)?;
        let sample_count = reader.read_u32()?;
        assert(reader.rem() =~= s.skip(8));
        let data_offset = if TrunBox::FLAG_DATA_OFFSET & flags > 0 {
            Some(reader.read_i32()?)
        } else {
            None
        };
        assert(reader.rem() =~= s.skip(8 + field_len(flags, 0x01)));
        let first_sample_flags = if TrunBox::FLAG_FIRST_SAMPLE_FLAGS & flags > 0 {
            Some(reader.read_u32()?)
        } else {
            None
        };
        assert(reader.rem() =~= s.skip(head_len(flags)));
        let mut other: u64 = 4;
        if TrunBox::FLAG_DATA_OFFSET & flags > 0 {
            other = other + 4;
        }
        if TrunBox::FLAG_FIRST_SAMPLE_FLAGS & flags > 0 {
            other = other + 4;
        }
        let mut per: u64 = 0;
        if TrunBox::FLAG_SAMPLE_DURATION & flags > 0 {
            per = per + 4;
        }
        if TrunBox::FLAG_SAMPLE_SIZE & flags > 0 {
            per = per + 4;
        }
        if TrunBox::FLAG_SAMPLE_FLAGS & flags > 0 {
            per = per + 4;
        }
        if TrunBox::FLAG_SAMPLE_CTS & flags > 0 {
            per = per + 4;
        }
        let room = if size >= HEADER_SIZE + HEADER_EXT_SIZE + other {
            size - HEADER_SIZE - HEADER_EXT_SIZE - other
        } else {
            0
        };
        assert(sample_count as u64 * per <= 16 * 0xffff_ffffu64) by (nonlinear_arith)
            requires
                per <= 16,
        ;
        if sample_count as u64 * per > room {
            return Err(Error::InvalidData("trun sample_count indicates more values than could fit in the box"));
        }
        let (sample_durations, sample_sizes, sample_flags, sample_cts) = read_trun_samples(
            reader,
            flags,
            sample_count,
        )?;
        skip_bytes_to(reader, start, size)?;
        Ok(TrunBox {
            version,
            flags,
            sample_count,
            data_offset,
            first_sample_flags,
            sample_durations,
            sample_sizes,
            sample_flags,
            sample_cts,
        })
    }
}

impl WriteBox for TrunBox {
    open spec fn writable(&self) -> bool {
        &&& self.flags < 0x1000000
        &&& trun_in_sync(self@) ==> {
            &&& trun_has(self.flags, 0x100) ==> self.sample_durations@.len() >= self.sample_count
            &&& trun_has(self.flags, 0x200) ==> self.sample_sizes@.len() >= self.sample_count
            &&& trun_has(self.flags, 0x400) ==> self.sample_flags@.len() >= self.sample_count
            &&& trun_has(self.flags, 0x800) ==> self.sample_cts@.len() >= self.sample_count
        }
    }

    /// Writes the box; where the sample count differs from the number of
    /// sample sizes, the samples are not written and the error is returned.
    #[verifier::spinoff_prover]
    fn write_box(&self, writer: &mut Vec<u8>) -> (res: Result<u64>)
        ensures
            final(writer)@ == old(writer)@ + trun_bytes(self@),
            res == if trun_in_sync(self@) {
                Ok::<u64, Error>(trun_size(self.flags, self.sample_count) as u64)
            } else {
                Err::<u64, Error>(Error::InvalidData("sample count out of sync"))
            },
    {
        let size = self.box_size();
        BoxHeader::new(self.box_type(), size).write(writer)?;
        write_box_header_ext(writer, self.version, self.flags)?;
        be_write_u32(writer, self.sample_count);
        if let Some(v) = self.data_offset {
            be_write_i32(writer, v);
        }
        if let Some(v) = self.first_sample_flags {
            be_write_u32(writer, v);
        }
        assert(writer@ =~= old(writer)@ + trun_head_bytes(self@));
        if self.sample_count != self.sample_sizes.len() as u32 {
            assert(writer@ =~= old(writer)@ + trun_bytes(self@));
            return Err(Error::InvalidData("sample count out of sync"));
        }
        write_trun_samples(writer, self);
        assert(writer@ =~= old(writer)@ + trun_bytes(self@));
        Ok(size)
    }
}

/// The values of the field selected by `bit` of the samples of `b`.
pub open spec fn trun_values(b: TrunBoxView, bit: u32) -> Seq<u32> {
    if bit == 0x100 {
        b.sample_durations
    } else if bit == 0x200 {
        b.sample_sizes
    } else if bit == 0x400 {
        b.sample_flags
    } else {
        b.sample_cts
    }
}

/// Whether the field selected by `bit` of sample `k` is read back from `s`.
pub open spec fn field_decodes(s: Seq<u8>, b: TrunBoxView, k: int, bit: u32) -> bool {
    trun_has(b.flags, bit) ==> be32_at(s, row_len(b.flags) * k + col_off(b.flags, bit)) == trun_values(
        b,
        bit,
    )[k]
}

/// Whether every field of sample `k` is read back from `s`.
pub open spec fn row_decodes(s: Seq<u8>, b: TrunBoxView, k: int) -> bool {
    &&& field_decodes(s, b, k, 0x100)
    &&& field_decodes(s, b, k, 0x200)
    &&& field_decodes(s, b, k, 0x400)
    &&& field_decodes(s, b, k, 0x800)
}

/// The bytes of one sample are `row_len` long, and each field is read back
/// at its offset.
#[verifier::spinoff_prover]
proof fn lemma_trun_row(b: TrunBoxView, k: int, rest: Seq<u8>)
    ensures
        trun_row_bytes(b, k).len() == row_len(b.flags),
        forall|bit: u32| (bit == 0x100 || bit == 0x200 || bit == 0x400 || bit == 0x800) && trun_has(b.flags, bit)
            ==> #[trigger] be32_at(trun_row_bytes(b, k) + rest, col_off(b.flags, bit)) == trun_values(b, bit)[k],
{
    let fl = b.flags;
    let w1 = opt_word(trun_has(fl, 0x100), b.sample_durations, k);
    let w2 = opt_word(trun_has(fl, 0x200), b.sample_sizes, k);
    let w3 = opt_word(trun_has(fl, 0x400), b.sample_flags, k);
    let w4 = opt_word(trun_has(fl, 0x800), b.sample_cts, k);
    let s = trun_row_bytes(b, k) + rest;
    lemma_u32_roundtrip(b.sample_durations[k]);
    lemma_u32_roundtrip(b.sample_sizes[k]);
    lemma_u32_roundtrip(b.sample_flags[k]);
    lemma_u32_roundtrip(b.sample_cts[k]);
    assert(s =~= w1 + (w2 + (w3 + (w4 + rest))));
}

/// The bytes of the first `n` samples are `row_len * n` long, and each of
/// their fields is read back at its offset, whatever follows.
#[verifier::spinoff_prover]
pub proof fn lemma_trun_rows(b: TrunBoxView, n: nat, rest: Seq<u8>)
    ensures
        trun_rows_bytes(b, n).len() == row_len(b.flags) * n,
        forall|k: int| 0 <= k < n ==> #[trigger] row_decodes(trun_rows_bytes(b, n) + rest, b, k),
    decreases n,
{
    let rl = row_len(b.flags);
    if n > 0 {
        let m = (n - 1) as nat;
        let a = trun_rows_bytes(b, m);
        let row = trun_row_bytes(b, m as int);
        lemma_trun_rows(b, m, row + rest);
        lemma_trun_row(b, m as int, rest);
        assert(rl * n == rl * m + rl) by (nonlinear_arith)
            requires
                n == m + 1,
        ;
        let s = trun_rows_bytes(b, n) + rest;
        assert(s =~= a + (row + rest));
        assert forall|k: int| 0 <= k < n implies #[trigger] row_decodes(s, b, k) by {
            if k < m {
                assert(row_decodes(a + (row + rest), b, k));
            } else {
                assert(a.len() == rl * k);
                let t = row + rest;
                assert forall|bit: u32| (bit == 0x100 || bit == 0x200 || bit == 0x400 || bit == 0x800)
                    && trun_has(b.flags, bit) implies #[trigger] be32_at(s, rl * k + col_off(b.flags, bit))
                    == be32_at(t, col_off(b.flags, bit)) by {
                    let o = col_off(b.flags, bit);
                    assert(o + 4 <= rl);
                    assert(s[rl * k + o] == t[o]);
                    assert(s[rl * k + o + 1] == t[o + 1]);
                    assert(s[rl * k + o + 2] == t[o + 2]);
                    assert(s[rl * k + o + 3] == t[o + 3]);
                }
                if trun_has(b.flags, 0x100) {
                    assert(be32_at(t, col_off(b.flags, 0x100)) == be32_at(s, rl * k + col_off(b.flags, 0x100)));
                }
                if trun_has(b.flags, 0x200) {
                    assert(be32_at(t, col_off(b.flags, 0x200)) == be32_at(s, rl * k + col_off(b.flags, 0x200)));
                }
                if trun_has(b.flags, 0x400) {
                    assert(be32_at(t, col_off(b.flags, 0x400)) == be32_at(s, rl * k + col_off(b.flags, 0x400)));
                }
                if trun_has(b.flags, 0x800) {
                    assert(be32_at(t, col_off(b.flags, 0x800)) == be32_at(s, rl * k + col_off(b.flags, 0x800)));
                }
            }
        }
    }
}

/// Decoding the body of an encoded trun box gives the box back, where the
/// optional fields are present exactly when their flags are set, each
/// selected column holds one value per sample and the others none, the
/// sample count is in sync and the box is small enough for a 32-bit size.
#[verifier::spinoff_prover]
#[verifier::rlimit(30)]
pub proof fn lemma_trun_roundtrip(b: TrunBoxView, rest: Seq<u8>)
    requires
        b.flags < 0x1000000,
        b.data_offset is Some <==> trun_has(b.flags, 0x01),
        b.first_sample_flags is Some <==> trun_has(b.flags, 0x04),
        b.sample_durations.len() == if trun_has(b.flags, 0x100) { b.sample_count as int } else { 0 },
        b.sample_sizes.len() == if trun_has(b.flags, 0x200) { b.sample_count as int } else { 0 },
        b.sample_flags.len() == if trun_has(b.flags, 0x400) { b.sample_count as int } else { 0 },
        b.sample_cts.len() == if trun_has(b.flags, 0x800) { b.sample_count as int } else { 0 },
        b.sample_sizes.len() == b.sample_count,
        trun_size(b.flags, b.sample_count) <= u32::MAX,
    ensures
        trun_bytes(b).len() == trun_size(b.flags, b.sample_count),
        parse_trun((trun_bytes(b) + rest).skip(8), trun_size(b.flags, b.sample_count) as u64) == Ok::<
            TrunBoxView,
            Error,
        >(b),
{
    let fl = b.flags;
    let n = b.sample_count;
    let rl = row_len(fl);
    lemma_u24_roundtrip(fl);
    lemma_u32_roundtrip(n);
    assert(trun_in_sync(b));
    lemma_trun_rows(b, n as nat, rest);
    let size = trun_size(fl, n);
    let h = header_bytes(BoxType::TrunBox, size as u64);
    let off = match b.data_offset {
        Some(v) => u32_bytes(v as u32),
        None => Seq::<u8>::empty(),
    };
    let ff = match b.first_sample_flags {
        Some(v) => u32_bytes(v),
        None => Seq::<u8>::empty(),
    };
    let rows = trun_rows_bytes(b, n as nat);
    assert(h.len() == 8);
    let body = ext_bytes(b.version, fl) + u32_bytes(n) + off + ff;
    assert(body.len() == head_len(fl));
    assert(trun_bytes(b) + rest =~= h + (body + (rows + rest)));
    let s = (trun_bytes(b) + rest).skip(8);
    assert(s =~= body + (rows + rest));
    assert(s.skip(head_len(fl)) =~= rows + rest);
    if let Some(v) = b.data_offset {
        lemma_u32_roundtrip(v as u32);
        assert((v as u32) as i32 == v) by (bit_vector);
        assert(be32_at(s, 8) == v as u32);
    }
    if let Some(v) = b.first_sample_flags {
        lemma_u32_roundtrip(v);
        assert(be32_at(s, 8 + field_len(fl, 0x01)) == v);
    }
    assert(trun_room(size as u64, fl) == rl * n);
    lemma_trun_columns(b, rows + rest);
}

/// The columns read back from bytes in which every sample decodes are the
/// columns of `b`, where each selected column holds one value per sample
/// and the others none.
#[verifier::spinoff_prover]
proof fn lemma_trun_columns(b: TrunBoxView, t: Seq<u8>)
    requires
        b.sample_durations.len() == if trun_has(b.flags, 0x100) { b.sample_count as int } else { 0 },
        b.sample_sizes.len() == if trun_has(b.flags, 0x200) { b.sample_count as int } else { 0 },
        b.sample_flags.len() == if trun_has(b.flags, 0x400) { b.sample_count as int } else { 0 },
        b.sample_cts.len() == if trun_has(b.flags, 0x800) { b.sample_count as int } else { 0 },
        forall|k: int| 0 <= k < b.sample_count ==> #[trigger] row_decodes(t, b, k),
    ensures
        trun_column(t, b.flags, b.sample_count, 0x100) == b.sample_durations,
        trun_column(t, b.flags, b.sample_count, 0x200) == b.sample_sizes,
        trun_column(t, b.flags, b.sample_count, 0x400) == b.sample_flags,
        trun_column(t, b.flags, b.sample_count, 0x800) == b.sample_cts,
{
    let fl = b.flags;
    let n = b.sample_count;
    assert forall|k: int| 0 <= k < n implies #[trigger] trun_column(t, fl, n, 0x100)[k] == b.sample_durations[k]
        || !trun_has(fl, 0x100) by {
        assert(row_decodes(t, b, k));
    }
    assert forall|k: int| 0 <= k < n implies #[trigger] trun_column(t, fl, n, 0x200)[k] == b.sample_sizes[k]
        || !trun_has(fl, 0x200) by {
        assert(row_decodes(t, b, k));
    }
    assert forall|k: int| 0 <= k < n implies #[trigger] trun_column(t, fl, n, 0x400)[k] == b.sample_flags[k]
        || !trun_has(fl, 0x400) by {
        assert(row_decodes(t, b, k));
    }
    assert forall|k: int| 0 <= k < n implies #[trigger] trun_column(t, fl, n, 0x800)[k] == b.sample_cts[k]
        || !trun_has(fl, 0x800) by {
        assert(row_decodes(t, b, k));
    }
    assert(trun_column(t, fl, n, 0x100) =~= b.sample_durations);
    assert(trun_column(t, fl, n, 0x200) =~= b.sample_sizes);
    assert(trun_column(t, fl, n, 0x400) =~= b.sample_flags);
    assert(trun_column(t, fl, n, 0x800) =~= b.sample_cts);
}


/// Whether the encoding of a trun box keeps all of it: flags that fit in 24
/// bits and announce exactly the fields present, one value per sample in
/// each announced column, a sample size for each sample, and a size that
/// fits in 32 bits.
pub open spec fn trun_kept(b: TrunBoxView) -> bool {
    &&& b.flags < 0x1000000
    &&& b.data_offset is Some <==> trun_has(b.flags, 0x01)
    &&& b.first_sample_flags is Some <==> trun_has(b.flags, 0x04)
    &&& b.sample_durations.len() == if trun_has(b.flags, 0x100) { b.sample_count as int } else { 0 }
    &&& b.sample_sizes.len() == if trun_has(b.flags, 0x200) { b.sample_count as int } else { 0 }
    &&& b.sample_flags.len() == if trun_has(b.flags, 0x400) { b.sample_count as int } else { 0 }
    &&& b.sample_cts.len() == if trun_has(b.flags, 0x800) { b.sample_count as int } else { 0 }
    &&& b.sample_sizes.len() == b.sample_count
    &&& trun_size(b.flags, b.sample_count) <= u32::MAX
}

} // verus!
