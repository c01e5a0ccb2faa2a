//! The sample encryption box: per-sample initialization vectors and
//! subsample layouts, kept as raw bytes until the vector size is known.
use crate::bigendian::{be_write_u16, be_write_u32, group_take_lemmas, lemma_u24_roundtrip, lemma_u32_roundtrip, u16_bytes, u32_bytes};
use crate::error::{Error, Result};
use crate::mp4box::{
    be16_at, be24_at, be32_at, box_start, ext_bytes, header_bytes, lemma_be16_at_word, lemma_be32_at_word,
    read_box_header_ext, skip_bytes_to, write_box_header_ext, BoxHeader, Mp4Box, ReadBox, WriteBox,
    HEADER_EXT_SIZE, HEADER_SIZE,
};
use crate::reader::{write_all, Reader};
use crate::types::BoxType;
use vstd::prelude::*;
use vstd::seq_lib::lemma_concat_associative;

verus! {

broadcast use group_take_lemmas;

/// The clear and encrypted byte counts of a subsample.
#[derive(Debug, Clone, Copy, PartialEq, Eq, Default, Structural)]
pub struct SubSampleInfo {
    pub bytes_of_clear_data: u16,
    pub bytes_of_encrypted_data: u32,
}

/// The initialization vector and subsamples of a sample.
#[derive(Debug, Clone, PartialEq, Eq, Default)]
pub struct SampleInfo {
    pub iv: Vec<u8>,
    pub subsamples: Vec<SubSampleInfo>,
}

/// What a sample's encryption information holds, as mathematical values.
pub struct SampleInfoView {
    pub iv: Seq<u8>,
    pub subsamples: Seq<SubSampleInfo>,
}

impl View for SampleInfo {
    type V = SampleInfoView;

    open spec fn view(&self) -> SampleInfoView {
        SampleInfoView { iv: self.iv@, subsamples: self.subsamples@ }
    }
}

/// The views of the elements of `v`.
pub open spec fn infos_view(v: Seq<SampleInfo>) -> Seq<SampleInfoView> {
    Seq::new(v.len(), |i: int| v[i]@)
}

#[derive(Debug, Clone, PartialEq, Eq, Default)]
pub struct SencBox {
    pub version: u8,
    pub flags: u32,
    pub sample_count: u32,
    pub sample_data: Vec<u8>,
}

/// What a senc box holds, as mathematical values.
pub struct SencBoxView {
    pub version: u8,
    pub flags: u32,
    pub sample_count: u32,
    pub sample_data: Seq<u8>,
}

impl View for SencBox {
    type V = SencBoxView;

    open spec fn view(&self) -> SencBoxView {
        SencBoxView {
            version: self.version,
            flags: self.flags,
            sample_count: self.sample_count,
            sample_data: self.sample_data@,
        }
    }
}

/// Whether the samples carry subsample layouts.
pub open spec fn uses_subsamples(flags: u32) -> bool {
    0x02 & flags != 0
}

/// Whether `iv_size` is a size an initialization vector can have.
pub open spec fn valid_iv_size(iv_size: u8) -> bool {
    iv_size == 16 || iv_size == 8 || iv_size == 0
}

/// The `n` subsamples stored from the start of `s`.
pub open spec fn subsamples_at(s: Seq<u8>, n: nat) -> Seq<SubSampleInfo> {
    Seq::new(
        n,
        |j: int| SubSampleInfo { bytes_of_clear_data: be16_at(s, 6 * j), bytes_of_encrypted_data: be32_at(s, 6 * j + 2) },
    )
}

/// The information of the sample stored from the start of `s` and the
/// number of bytes it takes, or `None` where `s` ends first.
pub open spec fn sample_info_at(s: Seq<u8>, flags: u32, iv_size: u8) -> Option<(SampleInfoView, int)> {
    if s.len() < iv_size {
        None
    } else if !uses_subsamples(flags) {
        Some((SampleInfoView { iv: s.take(iv_size as int), subsamples: Seq::empty() }, iv_size as int))
    } else if s.len() < iv_size + 2 {
        None
    } else {
        let n = be16_at(s, iv_size as int);
        if s.len() < iv_size + 2 + 6 * n {
            None
        } else {
            Some(
                (
                    SampleInfoView {
                        iv: s.take(iv_size as int),
                        subsamples: subsamples_at(s.skip(iv_size + 2), n as nat),
                    },
                    iv_size + 2 + 6 * n,
                ),
            )
        }
    }
}

/// The information of the first `n` samples stored from the start of `s`
/// and the number of bytes they take, or `None` where `s` ends first.
pub open spec fn sample_infos(s: Seq<u8>, flags: u32, iv_size: u8, n: nat) -> Option<(Seq<SampleInfoView>, int)>
    decreases n,
{
    if n == 0 {
        Some((Seq::empty(), 0))
    } else {
        match sample_infos(s, flags, iv_size, (n - 1) as nat) {
            None => None,
            Some((v, p)) => if 0 <= p <= s.len() {
                match sample_info_at(s.skip(p), flags, iv_size) {
                    None => None,
                    Some((x, l)) => Some((v.push(x), p + l)),
                }
            } else {
                None
            },
        }
    }
}

/// What `get_sample_info` returns for a box.
pub open spec fn parse_sample_infos(b: SencBoxView, iv_size: u8) -> Result<Seq<SampleInfoView>> {
    if !valid_iv_size(iv_size) {
        Err(Error::InvalidData("invalid iv_size"))
    } else {
        match sample_infos(b.sample_data, b.flags, iv_size, b.sample_count as nat) {
            None => Err(Error::IoError),
            Some((v, _)) => Ok(v),
        }
    }
}

/// The bytes of the subsamples `v`.
pub open spec fn subsamples_bytes(v: Seq<SubSampleInfo>) -> Seq<u8>
    decreases v.len(),
{
    if v.len() == 0 {
        Seq::empty()
    } else {
        subsamples_bytes(v.drop_last()) + (u16_bytes(v.last().bytes_of_clear_data) + u32_bytes(
            v.last().bytes_of_encrypted_data,
        ))
    }
}

/// The bytes of one sample: the first `iv_size` bytes of its vector, then,
/// where the flags say so, its subsample count cut to 16 bits and all its
/// subsamples.
pub open spec fn sample_info_bytes(x: SampleInfoView, flags: u32, iv_size: u8) -> Seq<u8> {
    x.iv.take(iv_size as int) + if uses_subsamples(flags) {
        u16_bytes(x.subsamples.len() as u16) + subsamples_bytes(x.subsamples)
    } else {
        Seq::empty()
    }
}

/// The bytes of the samples `v`, one after another.
pub open spec fn sample_infos_bytes(v: Seq<SampleInfoView>, flags: u32, iv_size: u8) -> Seq<u8>
    decreases v.len(),
{
    if v.len() == 0 {
        Seq::empty()
    } else {
        sample_infos_bytes(v.drop_last(), flags, iv_size) + sample_info_bytes(v.last(), flags, iv_size)
    }
}

/// The size of the encoding of `b`.
pub open spec fn senc_size(b: SencBoxView) -> int {
    16 + b.sample_data.len() as int
}

/// The senc box that the body at the start of `s` encodes, in a box that is
/// `size` bytes long and starts at `start`: the bytes after the sample
/// count up to the end of the box are kept as they are.
pub open spec fn parse_senc(s: Seq<u8>, start: int, size: u64) -> Result<SencBoxView> {
    if s.len() < 8 {
        Err(Error::IoError)
    } else if start + size > u64::MAX {
        Err(Error::InvalidData("box end out of range"))
    } else if size < 16 {
        Err(Error::InvalidData("box size too small"))
    } else if s.len() < 8 + (size - 16) {
        Err(Error::IoError)
    } else {
        Ok(SencBoxView { version: s[0], flags: be24_at(s, 1), sample_count: be32_at(s, 4), sample_data: s.subrange(8, 8 + (size - 16)) })
    }
}

/// The encoding of a senc box, header included.
pub open spec fn senc_bytes(b: SencBoxView) -> Seq<u8> {
    header_bytes(BoxType::SencBox, senc_size(b) as u64) + (ext_bytes(b.version, b.flags) + (u32_bytes(b.sample_count)
        + b.sample_data))
}

/// Reads the layouts of `n` subsamples.
fn read_subsamples(reader: &mut Reader, n: u16) -> (res: Result<Vec<SubSampleInfo>>)
    ensures
        final(reader).data_seq() == old(reader).data_seq(),
        match res {
            Ok(v) => old(reader).rem().len() >= 6 * n && v@ == subsamples_at(old(reader).rem(), n as nat)
                && final(reader).rem() == old(reader).rem().skip(6 * n) && final(reader).pos() == old(reader).pos()
                + 6 * n,
            Err(e) => old(reader).rem().len() < 6 * n && e == Error::IoError,
        },
{
    let ghost s = old(reader).rem();
    let mut v: Vec<SubSampleInfo> = Vec::new();
    let mut j: u16 = 0;
    while j < n
        invariant
            j <= n,
            s == old(reader).rem(),
            reader.data_seq() == old(reader).data_seq(),
            s.len() >= 6 * j,
            reader.rem() == s.skip(6 * j),
            reader.pos() == old(reader).pos() + 6 * j,
            v@ == subsamples_at(s, j as nat),
        decreases n - j,
    {
        let bytes_of_clear_data = reader.read_u16()?;
        let bytes_of_encrypted_data = reader.read_u32()?;
        v.push(SubSampleInfo { bytes_of_clear_data, bytes_of_encrypted_data });
        proof {
            assert(s.skip(6 * j).skip(2).skip(4) =~= s.skip(6 * (j + 1)));
            assert(reader.rem() =~= s.skip(6 * (j + 1)));
            assert(v@ =~= subsamples_at(s, (j + 1) as nat));
        }
        j = j + 1;
    }
    Ok(v)
}

/// Reads the information of one sample.
fn read_sample_info(reader: &mut Reader, flags: u32, iv_size: u8) -> (res: Result<SampleInfo>)
    ensures
        final(reader).data_seq() == old(reader).data_seq(),
        match res {
            Ok(x) => sample_info_at(old(reader).rem(), flags, iv_size) matches Some((y, l)) && x@ == y
                && 0 <= l <= old(reader).rem().len() && final(reader).rem() == old(reader).rem().skip(l)
                && final(reader).pos() == old(reader).pos() + l,
            Err(e) => sample_info_at(old(reader).rem(), flags, iv_size) is None && e == Error::IoError,
        },
{
    let ghost s = old(reader).rem();
    let iv = reader.read_bytes(iv_size as u64)?;
    let mut subsamples: Vec<SubSampleInfo> = Vec::new();
    if SencBox::FLAG_USE_SUBSAMPLE_ENCRYPTION & flags != 0 {
        let subsample_count = reader.read_u16()?;
        assert(reader.rem() =~= s.skip(iv_size + 2));
        subsamples = read_subsamples(reader, subsample_count)?;
        assert(reader.rem() =~= s.skip(iv_size + 2 + 6 * subsample_count));
    }
    Ok(SampleInfo { iv, subsamples })
}

/// Appends the layouts of the subsamples `v`.
fn write_subsamples(writer: &mut Vec<u8>, v: &Vec<SubSampleInfo>)
    ensures
        final(writer)@ == old(writer)@ + subsamples_bytes(v@),
{
    let mut i: usize = 0;
    while i < v.len()
        invariant
            i <= v@.len(),
            writer@ == old(writer)@ + subsamples_bytes(v@.take(i as int)),
        decreases v@.len() - i,
    {
        let x = v[i];
        be_write_u16(writer, x.bytes_of_clear_data);
        be_write_u32(writer, x.bytes_of_encrypted_data);
        proof {
            assert(v@.take(i + 1).drop_last() =~= v@.take(i as int));
        }
        i = i + 1;
        assert(writer@ =~= old(writer)@ + subsamples_bytes(v@.take(i as int)));
    }
    assert(v@.take(v@.len() as int) =~= v@);
}

/// The first `n` bytes of `v`.
fn prefix(v: &Vec<u8>, n: usize) -> (r: Vec<u8>)
    requires
        n <= v@.len(),
    ensures
        r@ == v@.take(n as int),
{
    let mut r: Vec<u8> = Vec::new();
    let mut i: usize = 0;
    while i < n
        invariant
            i <= n,
            n <= v@.len(),
            r@ == v@.take(i as int),
        decreases n - i,
    {
        r.push(v[i]);
        i = i + 1;
        assert(r@ =~= v@.take(i as int));
    }
    r
}

impl SencBox {
    pub const FLAG_USE_SUBSAMPLE_ENCRYPTION: u32 = 0x02;

    pub fn get_type(&self) -> (t: BoxType)
        ensures
            t == BoxType::SencBox,
    {
        BoxType::SencBox
    }

    pub fn get_size(&self) -> (s: u64)
        requires
            senc_size(self@) <= u64::MAX,
        ensures
            s == senc_size(self@),
    {
        HEADER_SIZE + HEADER_EXT_SIZE + 4 + self.sample_data.len() as u64
    }

    /// Decodes the information of each sample, given the size of the
    /// initialization vectors, which only other boxes tell.
    pub fn get_sample_info(&self, iv_size: u8) -> (res: Result<Vec<SampleInfo>>)
        ensures
            match res {
                Ok(v) => parse_sample_infos(self@, iv_size) == Ok::<Seq<SampleInfoView>, Error>(infos_view(v@)),
                Err(e) => parse_sample_infos(self@, iv_size) == Err::<Seq<SampleInfoView>, Error>(e),
            },
    {
        if iv_size != 16 && iv_size != 8 && iv_size != 0 {
            return Err(Error::InvalidData("invalid iv_size"));
        }
        let ghost d = self.sample_data@;
        let mut reader = Reader::new(self.sample_data.as_slice());
        let mut infos: Vec<SampleInfo> = Vec::new();
        let mut i: u32 = 0;
        while i < self.sample_count
            invariant
                i <= self.sample_count,
                infos@.len() == i,
                valid_iv_size(iv_size),
                d == self.sample_data@,
                reader.data_seq() == d,
                sample_infos(d, self.flags, iv_size, i as nat) matches Some((v, p)) && v == infos_view(infos@)
                    && 0 <= p <= d.len() && reader.pos() == p,
            decreases self.sample_count - i,
        {
            let ghost p = reader.pos();
            assert(reader.rem() == d.skip(p));
            let info = match read_sample_info(&mut reader, self.flags, iv_size) {
                Ok(x) => x,
                Err(e) => {
                    proof {
                        lemma_sample_infos_none(d, self.flags, iv_size, (i + 1) as nat, self.sample_count as nat);
                    }
                    return Err(e);
                },
            };
            infos.push(info);
            proof {
                assert(infos_view(infos@) =~= infos_view(infos@.drop_last()).push(info@));
                assert(infos@.drop_last() =~= infos@.take(i as int));
            }
            i = i + 1;
        }
        Ok(infos)
    }

    /// Encodes the information of each sample, given the size of the
    /// initialization vectors, as the box's sample data.
    pub fn set_sample_info(&mut self, infos: &Vec<SampleInfo>, iv_size: u8) -> (res: Result<()>)
        requires
            valid_iv_size(iv_size) ==> forall|i: int| 0 <= i < infos@.len() ==> #[trigger] infos@[i].iv@.len() >= iv_size,
        ensures
            valid_iv_size(iv_size) ==> res is Ok && final(self)@ == (SencBoxView {
                sample_data: sample_infos_bytes(infos_view(infos@), old(self).flags, iv_size),
                ..old(self)@
            }),
            !valid_iv_size(iv_size) ==> res == Err::<(), Error>(Error::InvalidData("invalid iv_size"))
                && *final(self) == *old(self),
    {
        if iv_size != 16 && iv_size != 8 && iv_size != 0 {
            return Err(Error::InvalidData("invalid iv_size"));
        }
        let buf = encode_sample_infos(infos, self.flags, iv_size);
        self.sample_data = buf;
        Ok(())
    }
}

/// The bytes of the information of each sample.
fn encode_sample_infos(infos: &Vec<SampleInfo>, flags: u32, iv_size: u8) -> (buf: Vec<u8>)
    requires
        forall|i: int| 0 <= i < infos@.len() ==> #[trigger] infos@[i].iv@.len() >= iv_size,
    ensures
        buf@ == sample_infos_bytes(infos_view(infos@), flags, iv_size),
{
    let mut buf: Vec<u8> = Vec::new();
    let mut i: usize = 0;
    while i < infos.len()
        invariant
            i <= infos@.len(),
            forall|k: int| 0 <= k < infos@.len() ==> #[trigger] infos@[k].iv@.len() >= iv_size,
            buf@ == sample_infos_bytes(infos_view(infos@.take(i as int)), flags, iv_size),
        decreases infos@.len() - i,
    {
        let info = &infos[i];
        let ghost before = buf@;
        if iv_size != 0 {
            let iv = prefix(&info.iv, iv_size as usize);
            write_all(&mut buf, iv.as_slice());
        }
        if SencBox::FLAG_USE_SUBSAMPLE_ENCRYPTION & flags != 0 {
            be_write_u16(&mut buf, info.subsamples.len() as u16);
            write_subsamples(&mut buf, &info.subsamples);
        }
        proof {
            if iv_size == 0 {
                assert(info.iv@.take(0) =~= Seq::<u8>::empty());
            }
            assert(buf@ =~= before + sample_info_bytes(info@, flags, iv_size));
            assert(infos_view(infos@.take(i + 1)).drop_last() =~= infos_view(infos@.take(i as int)));
            assert(infos_view(infos@.take(i + 1)).last() == info@);
        }
        i = i + 1;
    }
    assert(infos@.take(infos@.len() as int) =~= infos@);
    buf
}

/// A decoding that fails at sample `i` fails at every later count.
#[verifier::spinoff_prover]
pub proof fn lemma_sample_infos_none(s: Seq<u8>, flags: u32, iv_size: u8, i: nat, j: nat)
    requires
        i <= j,
        sample_infos(s, flags, iv_size, i) is None,
    ensures
        sample_infos(s, flags, iv_size, j) is None,
    decreases j - i,
{
    if i < j {
        lemma_sample_infos_none(s, flags, iv_size, i, (j - 1) as nat);
    }
}

impl Mp4Box for SencBox {
    open spec fn has_size(&self) -> bool {
        senc_size(self@) <= u64::MAX
    }

    fn box_type(&self) -> (t: BoxType)
        ensures
            t == BoxType::SencBox,
    {
        self.get_type()
    }

    fn box_size(&self) -> (s: u64)
        ensures
            s == senc_size(self@),
    {
        self.get_size()
    }
}

impl ReadBox for SencBox {
    open spec fn size_accepted(size: u64) -> bool {
        true
    }

    /// Decodes the box, keeping the bytes from the sample count to the end
    /// of the box as sample data; a box shorter than its fixed fields is
    /// refused as invalid data.
    #[verifier::spinoff_prover]
    fn read_box(reader: &mut Reader, size: u64) -> (res: Result<Self>)
        ensures
            res is Ok ==> final(reader).pos() == old(reader).pos() - HEADER_SIZE + size,
            match res {
                Ok(b) => parse_senc(old(reader).rem(), old(reader).pos() - HEADER_SIZE, size) == Ok::<SencBoxView, Error>(b@),
                Err(e) => parse_senc(old(reader).rem(), old(reader).pos() - HEADER_SIZE, size) == Err::<SencBoxView, Error>(e),
            },
    {
        let ghost s = old(reader).rem();
        let start = box_start(reader);
        let (version, flags) = read_box_header_ext(reader)?;
        let sample_count = reader.read_u32()?;
        assert(reader.rem() =~= s.skip(8));
        if size > u64::MAX - start {
            return Err(Error::InvalidData("box end out of range"));
        }
        if size < HEADER_SIZE + HEADER_EXT_SIZE + 4 {
            return Err(Error::InvalidData("box size too small"));
        }
        let data_size = start + size - reader.position();
        let sample_data = reader.read_bytes(data_size)?;
        assert(sample_data@ =~= s.subrange(8, 8 + (size - 16)));
        skip_bytes_to(reader, start, size)?;
        Ok(SencBox { version, flags, sample_count, sample_data })
    }
}

impl WriteBox for SencBox {
    open spec fn writable(&self) -> bool {
        &&& self.flags < 0x1000000
        &&& self.has_size()
    }

    #[verifier::spinoff_prover]
    fn write_box(&self, writer: &mut Vec<u8>) -> (res: Result<u64>)
        ensures
            final(writer)@ == old(writer)@ + senc_bytes(self@),
            res == Ok::<u64, Error>(senc_size(self@) as u64),
    {
        let size = self.box_size();
        BoxHeader::new(self.box_type(), size).write(writer)?;
        write_box_header_ext(writer, self.version, self.flags)?;
        be_write_u32(writer, self.sample_count);
        write_all(writer, self.sample_data.as_slice());
        assert(final(writer)@ =~= old(writer)@ + senc_bytes(self@));
        Ok(size)
    }
}

/// The subsamples written one after another are read back, whatever
/// follows.
#[verifier::spinoff_prover]
pub proof fn lemma_subsamples_bytes(v: Seq<SubSampleInfo>, rest: Seq<u8>)
    ensures
        subsamples_bytes(v).len() == 6 * v.len(),
        subsamples_at(subsamples_bytes(v) + rest, v.len()) == v,
    decreases v.len(),
{
    if v.len() > 0 {
        let p = v.drop_last();
        let x = v.last();
        let w = u16_bytes(x.bytes_of_clear_data) + u32_bytes(x.bytes_of_encrypted_data);
        lemma_subsamples_bytes(p, w + rest);
        let s = subsamples_bytes(v) + rest;
        let q = subsamples_bytes(p);
        lemma_concat_associative(q, w, rest);
        lemma_concat_associative(u16_bytes(x.bytes_of_clear_data), u32_bytes(x.bytes_of_encrypted_data), rest);
        lemma_be16_at_word(q, x.bytes_of_clear_data, u32_bytes(x.bytes_of_encrypted_data) + rest);
        lemma_concat_associative(q, u16_bytes(x.bytes_of_clear_data), u32_bytes(x.bytes_of_encrypted_data) + rest);
        lemma_be32_at_word(q + u16_bytes(x.bytes_of_clear_data), x.bytes_of_encrypted_data, rest);
        assert forall|i: int| 0 <= i < v.len() implies #[trigger] subsamples_at(s, v.len())[i] == v[i] by {
            if i < p.len() {
                assert(subsamples_at(q + (w + rest), p.len())[i] == p[i]);
            }
        }
        assert(subsamples_at(s, v.len()) =~= v);
    } else {
        assert(subsamples_at(subsamples_bytes(v) + rest, v.len()) =~= v);
    }
}

/// Whether sample `x` can be written and read back with these flags and
/// vector size: its vector has that size, it has at most 65535 subsamples,
/// and none where the flags carry no layouts.
pub open spec fn sample_info_encodable(x: SampleInfoView, flags: u32, iv_size: u8) -> bool {
    &&& x.iv.len() == iv_size
    &&& x.subsamples.len() <= 0xffff
    &&& !uses_subsamples(flags) ==> x.subsamples.len() == 0
}

/// One sample written is read back, whatever follows.
#[verifier::spinoff_prover]
proof fn lemma_sample_info_bytes(x: SampleInfoView, flags: u32, iv_size: u8, rest: Seq<u8>)
    requires
        sample_info_encodable(x, flags, iv_size),
    ensures
        sample_info_at(sample_info_bytes(x, flags, iv_size) + rest, flags, iv_size) == Some(
            (x, sample_info_bytes(x, flags, iv_size).len() as int),
        ),
{
    let iv = x.iv.take(iv_size as int);
    assert(iv =~= x.iv);
    let s = sample_info_bytes(x, flags, iv_size) + rest;
    if uses_subsamples(flags) {
        let n = x.subsamples.len() as u16;
        let c = u16_bytes(n);
        let t = subsamples_bytes(x.subsamples);
        lemma_subsamples_bytes(x.subsamples, rest);
        lemma_concat_associative(iv, c + t, rest);
        lemma_concat_associative(c, t, rest);
        lemma_be16_at_word(iv, n, t + rest);
        assert(s.take(iv_size as int) =~= x.iv);
        assert(s.skip(iv_size + 2) =~= t + rest);
    } else {
        assert(x.subsamples =~= Seq::<SubSampleInfo>::empty());
        assert(s.take(iv_size as int) =~= x.iv);
    }
}

/// The samples written one after another are read back, whatever follows.
#[verifier::spinoff_prover]
pub proof fn lemma_sample_infos_bytes(v: Seq<SampleInfoView>, flags: u32, iv_size: u8, rest: Seq<u8>)
    requires
        forall|i: int| 0 <= i < v.len() ==> #[trigger] sample_info_encodable(v[i], flags, iv_size),
    ensures
        sample_infos(sample_infos_bytes(v, flags, iv_size) + rest, flags, iv_size, v.len()) == Some(
            (v, sample_infos_bytes(v, flags, iv_size).len() as int),
        ),
    decreases v.len(),
{
    if v.len() > 0 {
        let p = v.drop_last();
        let x = v.last();
        let w = sample_info_bytes(x, flags, iv_size);
        let q = sample_infos_bytes(p, flags, iv_size);
        assert forall|i: int| 0 <= i < p.len() implies #[trigger] sample_info_encodable(p[i], flags, iv_size) by {
            assert(p[i] == v[i]);
        }
        lemma_sample_infos_bytes(p, flags, iv_size, w + rest);
        assert(sample_info_encodable(v[v.len() - 1], flags, iv_size));
        lemma_sample_info_bytes(x, flags, iv_size, rest);
        lemma_concat_associative(q, w, rest);
        let s = sample_infos_bytes(v, flags, iv_size) + rest;
        assert(s.skip(q.len() as int) =~= w + rest);
        assert(p.push(x) =~= v);
    }
}

/// What `set_sample_info` stores, `get_sample_info` gives back: for a
/// valid vector size, and samples that are as many as the box says, each
/// with a vector of that size, at most 65535 subsamples, and none where
/// the flags carry no layouts.
#[verifier::spinoff_prover]
pub proof fn lemma_set_then_get_sample_info(b: SencBoxView, v: Seq<SampleInfoView>, iv_size: u8)
    requires
        valid_iv_size(iv_size),
        b.sample_count == v.len(),
        forall|i: int| 0 <= i < v.len() ==> #[trigger] sample_info_encodable(v[i], b.flags, iv_size),
    ensures
        parse_sample_infos(SencBoxView { sample_data: sample_infos_bytes(v, b.flags, iv_size), ..b }, iv_size)
            == Ok::<Seq<SampleInfoView>, Error>(v),
{
    let d = sample_infos_bytes(v, b.flags, iv_size);
    lemma_sample_infos_bytes(v, b.flags, iv_size, Seq::empty());
    assert(d + Seq::<u8>::empty() =~= d);
}

/// Decoding the body of an encoded senc box gives the box back, where the
/// box is small enough for a 32-bit size and ends at a position that a
/// `u64` can hold.
#[verifier::spinoff_prover]
pub proof fn lemma_senc_roundtrip(b: SencBoxView, start: int, rest: Seq<u8>)
    requires
        b.flags < 0x1000000,
        senc_size(b) <= u32::MAX,
        0 <= start,
        start + senc_size(b) <= u64::MAX,
    ensures
        senc_bytes(b).len() == senc_size(b),
        parse_senc((senc_bytes(b) + rest).skip(8), start, senc_size(b) as u64) == Ok::<SencBoxView, Error>(b),
{
    lemma_u24_roundtrip(b.flags);
    lemma_u32_roundtrip(b.sample_count);
    let h = header_bytes(BoxType::SencBox, senc_size(b) as u64);
    assert(h.len() == 8);
    let s = (senc_bytes(b) + rest).skip(8);
    assert(s =~= ext_bytes(b.version, b.flags) + u32_bytes(b.sample_count) + (b.sample_data + rest));
    assert(s.subrange(8, 8 + b.sample_data.len() as int) =~= b.sample_data);
}


/// Whether the encoding of a senc box keeps all of it: flags that fit in
/// 24 bits and a size that fits in 32 bits.
pub open spec fn senc_kept(b: SencBoxView) -> bool {
    &&& b.flags < 0x1000000
    &&& senc_size(b) <= u32::MAX
}

} // verus!
