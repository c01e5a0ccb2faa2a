//! The H.264 sample entry box, its configuration box and the parameter
//! sets inside it.
use crate::bigendian::{be_write_i16, be_write_u16, be_write_u32, be_write_u64, group_take_lemmas, u16_bytes, u32_bytes, u64_bytes};
use crate::error::{Error, Result};
use crate::media::AvcConfig;
use crate::mp4box::{
    be16_at, be32_at, box_result, box_start, header_bytes, lemma_header_roundtrip, parse_header, skip_bytes,
    skip_bytes_to, write_zeros,
    BoxHeader, Mp4Box, ReadBox, WriteBox, HEADER_SIZE,
};
use crate::reader::{rest_at, write_all, Reader};
use crate::types::{BoxType, FixedPointU16};
use vstd::prelude::*;

verus! {

broadcast use group_take_lemmas;

/// A parameter set: the bytes of one NAL unit.
#[derive(Debug, Clone, PartialEq, Eq, Default)]
pub struct NalUnit {
    pub bytes: Vec<u8>,
}

impl View for NalUnit {
    type V = Seq<u8>;

    open spec fn view(&self) -> Seq<u8> {
        self.bytes@
    }
}

/// The NAL unit whose length-prefixed encoding starts `s`, and the number
/// of bytes read: a 16-bit length, then as many of that many bytes as
/// remain; the unit is filled up with zeros to its length.
pub open spec fn parse_nal(s: Seq<u8>) -> Result<(Seq<u8>, int)> {
    if s.len() < 2 {
        Err(Error::IoError)
    } else {
        let n = be16_at(s, 0) as int;
        let k = if n <= s.len() - 2 { n } else { s.len() - 2 };
        Ok((s.subrange(2, 2 + k) + Seq::new((n - k) as nat, |i: int| 0u8), 2 + k))
    }
}

/// The encoding of a NAL unit: its length cut to 16 bits, then its bytes.
pub open spec fn nal_bytes(b: Seq<u8>) -> Seq<u8> {
    u16_bytes(b.len() as u16) + b
}

impl NalUnit {
    /// A NAL unit holding a copy of `bytes`.
    pub fn from_slice(bytes: &[u8]) -> (n: Self)
        ensures
            n@ == bytes@,
    {
        let mut v: Vec<u8> = Vec::new();
        write_all(&mut v, bytes);
        NalUnit { bytes: v }
    }

    /// The size of the encoding.
    pub fn size(&self) -> (n: usize)
        requires
            self.bytes@.len() + 2 <= usize::MAX,
        ensures
            n == 2 + self.bytes@.len(),
    {
        2 + self.bytes.len()
    }

    /// Reads a length-prefixed NAL unit.
    pub fn read(reader: &mut Reader) -> (res: Result<Self>)
        ensures
            final(reader).data_seq() == old(reader).data_seq(),
            match res {
                Ok(u) => parse_nal(old(reader).rem()) matches Ok((b, k)) && u@ == b && final(reader).pos()
                    == old(reader).pos() + k && final(reader).rem() == old(reader).rem().skip(k),
                Err(e) => parse_nal(old(reader).rem()) == Err::<(Seq<u8>, int), Error>(e),
            },
    {
        let ghost s = old(reader).rem();
        let length = reader.read_u16()?;
        let mut bytes = reader.read_available(length as u64);
        let ghost k = bytes@.len();
        let ghost got = bytes@;
        let mut i: usize = bytes.len();
        while i < length as usize
            invariant
                k <= i <= length,
                bytes@.len() == i,
                bytes@ == got + Seq::new((i - k) as nat, |j: int| 0u8),
            decreases length - i,
        {
            bytes.push(0);
            i = i + 1;
            assert(bytes@ =~= got + Seq::new((i - k) as nat, |j: int| 0u8));
        }
        proof {
            assert(got =~= s.subrange(2, 2 + k as int));
            assert(reader.rem() =~= s.skip(2 + k as int));
        }
        Ok(NalUnit { bytes })
    }

    /// Writes the NAL unit with its length.
    pub fn write(&self, writer: &mut Vec<u8>) -> (res: Result<u64>)
        requires
            self.bytes@.len() + 2 <= usize::MAX,
        ensures
            final(writer)@ == old(writer)@ + nal_bytes(self@),
            res == Ok::<u64, Error>((2 + self@.len()) as u64),
    {
        be_write_u16(writer, self.bytes.len() as u16);
        write_all(writer, self.bytes.as_slice());
        Ok(self.size() as u64)
    }
}

/// A length-prefixed NAL unit reads back as itself, where its length fits
/// in 16 bits.
#[verifier::spinoff_prover]
pub proof fn lemma_nal_roundtrip(b: Seq<u8>, rest: Seq<u8>)
    requires
        b.len() <= 0xFFFF,
    ensures
        parse_nal(nal_bytes(b) + rest) == Ok::<(Seq<u8>, int), Error>((b, 2 + b.len() as int)),
{
    crate::bigendian::lemma_u16_roundtrip(b.len() as u16);
    let s = nal_bytes(b) + rest;
    assert(s.subrange(2, 2 + b.len() as int) =~= b);
    assert(b + Seq::new(0, |i: int| 0u8) =~= b);
}

/// The H.264 decoder configuration box.
#[derive(Debug, Clone, PartialEq, Eq)]
pub struct AvcCBox {
    pub configuration_version: u8,
    pub avc_profile_indication: u8,
    pub profile_compatibility: u8,
    pub avc_level_indication: u8,
    pub length_size_minus_one: u8,
    pub sequence_parameter_sets: Vec<NalUnit>,
    pub picture_parameter_sets: Vec<NalUnit>,
}

/// What an avcC box holds, as mathematical values.
pub struct AvcCBoxView {
    pub configuration_version: u8,
    pub avc_profile_indication: u8,
    pub profile_compatibility: u8,
    pub avc_level_indication: u8,
    pub length_size_minus_one: u8,
    pub sequence_parameter_sets: Seq<Seq<u8>>,
    pub picture_parameter_sets: Seq<Seq<u8>>,
}

impl View for AvcCBox {
    type V = AvcCBoxView;

    open spec fn view(&self) -> AvcCBoxView {
        AvcCBoxView {
            configuration_version: self.configuration_version,
            avc_profile_indication: self.avc_profile_indication,
            profile_compatibility: self.profile_compatibility,
            avc_level_indication: self.avc_level_indication,
            length_size_minus_one: self.length_size_minus_one,
            sequence_parameter_sets: self.sequence_parameter_sets@.map_values(|u: NalUnit| u@),
            picture_parameter_sets: self.picture_parameter_sets@.map_values(|u: NalUnit| u@),
        }
    }
}

/// Reading `count` NAL units from `s`: the units and the number of bytes
/// they take.
pub open spec fn parse_nals(s: Seq<u8>, count: nat) -> Result<(Seq<Seq<u8>>, int)>
    decreases count,
{
    if count == 0 {
        Ok((Seq::empty(), 0))
    } else {
        match parse_nals(s, (count - 1) as nat) {
            Err(e) => Err(e),
            Ok((units, k)) => match parse_nal(s.skip(k)) {
                Err(e) => Err(e),
                Ok((u, m)) => Ok((units.push(u), k + m)),
            },
        }
    }
}

/// A NAL unit takes at least its two length bytes.
pub proof fn lemma_parse_nals_len(s: Seq<u8>, count: nat)
    ensures
        parse_nals(s, count) matches Ok((u, k)) ==> u.len() == count && 0 <= k <= s.len(),
    decreases count,
{
    if count > 0 {
        lemma_parse_nals_len(s, (count - 1) as nat);
    }
}

/// Once reading the units fails, reading more fails the same way.
pub proof fn lemma_parse_nals_err(s: Seq<u8>, j: nat, count: nat)
    requires
        j <= count,
        parse_nals(s, j) is Err,
    ensures
        parse_nals(s, count) == parse_nals(s, j),
    decreases count - j,
{
    if j < count {
        lemma_parse_nals_err(s, j, (count - 1) as nat);
    }
}

/// The avcC box whose body starts `s`: five fields, the count of sequence
/// parameter sets in the low five bits of a byte and the sets, then the
/// count of picture parameter sets and the sets.
pub open spec fn parse_avcc(s: Seq<u8>) -> Result<AvcCBoxView> {
    if s.len() < 6 {
        Err(Error::IoError)
    } else {
        match parse_nals(s.skip(6), (s[5] & 0x1Fu8) as nat) {
            Err(e) => Err(e),
            Ok((spss, k)) => {
                let t = s.skip(6 + k);
                if t.len() < 1 {
                    Err(Error::IoError)
                } else {
                    match parse_nals(t.skip(1), t[0] as nat) {
                        Err(e) => Err(e),
                        Ok((ppss, m)) => Ok(
                            AvcCBoxView {
                                configuration_version: s[0],
                                avc_profile_indication: s[1],
                                profile_compatibility: s[2],
                                avc_level_indication: s[3],
                                length_size_minus_one: s[4] & 0x3u8,
                                sequence_parameter_sets: spss,
                                picture_parameter_sets: ppss,
                            },
                        ),
                    }
                }
            },
        }
    }
}

/// The total size of the encodings of the NAL units `u`.
pub open spec fn nals_size(u: Seq<Seq<u8>>) -> int
    decreases u.len(),
{
    if u.len() == 0 {
        0
    } else {
        nals_size(u.drop_last()) + 2 + u.last().len()
    }
}

/// The encodings of the NAL units `u`, in order.
pub open spec fn nals_bytes(u: Seq<Seq<u8>>) -> Seq<u8>
    decreases u.len(),
{
    if u.len() == 0 {
        Seq::empty()
    } else {
        nals_bytes(u.drop_last()) + nal_bytes(u.last())
    }
}

/// The size of the encoding of `b`.
pub open spec fn avcc_size(b: AvcCBoxView) -> int {
    15 + nals_size(b.sequence_parameter_sets) + nals_size(b.picture_parameter_sets)
}

/// The encoding of an avcC box, header included: the set counts are cut to
/// 8 bits and marked with reserved high bits, as is the length size.
pub open spec fn avcc_bytes(b: AvcCBoxView) -> Seq<u8> {
    header_bytes(BoxType::AvcCBox, avcc_size(b) as u64) + seq![
        b.configuration_version,
        b.avc_profile_indication,
        b.profile_compatibility,
        b.avc_level_indication,
        b.length_size_minus_one | 0xFCu8,
        (b.sequence_parameter_sets.len() as u8) | 0xE0u8,
    ] + nals_bytes(b.sequence_parameter_sets) + seq![b.picture_parameter_sets.len() as u8] + nals_bytes(
        b.picture_parameter_sets,
    )
}

/// Every NAL unit of `u` has a length that a `usize` can hold with its
/// prefix.
pub open spec fn nals_fit(u: Seq<NalUnit>) -> bool {
    forall|i: int| 0 <= i < u.len() ==> #[trigger] u[i].bytes@.len() + 2 <= usize::MAX
}

/// The sizes of a prefix of the units add up to no more than those of all.
#[verifier::spinoff_prover]
proof fn lemma_nals_size_prefix(u: Seq<Seq<u8>>, i: int)
    requires
        0 <= i <= u.len(),
    ensures
        0 <= nals_size(u.take(i)) <= nals_size(u),
    decreases u.len() - i,
{
    lemma_nals_size_nonneg(u.take(i));
    if i < u.len() {
        lemma_nals_size_prefix(u, i + 1);
        assert(u.take(i + 1).drop_last() =~= u.take(i));
    } else {
        assert(u.take(i) =~= u);
    }
}

#[verifier::spinoff_prover]
proof fn lemma_nals_size_nonneg(u: Seq<Seq<u8>>)
    ensures
        nals_size(u) >= 0,
    decreases u.len(),
{
    if u.len() > 0 {
        lemma_nals_size_nonneg(u.drop_last());
    }
}

/// The total size of the encodings of the units of `v`.
fn nals_total(v: &Vec<NalUnit>) -> (n: u64)
    requires
        nals_fit(v@),
        nals_size(v@.map_values(|u: NalUnit| u@)) <= u64::MAX,
    ensures
        n == nals_size(v@.map_values(|u: NalUnit| u@)),
{
    let ghost w = v@.map_values(|u: NalUnit| u@);
    let mut n: u64 = 0;
    let mut i: usize = 0;
    while i < v.len()
        invariant
            0 <= i <= v.len(),
            w == v@.map_values(|u: NalUnit| u@),
            nals_fit(v@),
            nals_size(w) <= u64::MAX,
            n == nals_size(w.take(i as int)),
        decreases v.len() - i,
    {
        proof {
            assert(w.take(i + 1).drop_last() =~= w.take(i as int));
            assert(w[i as int] == v@[i as int]@);
            lemma_nals_size_prefix(w, i + 1);
        }
        n = n + v[i].size() as u64;
        i = i + 1;
    }
    assert(w.take(i as int) =~= w);
    n
}

/// Writes the units of `v` in order.
fn write_nals(writer: &mut Vec<u8>, v: &Vec<NalUnit>)
    requires
        nals_fit(v@),
    ensures
        final(writer)@ == old(writer)@ + nals_bytes(v@.map_values(|u: NalUnit| u@)),
{
    let ghost w = v@.map_values(|u: NalUnit| u@);
    let mut i: usize = 0;
    while i < v.len()
        invariant
            0 <= i <= v.len(),
            w == v@.map_values(|u: NalUnit| u@),
            nals_fit(v@),
            writer@ == old(writer)@ + nals_bytes(w.take(i as int)),
        decreases v.len() - i,
    {
        let _ = v[i].write(writer);
        proof {
            assert(w.take(i + 1).drop_last() =~= w.take(i as int));
            assert(w[i as int] == v@[i as int]@);
            vstd::seq_lib::lemma_concat_associative(old(writer)@, nals_bytes(w.take(i as int)), nal_bytes(w[i as int]));
        }
        i = i + 1;
    }
    assert(w.take(i as int) =~= w);
}

/// Reads `count` NAL units.
fn read_nals(reader: &mut Reader, count: u8) -> (res: Result<Vec<NalUnit>>)
    ensures
        final(reader).data_seq() == old(reader).data_seq(),
        match res {
            Ok(v) => parse_nals(old(reader).rem(), count as nat) matches Ok((u, k)) && v@.map_values(|x: NalUnit| x@)
                == u && final(reader).pos() == old(reader).pos() + k && final(reader).rem() == old(reader).rem().skip(k),
            Err(e) => parse_nals(old(reader).rem(), count as nat) == Err::<(Seq<Seq<u8>>, int), Error>(e),
        },
{
    let ghost s = old(reader).rem();
    let ghost p0 = old(reader).pos();
    let mut v: Vec<NalUnit> = Vec::new();
    let mut i: u8 = 0;
    assert(v@.map_values(|x: NalUnit| x@) =~= Seq::<Seq<u8>>::empty());
    assert(s.skip(0) =~= s);
    while i < count
        invariant
            0 <= i <= count,
            s == old(reader).rem(),
            p0 == old(reader).pos(),
            reader.data_seq() == old(reader).data_seq(),
            parse_nals(s, i as nat) matches Ok((u, k)) && v@.map_values(|x: NalUnit| x@) == u && reader.pos() == p0 + k
                && reader.rem() == s.skip(k) && 0 <= k <= s.len(),
        decreases count - i,
    {
        let ghost k = reader.pos() - p0;
        let ghost vv = v@.map_values(|x: NalUnit| x@);
        let u = match NalUnit::read(reader) {
            Ok(u) => u,
            Err(e) => {
                proof {
                    lemma_parse_nals_err(s, (i + 1) as nat, count as nat);
                }
                return Err(e);
            },
        };
        proof {
            let m = reader.pos() - p0 - k;
            assert(s.skip(k).skip(m) =~= s.skip(k + m));
        }
        v.push(u);
        assert(v@.map_values(|x: NalUnit| x@) =~= vv.push(v@.last()@));
        i = i + 1;
    }
    Ok(v)
}

impl Default for AvcCBox {
    /// All fields zero and no parameter sets.
    fn default() -> (b: Self)
        ensures
            b@ == (AvcCBoxView {
                configuration_version: 0,
                avc_profile_indication: 0,
                profile_compatibility: 0,
                avc_level_indication: 0,
                length_size_minus_one: 0,
                sequence_parameter_sets: Seq::empty(),
                picture_parameter_sets: Seq::empty(),
            }),
    {
        let b = AvcCBox {
            configuration_version: 0,
            avc_profile_indication: 0,
            profile_compatibility: 0,
            avc_level_indication: 0,
            length_size_minus_one: 0,
            sequence_parameter_sets: Vec::new(),
            picture_parameter_sets: Vec::new(),
        };
        assert(b@.sequence_parameter_sets =~= Seq::empty());
        assert(b@.picture_parameter_sets =~= Seq::empty());
        b
    }
}

impl AvcCBox {
    /// The configuration of one sequence and one picture parameter set: the
    /// profile, compatibility and level are the second to fourth bytes of
    /// the sequence parameter set, and lengths take 4 bytes.
    pub fn new(sps: &[u8], pps: &[u8]) -> (b: Self)
        requires
            sps@.len() >= 4,
        ensures
            b@ == (AvcCBoxView {
                configuration_version: 1,
                avc_profile_indication: sps@[1],
                profile_compatibility: sps@[2],
                avc_level_indication: sps@[3],
                length_size_minus_one: 0xff,
                sequence_parameter_sets: seq![sps@],
                picture_parameter_sets: seq![pps@],
            }),
    {
        let mut sequence_parameter_sets: Vec<NalUnit> = Vec::new();
        sequence_parameter_sets.push(NalUnit::from_slice(sps));
        let mut picture_parameter_sets: Vec<NalUnit> = Vec::new();
        picture_parameter_sets.push(NalUnit::from_slice(pps));
        let b = AvcCBox {
            configuration_version: 1,
            avc_profile_indication: sps[1],
            profile_compatibility: sps[2],
            avc_level_indication: sps[3],
            length_size_minus_one: 0xff,
            sequence_parameter_sets,
            picture_parameter_sets,
        };
        assert(b@.sequence_parameter_sets =~= seq![sps@]);
        assert(b@.picture_parameter_sets =~= seq![pps@]);
        b
    }

    pub fn get_type(&self) -> (t: BoxType)
        ensures
            t == BoxType::AvcCBox,
    {
        BoxType::AvcCBox
    }
}

impl Mp4Box for AvcCBox {
    open spec fn has_size(&self) -> bool {
        &&& nals_fit(self.sequence_parameter_sets@)
        &&& nals_fit(self.picture_parameter_sets@)
        &&& avcc_size(self@) <= u64::MAX
    }

    fn box_type(&self) -> (t: BoxType)
        ensures
            t == BoxType::AvcCBox,
    {
        self.get_type()
    }

    fn box_size(&self) -> (s: u64)
        ensures
            s == avcc_size(self@),
    {
        proof {
            lemma_nals_size_nonneg(self@.sequence_parameter_sets);
            lemma_nals_size_nonneg(self@.picture_parameter_sets);
        }
        let a = nals_total(&self.sequence_parameter_sets);
        let b = nals_total(&self.picture_parameter_sets);
        HEADER_SIZE + 7 + a + b
    }
}

impl ReadBox for AvcCBox {
    open spec fn size_accepted(size: u64) -> bool {
        true
    }

    #[verifier::spinoff_prover]
    fn read_box(reader: &mut Reader, size: u64) -> (res: Result<Self>)
        ensures
            res is Ok ==> final(reader).pos() == old(reader).pos() - HEADER_SIZE + size,
            crate::mp4box::read_outcome(
                res,
                box_result(parse_avcc(old(reader).rem()), old(reader).pos() - HEADER_SIZE, size),
            ),
    {
        let ghost s = old(reader).rem();
        let start = box_start(reader);
        let configuration_version = reader.read_u8()?;
        let avc_profile_indication = reader.read_u8()?;
        let profile_compatibility = reader.read_u8()?;
        let avc_level_indication = reader.read_u8()?;
        let length_size_minus_one = reader.read_u8()? & 0x3;
        let num_of_spss = reader.read_u8()? & 0x1F;
        assert(reader.rem() =~= s.skip(6));
        let sequence_parameter_sets = read_nals(reader, num_of_spss)?;
        let ghost k = reader.pos() - old(reader).pos() - 6;
        proof {
            lemma_parse_nals_len(s.skip(6), (s[5] & 0x1Fu8) as nat);
        }
        assert(reader.rem() =~= s.skip(6 + k));
        let num_of_ppss = reader.read_u8()?;
        let picture_parameter_sets = read_nals(reader, num_of_ppss)?;
        skip_bytes_to(reader, start, size)?;
        Ok(AvcCBox {
            configuration_version,
            avc_profile_indication,
            profile_compatibility,
            avc_level_indication,
            length_size_minus_one,
            sequence_parameter_sets,
            picture_parameter_sets,
        })
    }
}

impl WriteBox for AvcCBox {
    open spec fn writable(&self) -> bool {
        self.has_size()
    }

    #[verifier::spinoff_prover]
    fn write_box(&self, writer: &mut Vec<u8>) -> (res: Result<u64>)
        ensures
            final(writer)@ == old(writer)@ + avcc_bytes(self@),
            res == Ok::<u64, Error>(avcc_size(self@) as u64),
    {
        let size = self.box_size();
        BoxHeader::new(self.box_type(), size).write(writer)?;
        writer.push(self.configuration_version);
        writer.push(self.avc_profile_indication);
        writer.push(self.profile_compatibility);
        writer.push(self.avc_level_indication);
        writer.push(self.length_size_minus_one | 0xFC);
        writer.push(self.sequence_parameter_sets.len() as u8 | 0xE0);
        write_nals(writer, &self.sequence_parameter_sets);
        writer.push(self.picture_parameter_sets.len() as u8);
        write_nals(writer, &self.picture_parameter_sets);
        assert(final(writer)@ =~= old(writer)@ + avcc_bytes(self@));
        Ok(size)
    }
}

/// The H.264 sample entry box.
#[derive(Debug, Clone, PartialEq, Eq)]
pub struct Avc1Box {
    pub data_reference_index: u16,
    pub width: u16,
    pub height: u16,
    pub horizresolution: FixedPointU16,
    pub vertresolution: FixedPointU16,
    pub frame_count: u16,
    pub depth: u16,
    pub avcc: AvcCBox,
}

/// What an avc1 box holds, the resolutions by their raw bits.
pub struct Avc1BoxView {
    pub data_reference_index: u16,
    pub width: u16,
    pub height: u16,
    pub horizresolution: u32,
    pub vertresolution: u32,
    pub frame_count: u16,
    pub depth: u16,
    pub avcc: AvcCBoxView,
}

impl View for Avc1Box {
    type V = Avc1BoxView;

    open spec fn view(&self) -> Avc1BoxView {
        Avc1BoxView {
            data_reference_index: self.data_reference_index,
            width: self.width,
            height: self.height,
            horizresolution: self.horizresolution@,
            vertresolution: self.vertresolution@,
            frame_count: self.frame_count,
            depth: self.depth,
            avcc: self.avcc@,
        }
    }
}

/// The avc1 box `size` bytes long whose header ends at position `p` of `d`:
/// 42 bytes of fields, 32 bytes of compressor name that are skipped, the
/// depth and a predefined value, then an avcC box, which must come next.
pub open spec fn parse_avc1(d: Seq<u8>, p: int, size: u64) -> Result<Avc1BoxView> {
    let s = rest_at(d, p);
    if s.len() < 42 {
        Err(Error::IoError)
    } else if p + 74 > u64::MAX {
        Err(Error::InvalidData("box end out of range"))
    } else if rest_at(d, p + 74).len() < 4 {
        Err(Error::IoError)
    } else {
        match parse_header(rest_at(d, p + 78)) {
            Err(e) => Err(e),
            Ok((h, n)) => if h.name != BoxType::AvcCBox {
                Err(Error::InvalidData("avcc not found"))
            } else {
                let q = p + 78 + n;
                match box_result(parse_avcc(rest_at(d, q)), q - HEADER_SIZE, h.size) {
                    Err(e) => Err(e),
                    Ok(avcc) => box_result(
                        Ok(
                            Avc1BoxView {
                                data_reference_index: be16_at(s, 6),
                                width: be16_at(s, 24),
                                height: be16_at(s, 26),
                                horizresolution: be32_at(s, 28),
                                vertresolution: be32_at(s, 32),
                                frame_count: be16_at(s, 40),
                                depth: be16_at(rest_at(d, p + 74), 0),
                                avcc,
                            },
                        ),
                        p - HEADER_SIZE,
                        size,
                    ),
                }
            },
        }
    }
}

/// The size of the encoding of `b`.
pub open spec fn avc1_size(b: Avc1BoxView) -> int {
    86 + avcc_size(b.avcc)
}

/// The encoding of an avc1 box, header included.
pub open spec fn avc1_bytes(b: Avc1BoxView) -> Seq<u8> {
    header_bytes(BoxType::Avc1Box, avc1_size(b) as u64) + u32_bytes(0) + u16_bytes(0) + u16_bytes(
        b.data_reference_index,
    ) + u32_bytes(0) + u64_bytes(0) + u32_bytes(0) + u16_bytes(b.width) + u16_bytes(b.height) + u32_bytes(
        b.horizresolution,
    ) + u32_bytes(b.vertresolution) + u32_bytes(0) + u16_bytes(b.frame_count) + Seq::new(32, |i: int| 0u8)
        + u16_bytes(b.depth) + u16_bytes(0xFFFF) + avcc_bytes(b.avcc)
}

impl Default for Avc1Box {
    /// No dimensions, 72 dpi, one frame, depth 24 and an empty
    /// configuration.
    fn default() -> (b: Self)
        ensures
            b.data_reference_index == 0,
            b.width == 0,
            b.height == 0,
            b.horizresolution@ == 0x48 * 0x10000,
            b.vertresolution@ == 0x48 * 0x10000,
            b.frame_count == 1,
            b.depth == 0x0018,
            b.avcc@.sequence_parameter_sets.len() == 0,
            b.avcc@.picture_parameter_sets.len() == 0,
    {
        Avc1Box {
            data_reference_index: 0,
            width: 0,
            height: 0,
            horizresolution: FixedPointU16::new(0x48),
            vertresolution: FixedPointU16::new(0x48),
            frame_count: 1,
            depth: 0x0018,
            avcc: AvcCBox::default(),
        }
    }
}

impl Avc1Box {
    /// The sample entry of an H.264 track of the configured dimensions and
    /// parameter sets.
    pub fn new(config: &AvcConfig) -> (b: Self)
        requires
            config.seq_param_set@.len() >= 4,
        ensures
            b.data_reference_index == 1,
            b.width == config.width,
            b.height == config.height,
            b.horizresolution@ == 0x48 * 0x10000,
            b.vertresolution@ == 0x48 * 0x10000,
            b.frame_count == 1,
            b.depth == 0x0018,
            b.avcc@ == (AvcCBoxView {
                configuration_version: 1,
                avc_profile_indication: config.seq_param_set@[1],
                profile_compatibility: config.seq_param_set@[2],
                avc_level_indication: config.seq_param_set@[3],
                length_size_minus_one: 0xff,
                sequence_parameter_sets: seq![config.seq_param_set@],
                picture_parameter_sets: seq![config.pic_param_set@],
            }),
    {
        Avc1Box {
            data_reference_index: 1,
            width: config.width,
            height: config.height,
            horizresolution: FixedPointU16::new(0x48),
            vertresolution: FixedPointU16::new(0x48),
            frame_count: 1,
            depth: 0x0018,
            avcc: AvcCBox::new(config.seq_param_set.as_slice(), config.pic_param_set.as_slice()),
        }
    }

    pub fn get_type(&self) -> (t: BoxType)
        ensures
            t == BoxType::Avc1Box,
    {
        BoxType::Avc1Box
    }
}

impl Mp4Box for Avc1Box {
    open spec fn has_size(&self) -> bool {
        self.avcc.has_size() && avc1_size(self@) <= u64::MAX
    }

    fn box_type(&self) -> (t: BoxType)
        ensures
            t == BoxType::Avc1Box,
    {
        self.get_type()
    }

    fn box_size(&self) -> (s: u64)
        ensures
            s == avc1_size(self@),
    {
        HEADER_SIZE + 8 + 70 + self.avcc.box_size()
    }
}

/// Reads the 42 bytes of fields at the start of an avc1 body: data
/// reference index, width, height, resolutions and frame count.
fn read_avc1_fields(reader: &mut Reader) -> (res: Result<(u16, u16, u16, u32, u32, u16)>)
    ensures
        final(reader).data_seq() == old(reader).data_seq(),
        match res {
            Ok((i, w, h, hr, vr, f)) => {
                let s = old(reader).rem();
                &&& s.len() >= 42
                &&& i == be16_at(s, 6) && w == be16_at(s, 24) && h == be16_at(s, 26)
                &&& hr == be32_at(s, 28) && vr == be32_at(s, 32) && f == be16_at(s, 40)
                &&& final(reader).pos() == old(reader).pos() + 42
            },
            Err(e) => old(reader).rem().len() < 42 && e == Error::IoError,
        },
{
    let ghost s = old(reader).rem();
    reader.read_u32()?;
    reader.read_u16()?;
    let data_reference_index = reader.read_u16()?;
    reader.read_u32()?;
    let ghost s1 = reader.rem();
    reader.read_u64()?;
    reader.read_u32()?;
    let width = reader.read_u16()?;
    let height = reader.read_u16()?;
    let horizresolution = reader.read_u32()?;
    let vertresolution = reader.read_u32()?;
    reader.read_u32()?;
    let frame_count = reader.read_u16()?;
    assert(reader.rem() =~= s.skip(42));
    Ok((data_reference_index, width, height, horizresolution, vertresolution, frame_count))
}

impl ReadBox for Avc1Box {
    open spec fn size_accepted(size: u64) -> bool {
        true
    }

    #[verifier::spinoff_prover]
    fn read_box(reader: &mut Reader, size: u64) -> (res: Result<Self>)
        ensures
            res is Ok ==> final(reader).pos() == old(reader).pos() - HEADER_SIZE + size,
            crate::mp4box::read_outcome(res, parse_avc1(old(reader).data_seq(), old(reader).pos(), size)),
    {
        let ghost d = old(reader).data_seq();
        let ghost p0 = old(reader).pos();
        assert(old(reader).rem() == rest_at(d, p0));
        let start = box_start(reader);
        let (data_reference_index, width, height, hr, vr, frame_count) = read_avc1_fields(reader)?;
        skip_bytes(reader, 32)?;
        assert(reader.rem() == rest_at(d, p0 + 74));
        let depth = reader.read_u16()?;
        reader.read_i16()?;
        assert(reader.rem() =~= rest_at(d, p0 + 78));
        let header = BoxHeader::read(reader)?;
        if header.name == BoxType::AvcCBox {
            assert(reader.rem() == rest_at(d, reader.pos()));
            let avcc = AvcCBox::read_box(reader, header.size)?;
            skip_bytes_to(reader, start, size)?;
            Ok(Avc1Box {
                data_reference_index,
                width,
                height,
                horizresolution: FixedPointU16::new_raw(hr),
                vertresolution: FixedPointU16::new_raw(vr),
                frame_count,
                depth,
                avcc,
            })
        } else {
            Err(Error::InvalidData("avcc not found"))
        }
    }
}

impl WriteBox for Avc1Box {
    open spec fn writable(&self) -> bool {
        self.has_size()
    }

    #[verifier::spinoff_prover]
    fn write_box(&self, writer: &mut Vec<u8>) -> (res: Result<u64>)
        ensures
            final(writer)@ == old(writer)@ + avc1_bytes(self@),
            res == Ok::<u64, Error>(avc1_size(self@) as u64),
    {
        let size = self.box_size();
        BoxHeader::new(self.box_type(), size).write(writer)?;
        be_write_u32(writer, 0);
        be_write_u16(writer, 0);
        be_write_u16(writer, self.data_reference_index);
        be_write_u32(writer, 0);
        be_write_u64(writer, 0);
        be_write_u32(writer, 0);
        be_write_u16(writer, self.width);
        be_write_u16(writer, self.height);
        be_write_u32(writer, self.horizresolution.raw_value());
        be_write_u32(writer, self.vertresolution.raw_value());
        be_write_u32(writer, 0);
        be_write_u16(writer, self.frame_count);
        write_zeros(writer, 32)?;
        be_write_u16(writer, self.depth);
        be_write_i16(writer, -1);
        assert((-1i16) as u16 == 0xFFFFu16) by (bit_vector);
        self.avcc.write_box(writer)?;
        assert(final(writer)@ =~= old(writer)@ + avc1_bytes(self@));
        Ok(size)
    }
}


/// Every unit of `u` has a length that fits in 16 bits.
pub open spec fn nals_short(u: Seq<Seq<u8>>) -> bool {
    forall|i: int| 0 <= i < u.len() ==> #[trigger] u[i].len() <= 0xFFFF
}

/// Reading back the encodings of NAL units whose lengths fit in 16 bits
/// gives them back and takes all their bytes.
#[verifier::spinoff_prover]
pub proof fn lemma_nals_roundtrip(u: Seq<Seq<u8>>, rest: Seq<u8>)
    requires
        nals_short(u),
    ensures
        nals_bytes(u).len() == nals_size(u),
        parse_nals(nals_bytes(u) + rest, u.len()) == Ok::<(Seq<Seq<u8>>, int), Error>((u, nals_size(u))),
    decreases u.len(),
{
    if u.len() > 0 {
        let t = u.drop_last();
        let l = u.last();
        assert(nals_short(t)) by {
            assert forall|i: int| 0 <= i < t.len() implies #[trigger] t[i].len() <= 0xFFFF by {
                assert(t[i] == u[i]);
            }
        }
        assert(l.len() <= 0xFFFF);
        lemma_nals_roundtrip(t, nal_bytes(l) + rest);
        let s = nals_bytes(u) + rest;
        assert(s =~= nals_bytes(t) + (nal_bytes(l) + rest));
        assert(s.skip(nals_size(t)) =~= nal_bytes(l) + rest);
        lemma_nal_roundtrip(l, rest);
        assert((u.len() - 1) as nat == t.len());
        assert(t.push(l) =~= u);
        assert(parse_nals(s, u.len()) == Ok::<(Seq<Seq<u8>>, int), Error>((t.push(l), nals_size(u))));
    } else {
        assert(u =~= Seq::<Seq<u8>>::empty());
    }
}

/// Whether the encoding of an avcC box keeps all of it: a length size
/// below 4, fewer than 32 sequence and 256 picture parameter sets, each of
/// which has a length that fits in 16 bits.
pub open spec fn avcc_kept(b: AvcCBoxView) -> bool {
    &&& b.length_size_minus_one < 4
    &&& b.sequence_parameter_sets.len() < 32
    &&& b.picture_parameter_sets.len() < 256
    &&& nals_short(b.sequence_parameter_sets)
    &&& nals_short(b.picture_parameter_sets)
}

/// Reading back the body of an encoded avcC box gives it back, where its
/// encoding keeps all of it and its size fits in 32 bits.
#[verifier::spinoff_prover]
#[verifier::rlimit(40)]
pub proof fn lemma_avcc_roundtrip(b: AvcCBoxView, rest: Seq<u8>)
    requires
        avcc_kept(b),
        avcc_size(b) <= u32::MAX,
    ensures
        avcc_bytes(b).len() == avcc_size(b),
        parse_avcc(avcc_bytes(b).skip(8) + rest) == Ok::<AvcCBoxView, Error>(b),
{
    let sp = b.sequence_parameter_sets;
    let pp = b.picture_parameter_sets;
    let six = seq![
        b.configuration_version,
        b.avc_profile_indication,
        b.profile_compatibility,
        b.avc_level_indication,
        b.length_size_minus_one | 0xFCu8,
        (sp.len() as u8) | 0xE0u8,
    ];
    let np = seq![pp.len() as u8];
    let tail = np + (nals_bytes(pp) + rest);
    lemma_nals_roundtrip(sp, tail);
    lemma_nals_roundtrip(pp, rest);
    let h = header_bytes(BoxType::AvcCBox, avcc_size(b) as u64);
    assert(h.len() == 8);
    assert(avcc_bytes(b) =~= h + (six + (nals_bytes(sp) + (np + nals_bytes(pp)))));
    let s = avcc_bytes(b).skip(8) + rest;
    assert(s =~= six + (nals_bytes(sp) + tail));
    assert(s.skip(6) =~= nals_bytes(sp) + tail);
    let k = nals_size(sp);
    assert(s.skip(6 + k) =~= tail);
    assert(tail.skip(1) =~= nals_bytes(pp) + rest);
    let l = b.length_size_minus_one;
    let n = sp.len() as u8;
    assert(l < 4 ==> (l | 0xFCu8) & 0x3u8 == l) by (bit_vector);
    assert(n < 32 ==> (n | 0xE0u8) & 0x1Fu8 == n) by (bit_vector);
    assert(s[4] == l | 0xFCu8 && s[5] == n | 0xE0u8);
}

/// The 78 bytes of fields of an encoded avc1 box, after its header and
/// before its avcC box.
pub open spec fn avc1_fields(b: Avc1BoxView) -> Seq<u8> {
    u32_bytes(0) + u16_bytes(0) + u16_bytes(b.data_reference_index) + u32_bytes(0) + u64_bytes(0) + u32_bytes(0)
        + u16_bytes(b.width) + u16_bytes(b.height) + u32_bytes(b.horizresolution) + u32_bytes(b.vertresolution)
        + u32_bytes(0) + u16_bytes(b.frame_count) + Seq::new(32, |i: int| 0u8) + u16_bytes(b.depth) + u16_bytes(
        0xFFFF,
    )
}

/// Reading the fields of an avc1 box from its encoding gives them back.
#[verifier::spinoff_prover]
#[verifier::rlimit(60)]
proof fn lemma_avc1_fields(b: Avc1BoxView, t: Seq<u8>)
    ensures
        avc1_fields(b).len() == 78,
        be16_at(avc1_fields(b) + t, 6) == b.data_reference_index,
        be16_at(avc1_fields(b) + t, 24) == b.width,
        be16_at(avc1_fields(b) + t, 26) == b.height,
        be32_at(avc1_fields(b) + t, 28) == b.horizresolution,
        be32_at(avc1_fields(b) + t, 32) == b.vertresolution,
        be16_at(avc1_fields(b) + t, 40) == b.frame_count,
        be16_at((avc1_fields(b) + t).skip(74), 0) == b.depth,
{
    let s = avc1_fields(b) + t;
    let a = u32_bytes(0) + u16_bytes(0);
    let dri = u16_bytes(b.data_reference_index);
    let z = u32_bytes(0) + u64_bytes(0) + u32_bytes(0);
    let w = u16_bytes(b.width);
    let h = u16_bytes(b.height);
    let hr = u32_bytes(b.horizresolution);
    let vr = u32_bytes(b.vertresolution);
    let fc = u16_bytes(b.frame_count);
    let cn = Seq::new(32, |i: int| 0u8);
    let dp = u16_bytes(b.depth);
    let e = u16_bytes(0xFFFF) + t;
    crate::bigendian::lemma_u64_of_bytes(0);
    assert(z.len() == 16);
    crate::mp4box::lemma_be16_at_word(a, b.data_reference_index, z + w + h + hr + vr + u32_bytes(0) + fc + cn + dp + e);
    assert(s =~= a + (dri + (z + w + h + hr + vr + u32_bytes(0) + fc + cn + dp + e)));
    let p1 = a + dri + z;
    crate::mp4box::lemma_be16_at_word(p1, b.width, h + hr + vr + u32_bytes(0) + fc + cn + dp + e);
    assert(s =~= p1 + (w + (h + hr + vr + u32_bytes(0) + fc + cn + dp + e)));
    crate::mp4box::lemma_be16_at_word(p1 + w, b.height, hr + vr + u32_bytes(0) + fc + cn + dp + e);
    assert(s =~= (p1 + w) + (h + (hr + vr + u32_bytes(0) + fc + cn + dp + e)));
    let p2 = p1 + w + h;
    crate::mp4box::lemma_be32_at_word(p2, b.horizresolution, vr + u32_bytes(0) + fc + cn + dp + e);
    assert(s =~= p2 + (hr + (vr + u32_bytes(0) + fc + cn + dp + e)));
    crate::mp4box::lemma_be32_at_word(p2 + hr, b.vertresolution, u32_bytes(0) + fc + cn + dp + e);
    assert(s =~= (p2 + hr) + (vr + (u32_bytes(0) + fc + cn + dp + e)));
    let p3 = p2 + hr + vr + u32_bytes(0);
    crate::mp4box::lemma_be16_at_word(p3, b.frame_count, cn + dp + e);
    assert(s =~= p3 + (fc + (cn + dp + e)));
    crate::mp4box::lemma_be16_at_word(Seq::empty(), b.depth, e);
    assert(s.skip(74) =~= Seq::<u8>::empty() + (dp + e));
}

/// The encoding of an avc1 box is its header, its fields and its avcC box.
pub proof fn lemma_avc1_split(b: Avc1BoxView)
    requires
        avcc_kept(b.avcc),
        avc1_size(b) <= u32::MAX,
    ensures
        avc1_bytes(b) == header_bytes(BoxType::Avc1Box, avc1_size(b) as u64) + (avc1_fields(b) + avcc_bytes(
            b.avcc,
        )),
        header_bytes(BoxType::Avc1Box, avc1_size(b) as u64).len() == 8,
        avc1_fields(b).len() == 78,
        avcc_bytes(b.avcc).len() == avcc_size(b.avcc),
        avc1_bytes(b).len() == avc1_size(b),
{
    lemma_nals_size_nonneg(b.avcc.sequence_parameter_sets);
    lemma_nals_size_nonneg(b.avcc.picture_parameter_sets);
    lemma_avcc_roundtrip(b.avcc, Seq::empty());
    lemma_avc1_fields(b, Seq::empty());
    assert(avc1_bytes(b) =~= header_bytes(BoxType::Avc1Box, avc1_size(b) as u64) + (avc1_fields(b) + avcc_bytes(
        b.avcc,
    )));
}

/// Reading the body of an encoded avc1 box from position `p` of `d`, in a
/// box of any size that ends at a position a `u64` can hold, gives it
/// back, where the encoding of its avcC box keeps all of it and its size
/// fits in 32 bits.
#[verifier::spinoff_prover]
#[verifier::rlimit(40)]
pub proof fn lemma_avc1_body(b: Avc1BoxView, d: Seq<u8>, p: int, size: u64, r: Seq<u8>)
    requires
        avcc_kept(b.avcc),
        avc1_size(b) <= u32::MAX,
        8 <= p <= d.len() <= u64::MAX,
        p - 8 + size <= u64::MAX,
        rest_at(d, p) == avc1_fields(b) + (avcc_bytes(b.avcc) + r),
    ensures
        parse_avc1(d, p, size) == Ok::<Avc1BoxView, Error>(b),
{
    let c = b.avcc;
    let cs = avcc_size(c);
    let cb = avcc_bytes(c);
    lemma_nals_size_nonneg(c.sequence_parameter_sets);
    lemma_nals_size_nonneg(c.picture_parameter_sets);
    lemma_avcc_roundtrip(c, r);
    lemma_avc1_fields(b, cb + r);
    assert(d.skip(p + 74) =~= d.skip(p).skip(74));
    assert(d.skip(p + 78) =~= d.skip(p).skip(78));
    assert(d.skip(p + 86) =~= d.skip(p).skip(86));
    assert(rest_at(d, p + 78) =~= cb + r);
    lemma_header_roundtrip(BoxType::AvcCBox, cs as u64, cb.skip(8) + r);
    assert(cb + r =~= header_bytes(BoxType::AvcCBox, cs as u64) + (cb.skip(8) + r));
    assert(rest_at(d, p + 86) =~= cb.skip(8) + r);
}

/// Reading an encoded avc1 box, its header before position `p` of `d`,
/// gives it back, where the encoding of its avcC box keeps all of it and
/// its size fits in 32 bits.
#[verifier::spinoff_prover]
#[verifier::rlimit(40)]
pub proof fn lemma_avc1_roundtrip(b: Avc1BoxView, d: Seq<u8>, p: int, r: Seq<u8>)
    requires
        avcc_kept(b.avcc),
        avc1_size(b) <= u32::MAX,
        8 <= p <= d.len() <= u64::MAX,
        rest_at(d, p - 8) == avc1_bytes(b) + r,
    ensures
        avc1_bytes(b).len() == avc1_size(b),
        parse_avc1(d, p, avc1_size(b) as u64) == Ok::<Avc1BoxView, Error>(b),
{
    lemma_avc1_split(b);
    let h = header_bytes(BoxType::Avc1Box, avc1_size(b) as u64);
    let f = avc1_fields(b);
    let cb = avcc_bytes(b.avcc);
    assert(avc1_bytes(b) + r =~= h + (f + (cb + r)));
    assert(d.skip(p) =~= d.skip(p - 8).skip(8));
    assert(rest_at(d, p) =~= f + (cb + r));
    lemma_avc1_body(b, d, p, avc1_size(b) as u64, r);
}


/// An encoded avcC box that is kept is its header and its body.
pub proof fn lemma_avcc_split(b: AvcCBoxView)
    requires
        avcc_kept(b),
        avcc_size(b) <= u32::MAX,
    ensures
        avcc_bytes(b) == header_bytes(BoxType::AvcCBox, avcc_bytes(b).len() as u64) + avcc_bytes(b).skip(8),
        avcc_bytes(b).len() == avcc_size(b),
        avcc_size(b) >= 15,
{
    lemma_nals_size_nonneg(b.sequence_parameter_sets);
    lemma_nals_size_nonneg(b.picture_parameter_sets);
    lemma_avcc_roundtrip(b, Seq::empty());
    assert(avcc_bytes(b) =~= header_bytes(BoxType::AvcCBox, avcc_size(b) as u64) + avcc_bytes(b).skip(8));
}

} // verus!
