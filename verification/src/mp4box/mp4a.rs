//! The AAC audio sample entry box and the elementary stream descriptor box
//! inside it.
use crate::bigendian::{be_write_u16, be_write_u32, be_write_u64, group_take_lemmas, u16_bytes, u32_bytes, u64_bytes};
use crate::error::{Error, Result};
use crate::media::{
    audio_object_type_code, channel_config_code, sample_freq, sample_freq_index_code, AacConfig,
};
use crate::mp4box::descriptor::{
    dec_config_kept, desc_header_bytes, es_body, es_bytes, es_size, length_size, lemma_desc_header_progress,
    lemma_desc_header_roundtrip, lemma_es_progress, lemma_es_roundtrip, parse_desc_header, parse_es, read_desc,
    size_of_length, ESDescriptor,
};
use crate::mp4box::{
    be16_at, be24_at, be32_at, box_start, ext_bytes, header_bytes, lemma_header_roundtrip, parse_header,
    read_box_header_ext,
    read_outcome, skip_bytes_to, write_box_header_ext, BoxHeader, Mp4Box, ReadBox, WriteBox, HEADER_EXT_SIZE,
    HEADER_SIZE,
};
use crate::reader::{opt_view, rest_at, Reader};
use crate::types::{BoxType, FixedPointU16};
use vstd::prelude::*;

verus! {

broadcast use group_take_lemmas;

/// The elementary stream descriptor box.
#[derive(Debug, Clone, Copy, PartialEq, Eq, Structural)]
pub struct EsdsBox {
    pub version: u8,
    pub flags: u32,
    pub es_desc: ESDescriptor,
}

impl View for EsdsBox {
    type V = EsdsBox;

    open spec fn view(&self) -> EsdsBox {
        *self
    }
}

impl Default for EsdsBox {
    fn default() -> (b: Self)
        ensures
            b.version == 0,
            b.flags == 0,
            b.es_desc == (ESDescriptor {
                es_id: 0,
                dec_config: crate::mp4box::descriptor::no_dec_config(),
                sl_config: crate::mp4box::descriptor::SLConfigDescriptor {},
            }),
    {
        EsdsBox { version: 0, flags: 0, es_desc: ESDescriptor::default() }
    }
}

/// The size of an esds box.
pub open spec fn esds_size(b: EsdsBox) -> u64 {
    (HEADER_SIZE + HEADER_EXT_SIZE + 1 + length_size(es_size(b.es_desc)) + es_size(b.es_desc)) as u64
}

/// The encoding of an esds box, header included.
pub open spec fn esds_bytes(b: EsdsBox) -> Seq<u8> {
    header_bytes(BoxType::EsdsBox, esds_size(b)) + ext_bytes(b.version, b.flags) + es_bytes(b.es_desc)
}

/// Reading the descriptors of an esds box from position `p` of `d` while
/// the position is before `end`, having found `found`: elementary stream
/// descriptors are read, a later one replacing an earlier; any other
/// descriptor stops the reading.
pub open spec fn esds_scan(d: Seq<u8>, p: int, end: int, found: Option<ESDescriptor>) -> Result<Option<ESDescriptor>>
    decreases (if p < end { end - p } else { 0 }),
{
    if p >= end {
        Ok(found)
    } else {
        match parse_desc_header(rest_at(d, p)) {
            Err(e) => Err(e),
            Ok((tag, sz, n)) => if tag == 0x03 {
                match parse_es(d, p + n, sz) {
                    Err(e) => Err(e),
                    Ok((v, q)) => {
                        proof {
                            lemma_desc_header_progress(rest_at(d, p));
                            lemma_es_progress(d, p + n, sz);
                        }
                        esds_scan(d, q, end, Some(v))
                    },
                }
            } else {
                Ok(found)
            },
        }
    }
}

/// The esds box `size` bytes long whose header ends at position `p` of `d`:
/// its version and flags, then descriptors, of which an elementary stream
/// descriptor must be one.
pub open spec fn parse_esds(d: Seq<u8>, p: int, size: u64) -> Result<EsdsBox> {
    let s = rest_at(d, p);
    let start = p - HEADER_SIZE;
    if s.len() < 4 {
        Err(Error::IoError)
    } else if start + size > u64::MAX {
        Err(Error::InvalidData("box end out of range"))
    } else {
        match esds_scan(d, p + 4, start + size, None) {
            Err(e) => Err(e),
            Ok(None) => Err(Error::InvalidData("ESDescriptor not found")),
            Ok(Some(es_desc)) => Ok(EsdsBox { version: s[0], flags: be24_at(s, 1), es_desc }),
        }
    }
}

impl EsdsBox {
    /// The esds box of an AAC stream.
    pub fn new(config: &AacConfig) -> (b: Self)
        ensures
            b == (EsdsBox { version: 0, flags: 0, es_desc: ESDescriptor::new_spec(config) }),
    {
        EsdsBox { version: 0, flags: 0, es_desc: ESDescriptor::new(config) }
    }
}

impl Mp4Box for EsdsBox {
    open spec fn has_size(&self) -> bool {
        true
    }

    fn box_type(&self) -> (t: BoxType)
        ensures
            t == BoxType::EsdsBox,
    {
        BoxType::EsdsBox
    }

    fn box_size(&self) -> (s: u64)
        ensures
            s == esds_size(*self),
    {
        let es_desc_size = self.es_desc.desc_size();
        HEADER_SIZE + HEADER_EXT_SIZE + 1 + size_of_length(es_desc_size) as u64 + es_desc_size as u64
    }
}

impl ReadBox for EsdsBox {
    open spec fn size_accepted(size: u64) -> bool {
        true
    }

    #[verifier::spinoff_prover]
    fn read_box(reader: &mut Reader, size: u64) -> (res: Result<Self>)
        ensures
            res is Ok ==> final(reader).pos() == old(reader).pos() - HEADER_SIZE + size,
            read_outcome(res, parse_esds(old(reader).data_seq(), old(reader).pos(), size)),
    {
        let ghost d = old(reader).data_seq();
        let ghost p0 = old(reader).pos();
        assert(old(reader).rem() == rest_at(d, p0));
        let start = box_start(reader);
        let (version, flags) = read_box_header_ext(reader)?;
        if size > u64::MAX - start {
            return Err(Error::InvalidData("box end out of range"));
        }
        let end = start + size;
        let mut es_desc: Option<ESDescriptor> = None;
        let mut current = reader.position();
        while current < end
            invariant_except_break
                current == reader.pos(),
                esds_scan(d, p0 + 4, end as int, None) == esds_scan(d, current as int, end as int, es_desc),
            invariant
                reader.data_seq() == d,
                d == old(reader).data_seq(),
                p0 == old(reader).pos(),
                p0 >= HEADER_SIZE,
                start == p0 - HEADER_SIZE,
                end == start + size,
                rest_at(d, p0).len() >= 4,
                version == rest_at(d, p0)[0],
                flags == be24_at(rest_at(d, p0), 1),
            ensures
                reader.data_seq() == d,
                esds_scan(d, p0 + 4, end as int, None) == Ok::<Option<ESDescriptor>, Error>(es_desc),
            decreases (if current < end { end - current } else { 0 }),
        {
            assert(reader.rem() == rest_at(d, current as int));
            let (desc_tag, desc_size) = read_desc(reader)?;
            proof {
                lemma_desc_header_progress(rest_at(d, current as int));
            }
            if desc_tag == 0x03 {
                let ghost q0 = reader.pos();
                es_desc = Some(ESDescriptor::read_desc(reader, desc_size)?);
                proof {
                    lemma_es_progress(d, q0, desc_size);
                }
            } else {
                break;
            }
            current = reader.position();
        }
        let es_desc = match es_desc {
            Some(x) => x,
            None => {
                return Err(Error::InvalidData("ESDescriptor not found"));
            },
        };
        skip_bytes_to(reader, start, size)?;
        Ok(EsdsBox { version, flags, es_desc })
    }
}

impl WriteBox for EsdsBox {
    open spec fn writable(&self) -> bool {
        self.flags < 0x1000000 && self.es_desc.writable()
    }

    #[verifier::spinoff_prover]
    fn write_box(&self, writer: &mut Vec<u8>) -> (res: Result<u64>)
        ensures
            final(writer)@ == old(writer)@ + esds_bytes(*self),
            res == Ok::<u64, Error>(esds_size(*self)),
    {
        let size = self.box_size();
        BoxHeader::new(self.box_type(), size).write(writer)?;
        write_box_header_ext(writer, self.version, self.flags)?;
        self.es_desc.write_desc(writer)?;
        assert(final(writer)@ =~= old(writer)@ + esds_bytes(*self));
        Ok(size)
    }
}

/// The AAC audio sample entry box.
#[derive(Debug, Clone, Copy, PartialEq, Eq, Structural)]
pub struct Mp4aBox {
    pub data_reference_index: u16,
    pub channelcount: u16,
    pub samplesize: u16,
    pub samplerate: FixedPointU16,
    pub esds: Option<EsdsBox>,
}

/// What an mp4a box holds, the sample rate by its raw bits.
pub struct Mp4aBoxView {
    pub data_reference_index: u16,
    pub channelcount: u16,
    pub samplesize: u16,
    pub samplerate: u32,
    pub esds: Option<EsdsBox>,
}

impl View for Mp4aBox {
    type V = Mp4aBoxView;

    open spec fn view(&self) -> Mp4aBoxView {
        Mp4aBoxView {
            data_reference_index: self.data_reference_index,
            channelcount: self.channelcount,
            samplesize: self.samplesize,
            samplerate: self.samplerate@,
            esds: self.esds,
        }
    }
}

impl Default for Mp4aBox {
    /// Two channels of 16 bits at 48 kHz, with an empty esds box.
    fn default() -> (b: Self)
        ensures
            b.data_reference_index == 0,
            b.channelcount == 2,
            b.samplesize == 16,
            b.samplerate@ == 48000 * 0x10000,
            b.esds is Some,
    {
        Mp4aBox {
            data_reference_index: 0,
            channelcount: 2,
            samplesize: 16,
            samplerate: FixedPointU16::new(48000),
            esds: Some(EsdsBox::default()),
        }
    }
}

/// The size of an mp4a box.
pub open spec fn mp4a_size(b: Mp4aBoxView) -> u64 {
    (36 + match b.esds {
        Some(e) => esds_size(e) as int,
        None => 0,
    }) as u64
}

/// The encoding of an mp4a box, header included: reserved bytes, the data
/// reference index, more reserved bytes, the channel count, sample size and
/// rate, and the esds box if there is one.
pub open spec fn mp4a_bytes(b: Mp4aBoxView) -> Seq<u8> {
    header_bytes(BoxType::Mp4aBox, mp4a_size(b)) + u32_bytes(0) + u16_bytes(0) + u16_bytes(b.data_reference_index)
        + u64_bytes(0) + u16_bytes(b.channelcount) + u16_bytes(b.samplesize) + u32_bytes(0) + u32_bytes(b.samplerate)
        + match b.esds {
        Some(e) => esds_bytes(e),
        None => Seq::empty(),
    }
}

/// Reading the child boxes of an mp4a box `size` bytes long from position
/// `p` of `d` while the position is before `end`, looking for an esds box:
/// the first one found ends the search; a wave box is entered; other boxes
/// are skipped. A child larger than the box is refused, and so is one that
/// would leave the reader where it was.
pub open spec fn mp4a_scan(d: Seq<u8>, p: int, end: int, size: u64) -> Result<Option<EsdsBox>>
    decreases (if p < end { end - p } else { 0 }),
{
    if p >= end {
        Ok(None)
    } else {
        match parse_header(rest_at(d, p)) {
            Err(e) => Err(e),
            Ok((h, n)) => if h.size > size {
                Err(Error::InvalidData("mp4a box contains a box with a larger size than it"))
            } else if h.name == BoxType::EsdsBox {
                match parse_esds(d, p + n, h.size) {
                    Err(e) => Err(e),
                    Ok(v) => Ok(Some(v)),
                }
            } else if h.name == BoxType::WaveBox {
                mp4a_scan(d, p + n, end, size)
            } else if p + h.size > u64::MAX {
                Err(Error::InvalidData("box end out of range"))
            } else if h.size == 0 {
                Err(Error::InvalidData("box size too small"))
            } else {
                mp4a_scan(d, p + h.size, end, size)
            },
        }
    }
}

/// The mp4a box `size` bytes long whose header ends at position `p` of `d`:
/// 28 bytes of fields, 16 more in version 1, then the search for an esds
/// box up to its end.
pub open spec fn parse_mp4a(d: Seq<u8>, p: int, size: u64) -> Result<Mp4aBoxView> {
    let s = rest_at(d, p);
    let start = p - HEADER_SIZE;
    if s.len() < 28 {
        Err(Error::IoError)
    } else if be16_at(s, 8) == 1 && s.len() < 44 {
        Err(Error::IoError)
    } else if start + size > u64::MAX {
        Err(Error::InvalidData("box end out of range"))
    } else {
        let q = if be16_at(s, 8) == 1 { p + 44 } else { p + 28 };
        match mp4a_scan(d, q, start + size, size) {
            Err(e) => Err(e),
            Ok(esds) => Ok(
                Mp4aBoxView {
                    data_reference_index: be16_at(s, 6),
                    channelcount: be16_at(s, 16),
                    samplesize: be16_at(s, 18),
                    samplerate: be32_at(s, 24),
                    esds,
                },
            ),
        }
    }
}

impl Mp4aBox {
    /// The sample entry of an AAC track: the channel count is the number of
    /// the channel configuration, and the sample rate the frequency, cut to
    /// 16 bits.
    pub fn new(config: &AacConfig) -> (b: Self)
        ensures
            b.data_reference_index == 1,
            b.channelcount == channel_config_code(config.chan_conf),
            b.samplesize == 16,
            b.samplerate@ == (sample_freq(config.freq_index) as u16) * 0x10000,
            b.esds is Some,
            b.esds->0.version == 0,
            b.esds->0.flags == 0,
            b.esds->0.es_desc == ESDescriptor::new_spec(config),
    {
        Mp4aBox {
            data_reference_index: 1,
            channelcount: config.chan_conf.code() as u16,
            samplesize: 16,
            samplerate: FixedPointU16::new(config.freq_index.freq() as u16),
            esds: Some(EsdsBox::new(config)),
        }
    }

    pub fn get_type(&self) -> (t: BoxType)
        ensures
            t == BoxType::Mp4aBox,
    {
        BoxType::Mp4aBox
    }

    pub fn get_size(&self) -> (s: u64)
        ensures
            s == mp4a_size(self@),
    {
        let mut size = HEADER_SIZE + 8 + 20;
        if let Some(esds) = &self.esds {
            size = size + esds.box_size();
        }
        size
    }
}

impl Mp4Box for Mp4aBox {
    open spec fn has_size(&self) -> bool {
        true
    }

    fn box_type(&self) -> (t: BoxType)
        ensures
            t == BoxType::Mp4aBox,
    {
        self.get_type()
    }

    fn box_size(&self) -> (s: u64)
        ensures
            s == mp4a_size(self@),
    {
        self.get_size()
    }
}

/// Reads the 28 bytes of fields of an mp4a box: data reference index,
/// version, channel count, sample size and raw sample rate.
fn read_mp4a_fields(reader: &mut Reader) -> (res: Result<(u16, u16, u16, u16, u32)>)
    ensures
        final(reader).data_seq() == old(reader).data_seq(),
        match res {
            Ok((i, v, c, z, r)) => {
                let s = old(reader).rem();
                &&& s.len() >= 28
                &&& i == be16_at(s, 6) && v == be16_at(s, 8) && c == be16_at(s, 16) && z == be16_at(s, 18)
                &&& r == be32_at(s, 24)
                &&& final(reader).pos() == old(reader).pos() + 28
                &&& final(reader).rem() == s.skip(28)
            },
            Err(e) => old(reader).rem().len() < 28 && e == Error::IoError,
        },
{
    let ghost s = old(reader).rem();
    reader.read_u32()?;
    reader.read_u16()?;
    let data_reference_index = reader.read_u16()?;
    let version = reader.read_u16()?;
    reader.read_u16()?;
    reader.read_u32()?;
    let channelcount = reader.read_u16()?;
    let samplesize = reader.read_u16()?;
    reader.read_u32()?;
    let rate = reader.read_u32()?;
    assert(reader.rem() =~= s.skip(28));
    Ok((data_reference_index, version, channelcount, samplesize, rate))
}

/// Searches the children of an mp4a box for an esds box, up to `end`.
#[verifier::spinoff_prover]
#[verifier::rlimit(40)]
fn find_esds(reader: &mut Reader, end: u64, size: u64) -> (res: Result<Option<EsdsBox>>)
    requires
        old(reader).pos() >= HEADER_SIZE,
    ensures
        final(reader).data_seq() == old(reader).data_seq(),
        match res {
            Ok(r) => mp4a_scan(old(reader).data_seq(), old(reader).pos(), end as int, size) == Ok::<
                Option<EsdsBox>,
                Error,
            >(r),
            Err(e) => mp4a_scan(old(reader).data_seq(), old(reader).pos(), end as int, size) == Err::<
                Option<EsdsBox>,
                Error,
            >(e),
        },
{
    let ghost d = old(reader).data_seq();
    let ghost p0 = old(reader).pos();
    loop
        invariant
            reader.data_seq() == d,
            d == old(reader).data_seq(),
            p0 == old(reader).pos(),
            reader.pos() >= HEADER_SIZE,
            mp4a_scan(d, p0, end as int, size) == mp4a_scan(d, reader.pos(), end as int, size),
        decreases (if reader.pos() < end { end - reader.pos() } else { 0 }),
    {
        let current = reader.position();
        if current >= end {
            return Ok(None);
        }
        assert(reader.rem() == rest_at(d, current as int));
        let header = BoxHeader::read(reader)?;
        if header.size > size {
            return Err(Error::InvalidData("mp4a box contains a box with a larger size than it"));
        }
        if header.name == BoxType::EsdsBox {
            let esds = EsdsBox::read_box(reader, header.size)?;
            return Ok(Some(esds));
        } else if header.name == BoxType::WaveBox {
        } else {
            if header.size > u64::MAX - current {
                return Err(Error::InvalidData("box end out of range"));
            }
            if header.size == 0 {
                return Err(Error::InvalidData("box size too small"));
            }
            skip_bytes_to(reader, current, header.size)?;
        }
    }
}

impl ReadBox for Mp4aBox {
    open spec fn size_accepted(size: u64) -> bool {
        true
    }

    #[verifier::spinoff_prover]
    fn read_box(reader: &mut Reader, size: u64) -> (res: Result<Self>)
        ensures
            res is Ok ==> final(reader).pos() == old(reader).pos() - HEADER_SIZE + size,
            read_outcome(res, parse_mp4a(old(reader).data_seq(), old(reader).pos(), size)),
    {
        let ghost d = old(reader).data_seq();
        let ghost s = old(reader).rem();
        let start = box_start(reader);
        let (data_reference_index, version, channelcount, samplesize, rate) = read_mp4a_fields(reader)?;
        let samplerate = FixedPointU16::new_raw(rate);
        if version == 1 {
            reader.read_u64()?;
            reader.read_u64()?;
            assert(reader.rem() =~= s.skip(44));
        }
        if size > u64::MAX - start {
            return Err(Error::InvalidData("box end out of range"));
        }
        let end = start + size;
        let esds = find_esds(reader, end, size)?;
        skip_bytes_to(reader, start, size)?;
        Ok(Mp4aBox { data_reference_index, channelcount, samplesize, samplerate, esds })
    }
}

impl WriteBox for Mp4aBox {
    open spec fn writable(&self) -> bool {
        self.esds matches Some(e) ==> e.writable()
    }

    #[verifier::spinoff_prover]
    fn write_box(&self, writer: &mut Vec<u8>) -> (res: Result<u64>)
        ensures
            final(writer)@ == old(writer)@ + mp4a_bytes(self@),
            res == Ok::<u64, Error>(mp4a_size(self@)),
    {
        let size = self.box_size();
        BoxHeader::new(self.box_type(), size).write(writer)?;
        be_write_u32(writer, 0);
        be_write_u16(writer, 0);
        be_write_u16(writer, self.data_reference_index);
        be_write_u64(writer, 0);
        be_write_u16(writer, self.channelcount);
        be_write_u16(writer, self.samplesize);
        be_write_u32(writer, 0);
        be_write_u32(writer, self.samplerate.raw_value());
        let ghost w = writer@;
        if let Some(esds) = &self.esds {
            esds.write_box(writer)?;
        }
        assert(final(writer)@ =~= old(writer)@ + mp4a_bytes(self@));
        Ok(size)
    }
}


/// The bytes of `d` from position `p + k` are those from `p` after the
/// first `k`.
proof fn lemma_rest_at_skip(d: Seq<u8>, p: int, k: int)
    requires
        0 <= p,
        0 <= k,
        p + k <= d.len(),
    ensures
        rest_at(d, p + k) == rest_at(d, p).skip(k),
{
    assert(d.skip(p + k) =~= d.skip(p).skip(k));
}

/// Reading an encoded esds box, its header before position `p` of `d`,
/// gives it back, where its flags fit in 24 bits and the encoding of its
/// decoder configuration keeps all of it.
#[verifier::spinoff_prover]
#[verifier::rlimit(40)]
pub proof fn lemma_esds_roundtrip(b: EsdsBox, d: Seq<u8>, p: int, r: Seq<u8>)
    requires
        b.flags < 0x1000000,
        dec_config_kept(b.es_desc.dec_config),
        8 <= p <= d.len() <= u64::MAX,
        rest_at(d, p - 8) == esds_bytes(b) + r,
    ensures
        esds_bytes(b).len() == esds_size(b),
        esds_size(b) < 0x100,
        parse_esds(d, p, esds_size(b)) == Ok::<EsdsBox, Error>(b),
{
    let e = b.es_desc;
    let es = es_size(e);
    let size = esds_size(b);
    let body = es_body(e);
    let s = rest_at(d, p);
    lemma_rest_at_skip(d, p - 8, 8);
    lemma_rest_at_skip(d, p, 4);
    lemma_rest_at_skip(d, p, 6);
    let eb = ext_bytes(b.version, b.flags);
    assert(eb.len() == 4);
    assert(s.skip(4) =~= desc_header_bytes(0x03, es) + (body + r)) by {
        lemma_es_roundtrip_len(e);
        assert(header_bytes(BoxType::EsdsBox, size).len() == 8);
        assert(esds_bytes(b) + r =~= header_bytes(BoxType::EsdsBox, size) + (eb + (desc_header_bytes(0x03, es) + (
        body + r))));
    }
    lemma_desc_header_roundtrip(0x03, es, body + r);
    assert(s.skip(6) =~= body + r);
    lemma_es_roundtrip(e, d, p + 6, r);
    assert(length_size(es) == 1);
    assert(esds_scan(d, p + 6 + es, p + 6 + es, Some(e)) == Ok::<Option<ESDescriptor>, Error>(Some(e)));
    assert(esds_scan(d, p + 4, p + 6 + es, None) == Ok::<Option<ESDescriptor>, Error>(Some(e)));
    crate::bigendian::lemma_u24_roundtrip(b.flags);
    assert(s[0] == b.version);
}

/// The body of an elementary stream descriptor takes as many bytes as its
/// length, which fits in one byte of the descriptor header.
proof fn lemma_es_roundtrip_len(e: ESDescriptor)
    ensures
        es_body(e).len() == es_size(e),
        es_size(e) < 0x80,
        es_bytes(e) == desc_header_bytes(0x03, es_size(e)) + es_body(e),
{
    let c = e.dec_config;
    crate::mp4box::descriptor::lemma_dec_config_len(c);
    assert(es_bytes(e) =~= desc_header_bytes(0x03, es_size(e)) + es_body(e));
}

/// The 28 bytes of fields of an encoded mp4a box, after its header.
pub open spec fn mp4a_fields(b: Mp4aBoxView) -> Seq<u8> {
    u32_bytes(0) + u16_bytes(0) + u16_bytes(b.data_reference_index) + u64_bytes(0) + u16_bytes(b.channelcount)
        + u16_bytes(b.samplesize) + u32_bytes(0) + u32_bytes(b.samplerate)
}

/// Reading the fields of an mp4a box from its encoding gives them back.
#[verifier::spinoff_prover]
#[verifier::rlimit(40)]
pub proof fn lemma_mp4a_fields(b: Mp4aBoxView, t: Seq<u8>)
    ensures
        mp4a_fields(b).len() == 28,
        be16_at(mp4a_fields(b) + t, 6) == b.data_reference_index,
        be16_at(mp4a_fields(b) + t, 8) == 0,
        be16_at(mp4a_fields(b) + t, 16) == b.channelcount,
        be16_at(mp4a_fields(b) + t, 18) == b.samplesize,
        be32_at(mp4a_fields(b) + t, 24) == b.samplerate,
{
    let s = mp4a_fields(b) + t;
    let f1 = u32_bytes(0) + u16_bytes(0);
    let f2 = u64_bytes(0);
    let cc = u16_bytes(b.channelcount);
    let ss = u16_bytes(b.samplesize);
    let z = u32_bytes(0);
    let sr = u32_bytes(b.samplerate);
    crate::bigendian::lemma_u64_of_bytes(0);
    crate::mp4box::lemma_be16_at_word(f1, b.data_reference_index, f2 + cc + ss + z + sr + t);
    assert(s =~= f1 + (u16_bytes(b.data_reference_index) + (f2 + cc + ss + z + sr + t)));
    let pre16 = f1 + u16_bytes(b.data_reference_index) + f2;
    crate::mp4box::lemma_be16_at_word(pre16, b.channelcount, ss + z + sr + t);
    assert(s =~= pre16 + (cc + (ss + z + sr + t)));
    crate::mp4box::lemma_be16_at_word(pre16 + cc, b.samplesize, z + sr + t);
    assert(s =~= (pre16 + cc) + (ss + (z + sr + t)));
    crate::mp4box::lemma_be32_at_word(pre16 + cc + ss + z, b.samplerate, t);
    assert(s =~= (pre16 + cc + ss + z) + (sr + t));
    assert(s[8] == f2[0] && s[9] == f2[1]);
    assert(((0u64 >> 32u64) as u32) == 0u32) by (bit_vector);
    assert(((0u32 >> 24u32) as u8) == 0u8 && ((0u32 >> 16u32) as u8) == 0u8) by (bit_vector);
    assert(crate::bigendian::u16_of(0u8, 0u8) == 0u16) by (bit_vector);
}

/// Reading an encoded mp4a box, its header before position `p` of `d`,
/// gives it back, where its esds box, if any, is kept whole by its
/// encoding.
#[verifier::spinoff_prover]
#[verifier::rlimit(40)]
pub proof fn lemma_mp4a_roundtrip(b: Mp4aBoxView, d: Seq<u8>, p: int, r: Seq<u8>)
    requires
        b.esds matches Some(e) ==> e.flags < 0x1000000 && dec_config_kept(e.es_desc.dec_config),
        8 <= p <= d.len() <= u64::MAX,
        rest_at(d, p - 8) == mp4a_bytes(b) + r,
    ensures
        mp4a_bytes(b).len() == mp4a_size(b),
        parse_mp4a(d, p, mp4a_size(b)) == Ok::<Mp4aBoxView, Error>(b),
{
    let size = mp4a_size(b);
    let s = rest_at(d, p);
    let tail = match b.esds {
        Some(e) => esds_bytes(e),
        None => Seq::empty(),
    };
    let fields = mp4a_fields(b);
    lemma_mp4a_fields(b, tail + r);
    lemma_rest_at_skip(d, p - 8, 8);
    assert(header_bytes(BoxType::Mp4aBox, size).len() == 8);
    assert(mp4a_bytes(b) + r =~= header_bytes(BoxType::Mp4aBox, size) + (fields + (tail + r)));
    assert(s =~= fields + (tail + r));
    lemma_rest_at_skip(d, p, 28);
    assert(rest_at(d, p + 28) =~= tail + r);
    match b.esds {
        None => {
            assert(mp4a_scan(d, p + 28, p - 8 + size, size) == Ok::<Option<EsdsBox>, Error>(None));
        },
        Some(e) => {
            lemma_esds_roundtrip(e, d, p + 36, r);
            let es = esds_size(e);
            lemma_header_roundtrip(BoxType::EsdsBox, es, esds_bytes(e).skip(8) + r);
            assert(esds_bytes(e) + r =~= header_bytes(BoxType::EsdsBox, es) + (esds_bytes(e).skip(8) + r));
            assert(mp4a_scan(d, p + 28, p - 8 + size, size) == Ok::<Option<EsdsBox>, Error>(Some(e)));
        },
    }
}


/// An encoded esds box takes as many bytes as its size, which is small.
pub proof fn lemma_esds_len(b: EsdsBox)
    ensures
        esds_bytes(b).len() == esds_size(b),
        16 <= esds_size(b) < 0x100,
{
    lemma_es_roundtrip_len(b.es_desc);
    assert(length_size(es_size(b.es_desc)) == 1);
    assert(header_bytes(BoxType::EsdsBox, esds_size(b)).len() == 8);
}


/// An encoded mp4a box takes as many bytes as its size.
pub proof fn lemma_mp4a_len(b: Mp4aBoxView)
    ensures
        mp4a_bytes(b).len() == mp4a_size(b),
        36 <= mp4a_size(b) <= 0x200,
        mp4a_bytes(b) == header_bytes(BoxType::Mp4aBox, mp4a_size(b)) + mp4a_bytes(b).skip(8),
        header_bytes(BoxType::Mp4aBox, mp4a_size(b)).len() == 8,
{
    lemma_mp4a_fields(b, Seq::empty());
    if let Some(e) = b.esds {
        lemma_esds_len(e);
    }
    assert(header_bytes(BoxType::Mp4aBox, mp4a_size(b)).len() == 8);
    assert(mp4a_bytes(b) =~= header_bytes(BoxType::Mp4aBox, mp4a_size(b)) + mp4a_fields(b) + match b.esds {
        Some(e) => esds_bytes(e),
        None => Seq::empty(),
    });
    assert(mp4a_bytes(b) =~= header_bytes(BoxType::Mp4aBox, mp4a_size(b)) + mp4a_bytes(b).skip(8));
}

} // verus!
