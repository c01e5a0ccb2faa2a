//! The sample description box: the sample entry of a track, an H.264,
//! AAC or timed text one.
use crate::bigendian::{be_write_u32, group_take_lemmas, u32_bytes};
use crate::error::{Error, Result};
use crate::mp4box::avc1::{
    avc1_bytes, avc1_size, avcc_kept, lemma_avc1_roundtrip, lemma_avc1_split, parse_avc1, Avc1Box, Avc1BoxView,
};
use crate::mp4box::descriptor::dec_config_kept;
use crate::mp4box::mp4a::{lemma_esds_len, lemma_mp4a_len, lemma_mp4a_roundtrip, mp4a_bytes, mp4a_size, parse_mp4a, Mp4aBox, Mp4aBoxView};
use crate::mp4box::tx3g::{lemma_tx3g_roundtrip, parse_tx3g, tx3g_bytes, Tx3gBox, Tx3gBoxView};
use crate::mp4box::{
    be24_at, box_result, box_start, ext_bytes, header_bytes, lemma_header_roundtrip, parse_header, read_box_header_ext, read_outcome,
    skip_bytes_to, write_box_header_ext, BoxHeader, Mp4Box, ReadBox, WriteBox, HEADER_EXT_SIZE, HEADER_SIZE,
};
use crate::reader::{opt_view, rest_at, Reader};
use crate::types::BoxType;
use vstd::prelude::*;

verus! {

broadcast use group_take_lemmas;

#[derive(Debug, Clone, PartialEq, Eq, Default)]
pub struct StsdBox {
    pub version: u8,
    pub flags: u32,
    pub avc1: Option<Avc1Box>,
    pub mp4a: Option<Mp4aBox>,
    pub tx3g: Option<Tx3gBox>,
}

/// What an stsd box holds, as mathematical values.
pub struct StsdBoxView {
    pub version: u8,
    pub flags: u32,
    pub avc1: Option<Avc1BoxView>,
    pub mp4a: Option<Mp4aBoxView>,
    pub tx3g: Option<Tx3gBoxView>,
}

impl View for StsdBox {
    type V = StsdBoxView;

    open spec fn view(&self) -> StsdBoxView {
        StsdBoxView {
            version: self.version,
            flags: self.flags,
            avc1: opt_view(self.avc1),
            mp4a: opt_view(self.mp4a),
            tx3g: opt_view(self.tx3g),
        }
    }
}

/// What is read of the sample entry whose header `h` ends at position `q`
/// of `d`: an avc1, mp4a or tx3g box; a sample entry of another kind is
/// not read.
pub open spec fn stsd_entry(d: Seq<u8>, q: int, h: BoxHeader) -> Result<StsdBoxView> {
    let none = StsdBoxView { version: 0, flags: 0, avc1: None, mp4a: None, tx3g: None };
    if h.name == BoxType::Avc1Box {
        match parse_avc1(d, q, h.size) {
            Ok(v) => Ok(StsdBoxView { avc1: Some(v), ..none }),
            Err(e) => Err(e),
        }
    } else if h.name == BoxType::Mp4aBox {
        match parse_mp4a(d, q, h.size) {
            Ok(v) => Ok(StsdBoxView { mp4a: Some(v), ..none }),
            Err(e) => Err(e),
        }
    } else if h.name == BoxType::Tx3gBox {
        match box_result(parse_tx3g(rest_at(d, q)), q - HEADER_SIZE, h.size) {
            Ok(v) => Ok(StsdBoxView { tx3g: Some(v), ..none }),
            Err(e) => Err(e),
        }
    } else {
        Ok(none)
    }
}

/// The stsd box `size` bytes long whose header ends at position `p` of `d`:
/// its version and flags, an entry count that is not kept, then the first
/// sample entry.
pub open spec fn parse_stsd(d: Seq<u8>, p: int, size: u64) -> Result<StsdBoxView> {
    let s = rest_at(d, p);
    let start = p - HEADER_SIZE;
    if s.len() < 8 {
        Err(Error::IoError)
    } else {
        match parse_header(rest_at(d, p + 8)) {
            Err(e) => Err(e),
            Ok((h, n)) => match stsd_entry(d, p + 8 + n, h) {
                Err(e) => Err(e),
                Ok(v) => if start + size > u64::MAX {
                    Err(Error::InvalidData("box end out of range"))
                } else {
                    Ok(StsdBoxView { version: s[0], flags: be24_at(s, 1), ..v })
                },
            },
        }
    }
}

/// The size of the encoding of `b`: its header, version, flags and entry
/// count, and the first sample entry present.
pub open spec fn stsd_size(b: StsdBoxView) -> int {
    16 + match b.avc1 {
        Some(a) => avc1_size(a),
        None => match b.mp4a {
            Some(m) => mp4a_size(m) as int,
            None => match b.tx3g {
                Some(t) => 46,
                None => 0,
            },
        },
    }
}

/// The encoding of the first sample entry of `b` present, if any.
pub open spec fn stsd_entry_bytes(b: StsdBoxView) -> Seq<u8> {
    match b.avc1 {
        Some(a) => avc1_bytes(a),
        None => match b.mp4a {
            Some(m) => mp4a_bytes(m),
            None => match b.tx3g {
                Some(t) => tx3g_bytes(t),
                None => Seq::empty(),
            },
        },
    }
}

/// The encoding of an stsd box, header included: an entry count of 1 and
/// the first sample entry present.
pub open spec fn stsd_bytes(b: StsdBoxView) -> Seq<u8> {
    header_bytes(BoxType::StsdBox, stsd_size(b) as u64) + ext_bytes(b.version, b.flags) + u32_bytes(1)
        + stsd_entry_bytes(b)
}

impl StsdBox {
    pub fn get_type(&self) -> (t: BoxType)
        ensures
            t == BoxType::StsdBox,
    {
        BoxType::StsdBox
    }

    pub fn get_size(&self) -> (s: u64)
        requires
            self.has_size(),
        ensures
            s == stsd_size(self@),
    {
        let mut size = HEADER_SIZE + HEADER_EXT_SIZE + 4;
        if let Some(avc1) = &self.avc1 {
            size = size + avc1.box_size();
        } else if let Some(mp4a) = &self.mp4a {
            size = size + mp4a.box_size();
        } else if let Some(tx3g) = &self.tx3g {
            size = size + tx3g.box_size();
        }
        size
    }
}

impl Mp4Box for StsdBox {
    open spec fn has_size(&self) -> bool {
        &&& self.avc1 matches Some(a) ==> a.has_size()
        &&& stsd_size(self@) <= u64::MAX
    }

    fn box_type(&self) -> (t: BoxType)
        ensures
            t == BoxType::StsdBox,
    {
        self.get_type()
    }

    fn box_size(&self) -> (s: u64)
        ensures
            s == stsd_size(self@),
    {
        self.get_size()
    }
}

impl ReadBox for StsdBox {
    open spec fn size_accepted(size: u64) -> bool {
        true
    }

    /// Reads the box: the first sample entry is read if it is of a known
    /// kind, and the reader moves to the end of the box.
    #[verifier::spinoff_prover]
    #[verifier::rlimit(40)]
    fn read_box(reader: &mut Reader, size: u64) -> (res: Result<Self>)
        ensures
            res is Ok ==> final(reader).pos() == old(reader).pos() - HEADER_SIZE + size,
            read_outcome(res, parse_stsd(old(reader).data_seq(), old(reader).pos(), size)),
    {
        let ghost d = old(reader).data_seq();
        let ghost p0 = old(reader).pos();
        let ghost s = old(reader).rem();
        assert(s == rest_at(d, p0));
        let start = box_start(reader);
        let (version, flags) = read_box_header_ext(reader)?;
        let _entry_count = reader.read_u32()?;
        assert(s.skip(4).skip(4) =~= s.skip(8));
        assert(reader.rem() == rest_at(d, p0 + 8));
        let header = BoxHeader::read(reader)?;
        assert(reader.rem() == rest_at(d, reader.pos()));
        let mut avc1: Option<Avc1Box> = None;
        let mut mp4a: Option<Mp4aBox> = None;
        let mut tx3g: Option<Tx3gBox> = None;
        if header.name == BoxType::Avc1Box {
            avc1 = Some(Avc1Box::read_box(reader, header.size)?);
        } else if header.name == BoxType::Mp4aBox {
            mp4a = Some(Mp4aBox::read_box(reader, header.size)?);
        } else if header.name == BoxType::Tx3gBox {
            tx3g = Some(Tx3gBox::read_box(reader, header.size)?);
        }
        skip_bytes_to(reader, start, size)?;
        Ok(StsdBox { version, flags, avc1, mp4a, tx3g })
    }
}

impl WriteBox for StsdBox {
    open spec fn writable(&self) -> bool {
        &&& self.has_size()
        &&& self.flags < 0x1000000
        &&& self.mp4a matches Some(m) ==> m.writable()
    }

    /// Writes the box with an entry count of 1 and the first sample entry
    /// present.
    #[verifier::spinoff_prover]
    fn write_box(&self, writer: &mut Vec<u8>) -> (res: Result<u64>)
        ensures
            final(writer)@ == old(writer)@ + stsd_bytes(self@),
            res == Ok::<u64, Error>(stsd_size(self@) as u64),
    {
        let size = self.box_size();
        BoxHeader::new(self.box_type(), size).write(writer)?;
        write_box_header_ext(writer, self.version, self.flags)?;
        be_write_u32(writer, 1);
        let ghost w1 = writer@;
        if let Some(avc1) = &self.avc1 {
            avc1.write_box(writer)?;
        } else if let Some(mp4a) = &self.mp4a {
            mp4a.write_box(writer)?;
        } else if let Some(tx3g) = &self.tx3g {
            tx3g.write_box(writer)?;
        }
        assert(final(writer)@ =~= old(writer)@ + stsd_bytes(self@));
        Ok(size)
    }
}


/// Whether the encoding of an stsd box keeps all of it: exactly one sample
/// entry, kept by its own encoding, flags that fit in 24 bits, and a size
/// that fits in 32 bits.
pub open spec fn stsd_kept(b: StsdBoxView) -> bool {
    &&& b.flags < 0x1000000
    &&& (b.avc1 is Some) as int + (b.mp4a is Some) as int + (b.tx3g is Some) as int == 1
    &&& b.avc1 matches Some(a) ==> avcc_kept(a.avcc)
    &&& b.mp4a matches Some(m) ==> (m.esds matches Some(e) ==> e.flags < 0x1000000 && dec_config_kept(
        e.es_desc.dec_config,
    ))
    &&& stsd_size(b) <= u32::MAX
}

/// A box's bytes `e` that are a header `h` of 8 bytes and a body `t`,
/// followed by `r`.
proof fn lemma_header_split(e: Seq<u8>, h: Seq<u8>, t: Seq<u8>, r: Seq<u8>)
    requires
        e == h + t,
        h.len() == 8,
    ensures
        e.skip(8) == t,
        e + r == h + (t + r),
        (e + r).skip(8) == t + r,
{
    assert(e.skip(8) =~= t);
    assert(e + r =~= h + (t + r));
    assert((e + r).skip(8) =~= t + r);
}

/// Where the bytes from position `q` of `d` are `e` then `r`, those from 8
/// further on are `e` after its first 8 then `r`.
proof fn lemma_rest_skip8(d: Seq<u8>, q: int, e: Seq<u8>, r: Seq<u8>)
    requires
        0 <= q,
        e.len() >= 8,
        q + 8 <= d.len(),
        rest_at(d, q) == e + r,
    ensures
        rest_at(d, q + 8) == (e + r).skip(8),
{
    assert(d.skip(q + 8) =~= d.skip(q).skip(8));
}

/// An encoded avc1 sample entry at position `q` of `d` reads back.
#[verifier::spinoff_prover]
proof fn lemma_stsd_avc1(a: Avc1BoxView, d: Seq<u8>, q: int, r: Seq<u8>)
    requires
        avcc_kept(a.avcc),
        avc1_size(a) <= u32::MAX,
        8 <= q <= d.len() <= u64::MAX,
        rest_at(d, q) == avc1_bytes(a) + r,
    ensures
        avc1_bytes(a).len() == avc1_size(a),
        avc1_size(a) >= 8,
        parse_header(rest_at(d, q)) == Ok::<(BoxHeader, int), Error>(
            (BoxHeader { name: BoxType::Avc1Box, size: avc1_size(a) as u64 }, 8),
        ),
        parse_avc1(d, q + 8, avc1_size(a) as u64) == Ok::<Avc1BoxView, Error>(a),
{
    let e = avc1_bytes(a);
    let h = header_bytes(BoxType::Avc1Box, avc1_size(a) as u64);
    let t = crate::mp4box::avc1::avc1_fields(a) + crate::mp4box::avc1::avcc_bytes(a.avcc);
    lemma_avc1_split(a);
    lemma_header_split(e, h, t, r);
    lemma_rest_skip8(d, q, e, r);
    lemma_avc1_roundtrip(a, d, q + 8, r);
    lemma_header_roundtrip(BoxType::Avc1Box, avc1_size(a) as u64, t + r);
}

/// An encoded mp4a sample entry at position `q` of `d` reads back.
#[verifier::spinoff_prover]
proof fn lemma_stsd_mp4a(m: Mp4aBoxView, d: Seq<u8>, q: int, r: Seq<u8>)
    requires
        m.esds matches Some(e) ==> e.flags < 0x1000000 && dec_config_kept(e.es_desc.dec_config),
        8 <= q <= d.len() <= u64::MAX,
        rest_at(d, q) == mp4a_bytes(m) + r,
    ensures
        mp4a_bytes(m).len() == mp4a_size(m),
        36 <= mp4a_size(m) <= 0x200,
        parse_header(rest_at(d, q)) == Ok::<(BoxHeader, int), Error>(
            (BoxHeader { name: BoxType::Mp4aBox, size: mp4a_size(m) }, 8),
        ),
        parse_mp4a(d, q + 8, mp4a_size(m)) == Ok::<Mp4aBoxView, Error>(m),
{
    let e = mp4a_bytes(m);
    let h = header_bytes(BoxType::Mp4aBox, mp4a_size(m));
    lemma_mp4a_len(m);
    let t = e.skip(8);
    lemma_header_split(e, h, t, r);
    lemma_rest_skip8(d, q, e, r);
    lemma_mp4a_roundtrip(m, d, q + 8, r);
    lemma_header_roundtrip(BoxType::Mp4aBox, mp4a_size(m), t + r);
}

/// An encoded tx3g sample entry at position `q` of `d` reads back.
#[verifier::spinoff_prover]
proof fn lemma_stsd_tx3g(t: Tx3gBox, d: Seq<u8>, q: int, r: Seq<u8>)
    requires
        8 <= q <= d.len() <= u64::MAX,
        rest_at(d, q) == tx3g_bytes(t@) + r,
    ensures
        tx3g_bytes(t@).len() == 46,
        parse_header(rest_at(d, q)) == Ok::<(BoxHeader, int), Error>((BoxHeader { name: BoxType::Tx3gBox, size: 46 }, 8)),
        box_result(parse_tx3g(rest_at(d, q + 8)), q, 46) == Ok::<Tx3gBoxView, Error>(t@),
{
    let e = tx3g_bytes(t@);
    let h = header_bytes(BoxType::Tx3gBox, 46);
    lemma_tx3g_roundtrip(t, r);
    crate::mp4box::tx3g::lemma_tx3g_split(t);
    lemma_header_split(e, h, e.skip(8), r);
    lemma_rest_skip8(d, q, e, r);
    lemma_header_roundtrip(BoxType::Tx3gBox, 46, e.skip(8) + r);
}

/// The sample entry of a kept stsd box starts with its header, and what the
/// box reads of it from position `q` of `d` is that entry.
#[verifier::spinoff_prover]
#[verifier::rlimit(40)]
proof fn lemma_stsd_entry(b: StsdBox, d: Seq<u8>, q: int, r: Seq<u8>)
    requires
        stsd_kept(b@),
        8 <= q <= d.len() <= u64::MAX,
        rest_at(d, q) == stsd_entry_bytes(b@) + r,
    ensures
        stsd_entry_bytes(b@).len() == stsd_size(b@) - 16,
        stsd_size(b@) >= 24,
        parse_header(rest_at(d, q)) matches Ok((h, n)) && n == 8 && stsd_entry(d, q + 8, h) == Ok::<
            StsdBoxView,
            Error,
        >(StsdBoxView { version: 0, flags: 0, ..b@ }),
{
    let v = b@;
    if let Some(a) = v.avc1 {
        lemma_stsd_avc1(a, d, q, r);
    } else if let Some(m) = v.mp4a {
        lemma_stsd_mp4a(m, d, q, r);
    } else {
        lemma_stsd_tx3g(b.tx3g->0, d, q, r);
    }
}

/// Regrouping the parts of an encoded stsd box.
proof fn lemma_stsd_concat(h: Seq<u8>, x: Seq<u8>, c: Seq<u8>, e: Seq<u8>, r: Seq<u8>)
    requires
        h.len() == 8,
    ensures
        (h + x + c + e) + r == h + (x + (c + (e + r))),
        (h + (x + (c + (e + r)))).skip(8) == x + (c + (e + r)),
{
    assert((h + x + c + e) + r =~= h + (x + (c + (e + r))));
    assert((h + (x + (c + (e + r)))).skip(8) =~= x + (c + (e + r)));
}

/// The sample entry of a kept stsd box takes the bytes of the box after
/// its first 16.
proof fn lemma_stsd_entry_len(b: StsdBox)
    requires
        stsd_kept(b@),
    ensures
        stsd_entry_bytes(b@).len() == stsd_size(b@) - 16,
        stsd_size(b@) >= 24,
{
    let v = b@;
    if let Some(a) = v.avc1 {
        lemma_avc1_split(a);
    } else if let Some(m) = v.mp4a {
        if let Some(x) = m.esds {
            lemma_esds_len(x);
        }
        lemma_mp4a_len(m);
    } else {
        lemma_tx3g_roundtrip(b.tx3g->0, Seq::empty());
    }
}

/// Where the parts of an encoded stsd box stand, its header before
/// position `p` of `d`.
#[verifier::spinoff_prover]
#[verifier::rlimit(40)]
proof fn lemma_stsd_layout(b: StsdBox, d: Seq<u8>, p: int, r: Seq<u8>)
    requires
        stsd_kept(b@),
        8 <= p <= d.len(),
        rest_at(d, p - 8) == stsd_bytes(b@) + r,
    ensures
        stsd_bytes(b@).len() == stsd_size(b@),
        rest_at(d, p) == ext_bytes(b@.version, b@.flags) + (u32_bytes(1) + (stsd_entry_bytes(b@) + r)),
        rest_at(d, p + 8) == stsd_entry_bytes(b@) + r,
{
    let v = b@;
    let e = stsd_entry_bytes(v);
    let h = header_bytes(BoxType::StsdBox, stsd_size(v) as u64);
    let x = ext_bytes(v.version, v.flags);
    lemma_stsd_entry_len(b);
    assert(h.len() == 8);
    assert(x.len() == 4);
    assert(u32_bytes(1).len() == 4);
    assert(stsd_bytes(v) == h + x + u32_bytes(1) + e);
    lemma_stsd_concat(h, x, u32_bytes(1), e, r);
    assert(d.skip(p) =~= d.skip(p - 8).skip(8));
    assert(d.skip(p + 8) =~= d.skip(p).skip(8));
    assert(rest_at(d, p) == x + (u32_bytes(1) + (e + r)));
    assert((x + (u32_bytes(1) + (e + r))).skip(8) =~= e + r);
}

/// Reading an encoded stsd box, its header before position `p` of `d`,
/// gives it back, where its encoding keeps all of it.
#[verifier::spinoff_prover]
#[verifier::rlimit(40)]
pub proof fn lemma_stsd_roundtrip(b: StsdBox, d: Seq<u8>, p: int, r: Seq<u8>)
    requires
        stsd_kept(b@),
        8 <= p <= d.len() <= u64::MAX,
        rest_at(d, p - 8) == stsd_bytes(b@) + r,
    ensures
        stsd_bytes(b@).len() == stsd_size(b@),
        parse_stsd(d, p, stsd_size(b@) as u64) == Ok::<StsdBoxView, Error>(b@),
{
    let v = b@;
    lemma_stsd_layout(b, d, p, r);
    lemma_stsd_entry(b, d, p + 8, r);
    crate::bigendian::lemma_u24_roundtrip(v.flags);
    let s = rest_at(d, p);
    let x = ext_bytes(v.version, v.flags);
    assert(s[0] == x[0] && s[1] == x[1] && s[2] == x[2] && s[3] == x[3]);
}

} // verus!
