//! The data information box, its data reference box and the data entry
//! URL box that says where a track's media lies.
use crate::bigendian::{be_write_u32, group_take_lemmas, lemma_u24_roundtrip, u32_bytes};
use crate::error::{Error, Result};
use crate::mp4box::{
    be24_at, be32_at, box_result, box_start, ext_bytes, header_bytes, lemma_header_roundtrip, parse_header, read_box_header_ext,
    read_outcome, skip_box, skip_bytes_to, write_box_header_ext, BoxHeader, Mp4Box, ReadBox, WriteBox,
    HEADER_EXT_SIZE, HEADER_SIZE,
};
use crate::mp4box::traf::ended;
use crate::reader::{rest_at, write_all, Reader};
use crate::text::{lemma_decoded_bytes, str_bytes, string_from_utf8};
use crate::types::BoxType;
use vstd::prelude::*;
use vstd::utf8::{decode_utf8, encode_utf8_decode_utf8, encode_utf8_valid_utf8, valid_utf8};

verus! {

broadcast use group_take_lemmas;

#[derive(Debug, Clone, PartialEq, Eq)]
pub struct UrlBox {
    pub version: u8,
    pub flags: u32,
    pub location: String,
}

/// What a url box holds, as mathematical values.
pub struct UrlBoxView {
    pub version: u8,
    pub flags: u32,
    pub location: Seq<char>,
}

impl View for UrlBox {
    type V = UrlBoxView;

    open spec fn view(&self) -> UrlBoxView {
        UrlBoxView { version: self.version, flags: self.flags, location: self.location@ }
    }
}

impl Default for UrlBox {
    fn default() -> (b: Self)
        ensures
            b@ == (UrlBoxView { version: 0, flags: 1, location: Seq::empty() }),
    {
        UrlBox { version: 0, flags: 1, location: String::new() }
    }
}

/// The size of the encoding of `b`: the location is stored with a NUL byte
/// where it is not empty.
pub open spec fn url_size(b: UrlBoxView) -> int {
    12 + if b.location.len() > 0 { str_bytes(b.location).len() as int + 1 } else { 0int }
}

/// The location that `b` holds: its UTF-8 decoding, or empty where it is
/// not UTF-8.
pub open spec fn url_location(b: Seq<u8>) -> Seq<char> {
    if valid_utf8(b) {
        decode_utf8(b)
    } else {
        Seq::empty()
    }
}

/// The url box that the body at the start of `s` encodes, in a box that is
/// `size` bytes long: a location fills the box after the version and
/// flags, up to its last byte, which ends it.
pub open spec fn parse_url(s: Seq<u8>, size: u64) -> Result<UrlBoxView> {
    if s.len() < 4 {
        Err(Error::IoError)
    } else if size < 12 {
        Err(Error::InvalidData("box size too small"))
    } else if size > 12 && s.len() < 4 + (size - 13) {
        Err(Error::IoError)
    } else {
        Ok(UrlBoxView {
            version: s[0],
            flags: be24_at(s, 1),
            location: if size > 12 { url_location(s.subrange(4, 4 + (size - 13))) } else { Seq::empty() },
        })
    }
}

/// The body of an encoded url box.
pub open spec fn url_body(b: UrlBoxView) -> Seq<u8> {
    ext_bytes(b.version, b.flags) + if b.location.len() > 0 {
        str_bytes(b.location) + seq![0u8]
    } else {
        Seq::empty()
    }
}

/// The encoding of a url box, header included.
pub open spec fn url_bytes(b: UrlBoxView) -> Seq<u8> {
    header_bytes(BoxType::UrlBox, url_size(b) as u64) + url_body(b)
}

impl Mp4Box for UrlBox {
    open spec fn has_size(&self) -> bool {
        url_size(self@) <= u64::MAX
    }

    fn box_type(&self) -> (t: BoxType)
        ensures
            t == BoxType::UrlBox,
    {
        BoxType::UrlBox
    }

    fn box_size(&self) -> (s: u64)
        ensures
            s == url_size(self@),
    {
        proof {
            reveal(str_bytes);
        }
        let mut size = HEADER_SIZE + HEADER_EXT_SIZE;
        if !self.location.as_str().is_empty() {
            size = size + self.location.as_str().as_bytes().len() as u64 + 1;
        }
        size
    }
}

impl ReadBox for UrlBox {
    open spec fn size_accepted(size: u64) -> bool {
        true
    }

    /// Decodes the box; a box too small for its version and flags is
    /// refused as invalid data.
    #[verifier::spinoff_prover]
    fn read_box(reader: &mut Reader, size: u64) -> (res: Result<Self>)
        ensures
            res is Ok ==> final(reader).pos() == old(reader).pos() - HEADER_SIZE + size,
            read_outcome(res, box_result(parse_url(old(reader).rem(), size), old(reader).pos() - HEADER_SIZE, size)),
    {
        let ghost s = old(reader).rem();
        let start = box_start(reader);
        let (version, flags) = read_box_header_ext(reader)?;
        if size < HEADER_SIZE + HEADER_EXT_SIZE {
            return Err(Error::InvalidData("box size too small"));
        }
        let location = if size - HEADER_SIZE - HEADER_EXT_SIZE > 0 {
            let buf_size = size - HEADER_SIZE - HEADER_EXT_SIZE - 1;
            let buf = reader.read_bytes(buf_size)?;
            let ghost raw = buf@;
            assert(raw =~= s.subrange(4, 4 + (size - 13)));
            match string_from_utf8(buf) {
                Some(t) => {
                    proof {
                        lemma_decoded_bytes(raw);
                        reveal(str_bytes);
                    }
                    t
                },
                None => String::new(),
            }
        } else {
            String::new()
        };
        skip_bytes_to(reader, start, size)?;
        Ok(UrlBox { version, flags, location })
    }
}

impl WriteBox for UrlBox {
    open spec fn writable(&self) -> bool {
        &&& self.flags < 0x1000000
        &&& self.has_size()
    }

    #[verifier::spinoff_prover]
    fn write_box(&self, writer: &mut Vec<u8>) -> (res: Result<u64>)
        ensures
            final(writer)@ == old(writer)@ + url_bytes(self@),
            res == Ok::<u64, Error>(url_size(self@) as u64),
    {
        let size = self.box_size();
        BoxHeader::new(self.box_type(), size).write(writer)?;
        write_box_header_ext(writer, self.version, self.flags)?;
        proof {
            reveal(str_bytes);
        }
        if !self.location.as_str().is_empty() {
            write_all(writer, self.location.as_str().as_bytes());
            writer.push(0);
        }
        assert(final(writer)@ =~= old(writer)@ + url_bytes(self@));
        Ok(size)
    }
}

/// Decoding the body of an encoded url box gives the box back, where the
/// box is small enough for a 32-bit size.
#[verifier::spinoff_prover]
pub proof fn lemma_url_roundtrip(b: UrlBoxView, rest: Seq<u8>)
    requires
        b.flags < 0x1000000,
        url_size(b) <= u32::MAX,
    ensures
        url_bytes(b).len() == url_size(b),
        url_body(b).len() == url_size(b) - 8,
        parse_url(url_body(b) + rest, url_size(b) as u64) == Ok::<UrlBoxView, Error>(b),
{
    reveal(str_bytes);
    lemma_u24_roundtrip(b.flags);
    let h = header_bytes(BoxType::UrlBox, url_size(b) as u64);
    assert(h.len() == 8);
    let s = url_body(b) + rest;
    if b.location.len() > 0 {
        let n = str_bytes(b.location);
        encode_utf8_valid_utf8(b.location);
        encode_utf8_decode_utf8(b.location);
        assert(s.subrange(4, 4 + n.len() as int) =~= n);
    } else {
        assert(b.location =~= Seq::<char>::empty());
    }
}

#[derive(Debug, Clone, PartialEq, Eq, Default)]
pub struct DrefBox {
    pub version: u8,
    pub flags: u32,
    pub url: UrlBox,
}

/// What a dref box holds, as mathematical values.
pub struct DrefBoxView {
    pub version: u8,
    pub flags: u32,
    pub url: UrlBoxView,
}

impl View for DrefBox {
    type V = DrefBoxView;

    open spec fn view(&self) -> DrefBoxView {
        DrefBoxView { version: self.version, flags: self.flags, url: self.url@ }
    }
}

/// Reading at most `k` more entries of a dref box that ends at `end`: the
/// last url box read, where the check position `c` is before the end. The
/// first check is made at the position after the box header, before the
/// version, flags and entry count are read from `r`.
pub open spec fn dref_scan(d: Seq<u8>, c: int, r: int, k: nat, end: int, url: Option<UrlBoxView>) -> Result<
    Option<UrlBoxView>,
>
    decreases k,
{
    if k == 0 || c >= end {
        Ok(url)
    } else {
        match parse_header(rest_at(d, r)) {
            Err(e) => Err(e),
            Ok((h, n)) => {
                let q = r + n;
                if h.name == BoxType::UrlBox {
                    match ended(parse_url(rest_at(d, q), h.size), q - HEADER_SIZE, h.size) {
                        Err(e) => Err(e),
                        Ok((u, e)) => dref_scan(d, e, e, (k - 1) as nat, end, Some(u)),
                    }
                } else if q - HEADER_SIZE + h.size > u64::MAX {
                    Err(Error::InvalidData("box end out of range"))
                } else {
                    dref_scan(d, q - HEADER_SIZE + h.size, q - HEADER_SIZE + h.size, (k - 1) as nat, end, url)
                }
            },
        }
    }
}

/// The dref box that a box `size` bytes long whose header ends at position
/// `p` of `d` holds: the entries that its count announces, read while
/// within the box, of which one must be a url box.
pub open spec fn parse_dref(d: Seq<u8>, p: int, size: u64) -> Result<DrefBoxView> {
    let s = rest_at(d, p);
    let start = p - HEADER_SIZE;
    if s.len() < 4 {
        Err(Error::IoError)
    } else if start + size > u64::MAX {
        Err(Error::InvalidData("box end out of range"))
    } else if s.len() < 8 {
        Err(Error::IoError)
    } else {
        match dref_scan(d, p, p + 8, be32_at(s, 4) as nat, start + size, None) {
            Err(e) => Err(e),
            Ok(None) => Err(Error::BoxNotFound(BoxType::UrlBox)),
            Ok(Some(u)) => Ok(DrefBoxView { version: s[0], flags: be24_at(s, 1), url: u }),
        }
    }
}

/// The size of the encoding of `b`.
pub open spec fn dref_size(b: DrefBoxView) -> int {
    16 + url_size(b.url)
}

/// The encoding of a dref box, header included: one entry, its url box.
pub open spec fn dref_bytes(b: DrefBoxView) -> Seq<u8> {
    header_bytes(BoxType::DrefBox, dref_size(b) as u64) + (ext_bytes(b.version, b.flags) + (u32_bytes(1) + url_bytes(b.url)))
}

/// The url box read from the entry whose header `h` ends at the reader's
/// position, or the entry skipped.
fn read_dref_entry(reader: &mut Reader, h: BoxHeader, url: &mut Option<UrlBox>) -> (res: Result<()>)
    requires
        old(reader).pos() >= HEADER_SIZE,
    ensures
        final(reader).data_seq() == old(reader).data_seq(),
        ({
            let d = old(reader).data_seq();
            let q = old(reader).pos();
            match res {
                Ok(_) => if h.name == BoxType::UrlBox {
                    ended(parse_url(rest_at(d, q), h.size), q - HEADER_SIZE, h.size) matches Ok((u, e))
                        && opt_url(*final(url)) == Some(u) && final(reader).pos() == e
                } else {
                    q - HEADER_SIZE + h.size <= u64::MAX && final(reader).pos() == q - HEADER_SIZE + h.size
                        && *final(url) == *old(url)
                },
                Err(e) => if h.name == BoxType::UrlBox {
                    ended(parse_url(rest_at(d, q), h.size), q - HEADER_SIZE, h.size) == Err::<(UrlBoxView, int), Error>(e)
                } else {
                    q - HEADER_SIZE + h.size > u64::MAX && e == Error::InvalidData("box end out of range")
                },
            }
        }),
{
    assert(reader.rem() == rest_at(reader.data_seq(), reader.pos()));
    match h.name {
        BoxType::UrlBox => {
            *url = Some(UrlBox::read_box(reader, h.size)?);
        },
        _ => {
            skip_box(reader, h.size)?;
        },
    }
    Ok(())
}

/// The view of an optional url box.
pub open spec fn opt_url(u: Option<UrlBox>) -> Option<UrlBoxView> {
    match u {
        Some(x) => Some(x@),
        None => None,
    }
}

impl Mp4Box for DrefBox {
    open spec fn has_size(&self) -> bool {
        dref_size(self@) <= u64::MAX
    }

    fn box_type(&self) -> (t: BoxType)
        ensures
            t == BoxType::DrefBox,
    {
        BoxType::DrefBox
    }

    fn box_size(&self) -> (s: u64)
        ensures
            s == dref_size(self@),
    {
        HEADER_SIZE + HEADER_EXT_SIZE + 4 + self.url.box_size()
    }
}

impl ReadBox for DrefBox {
    open spec fn size_accepted(size: u64) -> bool {
        true
    }

    #[verifier::spinoff_prover]
    fn read_box(reader: &mut Reader, size: u64) -> (res: Result<Self>)
        ensures
            res is Ok ==> final(reader).pos() == old(reader).pos() - HEADER_SIZE + size,
            read_outcome(res, parse_dref(old(reader).data_seq(), old(reader).pos(), size)),
    {
        let ghost d = old(reader).data_seq();
        let ghost p0 = old(reader).pos();
        let ghost s = old(reader).rem();
        let start = box_start(reader);
        let mut current = reader.position();
        let (version, flags) = read_box_header_ext(reader)?;
        if size > u64::MAX - start {
            return Err(Error::InvalidData("box end out of range"));
        }
        let end = start + size;
        let mut url: Option<UrlBox> = None;
        let entry_count = reader.read_u32()?;
        assert(s == rest_at(d, p0));
        let mut i: u32 = 0;
        while i < entry_count
            invariant
                reader.data_seq() == d,
                d == old(reader).data_seq(),
                p0 == old(reader).pos(),
                p0 >= HEADER_SIZE,
                reader.pos() >= HEADER_SIZE,
                i <= entry_count,
                end == p0 - HEADER_SIZE + size,
                s == rest_at(d, p0),
                s.len() >= 8,
                entry_count == be32_at(s, 4),
                version == s[0],
                flags == be24_at(s, 1),
                dref_scan(d, p0, p0 + 8, entry_count as nat, end as int, None) == dref_scan(
                    d,
                    current as int,
                    reader.pos(),
                    (entry_count - i) as nat,
                    end as int,
                    opt_url(url),
                ),
            ensures
                i == entry_count || current >= end,
            decreases entry_count - i,
        {
            if current >= end {
                break;
            }
            assert(reader.rem() == rest_at(d, reader.pos()));
            let header = BoxHeader::read(reader)?;
            read_dref_entry(reader, header, &mut url)?;
            current = reader.position();
            i = i + 1;
        }
        let url = match url {
            Some(u) => u,
            None => {
                return Err(Error::BoxNotFound(BoxType::UrlBox));
            },
        };
        skip_bytes_to(reader, start, size)?;
        Ok(DrefBox { version, flags, url })
    }
}

impl WriteBox for DrefBox {
    open spec fn writable(&self) -> bool {
        &&& self.flags < 0x1000000
        &&& self.has_size()
        &&& self.url.writable()
    }

    #[verifier::spinoff_prover]
    fn write_box(&self, writer: &mut Vec<u8>) -> (res: Result<u64>)
        ensures
            final(writer)@ == old(writer)@ + dref_bytes(self@),
            res == Ok::<u64, Error>(dref_size(self@) as u64),
    {
        let size = self.box_size();
        BoxHeader::new(self.box_type(), size).write(writer)?;
        write_box_header_ext(writer, self.version, self.flags)?;
        be_write_u32(writer, 1);
        self.url.write_box(writer)?;
        assert(final(writer)@ =~= old(writer)@ + dref_bytes(self@));
        Ok(size)
    }
}

#[derive(Debug, Clone, PartialEq, Eq, Default)]
pub struct DinfBox {
    dref: DrefBox,
}

impl View for DinfBox {
    type V = DrefBoxView;

    closed spec fn view(&self) -> DrefBoxView {
        self.dref@
    }
}

/// Reading the children of a dinf box `size` bytes long from position `p`
/// of `d` up to position `end`, having found `dref`. A child after which
/// the reader would not have moved forward is refused.
pub open spec fn dinf_scan(d: Seq<u8>, p: int, end: int, dref: Option<DrefBoxView>) -> Result<Option<DrefBoxView>>
    decreases end - p,
{
    if p >= end {
        Ok(dref)
    } else {
        match parse_header(rest_at(d, p)) {
            Err(e) => Err(e),
            Ok((h, n)) => {
                let q = p + n;
                let step: Result<(Option<DrefBoxView>, int)> = if h.name == BoxType::DrefBox {
                    match parse_dref(d, q, h.size) {
                        Err(e) => Err(e),
                        Ok(v) => Ok((Some(v), q - HEADER_SIZE + h.size)),
                    }
                } else if q - HEADER_SIZE + h.size > u64::MAX {
                    Err(Error::InvalidData("box end out of range"))
                } else {
                    Ok((dref, q - HEADER_SIZE + h.size))
                };
                match step {
                    Err(e) => Err(e),
                    Ok((r, e)) => if e <= p {
                        Err(Error::InvalidData("box size too small"))
                    } else if e >= end {
                        Ok(r)
                    } else {
                        dinf_scan(d, e, end, r)
                    },
                }
            },
        }
    }
}

/// The dinf box that a box `size` bytes long whose header ends at position
/// `p` of `d` holds: its children up to its end, of which a dref box must
/// be one.
pub open spec fn parse_dinf(d: Seq<u8>, p: int, size: u64) -> Result<DrefBoxView> {
    let start = p - HEADER_SIZE;
    if start + size > u64::MAX {
        Err(Error::InvalidData("box end out of range"))
    } else {
        match dinf_scan(d, p, start + size, None) {
            Err(e) => Err(e),
            Ok(None) => Err(Error::BoxNotFound(BoxType::DrefBox)),
            Ok(Some(v)) => Ok(v),
        }
    }
}

/// The view of an optional dref box.
pub open spec fn opt_dref(u: Option<DrefBox>) -> Option<DrefBoxView> {
    match u {
        Some(x) => Some(x@),
        None => None,
    }
}

impl Mp4Box for DinfBox {
    open spec fn has_size(&self) -> bool {
        8 + dref_size(self@) <= u64::MAX
    }

    fn box_type(&self) -> (t: BoxType)
        ensures
            t == BoxType::DinfBox,
    {
        BoxType::DinfBox
    }

    fn box_size(&self) -> (s: u64)
        ensures
            s == 8 + dref_size(self@),
    {
        HEADER_SIZE + self.dref.box_size()
    }
}

impl ReadBox for DinfBox {
    open spec fn size_accepted(size: u64) -> bool {
        true
    }

    #[verifier::spinoff_prover]
    fn read_box(reader: &mut Reader, size: u64) -> (res: Result<Self>)
        ensures
            res is Ok ==> final(reader).pos() == old(reader).pos() - HEADER_SIZE + size,
            read_outcome(res, parse_dinf(old(reader).data_seq(), old(reader).pos(), size)),
    {
        let ghost d = old(reader).data_seq();
        let ghost p0 = old(reader).pos();
        let start = box_start(reader);
        if size > u64::MAX - start {
            return Err(Error::InvalidData("box end out of range"));
        }
        let end = start + size;
        let mut dref: Option<DrefBox> = None;
        let mut current = reader.position();
        while current < end
            invariant
                reader.data_seq() == d,
                d == old(reader).data_seq(),
                p0 == old(reader).pos(),
                p0 >= HEADER_SIZE,
                start == p0 - HEADER_SIZE,
                current == reader.pos(),
                end == p0 - HEADER_SIZE + size,
                dinf_scan(d, p0, end as int, None) == dinf_scan(d, current as int, end as int, opt_dref(dref)),
            decreases (if current < end { end - current } else { 0 }),
        {
            assert(reader.rem() == rest_at(d, current as int));
            let header = BoxHeader::read(reader)?;
            match header.name {
                BoxType::DrefBox => {
                    dref = Some(DrefBox::read_box(reader, header.size)?);
                },
                _ => {
                    skip_box(reader, header.size)?;
                },
            }
            let next = reader.position();
            if next <= current {
                return Err(Error::InvalidData("box size too small"));
            }
            current = next;
        }
        let dref = match dref {
            Some(x) => x,
            None => {
                return Err(Error::BoxNotFound(BoxType::DrefBox));
            },
        };
        skip_bytes_to(reader, start, size)?;
        Ok(DinfBox { dref })
    }
}

impl WriteBox for DinfBox {
    open spec fn writable(&self) -> bool {
        &&& self.has_size()
        &&& self@.flags < 0x1000000
        &&& self@.url.flags < 0x1000000
    }

    #[verifier::spinoff_prover]
    fn write_box(&self, writer: &mut Vec<u8>) -> (res: Result<u64>)
        ensures
            final(writer)@ == old(writer)@ + header_bytes(BoxType::DinfBox, (8 + dref_size(self@)) as u64)
                + dref_bytes(self@),
            res == Ok::<u64, Error>((8 + dref_size(self@)) as u64),
    {
        let size = self.box_size();
        BoxHeader::new(self.box_type(), size).write(writer)?;
        self.dref.write_box(writer)?;
        Ok(size)
    }
}


/// Reading an encoded dref box, its header before position `p` of `d`,
/// gives it back, where its flags and those of its url box fit in 24 bits
/// and its size fits in 32 bits.
#[verifier::spinoff_prover]
#[verifier::rlimit(40)]
pub proof fn lemma_dref_roundtrip(b: DrefBoxView, d: Seq<u8>, p: int, r: Seq<u8>)
    requires
        b.flags < 0x1000000,
        b.url.flags < 0x1000000,
        dref_size(b) <= u32::MAX,
        8 <= p <= d.len() <= u64::MAX,
        rest_at(d, p - 8) == dref_bytes(b) + r,
    ensures
        dref_bytes(b).len() == dref_size(b),
        parse_dref(d, p, dref_size(b) as u64) == Ok::<DrefBoxView, Error>(b),
{
    let u = b.url;
    let us = url_size(u);
    let h = header_bytes(BoxType::DrefBox, dref_size(b) as u64);
    let x = ext_bytes(b.version, b.flags);
    let ub = url_bytes(u);
    let hu = header_bytes(BoxType::UrlBox, us as u64);
    lemma_url_roundtrip(u, r);
    assert(h.len() == 8 && hu.len() == 8 && x.len() == 4);
    assert(dref_bytes(b) + r =~= h + (x + (u32_bytes(1) + (ub + r))));
    assert(d.skip(p) =~= d.skip(p - 8).skip(8));
    let s = rest_at(d, p);
    assert(s =~= x + (u32_bytes(1) + (ub + r)));
    crate::mp4box::lemma_be32_at_word(x, 1, ub + r);
    lemma_u24_roundtrip(b.flags);
    assert(s[0] == x[0] && s[1] == x[1] && s[2] == x[2] && s[3] == x[3]);
    assert(d.skip(p + 8) =~= d.skip(p).skip(8));
    assert(rest_at(d, p + 8) =~= hu + (url_body(u) + r));
    lemma_header_roundtrip(BoxType::UrlBox, us as u64, url_body(u) + r);
    assert(d.skip(p + 16) =~= d.skip(p + 8).skip(8));
    assert(rest_at(d, p + 16) =~= url_body(u) + r);
    assert(dref_scan(d, p + 8 + us, p + 8 + us, 0, p + 8 + us, Some(u)) == Ok::<Option<UrlBoxView>, Error>(Some(u)));
}

/// The encoding of a dref box is its header and its body.
proof fn lemma_dref_split(b: DrefBoxView, r: Seq<u8>)
    requires
        b.flags < 0x1000000,
        b.url.flags < 0x1000000,
        dref_size(b) <= u32::MAX,
    ensures
        dref_bytes(b).len() == dref_size(b),
        dref_size(b) >= 24,
        dref_bytes(b) + r == header_bytes(BoxType::DrefBox, dref_size(b) as u64) + (dref_bytes(b).skip(8) + r),
{
    let h = header_bytes(BoxType::DrefBox, dref_size(b) as u64);
    let t = ext_bytes(b.version, b.flags) + (u32_bytes(1) + url_bytes(b.url));
    lemma_url_roundtrip(b.url, Seq::empty());
    assert(h.len() == 8);
    assert(dref_bytes(b) == h + t);
    assert(dref_bytes(b).skip(8) =~= t);
    assert(dref_bytes(b) + r =~= h + (t + r));
}

/// Reading an encoded dinf box, its header before position `p` of `d`,
/// gives its data reference back, where the dref box reads back.
#[verifier::spinoff_prover]
#[verifier::rlimit(40)]
pub proof fn lemma_dinf_roundtrip(b: DrefBoxView, d: Seq<u8>, p: int, r: Seq<u8>)
    requires
        b.flags < 0x1000000,
        b.url.flags < 0x1000000,
        8 + dref_size(b) <= u32::MAX,
        8 <= p <= d.len() <= u64::MAX,
        rest_at(d, p - 8) == header_bytes(BoxType::DinfBox, (8 + dref_size(b)) as u64) + dref_bytes(b) + r,
    ensures
        parse_dinf(d, p, (8 + dref_size(b)) as u64) == Ok::<DrefBoxView, Error>(b),
{
    let ds = dref_size(b);
    let db = dref_bytes(b);
    let h = header_bytes(BoxType::DinfBox, (8 + ds) as u64);
    lemma_dref_split(b, r);
    assert(h.len() == 8);
    assert(h + db + r =~= h + (db + r));
    assert(d.skip(p) =~= d.skip(p - 8).skip(8));
    assert(rest_at(d, p) == db + r);
    lemma_dref_roundtrip(b, d, p + 8, r);
    lemma_header_roundtrip(BoxType::DrefBox, ds as u64, db.skip(8) + r);
    assert(parse_header(rest_at(d, p)) == Ok::<(BoxHeader, int), Error>(
        (BoxHeader { name: BoxType::DrefBox, size: ds as u64 }, 8),
    ));
    assert(dinf_scan(d, p, p + ds, None) == Ok::<Option<DrefBoxView>, Error>(Some(b)));
}
} // verus!
