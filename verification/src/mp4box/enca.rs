//! The encrypted audio sample entry box: a protected AAC sample entry and
//! its protection scheme information.
use crate::error::{Error, Result};
use crate::mp4box::descriptor::dec_config_kept;
use crate::mp4box::mp4a::{
    esds_bytes, esds_size, lemma_esds_len, lemma_esds_roundtrip, lemma_mp4a_fields, mp4a_bytes, mp4a_fields, mp4a_scan, mp4a_size,
    parse_esds, parse_mp4a, EsdsBox, Mp4aBox, Mp4aBoxView,
};
use crate::mp4box::sinf::{lemma_sinf_len, lemma_sinf_roundtrip, parse_sinf, sinf_bytes, sinf_kept, sinf_size, SinfBox, SinfBoxView};
use crate::mp4box::{
    box_start, header_bytes, lemma_header_roundtrip, parse_header, skip_box, skip_bytes, skip_bytes_to, BoxHeader, Mp4Box, ReadBox,
    WriteBox, HEADER_SIZE,
};
use crate::reader::{opt_view, rest_at, Reader};
use crate::types::{fourcc_code, BoxType};
use vstd::prelude::*;

verus! {

/// The number of bytes of sample entry fields before the children.
pub const RESERVED_DATA_SIZE: u64 = 28;

#[derive(Debug, Clone, PartialEq, Eq, Default)]
pub struct EncaBox {
    pub mp4a: Option<Mp4aBox>,
    pub sinf: SinfBox,
}

/// What an enca box holds, as mathematical values.
pub struct EncaBoxView {
    pub mp4a: Option<Mp4aBoxView>,
    pub sinf: SinfBoxView,
}

impl View for EncaBox {
    type V = EncaBoxView;

    open spec fn view(&self) -> EncaBoxView {
        EncaBoxView { mp4a: opt_view(self.mp4a), sinf: self.sinf@ }
    }
}

/// Looking for the protection scheme information among the children of an
/// enca box `size` bytes long, from position `p` of `d` up to `end`: the
/// first one found ends the search; other boxes are skipped. A child larger
/// than the box is refused, and so is one after which the reader would not
/// have moved forward.
pub open spec fn enca_scan(d: Seq<u8>, p: int, end: int, size: u64) -> Result<Option<SinfBoxView>>
    decreases (if p < end { end - p } else { 0 }),
{
    if p >= end {
        Ok(None)
    } else {
        match parse_header(rest_at(d, p)) {
            Err(e) => Err(e),
            Ok((h, n)) => {
                let q = p + n;
                let start = q - HEADER_SIZE;
                if h.size > size {
                    Err(Error::InvalidData("enca box contains a box with a larger size than it"))
                } else if h.name == BoxType::SinfBox {
                    match parse_sinf(d, q, h.size) {
                        Ok(v) => Ok(Some(v)),
                        Err(e) => Err(e),
                    }
                } else if start + h.size > u64::MAX {
                    Err(Error::InvalidData("box end out of range"))
                } else if start + h.size <= p {
                    Err(Error::InvalidData("box size too small"))
                } else {
                    enca_scan(d, start + h.size, end, size)
                }
            },
        }
    }
}

/// The code of the `mp4a` format.
pub open spec fn mp4a_code() -> u32 {
    0x6d703461
}

/// The enca box `size` bytes long whose header ends at position `p` of `d`:
/// the protection scheme information among its children, which must be
/// there, and, where the original format is `mp4a`, the whole box read
/// again as an mp4a box.
pub open spec fn parse_enca(d: Seq<u8>, p: int, size: u64) -> Result<EncaBoxView> {
    let start = p - HEADER_SIZE;
    if p + RESERVED_DATA_SIZE > u64::MAX || start + size > u64::MAX {
        Err(Error::InvalidData("box end out of range"))
    } else {
        match enca_scan(d, p + RESERVED_DATA_SIZE, start + size, size) {
            Err(e) => Err(e),
            Ok(None) => Err(Error::BoxNotFound(BoxType::SinfBox)),
            Ok(Some(sinf)) => if fourcc_code(sinf.frma.original_format) == mp4a_code() {
                match parse_mp4a(d, p, size) {
                    Ok(m) => Ok(EncaBoxView { mp4a: Some(m), sinf }),
                    Err(e) => Err(e),
                }
            } else {
                Ok(EncaBoxView { mp4a: None, sinf })
            },
        }
    }
}

/// The size of the encoding of `b`: the mp4a box stands in for the header
/// and sample entry fields.
pub open spec fn enca_size(b: EncaBoxView) -> int {
    (match b.mp4a {
        Some(m) => mp4a_size(m) as int,
        None => 8 + RESERVED_DATA_SIZE,
    }) + sinf_size(b.sinf)
}

/// The encoding of an enca box, header included: the mp4a box without its
/// header, or zeros, then the protection scheme information.
pub open spec fn enca_bytes(b: EncaBoxView) -> Seq<u8> {
    header_bytes(BoxType::EncaBox, enca_size(b) as u64) + (match b.mp4a {
        Some(m) => mp4a_bytes(m).skip(8),
        None => Seq::new(28, |i: int| 0u8),
    }) + sinf_bytes(b.sinf)
}

/// Appends the bytes of `b` from position `from` on.
pub(crate) fn append_from(writer: &mut Vec<u8>, b: &Vec<u8>, from: usize)
    requires
        from <= b@.len(),
    ensures
        final(writer)@ == old(writer)@ + b@.skip(from as int),
{
    let mut i = from;
    while i < b.len()
        invariant
            from <= i <= b@.len(),
            writer@ == old(writer)@ + b@.subrange(from as int, i as int),
        decreases b@.len() - i,
    {
        writer.push(b[i]);
        i = i + 1;
        assert(writer@ =~= old(writer)@ + b@.subrange(from as int, i as int));
    }
    assert(b@.subrange(from as int, i as int) =~= b@.skip(from as int));
}

impl EncaBox {
    pub fn get_type(&self) -> (t: BoxType)
        ensures
            t == BoxType::EncaBox,
    {
        BoxType::EncaBox
    }

    pub fn get_size(&self) -> (s: u64)
        requires
            self.has_size(),
        ensures
            s == enca_size(self@),
    {
        let mut size: u64 = 0;
        if let Some(mp4a) = &self.mp4a {
            size = size + mp4a.box_size();
        } else {
            size = size + HEADER_SIZE + RESERVED_DATA_SIZE;
        }
        size + self.sinf.box_size()
    }
}

impl Mp4Box for EncaBox {
    open spec fn has_size(&self) -> bool {
        enca_size(self@) <= u64::MAX
    }

    fn box_type(&self) -> (t: BoxType)
        ensures
            t == BoxType::EncaBox,
    {
        self.get_type()
    }

    fn box_size(&self) -> (s: u64)
        ensures
            s == enca_size(self@),
    {
        self.get_size()
    }
}

/// Looks for the protection scheme information among the children, up to
/// `end`.
#[verifier::spinoff_prover]
#[verifier::rlimit(40)]
fn find_sinf(reader: &mut Reader, end: u64, size: u64) -> (res: Result<Option<SinfBox>>)
    requires
        old(reader).pos() >= HEADER_SIZE,
    ensures
        final(reader).data_seq() == old(reader).data_seq(),
        match res {
            Ok(r) => enca_scan(old(reader).data_seq(), old(reader).pos(), end as int, size) == Ok::<
                Option<SinfBoxView>,
                Error,
            >(opt_view(r)),
            Err(e) => enca_scan(old(reader).data_seq(), old(reader).pos(), end as int, size) == Err::<
                Option<SinfBoxView>,
                Error,
            >(e),
        },
{
    let ghost d = old(reader).data_seq();
    let ghost p0 = old(reader).pos();
    let mut current = reader.position();
    while current < end
        invariant
            reader.data_seq() == d,
            d == old(reader).data_seq(),
            p0 == old(reader).pos(),
            current == reader.pos(),
            current >= HEADER_SIZE,
            enca_scan(d, p0, end as int, size) == enca_scan(d, current as int, end as int, size),
        decreases (if current < end { end - current } else { 0 }),
    {
        assert(reader.rem() == rest_at(d, current as int));
        let header = BoxHeader::read(reader)?;
        if header.size > size {
            return Err(Error::InvalidData("enca box contains a box with a larger size than it"));
        }
        if header.name == BoxType::SinfBox {
            let sinf = SinfBox::read_box(reader, header.size)?;
            return Ok(Some(sinf));
        }
        skip_box(reader, header.size)?;
        let next = reader.position();
        if next <= current {
            return Err(Error::InvalidData("box size too small"));
        }
        current = next;
    }
    Ok(None)
}

impl ReadBox for EncaBox {
    open spec fn size_accepted(size: u64) -> bool {
        true
    }

    #[verifier::spinoff_prover]
    fn read_box(reader: &mut Reader, size: u64) -> (res: Result<Self>)
        ensures
            res is Ok ==> final(reader).pos() == old(reader).pos() - HEADER_SIZE + size,
            crate::mp4box::read_outcome(res, parse_enca(old(reader).data_seq(), old(reader).pos(), size)),
    {
        let ghost d = old(reader).data_seq();
        let ghost p0 = old(reader).pos();
        let start = box_start(reader);
        skip_bytes(reader, RESERVED_DATA_SIZE)?;
        if size > u64::MAX - start {
            return Err(Error::InvalidData("box end out of range"));
        }
        let end = start + size;
        let sinf = match find_sinf(reader, end, size)? {
            Some(s) => s,
            None => {
                return Err(Error::BoxNotFound(BoxType::SinfBox));
            },
        };
        reader.seek_to(start + HEADER_SIZE);
        let mut mp4a: Option<Mp4aBox> = None;
        if sinf.frma.original_format.to_u32() == 0x6d703461 {
            assert(reader.pos() == p0);
            mp4a = Some(Mp4aBox::read_box(reader, size)?);
        }
        skip_bytes_to(reader, start, size)?;
        Ok(EncaBox { mp4a, sinf })
    }
}

impl WriteBox for EncaBox {
    open spec fn writable(&self) -> bool {
        &&& self.has_size()
        &&& self.mp4a matches Some(m) ==> m.writable()
        &&& self.sinf.writable()
    }

    /// Writes the box: the mp4a box is encoded apart and its header
    /// replaced by that of the enca box.
    #[verifier::spinoff_prover]
    fn write_box(&self, writer: &mut Vec<u8>) -> (res: Result<u64>)
        ensures
            final(writer)@ == old(writer)@ + enca_bytes(self@),
            res == Ok::<u64, Error>(enca_size(self@) as u64),
    {
        let size = self.box_size();
        BoxHeader::new(self.box_type(), size).write(writer)?;
        let ghost w1 = writer@;
        if let Some(mp4a) = &self.mp4a {
            let mut buf: Vec<u8> = Vec::new();
            mp4a.write_box(&mut buf)?;
            assert(buf@ =~= mp4a_bytes(mp4a@));
            append_from(writer, &buf, 8);
        } else {
            let mut i: usize = 0;
            while i < 28
                invariant
                    0 <= i <= 28,
                    writer@ == w1 + Seq::new(i as nat, |j: int| 0u8),
                decreases 28 - i,
            {
                writer.push(0);
                i = i + 1;
                assert(writer@ =~= w1 + Seq::new(i as nat, |j: int| 0u8));
            }
        }
        self.sinf.write_box(writer)?;
        assert(final(writer)@ =~= old(writer)@ + enca_bytes(self@));
        Ok(size)
    }
}


/// The encoding of the esds box of an mp4a box, if any.
pub open spec fn mp4a_esds_bytes(m: Mp4aBoxView) -> Seq<u8> {
    match m.esds {
        Some(e) => esds_bytes(e),
        None => Seq::empty(),
    }
}

/// The bytes of an encoded enca box between its header and its protection
/// scheme information.
pub open spec fn enca_entry_bytes(b: EncaBoxView) -> Seq<u8> {
    match b.mp4a {
        Some(m) => mp4a_fields(m) + mp4a_esds_bytes(m),
        None => Seq::new(28, |i: int| 0u8),
    }
}

/// Whether the encoding of an enca box keeps all of it: an mp4a box is
/// there exactly where the original format is `mp4a`, its esds box, if
/// any, has flags that fit in 24 bits and a decoder configuration that is
/// kept, and the protection scheme information is kept.
pub open spec fn enca_kept(b: EncaBoxView) -> bool {
    &&& sinf_kept(b.sinf)
    &&& (b.mp4a is Some) == (fourcc_code(b.sinf.frma.original_format) == mp4a_code())
    &&& b.mp4a matches Some(m) ==> (m.esds matches Some(e) ==> e.flags < 0x1000000 && dec_config_kept(
        e.es_desc.dec_config,
    ))
}

/// Where the parts of an encoded enca box stand, its header before position
/// `p` of `d`.
#[verifier::spinoff_prover]
#[verifier::rlimit(40)]
proof fn lemma_enca_layout(b: EncaBoxView, d: Seq<u8>, p: int, r: Seq<u8>)
    requires
        enca_kept(b),
        8 <= p <= d.len() <= u64::MAX,
        rest_at(d, p - 8) == enca_bytes(b) + r,
    ensures
        enca_bytes(b).len() == enca_size(b),
        enca_entry_bytes(b).len() + sinf_size(b.sinf) + 8 == enca_size(b),
        enca_entry_bytes(b).len() >= 28,
        enca_size(b) <= 0x10000,
        rest_at(d, p) == enca_entry_bytes(b) + (sinf_bytes(b.sinf) + r),
        sinf_bytes(b.sinf).len() == sinf_size(b.sinf),
{
    let size = enca_size(b);
    let sb = sinf_bytes(b.sinf);
    let eb = enca_entry_bytes(b);
    lemma_sinf_len(b.sinf);
    if let Some(m) = b.mp4a {
        lemma_mp4a_fields(m, Seq::empty());
        if let Some(e) = m.esds {
            lemma_esds_len(e);
        }
        assert(header_bytes(BoxType::Mp4aBox, mp4a_size(m)).len() == 8);
        assert(mp4a_bytes(m).skip(8) =~= eb);
    }
    assert(header_bytes(BoxType::EncaBox, size as u64).len() == 8);
    assert(enca_bytes(b) =~= header_bytes(BoxType::EncaBox, size as u64) + (eb + sb));
    assert(d.skip(p) =~= d.skip(p - 8).skip(8));
    assert(rest_at(d, p) =~= eb + (sb + r));
}


/// A box at position `q` of `d` that is not protection scheme information
/// is skipped while looking for it among the children of an enca box.
#[verifier::spinoff_prover]
proof fn lemma_enca_scan_skip(d: Seq<u8>, q: int, end: int, size: u64, name: BoxType, n: u64, rest: Seq<u8>)
    requires
        8 <= q,
        q + n < end,
        end <= d.len() <= u64::MAX,
        8 <= n <= size,
        n <= u32::MAX,
        name != BoxType::SinfBox,
        !(name is UnknownBox),
        rest_at(d, q) == header_bytes(name, n) + rest,
    ensures
        enca_scan(d, q, end, size) == enca_scan(d, q + n, end, size),
{
    lemma_header_roundtrip(name, n, rest);
}

/// Encoded protection scheme information at position `q` of `d`, ending
/// the children of an enca box, is found there.
#[verifier::spinoff_prover]
proof fn lemma_enca_scan_sinf(d: Seq<u8>, q: int, end: int, size: u64, x: SinfBoxView, r: Seq<u8>)
    requires
        sinf_kept(x),
        8 <= q,
        q + sinf_size(x) == end,
        end <= d.len() <= u64::MAX,
        sinf_size(x) <= size,
        rest_at(d, q) == sinf_bytes(x) + r,
    ensures
        enca_scan(d, q, end, size) == Ok::<Option<SinfBoxView>, Error>(Some(x)),
{
    lemma_sinf_len(x);
    let sb = sinf_bytes(x);
    let ss = sinf_size(x);
    lemma_sinf_roundtrip(x, d, q + 8, r);
    lemma_header_roundtrip(BoxType::SinfBox, ss as u64, sb.skip(8) + r);
    assert(sb + r =~= header_bytes(BoxType::SinfBox, ss as u64) + (sb.skip(8) + r));
}

/// The encoding of an esds box that may be missing.
pub open spec fn opt_esds_bytes(e: Option<EsdsBox>) -> Seq<u8> {
    match e {
        Some(x) => esds_bytes(x),
        None => Seq::empty(),
    }
}

/// Looking for the protection scheme information among the children of an
/// enca box, from position `q` of `d` where an esds box, if any, comes
/// before it, finds it.
#[verifier::spinoff_prover]
#[verifier::rlimit(40)]
proof fn lemma_enca_scan_from(
    d: Seq<u8>,
    q: int,
    end: int,
    size: u64,
    eo: Option<EsdsBox>,
    x: SinfBoxView,
    r: Seq<u8>,
)
    requires
        sinf_kept(x),
        8 <= q,
        q + opt_esds_bytes(eo).len() + sinf_size(x) == end,
        end <= d.len() <= u64::MAX,
        sinf_size(x) <= size,
        eo matches Some(e) ==> esds_size(e) <= size,
        rest_at(d, q) == opt_esds_bytes(eo) + (sinf_bytes(x) + r),
    ensures
        enca_scan(d, q, end, size) == Ok::<Option<SinfBoxView>, Error>(Some(x)),
{
    lemma_sinf_len(x);
    let sb = sinf_bytes(x);
    let xb = opt_esds_bytes(eo);
    let q2 = q + xb.len();
    assert(d.skip(q2) =~= d.skip(q).skip(xb.len() as int));
    assert(rest_at(d, q2) =~= sb + r);
    lemma_enca_scan_sinf(d, q2, end, size, x, r);
    if let Some(e) = eo {
        lemma_esds_len(e);
        let eb = esds_bytes(e);
        assert(eb + (sb + r) =~= header_bytes(BoxType::EsdsBox, esds_size(e)) + (eb.skip(8) + (sb + r)));
        lemma_enca_scan_skip(d, q, end, size, BoxType::EsdsBox, esds_size(e), eb.skip(8) + (sb + r));
    }
}

/// Looking for the protection scheme information of an encoded enca box,
/// its header before position `p` of `d`, finds it after the esds box of
/// the mp4a box, if any.
#[verifier::spinoff_prover]
#[verifier::rlimit(40)]
proof fn lemma_enca_find_sinf(b: EncaBoxView, d: Seq<u8>, p: int, r: Seq<u8>)
    requires
        enca_kept(b),
        8 <= p <= d.len() <= u64::MAX,
        rest_at(d, p - 8) == enca_bytes(b) + r,
    ensures
        enca_scan(d, p + 28, p - 8 + enca_size(b), enca_size(b) as u64) == Ok::<Option<SinfBoxView>, Error>(
            Some(b.sinf),
        ),
{
    lemma_enca_layout(b, d, p, r);
    lemma_sinf_len(b.sinf);
    let eo = match b.mp4a {
        Some(m) => m.esds,
        None => None,
    };
    let sb = sinf_bytes(b.sinf);
    if let Some(m) = b.mp4a {
        lemma_mp4a_fields(m, Seq::empty());
        assert(mp4a_esds_bytes(m) == opt_esds_bytes(eo));
    }
    if let Some(e) = eo {
        lemma_esds_len(e);
    }
    assert(d.skip(p + 28) =~= d.skip(p).skip(28));
    assert(rest_at(d, p + 28) =~= opt_esds_bytes(eo) + (sb + r));
    lemma_enca_scan_from(d, p + 28, p - 8 + enca_size(b), enca_size(b) as u64, eo, b.sinf, r);
}

/// The search for an esds box among the children of an mp4a box, read over
/// an encoded enca box whose mp4a box has none, passes over the protection
/// scheme information at position `q` of `d` and finds nothing.
#[verifier::spinoff_prover]
proof fn lemma_mp4a_scan_over_sinf(d: Seq<u8>, q: int, end: int, size: u64, x: SinfBoxView, r: Seq<u8>)
    requires
        sinf_kept(x),
        8 <= q,
        q + sinf_size(x) == end,
        end <= d.len() <= u64::MAX,
        sinf_size(x) <= size,
        rest_at(d, q) == sinf_bytes(x) + r,
    ensures
        mp4a_scan(d, q, end, size) == Ok::<Option<EsdsBox>, Error>(None),
{
    lemma_sinf_len(x);
    let sb = sinf_bytes(x);
    let ss = sinf_size(x);
    lemma_header_roundtrip(BoxType::SinfBox, ss as u64, sb.skip(8) + r);
    assert(sb + r =~= header_bytes(BoxType::SinfBox, ss as u64) + (sb.skip(8) + r));
    assert(mp4a_scan(d, end, end, size) == Ok::<Option<EsdsBox>, Error>(None));
}

/// The search for an esds box among the children of an mp4a box finds an
/// encoded esds box at position `q` of `d`.
#[verifier::spinoff_prover]
proof fn lemma_mp4a_scan_esds(d: Seq<u8>, q: int, end: int, size: u64, e: EsdsBox, r: Seq<u8>)
    requires
        e.flags < 0x1000000,
        dec_config_kept(e.es_desc.dec_config),
        8 <= q < end,
        end <= d.len() <= u64::MAX,
        esds_size(e) <= size,
        rest_at(d, q) == esds_bytes(e) + r,
    ensures
        mp4a_scan(d, q, end, size) == Ok::<Option<EsdsBox>, Error>(Some(e)),
{
    lemma_esds_len(e);
    let eb = esds_bytes(e);
    let es = esds_size(e);
    lemma_esds_roundtrip(e, d, q + 8, r);
    lemma_header_roundtrip(BoxType::EsdsBox, es, eb.skip(8) + r);
    assert(eb + r =~= header_bytes(BoxType::EsdsBox, es) + (eb.skip(8) + r));
}

/// Reading the whole of an encoded enca box, its header before position `p`
/// of `d`, as an mp4a box gives back its mp4a box.
#[verifier::spinoff_prover]
#[verifier::rlimit(40)]
proof fn lemma_enca_mp4a(b: EncaBoxView, m: Mp4aBoxView, d: Seq<u8>, p: int, r: Seq<u8>)
    requires
        enca_kept(b),
        b.mp4a == Some(m),
        8 <= p <= d.len() <= u64::MAX,
        rest_at(d, p - 8) == enca_bytes(b) + r,
    ensures
        parse_mp4a(d, p, enca_size(b) as u64) == Ok::<Mp4aBoxView, Error>(m),
{
    lemma_enca_layout(b, d, p, r);
    lemma_sinf_len(b.sinf);
    let size = enca_size(b);
    let end = p - 8 + size;
    let sb = sinf_bytes(b.sinf);
    let xb = mp4a_esds_bytes(m);
    lemma_mp4a_fields(m, xb + (sb + r));
    assert(rest_at(d, p) =~= mp4a_fields(m) + (xb + (sb + r)));
    assert(d.skip(p + 28) =~= d.skip(p).skip(28));
    assert(rest_at(d, p + 28) =~= xb + (sb + r));
    match m.esds {
        Some(e) => {
            lemma_esds_len(e);
            lemma_mp4a_scan_esds(d, p + 28, end, size as u64, e, sb + r);
        },
        None => {
            lemma_mp4a_scan_over_sinf(d, p + 28, end, size as u64, b.sinf, r);
        },
    }
}

/// Reading an encoded enca box, its header before position `p` of `d`,
/// gives it back, where its encoding keeps all of it.
#[verifier::spinoff_prover]
#[verifier::rlimit(40)]
pub proof fn lemma_enca_roundtrip(b: EncaBoxView, d: Seq<u8>, p: int, r: Seq<u8>)
    requires
        enca_kept(b),
        8 <= p <= d.len() <= u64::MAX,
        rest_at(d, p - 8) == enca_bytes(b) + r,
    ensures
        enca_bytes(b).len() == enca_size(b),
        parse_enca(d, p, enca_size(b) as u64) == Ok::<EncaBoxView, Error>(b),
{
    lemma_enca_layout(b, d, p, r);
    lemma_enca_find_sinf(b, d, p, r);
    if let Some(m) = b.mp4a {
        lemma_enca_mp4a(b, m, d, p, r);
    }
}

} // verus!
