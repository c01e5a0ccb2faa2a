//! The encrypted video sample entry box: a protected H.264 or VP9 sample
//! entry and its protection scheme information.
use crate::error::{Error, Result};
use crate::mp4box::avc1::{
    avc1_bytes, avc1_fields, avc1_size, avcc_bytes, avcc_kept, avcc_size, lemma_avc1_body, lemma_avc1_split,
    parse_avc1, Avc1Box, Avc1BoxView,
};
use crate::mp4box::enca::append_from;
use crate::mp4box::sinf::{lemma_sinf_len, lemma_sinf_roundtrip, parse_sinf, sinf_bytes, sinf_kept, sinf_size, SinfBox, SinfBoxView};
use crate::mp4box::vp09::{lemma_vp09_body, parse_vp09, vp09_bytes, vp09_kept, Vp09Box, Vp09BoxView};
use crate::mp4box::vpcc::{lemma_vpcc_roundtrip, vpcc_bytes};
use crate::mp4box::{
    box_result, box_start, header_bytes, lemma_header_roundtrip, parse_header, skip_box, skip_bytes, skip_bytes_to, BoxHeader, Mp4Box,
    ReadBox, WriteBox, HEADER_SIZE,
};
use crate::reader::{opt_view, rest_at, Reader};
use crate::types::{fourcc_code, BoxType};
use vstd::prelude::*;

verus! {

/// The number of bytes of sample entry fields before the children.
pub const VIDEO_RESERVED_DATA_SIZE: u64 = 78;

#[derive(Debug, Clone, PartialEq, Eq, Default)]
pub struct EncvBox {
    pub avc1: Option<Avc1Box>,
    pub vp09: Option<Vp09Box>,
    pub sinf: SinfBox,
}

/// What an encv box holds, as mathematical values.
pub struct EncvBoxView {
    pub avc1: Option<Avc1BoxView>,
    pub vp09: Option<Vp09BoxView>,
    pub sinf: SinfBoxView,
}

impl View for EncvBox {
    type V = EncvBoxView;

    open spec fn view(&self) -> EncvBoxView {
        EncvBoxView { avc1: opt_view(self.avc1), vp09: opt_view(self.vp09), sinf: self.sinf@ }
    }
}

/// Looking for the protection scheme information among the children of an
/// encv box `size` bytes long, from position `p` of `d` up to `end`: the
/// first one found ends the search; other boxes are skipped. A child larger
/// than the box is refused, and so is one after which the reader would not
/// have moved forward.
pub open spec fn encv_scan(d: Seq<u8>, p: int, end: int, size: u64) -> Result<Option<SinfBoxView>>
    decreases (if p < end { end - p } else { 0 }),
{
    if p >= end {
        Ok(None)
    } else {
        match parse_header(rest_at(d, p)) {
            Err(e) => Err(e),
            Ok((h, n)) => {
                let q = p + n;
                let start = q - HEADER_SIZE;
                if h.size > size {
                    Err(Error::InvalidData("encv box contains a box with a larger size than it"))
                } else if h.name == BoxType::SinfBox {
                    match parse_sinf(d, q, h.size) {
                        Ok(v) => Ok(Some(v)),
                        Err(e) => Err(e),
                    }
                } else if start + h.size > u64::MAX {
                    Err(Error::InvalidData("box end out of range"))
                } else if start + h.size <= p {
                    Err(Error::InvalidData("box size too small"))
                } else {
                    encv_scan(d, start + h.size, end, size)
                }
            },
        }
    }
}

/// The encv box `size` bytes long whose header ends at position `p` of `d`:
/// the protection scheme information among its children, which must be
/// there, and, where the original format is `avc1` or `vp09`, the whole box
/// read again as a box of that format.
pub open spec fn parse_encv(d: Seq<u8>, p: int, size: u64) -> Result<EncvBoxView> {
    let start = p - HEADER_SIZE;
    if p + VIDEO_RESERVED_DATA_SIZE > u64::MAX || start + size > u64::MAX {
        Err(Error::InvalidData("box end out of range"))
    } else {
        match encv_scan(d, p + VIDEO_RESERVED_DATA_SIZE, start + size, size) {
            Err(e) => Err(e),
            Ok(None) => Err(Error::BoxNotFound(BoxType::SinfBox)),
            Ok(Some(sinf)) => if fourcc_code(sinf.frma.original_format) == 0x61766331u32 {
                match parse_avc1(d, p, size) {
                    Ok(v) => Ok(EncvBoxView { avc1: Some(v), vp09: None, sinf }),
                    Err(e) => Err(e),
                }
            } else if fourcc_code(sinf.frma.original_format) == 0x76703039u32 {
                match parse_vp09(rest_at(d, p), p, size) {
                    Ok(v) => Ok(EncvBoxView { avc1: None, vp09: Some(v), sinf }),
                    Err(e) => Err(e),
                }
            } else {
                Ok(EncvBoxView { avc1: None, vp09: None, sinf })
            },
        }
    }
}

/// The size of the encoding of `b`: the sample entry box stands in for the
/// header and sample entry fields.
pub open spec fn encv_size(b: EncvBoxView) -> int {
    (match b.avc1 {
        Some(a) => avc1_size(a),
        None => match b.vp09 {
            Some(v) => 106,
            None => 8 + VIDEO_RESERVED_DATA_SIZE,
        },
    }) + sinf_size(b.sinf)
}

/// The encoding of an encv box, header included: the sample entry box
/// without its header, or zeros, then the protection scheme information.
pub open spec fn encv_bytes(b: EncvBoxView) -> Seq<u8> {
    header_bytes(BoxType::EncvBox, encv_size(b) as u64) + (match b.avc1 {
        Some(a) => avc1_bytes(a).skip(8),
        None => match b.vp09 {
            Some(v) => vp09_bytes(v).skip(8),
            None => Seq::new(78, |i: int| 0u8),
        },
    }) + sinf_bytes(b.sinf)
}

impl EncvBox {
    pub fn get_type(&self) -> (t: BoxType)
        ensures
            t == BoxType::EncvBox,
    {
        BoxType::EncvBox
    }

    pub fn get_size(&self) -> (s: u64)
        requires
            self.has_size(),
        ensures
            s == encv_size(self@),
    {
        let mut size: u64 = 0;
        if let Some(avc1) = &self.avc1 {
            size = size + avc1.box_size();
        } else if let Some(vp09) = &self.vp09 {
            size = size + vp09.box_size();
        } else {
            size = size + HEADER_SIZE + VIDEO_RESERVED_DATA_SIZE;
        }
        size + self.sinf.box_size()
    }
}

impl Mp4Box for EncvBox {
    open spec fn has_size(&self) -> bool {
        &&& self.avc1 matches Some(a) ==> a.has_size()
        &&& encv_size(self@) <= u64::MAX
    }

    fn box_type(&self) -> (t: BoxType)
        ensures
            t == BoxType::EncvBox,
    {
        self.get_type()
    }

    fn box_size(&self) -> (s: u64)
        ensures
            s == encv_size(self@),
    {
        self.get_size()
    }
}

/// Looks for the protection scheme information among the children, up to
/// `end`.
#[verifier::spinoff_prover]
#[verifier::rlimit(40)]
fn find_encv_sinf(reader: &mut Reader, end: u64, size: u64) -> (res: Result<Option<SinfBox>>)
    requires
        old(reader).pos() >= HEADER_SIZE,
    ensures
        final(reader).data_seq() == old(reader).data_seq(),
        match res {
            Ok(r) => encv_scan(old(reader).data_seq(), old(reader).pos(), end as int, size) == Ok::<
                Option<SinfBoxView>,
                Error,
            >(opt_view(r)),
            Err(e) => encv_scan(old(reader).data_seq(), old(reader).pos(), end as int, size) == Err::<
                Option<SinfBoxView>,
                Error,
            >(e),
        },
{
    let ghost d = old(reader).data_seq();
    let ghost p0 = old(reader).pos();
    let mut current = reader.position();
    while current < end
        invariant
            reader.data_seq() == d,
            d == old(reader).data_seq(),
            p0 == old(reader).pos(),
            current == reader.pos(),
            current >= HEADER_SIZE,
            encv_scan(d, p0, end as int, size) == encv_scan(d, current as int, end as int, size),
        decreases (if current < end { end - current } else { 0 }),
    {
        assert(reader.rem() == rest_at(d, current as int));
        let header = BoxHeader::read(reader)?;
        if header.size > size {
            return Err(Error::InvalidData("encv box contains a box with a larger size than it"));
        }
        if header.name == BoxType::SinfBox {
            let sinf = SinfBox::read_box(reader, header.size)?;
            return Ok(Some(sinf));
        }
        skip_box(reader, header.size)?;
        let next = reader.position();
        if next <= current {
            return Err(Error::InvalidData("box size too small"));
        }
        current = next;
    }
    Ok(None)
}

impl ReadBox for EncvBox {
    open spec fn size_accepted(size: u64) -> bool {
        true
    }

    #[verifier::spinoff_prover]
    fn read_box(reader: &mut Reader, size: u64) -> (res: Result<Self>)
        ensures
            res is Ok ==> final(reader).pos() == old(reader).pos() - HEADER_SIZE + size,
            crate::mp4box::read_outcome(res, parse_encv(old(reader).data_seq(), old(reader).pos(), size)),
    {
        let ghost d = old(reader).data_seq();
        let ghost p0 = old(reader).pos();
        let start = box_start(reader);
        skip_bytes(reader, VIDEO_RESERVED_DATA_SIZE)?;
        if size > u64::MAX - start {
            return Err(Error::InvalidData("box end out of range"));
        }
        let end = start + size;
        let sinf = match find_encv_sinf(reader, end, size)? {
            Some(s) => s,
            None => {
                return Err(Error::BoxNotFound(BoxType::SinfBox));
            },
        };
        reader.seek_to(start + HEADER_SIZE);
        assert(reader.rem() == rest_at(d, p0));
        let mut avc1: Option<Avc1Box> = None;
        let mut vp09: Option<Vp09Box> = None;
        let original_format = sinf.frma.original_format.to_u32();
        if original_format == 0x61766331 {
            avc1 = Some(Avc1Box::read_box(reader, size)?);
        } else if original_format == 0x76703039 {
            vp09 = Some(Vp09Box::read_box(reader, size)?);
        }
        skip_bytes_to(reader, start, size)?;
        Ok(EncvBox { avc1, vp09, sinf })
    }
}

impl WriteBox for EncvBox {
    open spec fn writable(&self) -> bool {
        &&& self.has_size()
        &&& self.avc1 matches Some(a) ==> a.writable()
        &&& self.avc1 is None ==> (self.vp09 matches Some(v) ==> v.writable())
        &&& self.sinf.writable()
    }

    /// Writes the box: the sample entry box is encoded apart and its header
    /// replaced by that of the encv box.
    #[verifier::spinoff_prover]
    fn write_box(&self, writer: &mut Vec<u8>) -> (res: Result<u64>)
        ensures
            final(writer)@ == old(writer)@ + encv_bytes(self@),
            res == Ok::<u64, Error>(encv_size(self@) as u64),
    {
        let size = self.box_size();
        BoxHeader::new(self.box_type(), size).write(writer)?;
        let ghost w1 = writer@;
        if let Some(avc1) = &self.avc1 {
            let mut buf: Vec<u8> = Vec::new();
            avc1.write_box(&mut buf)?;
            assert(buf@ =~= avc1_bytes(avc1@));
            append_from(writer, &buf, 8);
        } else if let Some(vp09) = &self.vp09 {
            let mut buf: Vec<u8> = Vec::new();
            vp09.write_box(&mut buf)?;
            assert(buf@ =~= vp09_bytes(vp09@));
            append_from(writer, &buf, 8);
        } else {
            let mut i: usize = 0;
            while i < 78
                invariant
                    0 <= i <= 78,
                    writer@ == w1 + Seq::new(i as nat, |j: int| 0u8),
                decreases 78 - i,
            {
                writer.push(0);
                i = i + 1;
                assert(writer@ =~= w1 + Seq::new(i as nat, |j: int| 0u8));
            }
        }
        self.sinf.write_box(writer)?;
        assert(final(writer)@ =~= old(writer)@ + encv_bytes(self@));
        Ok(size)
    }
}


/// The code of the `avc1` format.
pub open spec fn avc1_code() -> u32 {
    0x61766331
}

/// The code of the `vp09` format.
pub open spec fn vp09_code() -> u32 {
    0x76703039
}

/// Whether the encoding of an encv box keeps all of it: an avc1 box is
/// there exactly where the original format is `avc1`, a vp09 box exactly
/// where it is `vp09`, each of them kept by its encoding, the protection
/// scheme information is kept, and the box size fits in 32 bits.
pub open spec fn encv_kept(b: EncvBoxView) -> bool {
    &&& sinf_kept(b.sinf)
    &&& (b.avc1 is Some) == (fourcc_code(b.sinf.frma.original_format) == avc1_code())
    &&& (b.vp09 is Some) == (fourcc_code(b.sinf.frma.original_format) == vp09_code())
    &&& b.avc1 matches Some(a) ==> avcc_kept(a.avcc)
    &&& b.vp09 matches Some(v) ==> vp09_kept(v)
    &&& encv_size(b) <= u32::MAX
}

/// The child box of the sample entry that an encv box holds before its
/// protection scheme information: the avcC box, the vpcc box, or none.
pub open spec fn encv_child_bytes(b: EncvBoxView) -> Seq<u8> {
    match b.avc1 {
        Some(a) => avcc_bytes(a.avcc),
        None => match b.vp09 {
            Some(v) => vpcc_bytes(v.vpcc),
            None => Seq::empty(),
        },
    }
}

/// Where the parts of an encoded encv box stand, its header before position
/// `p` of `d`.
#[verifier::spinoff_prover]
#[verifier::rlimit(40)]
proof fn lemma_encv_layout(b: EncvBoxView, d: Seq<u8>, p: int, r: Seq<u8>)
    requires
        encv_kept(b),
        8 <= p <= d.len() <= u64::MAX,
        rest_at(d, p - 8) == encv_bytes(b) + r,
    ensures
        encv_bytes(b).len() == encv_size(b),
        p + 78 + encv_child_bytes(b).len() + sinf_size(b.sinf) == p - 8 + encv_size(b),
        rest_at(d, p + 78) == encv_child_bytes(b) + (sinf_bytes(b.sinf) + r),
        sinf_bytes(b.sinf).len() == sinf_size(b.sinf),
        b.avc1 matches Some(a) ==> rest_at(d, p) == avc1_fields(a) + (avcc_bytes(a.avcc) + (sinf_bytes(b.sinf) + r)),
        b.avc1 is None ==> (b.vp09 matches Some(v) ==> rest_at(d, p) == (vp09_bytes(v) + (sinf_bytes(b.sinf) + r)).skip(
            8,
        )),
{
    let size = encv_size(b);
    let sb = sinf_bytes(b.sinf);
    lemma_sinf_len(b.sinf);
    let eb: Seq<u8> = match b.avc1 {
        Some(a) => avc1_bytes(a).skip(8),
        None => match b.vp09 {
            Some(v) => vp09_bytes(v).skip(8),
            None => Seq::new(78, |i: int| 0u8),
        },
    };
    let fb: Seq<u8> = match b.avc1 {
        Some(a) => avc1_fields(a),
        None => match b.vp09 {
            Some(v) => vp09_bytes(v).skip(8).take(78),
            None => Seq::new(78, |i: int| 0u8),
        },
    };
    match b.avc1 {
        Some(a) => {
            lemma_avc1_split(a);
            assert(eb =~= avc1_fields(a) + avcc_bytes(a.avcc));
        },
        None => match b.vp09 {
            Some(v) => {
                lemma_vp09_body(v, 8, 106, Seq::empty());
                lemma_vpcc_roundtrip(v.vpcc, Seq::empty());
                assert(vp09_bytes(v).skip(8) =~= crate::mp4box::vp09::vp09_body_bytes(v) + vpcc_bytes(v.vpcc));
                assert(eb =~= fb + vpcc_bytes(v.vpcc)) by {
                    reveal(crate::mp4box::vp09::vp09_body_bytes);
                }
            },
            None => {},
        },
    }
    assert(eb =~= fb + encv_child_bytes(b));
    assert(fb.len() == 78);
    assert(header_bytes(BoxType::EncvBox, size as u64).len() == 8);
    assert(encv_bytes(b) =~= header_bytes(BoxType::EncvBox, size as u64) + (eb + sb));
    assert(d.skip(p) =~= d.skip(p - 8).skip(8));
    assert(rest_at(d, p) =~= eb + (sb + r));
    assert(d.skip(p + 78) =~= d.skip(p).skip(78));
    assert(rest_at(d, p + 78) =~= encv_child_bytes(b) + (sb + r));
    if let Some(v) = b.vp09 {
        if b.avc1 is None {
            assert(rest_at(d, p) =~= (vp09_bytes(v) + (sb + r)).skip(8));
        }
    }
}

/// A box at position `q` of `d` that is not protection scheme information
/// is skipped while looking for it among the children of an encv box.
#[verifier::spinoff_prover]
proof fn lemma_encv_scan_skip(d: Seq<u8>, q: int, end: int, size: u64, name: BoxType, n: u64, rest: Seq<u8>)
    requires
        8 <= q,
        q + n < end,
        end <= d.len() <= u64::MAX,
        8 <= n <= size,
        n <= u32::MAX,
        name != BoxType::SinfBox,
        !(name is UnknownBox),
        rest_at(d, q) == header_bytes(name, n) + rest,
    ensures
        encv_scan(d, q, end, size) == encv_scan(d, q + n, end, size),
{
    lemma_header_roundtrip(name, n, rest);
}

/// Encoded protection scheme information at position `q` of `d`, ending
/// the children of an encv box, is found there.
#[verifier::spinoff_prover]
proof fn lemma_encv_scan_sinf(d: Seq<u8>, q: int, end: int, size: u64, x: SinfBoxView, r: Seq<u8>)
    requires
        sinf_kept(x),
        8 <= q,
        q + sinf_size(x) == end,
        end <= d.len() <= u64::MAX,
        sinf_size(x) <= size,
        rest_at(d, q) == sinf_bytes(x) + r,
    ensures
        encv_scan(d, q, end, size) == Ok::<Option<SinfBoxView>, Error>(Some(x)),
{
    lemma_sinf_len(x);
    let sb = sinf_bytes(x);
    let ss = sinf_size(x);
    lemma_sinf_roundtrip(x, d, q + 8, r);
    lemma_header_roundtrip(BoxType::SinfBox, ss as u64, sb.skip(8) + r);
    assert(sb + r =~= header_bytes(BoxType::SinfBox, ss as u64) + (sb.skip(8) + r));
}

/// Looking for the protection scheme information among the children of an
/// encv box, from position `q` of `d` where one box `cb` of another kind,
/// if any, comes before it, finds it.
#[verifier::spinoff_prover]
#[verifier::rlimit(40)]
proof fn lemma_encv_scan_from(
    d: Seq<u8>,
    q: int,
    end: int,
    size: u64,
    name: BoxType,
    cb: Seq<u8>,
    x: SinfBoxView,
    r: Seq<u8>,
)
    requires
        sinf_kept(x),
        8 <= q,
        q + cb.len() + sinf_size(x) == end,
        end <= d.len() <= u64::MAX,
        sinf_size(x) <= size,
        cb.len() > 0 ==> 8 <= cb.len() <= size && cb.len() <= u32::MAX && name != BoxType::SinfBox && !(name is UnknownBox)
            && cb == header_bytes(name, cb.len() as u64) + cb.skip(8),
        rest_at(d, q) == cb + (sinf_bytes(x) + r),
    ensures
        encv_scan(d, q, end, size) == Ok::<Option<SinfBoxView>, Error>(Some(x)),
{
    lemma_sinf_len(x);
    let sb = sinf_bytes(x);
    let q2 = q + cb.len();
    assert(d.skip(q2) =~= d.skip(q).skip(cb.len() as int));
    assert(rest_at(d, q2) =~= sb + r);
    lemma_encv_scan_sinf(d, q2, end, size, x, r);
    if cb.len() > 0 {
        assert(cb + (sb + r) =~= header_bytes(name, cb.len() as u64) + (cb.skip(8) + (sb + r)));
        lemma_encv_scan_skip(d, q, end, size, name, cb.len() as u64, cb.skip(8) + (sb + r));
    }
}

/// The kind of the child box of the sample entry that an encv box holds
/// before its protection scheme information.
pub open spec fn encv_child_type(b: EncvBoxView) -> BoxType {
    if b.avc1 is Some {
        BoxType::AvcCBox
    } else {
        BoxType::VpccBox
    }
}

/// Looking for the protection scheme information of an encoded encv box,
/// its header before position `p` of `d`, finds it after the configuration
/// box of the sample entry, if any.
#[verifier::spinoff_prover]
#[verifier::rlimit(40)]
proof fn lemma_encv_find_sinf(b: EncvBoxView, d: Seq<u8>, p: int, r: Seq<u8>)
    requires
        encv_kept(b),
        8 <= p <= d.len() <= u64::MAX,
        rest_at(d, p - 8) == encv_bytes(b) + r,
    ensures
        encv_scan(d, p + 78, p - 8 + encv_size(b), encv_size(b) as u64) == Ok::<Option<SinfBoxView>, Error>(
            Some(b.sinf),
        ),
{
    lemma_encv_layout(b, d, p, r);
    lemma_sinf_len(b.sinf);
    let cb = encv_child_bytes(b);
    match b.avc1 {
        Some(a) => {
            lemma_avc1_split(a);
            assert(cb =~= header_bytes(BoxType::AvcCBox, cb.len() as u64) + cb.skip(8)) by {
                crate::mp4box::avc1::lemma_avcc_split(a.avcc);
            }
        },
        None => match b.vp09 {
            Some(v) => {
                lemma_vpcc_roundtrip(v.vpcc, Seq::empty());
                assert(cb =~= header_bytes(BoxType::VpccBox, 20) + cb.skip(8));
            },
            None => {},
        },
    }
    lemma_encv_scan_from(d, p + 78, p - 8 + encv_size(b), encv_size(b) as u64, encv_child_type(b), cb, b.sinf, r);
}

/// Reading an encoded encv box, its header before position `p` of `d`,
/// gives it back, where its encoding keeps all of it.
#[verifier::spinoff_prover]
#[verifier::rlimit(40)]
pub proof fn lemma_encv_roundtrip(b: EncvBoxView, d: Seq<u8>, p: int, r: Seq<u8>)
    requires
        encv_kept(b),
        8 <= p <= d.len() <= u64::MAX,
        rest_at(d, p - 8) == encv_bytes(b) + r,
    ensures
        encv_bytes(b).len() == encv_size(b),
        parse_encv(d, p, encv_size(b) as u64) == Ok::<EncvBoxView, Error>(b),
{
    lemma_encv_layout(b, d, p, r);
    lemma_encv_find_sinf(b, d, p, r);
    let size = encv_size(b);
    let sb = sinf_bytes(b.sinf);
    match b.avc1 {
        Some(a) => {
            lemma_avc1_split(a);
            lemma_avc1_body(a, d, p, size as u64, sb + r);
        },
        None => match b.vp09 {
            Some(v) => {
                lemma_vp09_body(v, p, size as u64, sb + r);
            },
            None => {},
        },
    }
}

} // verus!
