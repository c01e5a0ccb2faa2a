//! The protection scheme information box: the original format of a
//! protected sample entry and the scheme that protects it.
use crate::error::{Error, Result};
use crate::mp4box::frma::{frma_bytes, lemma_frma_roundtrip, parse_frma, FrmaBox};
use crate::mp4box::schi::{
    lemma_schi_len, lemma_schi_roundtrip, parse_schi, schi_bytes, schi_kept, schi_size, SchiBox, SchiBoxView,
};
use crate::mp4box::schm::{lemma_schm_roundtrip, parse_schm, schm_bytes, SchmBox};
use crate::mp4box::traf::ended;
use crate::mp4box::{
    box_start, header_bytes, lemma_header_roundtrip, parse_header, read_outcome, skip_box, skip_bytes_to, BoxHeader, Mp4Box, ReadBox,
    WriteBox, HEADER_SIZE,
};
use crate::reader::{opt_view, rest_at, Reader};
use crate::types::BoxType;
use vstd::prelude::*;

verus! {

#[derive(Debug, Clone, PartialEq, Eq, Default)]
pub struct SinfBox {
    pub frma: FrmaBox,
    pub schm: Option<SchmBox>,
    pub schi: Option<SchiBox>,
}

/// What a sinf box holds, as mathematical values.
pub struct SinfBoxView {
    pub frma: FrmaBox,
    pub schm: Option<SchmBox>,
    pub schi: Option<SchiBoxView>,
}

impl View for SinfBox {
    type V = SinfBoxView;

    open spec fn view(&self) -> SinfBoxView {
        SinfBoxView { frma: self.frma, schm: self.schm, schi: opt_view(self.schi) }
    }
}

/// The boxes found so far while reading a sinf box.
pub struct SinfFound {
    pub frma: Option<FrmaBox>,
    pub schm: Option<SchmBox>,
    pub schi: Option<SchiBoxView>,
}

/// Reading the child box whose header `h` ends at position `q` of `d`: a
/// later box of a kind replaces an earlier one; boxes of other kinds are
/// skipped.
pub open spec fn sinf_child(d: Seq<u8>, q: int, h: BoxHeader, found: SinfFound) -> Result<(SinfFound, int)> {
    let body = rest_at(d, q);
    let start = q - HEADER_SIZE;
    if h.name == BoxType::FrmaBox {
        match ended(parse_frma(body), start, h.size) {
            Ok((v, e)) => Ok((SinfFound { frma: Some(v), ..found }, e)),
            Err(e) => Err(e),
        }
    } else if h.name == BoxType::SchmBox {
        match ended(parse_schm(body), start, h.size) {
            Ok((v, e)) => Ok((SinfFound { schm: Some(v), ..found }, e)),
            Err(e) => Err(e),
        }
    } else if h.name == BoxType::SchiBox {
        match parse_schi(d, q, h.size) {
            Ok(v) => Ok((SinfFound { schi: Some(v), ..found }, start + h.size)),
            Err(e) => Err(e),
        }
    } else if start + h.size > u64::MAX {
        Err(Error::InvalidData("box end out of range"))
    } else {
        Ok((found, start + h.size))
    }
}

/// Reading the children of a sinf box `size` bytes long from position `p`
/// of `d` up to `end`. A child larger than the box is refused, and so is
/// one after which the reader would not have moved forward.
pub open spec fn sinf_scan(d: Seq<u8>, p: int, end: int, size: u64, found: SinfFound) -> Result<SinfFound>
    decreases end - p,
{
    if p >= end {
        Ok(found)
    } else {
        match parse_header(rest_at(d, p)) {
            Err(e) => Err(e),
            Ok((h, n)) => if h.size > size {
                Err(Error::InvalidData("sinf box contains a box with a larger size than it"))
            } else {
                match sinf_child(d, p + n, h, found) {
                    Err(e) => Err(e),
                    Ok((f2, q)) => if q <= p {
                        Err(Error::InvalidData("box size too small"))
                    } else if q >= end {
                        Ok(f2)
                    } else {
                        sinf_scan(d, q, end, size, f2)
                    },
                }
            },
        }
    }
}

/// The sinf box `size` bytes long whose header ends at position `p` of `d`:
/// its children up to its end, of which an original format box must be
/// one.
pub open spec fn parse_sinf(d: Seq<u8>, p: int, size: u64) -> Result<SinfBoxView> {
    let start = p - HEADER_SIZE;
    if start + size > u64::MAX {
        Err(Error::InvalidData("box end out of range"))
    } else {
        match sinf_scan(d, p, start + size, size, SinfFound { frma: None, schm: None, schi: None }) {
            Err(e) => Err(e),
            Ok(f) => match f.frma {
                None => Err(Error::BoxNotFound(BoxType::FrmaBox)),
                Some(frma) => Ok(SinfBoxView { frma, schm: f.schm, schi: f.schi }),
            },
        }
    }
}

/// The size of the encoding of `b`.
pub open spec fn sinf_size(b: SinfBoxView) -> int {
    8 + 12 + (if b.schm is Some { 20int } else { 0int }) + match b.schi {
        Some(x) => schi_size(x),
        None => 0,
    }
}

/// The encoding of a sinf box, header included.
pub open spec fn sinf_bytes(b: SinfBoxView) -> Seq<u8> {
    header_bytes(BoxType::SinfBox, sinf_size(b) as u64) + frma_bytes(b.frma) + (match b.schm {
        Some(x) => schm_bytes(x),
        None => Seq::empty(),
    }) + match b.schi {
        Some(x) => schi_bytes(x),
        None => Seq::empty(),
    }
}

impl SinfBox {
    pub fn get_type(&self) -> (t: BoxType)
        ensures
            t == BoxType::SinfBox,
    {
        BoxType::SinfBox
    }

    pub fn get_size(&self) -> (s: u64)
        ensures
            s == sinf_size(self@),
    {
        let mut size = HEADER_SIZE + self.frma.box_size();
        if let Some(schm) = &self.schm {
            size = size + schm.box_size();
        }
        if let Some(schi) = &self.schi {
            size = size + schi.box_size();
        }
        size
    }
}

impl Mp4Box for SinfBox {
    open spec fn has_size(&self) -> bool {
        true
    }

    fn box_type(&self) -> (t: BoxType)
        ensures
            t == BoxType::SinfBox,
    {
        self.get_type()
    }

    fn box_size(&self) -> (s: u64)
        ensures
            s == sinf_size(self@),
    {
        self.get_size()
    }
}

/// What has been found, from the boxes read so far.
pub open spec fn sinf_found(frma: Option<FrmaBox>, schm: Option<SchmBox>, schi: Option<SchiBox>) -> SinfFound {
    SinfFound { frma, schm, schi: opt_view(schi) }
}

/// Reads the child box whose header `h` was just read into the slot for its
/// kind, or skips it.
fn read_sinf_child(
    reader: &mut Reader,
    h: BoxHeader,
    frma: &mut Option<FrmaBox>,
    schm: &mut Option<SchmBox>,
    schi: &mut Option<SchiBox>,
) -> (res: Result<()>)
    requires
        old(reader).pos() >= HEADER_SIZE,
    ensures
        final(reader).data_seq() == old(reader).data_seq(),
        match res {
            Ok(_) => sinf_child(old(reader).data_seq(), old(reader).pos(), h, sinf_found(*old(frma), *old(schm), *old(schi)))
                == Ok::<(SinfFound, int), Error>((sinf_found(*final(frma), *final(schm), *final(schi)), final(reader).pos())),
            Err(e) => sinf_child(old(reader).data_seq(), old(reader).pos(), h, sinf_found(*old(frma), *old(schm), *old(schi)))
                == Err::<(SinfFound, int), Error>(e),
        },
{
    assert(reader.rem() == rest_at(reader.data_seq(), reader.pos()));
    if h.name == BoxType::FrmaBox {
        *frma = Some(FrmaBox::read_box(reader, h.size)?);
    } else if h.name == BoxType::SchmBox {
        *schm = Some(SchmBox::read_box(reader, h.size)?);
    } else if h.name == BoxType::SchiBox {
        *schi = Some(SchiBox::read_box(reader, h.size)?);
    } else {
        skip_box(reader, h.size)?;
    }
    Ok(())
}

impl ReadBox for SinfBox {
    open spec fn size_accepted(size: u64) -> bool {
        true
    }

    #[verifier::spinoff_prover]
    fn read_box(reader: &mut Reader, size: u64) -> (res: Result<Self>)
        ensures
            res is Ok ==> final(reader).pos() == old(reader).pos() - HEADER_SIZE + size,
            read_outcome(res, parse_sinf(old(reader).data_seq(), old(reader).pos(), size)),
    {
        let ghost d = old(reader).data_seq();
        let ghost p0 = old(reader).pos();
        let start = box_start(reader);
        if size > u64::MAX - start {
            return Err(Error::InvalidData("box end out of range"));
        }
        let end = start + size;
        let mut frma: Option<FrmaBox> = None;
        let mut schm: Option<SchmBox> = None;
        let mut schi: Option<SchiBox> = None;
        let mut current = reader.position();
        while current < end
            invariant
                reader.data_seq() == d,
                d == old(reader).data_seq(),
                p0 == old(reader).pos(),
                p0 >= HEADER_SIZE,
                start == p0 - HEADER_SIZE,
                current == reader.pos(),
                end == p0 - HEADER_SIZE + size,
                sinf_scan(d, p0, end as int, size, SinfFound { frma: None, schm: None, schi: None }) == sinf_scan(
                    d,
                    current as int,
                    end as int,
                    size,
                    sinf_found(frma, schm, schi),
                ),
            decreases (if current < end { end - current } else { 0 }),
        {
            assert(reader.rem() == rest_at(d, current as int));
            let header = BoxHeader::read(reader)?;
            if header.size > size {
                return Err(Error::InvalidData("sinf box contains a box with a larger size than it"));
            }
            read_sinf_child(reader, header, &mut frma, &mut schm, &mut schi)?;
            let next = reader.position();
            if next <= current {
                return Err(Error::InvalidData("box size too small"));
            }
            current = next;
        }
        let frma = match frma {
            Some(x) => x,
            None => {
                return Err(Error::BoxNotFound(BoxType::FrmaBox));
            },
        };
        skip_bytes_to(reader, start, size)?;
        Ok(SinfBox { frma, schm, schi })
    }
}

impl WriteBox for SinfBox {
    open spec fn writable(&self) -> bool {
        true
    }

    #[verifier::spinoff_prover]
    fn write_box(&self, writer: &mut Vec<u8>) -> (res: Result<u64>)
        ensures
            final(writer)@ == old(writer)@ + sinf_bytes(self@),
            res == Ok::<u64, Error>(sinf_size(self@) as u64),
    {
        let size = self.box_size();
        BoxHeader::new(self.box_type(), size).write(writer)?;
        self.frma.write_box(writer)?;
        let ghost w1 = writer@;
        if let Some(schm) = &self.schm {
            schm.write_box(writer)?;
        }
        let ghost w2 = writer@;
        if let Some(schi) = &self.schi {
            schi.write_box(writer)?;
        }
        assert(final(writer)@ =~= old(writer)@ + sinf_bytes(self@));
        Ok(size)
    }
}


/// Reading an encoded frma box at position `p` of `d` inside a sinf box.
#[verifier::spinoff_prover]
proof fn lemma_sinf_frma_step(d: Seq<u8>, p: int, end: int, size: u64, found: SinfFound, x: FrmaBox, r: Seq<u8>)
    requires
        8 <= p < end,
        p + 12 <= d.len() <= u64::MAX,
        12 <= size,
        rest_at(d, p) == frma_bytes(x) + r,
    ensures
        sinf_scan(d, p, end, size, found) == (if p + 12 >= end {
            Ok::<SinfFound, Error>(SinfFound { frma: Some(x), ..found })
        } else {
            sinf_scan(d, p + 12, end, size, SinfFound { frma: Some(x), ..found })
        }),
{
    lemma_frma_roundtrip(x, r);
    let b = frma_bytes(x);
    lemma_header_roundtrip(BoxType::FrmaBox, 12, b.skip(8) + r);
    assert(b + r =~= header_bytes(BoxType::FrmaBox, 12) + (b.skip(8) + r));
    assert(d.skip(p + 8) =~= d.skip(p).skip(8));
}

/// Reading an encoded schm box at position `p` of `d` inside a sinf box.
#[verifier::spinoff_prover]
#[verifier::rlimit(40)]
proof fn lemma_sinf_schm_step(d: Seq<u8>, p: int, end: int, size: u64, found: SinfFound, x: SchmBox, r: Seq<u8>)
    requires
        8 <= p < end,
        p + 20 <= d.len() <= u64::MAX,
        20 <= size,
        rest_at(d, p) == schm_bytes(x) + r,
    ensures
        sinf_scan(d, p, end, size, found) == (if p + 20 >= end {
            Ok::<SinfFound, Error>(SinfFound { schm: Some(x), ..found })
        } else {
            sinf_scan(d, p + 20, end, size, SinfFound { schm: Some(x), ..found })
        }),
{
    lemma_schm_roundtrip(x, r);
    let b = schm_bytes(x);
    lemma_header_roundtrip(BoxType::SchmBox, 20, b.skip(8) + r);
    assert(b + r =~= header_bytes(BoxType::SchmBox, 20) + (b.skip(8) + r));
    assert(d.skip(p + 8) =~= d.skip(p).skip(8));
    assert(parse_header(rest_at(d, p)) == Ok::<(BoxHeader, int), Error>((BoxHeader { name: BoxType::SchmBox, size: 20 }, 8)));
    assert(parse_schm(rest_at(d, p + 8)) == Ok::<SchmBox, Error>(x));
    assert(sinf_child(d, p + 8, BoxHeader { name: BoxType::SchmBox, size: 20 }, found) == Ok::<(SinfFound, int), Error>(
        (SinfFound { schm: Some(x), ..found }, p + 20),
    ));
}

/// Reading an encoded schi box at position `p` of `d` inside a sinf box.
#[verifier::spinoff_prover]
proof fn lemma_sinf_schi_step(d: Seq<u8>, p: int, end: int, size: u64, found: SinfFound, x: SchiBoxView, r: Seq<u8>)
    requires
        8 <= p < end,
        p + schi_size(x) <= d.len() <= u64::MAX,
        schi_kept(x),
        schi_size(x) <= size,
        rest_at(d, p) == schi_bytes(x) + r,
    ensures
        sinf_scan(d, p, end, size, found) == (if p + schi_size(x) >= end {
            Ok::<SinfFound, Error>(SinfFound { schi: Some(x), ..found })
        } else {
            sinf_scan(d, p + schi_size(x), end, size, SinfFound { schi: Some(x), ..found })
        }),
{
    lemma_schi_len(x);
    let n = schi_size(x);
    let b = schi_bytes(x);
    lemma_header_roundtrip(BoxType::SchiBox, n as u64, b.skip(8) + r);
    assert(b + r =~= header_bytes(BoxType::SchiBox, n as u64) + (b.skip(8) + r));
    lemma_schi_roundtrip(x, d, p + 8, r);
}

/// Whether the encoding of a sinf box keeps all of it: its schi box, if
/// any, is kept.
pub open spec fn sinf_kept(b: SinfBoxView) -> bool {
    b.schi matches Some(x) ==> schi_kept(x)
}

/// Reading the schm and schi boxes of an encoded sinf box, which follow
/// its frma box at position `p` of `d`.
#[verifier::spinoff_prover]
#[verifier::rlimit(40)]
proof fn lemma_sinf_after_frma(b: SinfBoxView, d: Seq<u8>, p: int, end: int, size: u64, r: Seq<u8>)
    requires
        sinf_kept(b),
        8 <= p < end,
        end <= d.len() <= u64::MAX,
        size == sinf_size(b),
        rest_at(d, p) == (match b.schm {
            Some(x) => schm_bytes(x),
            None => Seq::empty(),
        }) + ((match b.schi {
            Some(x) => schi_bytes(x),
            None => Seq::empty(),
        }) + r),
        end == p + (if b.schm is Some { 20int } else { 0int }) + match b.schi {
            Some(x) => schi_size(x),
            None => 0,
        },
    ensures
        sinf_scan(d, p, end, size, SinfFound { frma: Some(b.frma), schm: None, schi: None }) == Ok::<
            SinfFound,
            Error,
        >(SinfFound { frma: Some(b.frma), schm: b.schm, schi: b.schi }),
{
    let f1 = SinfFound { frma: Some(b.frma), schm: None, schi: None };
    let f2 = SinfFound { schm: b.schm, ..f1 };
    let ib = match b.schi {
        Some(x) => schi_bytes(x),
        None => Seq::empty(),
    };
    if let Some(x) = b.schi {
        lemma_schi_len(x);
    }
    let p2 = if b.schm is Some { p + 20 } else { p };
    if let Some(x) = b.schm {
        lemma_schm_roundtrip(x, Seq::empty());
        lemma_sinf_schm_step(d, p, end, size, f1, x, ib + r);
        assert(d.skip(p2) =~= d.skip(p).skip(20));
    }
    assert(rest_at(d, p2) =~= ib + r);
    if let Some(x) = b.schi {
        lemma_sinf_schi_step(d, p2, end, size, f2, x, r);
    }
}

/// The encoding of the schm box of a sinf box, if any.
pub open spec fn sinf_schm_bytes(b: SinfBoxView) -> Seq<u8> {
    match b.schm {
        Some(x) => schm_bytes(x),
        None => Seq::empty(),
    }
}

/// The encoding of the schi box of a sinf box, if any.
pub open spec fn sinf_schi_bytes(b: SinfBoxView) -> Seq<u8> {
    match b.schi {
        Some(x) => schi_bytes(x),
        None => Seq::empty(),
    }
}

/// Where the parts of an encoded sinf box stand, its header before
/// position `p` of `d`.
#[verifier::spinoff_prover]
#[verifier::rlimit(40)]
proof fn lemma_sinf_layout(b: SinfBoxView, d: Seq<u8>, p: int, r: Seq<u8>)
    requires
        sinf_kept(b),
        8 <= p <= d.len(),
        rest_at(d, p - 8) == sinf_bytes(b) + r,
    ensures
        sinf_bytes(b).len() == sinf_size(b),
        rest_at(d, p) == frma_bytes(b.frma) + (sinf_schm_bytes(b) + (sinf_schi_bytes(b) + r)),
        sinf_schm_bytes(b).len() == (if b.schm is Some { 20int } else { 0int }),
        sinf_schi_bytes(b).len() == match b.schi {
            Some(x) => schi_size(x),
            None => 0,
        },
        sinf_size(b) <= 8 + 12 + 20 + 8 + 32 + 1 + 255,
{
    let size = sinf_size(b);
    let fb = frma_bytes(b.frma);
    let mb = sinf_schm_bytes(b);
    let ib = sinf_schi_bytes(b);
    lemma_frma_roundtrip(b.frma, Seq::empty());
    if let Some(x) = b.schm {
        lemma_schm_roundtrip(x, Seq::empty());
    }
    if let Some(x) = b.schi {
        lemma_schi_len(x);
    }
    assert(header_bytes(BoxType::SinfBox, size as u64).len() == 8);
    assert(sinf_bytes(b) =~= header_bytes(BoxType::SinfBox, size as u64) + (fb + (mb + ib)));
    assert(d.skip(p) =~= d.skip(p - 8).skip(8));
    assert(rest_at(d, p) =~= fb + (mb + (ib + r)));
}

/// Reading an encoded sinf box, its header before position `p` of `d`,
/// gives it back, where its encoding keeps all of it.
#[verifier::spinoff_prover]
#[verifier::rlimit(40)]
pub proof fn lemma_sinf_roundtrip(b: SinfBoxView, d: Seq<u8>, p: int, r: Seq<u8>)
    requires
        sinf_kept(b),
        8 <= p <= d.len() <= u64::MAX,
        rest_at(d, p - 8) == sinf_bytes(b) + r,
    ensures
        sinf_bytes(b).len() == sinf_size(b),
        parse_sinf(d, p, sinf_size(b) as u64) == Ok::<SinfBoxView, Error>(b),
{
    let size = sinf_size(b);
    let end = p + size - 8;
    let mb = sinf_schm_bytes(b);
    let ib = sinf_schi_bytes(b);
    lemma_sinf_layout(b, d, p, r);
    let f0 = SinfFound { frma: None, schm: None, schi: None };
    let fin = SinfFound { frma: Some(b.frma), schm: b.schm, schi: b.schi };
    lemma_sinf_frma_step(d, p, end, size as u64, f0, b.frma, mb + (ib + r));
    let p1 = p + 12;
    if p1 < end {
        assert(d.skip(p1) =~= d.skip(p).skip(12));
        assert(rest_at(d, p1) =~= mb + (ib + r));
        lemma_sinf_after_frma(b, d, p1, end, size as u64, r);
    } else {
        assert(b.schm is None && b.schi is None);
    }
    assert(sinf_scan(d, p, end, size as u64, f0) == Ok::<SinfFound, Error>(fin));
}


/// An encoded sinf box that is kept takes as many bytes as its size, which
/// is small.
pub proof fn lemma_sinf_len(b: SinfBoxView)
    requires
        sinf_kept(b),
    ensures
        sinf_bytes(b).len() == sinf_size(b),
        20 <= sinf_size(b) <= 8 + 12 + 20 + 8 + 32 + 1 + 255,
{
    lemma_frma_roundtrip(b.frma, Seq::empty());
    if let Some(x) = b.schm {
        lemma_schm_roundtrip(x, Seq::empty());
    }
    if let Some(x) = b.schi {
        lemma_schi_len(x);
    }
    assert(header_bytes(BoxType::SinfBox, sinf_size(b) as u64).len() == 8);
}

} // verus!
