//! The scheme information box: the track encryption box of a protected
//! track.
use crate::error::{Error, Result};
use crate::mp4box::tenc::{lemma_tenc_roundtrip, parse_tenc, tenc_bytes, tenc_kept, tenc_size, TencBox, TencBoxView};
use crate::mp4box::traf::ended;
use crate::mp4box::{
    box_start, header_bytes, lemma_header_roundtrip, parse_header, read_outcome, skip_box, skip_bytes_to, BoxHeader, Mp4Box, ReadBox,
    WriteBox, HEADER_SIZE,
};
use crate::reader::{opt_view, rest_at, Reader};
use crate::types::BoxType;
use vstd::prelude::*;

verus! {

#[derive(Debug, Clone, PartialEq, Eq, Default)]
pub struct SchiBox {
    pub tenc: Option<TencBox>,
}

/// What a schi box holds, as mathematical values.
pub struct SchiBoxView {
    pub tenc: Option<TencBoxView>,
}

impl View for SchiBox {
    type V = SchiBoxView;

    open spec fn view(&self) -> SchiBoxView {
        SchiBoxView { tenc: opt_view(self.tenc) }
    }
}

/// Reading the child box whose header `h` ends at position `q` of `d`: a
/// tenc box is read, replacing one found before; others are skipped.
pub open spec fn schi_child(d: Seq<u8>, q: int, h: BoxHeader, found: Option<TencBoxView>) -> Result<
    (Option<TencBoxView>, int),
> {
    let start = q - HEADER_SIZE;
    if h.name == BoxType::TencBox {
        match ended(parse_tenc(rest_at(d, q)), start, h.size) {
            Ok((v, e)) => Ok((Some(v), e)),
            Err(e) => Err(e),
        }
    } else if start + h.size > u64::MAX {
        Err(Error::InvalidData("box end out of range"))
    } else {
        Ok((found, start + h.size))
    }
}

/// Reading the children of a schi box `size` bytes long from position `p`
/// of `d` up to `end`. A child larger than the box is refused, and so is
/// one after which the reader would not have moved forward.
pub open spec fn schi_scan(d: Seq<u8>, p: int, end: int, size: u64, found: Option<TencBoxView>) -> Result<
    Option<TencBoxView>,
>
    decreases end - p,
{
    if p >= end {
        Ok(found)
    } else {
        match parse_header(rest_at(d, p)) {
            Err(e) => Err(e),
            Ok((h, n)) => if h.size > size {
                Err(Error::InvalidData("schi box contains a box with a larger size than it"))
            } else {
                match schi_child(d, p + n, h, found) {
                    Err(e) => Err(e),
                    Ok((f2, q)) => if q <= p {
                        Err(Error::InvalidData("box size too small"))
                    } else if q >= end {
                        Ok(f2)
                    } else {
                        schi_scan(d, q, end, size, f2)
                    },
                }
            },
        }
    }
}

/// The schi box `size` bytes long whose header ends at position `p` of `d`.
pub open spec fn parse_schi(d: Seq<u8>, p: int, size: u64) -> Result<SchiBoxView> {
    let start = p - HEADER_SIZE;
    if start + size > u64::MAX {
        Err(Error::InvalidData("box end out of range"))
    } else {
        match schi_scan(d, p, start + size, size, None) {
            Err(e) => Err(e),
            Ok(tenc) => Ok(SchiBoxView { tenc }),
        }
    }
}

/// The size of the encoding of `b`.
pub open spec fn schi_size(b: SchiBoxView) -> int {
    8 + match b.tenc {
        Some(t) => tenc_size(t),
        None => 0,
    }
}

/// The encoding of a schi box, header included.
pub open spec fn schi_bytes(b: SchiBoxView) -> Seq<u8> {
    header_bytes(BoxType::SchiBox, schi_size(b) as u64) + match b.tenc {
        Some(t) => tenc_bytes(t),
        None => Seq::empty(),
    }
}

impl SchiBox {
    pub fn get_type(&self) -> (t: BoxType)
        ensures
            t == BoxType::SchiBox,
    {
        BoxType::SchiBox
    }

    pub fn get_size(&self) -> (s: u64)
        ensures
            s == schi_size(self@),
    {
        let mut size = HEADER_SIZE;
        if let Some(tenc) = &self.tenc {
            size = size + tenc.box_size();
        }
        size
    }
}

impl Mp4Box for SchiBox {
    open spec fn has_size(&self) -> bool {
        true
    }

    fn box_type(&self) -> (t: BoxType)
        ensures
            t == BoxType::SchiBox,
    {
        self.get_type()
    }

    fn box_size(&self) -> (s: u64)
        ensures
            s == schi_size(self@),
    {
        self.get_size()
    }
}

/// Reads the child box whose header `h` was just read into `tenc`, or
/// skips it.
fn read_schi_child(reader: &mut Reader, h: BoxHeader, tenc: &mut Option<TencBox>) -> (res: Result<()>)
    requires
        old(reader).pos() >= HEADER_SIZE,
    ensures
        final(reader).data_seq() == old(reader).data_seq(),
        match res {
            Ok(_) => schi_child(old(reader).data_seq(), old(reader).pos(), h, opt_view(*old(tenc))) == Ok::<
                (Option<TencBoxView>, int),
                Error,
            >((opt_view(*final(tenc)), final(reader).pos())),
            Err(e) => schi_child(old(reader).data_seq(), old(reader).pos(), h, opt_view(*old(tenc))) == Err::<
                (Option<TencBoxView>, int),
                Error,
            >(e),
        },
{
    assert(reader.rem() == rest_at(reader.data_seq(), reader.pos()));
    if h.name == BoxType::TencBox {
        *tenc = Some(TencBox::read_box(reader, h.size)?);
    } else {
        skip_box(reader, h.size)?;
    }
    Ok(())
}

impl ReadBox for SchiBox {
    open spec fn size_accepted(size: u64) -> bool {
        true
    }

    #[verifier::spinoff_prover]
    fn read_box(reader: &mut Reader, size: u64) -> (res: Result<Self>)
        ensures
            res is Ok ==> final(reader).pos() == old(reader).pos() - HEADER_SIZE + size,
            read_outcome(res, parse_schi(old(reader).data_seq(), old(reader).pos(), size)),
    {
        let ghost d = old(reader).data_seq();
        let ghost p0 = old(reader).pos();
        let start = box_start(reader);
        if size > u64::MAX - start {
            return Err(Error::InvalidData("box end out of range"));
        }
        let end = start + size;
        let mut tenc: Option<TencBox> = None;
        let mut current = reader.position();
        while current < end
            invariant
                reader.data_seq() == d,
                d == old(reader).data_seq(),
                p0 == old(reader).pos(),
                p0 >= HEADER_SIZE,
                start == p0 - HEADER_SIZE,
                current == reader.pos(),
                end == p0 - HEADER_SIZE + size,
                schi_scan(d, p0, end as int, size, None) == schi_scan(d, current as int, end as int, size, opt_view(tenc)),
            decreases (if current < end { end - current } else { 0 }),
        {
            assert(reader.rem() == rest_at(d, current as int));
            let header = BoxHeader::read(reader)?;
            if header.size > size {
                return Err(Error::InvalidData("schi box contains a box with a larger size than it"));
            }
            read_schi_child(reader, header, &mut tenc)?;
            let next = reader.position();
            if next <= current {
                return Err(Error::InvalidData("box size too small"));
            }
            current = next;
        }
        skip_bytes_to(reader, start, size)?;
        Ok(SchiBox { tenc })
    }
}

impl WriteBox for SchiBox {
    open spec fn writable(&self) -> bool {
        true
    }

    #[verifier::spinoff_prover]
    fn write_box(&self, writer: &mut Vec<u8>) -> (res: Result<u64>)
        ensures
            final(writer)@ == old(writer)@ + schi_bytes(self@),
            res == Ok::<u64, Error>(schi_size(self@) as u64),
    {
        let size = self.box_size();
        BoxHeader::new(self.box_type(), size).write(writer)?;
        if let Some(tenc) = &self.tenc {
            tenc.write_box(writer)?;
        }
        assert(final(writer)@ =~= old(writer)@ + schi_bytes(self@));
        Ok(size)
    }
}


/// Whether the encoding of a schi box keeps all of it: its tenc box, if
/// any, is kept.
pub open spec fn schi_kept(b: SchiBoxView) -> bool {
    b.tenc matches Some(t) ==> tenc_kept(t)
}

/// An encoded schi box that is kept takes as many bytes as its size, which
/// is small.
pub proof fn lemma_schi_len(b: SchiBoxView)
    requires
        schi_kept(b),
    ensures
        schi_bytes(b).len() == schi_size(b),
        8 <= schi_size(b) <= 8 + 32 + 1 + 255,
{
    if let Some(t) = b.tenc {
        lemma_tenc_roundtrip(t, Seq::empty());
    }
}

/// Reading an encoded schi box, its header before position `p` of `d`,
/// gives it back, where its encoding keeps all of it.
#[verifier::spinoff_prover]
#[verifier::rlimit(40)]
pub proof fn lemma_schi_roundtrip(b: SchiBoxView, d: Seq<u8>, p: int, r: Seq<u8>)
    requires
        schi_kept(b),
        8 <= p <= d.len() <= u64::MAX,
        rest_at(d, p - 8) == schi_bytes(b) + r,
    ensures
        schi_bytes(b).len() == schi_size(b),
        parse_schi(d, p, schi_size(b) as u64) == Ok::<SchiBoxView, Error>(b),
{
    lemma_schi_len(b);
    let size = schi_size(b);
    assert(header_bytes(BoxType::SchiBox, size as u64).len() == 8);
    assert(d.skip(p) =~= d.skip(p - 8).skip(8));
    match b.tenc {
        None => {},
        Some(t) => {
            let tb = tenc_bytes(t);
            let ts = tenc_size(t);
            assert(rest_at(d, p) =~= tb + r);
            lemma_tenc_roundtrip(t, r);
            lemma_header_roundtrip(BoxType::TencBox, ts as u64, tb.skip(8) + r);
            assert(tb + r =~= header_bytes(BoxType::TencBox, ts as u64) + (tb.skip(8) + r));
            assert(d.skip(p + 8) =~= d.skip(p).skip(8));
            assert(rest_at(d, p + 8) =~= (tb + r).skip(8));
            assert(schi_scan(d, p, p + ts, size as u64, None) == Ok::<Option<TencBoxView>, Error>(Some(t)));
        },
    }
}

} // verus!
