//! The movie extends box: the defaults of the fragments of a fragmented
//! movie.
use crate::error::{Error, Result};
use crate::mp4box::mehd::{lemma_mehd_roundtrip, mehd_bytes, mehd_size, parse_mehd, MehdBox};
use crate::mp4box::traf::ended;
use crate::mp4box::trex::{lemma_trex_roundtrip, parse_trex, trex_bytes, TrexBox};
use crate::mp4box::{
    box_start, ext_bytes, header_bytes, lemma_header_roundtrip, parse_header, read_outcome, skip_box, skip_bytes_to, BoxHeader, Mp4Box,
    ReadBox, WriteBox, HEADER_SIZE,
};
use crate::reader::{rest_at, Reader};
use crate::types::BoxType;
use vstd::prelude::*;

verus! {

#[derive(Debug, Clone, PartialEq, Eq, Default)]
pub struct MvexBox {
    pub mehd: Option<MehdBox>,
    pub trexs: Vec<TrexBox>,
}

/// What an mvex box holds, as mathematical values.
pub struct MvexBoxView {
    pub mehd: Option<MehdBox>,
    pub trexs: Seq<TrexBox>,
}

impl View for MvexBox {
    type V = MvexBoxView;

    open spec fn view(&self) -> MvexBoxView {
        MvexBoxView { mehd: self.mehd, trexs: self.trexs@ }
    }
}

/// Reading the child box whose header `h` ends at position `q` of `d`: a
/// movie extends header replaces one found before, a track extends box is
/// added to those found; other boxes are skipped.
pub open spec fn mvex_child(d: Seq<u8>, q: int, h: BoxHeader, found: MvexBoxView) -> Result<(MvexBoxView, int)> {
    let body = rest_at(d, q);
    let start = q - HEADER_SIZE;
    if h.name == BoxType::MehdBox {
        match ended(parse_mehd(body), start, h.size) {
            Ok((v, e)) => Ok((MvexBoxView { mehd: Some(v), ..found }, e)),
            Err(e) => Err(e),
        }
    } else if h.name == BoxType::TrexBox {
        match ended(parse_trex(body), start, h.size) {
            Ok((v, e)) => Ok((MvexBoxView { trexs: found.trexs.push(v), ..found }, e)),
            Err(e) => Err(e),
        }
    } else if start + h.size > u64::MAX {
        Err(Error::InvalidData("box end out of range"))
    } else {
        Ok((found, start + h.size))
    }
}

/// Reading the children of an mvex box `size` bytes long from position `p`
/// of `d` up to `end`. A child larger than the box is refused, and so is
/// one after which the reader would not have moved forward.
pub open spec fn mvex_scan(d: Seq<u8>, p: int, end: int, size: u64, found: MvexBoxView) -> Result<MvexBoxView>
    decreases end - p,
{
    if p >= end {
        Ok(found)
    } else {
        match parse_header(rest_at(d, p)) {
            Err(e) => Err(e),
            Ok((h, n)) => if h.size > size {
                Err(Error::InvalidData("mvex box contains a box with a larger size than it"))
            } else {
                match mvex_child(d, p + n, h, found) {
                    Err(e) => Err(e),
                    Ok((f2, q)) => if q <= p {
                        Err(Error::InvalidData("box size too small"))
                    } else if q >= end {
                        Ok(f2)
                    } else {
                        mvex_scan(d, q, end, size, f2)
                    },
                }
            },
        }
    }
}

/// The mvex box `size` bytes long whose header ends at position `p` of `d`:
/// its children up to its end, of which at least one must be a track
/// extends box.
pub open spec fn parse_mvex(d: Seq<u8>, p: int, size: u64) -> Result<MvexBoxView> {
    let start = p - HEADER_SIZE;
    if start + size > u64::MAX {
        Err(Error::InvalidData("box end out of range"))
    } else {
        match mvex_scan(d, p, start + size, size, MvexBoxView { mehd: None, trexs: Seq::empty() }) {
            Err(e) => Err(e),
            Ok(f) => if f.trexs.len() == 0 {
                Err(Error::BoxNotFound(BoxType::TrexBox))
            } else {
                Ok(f)
            },
        }
    }
}

/// The size of the encoding of `b`.
pub open spec fn mvex_size(b: MvexBoxView) -> int {
    8 + (match b.mehd {
        Some(m) => mehd_size(m.version) as int,
        None => 0,
    }) + 36 * b.trexs.len()
}

/// The encodings of the track extends boxes `t`, in order.
pub open spec fn trexs_bytes(t: Seq<TrexBox>) -> Seq<u8>
    decreases t.len(),
{
    if t.len() == 0 {
        Seq::empty()
    } else {
        trexs_bytes(t.drop_last()) + trex_bytes(t.last())
    }
}

/// Whether writing `b` fails at its movie extends header, whose version is
/// neither 0 nor 1.
pub open spec fn mvex_fails(b: MvexBoxView) -> bool {
    b.mehd matches Some(m) && m.version > 1
}

/// The bytes that writing the movie extends header of `b` appends.
pub open spec fn mvex_mehd_bytes(b: MvexBoxView) -> Seq<u8> {
    match b.mehd {
        Some(m) => if m.version <= 1 {
            mehd_bytes(m)
        } else {
            header_bytes(BoxType::MehdBox, 12) + ext_bytes(m.version, m.flags)
        },
        None => Seq::empty(),
    }
}

/// The bytes that encoding `b` appends: the header, the movie extends header and the track extends boxes,
/// stopping after a movie extends header of an unknown version.
pub open spec fn mvex_bytes(b: MvexBoxView) -> Seq<u8> {
    header_bytes(BoxType::MvexBox, mvex_size(b) as u64) + mvex_mehd_bytes(b) + if mvex_fails(b) {
        Seq::empty()
    } else {
        trexs_bytes(b.trexs)
    }
}

impl MvexBox {
    pub fn get_type(&self) -> (t: BoxType)
        ensures
            t == BoxType::MvexBox,
    {
        BoxType::MvexBox
    }

    pub fn get_size(&self) -> (s: u64)
        requires
            mvex_size(self@) <= u64::MAX,
        ensures
            s == mvex_size(self@),
    {
        let mut size = HEADER_SIZE;
        if let Some(mehd) = &self.mehd {
            size = size + mehd.box_size();
        }
        let mut i: usize = 0;
        while i < self.trexs.len()
            invariant
                0 <= i <= self.trexs.len(),
                mvex_size(self@) <= u64::MAX,
                size == mvex_size(self@) - 36 * (self.trexs.len() - i),
            decreases self.trexs.len() - i,
        {
            size = size + self.trexs[i].box_size();
            i = i + 1;
        }
        size
    }
}

impl Mp4Box for MvexBox {
    open spec fn has_size(&self) -> bool {
        mvex_size(self@) <= u64::MAX
    }

    fn box_type(&self) -> (t: BoxType)
        ensures
            t == BoxType::MvexBox,
    {
        self.get_type()
    }

    fn box_size(&self) -> (s: u64)
        ensures
            s == mvex_size(self@),
    {
        self.get_size()
    }
}

/// Reads the child box whose header `h` was just read into `mehd` or
/// `trexs`, or skips it.
fn read_mvex_child(reader: &mut Reader, h: BoxHeader, mehd: &mut Option<MehdBox>, trexs: &mut Vec<TrexBox>) -> (res:
    Result<()>)
    requires
        old(reader).pos() >= HEADER_SIZE,
    ensures
        final(reader).data_seq() == old(reader).data_seq(),
        match res {
            Ok(_) => mvex_child(old(reader).data_seq(), old(reader).pos(), h, MvexBoxView { mehd: *old(mehd), trexs: old(trexs)@ })
                == Ok::<(MvexBoxView, int), Error>((MvexBoxView { mehd: *final(mehd), trexs: final(trexs)@ }, final(reader).pos())),
            Err(e) => mvex_child(old(reader).data_seq(), old(reader).pos(), h, MvexBoxView { mehd: *old(mehd), trexs: old(trexs)@ })
                == Err::<(MvexBoxView, int), Error>(e),
        },
{
    assert(reader.rem() == rest_at(reader.data_seq(), reader.pos()));
    if h.name == BoxType::MehdBox {
        *mehd = Some(MehdBox::read_box(reader, h.size)?);
    } else if h.name == BoxType::TrexBox {
        let t = TrexBox::read_box(reader, h.size)?;
        trexs.push(t);
    } else {
        skip_box(reader, h.size)?;
    }
    Ok(())
}

impl ReadBox for MvexBox {
    open spec fn size_accepted(size: u64) -> bool {
        true
    }

    #[verifier::spinoff_prover]
    fn read_box(reader: &mut Reader, size: u64) -> (res: Result<Self>)
        ensures
            res is Ok ==> final(reader).pos() == old(reader).pos() - HEADER_SIZE + size,
            read_outcome(res, parse_mvex(old(reader).data_seq(), old(reader).pos(), size)),
    {
        let ghost d = old(reader).data_seq();
        let ghost p0 = old(reader).pos();
        let start = box_start(reader);
        if size > u64::MAX - start {
            return Err(Error::InvalidData("box end out of range"));
        }
        let end = start + size;
        let mut mehd: Option<MehdBox> = None;
        let mut trexs: Vec<TrexBox> = Vec::new();
        let mut current = reader.position();
        while current < end
            invariant
                reader.data_seq() == d,
                d == old(reader).data_seq(),
                p0 == old(reader).pos(),
                p0 >= HEADER_SIZE,
                start == p0 - HEADER_SIZE,
                current == reader.pos(),
                end == p0 - HEADER_SIZE + size,
                mvex_scan(d, p0, end as int, size, MvexBoxView { mehd: None, trexs: Seq::empty() }) == mvex_scan(
                    d,
                    current as int,
                    end as int,
                    size,
                    MvexBoxView { mehd, trexs: trexs@ },
                ),
            decreases (if current < end { end - current } else { 0 }),
        {
            assert(reader.rem() == rest_at(d, current as int));
            let header = BoxHeader::read(reader)?;
            if header.size > size {
                return Err(Error::InvalidData("mvex box contains a box with a larger size than it"));
            }
            read_mvex_child(reader, header, &mut mehd, &mut trexs)?;
            let next = reader.position();
            if next <= current {
                return Err(Error::InvalidData("box size too small"));
            }
            current = next;
        }
        if trexs.len() == 0 {
            return Err(Error::BoxNotFound(BoxType::TrexBox));
        }
        skip_bytes_to(reader, start, size)?;
        Ok(MvexBox { mehd, trexs })
    }
}

impl WriteBox for MvexBox {
    open spec fn writable(&self) -> bool {
        &&& self.has_size()
        &&& self.mehd matches Some(m) ==> m.flags < 0x1000000
        &&& forall|i: int| 0 <= i < self.trexs.len() ==> #[trigger] self.trexs@[i].flags < 0x1000000
    }

    /// Writes the box; a movie extends header of an unknown version stops
    /// the writing with its error.
    #[verifier::spinoff_prover]
    fn write_box(&self, writer: &mut Vec<u8>) -> (res: Result<u64>)
        ensures
            final(writer)@ == old(writer)@ + mvex_bytes(self@),
            res == if mvex_fails(self@) {
                Err::<u64, Error>(Error::InvalidData("version must be 0 or 1"))
            } else {
                Ok::<u64, Error>(mvex_size(self@) as u64)
            },
    {
        let size = self.box_size();
        BoxHeader::new(self.box_type(), size).write(writer)?;
        let ghost w1 = writer@;
        if let Some(mehd) = &self.mehd {
            let r = mehd.write_box(writer);
            if r.is_err() {
                assert(final(writer)@ =~= old(writer)@ + mvex_bytes(self@));
                return Err(Error::InvalidData("version must be 0 or 1"));
            }
        }
        let ghost w2 = writer@;
        assert(w2 == w1 + mvex_mehd_bytes(self@));
        let mut i: usize = 0;
        while i < self.trexs.len()
            invariant
                0 <= i <= self.trexs.len(),
                forall|k: int| 0 <= k < self.trexs.len() ==> #[trigger] self.trexs@[k].flags < 0x1000000,
                writer@ == w2 + trexs_bytes(self.trexs@.take(i as int)),
            decreases self.trexs.len() - i,
        {
            self.trexs[i].write_box(writer)?;
            proof {
                assert(self.trexs@.take(i + 1).drop_last() =~= self.trexs@.take(i as int));
                vstd::seq_lib::lemma_concat_associative(w2, trexs_bytes(self.trexs@.take(i as int)), trex_bytes(self.trexs@[i as int]));
            }
            i = i + 1;
        }
        proof {
            assert(self.trexs@.take(self.trexs.len() as int) =~= self.trexs@);
            vstd::seq_lib::lemma_concat_associative(
                old(writer)@ + header_bytes(BoxType::MvexBox, size),
                mvex_mehd_bytes(self@),
                trexs_bytes(self.trexs@),
            );
        }
        Ok(size)
    }
}


/// Whether the encoding of an mvex box keeps all of it: a movie extends
/// header of version 0 or 1 whose flags fit in 24 bits and whose duration
/// fits the version, and track extends boxes whose flags fit in 24 bits.
pub open spec fn mvex_kept(b: MvexBoxView) -> bool {
    &&& b.mehd matches Some(m) ==> m.flags < 0x1000000 && m.version <= 1 && (m.version == 0
        ==> m.fragment_duration <= u32::MAX)
    &&& forall|i: int| 0 <= i < b.trexs.len() ==> (#[trigger] b.trexs[i]).flags < 0x1000000
}

/// The encodings of track extends boxes follow one another, 36 bytes each.
proof fn lemma_trexs_bytes_at(t: Seq<TrexBox>, k: int)
    requires
        0 <= k < t.len(),
    ensures
        trexs_bytes(t).len() == 36 * t.len(),
        trexs_bytes(t).subrange(36 * k, 36 * k + 36) == trex_bytes(t[k]),
    decreases t.len(),
{
    let u = t.drop_last();
    lemma_trexs_bytes_len(t);
    lemma_trexs_bytes_len(u);
    assert(trex_bytes(t.last()).len() == 36);
    if k < t.len() - 1 {
        lemma_trexs_bytes_at(u, k);
        assert(trexs_bytes(t).subrange(36 * k, 36 * k + 36) =~= trexs_bytes(u).subrange(36 * k, 36 * k + 36));
        assert(u[k] == t[k]);
    } else {
        assert(trexs_bytes(t).subrange(36 * k, 36 * k + 36) =~= trex_bytes(t.last()));
    }
}

/// The encodings of track extends boxes take 36 bytes each.
proof fn lemma_trexs_bytes_len(t: Seq<TrexBox>)
    ensures
        trexs_bytes(t).len() == 36 * t.len(),
    decreases t.len(),
{
    if t.len() > 0 {
        lemma_trexs_bytes_len(t.drop_last());
        assert(trex_bytes(t.last()).len() == 36);
    }
}

/// Reading an encoded trex box at position `p` of `d` inside an mvex box.
#[verifier::spinoff_prover]
#[verifier::rlimit(40)]
proof fn lemma_mvex_trex_step(d: Seq<u8>, p: int, end: int, size: u64, found: MvexBoxView, x: TrexBox, after: Seq<u8>)
    requires
        8 <= p < end,
        p + 36 <= d.len() <= u64::MAX,
        36 <= size,
        x.flags < 0x1000000,
        rest_at(d, p) == trex_bytes(x) + after,
    ensures
        mvex_scan(d, p, end, size, found) == (if p + 36 >= end {
            Ok::<MvexBoxView, Error>(MvexBoxView { trexs: found.trexs.push(x), ..found })
        } else {
            mvex_scan(d, p + 36, end, size, MvexBoxView { trexs: found.trexs.push(x), ..found })
        }),
{
    lemma_trex_roundtrip(x, after);
    lemma_header_roundtrip(BoxType::TrexBox, 36, trex_bytes(x).skip(8) + after);
    assert(trex_bytes(x) + after =~= header_bytes(BoxType::TrexBox, 36) + (trex_bytes(x).skip(8) + after));
    assert(d.skip(p + 8) =~= d.skip(p).skip(8));
    assert(parse_trex(rest_at(d, p + 8)) == Ok::<TrexBox, Error>(x));
}

/// Reading an encoded mehd box at position `p` of `d` inside an mvex box.
#[verifier::spinoff_prover]
#[verifier::rlimit(40)]
proof fn lemma_mvex_mehd_step(d: Seq<u8>, p: int, end: int, size: u64, found: MvexBoxView, m: MehdBox, after: Seq<u8>)
    requires
        8 <= p,
        p + mehd_size(m.version) < end,
        end <= d.len() <= u64::MAX,
        mehd_size(m.version) <= size,
        m.flags < 0x1000000,
        m.version <= 1,
        m.version == 0 ==> m.fragment_duration <= u32::MAX,
        rest_at(d, p) == mehd_bytes(m) + after,
    ensures
        mvex_scan(d, p, end, size, found) == mvex_scan(
            d,
            p + mehd_size(m.version),
            end,
            size,
            MvexBoxView { mehd: Some(m), ..found },
        ),
{
    let ms = mehd_size(m.version);
    let mb = mehd_bytes(m);
    lemma_mehd_roundtrip(m, after);
    lemma_header_roundtrip(BoxType::MehdBox, ms, mb.skip(8) + after);
    assert(mb + after =~= header_bytes(BoxType::MehdBox, ms) + (mb.skip(8) + after));
    assert(d.skip(p + 8) =~= d.skip(p).skip(8));
    assert(parse_mehd(rest_at(d, p + 8)) == Ok::<MehdBox, Error>(m));
}

/// Reading encoded track extends boxes from the start of the `k`-th of
/// them, with the first `k` already read, gives all of them.
#[verifier::spinoff_prover]
#[verifier::rlimit(40)]
proof fn lemma_mvex_scan_trexs(
    d: Seq<u8>,
    base: int,
    size: u64,
    mehd: Option<MehdBox>,
    t: Seq<TrexBox>,
    k: int,
    r: Seq<u8>,
)
    requires
        8 <= base,
        0 <= k < t.len(),
        36 <= size,
        base + 36 * t.len() <= d.len() <= u64::MAX,
        forall|i: int| 0 <= i < t.len() ==> (#[trigger] t[i]).flags < 0x1000000,
        rest_at(d, base) == trexs_bytes(t) + r,
    ensures
        mvex_scan(d, base + 36 * k, base + 36 * t.len(), size, MvexBoxView { mehd, trexs: t.take(k) }) == Ok::<
            MvexBoxView,
            Error,
        >(MvexBoxView { mehd, trexs: t }),
    decreases t.len() - k,
{
    let p = base + 36 * k;
    let x = t[k];
    lemma_trexs_bytes_at(t, k);
    let tb = trexs_bytes(t);
    let after = tb.skip(36 * k + 36) + r;
    assert(d.skip(p) =~= d.skip(base).skip(36 * k));
    assert(rest_at(d, p) =~= trex_bytes(x) + after) by {
        assert(tb =~= tb.subrange(0, 36 * k) + (tb.subrange(36 * k, 36 * k + 36) + tb.skip(36 * k + 36)));
    }
    assert(x.flags < 0x1000000);
    lemma_mvex_trex_step(d, p, base + 36 * t.len(), size, MvexBoxView { mehd, trexs: t.take(k) }, x, after);
    assert(t.take(k).push(x) =~= t.take(k + 1));
    if k + 1 < t.len() {
        lemma_mvex_scan_trexs(d, base, size, mehd, t, k + 1, r);
    } else {
        assert(t.take(k + 1) =~= t);
    }
}

/// Where the parts of an encoded mvex box stand, its header before
/// position `p` of `d`.
#[verifier::spinoff_prover]
#[verifier::rlimit(40)]
proof fn lemma_mvex_layout(b: MvexBoxView, d: Seq<u8>, p: int, r: Seq<u8>)
    requires
        mvex_kept(b),
        mvex_size(b) <= u32::MAX,
        8 <= p <= d.len(),
        rest_at(d, p - 8) == mvex_bytes(b) + r,
    ensures
        mvex_bytes(b).len() == mvex_size(b),
        mvex_mehd_bytes(b).len() == mvex_size(b) - 8 - 36 * b.trexs.len(),
        trexs_bytes(b.trexs).len() == 36 * b.trexs.len(),
        rest_at(d, p) == mvex_mehd_bytes(b) + (trexs_bytes(b.trexs) + r),
        rest_at(d, p + mvex_mehd_bytes(b).len()) == trexs_bytes(b.trexs) + r,
{
    let size = mvex_size(b);
    let t = b.trexs;
    let mb = mvex_mehd_bytes(b);
    let tb = trexs_bytes(t);
    lemma_trexs_bytes_len(t);
    if let Some(m) = b.mehd {
        lemma_mehd_roundtrip(m, Seq::empty());
    }
    assert(header_bytes(BoxType::MvexBox, size as u64).len() == 8);
    assert(mvex_bytes(b) =~= header_bytes(BoxType::MvexBox, size as u64) + (mb + tb));
    assert(d.skip(p) =~= d.skip(p - 8).skip(8));
    assert(rest_at(d, p) =~= mb + (tb + r));
    let base = p + mb.len();
    assert(d.skip(base) =~= d.skip(p).skip(mb.len() as int));
}

/// Reading an encoded mvex box, its header before position `p` of `d`,
/// gives it back, where its encoding keeps all of it and it holds at least
/// one track extends box.
#[verifier::spinoff_prover]
#[verifier::rlimit(40)]
pub proof fn lemma_mvex_roundtrip(b: MvexBoxView, d: Seq<u8>, p: int, r: Seq<u8>)
    requires
        mvex_kept(b),
        b.trexs.len() > 0,
        mvex_size(b) <= u32::MAX,
        8 <= p <= d.len() <= u64::MAX,
        rest_at(d, p - 8) == mvex_bytes(b) + r,
    ensures
        mvex_bytes(b).len() == mvex_size(b),
        parse_mvex(d, p, mvex_size(b) as u64) == Ok::<MvexBoxView, Error>(b),
{
    lemma_mvex_layout(b, d, p, r);
    let size = mvex_size(b);
    let end = p - 8 + size;
    let t = b.trexs;
    let tb = trexs_bytes(t);
    let base = p + mvex_mehd_bytes(b).len();
    assert(t.take(0) =~= Seq::<TrexBox>::empty());
    lemma_mvex_scan_trexs(d, base, size as u64, b.mehd, t, 0, r);
    let f0 = MvexBoxView { mehd: None, trexs: Seq::empty() };
    if let Some(m) = b.mehd {
        lemma_mvex_mehd_step(d, p, end, size as u64, f0, m, tb + r);
    }
    assert(mvex_scan(d, p, end, size as u64, f0) == Ok::<MvexBoxView, Error>(MvexBoxView { mehd: b.mehd, trexs: t }));
}

} // verus!
