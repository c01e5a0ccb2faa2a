//! The movie fragment box: a fragment's sequence number and its track
//! fragments.
use crate::error::{Error, Result};
use crate::mp4box::mfhd::{lemma_mfhd_roundtrip, mfhd_bytes, parse_mfhd, MfhdBox};
use crate::mp4box::traf::{
    ended, lemma_traf_roundtrip, parse_traf, traf_bytes, traf_kept, traf_size, traf_trun_fails, TrafBox, TrafBoxView,
};
use crate::mp4box::{
    box_start, header_bytes, lemma_header_roundtrip, parse_header, read_outcome, skip_box, skip_bytes_to, BoxHeader, Mp4Box, ReadBox,
    WriteBox, HEADER_SIZE,
};
use crate::reader::{rest_at, Reader};
use crate::types::BoxType;
use vstd::prelude::*;

verus! {

#[derive(Debug, Clone, PartialEq, Eq, Default)]
pub struct MoofBox {
    pub mfhd: MfhdBox,
    pub trafs: Vec<TrafBox>,
}

/// What a moof box holds, as mathematical values.
pub struct MoofBoxView {
    pub mfhd: MfhdBox,
    pub trafs: Seq<TrafBoxView>,
}

impl View for MoofBox {
    type V = MoofBoxView;

    open spec fn view(&self) -> MoofBoxView {
        MoofBoxView { mfhd: self.mfhd, trafs: self.trafs@.map_values(|t: TrafBox| t@) }
    }
}

/// The boxes found so far while reading a moof box.
pub struct MoofFound {
    pub mfhd: Option<MfhdBox>,
    pub trafs: Seq<TrafBoxView>,
}

/// Reading the child box whose header `h` ends at position `q` of `d`: a
/// movie fragment header replaces one found before, a track fragment is
/// added to those found; other boxes are skipped.
pub open spec fn moof_child(d: Seq<u8>, q: int, h: BoxHeader, found: MoofFound) -> Result<(MoofFound, int)> {
    let start = q - HEADER_SIZE;
    if h.name == BoxType::MfhdBox {
        match ended(parse_mfhd(rest_at(d, q)), start, h.size) {
            Ok((v, e)) => Ok((MoofFound { mfhd: Some(v), ..found }, e)),
            Err(e) => Err(e),
        }
    } else if h.name == BoxType::TrafBox {
        match parse_traf(d, q, h.size) {
            Ok(v) => Ok((MoofFound { trafs: found.trafs.push(v), ..found }, start + h.size)),
            Err(e) => Err(e),
        }
    } else if start + h.size > u64::MAX {
        Err(Error::InvalidData("box end out of range"))
    } else {
        Ok((found, start + h.size))
    }
}

/// Reading the children of a moof box from position `p` of `d` up to
/// `end`; a child after which the reader would not have moved forward is
/// refused.
pub open spec fn moof_scan(d: Seq<u8>, p: int, end: int, found: MoofFound) -> Result<MoofFound>
    decreases end - p,
{
    if p >= end {
        Ok(found)
    } else {
        match parse_header(rest_at(d, p)) {
            Err(e) => Err(e),
            Ok((h, n)) => match moof_child(d, p + n, h, found) {
                Err(e) => Err(e),
                Ok((f2, q)) => if q <= p {
                    Err(Error::InvalidData("box size too small"))
                } else if q >= end {
                    Ok(f2)
                } else {
                    moof_scan(d, q, end, f2)
                },
            },
        }
    }
}

/// The moof box `size` bytes long whose header ends at position `p` of `d`:
/// its children up to its end, of which a movie fragment header must be
/// one.
pub open spec fn parse_moof(d: Seq<u8>, p: int, size: u64) -> Result<MoofBoxView> {
    let start = p - HEADER_SIZE;
    if start + size > u64::MAX {
        Err(Error::InvalidData("box end out of range"))
    } else {
        match moof_scan(d, p, start + size, MoofFound { mfhd: None, trafs: Seq::empty() }) {
            Err(e) => Err(e),
            Ok(f) => match f.mfhd {
                None => Err(Error::BoxNotFound(BoxType::MfhdBox)),
                Some(mfhd) => Ok(MoofBoxView { mfhd, trafs: f.trafs }),
            },
        }
    }
}

/// The total size of the encodings of the track fragments `t`.
pub open spec fn trafs_size(t: Seq<TrafBoxView>) -> int
    decreases t.len(),
{
    if t.len() == 0 {
        0
    } else {
        trafs_size(t.drop_last()) + traf_size(t.last())
    }
}

/// The size of the encoding of `b`.
pub open spec fn moof_size(b: MoofBoxView) -> int {
    8 + 16 + trafs_size(b.trafs)
}

/// Whether writing one of the track fragments `t` fails.
pub open spec fn trafs_fail(t: Seq<TrafBoxView>) -> bool
    decreases t.len(),
{
    t.len() > 0 && (trafs_fail(t.drop_last()) || traf_trun_fails(t.last()))
}

/// The bytes that writing the track fragments `t` in order appends: it
/// stops after the first one whose writing fails.
pub open spec fn trafs_bytes(t: Seq<TrafBoxView>) -> Seq<u8>
    decreases t.len(),
{
    if t.len() == 0 {
        Seq::empty()
    } else if trafs_fail(t.drop_last()) {
        trafs_bytes(t.drop_last())
    } else {
        trafs_bytes(t.drop_last()) + traf_bytes(t.last())
    }
}

/// The bytes that encoding `b` appends.
pub open spec fn moof_bytes(b: MoofBoxView) -> Seq<u8> {
    header_bytes(BoxType::MoofBox, moof_size(b) as u64) + mfhd_bytes(b.mfhd) + trafs_bytes(b.trafs)
}

/// Once a prefix of the track fragments fails, what is written and that it
/// fails no longer change.
proof fn lemma_trafs_fail_stable(t: Seq<TrafBoxView>, i: int)
    requires
        0 <= i <= t.len(),
        trafs_fail(t.take(i)),
    ensures
        trafs_fail(t),
        trafs_bytes(t) == trafs_bytes(t.take(i)),
    decreases t.len() - i,
{
    if i < t.len() {
        assert(t.take(i + 1).drop_last() =~= t.take(i));
        lemma_trafs_fail_stable(t, i + 1);
    } else {
        assert(t.take(i) =~= t);
    }
}

impl MoofBox {
    pub fn get_type(&self) -> (t: BoxType)
        ensures
            t == BoxType::MoofBox,
    {
        BoxType::MoofBox
    }

    pub fn get_size(&self) -> (s: u64)
        requires
            self.has_size(),
        ensures
            s == moof_size(self@),
    {
        let mut size = HEADER_SIZE + self.mfhd.box_size();
        let mut i: usize = 0;
        while i < self.trafs.len()
            invariant
                0 <= i <= self.trafs.len(),
                self.has_size(),
                size == 24 + trafs_size(self@.trafs.take(i as int)),
            decreases self.trafs.len() - i,
        {
            proof {
                assert(self@.trafs.take(i + 1).drop_last() =~= self@.trafs.take(i as int));
                lemma_trafs_size_prefix(self@.trafs, i + 1);
            }
            size = size + self.trafs[i].box_size();
            i = i + 1;
        }
        assert(self@.trafs.take(i as int) =~= self@.trafs);
        size
    }
}

/// The sizes of a prefix of the track fragments add up to no more than
/// those of all.
proof fn lemma_trafs_size_prefix(t: Seq<TrafBoxView>, i: int)
    requires
        0 <= i <= t.len(),
    ensures
        0 <= trafs_size(t.take(i)) <= trafs_size(t),
    decreases t.len() - i,
{
    lemma_trafs_size_nonneg(t.take(i));
    if i < t.len() {
        lemma_trafs_size_prefix(t, i + 1);
        assert(t.take(i + 1).drop_last() =~= t.take(i));
    } else {
        assert(t.take(i) =~= t);
    }
}

proof fn lemma_trafs_size_nonneg(t: Seq<TrafBoxView>)
    ensures
        trafs_size(t) >= 0,
    decreases t.len(),
{
    if t.len() > 0 {
        lemma_trafs_size_nonneg(t.drop_last());
    }
}

impl Mp4Box for MoofBox {
    open spec fn has_size(&self) -> bool {
        &&& forall|i: int| 0 <= i < self.trafs.len() ==> #[trigger] self.trafs@[i].has_size()
        &&& moof_size(self@) <= u64::MAX
    }

    fn box_type(&self) -> (t: BoxType)
        ensures
            t == BoxType::MoofBox,
    {
        self.get_type()
    }

    fn box_size(&self) -> (s: u64)
        ensures
            s == moof_size(self@),
    {
        self.get_size()
    }
}

/// Reads the child box whose header `h` was just read into `mfhd` or
/// `trafs`, or skips it.
fn read_moof_child(reader: &mut Reader, h: BoxHeader, mfhd: &mut Option<MfhdBox>, trafs: &mut Vec<TrafBox>) -> (res:
    Result<()>)
    requires
        old(reader).pos() >= HEADER_SIZE,
    ensures
        final(reader).data_seq() == old(reader).data_seq(),
        match res {
            Ok(_) => moof_child(
                old(reader).data_seq(),
                old(reader).pos(),
                h,
                MoofFound { mfhd: *old(mfhd), trafs: old(trafs)@.map_values(|t: TrafBox| t@) },
            ) == Ok::<(MoofFound, int), Error>(
                (MoofFound { mfhd: *final(mfhd), trafs: final(trafs)@.map_values(|t: TrafBox| t@) }, final(reader).pos()),
            ),
            Err(e) => moof_child(
                old(reader).data_seq(),
                old(reader).pos(),
                h,
                MoofFound { mfhd: *old(mfhd), trafs: old(trafs)@.map_values(|t: TrafBox| t@) },
            ) == Err::<(MoofFound, int), Error>(e),
        },
{
    assert(reader.rem() == rest_at(reader.data_seq(), reader.pos()));
    if h.name == BoxType::MfhdBox {
        *mfhd = Some(MfhdBox::read_box(reader, h.size)?);
    } else if h.name == BoxType::TrafBox {
        let t = TrafBox::read_box(reader, h.size)?;
        trafs.push(t);
        assert(trafs@.map_values(|t: TrafBox| t@) =~= old(trafs)@.map_values(|t: TrafBox| t@).push(t@));
    } else {
        skip_box(reader, h.size)?;
    }
    Ok(())
}

impl ReadBox for MoofBox {
    open spec fn size_accepted(size: u64) -> bool {
        true
    }

    #[verifier::spinoff_prover]
    fn read_box(reader: &mut Reader, size: u64) -> (res: Result<Self>)
        ensures
            res is Ok ==> final(reader).pos() == old(reader).pos() - HEADER_SIZE + size,
            read_outcome(res, parse_moof(old(reader).data_seq(), old(reader).pos(), size)),
    {
        let ghost d = old(reader).data_seq();
        let ghost p0 = old(reader).pos();
        let start = box_start(reader);
        if size > u64::MAX - start {
            return Err(Error::InvalidData("box end out of range"));
        }
        let end = start + size;
        let mut mfhd: Option<MfhdBox> = None;
        let mut trafs: Vec<TrafBox> = Vec::new();
        assert(trafs@.map_values(|t: TrafBox| t@) =~= Seq::<TrafBoxView>::empty());
        let mut current = reader.position();
        while current < end
            invariant
                reader.data_seq() == d,
                d == old(reader).data_seq(),
                p0 == old(reader).pos(),
                p0 >= HEADER_SIZE,
                start == p0 - HEADER_SIZE,
                current == reader.pos(),
                end == p0 - HEADER_SIZE + size,
                moof_scan(d, p0, end as int, MoofFound { mfhd: None, trafs: Seq::empty() }) == moof_scan(
                    d,
                    current as int,
                    end as int,
                    MoofFound { mfhd, trafs: trafs@.map_values(|t: TrafBox| t@) },
                ),
            decreases (if current < end { end - current } else { 0 }),
        {
            assert(reader.rem() == rest_at(d, current as int));
            let header = BoxHeader::read(reader)?;
            read_moof_child(reader, header, &mut mfhd, &mut trafs)?;
            let next = reader.position();
            if next <= current {
                return Err(Error::InvalidData("box size too small"));
            }
            current = next;
        }
        let mfhd = match mfhd {
            Some(x) => x,
            None => {
                return Err(Error::BoxNotFound(BoxType::MfhdBox));
            },
        };
        skip_bytes_to(reader, start, size)?;
        Ok(MoofBox { mfhd, trafs })
    }
}

impl WriteBox for MoofBox {
    open spec fn writable(&self) -> bool {
        &&& self.has_size()
        &&& self.mfhd.flags < 0x1000000
        &&& forall|i: int| 0 <= i < self.trafs.len() ==> #[trigger] self.trafs@[i].writable()
    }

    /// Writes the box and its track fragments, stopping at the first whose
    /// writing fails, with its error; success reports a size of 0.
    #[verifier::spinoff_prover]
    fn write_box(&self, writer: &mut Vec<u8>) -> (res: Result<u64>)
        ensures
            final(writer)@ == old(writer)@ + moof_bytes(self@),
            res == if trafs_fail(self@.trafs) {
                Err::<u64, Error>(Error::InvalidData("sample count out of sync"))
            } else {
                Ok::<u64, Error>(0)
            },
    {
        let size = self.box_size();
        BoxHeader::new(self.box_type(), size).write(writer)?;
        self.mfhd.write_box(writer)?;
        let ghost w2 = writer@;
        assert(w2 == old(writer)@ + header_bytes(BoxType::MoofBox, size) + mfhd_bytes(self.mfhd));
        let ghost t = self@.trafs;
        let mut i: usize = 0;
        while i < self.trafs.len()
            invariant
                0 <= i <= self.trafs.len(),
                t == self@.trafs,
                t.len() == self.trafs.len(),
                size == moof_size(self@),
                w2 == old(writer)@ + header_bytes(BoxType::MoofBox, size) + mfhd_bytes(self.mfhd),
                forall|k: int| 0 <= k < self.trafs.len() ==> #[trigger] self.trafs@[k].writable(),
                !trafs_fail(t.take(i as int)),
                writer@ == w2 + trafs_bytes(t.take(i as int)),
            decreases self.trafs.len() - i,
        {
            let r = self.trafs[i].write_box(writer);
            proof {
                assert(t.take(i + 1).drop_last() =~= t.take(i as int));
                assert(t[i as int] == self.trafs@[i as int]@);
                vstd::seq_lib::lemma_concat_associative(w2, trafs_bytes(t.take(i as int)), traf_bytes(t[i as int]));
            }
            proof {
                assert(t.take(i + 1).last() == t[i as int]);
                assert(writer@ == w2 + trafs_bytes(t.take(i + 1)));
            }
            if r.is_err() {
                proof {
                    assert(trafs_fail(t.take(i + 1)));
                    lemma_trafs_fail_stable(t, i + 1);
                    assert(writer@ == w2 + trafs_bytes(t));
                    assert(trafs_fail(self@.trafs));
                    assert(writer@ =~= old(writer)@ + moof_bytes(self@));
                }
                return Err(Error::InvalidData("sample count out of sync"));
            }
            i = i + 1;
        }
        proof {
            assert(t.take(i as int) =~= t);
            assert(writer@ =~= old(writer)@ + moof_bytes(self@));
        }
        Ok(0)
    }
}


/// Whether the encoding of a moof box keeps all of it: its header's flags
/// fit in 24 bits, each track fragment is kept and has its track run, if
/// any, in sync, and the box size fits in 32 bits.
pub open spec fn moof_kept(b: MoofBoxView) -> bool {
    &&& b.mfhd.flags < 0x1000000
    &&& forall|i: int| 0 <= i < b.trafs.len() ==> traf_kept(#[trigger] b.trafs[i]) && !traf_trun_fails(b.trafs[i])
    &&& moof_size(b) <= u32::MAX
}

/// The encodings of the track fragments of `t` from the `k`-th on.
pub open spec fn trafs_from(t: Seq<TrafBoxView>, k: int) -> Seq<u8>
    decreases t.len() - k,
{
    if k >= t.len() || k < 0 {
        Seq::empty()
    } else {
        traf_bytes(t[k]) + trafs_from(t, k + 1)
    }
}

/// Track fragments none of which fails to be written.
pub open spec fn trafs_in_sync(t: Seq<TrafBoxView>) -> bool {
    forall|i: int| 0 <= i < t.len() ==> !traf_trun_fails(#[trigger] t[i])
}

/// Track fragments that are all written make up their encoding in order.
proof fn lemma_trafs_split(t: Seq<TrafBoxView>, k: int)
    requires
        0 <= k <= t.len(),
        trafs_in_sync(t),
    ensures
        !trafs_fail(t.take(k)),
        trafs_bytes(t.take(k)) + trafs_from(t, k) == trafs_from(t, 0),
    decreases k,
{
    if k == 0 {
        assert(t.take(0) =~= Seq::<TrafBoxView>::empty());
        assert(trafs_bytes(t.take(0)) + trafs_from(t, 0) =~= trafs_from(t, 0));
    } else {
        lemma_trafs_split(t, k - 1);
        let u = t.take(k);
        assert(u.drop_last() =~= t.take(k - 1));
        assert(u.last() == t[k - 1]);
        assert(trafs_from(t, k - 1) == traf_bytes(t[k - 1]) + trafs_from(t, k));
        assert(trafs_bytes(u) + trafs_from(t, k) =~= trafs_bytes(t.take(k - 1)) + trafs_from(t, k - 1));
    }
}

/// The sizes of the first `k + 1` track fragments are those of the first
/// `k` and the `k`-th.
proof fn lemma_trafs_size_step(t: Seq<TrafBoxView>, k: int)
    requires
        0 <= k < t.len(),
    ensures
        trafs_size(t.take(k + 1)) == trafs_size(t.take(k)) + traf_size(t[k]),
{
    assert(t.take(k + 1).drop_last() =~= t.take(k));
}

/// The encodings of kept track fragments from the `k`-th on take their
/// sizes.
proof fn lemma_trafs_from_len(t: Seq<TrafBoxView>, k: int)
    requires
        0 <= k <= t.len(),
        forall|i: int| 0 <= i < t.len() ==> traf_kept(#[trigger] t[i]) && !traf_trun_fails(t[i]),
    ensures
        trafs_from(t, k).len() == trafs_size(t) - trafs_size(t.take(k)),
        trafs_size(t.take(k)) <= trafs_size(t),
    decreases t.len() - k,
{
    if k == t.len() {
        assert(t.take(k) =~= t);
    } else {
        lemma_trafs_from_len(t, k + 1);
        lemma_trafs_size_step(t, k);
        lemma_traf_roundtrip_len(t[k]);
    }
}

/// An encoded kept track fragment takes as many bytes as its size, at
/// least 24.
proof fn lemma_traf_roundtrip_len(b: TrafBoxView)
    requires
        traf_kept(b),
        !traf_trun_fails(b),
    ensures
        traf_bytes(b).len() == traf_size(b),
        24 <= traf_size(b) <= u32::MAX,
{
    let d = traf_bytes(b);
    assert(d.skip(0) =~= d);
    crate::mp4box::traf::lemma_traf_len(b);
}

/// Concatenation of byte sequences is associative.
proof fn lemma_concat_assoc(a: Seq<u8>, b: Seq<u8>, c: Seq<u8>)
    ensures
        (a + b) + c == a + (b + c),
{
    assert((a + b) + c =~= a + (b + c));
}

/// Where the bytes from position `q` of `d` are `a` then `rest`, the bytes
/// after `a` are `rest`.
proof fn lemma_rest_after(d: Seq<u8>, q: int, a: Seq<u8>, rest: Seq<u8>)
    requires
        0 <= q,
        rest_at(d, q) == a + rest,
        q <= d.len(),
    ensures
        rest_at(d, q + a.len()) == rest,
{
    assert(d.skip(q + a.len()) =~= d.skip(q).skip(a.len() as int));
    assert((a + rest).skip(a.len() as int) =~= rest);
}

/// Reading an encoded traf box at position `q` of `d` inside a moof box.
#[verifier::spinoff_prover]
#[verifier::rlimit(40)]
proof fn lemma_moof_traf_step(d: Seq<u8>, q: int, end: int, found: MoofFound, x: TrafBoxView, after: Seq<u8>)
    requires
        traf_kept(x),
        !traf_trun_fails(x),
        8 <= q < end,
        q + traf_size(x) <= d.len() <= u64::MAX,
        rest_at(d, q) == traf_bytes(x) + after,
    ensures
        moof_scan(d, q, end, found) == (if q + traf_size(x) >= end {
            Ok::<MoofFound, Error>(MoofFound { trafs: found.trafs.push(x), ..found })
        } else {
            moof_scan(d, q + traf_size(x), end, MoofFound { trafs: found.trafs.push(x), ..found })
        }),
{
    let n = traf_size(x);
    lemma_traf_roundtrip_len(x);
    lemma_traf_roundtrip(x, d, q + 8, after);
    lemma_header_roundtrip(BoxType::TrafBox, n as u64, traf_bytes(x).skip(8) + after);
    assert(traf_bytes(x) + after =~= header_bytes(BoxType::TrafBox, n as u64) + (traf_bytes(x).skip(8) + after));
}

/// Reading an encoded mfhd box at position `p` of `d` inside a moof box.
#[verifier::spinoff_prover]
#[verifier::rlimit(40)]
proof fn lemma_moof_mfhd_step(d: Seq<u8>, p: int, end: int, found: MoofFound, m: MfhdBox, after: Seq<u8>)
    requires
        m.flags < 0x1000000,
        8 <= p,
        p + 16 < end,
        end <= d.len() <= u64::MAX,
        rest_at(d, p) == mfhd_bytes(m) + after,
    ensures
        moof_scan(d, p, end, found) == moof_scan(d, p + 16, end, MoofFound { mfhd: Some(m), ..found }),
{
    let mb = mfhd_bytes(m);
    lemma_mfhd_roundtrip(m, after);
    lemma_header_roundtrip(BoxType::MfhdBox, 16, mb.skip(8) + after);
    assert(mb + after =~= header_bytes(BoxType::MfhdBox, 16) + (mb.skip(8) + after));
    assert(d.skip(p + 8) =~= d.skip(p).skip(8));
    assert(parse_mfhd(rest_at(d, p + 8)) == Ok::<MfhdBox, Error>(m));
}

/// Reading the track fragments of an encoded moof box from the `k`-th on,
/// with those before it read, finds all of them.
#[verifier::spinoff_prover]
#[verifier::rlimit(40)]
proof fn lemma_moof_scan_trafs(d: Seq<u8>, base: int, m: MfhdBox, t: Seq<TrafBoxView>, k: int, r: Seq<u8>)
    requires
        8 <= base,
        0 <= k < t.len(),
        forall|i: int| 0 <= i < t.len() ==> traf_kept(#[trigger] t[i]) && !traf_trun_fails(t[i]),
        base + trafs_size(t) <= d.len() <= u64::MAX,
        rest_at(d, base + trafs_size(t.take(k))) == trafs_from(t, k) + r,
    ensures
        moof_scan(d, base + trafs_size(t.take(k)), base + trafs_size(t), MoofFound { mfhd: Some(m), trafs: t.take(k) })
            == Ok::<MoofFound, Error>(MoofFound { mfhd: Some(m), trafs: t }),
    decreases t.len() - k,
{
    let q = base + trafs_size(t.take(k));
    let x = t[k];
    let n = traf_size(x);
    assert(traf_kept(x) && !traf_trun_fails(x));
    lemma_traf_roundtrip_len(x);
    lemma_trafs_size_step(t, k);
    lemma_trafs_from_len(t, k + 1);
    lemma_trafs_size_nonneg(t.take(k));
    let after = trafs_from(t, k + 1) + r;
    assert(trafs_from(t, k) == traf_bytes(x) + trafs_from(t, k + 1));
    lemma_concat_assoc(traf_bytes(x), trafs_from(t, k + 1), r);
    lemma_moof_traf_step(d, q, base + trafs_size(t), MoofFound { mfhd: Some(m), trafs: t.take(k) }, x, after);
    assert(t.take(k).push(x) =~= t.take(k + 1));
    if k + 1 < t.len() {
        lemma_rest_after(d, q, traf_bytes(x), after);
        lemma_moof_scan_trafs(d, base, m, t, k + 1, r);
    } else {
        assert(t.take(k + 1) =~= t);
    }
}

/// Where the parts of an encoded moof box stand, its header before
/// position `p` of `d`.
#[verifier::spinoff_prover]
#[verifier::rlimit(40)]
proof fn lemma_moof_layout(b: MoofBoxView, d: Seq<u8>, p: int, r: Seq<u8>)
    requires
        moof_kept(b),
        8 <= p <= d.len(),
        rest_at(d, p - 8) == moof_bytes(b) + r,
    ensures
        moof_bytes(b).len() == moof_size(b),
        trafs_from(b.trafs, 0).len() == trafs_size(b.trafs),
        trafs_size(b.trafs) >= 0,
        rest_at(d, p) == mfhd_bytes(b.mfhd) + (trafs_from(b.trafs, 0) + r),
        rest_at(d, p + 16) == trafs_from(b.trafs, 0) + r,
{
    let t = b.trafs;
    let size = moof_size(b);
    lemma_trafs_size_nonneg(t);
    lemma_trafs_split(t, t.len() as int);
    assert(t.take(t.len() as int) =~= t);
    lemma_trafs_from_len(t, 0);
    assert(t.take(0) =~= Seq::<TrafBoxView>::empty());
    let tb = trafs_from(t, 0);
    assert(trafs_bytes(t) =~= tb);
    let mb = mfhd_bytes(b.mfhd);
    lemma_mfhd_roundtrip(b.mfhd, Seq::empty());
    let h = header_bytes(BoxType::MoofBox, size as u64);
    assert(h.len() == 8);
    assert(moof_bytes(b) =~= h + (mb + tb));
    assert(d.skip(p) =~= d.skip(p - 8).skip(8));
    assert(rest_at(d, p) =~= mb + (tb + r));
    assert(d.skip(p + 16) =~= d.skip(p).skip(16));
}

/// Reading an encoded moof box, its header before position `p` of `d`,
/// gives it back, where its encoding keeps all of it.
#[verifier::spinoff_prover]
#[verifier::rlimit(40)]
pub proof fn lemma_moof_roundtrip(b: MoofBoxView, d: Seq<u8>, p: int, r: Seq<u8>)
    requires
        moof_kept(b),
        8 <= p <= d.len() <= u64::MAX,
        rest_at(d, p - 8) == moof_bytes(b) + r,
    ensures
        moof_bytes(b).len() == moof_size(b),
        parse_moof(d, p, moof_size(b) as u64) == Ok::<MoofBoxView, Error>(b),
{
    let t = b.trafs;
    lemma_moof_layout(b, d, p, r);
    let end = p + 16 + trafs_size(t);
    let f0 = MoofFound { mfhd: None, trafs: Seq::empty() };
    let f1 = MoofFound { mfhd: Some(b.mfhd), trafs: Seq::empty() };
    let fin = MoofFound { mfhd: Some(b.mfhd), trafs: t };
    if t.len() > 0 {
        assert(t.take(0) =~= Seq::<TrafBoxView>::empty());
        lemma_moof_scan_trafs(d, p + 16, b.mfhd, t, 0, r);
        lemma_moof_mfhd_step(d, p, end, f0, b.mfhd, trafs_from(t, 0) + r);
    } else {
        assert(t =~= Seq::<TrafBoxView>::empty());
        lemma_mfhd_roundtrip(b.mfhd, r);
        let mb = mfhd_bytes(b.mfhd);
        lemma_header_roundtrip(BoxType::MfhdBox, 16, mb.skip(8) + (trafs_from(t, 0) + r));
        assert(mb + (trafs_from(t, 0) + r) =~= header_bytes(BoxType::MfhdBox, 16) + (mb.skip(8) + (trafs_from(t, 0) + r)));
        assert(d.skip(p + 8) =~= d.skip(p).skip(8));
    }
    assert(moof_scan(d, p, end, f0) == Ok::<MoofFound, Error>(fin));
}

} // verus!
