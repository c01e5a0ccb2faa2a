//! The track fragment box: a track fragment header and the optional boxes
//! that describe the fragment's samples.
use crate::error::{Error, Result};
use crate::mp4box::saio::{lemma_saio_roundtrip, parse_saio, saio_bytes, saio_kept, saio_size, SaioBox, SaioBoxView};
use crate::mp4box::saiz::{lemma_saiz_roundtrip, parse_saiz, saiz_bytes, saiz_kept, saiz_size, SaizBox, SaizBoxView};
use crate::mp4box::senc::{lemma_senc_roundtrip, parse_senc, senc_bytes, senc_kept, senc_size, SencBox, SencBoxView};
use crate::mp4box::tfdt::{lemma_tfdt_roundtrip, parse_tfdt, tfdt_bytes, tfdt_size, TfdtBox};
use crate::mp4box::tfhd::{lemma_tfhd_roundtrip, parse_tfhd, tfhd_bytes, tfhd_size, TfhdBox};
use crate::mp4box::trun::{
    lemma_trun_roundtrip, parse_trun, trun_bytes, trun_in_sync, trun_kept, trun_size, TrunBox, TrunBoxView,
};
use crate::mp4box::{
    box_result, box_start, header_bytes, lemma_header_roundtrip, parse_header, read_outcome, skip_box, skip_bytes_to, BoxHeader, Mp4Box,
    ReadBox, WriteBox, HEADER_SIZE,
};
use crate::reader::{opt_view, rest_at, Reader};
use crate::types::BoxType;
use vstd::prelude::*;

verus! {

#[derive(Debug, Clone, PartialEq, Eq, Default)]
pub struct TrafBox {
    pub tfhd: TfhdBox,
    pub tfdt: Option<TfdtBox>,
    pub trun: Option<TrunBox>,
    pub saiz: Option<SaizBox>,
    pub saio: Option<SaioBox>,
    pub senc: Option<SencBox>,
}

/// What a traf box holds, as mathematical values.
pub struct TrafBoxView {
    pub tfhd: TfhdBox,
    pub tfdt: Option<TfdtBox>,
    pub trun: Option<TrunBoxView>,
    pub saiz: Option<SaizBoxView>,
    pub saio: Option<SaioBoxView>,
    pub senc: Option<SencBoxView>,
}

impl View for TrafBox {
    type V = TrafBoxView;

    open spec fn view(&self) -> TrafBoxView {
        TrafBoxView {
            tfhd: self.tfhd,
            tfdt: self.tfdt,
            trun: opt_view(self.trun),
            saiz: opt_view(self.saiz),
            saio: opt_view(self.saio),
            senc: opt_view(self.senc),
        }
    }
}

/// The boxes found so far while reading a traf box.
pub struct TrafFound {
    pub tfhd: Option<TfhdBox>,
    pub tfdt: Option<TfdtBox>,
    pub trun: Option<TrunBoxView>,
    pub saiz: Option<SaizBoxView>,
    pub saio: Option<SaioBoxView>,
    pub senc: Option<SencBoxView>,
}

/// Nothing found yet.
pub open spec fn traf_none() -> TrafFound {
    TrafFound { tfhd: None, tfdt: None, trun: None, saiz: None, saio: None, senc: None }
}

/// Where a box that starts at `start` and is `size` bytes long ends, with
/// `v` as what was read from it.
pub open spec fn ended<V>(v: Result<V>, start: int, size: u64) -> Result<(V, int)> {
    match box_result(v, start, size) {
        Ok(x) => Ok((x, start + size)),
        Err(e) => Err(e),
    }
}

/// Reading the child box whose header `h` ends at position `q` of `d`:
/// what is found and the position at which the reader stops. A later box
/// of a kind replaces an earlier one; boxes of other kinds are skipped.
pub open spec fn traf_child(d: Seq<u8>, q: int, h: BoxHeader, found: TrafFound) -> Result<(TrafFound, int)> {
    let body = rest_at(d, q);
    let start = q - HEADER_SIZE;
    match h.name {
        BoxType::TfhdBox => match ended(parse_tfhd(body), start, h.size) {
            Ok((v, e)) => Ok((TrafFound { tfhd: Some(v), ..found }, e)),
            Err(e) => Err(e),
        },
        BoxType::TfdtBox => match parse_tfdt(body) {
            Ok(v) => Ok((TrafFound { tfdt: Some(v), ..found }, start + tfdt_size(v.version))),
            Err(e) => Err(e),
        },
        BoxType::TrunBox => match ended(parse_trun(body, h.size), start, h.size) {
            Ok((v, e)) => Ok((TrafFound { trun: Some(v), ..found }, e)),
            Err(e) => Err(e),
        },
        BoxType::SaizBox => match ended(parse_saiz(body), start, h.size) {
            Ok((v, e)) => Ok((TrafFound { saiz: Some(v), ..found }, e)),
            Err(e) => Err(e),
        },
        BoxType::SaioBox => match ended(parse_saio(body), start, h.size) {
            Ok((v, e)) => Ok((TrafFound { saio: Some(v), ..found }, e)),
            Err(e) => Err(e),
        },
        BoxType::SencBox => match parse_senc(body, start, h.size) {
            Ok(v) => Ok((TrafFound { senc: Some(v), ..found }, start + h.size)),
            Err(e) => Err(e),
        },
        _ => if start + h.size > u64::MAX {
            Err(Error::InvalidData("box end out of range"))
        } else {
            Ok((found, start + h.size))
        },
    }
}

/// Reading the children of a traf box `size` bytes long from position `p`
/// of `d` up to position `end`, having found `found`. A child larger than
/// the box is refused, and so is one after which the reader would not have
/// moved forward.
pub open spec fn traf_scan(d: Seq<u8>, p: int, end: int, size: u64, found: TrafFound) -> Result<TrafFound>
    decreases end - p,
{
    if p >= end {
        Ok(found)
    } else {
        match parse_header(rest_at(d, p)) {
            Err(e) => Err(e),
            Ok((h, n)) => if h.size > size {
                Err(Error::InvalidData("traf box contains a box with a larger size than it"))
            } else {
                match traf_child(d, p + n, h, found) {
                    Err(e) => Err(e),
                    Ok((f2, q)) => if q <= p {
                        Err(Error::InvalidData("box size too small"))
                    } else if q >= end {
                        Ok(f2)
                    } else {
                        traf_scan(d, q, end, size, f2)
                    },
                }
            },
        }
    }
}

/// The traf box that a box `size` bytes long whose header ends at position
/// `p` of `d` holds: its children up to its end, of which a track fragment
/// header must be one.
pub open spec fn parse_traf(d: Seq<u8>, p: int, size: u64) -> Result<TrafBoxView> {
    let start = p - HEADER_SIZE;
    if start + size > u64::MAX {
        Err(Error::InvalidData("box end out of range"))
    } else {
        match traf_scan(d, p, start + size, size, traf_none()) {
            Err(e) => Err(e),
            Ok(f) => match f.tfhd {
                None => Err(Error::BoxNotFound(BoxType::TfhdBox)),
                Some(tfhd) => Ok(
                    TrafBoxView { tfhd, tfdt: f.tfdt, trun: f.trun, saiz: f.saiz, saio: f.saio, senc: f.senc },
                ),
            },
        }
    }
}

/// What has been found, from the boxes read so far.
pub open spec fn traf_found(
    tfhd: Option<TfhdBox>,
    tfdt: Option<TfdtBox>,
    trun: Option<TrunBox>,
    saiz: Option<SaizBox>,
    saio: Option<SaioBox>,
    senc: Option<SencBox>,
) -> TrafFound {
    TrafFound {
        tfhd,
        tfdt,
        trun: opt_view(trun),
        saiz: opt_view(saiz),
        saio: opt_view(saio),
        senc: opt_view(senc),
    }
}

/// The size of the encoding of `b`: the header and each child present.
pub open spec fn traf_size(b: TrafBoxView) -> int {
    8 + tfhd_size(b.tfhd) + match b.tfdt {
        Some(x) => tfdt_size(x.version) as int,
        None => 0,
    } + match b.trun {
        Some(x) => trun_size(x.flags, x.sample_count),
        None => 0,
    } + match b.saiz {
        Some(x) => saiz_size(x),
        None => 0,
    } + match b.saio {
        Some(x) => saio_size(x),
        None => 0,
    } + match b.senc {
        Some(x) => senc_size(x),
        None => 0,
    }
}

/// The bytes of the children of `b` after its track run.
pub open spec fn traf_tail_bytes(b: TrafBoxView) -> Seq<u8> {
    (match b.saiz {
        Some(x) => saiz_bytes(x),
        None => Seq::empty(),
    }) + (match b.saio {
        Some(x) => saio_bytes(x),
        None => Seq::empty(),
    }) + (match b.senc {
        Some(x) => senc_bytes(x),
        None => Seq::empty(),
    })
}

/// Whether writing `b` fails at its track run, whose sample count is out
/// of sync.
pub open spec fn traf_trun_fails(b: TrafBoxView) -> bool {
    b.trun matches Some(t) && !trun_in_sync(t)
}

/// The bytes of the optional decode time box of `b`.
pub open spec fn traf_tfdt_bytes(b: TrafBoxView) -> Seq<u8> {
    match b.tfdt {
        Some(x) => tfdt_bytes(x),
        None => Seq::empty(),
    }
}

/// The bytes of the optional track run of `b`.
pub open spec fn traf_trun_bytes(b: TrafBoxView) -> Seq<u8> {
    match b.trun {
        Some(x) => trun_bytes(x),
        None => Seq::empty(),
    }
}

/// The bytes that encoding `b` appends: the header and the children in
/// order, stopping after a track run whose sample count is out of sync.
pub open spec fn traf_bytes(b: TrafBoxView) -> Seq<u8> {
    header_bytes(BoxType::TrafBox, traf_size(b) as u64) + (tfhd_bytes(b.tfhd) + (traf_tfdt_bytes(b) + (
    traf_trun_bytes(b) + if traf_trun_fails(b) {
        Seq::empty()
    } else {
        traf_tail_bytes(b)
    })))
}

/// Appends the children of `b` that follow its track run.
fn write_traf_tail(writer: &mut Vec<u8>, b: &TrafBox)
    requires
        b.saiz matches Some(x) ==> x.writable(),
        b.saio matches Some(x) ==> x.writable(),
        b.senc matches Some(x) ==> x.writable(),
    ensures
        final(writer)@ == old(writer)@ + traf_tail_bytes(b@),
{
    let ghost w0 = writer@;
    if let Some(saiz) = &b.saiz {
        let _ = saiz.write_box(writer);
    }
    let ghost w1 = writer@;
    if let Some(saio) = &b.saio {
        let _ = saio.write_box(writer);
    }
    let ghost w2 = writer@;
    if let Some(senc) = &b.senc {
        let _ = senc.write_box(writer);
    }
    proof {
        let x = match b@.saiz {
            Some(v) => saiz_bytes(v),
            None => Seq::empty(),
        };
        let y = match b@.saio {
            Some(v) => saio_bytes(v),
            None => Seq::empty(),
        };
        let z = match b@.senc {
            Some(v) => senc_bytes(v),
            None => Seq::empty(),
        };
        assert(w1 == w0 + x);
        assert(w2 == w1 + y);
        assert(writer@ == w2 + z);
        vstd::seq_lib::lemma_concat_associative(w0, x, y);
        vstd::seq_lib::lemma_concat_associative(w0, x + y, z);
    }
}

/// Reads the child box whose header `h` was just read into the slot for
/// its kind, or skips it.
fn read_traf_child(
    reader: &mut Reader,
    h: BoxHeader,
    tfhd: &mut Option<TfhdBox>,
    tfdt: &mut Option<TfdtBox>,
    trun: &mut Option<TrunBox>,
    saiz: &mut Option<SaizBox>,
    saio: &mut Option<SaioBox>,
    senc: &mut Option<SencBox>,
) -> (res: Result<()>)
    requires
        old(reader).pos() >= HEADER_SIZE,
    ensures
        final(reader).data_seq() == old(reader).data_seq(),
        match res {
            Ok(_) => traf_child(
                old(reader).data_seq(),
                old(reader).pos(),
                h,
                traf_found(*old(tfhd), *old(tfdt), *old(trun), *old(saiz), *old(saio), *old(senc)),
            ) == Ok::<(TrafFound, int), Error>(
                (
                    traf_found(*final(tfhd), *final(tfdt), *final(trun), *final(saiz), *final(saio), *final(senc)),
                    final(reader).pos(),
                ),
            ),
            Err(e) => traf_child(
                old(reader).data_seq(),
                old(reader).pos(),
                h,
                traf_found(*old(tfhd), *old(tfdt), *old(trun), *old(saiz), *old(saio), *old(senc)),
            ) == Err::<(TrafFound, int), Error>(e),
        },
{
    assert(reader.rem() == rest_at(reader.data_seq(), reader.pos()));
    match h.name {
        BoxType::TfhdBox => {
            *tfhd = Some(TfhdBox::read_box(reader, h.size)?);
        },
        BoxType::TfdtBox => {
            *tfdt = Some(TfdtBox::read_box(reader, h.size)?);
        },
        BoxType::TrunBox => {
            *trun = Some(TrunBox::read_box(reader, h.size)?);
        },
        BoxType::SaizBox => {
            *saiz = Some(SaizBox::read_box(reader, h.size)?);
        },
        BoxType::SaioBox => {
            *saio = Some(SaioBox::read_box(reader, h.size)?);
        },
        BoxType::SencBox => {
            *senc = Some(SencBox::read_box(reader, h.size)?);
        },
        _ => {
            skip_box(reader, h.size)?;
        },
    }
    Ok(())
}

impl TrafBox {
    pub fn get_type(&self) -> (t: BoxType)
        ensures
            t == BoxType::TrafBox,
    {
        BoxType::TrafBox
    }

    pub fn get_size(&self) -> (s: u64)
        requires
            self.has_size(),
        ensures
            s == traf_size(self@),
    {
        let mut size = HEADER_SIZE;
        size = size + self.tfhd.box_size();
        if let Some(tfdt) = &self.tfdt {
            size = size + tfdt.box_size();
        }
        if let Some(trun) = &self.trun {
            size = size + trun.box_size();
        }
        if let Some(saiz) = &self.saiz {
            size = size + saiz.box_size();
        }
        if let Some(saio) = &self.saio {
            size = size + saio.box_size();
        }
        if let Some(senc) = &self.senc {
            size = size + senc.box_size();
        }
        size
    }
}

impl Mp4Box for TrafBox {
    open spec fn has_size(&self) -> bool {
        &&& self.tfdt matches Some(x) ==> x.has_size()
        &&& self.senc matches Some(x) ==> x.has_size()
        &&& traf_size(self@) <= u64::MAX
    }

    fn box_type(&self) -> (t: BoxType)
        ensures
            t == BoxType::TrafBox,
    {
        self.get_type()
    }

    fn box_size(&self) -> (s: u64)
        ensures
            s == traf_size(self@),
    {
        self.get_size()
    }
}

impl ReadBox for TrafBox {
    open spec fn size_accepted(size: u64) -> bool {
        true
    }

    /// Decodes the box: its children up to its end; a track fragment
    /// header is required.
    #[verifier::spinoff_prover]
    fn read_box(reader: &mut Reader, size: u64) -> (res: Result<Self>)
        ensures
            res is Ok ==> final(reader).pos() == old(reader).pos() - HEADER_SIZE + size,
            read_outcome(res, parse_traf(old(reader).data_seq(), old(reader).pos(), size)),
    {
        let ghost d = old(reader).data_seq();
        let ghost p0 = old(reader).pos();
        let start = box_start(reader);
        if size > u64::MAX - start {
            return Err(Error::InvalidData("box end out of range"));
        }
        let end = start + size;
        let mut tfhd: Option<TfhdBox> = None;
        let mut tfdt: Option<TfdtBox> = None;
        let mut trun: Option<TrunBox> = None;
        let mut saiz: Option<SaizBox> = None;
        let mut saio: Option<SaioBox> = None;
        let mut senc: Option<SencBox> = None;
        let mut current = reader.position();
        while current < end
            invariant
                reader.data_seq() == d,
                d == old(reader).data_seq(),
                p0 == old(reader).pos(),
                p0 >= HEADER_SIZE,
                start == p0 - HEADER_SIZE,
                current == reader.pos(),
                end == p0 - HEADER_SIZE + size,
                traf_scan(d, p0, end as int, size, traf_none()) == traf_scan(
                    d,
                    current as int,
                    end as int,
                    size,
                    traf_found(tfhd, tfdt, trun, saiz, saio, senc),
                ),
            decreases (if current < end { end - current } else { 0 }),
        {
            let ghost found = traf_found(tfhd, tfdt, trun, saiz, saio, senc);
            assert(reader.rem() == rest_at(d, current as int));
            let header = BoxHeader::read(reader)?;
            if header.size > size {
                return Err(Error::InvalidData("traf box contains a box with a larger size than it"));
            }
            read_traf_child(reader, header, &mut tfhd, &mut tfdt, &mut trun, &mut saiz, &mut saio, &mut senc)?;
            let next = reader.position();
            if next <= current {
                return Err(Error::InvalidData("box size too small"));
            }
            current = next;
        }
        let tfhd = match tfhd {
            Some(x) => x,
            None => {
                return Err(Error::BoxNotFound(BoxType::TfhdBox));
            },
        };
        skip_bytes_to(reader, start, size)?;
        Ok(TrafBox { tfhd, tfdt, trun, saiz, saio, senc })
    }
}

impl WriteBox for TrafBox {
    open spec fn writable(&self) -> bool {
        &&& self.has_size()
        &&& self.tfhd.writable()
        &&& self.tfdt matches Some(x) ==> x.writable()
        &&& self.trun matches Some(x) ==> x.writable()
        &&& self.saiz matches Some(x) ==> x.writable()
        &&& self.saio matches Some(x) ==> x.writable()
        &&& self.senc matches Some(x) ==> x.writable()
    }

    /// Writes the box and its children; a track run whose sample count is
    /// out of sync stops the writing with its error.
    #[verifier::spinoff_prover]
    fn write_box(&self, writer: &mut Vec<u8>) -> (res: Result<u64>)
        ensures
            final(writer)@ == old(writer)@ + traf_bytes(self@),
            res == if traf_trun_fails(self@) {
                Err::<u64, Error>(Error::InvalidData("sample count out of sync"))
            } else {
                Ok::<u64, Error>(traf_size(self@) as u64)
            },
    {
        let size = self.box_size();
        BoxHeader::new(self.box_type(), size).write(writer)?;
        let ghost w1 = writer@;
        self.tfhd.write_box(writer)?;
        let ghost w2 = writer@;
        if let Some(tfdt) = &self.tfdt {
            tfdt.write_box(writer)?;
        }
        let ghost w3 = writer@;
        assert(w3 == w2 + traf_tfdt_bytes(self@));
        let mut failed = false;
        if let Some(trun) = &self.trun {
            let r = trun.write_box(writer);
            failed = r.is_err();
        }
        let ghost w4 = writer@;
        assert(w4 == w3 + traf_trun_bytes(self@));
        assert(failed == traf_trun_fails(self@));
        if !failed {
            write_traf_tail(writer, self);
        }
        proof {
            let h = header_bytes(BoxType::TrafBox, traf_size(self@) as u64);
            let t = tfhd_bytes(self@.tfhd);
            let d = traf_tfdt_bytes(self@);
            let r = traf_trun_bytes(self@);
            let tail = if traf_trun_fails(self@) {
                Seq::empty()
            } else {
                traf_tail_bytes(self@)
            };
            if failed {
                assert(writer@ =~= w4 + tail);
            }
            vstd::seq_lib::lemma_concat_associative(w3, r, tail);
            vstd::seq_lib::lemma_concat_associative(w2, d, r + tail);
            vstd::seq_lib::lemma_concat_associative(w1, t, d + (r + tail));
            vstd::seq_lib::lemma_concat_associative(old(writer)@, h, t + (d + (r + tail)));
        }
        if failed {
            return Err(Error::InvalidData("sample count out of sync"));
        }
        Ok(size)
    }
}


/// Whether the encoding of a traf box keeps all of it: each child present
/// is kept by its own encoding, and the box size fits in 32 bits.
pub open spec fn traf_kept(b: TrafBoxView) -> bool {
    &&& b.tfdt matches Some(x) ==> x.writable()
    &&& b.trun matches Some(x) ==> trun_kept(x)
    &&& b.saiz matches Some(x) ==> saiz_kept(x)
    &&& b.saio matches Some(x) ==> saio_kept(x)
    &&& b.senc matches Some(x) ==> senc_kept(x)
    &&& traf_size(b) <= u32::MAX
}

/// The encoding of the child of `b` in slot `k`, in the order in which the
/// children are written, or nothing where that child is missing.
pub open spec fn traf_child_bytes(b: TrafBoxView, k: int) -> Seq<u8> {
    if k == 0 {
        tfhd_bytes(b.tfhd)
    } else if k == 1 {
        traf_tfdt_bytes(b)
    } else if k == 2 {
        traf_trun_bytes(b)
    } else if k == 3 {
        match b.saiz {
            Some(x) => saiz_bytes(x),
            None => Seq::empty(),
        }
    } else if k == 4 {
        match b.saio {
            Some(x) => saio_bytes(x),
            None => Seq::empty(),
        }
    } else if k == 5 {
        match b.senc {
            Some(x) => senc_bytes(x),
            None => Seq::empty(),
        }
    } else {
        Seq::empty()
    }
}

/// The size of the child of `b` in slot `k`, 0 where it is missing.
pub open spec fn traf_child_size(b: TrafBoxView, k: int) -> int {
    if k == 0 {
        tfhd_size(b.tfhd)
    } else if k == 1 {
        match b.tfdt {
            Some(x) => tfdt_size(x.version) as int,
            None => 0,
        }
    } else if k == 2 {
        match b.trun {
            Some(x) => trun_size(x.flags, x.sample_count),
            None => 0,
        }
    } else if k == 3 {
        match b.saiz {
            Some(x) => saiz_size(x),
            None => 0,
        }
    } else if k == 4 {
        match b.saio {
            Some(x) => saio_size(x),
            None => 0,
        }
    } else if k == 5 {
        match b.senc {
            Some(x) => senc_size(x),
            None => 0,
        }
    } else {
        0
    }
}

/// Where the child in slot `k` of `b` starts, counted from the end of the
/// traf header.
pub open spec fn traf_pos(b: TrafBoxView, k: int) -> int
    decreases k,
{
    if k <= 0 {
        0
    } else {
        traf_pos(b, k - 1) + traf_child_size(b, k - 1)
    }
}

/// The encodings of the children of `b` from slot `k` on.
pub open spec fn traf_rest_bytes(b: TrafBoxView, k: int) -> Seq<u8>
    decreases 6 - k,
{
    if k >= 6 {
        Seq::empty()
    } else {
        traf_child_bytes(b, k) + traf_rest_bytes(b, k + 1)
    }
}

/// What has been found of `b` once the children before slot `k` are read.
pub open spec fn traf_upto(b: TrafBoxView, k: int) -> TrafFound {
    TrafFound {
        tfhd: if k >= 1 { Some(b.tfhd) } else { None },
        tfdt: if k >= 2 { b.tfdt } else { None },
        trun: if k >= 3 { b.trun } else { None },
        saiz: if k >= 4 { b.saiz } else { None },
        saio: if k >= 5 { b.saio } else { None },
        senc: if k >= 6 { b.senc } else { None },
    }
}

/// The child of a kept traf box in slot `k` takes as many bytes as its
/// size, and one that is there starts with its header.
proof fn lemma_traf_child_len(b: TrafBoxView, k: int)
    requires
        traf_kept(b),
        0 <= k < 6,
    ensures
        traf_child_bytes(b, k).len() == traf_child_size(b, k),
        traf_child_size(b, k) >= 0,
        k == 0 ==> traf_child_size(b, k) >= 16,
        traf_child_size(b, k) > 0 ==> traf_child_size(b, k) >= 8,
{
    lemma_tfhd_roundtrip(b.tfhd, Seq::empty());
    if let Some(x) = b.tfdt {
        lemma_tfdt_roundtrip(x, Seq::empty());
    }
    if let Some(x) = b.trun {
        lemma_trun_roundtrip(x, Seq::empty());
    }
    if let Some(x) = b.saiz {
        lemma_saiz_roundtrip(x, Seq::empty());
    }
    if let Some(x) = b.saio {
        lemma_saio_roundtrip(x, Seq::empty());
    }
    if let Some(x) = b.senc {
        lemma_senc_roundtrip(x, 0, Seq::empty());
    }
}


/// Reading a child box whose header `h` stands at position `q` of `d`,
/// inside a traf box, once what it gives is known.
#[verifier::spinoff_prover]
proof fn lemma_traf_scan_step(
    d: Seq<u8>,
    q: int,
    end: int,
    size: u64,
    found: TrafFound,
    h: BoxHeader,
    g: TrafFound,
    rest: Seq<u8>,
)
    requires
        q < end,
        8 <= h.size <= size,
        h.size <= u32::MAX,
        !(h.name is UnknownBox),
        rest_at(d, q) == header_bytes(h.name, h.size) + rest,
        traf_child(d, q + 8, h, found) == Ok::<(TrafFound, int), Error>((g, q + h.size)),
    ensures
        traf_scan(d, q, end, size, found) == (if q + h.size >= end {
            Ok::<TrafFound, Error>(g)
        } else {
            traf_scan(d, q + h.size, end, size, g)
        }),
{
    lemma_header_roundtrip(h.name, h.size, rest);
}

/// Reading an encoded tfhd box at position `q` of `d` inside a traf box.
#[verifier::spinoff_prover]
#[verifier::rlimit(40)]
proof fn lemma_traf_tfhd(d: Seq<u8>, q: int, found: TrafFound, x: TfhdBox, after: Seq<u8>)
    requires
        
        8 <= q,
        q + tfhd_size(x) <= d.len() <= u64::MAX,
        tfhd_size(x) <= u32::MAX,
        rest_at(d, q) == tfhd_bytes(x) + after,
    ensures
        tfhd_size(x) >= 8,
        rest_at(d, q) == header_bytes(BoxType::TfhdBox, (tfhd_size(x)) as u64) + (tfhd_bytes(x).skip(8) + after),
        traf_child(d, q + 8, BoxHeader { name: BoxType::TfhdBox, size: (tfhd_size(x)) as u64 }, found) == Ok::<
            (TrafFound, int),
            Error,
        >((TrafFound { tfhd: Some(x), ..found }, q + tfhd_size(x))),
{
    lemma_tfhd_roundtrip(x, after);
    assert(tfhd_bytes(x) =~= header_bytes(BoxType::TfhdBox, (tfhd_size(x)) as u64) + tfhd_bytes(x).skip(8));
    assert(rest_at(d, q) =~= header_bytes(BoxType::TfhdBox, (tfhd_size(x)) as u64) + (tfhd_bytes(x).skip(8) + after));
    assert(d.skip(q + 8) =~= d.skip(q).skip(8));
    assert(rest_at(d, q + 8) =~= (tfhd_bytes(x) + after).skip(8));
}

/// Reading an encoded tfdt box at position `q` of `d` inside a traf box.
#[verifier::spinoff_prover]
#[verifier::rlimit(40)]
proof fn lemma_traf_tfdt(d: Seq<u8>, q: int, found: TrafFound, x: TfdtBox, after: Seq<u8>)
    requires
        x.writable(),
        8 <= q,
        q + tfdt_size(x.version) as int <= d.len() <= u64::MAX,
        tfdt_size(x.version) as int <= u32::MAX,
        rest_at(d, q) == tfdt_bytes(x) + after,
    ensures
        tfdt_size(x.version) as int >= 8,
        rest_at(d, q) == header_bytes(BoxType::TfdtBox, (tfdt_size(x.version) as int) as u64) + (tfdt_bytes(x).skip(8) + after),
        traf_child(d, q + 8, BoxHeader { name: BoxType::TfdtBox, size: (tfdt_size(x.version) as int) as u64 }, found) == Ok::<
            (TrafFound, int),
            Error,
        >((TrafFound { tfdt: Some(x), ..found }, q + tfdt_size(x.version) as int)),
{
    lemma_tfdt_roundtrip(x, after);
    assert(tfdt_bytes(x) =~= header_bytes(BoxType::TfdtBox, (tfdt_size(x.version) as int) as u64) + tfdt_bytes(x).skip(8));
    assert(rest_at(d, q) =~= header_bytes(BoxType::TfdtBox, (tfdt_size(x.version) as int) as u64) + (tfdt_bytes(x).skip(8) + after));
    assert(d.skip(q + 8) =~= d.skip(q).skip(8));
    assert(rest_at(d, q + 8) =~= (tfdt_bytes(x) + after).skip(8));
}

/// Reading an encoded trun box at position `q` of `d` inside a traf box.
#[verifier::spinoff_prover]
#[verifier::rlimit(40)]
proof fn lemma_traf_trun(d: Seq<u8>, q: int, found: TrafFound, x: TrunBoxView, after: Seq<u8>)
    requires
        trun_kept(x),
        8 <= q,
        q + trun_size(x.flags, x.sample_count) <= d.len() <= u64::MAX,
        trun_size(x.flags, x.sample_count) <= u32::MAX,
        rest_at(d, q) == trun_bytes(x) + after,
    ensures
        trun_size(x.flags, x.sample_count) >= 8,
        rest_at(d, q) == header_bytes(BoxType::TrunBox, (trun_size(x.flags, x.sample_count)) as u64) + (trun_bytes(x).skip(8) + after),
        traf_child(d, q + 8, BoxHeader { name: BoxType::TrunBox, size: (trun_size(x.flags, x.sample_count)) as u64 }, found) == Ok::<
            (TrafFound, int),
            Error,
        >((TrafFound { trun: Some(x), ..found }, q + trun_size(x.flags, x.sample_count))),
{
    lemma_trun_roundtrip(x, after);
    assert(trun_bytes(x) =~= header_bytes(BoxType::TrunBox, (trun_size(x.flags, x.sample_count)) as u64) + trun_bytes(x).skip(8));
    assert(rest_at(d, q) =~= header_bytes(BoxType::TrunBox, (trun_size(x.flags, x.sample_count)) as u64) + (trun_bytes(x).skip(8) + after));
    assert(d.skip(q + 8) =~= d.skip(q).skip(8));
    assert(rest_at(d, q + 8) =~= (trun_bytes(x) + after).skip(8));
}

/// Reading an encoded saiz box at position `q` of `d` inside a traf box.
#[verifier::spinoff_prover]
#[verifier::rlimit(40)]
proof fn lemma_traf_saiz(d: Seq<u8>, q: int, found: TrafFound, x: SaizBoxView, after: Seq<u8>)
    requires
        saiz_kept(x),
        8 <= q,
        q + saiz_size(x) <= d.len() <= u64::MAX,
        saiz_size(x) <= u32::MAX,
        rest_at(d, q) == saiz_bytes(x) + after,
    ensures
        saiz_size(x) >= 8,
        rest_at(d, q) == header_bytes(BoxType::SaizBox, (saiz_size(x)) as u64) + (saiz_bytes(x).skip(8) + after),
        traf_child(d, q + 8, BoxHeader { name: BoxType::SaizBox, size: (saiz_size(x)) as u64 }, found) == Ok::<
            (TrafFound, int),
            Error,
        >((TrafFound { saiz: Some(x), ..found }, q + saiz_size(x))),
{
    lemma_saiz_roundtrip(x, after);
    assert(saiz_bytes(x) =~= header_bytes(BoxType::SaizBox, (saiz_size(x)) as u64) + saiz_bytes(x).skip(8));
    assert(rest_at(d, q) =~= header_bytes(BoxType::SaizBox, (saiz_size(x)) as u64) + (saiz_bytes(x).skip(8) + after));
    assert(d.skip(q + 8) =~= d.skip(q).skip(8));
    assert(rest_at(d, q + 8) =~= (saiz_bytes(x) + after).skip(8));
}

/// The body of an encoded saio box at position `q` of `d` reads back.
#[verifier::spinoff_prover]
#[verifier::rlimit(40)]
proof fn lemma_traf_saio_body(d: Seq<u8>, q: int, x: SaioBoxView, after: Seq<u8>)
    requires
        saio_kept(x),
        8 <= q,
        q + saio_size(x) <= d.len(),
        rest_at(d, q) == saio_bytes(x) + after,
    ensures
        saio_size(x) >= 8,
        rest_at(d, q) == header_bytes(BoxType::SaioBox, (saio_size(x)) as u64) + (saio_bytes(x).skip(8) + after),
        parse_saio(rest_at(d, q + 8)) == Ok::<SaioBoxView, Error>(x),
{
    let h = header_bytes(BoxType::SaioBox, (saio_size(x)) as u64);
    let body = crate::mp4box::saio::saio_body(x);
    lemma_saio_roundtrip(x, after);
    assert(h.len() == 8);
    assert(saio_bytes(x) == h + body);
    assert(saio_bytes(x).skip(8) =~= body);
    assert(saio_bytes(x) + after =~= h + (body + after));
    assert((saio_bytes(x) + after).skip(8) =~= body + after);
    assert(d.skip(q + 8) =~= d.skip(q).skip(8));
}

/// Reading an encoded saio box at position `q` of `d` inside a traf box.
#[verifier::spinoff_prover]
#[verifier::rlimit(40)]
proof fn lemma_traf_saio(d: Seq<u8>, q: int, found: TrafFound, x: SaioBoxView, after: Seq<u8>)
    requires
        saio_kept(x),
        8 <= q,
        q + saio_size(x) <= d.len() <= u64::MAX,
        saio_size(x) <= u32::MAX,
        rest_at(d, q) == saio_bytes(x) + after,
    ensures
        saio_size(x) >= 8,
        rest_at(d, q) == header_bytes(BoxType::SaioBox, (saio_size(x)) as u64) + (saio_bytes(x).skip(8) + after),
        traf_child(d, q + 8, BoxHeader { name: BoxType::SaioBox, size: (saio_size(x)) as u64 }, found) == Ok::<
            (TrafFound, int),
            Error,
        >((TrafFound { saio: Some(x), ..found }, q + saio_size(x))),
{
    lemma_traf_saio_body(d, q, x, after);
}

/// Reading an encoded senc box at position `q` of `d` inside a traf box.
#[verifier::spinoff_prover]
#[verifier::rlimit(40)]
proof fn lemma_traf_senc(d: Seq<u8>, q: int, found: TrafFound, x: SencBoxView, after: Seq<u8>)
    requires
        senc_kept(x),
        8 <= q,
        q + senc_size(x) <= d.len() <= u64::MAX,
        senc_size(x) <= u32::MAX,
        rest_at(d, q) == senc_bytes(x) + after,
    ensures
        senc_size(x) >= 8,
        rest_at(d, q) == header_bytes(BoxType::SencBox, (senc_size(x)) as u64) + (senc_bytes(x).skip(8) + after),
        traf_child(d, q + 8, BoxHeader { name: BoxType::SencBox, size: (senc_size(x)) as u64 }, found) == Ok::<
            (TrafFound, int),
            Error,
        >((TrafFound { senc: Some(x), ..found }, q + senc_size(x))),
{
    lemma_senc_roundtrip(x, q, after);
    assert(senc_bytes(x) =~= header_bytes(BoxType::SencBox, (senc_size(x)) as u64) + senc_bytes(x).skip(8));
    assert(rest_at(d, q) =~= header_bytes(BoxType::SencBox, (senc_size(x)) as u64) + (senc_bytes(x).skip(8) + after));
    assert(d.skip(q + 8) =~= d.skip(q).skip(8));
    assert(rest_at(d, q + 8) =~= (senc_bytes(x) + after).skip(8));
}


/// Each child that a kept traf box holds is no larger than the box.
proof fn lemma_traf_sizes(b: TrafBoxView)
    requires
        traf_kept(b),
    ensures
        forall|k: int| 0 <= k < 6 ==> 0 <= #[trigger] traf_child_size(b, k) <= traf_size(b),
        traf_pos(b, 6) == traf_size(b) - 8,
        traf_size(b) <= u32::MAX,
{
    assert forall|k: int| 0 <= k < 6 implies 0 <= #[trigger] traf_child_size(b, k) by {
        lemma_traf_child_len(b, k);
    }
    lemma_traf_child_len(b, 0);
    assert(traf_pos(b, 6) == traf_size(b) - 8) by {
        reveal_with_fuel(traf_pos, 7);
    }
}

/// The encodings of the children of a kept traf box from slot `k` on take
/// the bytes from where slot `k` starts to where the last ends.
proof fn lemma_traf_rest_len(b: TrafBoxView, k: int)
    requires
        traf_kept(b),
        0 <= k <= 6,
    ensures
        traf_rest_bytes(b, k).len() == traf_pos(b, 6) - traf_pos(b, k),
        traf_pos(b, k) <= traf_pos(b, 6),
    decreases 6 - k,
{
    if k < 6 {
        lemma_traf_child_len(b, k);
        lemma_traf_rest_len(b, k + 1);
    }
}

/// Where the children of a kept traf box from slot `k` on take no bytes,
/// nothing more is found after slot `k`.
proof fn lemma_traf_upto_end(b: TrafBoxView, k: int)
    requires
        traf_kept(b),
        1 <= k <= 6,
        traf_pos(b, k) == traf_pos(b, 6),
    ensures
        traf_upto(b, k) == traf_upto(b, 6),
    decreases 6 - k,
{
    if k < 6 {
        lemma_traf_child_len(b, k);
        lemma_traf_rest_len(b, k + 1);
        lemma_traf_upto_end(b, k + 1);
        assert(traf_child_size(b, k) == 0);
        if k == 1 {
            if let Some(x) = b.tfdt {
                lemma_tfdt_roundtrip(x, Seq::empty());
            }
        }
        if k == 2 {
            if let Some(x) = b.trun {
                lemma_trun_roundtrip(x, Seq::empty());
            }
        }
        if k == 3 {
            if let Some(x) = b.saiz {
                lemma_saiz_roundtrip(x, Seq::empty());
            }
        }
        if k == 4 {
            if let Some(x) = b.saio {
                lemma_saio_roundtrip(x, Seq::empty());
            }
        }
        if k == 5 {
            if let Some(x) = b.senc {
                lemma_senc_roundtrip(x, 0, Seq::empty());
            }
        }
    }
}

/// Slots start no earlier than the end of the traf header.
proof fn lemma_traf_pos_nonneg(b: TrafBoxView, k: int)
    requires
        traf_kept(b),
        0 <= k <= 6,
    ensures
        traf_pos(b, k) >= 0,
    decreases k,
{
    if k > 0 {
        lemma_traf_pos_nonneg(b, k - 1);
        lemma_traf_child_len(b, k - 1);
    }
}

/// A slot of a kept traf box that takes no bytes holds no child, so that
/// reading past it finds nothing new.
proof fn lemma_traf_absent(b: TrafBoxView, k: int)
    requires
        traf_kept(b),
        0 <= k < 6,
        traf_child_size(b, k) == 0,
    ensures
        k >= 1,
        traf_upto(b, k + 1) == traf_upto(b, k),
{
    lemma_traf_child_len(b, k);
    if k == 1 {
        if let Some(x) = b.tfdt {
            lemma_tfdt_roundtrip(x, Seq::empty());
        }
    } else if k == 2 {
        if let Some(x) = b.trun {
            lemma_trun_roundtrip(x, Seq::empty());
        }
    } else if k == 3 {
        if let Some(x) = b.saiz {
            lemma_saiz_roundtrip(x, Seq::empty());
        }
    } else if k == 4 {
        if let Some(x) = b.saio {
            lemma_saio_roundtrip(x, Seq::empty());
        }
    } else if k == 5 {
        if let Some(x) = b.senc {
            lemma_senc_roundtrip(x, 0, Seq::empty());
        }
    }
}

/// Reading the child of a kept traf box in slot `k`, which is there, at
/// position `q` of `d`.
#[verifier::spinoff_prover]
#[verifier::rlimit(60)]
proof fn lemma_traf_slot(b: TrafBoxView, d: Seq<u8>, q: int, end: int, size: u64, k: int, after: Seq<u8>)
    requires
        traf_kept(b),
        0 <= k < 6,
        traf_child_size(b, k) > 0,
        8 <= q < end,
        q + traf_child_size(b, k) <= d.len() <= u64::MAX,
        traf_child_size(b, k) <= size,
        rest_at(d, q) == traf_child_bytes(b, k) + after,
    ensures
        traf_scan(d, q, end, size, traf_upto(b, k)) == (if q + traf_child_size(b, k) >= end {
            Ok::<TrafFound, Error>(traf_upto(b, k + 1))
        } else {
            traf_scan(d, q + traf_child_size(b, k), end, size, traf_upto(b, k + 1))
        }),
{
    lemma_traf_sizes(b);
    let f = traf_upto(b, k);
    let g = traf_upto(b, k + 1);
    let n = traf_child_size(b, k) as u64;
    if k == 0 {
        lemma_traf_tfhd(d, q, f, b.tfhd, after);
        assert(TrafFound { tfhd: Some(b.tfhd), ..f } == g);
        lemma_traf_scan_step(d, q, end, size, f, BoxHeader { name: BoxType::TfhdBox, size: n }, g, tfhd_bytes(b.tfhd).skip(8) + after);
    } else if k == 1 {
        let x = b.tfdt->0;
        lemma_traf_tfdt(d, q, f, x, after);
        assert(TrafFound { tfdt: Some(x), ..f } == g);
        lemma_traf_scan_step(d, q, end, size, f, BoxHeader { name: BoxType::TfdtBox, size: n }, g, tfdt_bytes(x).skip(8) + after);
    } else if k == 2 {
        let x = b.trun->0;
        lemma_traf_trun(d, q, f, x, after);
        assert(TrafFound { trun: Some(x), ..f } == g);
        lemma_traf_scan_step(d, q, end, size, f, BoxHeader { name: BoxType::TrunBox, size: n }, g, trun_bytes(x).skip(8) + after);
    } else if k == 3 {
        let x = b.saiz->0;
        lemma_traf_saiz(d, q, f, x, after);
        assert(TrafFound { saiz: Some(x), ..f } == g);
        lemma_traf_scan_step(d, q, end, size, f, BoxHeader { name: BoxType::SaizBox, size: n }, g, saiz_bytes(x).skip(8) + after);
    } else if k == 4 {
        let x = b.saio->0;
        lemma_traf_saio(d, q, f, x, after);
        assert(TrafFound { saio: Some(x), ..f } == g);
        lemma_traf_scan_step(d, q, end, size, f, BoxHeader { name: BoxType::SaioBox, size: n }, g, saio_bytes(x).skip(8) + after);
    } else {
        let x = b.senc->0;
        lemma_traf_senc(d, q, f, x, after);
        assert(TrafFound { senc: Some(x), ..f } == g);
        lemma_traf_scan_step(d, q, end, size, f, BoxHeader { name: BoxType::SencBox, size: n }, g, senc_bytes(x).skip(8) + after);
    }
}

/// Reading the children of an encoded traf box from slot `k` on, with
/// those before it read, finds all of them.
#[verifier::spinoff_prover]
#[verifier::rlimit(40)]
proof fn lemma_traf_scan_from(b: TrafBoxView, d: Seq<u8>, p: int, k: int, r: Seq<u8>)
    requires
        traf_kept(b),
        0 <= k <= 6,
        8 <= p,
        p + traf_pos(b, 6) <= d.len() <= u64::MAX,
        p + traf_pos(b, k) < p + traf_pos(b, 6),
        rest_at(d, p + traf_pos(b, k)) == traf_rest_bytes(b, k) + r,
    ensures
        traf_scan(d, p + traf_pos(b, k), p + traf_pos(b, 6), traf_size(b) as u64, traf_upto(b, k)) == Ok::<
            TrafFound,
            Error,
        >(traf_upto(b, 6)),
    decreases 6 - k,
{
    lemma_traf_sizes(b);
    lemma_traf_rest_len(b, k);
    let end = p + traf_pos(b, 6);
    let q = p + traf_pos(b, k);
    let cs = traf_child_size(b, k);
    lemma_traf_child_len(b, k);
    lemma_traf_rest_len(b, k + 1);
    let cb = traf_child_bytes(b, k);
    let after = traf_rest_bytes(b, k + 1) + r;
    assert(rest_at(d, q) =~= cb + after);
    assert(traf_pos(b, k + 1) == traf_pos(b, k) + cs);
    assert(d.skip(q + cs) =~= d.skip(q).skip(cs));
    assert(rest_at(d, q + cs) =~= after);
    lemma_traf_pos_nonneg(b, k);
    if cs == 0 {
        lemma_traf_absent(b, k);
        assert(traf_upto(b, k + 1) == traf_upto(b, k));
        lemma_traf_scan_from(b, d, p, k + 1, r);
    } else {
        lemma_traf_slot(b, d, q, end, traf_size(b) as u64, k, after);
        if q + cs >= end {
            lemma_traf_upto_end(b, k + 1);
        } else {
            lemma_traf_scan_from(b, d, p, k + 1, r);
        }
    }
}

/// Reading an encoded traf box, its header before position `p` of `d`,
/// gives it back, where its encoding keeps all of it and its track run, if
/// any, has a sample count in sync with its sample sizes.
#[verifier::spinoff_prover]
#[verifier::rlimit(40)]
pub proof fn lemma_traf_roundtrip(b: TrafBoxView, d: Seq<u8>, p: int, r: Seq<u8>)
    requires
        traf_kept(b),
        !traf_trun_fails(b),
        8 <= p <= d.len() <= u64::MAX,
        rest_at(d, p - 8) == traf_bytes(b) + r,
    ensures
        traf_bytes(b).len() == traf_size(b),
        parse_traf(d, p, traf_size(b) as u64) == Ok::<TrafBoxView, Error>(b),
{
    lemma_traf_sizes(b);
    lemma_traf_rest_len(b, 0);
    lemma_traf_child_len(b, 0);
    let h = header_bytes(BoxType::TrafBox, traf_size(b) as u64);
    assert(h.len() == 8);
    assert(traf_rest_bytes(b, 0) =~= tfhd_bytes(b.tfhd) + (traf_tfdt_bytes(b) + (traf_trun_bytes(b) + traf_tail_bytes(
        b,
    )))) by {
        reveal_with_fuel(traf_rest_bytes, 7);
    }
    assert(traf_bytes(b) =~= h + traf_rest_bytes(b, 0));
    assert(d.skip(p) =~= d.skip(p - 8).skip(8));
    assert(rest_at(d, p) =~= traf_rest_bytes(b, 0) + r);
    assert(traf_pos(b, 1) == tfhd_size(b.tfhd));
    lemma_traf_scan_from(b, d, p, 0, r);
}


/// An encoded kept traf box whose track run is in sync takes as many bytes
/// as its size.
pub proof fn lemma_traf_len(b: TrafBoxView)
    requires
        traf_kept(b),
        !traf_trun_fails(b),
    ensures
        traf_bytes(b).len() == traf_size(b),
        24 <= traf_size(b) <= u32::MAX,
{
    lemma_traf_sizes(b);
    lemma_traf_rest_len(b, 0);
    lemma_traf_child_len(b, 0);
    let h = header_bytes(BoxType::TrafBox, traf_size(b) as u64);
    assert(h.len() == 8);
    assert(traf_rest_bytes(b, 0) =~= tfhd_bytes(b.tfhd) + (traf_tfdt_bytes(b) + (traf_trun_bytes(b) + traf_tail_bytes(
        b,
    )))) by {
        reveal_with_fuel(traf_rest_bytes, 7);
    }
    assert(traf_bytes(b) =~= h + traf_rest_bytes(b, 0));
    assert(traf_pos(b, 1) == tfhd_size(b.tfhd));
    lemma_traf_pos_nonneg(b, 1);
    lemma_traf_rest_len(b, 1);
}

} // verus!
