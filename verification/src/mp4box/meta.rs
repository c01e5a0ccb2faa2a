//! The metadata box: a handler and, for the `mdir` handler, the item list.
use crate::error::{Error, Result};
use crate::mp4box::hdlr::{hdlr_bytes, hdlr_size, lemma_hdlr_roundtrip, parse_hdlr, HdlrBox, HdlrBoxView};
use crate::mp4box::ilst::{
    ilst_bytes, ilst_size, items_bytes, keys_distinct, lemma_ilst_bytes_len, lemma_ilst_roundtrip, lemma_items_size_nonneg,
    parse_ilst, IlstBox, IlstBoxView,
};
use crate::mp4box::{
    box_result, box_start, ext_bytes, header_bytes, lemma_header_roundtrip, parse_header, read_box_header_ext, skip_box, BoxHeader, Mp4Box,
    ReadBox, WriteBox, HEADER_SIZE,
};
use crate::reader::{opt_view, rest_at, write_all, Reader};
use crate::bigendian::u32_of;
use crate::text::str_bytes;
use crate::types::{fourcc_code, BoxType, FourCC};
use vstd::prelude::*;

verus! {

#[derive(Debug, Clone, PartialEq, Eq)]
pub enum MetaBox {
    Mdir { ilst: Option<IlstBox> },
    Unknown { hdlr: HdlrBox, data: Vec<u8> },
}

/// What a meta box holds, as mathematical values.
pub enum MetaBoxView {
    Mdir { ilst: Option<IlstBoxView> },
    Unknown { hdlr: HdlrBoxView, data: Seq<u8> },
}

impl View for MetaBox {
    type V = MetaBoxView;

    open spec fn view(&self) -> MetaBoxView {
        match self {
            MetaBox::Mdir { ilst } => MetaBoxView::Mdir { ilst: opt_view(*ilst) },
            MetaBox::Unknown { hdlr, data } => MetaBoxView::Unknown { hdlr: hdlr@, data: data@ },
        }
    }
}

impl Default for MetaBox {
    /// An unknown handler with no data.
    fn default() -> (b: Self)
        ensures
            b@ == (MetaBoxView::Unknown {
                hdlr: HdlrBoxView {
                    version: 0,
                    flags: 0,
                    handler_type: FourCC { value: [0u8, 0u8, 0u8, 0u8] },
                    name: Seq::empty(),
                },
                data: Seq::empty(),
            }),
    {
        MetaBox::Unknown { hdlr: HdlrBox::default(), data: Vec::new() }
    }
}

/// The code of the `mdir` handler.
pub open spec fn mdir_code() -> u32 {
    0x6d646972
}

/// The handler written for an item list: version 0, no flags, handler type
/// `mdir` and an empty name.
pub open spec fn mdir_hdlr() -> HdlrBoxView {
    HdlrBoxView {
        version: 0,
        flags: 0,
        handler_type: FourCC { value: [109u8, 100u8, 105u8, 114u8] },
        name: Seq::empty(),
    }
}

/// Reading the children of an `mdir` meta box from position `p` of `d` up
/// to `end`: an item list is read, replacing one found before; other boxes
/// are skipped. The result holds where the reader stops. A child after
/// which the reader would not have moved forward is refused.
pub open spec fn meta_scan(d: Seq<u8>, p: int, end: int, found: Option<IlstBoxView>) -> Result<
    (Option<IlstBoxView>, int),
>
    decreases end - p,
{
    if p >= end {
        Ok((found, p))
    } else {
        match parse_header(rest_at(d, p)) {
            Err(e) => Err(e),
            Ok((h, n)) => {
                let q = p + n;
                let start = q - HEADER_SIZE;
                let next: Result<(Option<IlstBoxView>, int)> = if h.name == BoxType::IlstBox {
                    match parse_ilst(d, q, h.size) {
                        Ok(v) => Ok((Some(v), start + h.size)),
                        Err(e) => Err(e),
                    }
                } else if start + h.size > u64::MAX {
                    Err(Error::InvalidData("box end out of range"))
                } else {
                    Ok((found, start + h.size))
                };
                match next {
                    Err(e) => Err(e),
                    Ok((f2, r)) => if r <= p {
                        Err(Error::InvalidData("box size too small"))
                    } else if r >= end {
                        Ok((f2, r))
                    } else {
                        meta_scan(d, r, end, f2)
                    },
                }
            },
        }
    }
}

/// What follows the handler of a meta box `size` bytes long starting at
/// `start`, the handler `hd` ending at position `cur` of `d`: for the
/// `mdir` handler the children up to the end of the box, where the reader
/// stops after the last of them; for any other handler the rest of the box
/// as data.
pub open spec fn meta_after_hdlr(d: Seq<u8>, start: int, size: u64, hd: HdlrBoxView, cur: int) -> Result<
    (MetaBoxView, int),
> {
    if start + size > u64::MAX {
        Err(Error::InvalidData("box end out of range"))
    } else if fourcc_code(hd.handler_type) == mdir_code() {
        match meta_scan(d, cur, start + size, None) {
            Ok((ilst, q)) => Ok((MetaBoxView::Mdir { ilst }, q)),
            Err(e) => Err(e),
        }
    } else if cur > start + size {
        Err(Error::InvalidData("box size too small"))
    } else if rest_at(d, cur).len() < start + size - cur {
        Err(Error::IoError)
    } else {
        Ok((MetaBoxView::Unknown { hdlr: hd, data: rest_at(d, cur).take(start + size - cur) }, start + size))
    }
}

/// The meta box `size` bytes long whose header ends at position `p` of `d`,
/// and where the reader stops: version 0, an hdlr box first, then what the
/// handler calls for.
pub open spec fn parse_meta(d: Seq<u8>, p: int, size: u64) -> Result<(MetaBoxView, int)> {
    let s = rest_at(d, p);
    if s.len() < 4 {
        Err(Error::IoError)
    } else if s[0] != 0 {
        Err(Error::UnsupportedBoxVersion(BoxType::UdtaBox, s[0]))
    } else {
        match parse_header(rest_at(d, p + 4)) {
            Err(e) => Err(e),
            Ok((h, n)) => if h.name != BoxType::HdlrBox {
                Err(Error::BoxNotFound(BoxType::HdlrBox))
            } else {
                let hp = p + 4 + n;
                match box_result(parse_hdlr(rest_at(d, hp), hp - HEADER_SIZE, h.size), hp - HEADER_SIZE, h.size) {
                    Err(e) => Err(e),
                    Ok(hd) => meta_after_hdlr(d, p - HEADER_SIZE, size, hd, hp - HEADER_SIZE + h.size),
                }
            },
        }
    }
}

/// The size of the encoding of `b`.
pub open spec fn meta_size(b: MetaBoxView) -> int {
    12 + match b {
        MetaBoxView::Mdir { ilst } => hdlr_size(str_bytes(Seq::empty()).len()) + match ilst {
            Some(l) => ilst_size(l),
            None => 0,
        },
        MetaBoxView::Unknown { hdlr, data } => hdlr_size(str_bytes(hdlr.name).len()) + data.len(),
    }
}

/// The encoding of a meta box, header included: version 0, no flags, the
/// handler, then the item list or the data.
pub open spec fn meta_bytes(b: MetaBoxView) -> Seq<u8> {
    header_bytes(BoxType::MetaBox, meta_size(b) as u64) + ext_bytes(0, 0) + match b {
        MetaBoxView::Mdir { ilst } => hdlr_bytes(mdir_hdlr()) + match ilst {
            Some(l) => ilst_bytes(l),
            None => Seq::empty(),
        },
        MetaBoxView::Unknown { hdlr, data } => hdlr_bytes(hdlr) + data,
    }
}

impl MetaBox {
    pub fn get_type(&self) -> (t: BoxType)
        ensures
            t == BoxType::MetaBox,
    {
        BoxType::MetaBox
    }

    pub fn get_size(&self) -> (s: u64)
        requires
            self.has_size(),
        ensures
            s == meta_size(self@),
    {
        let mut size = HEADER_SIZE + 4;
        match self {
            MetaBox::Mdir { ilst } => {
                proof {
                    if let Some(l) = ilst {
                        lemma_items_size_nonneg(l@.items);
                    }
                }
                size = size + HdlrBox::default().box_size();
                if let Some(ilst) = ilst {
                    size = size + ilst.box_size();
                }
            },
            MetaBox::Unknown { hdlr, data } => {
                size = size + hdlr.box_size() + data.len() as u64;
            },
        }
        size
    }
}

impl Mp4Box for MetaBox {
    open spec fn has_size(&self) -> bool {
        &&& meta_size(self@) <= u64::MAX
        &&& hdlr_size(str_bytes(Seq::empty()).len()) <= u64::MAX
        &&& self matches MetaBox::Mdir { ilst } ==> (ilst matches Some(l) ==> l.has_size())
        &&& self matches MetaBox::Unknown { hdlr, data } ==> hdlr.has_size()
    }

    fn box_type(&self) -> (t: BoxType)
        ensures
            t == BoxType::MetaBox,
    {
        self.get_type()
    }

    fn box_size(&self) -> (s: u64)
        ensures
            s == meta_size(self@),
    {
        self.get_size()
    }
}

/// Reads the children of an `mdir` meta box up to `end`.
fn read_meta_children(reader: &mut Reader, end: u64) -> (res: Result<Option<IlstBox>>)
    requires
        old(reader).pos() >= HEADER_SIZE,
    ensures
        final(reader).data_seq() == old(reader).data_seq(),
        match res {
            Ok(l) => meta_scan(old(reader).data_seq(), old(reader).pos(), end as int, None) == Ok::<
                (Option<IlstBoxView>, int),
                Error,
            >((opt_view(l), final(reader).pos())),
            Err(e) => meta_scan(old(reader).data_seq(), old(reader).pos(), end as int, None) matches Err(e2) && e
                == e2,
        },
{
    let ghost d = old(reader).data_seq();
    let ghost p0 = old(reader).pos();
    let mut ilst: Option<IlstBox> = None;
    let mut current = reader.position();
    while current < end
        invariant
            reader.data_seq() == d,
            d == old(reader).data_seq(),
            p0 == old(reader).pos(),
            current == reader.pos(),
            current >= HEADER_SIZE,
            meta_scan(d, p0, end as int, None) == meta_scan(d, current as int, end as int, opt_view(ilst)),
        decreases (if current < end { end - current } else { 0 }),
    {
        assert(reader.rem() == rest_at(d, current as int));
        let header = BoxHeader::read(reader)?;
        assert(reader.rem() == rest_at(d, reader.pos()));
        if header.name == BoxType::IlstBox {
            ilst = Some(IlstBox::read_box(reader, header.size)?);
        } else {
            skip_box(reader, header.size)?;
        }
        let next = reader.position();
        if next <= current {
            return Err(Error::InvalidData("box size too small"));
        }
        current = next;
    }
    Ok(ilst)
}

impl ReadBox for MetaBox {
    open spec fn size_accepted(size: u64) -> bool {
        true
    }

    /// Reads the box. With the `mdir` handler the reader stops after the
    /// last child read; with any other it stops at the end of the box.
    #[verifier::spinoff_prover]
    fn read_box(reader: &mut Reader, size: u64) -> (res: Result<Self>)
        ensures
            match res {
                Ok(b) => parse_meta(old(reader).data_seq(), old(reader).pos(), size) == Ok::<(MetaBoxView, int), Error>(
                    (b@, final(reader).pos()),
                ),
                Err(e) => parse_meta(old(reader).data_seq(), old(reader).pos(), size) matches Err(e2) && e == e2,
            },
    {
        let ghost d = old(reader).data_seq();
        let ghost p0 = old(reader).pos();
        assert(old(reader).rem() == rest_at(d, p0));
        let start = box_start(reader);
        let (version, _) = read_box_header_ext(reader)?;
        if version != 0 {
            return Err(Error::UnsupportedBoxVersion(BoxType::UdtaBox, version));
        }
        assert(reader.rem() == rest_at(d, p0 + 4));
        let hdlr_header = BoxHeader::read(reader)?;
        if hdlr_header.name != BoxType::HdlrBox {
            return Err(Error::BoxNotFound(BoxType::HdlrBox));
        }
        assert(reader.rem() == rest_at(d, reader.pos()));
        let hdlr = HdlrBox::read_box(reader, hdlr_header.size)?;
        if size > u64::MAX - start {
            return Err(Error::InvalidData("box end out of range"));
        }
        let end = start + size;
        let current = reader.position();
        if hdlr.handler_type.to_u32() == 0x6d646972 {
            let ilst = read_meta_children(reader, end)?;
            Ok(MetaBox::Mdir { ilst })
        } else {
            if current > end {
                return Err(Error::InvalidData("box size too small"));
            }
            assert(reader.rem() == rest_at(d, current as int));
            let data = reader.read_bytes(end - current)?;
            Ok(MetaBox::Unknown { hdlr, data })
        }
    }
}

impl WriteBox for MetaBox {
    open spec fn writable(&self) -> bool {
        &&& self.has_size()
        &&& self matches MetaBox::Unknown { hdlr, data } ==> hdlr.writable()
    }

    #[verifier::spinoff_prover]
    fn write_box(&self, writer: &mut Vec<u8>) -> (res: Result<u64>)
        ensures
            final(writer)@ == old(writer)@ + meta_bytes(self@),
            res == Ok::<u64, Error>(meta_size(self@) as u64),
    {
        let size = self.box_size();
        BoxHeader::new(self.box_type(), size).write(writer)?;
        crate::mp4box::write_box_header_ext(writer, 0, 0)?;
        let ghost w1 = writer@;
        match self {
            MetaBox::Mdir { ilst } => {
                let hdlr = HdlrBox {
                    version: 0,
                    flags: 0,
                    handler_type: FourCC { value: [109, 100, 105, 114] },
                    name: String::new(),
                };
                assert(hdlr@ == mdir_hdlr());
                hdlr.write_box(writer)?;
                if let Some(ilst) = ilst {
                    ilst.write_box(writer)?;
                }
            },
            MetaBox::Unknown { hdlr, data } => {
                hdlr.write_box(writer)?;
                write_all(writer, data.as_slice());
            },
        }
        assert(final(writer)@ =~= old(writer)@ + meta_bytes(self@));
        Ok(size)
    }
}


/// The handler that the encoding of `b` holds.
pub open spec fn meta_hdlr(b: MetaBoxView) -> HdlrBoxView {
    match b {
        MetaBoxView::Mdir { .. } => mdir_hdlr(),
        MetaBoxView::Unknown { hdlr, .. } => hdlr,
    }
}

/// What the encoding of `b` holds after the handler.
pub open spec fn meta_tail(b: MetaBoxView) -> Seq<u8> {
    match b {
        MetaBoxView::Mdir { ilst } => match ilst {
            Some(l) => ilst_bytes(l),
            None => Seq::empty(),
        },
        MetaBoxView::Unknown { data, .. } => data,
    }
}

/// The code of the handler written for an item list is that of `mdir`.
proof fn lemma_mdir_code()
    ensures
        fourcc_code(mdir_hdlr().handler_type) == mdir_code(),
{
    let v = mdir_hdlr().handler_type.value@;
    assert(v[0] == 109 && v[1] == 100 && v[2] == 105 && v[3] == 114);
    assert(u32_of(109u8, 100u8, 105u8, 114u8) == 0x6d646972u32) by (bit_vector);
}

/// Where the parts of an encoded meta box stand in `d`, its header before
/// position `p`.
#[verifier::spinoff_prover]
#[verifier::rlimit(40)]
proof fn lemma_meta_layout(d: Seq<u8>, p: int, b: MetaBoxView)
    requires
        8 <= p,
        meta_size(b) <= u32::MAX,
        p - 8 + meta_size(b) <= d.len(),
        d.subrange(p - 8, p - 8 + meta_size(b)) == meta_bytes(b),
        hdlr_bytes(meta_hdlr(b)).len() == hdlr_size(str_bytes(meta_hdlr(b).name).len()),
        meta_tail(b).len() == meta_size(b) - 12 - hdlr_size(str_bytes(meta_hdlr(b).name).len()),
    ensures
        meta_bytes(b).len() == meta_size(b),
        rest_at(d, p) == ext_bytes(0, 0) + (hdlr_bytes(meta_hdlr(b)) + (meta_tail(b) + d.skip(p - 8 + meta_size(b)))),
        rest_at(d, p + 4) == hdlr_bytes(meta_hdlr(b)) + (meta_tail(b) + d.skip(p - 8 + meta_size(b))),
        rest_at(d, p + 4 + hdlr_size(str_bytes(meta_hdlr(b).name).len())) == meta_tail(b) + d.skip(
            p - 8 + meta_size(b),
        ),
{
    let size = meta_size(b);
    let end = p - 8 + size;
    let hb = hdlr_bytes(meta_hdlr(b));
    let hs = hdlr_size(str_bytes(meta_hdlr(b).name).len());
    let tail = meta_tail(b);
    let t = d.skip(end);
    let m = meta_bytes(b);
    let mh = header_bytes(BoxType::MetaBox, size as u64);
    assert(mh.len() == 8);
    assert(ext_bytes(0, 0).len() == 4);
    assert(m =~= mh + ext_bytes(0, 0) + (hb + tail));
    assert(d.skip(p - 8) =~= m + t) by {
        assert forall|i: int| 0 <= i < d.len() - (p - 8) implies #[trigger] d.skip(p - 8)[i] == (m + t)[i] by {
            if i < size {
                assert(d.skip(p - 8)[i] == d.subrange(p - 8, end)[i]);
            }
        }
    }
    assert(m + t =~= mh + (ext_bytes(0, 0) + (hb + (tail + t))));
    assert(d.skip(p) =~= d.skip(p - 8).skip(8));
    assert(d.skip(p + 4) =~= d.skip(p - 8).skip(12));
    assert(d.skip(p + 4 + hs) =~= d.skip(p + 4).skip(hs));
    assert((hb + (tail + t)).skip(hs) =~= tail + t);
}

/// Reading an encoded meta box as far as its handler: the version, the
/// handler box, and what follows it.
#[verifier::spinoff_prover]
#[verifier::rlimit(40)]
proof fn lemma_meta_prefix(d: Seq<u8>, p: int, b: MetaBoxView)
    requires
        8 <= p,
        meta_size(b) <= u32::MAX,
        p - 8 + meta_size(b) <= d.len() <= u64::MAX,
        d.subrange(p - 8, p - 8 + meta_size(b)) == meta_bytes(b),
        meta_hdlr(b).flags < 0x1000000,
        meta_tail(b).len() == meta_size(b) - 12 - hdlr_size(str_bytes(meta_hdlr(b).name).len()),
    ensures
        meta_bytes(b).len() == meta_size(b),
        rest_at(d, p + 4 + hdlr_size(str_bytes(meta_hdlr(b).name).len())) == meta_tail(b) + d.skip(
            p - 8 + meta_size(b),
        ),
        parse_meta(d, p, meta_size(b) as u64) == meta_after_hdlr(
            d,
            p - 8,
            meta_size(b) as u64,
            meta_hdlr(b),
            p + 4 + hdlr_size(str_bytes(meta_hdlr(b).name).len()),
        ),
{
    let size = meta_size(b);
    let end = p - 8 + size;
    let h = meta_hdlr(b);
    let tail = meta_tail(b);
    let hb = hdlr_bytes(h);
    let hs = hdlr_size(str_bytes(h.name).len());
    let t = d.skip(end);
    lemma_hdlr_roundtrip(h, p + 4, tail + t);
    lemma_meta_layout(d, p, b);
    lemma_header_roundtrip(BoxType::HdlrBox, hs as u64, hb.skip(8) + (tail + t));
    assert(hb + (tail + t) =~= header_bytes(BoxType::HdlrBox, hs as u64) + (hb.skip(8) + (tail + t)));
    assert(d.skip(p + 12) =~= d.skip(p + 4).skip(8));
    assert(rest_at(d, p + 12) == (hb + (tail + t)).skip(8));
}

/// Reading an encoded meta box, its header before position `p`, gives the
/// box back and stops at its end, where its size fits in 32 bits, an item
/// list holds each kind of metadata at most once, and an unknown handler
/// is not `mdir` and has flags that fit in 24 bits.
#[verifier::spinoff_prover]
#[verifier::rlimit(40)]
pub proof fn lemma_meta_roundtrip(d: Seq<u8>, p: int, b: MetaBoxView)
    requires
        8 <= p,
        meta_size(b) <= u32::MAX,
        p - 8 + meta_size(b) <= d.len() <= u64::MAX,
        d.subrange(p - 8, p - 8 + meta_size(b)) == meta_bytes(b),
        b matches MetaBoxView::Mdir { ilst } ==> (ilst matches Some(l) ==> keys_distinct(l.items)),
        b matches MetaBoxView::Unknown { hdlr, .. } ==> fourcc_code(hdlr.handler_type) != mdir_code()
            && hdlr.flags < 0x1000000,
    ensures
        meta_bytes(b).len() == meta_size(b),
        parse_meta(d, p, meta_size(b) as u64) == Ok::<(MetaBoxView, int), Error>((b, p - 8 + meta_size(b))),
{
    let size = meta_size(b);
    let end = p - 8 + size;
    let t = d.skip(end);
    let cur = p + 4 + hdlr_size(str_bytes(meta_hdlr(b).name).len());
    match b {
        MetaBoxView::Mdir { ilst } => {
            lemma_mdir_code();
            match ilst {
                None => {
                    lemma_meta_prefix(d, p, b);
                    assert(cur == end);
                },
                Some(l) => {
                    let ls = ilst_size(l);
                    lemma_items_size_nonneg(l.items);
                    lemma_ilst_bytes_len(l);
                    lemma_meta_prefix(d, p, b);
                    assert(d.subrange(cur, cur + ls) =~= ilst_bytes(l)) by {
                        assert forall|i: int| 0 <= i < ls implies #[trigger] d.subrange(cur, cur + ls)[i]
                            == ilst_bytes(l)[i] by {
                            assert(d.subrange(cur, cur + ls)[i] == rest_at(d, cur)[i]);
                        }
                    }
                    lemma_ilst_roundtrip(d, cur + 8, l);
                    lemma_header_roundtrip(BoxType::IlstBox, ls as u64, items_bytes(l.items) + t);
                    assert(rest_at(d, cur) =~= header_bytes(BoxType::IlstBox, ls as u64) + (items_bytes(l.items)
                        + t));
                    assert(meta_scan(d, cur, end, None) == Ok::<(Option<IlstBoxView>, int), Error>((Some(l), end)));
                },
            }
        },
        MetaBoxView::Unknown { hdlr, data } => {
            lemma_meta_prefix(d, p, b);
            assert(rest_at(d, cur).take(end - cur) =~= data);
        },
    }
}

} // verus!
