//! The metadata item list box: the title, year, poster and summary of a
//! file, each in a data box.
use crate::bigendian::{be_write_u32, u32_bytes};
use crate::error::{Error, Result};
use crate::media::{data_type_code, data_type_of, DataType, Metadata, MetadataKey};
use crate::mp4box::{
    lemma_be32_at_word, lemma_header_roundtrip, be32_at, box_start, header_bytes, parse_header, read_outcome, skip_box, skip_bytes_to, BoxHeader, Mp4Box,
    ReadBox, WriteBox, HEADER_SIZE,
};
use crate::reader::{opt_view, rest_at, write_all, Reader};
use crate::text::{parse_u32, string_from_utf8_lossy, u32_text, utf8_lossy};
use crate::bigendian::{be_read_u32, u32_of};
use crate::types::BoxType;
use vstd::prelude::*;

verus! {

/// A data box: a typed value.
#[derive(Debug, Clone, PartialEq, Eq, Default)]
pub struct DataBox {
    pub data: Vec<u8>,
    pub data_type: DataType,
}

/// What a data box holds, as mathematical values.
pub struct DataBoxView {
    pub data: Seq<u8>,
    pub data_type: DataType,
}

impl View for DataBox {
    type V = DataBoxView;

    open spec fn view(&self) -> DataBoxView {
        DataBoxView { data: self.data@, data_type: self.data_type }
    }
}

/// The data box `size` bytes long whose body starts `s`: the type, four
/// reserved bytes, and the value filling the rest of the box.
pub open spec fn parse_data(s: Seq<u8>, size: u64) -> Result<DataBoxView> {
    if s.len() < 4 {
        Err(Error::IoError)
    } else {
        match data_type_of(be32_at(s, 0)) {
            Err(e) => Err(e),
            Ok(data_type) => if s.len() < 8 {
                Err(Error::IoError)
            } else if size < 16 {
                Err(Error::InvalidData("box size too small"))
            } else if s.len() < 8 + (size - 16) {
                Err(Error::IoError)
            } else {
                Ok(DataBoxView { data: s.subrange(8, 8 + (size - 16)), data_type })
            },
        }
    }
}

/// The size of the encoding of a data box holding `n` bytes.
pub open spec fn data_size(n: nat) -> int {
    16 + n as int
}

/// The encoding of a data box, header included.
pub open spec fn data_bytes(b: DataBoxView) -> Seq<u8> {
    header_bytes(BoxType::DataBox, data_size(b.data.len()) as u64) + u32_bytes(data_type_code(b.data_type))
        + u32_bytes(0) + b.data
}

impl DataBox {
    pub fn get_type(&self) -> (t: BoxType)
        ensures
            t == BoxType::DataBox,
    {
        BoxType::DataBox
    }

    pub fn get_size(&self) -> (s: u64)
        requires
            data_size(self.data@.len()) <= u64::MAX,
        ensures
            s == data_size(self.data@.len()),
    {
        HEADER_SIZE + 8 + self.data.len() as u64
    }
}

impl Mp4Box for DataBox {
    open spec fn has_size(&self) -> bool {
        data_size(self.data@.len()) <= u64::MAX
    }

    fn box_type(&self) -> (t: BoxType)
        ensures
            t == BoxType::DataBox,
    {
        self.get_type()
    }

    fn box_size(&self) -> (s: u64)
        ensures
            s == data_size(self.data@.len()),
    {
        self.get_size()
    }
}

impl ReadBox for DataBox {
    open spec fn size_accepted(size: u64) -> bool {
        true
    }

    /// Reads the box; the reader stops at the end of the value.
    #[verifier::spinoff_prover]
    fn read_box(reader: &mut Reader, size: u64) -> (res: Result<Self>)
        ensures
            res is Ok ==> final(reader).pos() == old(reader).pos() - HEADER_SIZE + size,
            read_outcome(res, parse_data(old(reader).rem(), size)),
    {
        let ghost s = old(reader).rem();
        let data_type = DataType::try_from_u32(reader.read_u32()?)?;
        reader.read_u32()?;
        assert(reader.rem() =~= s.skip(8));
        if size < 16 {
            return Err(Error::InvalidData("box size too small"));
        }
        let data = reader.read_bytes(size - 16)?;
        assert(data@ =~= s.subrange(8, 8 + (size - 16)));
        Ok(DataBox { data, data_type })
    }
}

impl WriteBox for DataBox {
    open spec fn writable(&self) -> bool {
        self.has_size()
    }

    #[verifier::spinoff_prover]
    fn write_box(&self, writer: &mut Vec<u8>) -> (res: Result<u64>)
        ensures
            final(writer)@ == old(writer)@ + data_bytes(self@),
            res == Ok::<u64, Error>(data_size(self.data@.len()) as u64),
    {
        let size = self.box_size();
        BoxHeader::new(self.box_type(), size).write(writer)?;
        be_write_u32(writer, self.data_type.code());
        be_write_u32(writer, 0);
        write_all(writer, self.data.as_slice());
        assert(final(writer)@ =~= old(writer)@ + data_bytes(self@));
        Ok(size)
    }
}

/// One item of a metadata item list: its data box.
#[derive(Debug, Clone, PartialEq, Eq, Default)]
pub struct IlstItemBox {
    pub data: DataBox,
}

/// What an item holds, as mathematical values.
pub struct IlstItemBoxView {
    pub data: DataBoxView,
}

impl View for IlstItemBox {
    type V = IlstItemBoxView;

    open spec fn view(&self) -> IlstItemBoxView {
        IlstItemBoxView { data: self.data@ }
    }
}

/// Reading the children of an item box from position `p` of `d` up to
/// `end`: a data box is read, replacing one found before; other boxes are
/// skipped. A child after which the reader would not have moved forward is
/// refused.
pub open spec fn item_scan(d: Seq<u8>, p: int, end: int, found: Option<DataBoxView>) -> Result<Option<DataBoxView>>
    decreases end - p,
{
    if p >= end {
        Ok(found)
    } else {
        match parse_header(rest_at(d, p)) {
            Err(e) => Err(e),
            Ok((h, n)) => {
                let q = p + n;
                let start = q - HEADER_SIZE;
                let next: Result<(Option<DataBoxView>, int)> = if h.name == BoxType::DataBox {
                    match parse_data(rest_at(d, q), h.size) {
                        Ok(v) => Ok((Some(v), start + h.size)),
                        Err(e) => Err(e),
                    }
                } else if start + h.size > u64::MAX {
                    Err(Error::InvalidData("box end out of range"))
                } else {
                    Ok((found, start + h.size))
                };
                match next {
                    Err(e) => Err(e),
                    Ok((f2, r)) => if r <= p {
                        Err(Error::InvalidData("box size too small"))
                    } else if r >= end {
                        Ok(f2)
                    } else {
                        item_scan(d, r, end, f2)
                    },
                }
            },
        }
    }
}

/// The item box `size` bytes long whose header ends at position `p` of `d`:
/// its children up to its end, of which a data box must be one.
pub open spec fn parse_item(d: Seq<u8>, p: int, size: u64) -> Result<IlstItemBoxView> {
    let start = p - HEADER_SIZE;
    if start + size > u64::MAX {
        Err(Error::InvalidData("box end out of range"))
    } else {
        match item_scan(d, p, start + size, None) {
            Err(e) => Err(e),
            Ok(None) => Err(Error::BoxNotFound(BoxType::DataBox)),
            Ok(Some(data)) => Ok(IlstItemBoxView { data }),
        }
    }
}

/// The size of the encoding of an item holding `n` bytes.
pub open spec fn item_size(n: nat) -> int {
    8 + data_size(n)
}

impl IlstItemBox {
    /// The size of the item box: its header and its data box.
    pub fn get_size(&self) -> (s: u64)
        requires
            item_size(self.data.data@.len()) <= u64::MAX,
        ensures
            s == item_size(self.data.data@.len()),
    {
        HEADER_SIZE + self.data.box_size()
    }
}

impl ReadBox for IlstItemBox {
    open spec fn size_accepted(size: u64) -> bool {
        true
    }

    #[verifier::spinoff_prover]
    fn read_box(reader: &mut Reader, size: u64) -> (res: Result<Self>)
        ensures
            res is Ok ==> final(reader).pos() == old(reader).pos() - HEADER_SIZE + size,
            read_outcome(res, parse_item(old(reader).data_seq(), old(reader).pos(), size)),
    {
        let ghost d = old(reader).data_seq();
        let ghost p0 = old(reader).pos();
        let start = box_start(reader);
        if size > u64::MAX - start {
            return Err(Error::InvalidData("box end out of range"));
        }
        let end = start + size;
        let mut data: Option<DataBox> = None;
        let mut current = reader.position();
        while current < end
            invariant
                reader.data_seq() == d,
                d == old(reader).data_seq(),
                p0 == old(reader).pos(),
                p0 >= HEADER_SIZE,
                start == p0 - HEADER_SIZE,
                current == reader.pos(),
                end == p0 - HEADER_SIZE + size,
                item_scan(d, p0, end as int, None) == item_scan(d, current as int, end as int, match data {
                    Some(x) => Some(x@),
                    None => None,
                }),
            decreases (if current < end { end - current } else { 0 }),
        {
            assert(reader.rem() == rest_at(d, current as int));
            let header = BoxHeader::read(reader)?;
            assert(reader.rem() == rest_at(d, reader.pos()));
            if header.name == BoxType::DataBox {
                data = Some(DataBox::read_box(reader, header.size)?);
            } else {
                skip_box(reader, header.size)?;
            }
            let next = reader.position();
            if next <= current {
                return Err(Error::InvalidData("box size too small"));
            }
            current = next;
        }
        let data = match data {
            Some(x) => x,
            None => {
                return Err(Error::BoxNotFound(BoxType::DataBox));
            },
        };
        skip_bytes_to(reader, start, size)?;
        Ok(IlstItemBox { data })
    }
}

/// The box type under which each kind of metadata is stored.
pub open spec fn metadata_box_type(k: MetadataKey) -> BoxType {
    match k {
        MetadataKey::Title => BoxType::NameBox,
        MetadataKey::Year => BoxType::DayBox,
        MetadataKey::Poster => BoxType::CovrBox,
        MetadataKey::Summary => BoxType::DescBox,
    }
}

/// The kind of metadata stored under the box type `t`, if any.
pub open spec fn metadata_key_of(t: BoxType) -> Option<MetadataKey> {
    match t {
        BoxType::NameBox => Some(MetadataKey::Title),
        BoxType::DayBox => Some(MetadataKey::Year),
        BoxType::CovrBox => Some(MetadataKey::Poster),
        BoxType::DescBox => Some(MetadataKey::Summary),
        _ => None,
    }
}

/// The position of the first item of `s` with key `k`, or the length of
/// `s` where there is none.
pub open spec fn key_index<V>(s: Seq<(MetadataKey, V)>, k: MetadataKey) -> int
    decreases s.len(),
{
    if s.len() == 0 {
        0
    } else if s[0].0 == k {
        0
    } else {
        1 + key_index(s.drop_first(), k)
    }
}

/// `s` with the value of key `k` set to `v`: in place where the key is
/// present, at the end where it is not.
pub open spec fn insert_item<V>(s: Seq<(MetadataKey, V)>, k: MetadataKey, v: V) -> Seq<(MetadataKey, V)> {
    let i = key_index(s, k);
    if i < s.len() {
        s.update(i, (k, v))
    } else {
        s.push((k, v))
    }
}

/// Each key occurs at most once in `s`.
pub open spec fn keys_distinct<V>(s: Seq<(MetadataKey, V)>) -> bool {
    forall|i: int, j: int| 0 <= i < j < s.len() ==> #[trigger] s[i].0 != #[trigger] s[j].0
}

/// The metadata item list box: each kind of metadata at most once, in the
/// order in which they were stored. Two lists are equal when they hold the
/// same item for each kind, whatever the order.
#[derive(Debug, Clone, Eq, Default)]
pub struct IlstBox {
    pub items: Vec<(MetadataKey, IlstItemBox)>,
}

/// What an ilst box holds, as mathematical values.
pub struct IlstBoxView {
    pub items: Seq<(MetadataKey, IlstItemBoxView)>,
}

impl View for IlstBox {
    type V = IlstBoxView;

    open spec fn view(&self) -> IlstBoxView {
        IlstBoxView { items: self.items@.map_values(|e: (MetadataKey, IlstItemBox)| (e.0, e.1@)) }
    }
}

/// Reading the children of an ilst box from position `p` of `d` up to
/// `end`: an item of a known kind is read and set; other boxes are skipped.
/// A child after which the reader would not have moved forward is refused.
pub open spec fn ilst_scan(d: Seq<u8>, p: int, end: int, items: Seq<(MetadataKey, IlstItemBoxView)>) -> Result<
    Seq<(MetadataKey, IlstItemBoxView)>,
>
    decreases end - p,
{
    if p >= end {
        Ok(items)
    } else {
        match parse_header(rest_at(d, p)) {
            Err(e) => Err(e),
            Ok((h, n)) => {
                let q = p + n;
                let start = q - HEADER_SIZE;
                let next: Result<(Seq<(MetadataKey, IlstItemBoxView)>, int)> = match metadata_key_of(h.name) {
                    Some(k) => match parse_item(d, q, h.size) {
                        Ok(v) => Ok((insert_item(items, k, v), start + h.size)),
                        Err(e) => Err(e),
                    },
                    None => if start + h.size > u64::MAX {
                        Err(Error::InvalidData("box end out of range"))
                    } else {
                        Ok((items, start + h.size))
                    },
                };
                match next {
                    Err(e) => Err(e),
                    Ok((f2, r)) => if r <= p {
                        Err(Error::InvalidData("box size too small"))
                    } else if r >= end {
                        Ok(f2)
                    } else {
                        ilst_scan(d, r, end, f2)
                    },
                }
            },
        }
    }
}

/// The ilst box `size` bytes long whose header ends at position `p` of `d`.
pub open spec fn parse_ilst(d: Seq<u8>, p: int, size: u64) -> Result<IlstBoxView> {
    let start = p - HEADER_SIZE;
    if start + size > u64::MAX {
        Err(Error::InvalidData("box end out of range"))
    } else {
        match ilst_scan(d, p, start + size, Seq::empty()) {
            Err(e) => Err(e),
            Ok(items) => Ok(IlstBoxView { items }),
        }
    }
}

/// The total size of the encodings of the items `s`.
pub open spec fn items_size(s: Seq<(MetadataKey, IlstItemBoxView)>) -> int
    decreases s.len(),
{
    if s.len() == 0 {
        0
    } else {
        items_size(s.drop_last()) + item_size(s.last().1.data.data.len())
    }
}

/// The size of the encoding of `b`.
pub open spec fn ilst_size(b: IlstBoxView) -> int {
    8 + items_size(b.items)
}

/// The encoding of the items `s`, in order: each is a box of the type of
/// its kind holding its data box.
pub open spec fn items_bytes(s: Seq<(MetadataKey, IlstItemBoxView)>) -> Seq<u8>
    decreases s.len(),
{
    if s.len() == 0 {
        Seq::empty()
    } else {
        items_bytes(s.drop_last()) + header_bytes(
            metadata_box_type(s.last().0),
            item_size(s.last().1.data.data.len()) as u64,
        ) + data_bytes(s.last().1.data)
    }
}

/// The encoding of an ilst box, header included.
pub open spec fn ilst_bytes(b: IlstBoxView) -> Seq<u8> {
    header_bytes(BoxType::IlstBox, ilst_size(b) as u64) + items_bytes(b.items)
}

/// The sizes of a prefix of the items add up to no more than those of all.
proof fn lemma_items_size_prefix(s: Seq<(MetadataKey, IlstItemBoxView)>, i: int)
    requires
        0 <= i <= s.len(),
    ensures
        0 <= items_size(s.take(i)) <= items_size(s),
    decreases s.len() - i,
{
    lemma_items_size_nonneg(s.take(i));
    if i < s.len() {
        lemma_items_size_prefix(s, i + 1);
        assert(s.take(i + 1).drop_last() =~= s.take(i));
    } else {
        assert(s.take(i) =~= s);
    }
}

pub proof fn lemma_items_size_nonneg(s: Seq<(MetadataKey, IlstItemBoxView)>)
    ensures
        items_size(s) >= 0,
    decreases s.len(),
{
    if s.len() > 0 {
        lemma_items_size_nonneg(s.drop_last());
    }
}

/// Sets the item of kind `k` in `items`.
fn insert_item_exec(items: &mut Vec<(MetadataKey, IlstItemBox)>, k: MetadataKey, v: IlstItemBox)
    ensures
        final(items)@.map_values(|e: (MetadataKey, IlstItemBox)| (e.0, e.1@)) == insert_item(
            old(items)@.map_values(|e: (MetadataKey, IlstItemBox)| (e.0, e.1@)),
            k,
            v@,
        ),
{
    let ghost m = old(items)@.map_values(|e: (MetadataKey, IlstItemBox)| (e.0, e.1@));
    let mut i: usize = 0;
    assert(m.skip(0) =~= m);
    while i < items.len()
        invariant
            0 <= i <= items.len(),
            items@ == old(items)@,
            m == old(items)@.map_values(|e: (MetadataKey, IlstItemBox)| (e.0, e.1@)),
            key_index(m, k) == i + key_index(m.skip(i as int), k),
        decreases items.len() - i,
    {
        if items[i].0 == k {
            assert(m.skip(i as int)[0].0 == k);
            assert(key_index(m, k) == i);
            let ghost vv = v@;
            items.set(i, (k, v));
            assert(items@.map_values(|e: (MetadataKey, IlstItemBox)| (e.0, e.1@)) =~= m.update(i as int, (k, vv)));
            return;
        }
        assert(m.skip(i as int).drop_first() =~= m.skip(i + 1));
        i = i + 1;
    }
    assert(m.skip(i as int).len() == 0);
    let ghost vv = v@;
    items.push((k, v));
    assert(items@.map_values(|e: (MetadataKey, IlstItemBox)| (e.0, e.1@)) =~= m.push((k, vv)));
}

impl IlstBox {
    pub fn get_type(&self) -> (t: BoxType)
        ensures
            t == BoxType::IlstBox,
    {
        BoxType::IlstBox
    }

    pub fn get_size(&self) -> (s: u64)
        requires
            self.has_size(),
        ensures
            s == ilst_size(self@),
    {
        let ghost v = self@.items;
        let mut size = HEADER_SIZE;
        let mut i: usize = 0;
        while i < self.items.len()
            invariant
                0 <= i <= self.items.len(),
                v == self@.items,
                v.len() == self.items.len(),
                self.has_size(),
                size == 8 + items_size(v.take(i as int)),
            decreases self.items.len() - i,
        {
            proof {
                assert(v.take(i + 1).drop_last() =~= v.take(i as int));
                assert(v[i as int].1 == self.items@[i as int].1@);
                lemma_items_size_prefix(v, i + 1);
            }
            size = size + self.items[i].1.get_size();
            i = i + 1;
        }
        assert(v.take(i as int) =~= v);
        size
    }
}

impl Mp4Box for IlstBox {
    open spec fn has_size(&self) -> bool {
        ilst_size(self@) <= u64::MAX
    }

    fn box_type(&self) -> (t: BoxType)
        ensures
            t == BoxType::IlstBox,
    {
        self.get_type()
    }

    fn box_size(&self) -> (s: u64)
        ensures
            s == ilst_size(self@),
    {
        self.get_size()
    }
}

impl ReadBox for IlstBox {
    open spec fn size_accepted(size: u64) -> bool {
        true
    }

    #[verifier::spinoff_prover]
    fn read_box(reader: &mut Reader, size: u64) -> (res: Result<Self>)
        ensures
            res is Ok ==> final(reader).pos() == old(reader).pos() - HEADER_SIZE + size,
            read_outcome(res, parse_ilst(old(reader).data_seq(), old(reader).pos(), size)),
            res matches Ok(b) ==> keys_distinct(b@.items),
    {
        proof {
            lemma_parse_ilst_distinct(old(reader).data_seq(), old(reader).pos(), size);
        }
        let ghost d = old(reader).data_seq();
        let ghost p0 = old(reader).pos();
        let start = box_start(reader);
        if size > u64::MAX - start {
            return Err(Error::InvalidData("box end out of range"));
        }
        let end = start + size;
        let mut items: Vec<(MetadataKey, IlstItemBox)> = Vec::new();
        assert(items@.map_values(|e: (MetadataKey, IlstItemBox)| (e.0, e.1@)) =~= Seq::<
            (MetadataKey, IlstItemBoxView),
        >::empty());
        let mut current = reader.position();
        while current < end
            invariant
                reader.data_seq() == d,
                d == old(reader).data_seq(),
                p0 == old(reader).pos(),
                p0 >= HEADER_SIZE,
                start == p0 - HEADER_SIZE,
                current == reader.pos(),
                end == p0 - HEADER_SIZE + size,
                ilst_scan(d, p0, end as int, Seq::empty()) == ilst_scan(
                    d,
                    current as int,
                    end as int,
                    items@.map_values(|e: (MetadataKey, IlstItemBox)| (e.0, e.1@)),
                ),
            decreases (if current < end { end - current } else { 0 }),
        {
            assert(reader.rem() == rest_at(d, current as int));
            let header = BoxHeader::read(reader)?;
            assert(reader.rem() == rest_at(d, reader.pos()));
            let key = match header.name {
                BoxType::NameBox => Some(MetadataKey::Title),
                BoxType::DayBox => Some(MetadataKey::Year),
                BoxType::CovrBox => Some(MetadataKey::Poster),
                BoxType::DescBox => Some(MetadataKey::Summary),
                _ => None,
            };
            match key {
                Some(k) => {
                    let item = IlstItemBox::read_box(reader, header.size)?;
                    insert_item_exec(&mut items, k, item);
                },
                None => {
                    skip_box(reader, header.size)?;
                },
            }
            let next = reader.position();
            if next <= current {
                return Err(Error::InvalidData("box size too small"));
            }
            current = next;
        }
        skip_bytes_to(reader, start, size)?;
        Ok(IlstBox { items })
    }
}

impl WriteBox for IlstBox {
    open spec fn writable(&self) -> bool {
        self.has_size()
    }

    /// Writes the box and its items, in order.
    #[verifier::spinoff_prover]
    fn write_box(&self, writer: &mut Vec<u8>) -> (res: Result<u64>)
        ensures
            final(writer)@ == old(writer)@ + ilst_bytes(self@),
            res == Ok::<u64, Error>(ilst_size(self@) as u64),
    {
        let size = self.box_size();
        BoxHeader::new(self.box_type(), size).write(writer)?;
        let ghost w1 = writer@;
        let ghost v = self@.items;
        let mut i: usize = 0;
        while i < self.items.len()
            invariant
                0 <= i <= self.items.len(),
                v == self@.items,
                v.len() == self.items.len(),
                self.has_size(),
                size == ilst_size(self@),
                w1 == old(writer)@ + header_bytes(BoxType::IlstBox, size),
                writer@ == w1 + items_bytes(v.take(i as int)),
            decreases self.items.len() - i,
        {
            proof {
                assert(v.take(i + 1).drop_last() =~= v.take(i as int));
                assert(v[i as int].1 == self.items@[i as int].1@);
                lemma_items_size_prefix(v, i + 1);
                lemma_items_size_nonneg(v.take(i as int));
            }
            let key = self.items[i].0;
            let name = match key {
                MetadataKey::Title => BoxType::NameBox,
                MetadataKey::Year => BoxType::DayBox,
                MetadataKey::Poster => BoxType::CovrBox,
                MetadataKey::Summary => BoxType::DescBox,
            };
            let value = &self.items[i].1;
            BoxHeader::new(name, value.get_size()).write(writer)?;
            value.data.write_box(writer)?;
            proof {
                assert(writer@ =~= w1 + items_bytes(v.take(i + 1)));
            }
            i = i + 1;
        }
        assert(v.take(i as int) =~= v);
        assert(writer@ =~= old(writer)@ + ilst_bytes(self@));
        Ok(size)
    }
}

/// The item of kind `k` in `items`, if there is one.
pub open spec fn item_of(items: Seq<(MetadataKey, IlstItemBoxView)>, k: MetadataKey) -> Option<IlstItemBoxView> {
    let i = key_index(items, k);
    if i < items.len() {
        Some(items[i].1)
    } else {
        None
    }
}

/// The number that an item holds: four big-endian bytes of binary data,
/// or text that reads as a number.
pub open spec fn item_number(it: IlstItemBoxView) -> Option<u32> {
    let b = it.data.data;
    match it.data.data_type {
        DataType::Binary => if b.len() == 4 {
            Some(u32_of(b[0], b[1], b[2], b[3]))
        } else {
            None
        },
        DataType::Text => u32_text(utf8_lossy(b)),
        _ => None,
    }
}

/// The text that an item holds, invalid UTF-8 replaced.
pub open spec fn item_text(it: Option<IlstItemBoxView>) -> Option<Seq<char>> {
    match it {
        Some(x) => Some(utf8_lossy(x.data.data)),
        None => None,
    }
}

impl IlstBox {
    /// The position of the item of kind `k`.
    fn find_item(&self, k: MetadataKey) -> (r: Option<usize>)
        ensures
            match r {
                Some(i) => i == key_index(self@.items, k) && i < self.items.len(),
                None => key_index(self@.items, k) == self@.items.len(),
            },
    {
        let ghost m = self@.items;
        proof {
            lemma_key_index_bounds(m, k);
        }
        let mut i: usize = 0;
        assert(m.skip(0) =~= m);
        while i < self.items.len()
            invariant
                0 <= i <= self.items.len(),
                m == self@.items,
                m.len() == self.items.len(),
                key_index(m, k) == i + key_index(m.skip(i as int), k),
            decreases self.items.len() - i,
        {
            if self.items[i].0 == k {
                assert(m.skip(i as int)[0].0 == k);
                return Some(i);
            }
            assert(m.skip(i as int).drop_first() =~= m.skip(i + 1));
            i = i + 1;
        }
        assert(m.skip(i as int).len() == 0);
        None
    }

    /// The text of the item of kind `k`.
    fn item_text(&self, k: MetadataKey) -> (r: Option<String>)
        ensures
            opt_view(r) == item_text(item_of(self@.items, k)),
    {
        match self.find_item(k) {
            Some(i) => Some(string_from_utf8_lossy(self.items[i].1.data.data.as_slice())),
            None => None,
        }
    }
}

impl Metadata for IlstBox {
    /// The title item as text.
    fn title(&self) -> (r: Option<String>)
        ensures
            opt_view(r) == item_text(item_of(self@.items, MetadataKey::Title)),
    {
        self.item_text(MetadataKey::Title)
    }

    /// The year item as a number.
    fn year(&self) -> (r: Option<u32>)
        ensures
            r == match item_of(self@.items, MetadataKey::Year) {
                Some(it) => item_number(it),
                None => None,
            },
    {
        match self.find_item(MetadataKey::Year) {
            Some(i) => {
                let data = &self.items[i].1.data;
                match data.data_type {
                    DataType::Binary => if data.data.len() == 4 {
                        Some(be_read_u32(data.data.as_slice(), 0))
                    } else {
                        None
                    },
                    DataType::Text => {
                        let s = string_from_utf8_lossy(data.data.as_slice());
                        parse_u32(s.as_str())
                    },
                    _ => None,
                }
            },
            None => None,
        }
    }

    /// The bytes of the poster item.
    fn poster(&self) -> (r: Option<&[u8]>)
        ensures
            match item_of(self@.items, MetadataKey::Poster) {
                Some(it) => r matches Some(b) && b@ == it.data.data,
                None => r is None,
            },
    {
        match self.find_item(MetadataKey::Poster) {
            Some(i) => Some(self.items[i].1.data.data.as_slice()),
            None => None,
        }
    }

    /// The summary item as text.
    fn summary(&self) -> (r: Option<String>)
        ensures
            opt_view(r) == item_text(item_of(self@.items, MetadataKey::Summary)),
    {
        self.item_text(MetadataKey::Summary)
    }
}

/// Decoding the body of an encoded data box gives the box back, where its
/// size fits in 32 bits.
#[verifier::spinoff_prover]
pub proof fn lemma_data_roundtrip(b: DataBoxView, rest: Seq<u8>)
    requires
        data_size(b.data.len()) <= u32::MAX,
    ensures
        data_bytes(b).len() == data_size(b.data.len()),
        parse_data((data_bytes(b) + rest).skip(8), data_size(b.data.len()) as u64) == Ok::<DataBoxView, Error>(b),
{
    let size = data_size(b.data.len()) as u64;
    let c = data_type_code(b.data_type);
    let s = (data_bytes(b) + rest).skip(8);
    let t = u32_bytes(0) + (b.data + rest);
    lemma_header_roundtrip(BoxType::DataBox, size, u32_bytes(c) + t);
    assert(data_bytes(b) + rest =~= header_bytes(BoxType::DataBox, size) + (u32_bytes(c) + t));
    assert(s =~= u32_bytes(c) + t);
    lemma_be32_at_word(Seq::empty(), c, t);
    assert(Seq::<u8>::empty() + (u32_bytes(c) + t) =~= s);
    assert(s.subrange(8, 8 + (size - 16)) =~= b.data);
}

/// The encoding of an item: a box of the type of its kind holding its data
/// box.
pub open spec fn item_bytes(k: MetadataKey, it: IlstItemBoxView) -> Seq<u8> {
    header_bytes(metadata_box_type(k), item_size(it.data.data.len()) as u64) + data_bytes(it.data)
}

/// Decoding an encoded item that stands at position `p` of `d`, its header
/// before `p`, gives it back.
#[verifier::spinoff_prover]
pub proof fn lemma_item_roundtrip(d: Seq<u8>, p: int, k: MetadataKey, it: IlstItemBoxView)
    requires
        8 <= p,
        p - 8 + item_bytes(k, it).len() <= d.len(),
        d.subrange(p - 8, p - 8 + item_bytes(k, it).len()) == item_bytes(k, it),
        item_size(it.data.data.len()) <= u32::MAX,
        d.len() <= u64::MAX,
    ensures
        item_bytes(k, it).len() == item_size(it.data.data.len()),
        parse_item(d, p, item_size(it.data.data.len()) as u64) == Ok::<IlstItemBoxView, Error>(it),
{
    let n = it.data.data.len();
    let dsz = data_size(n) as u64;
    let db = data_bytes(it.data);
    let r = d.skip(p + dsz);
    lemma_data_roundtrip(it.data, r);
    let hb = header_bytes(metadata_box_type(k), item_size(n) as u64);
    assert(hb.len() == 8);
    let ib = item_bytes(k, it);
    assert(ib == hb + db);
    assert(ib.len() == 8 + dsz);
    assert(d.subrange(p, p + dsz) =~= db) by {
        assert forall|i: int| 0 <= i < dsz implies d.subrange(p, p + dsz)[i] == db[i] by {
            assert(d[p + i] == d.subrange(p - 8, p - 8 + ib.len())[i + 8]);
            assert(ib[i + 8] == db[i]);
        }
    }
    assert(d.skip(p) =~= db + r);
    lemma_header_roundtrip(BoxType::DataBox, dsz, db.skip(8) + r);
    assert(db =~= header_bytes(BoxType::DataBox, dsz) + db.skip(8));
    assert(db + r =~= header_bytes(BoxType::DataBox, dsz) + (db.skip(8) + r));
    assert(rest_at(d, p) == d.skip(p));
    assert(rest_at(d, p + 8) =~= (db + r).skip(8));
    assert(item_scan(d, p, p + dsz, None) == Ok::<Option<DataBoxView>, Error>(Some(it.data)));
}


/// Every item of `s` is small enough for a 32-bit box size.
pub open spec fn items_fit(s: Seq<(MetadataKey, IlstItemBoxView)>) -> bool {
    forall|i: int| 0 <= i < s.len() ==> item_size(#[trigger] s[i].1.data.data.len()) <= u32::MAX
}

/// The items of `s` as far as `i`, and the one at `i`, in terms of sizes.
proof fn lemma_items_size_step(s: Seq<(MetadataKey, IlstItemBoxView)>, i: int)
    requires
        0 <= i < s.len(),
    ensures
        items_size(s.take(i + 1)) == items_size(s.take(i)) + item_size(s[i].1.data.data.len()),
        items_size(s.take(i + 1)) <= items_size(s),
        item_size(s[i].1.data.data.len()) >= 24,
{
    assert(s.take(i + 1).drop_last() =~= s.take(i));
    lemma_items_size_prefix(s, i + 1);
}

/// Each item of a list whose whole size fits in 32 bits fits there too.
proof fn lemma_items_fit(s: Seq<(MetadataKey, IlstItemBoxView)>)
    requires
        items_size(s) <= u32::MAX,
    ensures
        items_fit(s),
{
    assert forall|i: int| 0 <= i < s.len() implies item_size(#[trigger] s[i].1.data.data.len()) <= u32::MAX by {
        lemma_items_size_step(s, i);
        lemma_items_size_nonneg(s.take(i));
    }
}

/// The encoding of items that fit takes as many bytes as their size.
proof fn lemma_items_bytes_len(s: Seq<(MetadataKey, IlstItemBoxView)>)
    requires
        items_fit(s),
    ensures
        items_bytes(s).len() == items_size(s),
    decreases s.len(),
{
    if s.len() > 0 {
        let t = s.drop_last();
        assert(items_fit(t)) by {
            assert forall|i: int| 0 <= i < t.len() implies item_size(#[trigger] t[i].1.data.data.len()) <= u32::MAX by {
                assert(t[i] == s[i]);
            }
        }
        lemma_items_bytes_len(t);
        assert(item_size(s[s.len() - 1].1.data.data.len()) <= u32::MAX);
    }
}

/// The encoding of the first `i` items starts the encoding of all of them.
proof fn lemma_items_bytes_prefix(s: Seq<(MetadataKey, IlstItemBoxView)>, i: int)
    requires
        0 <= i <= s.len(),
        items_fit(s),
    ensures
        items_bytes(s.take(i)).len() == items_size(s.take(i)),
        items_bytes(s).len() == items_size(s),
        items_size(s.take(i)) <= items_size(s),
        items_bytes(s).subrange(0, items_size(s.take(i))) == items_bytes(s.take(i)),
    decreases s.len() - i,
{
    lemma_items_bytes_len(s);
    lemma_items_size_prefix(s, i);
    let t = s.take(i);
    assert(items_fit(t)) by {
        assert forall|j: int| 0 <= j < t.len() implies item_size(#[trigger] t[j].1.data.data.len()) <= u32::MAX by {
            assert(t[j] == s[j]);
        }
    }
    lemma_items_bytes_len(t);
    if i == s.len() {
        assert(t =~= s);
        assert(items_bytes(s).subrange(0, items_size(s)) =~= items_bytes(s));
    } else {
        lemma_items_bytes_prefix(s, i + 1);
        let u = s.take(i + 1);
        assert(u.drop_last() =~= t);
        assert(u.last() == s[i]);
        let x = items_bytes(s);
        let y = items_bytes(u);
        assert(x.subrange(0, items_size(u)) == y);
        assert(x.subrange(0, items_size(t)) =~= y.subrange(0, items_size(t)));
        assert(y.subrange(0, items_size(t)) =~= items_bytes(t));
    }
}

/// The position of a key that none of the items of `s` has is the length
/// of `s`.
proof fn lemma_key_index_absent<V>(s: Seq<(MetadataKey, V)>, k: MetadataKey)
    requires
        forall|i: int| 0 <= i < s.len() ==> #[trigger] s[i].0 != k,
    ensures
        key_index(s, k) == s.len(),
    decreases s.len(),
{
    if s.len() > 0 {
        let t = s.drop_first();
        assert forall|i: int| 0 <= i < t.len() implies #[trigger] t[i].0 != k by {
            assert(t[i] == s[i + 1]);
        }
        lemma_key_index_absent(t, k);
    }
}

/// Reading encoded items from the start of the `k`-th of them, with the
/// first `k` already read, gives all of them.
#[verifier::spinoff_prover]
#[verifier::rlimit(40)]
proof fn lemma_ilst_scan_items(d: Seq<u8>, base: int, s: Seq<(MetadataKey, IlstItemBoxView)>, k: int)
    requires
        8 <= base,
        0 <= k <= s.len(),
        keys_distinct(s),
        items_fit(s),
        base + items_size(s) <= d.len() <= u64::MAX,
        d.subrange(base, base + items_size(s)) == items_bytes(s),
    ensures
        ilst_scan(d, base + items_size(s.take(k)), base + items_size(s), s.take(k)) == Ok::<
            Seq<(MetadataKey, IlstItemBoxView)>,
            Error,
        >(s),
    decreases s.len() - k,
{
    let end = base + items_size(s);
    let p = base + items_size(s.take(k));
    if k == s.len() {
        assert(s.take(k) =~= s);
    } else {
        lemma_items_size_step(s, k);
        lemma_items_size_nonneg(s.take(k));
        lemma_items_bytes_prefix(s, k);
        lemma_items_bytes_prefix(s, k + 1);
        let key = s[k].0;
        let it = s[k].1;
        let n = item_size(it.data.data.len());
        let q = p + n;
        let u = s.take(k + 1);
        assert(u.drop_last() =~= s.take(k));
        assert(u.last() == s[k]);
        let ib = item_bytes(key, it);
        assert(items_bytes(u) == items_bytes(s.take(k)) + ib);
        let x = items_bytes(s);
        assert(x.subrange(0, q - base) == items_bytes(u));
        assert(ib.len() == n);
        assert(d.subrange(p, q) =~= ib) by {
            assert forall|j: int| 0 <= j < n implies d.subrange(p, q)[j] == ib[j] by {
                assert(d.subrange(p, q)[j] == d.subrange(base, end)[p - base + j]);
                assert(x[p - base + j] == x.subrange(0, q - base)[p - base + j]);
            }
        }
        lemma_item_roundtrip(d, p + 8, key, it);
        let hdr = header_bytes(metadata_box_type(key), n as u64);
        let body = data_bytes(it.data) + d.skip(q);
        lemma_header_roundtrip(metadata_box_type(key), n as u64, body);
        assert(rest_at(d, p) =~= hdr + body);
        assert(metadata_key_of(metadata_box_type(key)) == Some(key));
        assert forall|i: int| 0 <= i < s.take(k).len() implies #[trigger] s.take(k)[i].0 != key by {
            assert(s.take(k)[i] == s[i]);
        }
        lemma_key_index_absent(s.take(k), key);
        assert(insert_item(s.take(k), key, it) =~= u);
        if k + 1 < s.len() {
            lemma_items_size_step(s, k + 1);
            lemma_ilst_scan_items(d, base, s, k + 1);
        } else {
            assert(u =~= s);
        }
    }
}

/// Reading an encoded ilst box, its header before position `p`, gives the
/// box back, where each kind of metadata occurs at most once and the box
/// size fits in 32 bits.
#[verifier::spinoff_prover]
pub proof fn lemma_ilst_roundtrip(d: Seq<u8>, p: int, b: IlstBoxView)
    requires
        8 <= p,
        keys_distinct(b.items),
        ilst_size(b) <= u32::MAX,
        p - 8 + ilst_size(b) <= d.len() <= u64::MAX,
        d.subrange(p - 8, p - 8 + ilst_size(b)) == ilst_bytes(b),
    ensures
        ilst_bytes(b).len() == ilst_size(b),
        parse_ilst(d, p, ilst_size(b) as u64) == Ok::<IlstBoxView, Error>(b),
{
    let s = b.items;
    lemma_items_size_nonneg(s);
    lemma_items_fit(s);
    lemma_items_bytes_len(s);
    let ib = items_bytes(s);
    assert(d.subrange(p, p + items_size(s)) =~= ib) by {
        assert forall|j: int| 0 <= j < items_size(s) implies d.subrange(p, p + items_size(s))[j] == ib[j] by {
            assert(d.subrange(p, p + items_size(s))[j] == d.subrange(p - 8, p - 8 + ilst_size(b))[j + 8]);
        }
    }
    assert(s.take(0) =~= Seq::<(MetadataKey, IlstItemBoxView)>::empty());
    lemma_ilst_scan_items(d, p, s, 0);
}


/// An ilst box small enough for a 32-bit size is encoded in as many bytes
/// as its size.
pub proof fn lemma_ilst_bytes_len(b: IlstBoxView)
    requires
        ilst_size(b) <= u32::MAX,
    ensures
        ilst_bytes(b).len() == ilst_size(b),
{
    lemma_items_size_nonneg(b.items);
    lemma_items_fit(b.items);
    lemma_items_bytes_len(b.items);
}


/// Setting the item of a kind keeps each kind at most once.
proof fn lemma_insert_item_distinct<V>(s: Seq<(MetadataKey, V)>, k: MetadataKey, v: V)
    requires
        keys_distinct(s),
    ensures
        keys_distinct(insert_item(s, k, v)),
{
    lemma_key_index_bounds(s, k);
    let i = key_index(s, k);
    let t = insert_item(s, k, v);
    if i < s.len() {
        assert forall|a: int, b: int| 0 <= a < b < t.len() implies #[trigger] t[a].0 != #[trigger] t[b].0 by {
            if a != i && b != i {
                assert(s[a].0 != s[b].0);
            } else if a == i {
                assert(s[a].0 != s[b].0);
            } else {
                assert(s[a].0 != s[b].0);
            }
        }
    } else {
        assert forall|a: int, b: int| 0 <= a < b < t.len() implies #[trigger] t[a].0 != #[trigger] t[b].0 by {
            if b < s.len() {
                assert(s[a].0 != s[b].0);
            } else {
                lemma_key_index_absent_rev(s, k, a);
            }
        }
    }
}

/// `key_index` counts the items before the first of kind `k`.
proof fn lemma_key_index_bounds<V>(items: Seq<(MetadataKey, V)>, k: MetadataKey)
    ensures
        0 <= key_index(items, k) <= items.len(),
        key_index(items, k) < items.len() ==> items[key_index(items, k)].0 == k,
    decreases items.len(),
{
    if items.len() > 0 && items[0].0 != k {
        lemma_key_index_bounds(items.drop_first(), k);
    }
}

/// Where no item has kind `k`, none before position `a` has it.
proof fn lemma_key_index_absent_rev<V>(s: Seq<(MetadataKey, V)>, k: MetadataKey, a: int)
    requires
        key_index(s, k) == s.len(),
        0 <= a < s.len(),
    ensures
        s[a].0 != k,
    decreases s.len(),
{
    if a > 0 {
        assert(s[0].0 != k);
        lemma_key_index_absent_rev(s.drop_first(), k, a - 1);
    }
}

/// Reading the children of an ilst box keeps each kind of metadata at
/// most once.
proof fn lemma_ilst_scan_distinct(d: Seq<u8>, p: int, end: int, items: Seq<(MetadataKey, IlstItemBoxView)>)
    requires
        keys_distinct(items),
    ensures
        ilst_scan(d, p, end, items) matches Ok(v) ==> keys_distinct(v),
    decreases end - p,
{
    if p < end {
        if let Ok((h, n)) = parse_header(rest_at(d, p)) {
            let q = p + n;
            let start = q - HEADER_SIZE;
            match metadata_key_of(h.name) {
                Some(k) => {
                    if let Ok(v) = parse_item(d, q, h.size) {
                        lemma_insert_item_distinct(items, k, v);
                        let r = start + h.size;
                        if r > p && r < end {
                            lemma_ilst_scan_distinct(d, r, end, insert_item(items, k, v));
                        }
                    }
                },
                None => {
                    let r = start + h.size;
                    if r > p && r < end && r <= u64::MAX {
                        lemma_ilst_scan_distinct(d, r, end, items);
                    }
                },
            }
        }
    }
}

/// Each kind of metadata occurs at most once in what an ilst box reads
/// as.
pub proof fn lemma_parse_ilst_distinct(d: Seq<u8>, p: int, size: u64)
    ensures
        parse_ilst(d, p, size) matches Ok(b) ==> keys_distinct(b.items),
{
    lemma_ilst_scan_distinct(d, p, p - HEADER_SIZE + size, Seq::empty());
}


/// Whether two items hold the same data.
fn item_eq(a: &IlstItemBox, b: &IlstItemBox) -> (r: bool)
    ensures
        r == (a@ == b@),
{
    if a.data.data_type != b.data.data_type {
        return false;
    }
    let x = &a.data.data;
    let y = &b.data.data;
    if x.len() != y.len() {
        return false;
    }
    let mut i: usize = 0;
    while i < x.len()
        invariant
            x@ == a@.data.data,
            y@ == b@.data.data,
            x@.len() == y@.len(),
            0 <= i <= x@.len(),
            forall|j: int| 0 <= j < i ==> x@[j] == y@[j],
        decreases x@.len() - i,
    {
        if x[i] != y[i] {
            assert(a@.data.data[i as int] != b@.data.data[i as int]);
            return false;
        }
        i = i + 1;
    }
    assert(x@ =~= y@);
    true
}

/// Whether `a` and `b` hold the same item of kind `k`, or neither holds
/// one.
fn same_kind(a: &IlstBox, b: &IlstBox, k: MetadataKey) -> (r: bool)
    ensures
        r == (item_of(a@.items, k) == item_of(b@.items, k)),
{
    match a.find_item(k) {
        None => match b.find_item(k) {
            None => true,
            Some(j) => false,
        },
        Some(i) => match b.find_item(k) {
            None => false,
            Some(j) => {
                assert(a@.items[i as int].1 == a.items@[i as int].1@);
                assert(b@.items[j as int].1 == b.items@[j as int].1@);
                item_eq(&a.items[i].1, &b.items[j].1)
            },
        },
    }
}

/// Whether `a` and `b` hold the same item of each kind.
pub open spec fn same_items(a: IlstBoxView, b: IlstBoxView) -> bool {
    forall|k: MetadataKey| #[trigger] item_of(a.items, k) == item_of(b.items, k)
}

impl PartialEq for IlstBox {
    fn eq(&self, other: &Self) -> (r: bool) {
        let r = same_kind(self, other, MetadataKey::Title) && same_kind(self, other, MetadataKey::Year) && same_kind(
            self,
            other,
            MetadataKey::Poster,
        ) && same_kind(self, other, MetadataKey::Summary);
        proof {
            if r {
                assert forall|k: MetadataKey| #[trigger] item_of(self@.items, k) == item_of(other@.items, k) by {
                    match k {
                        MetadataKey::Title => {},
                        MetadataKey::Year => {},
                        MetadataKey::Poster => {},
                        MetadataKey::Summary => {},
                    }
                }
            }
        }
        r
    }
}

impl vstd::std_specs::cmp::PartialEqSpecImpl for IlstBox {
    open spec fn obeys_eq_spec() -> bool {
        true
    }

    open spec fn eq_spec(&self, other: &Self) -> bool {
        same_items(self@, other@)
    }
}

} // verus!
