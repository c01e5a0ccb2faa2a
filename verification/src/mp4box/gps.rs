//! The GPS box: a version and date word and the positions of GPS data
//! blocks.
use crate::bigendian::{be_write_u32, be_write_u64, group_take_lemmas, lemma_u64_of_bytes, u32_bytes, u64_bytes};
use crate::error::{Error, Result};
use crate::mp4box::{
    be32_at, be64_at, box_result, box_start, header_bytes, lemma_be32_at_word, lemma_be64_at_word, read_outcome,
    skip_bytes_to, BoxHeader, Mp4Box, ReadBox, WriteBox, HEADER_SIZE,
};
use crate::reader::Reader;
use crate::types::BoxType;
use vstd::prelude::*;

verus! {

broadcast use group_take_lemmas;

/// The bytes that the version and date take.
pub const GPS_DATA_BLOCK_HEADER_SIZE: u64 = 8;

/// The bytes that each data block's position takes.
pub const GPS_DATA_BLOCK_INFO_SIZE: u64 = 8;

#[derive(Debug, Clone, Copy, PartialEq, Eq, Default, Structural)]
pub struct GpsDataBlockInfo {
    /// File offset of GPS data block in bytes
    pub offset: u32,
    /// Size of GPS data block in bytes
    pub size: u32,
}

#[derive(Debug, Clone, PartialEq, Eq, Default)]
pub struct GpsBox {
    pub version_and_date: u64,
    pub data_blocks: Vec<GpsDataBlockInfo>,
}

/// What a gps box holds, as mathematical values.
pub struct GpsBoxView {
    pub version_and_date: u64,
    pub data_blocks: Seq<GpsDataBlockInfo>,
}

impl View for GpsBox {
    type V = GpsBoxView;

    open spec fn view(&self) -> GpsBoxView {
        GpsBoxView { version_and_date: self.version_and_date, data_blocks: self.data_blocks@ }
    }
}

/// The size of a gps box with `n` data blocks.
pub open spec fn gps_size(n: nat) -> int {
    16 + 8 * (n as int)
}

/// The block stored at offset `i` of `s`.
pub open spec fn gps_block_at(s: Seq<u8>, i: int) -> GpsDataBlockInfo {
    GpsDataBlockInfo { offset: be32_at(s, i), size: be32_at(s, i + 4) }
}

/// The blocks among the first `n` stored from offset 8 of `s` whose offset
/// and size are both nonzero: the others are dropped.
pub open spec fn gps_blocks(s: Seq<u8>, n: nat) -> Seq<GpsDataBlockInfo>
    decreases n,
{
    if n == 0 {
        Seq::empty()
    } else {
        let b = gps_block_at(s, 8 + 8 * (n - 1));
        if b.offset == 0 || b.size == 0 {
            gps_blocks(s, (n - 1) as nat)
        } else {
            gps_blocks(s, (n - 1) as nat).push(b)
        }
    }
}

/// The gps box that the body at the start of `s` encodes, in a box that is
/// `size` bytes long: the blocks fill the box after the version and date.
pub open spec fn parse_gps(s: Seq<u8>, size: u64) -> Result<GpsBoxView> {
    if s.len() < 8 {
        Err(Error::IoError)
    } else if size < 16 {
        Err(Error::InvalidData("gps size too small"))
    } else if s.len() < 8 + 8 * ((size - 16) / 8) {
        Err(Error::IoError)
    } else {
        Ok(GpsBoxView { version_and_date: be64_at(s, 0), data_blocks: gps_blocks(s, ((size - 16) / 8) as nat) })
    }
}

/// The bytes of the blocks `v`.
pub open spec fn gps_blocks_bytes(v: Seq<GpsDataBlockInfo>) -> Seq<u8>
    decreases v.len(),
{
    if v.len() == 0 {
        Seq::empty()
    } else {
        gps_blocks_bytes(v.drop_last()) + (u32_bytes(v.last().offset) + u32_bytes(v.last().size))
    }
}

/// The encoding of a gps box, header included.
pub open spec fn gps_bytes(b: GpsBoxView) -> Seq<u8> {
    header_bytes(BoxType::GpsBox, gps_size(b.data_blocks.len()) as u64) + (u64_bytes(b.version_and_date)
        + gps_blocks_bytes(b.data_blocks))
}

/// Reads `n` blocks, dropping those with a zero offset or size.
fn read_gps_blocks(reader: &mut Reader, n: u64) -> (res: Result<Vec<GpsDataBlockInfo>>)
    requires
        8 <= old(reader).pos() <= old(reader).data_seq().len(),
    ensures
        final(reader).data_seq() == old(reader).data_seq(),
        match res {
            Ok(v) => {
                let s = old(reader).rem_at(old(reader).pos() - 8);
                &&& old(reader).rem().len() >= 8 * n
                &&& v@ == gps_blocks(s, n as nat)
                &&& final(reader).pos() == old(reader).pos() + 8 * n
            },
            Err(e) => old(reader).rem().len() < 8 * n && e == Error::IoError,
        },
{
    let ghost s = old(reader).rem_at(old(reader).pos() - 8);
    let ghost r0 = old(reader).rem();
    assert(r0 =~= s.skip(8));
    let mut data_blocks: Vec<GpsDataBlockInfo> = Vec::new();
    let mut i: u64 = 0;
    while i < n
        invariant
            i <= n,
            r0 == old(reader).rem(),
            r0 == s.skip(8),
            s.len() == r0.len() + 8,
            reader.data_seq() == old(reader).data_seq(),
            r0.len() >= 8 * i,
            reader.rem() == r0.skip(8 * i),
            reader.pos() == old(reader).pos() + 8 * i,
            data_blocks@ == gps_blocks(s, i as nat),
        decreases n - i,
    {
        let ghost r = reader.rem();
        let offset = reader.read_u32()?;
        let size = reader.read_u32()?;
        proof {
            assert forall|k: int| 0 <= k < 8 implies r[k] == s[8 + 8 * i + k] by {
                assert(r[k] == r0[8 * i + k]);
                assert(r0[8 * i + k] == s[8 + 8 * i + k]);
            }
            assert(offset == be32_at(s, 8 + 8 * i));
            assert(size == be32_at(s, 8 + 8 * i + 4));
        }
        if offset == 0 || size == 0 {
        } else {
            data_blocks.push(GpsDataBlockInfo { offset, size });
        }
        proof {
            assert(r0.skip(8 * i).skip(4).skip(4) =~= r0.skip(8 * (i + 1)));
        }
        i = i + 1;
    }
    Ok(data_blocks)
}

/// Appends the blocks.
fn write_gps_blocks(writer: &mut Vec<u8>, v: &Vec<GpsDataBlockInfo>)
    ensures
        final(writer)@ == old(writer)@ + gps_blocks_bytes(v@),
{
    let mut i: usize = 0;
    while i < v.len()
        invariant
            i <= v@.len(),
            writer@ == old(writer)@ + gps_blocks_bytes(v@.take(i as int)),
        decreases v@.len() - i,
    {
        let info = v[i];
        be_write_u32(writer, info.offset);
        be_write_u32(writer, info.size);
        proof {
            assert(v@.take(i + 1).drop_last() =~= v@.take(i as int));
        }
        i = i + 1;
        assert(writer@ =~= old(writer)@ + gps_blocks_bytes(v@.take(i as int)));
    }
    assert(v@.take(v@.len() as int) =~= v@);
}

impl GpsBox {
    pub fn get_type(&self) -> (t: BoxType)
        ensures
            t == BoxType::GpsBox,
    {
        BoxType::GpsBox
    }

    pub fn get_size(&self) -> (s: u64)
        requires
            gps_size(self.data_blocks@.len()) <= u64::MAX,
        ensures
            s == gps_size(self.data_blocks@.len()),
    {
        HEADER_SIZE + GPS_DATA_BLOCK_HEADER_SIZE + self.data_blocks.len() as u64 * GPS_DATA_BLOCK_INFO_SIZE
    }
}

impl Mp4Box for GpsBox {
    open spec fn has_size(&self) -> bool {
        gps_size(self.data_blocks@.len()) <= u64::MAX
    }

    fn box_type(&self) -> (t: BoxType)
        ensures
            t == BoxType::GpsBox,
    {
        self.get_type()
    }

    fn box_size(&self) -> (s: u64)
        ensures
            s == gps_size(self.data_blocks@.len()),
    {
        self.get_size()
    }
}

impl ReadBox for GpsBox {
    open spec fn size_accepted(size: u64) -> bool {
        true
    }

    /// Decodes the box; a box too small for its version and date is
    /// refused as invalid data.
    #[verifier::spinoff_prover]
    fn read_box(reader: &mut Reader, size: u64) -> (res: Result<Self>)
        ensures
            res is Ok ==> final(reader).pos() == old(reader).pos() - HEADER_SIZE + size,
            read_outcome(res, box_result(parse_gps(old(reader).rem(), size), old(reader).pos() - HEADER_SIZE, size)),
    {
        let ghost s = old(reader).rem();
        let start = box_start(reader);
        let version_and_date = reader.read_u64()?;
        assert(s.take(8) =~= s.subrange(0, 8));
        if size < HEADER_SIZE + GPS_DATA_BLOCK_HEADER_SIZE {
            return Err(Error::InvalidData("gps size too small"));
        }
        let count = (size - HEADER_SIZE - GPS_DATA_BLOCK_HEADER_SIZE) / GPS_DATA_BLOCK_INFO_SIZE;
        assert(reader.rem_at(reader.pos() - 8) =~= s);
        let data_blocks = read_gps_blocks(reader, count)?;
        skip_bytes_to(reader, start, size)?;
        Ok(GpsBox { version_and_date, data_blocks })
    }
}

impl WriteBox for GpsBox {
    open spec fn writable(&self) -> bool {
        self.has_size()
    }

    #[verifier::spinoff_prover]
    fn write_box(&self, writer: &mut Vec<u8>) -> (res: Result<u64>)
        ensures
            final(writer)@ == old(writer)@ + gps_bytes(self@),
            res == Ok::<u64, Error>(gps_size(self.data_blocks@.len()) as u64),
    {
        let size = self.box_size();
        BoxHeader::new(self.box_type(), size).write(writer)?;
        be_write_u64(writer, self.version_and_date);
        write_gps_blocks(writer, &self.data_blocks);
        assert(final(writer)@ =~= old(writer)@ + gps_bytes(self@));
        Ok(size)
    }
}

/// The blocks written one after another are read back, whatever comes
/// before and after, where none has a zero offset or size.
#[verifier::spinoff_prover]
pub proof fn lemma_gps_blocks_bytes(v: Seq<GpsDataBlockInfo>, pre: Seq<u8>, rest: Seq<u8>)
    requires
        pre.len() == 8,
        forall|i: int| 0 <= i < v.len() ==> #[trigger] v[i].offset != 0 && v[i].size != 0,
    ensures
        gps_blocks_bytes(v).len() == 8 * v.len(),
        gps_blocks(pre + (gps_blocks_bytes(v) + rest), v.len()) == v,
    decreases v.len(),
{
    if v.len() > 0 {
        let p = v.drop_last();
        let x = v.last();
        let w = u32_bytes(x.offset) + u32_bytes(x.size);
        assert forall|i: int| 0 <= i < p.len() implies #[trigger] p[i].offset != 0 && p[i].size != 0 by {
            assert(p[i] == v[i]);
        }
        lemma_gps_blocks_bytes(p, pre, w + rest);
        let q = gps_blocks_bytes(p);
        let s = pre + (gps_blocks_bytes(v) + rest);
        assert(s =~= pre + (q + (w + rest)));
        assert(gps_blocks(s, p.len()) == p);
        lemma_be32_at_word(pre + q, x.offset, u32_bytes(x.size) + rest);
        assert(s =~= (pre + q) + (u32_bytes(x.offset) + (u32_bytes(x.size) + rest)));
        lemma_be32_at_word(pre + q + u32_bytes(x.offset), x.size, rest);
        assert(s =~= (pre + q + u32_bytes(x.offset)) + (u32_bytes(x.size) + rest));
        assert(v[v.len() - 1] == x);
        assert(p.push(x) =~= v);
    } else {
        assert(gps_blocks(pre + (gps_blocks_bytes(v) + rest), v.len()) =~= v);
    }
}

/// Decoding the body of an encoded gps box gives the box back, where no
/// block has a zero offset or size and the box is small enough for a
/// 32-bit size.
#[verifier::spinoff_prover]
pub proof fn lemma_gps_roundtrip(b: GpsBoxView, rest: Seq<u8>)
    requires
        forall|i: int| 0 <= i < b.data_blocks.len() ==> #[trigger] b.data_blocks[i].offset != 0
            && b.data_blocks[i].size != 0,
        gps_size(b.data_blocks.len()) <= u32::MAX,
    ensures
        gps_bytes(b).len() == gps_size(b.data_blocks.len()),
        parse_gps((gps_bytes(b) + rest).skip(8), gps_size(b.data_blocks.len()) as u64) == Ok::<GpsBoxView, Error>(b),
{
    let n = b.data_blocks.len();
    let pre = u64_bytes(b.version_and_date);
    lemma_u64_of_bytes(b.version_and_date);
    lemma_gps_blocks_bytes(b.data_blocks, pre, rest);
    let h = header_bytes(BoxType::GpsBox, gps_size(n) as u64);
    assert(h.len() == 8);
    let s = (gps_bytes(b) + rest).skip(8);
    assert(s =~= pre + (gps_blocks_bytes(b.data_blocks) + rest));
    lemma_be64_at_word(Seq::empty(), b.version_and_date, gps_blocks_bytes(b.data_blocks) + rest);
    assert(Seq::<u8>::empty() + s =~= s);
    assert(((gps_size(n) as u64) - 16) / 8 == n);
}

} // verus!
