//! The decoding time-to-sample box: runs of samples with the same duration.
use crate::bigendian::{be_write_u32, group_take_lemmas, lemma_u24_roundtrip, lemma_u32_roundtrip, u32_bytes};
use crate::error::{Error, Result};
use crate::mp4box::{
    be24_at, be32_at, box_result, box_start, ext_bytes, header_bytes, lemma_be32_at_word, read_box_header_ext,
    read_outcome, skip_bytes_to, write_box_header_ext, BoxHeader, Mp4Box, ReadBox, WriteBox, HEADER_EXT_SIZE,
    HEADER_SIZE,
};
use crate::reader::Reader;
use crate::types::BoxType;
use vstd::prelude::*;

verus! {

broadcast use group_take_lemmas;

#[derive(Debug, Clone, Copy, PartialEq, Eq, Default, Structural)]
pub struct SttsEntry {
    pub sample_count: u32,
    pub sample_delta: u32,
}

#[derive(Debug, Clone, PartialEq, Eq, Default)]
pub struct SttsBox {
    pub version: u8,
    pub flags: u32,
    pub entries: Vec<SttsEntry>,
}

/// What an stts box holds, as mathematical values.
pub struct SttsBoxView {
    pub version: u8,
    pub flags: u32,
    pub entries: Seq<SttsEntry>,
}

impl View for SttsBox {
    type V = SttsBoxView;

    open spec fn view(&self) -> SttsBoxView {
        SttsBoxView { version: self.version, flags: self.flags, entries: self.entries@ }
    }
}

/// The size of an stts box with `n` entries.
pub open spec fn stts_size(n: nat) -> int {
    16 + 8 * (n as int)
}

/// The `n` entries stored from the start of `s`.
pub open spec fn stts_entries(s: Seq<u8>, n: nat) -> Seq<SttsEntry> {
    Seq::new(n, |i: int| SttsEntry { sample_count: be32_at(s, 8 * i), sample_delta: be32_at(s, 8 * i + 4) })
}

/// The stts box that the body at the start of `s` encodes.
pub open spec fn parse_stts(s: Seq<u8>) -> Result<SttsBoxView> {
    if s.len() < 8 {
        Err(Error::IoError)
    } else if s.len() < 8 + 8 * be32_at(s, 4) {
        Err(Error::IoError)
    } else {
        Ok(SttsBoxView { version: s[0], flags: be24_at(s, 1), entries: stts_entries(s.skip(8), be32_at(s, 4) as nat) })
    }
}

/// The bytes of the entries `e`.
pub open spec fn stts_entries_bytes(e: Seq<SttsEntry>) -> Seq<u8>
    decreases e.len(),
{
    if e.len() == 0 {
        Seq::empty()
    } else {
        stts_entries_bytes(e.drop_last()) + u32_bytes(e.last().sample_count) + u32_bytes(e.last().sample_delta)
    }
}

/// The encoding of an stts box, header included; the entry count is stored
/// as its low 32 bits.
pub open spec fn stts_bytes(b: SttsBoxView) -> Seq<u8> {
    header_bytes(BoxType::SttsBox, stts_size(b.entries.len()) as u64) + ext_bytes(b.version, b.flags)
        + u32_bytes(b.entries.len() as u32) + stts_entries_bytes(b.entries)
}

/// Reads `n` entries.
fn read_stts_entries(reader: &mut Reader, n: u32) -> (res: Result<Vec<SttsEntry>>)
    ensures
        final(reader).data_seq() == old(reader).data_seq(),
        match res {
            Ok(v) => old(reader).rem().len() >= 8 * n && v@ == stts_entries(old(reader).rem(), n as nat)
                && final(reader).pos() == old(reader).pos() + 8 * n,
            Err(e) => old(reader).rem().len() < 8 * n && e == Error::IoError,
        },
{
    let ghost s = old(reader).rem();
    let mut entries: Vec<SttsEntry> = Vec::new();
    let mut i: u32 = 0;
    while i < n
        invariant
            i <= n,
            s == old(reader).rem(),
            reader.data_seq() == old(reader).data_seq(),
            s.len() >= 8 * i,
            reader.rem() == s.skip(8 * i),
            reader.pos() == old(reader).pos() + 8 * i,
            entries@ == stts_entries(s, i as nat),
        decreases n - i,
    {
        let sample_count = reader.read_u32()?;
        let sample_delta = reader.read_u32()?;
        entries.push(SttsEntry { sample_count, sample_delta });
        proof {
            assert(s.skip(8 * i).skip(4).skip(4) =~= s.skip(8 * (i + 1)));
            assert(entries@ =~= stts_entries(s, (i + 1) as nat));
        }
        i = i + 1;
    }
    Ok(entries)
}

/// Appends the entries.
fn write_stts_entries(writer: &mut Vec<u8>, entries: &Vec<SttsEntry>)
    ensures
        final(writer)@ == old(writer)@ + stts_entries_bytes(entries@),
{
    let mut i: usize = 0;
    while i < entries.len()
        invariant
            i <= entries@.len(),
            writer@ == old(writer)@ + stts_entries_bytes(entries@.take(i as int)),
        decreases entries@.len() - i,
    {
        let e = entries[i];
        be_write_u32(writer, e.sample_count);
        be_write_u32(writer, e.sample_delta);
        proof {
            assert(entries@.take(i + 1).drop_last() =~= entries@.take(i as int));
        }
        i = i + 1;
    }
    assert(entries@.take(entries@.len() as int) =~= entries@);
}

impl Mp4Box for SttsBox {
    open spec fn has_size(&self) -> bool {
        stts_size(self.entries@.len()) <= u64::MAX
    }

    fn box_type(&self) -> (t: BoxType)
        ensures
            t == BoxType::SttsBox,
    {
        BoxType::SttsBox
    }

    fn box_size(&self) -> (s: u64)
        ensures
            s == stts_size(self.entries@.len()),
    {
        HEADER_SIZE + HEADER_EXT_SIZE + 4 + 8 * self.entries.len() as u64
    }
}

impl ReadBox for SttsBox {
    open spec fn size_accepted(size: u64) -> bool {
        true
    }

    #[verifier::spinoff_prover]
    fn read_box(reader: &mut Reader, size: u64) -> (res: Result<Self>)
        ensures
            res is Ok ==> final(reader).pos() == old(reader).pos() - HEADER_SIZE + size,
            read_outcome(res, box_result(parse_stts(old(reader).rem()), old(reader).pos() - HEADER_SIZE, size)),
    {
        let ghost s = old(reader).rem();
        let start = box_start(reader);
        let (version, flags) = read_box_header_ext(reader)?;
        let entry_count = reader.read_u32()?;
        assert(reader.rem() =~= s.skip(8));
        let entries = read_stts_entries(reader, entry_count)?;
        skip_bytes_to(reader, start, size)?;
        Ok(SttsBox { version, flags, entries })
    }
}

impl WriteBox for SttsBox {
    open spec fn writable(&self) -> bool {
        &&& self.flags < 0x1000000
        &&& self.has_size()
    }

    #[verifier::spinoff_prover]
    fn write_box(&self, writer: &mut Vec<u8>) -> (res: Result<u64>)
        ensures
            final(writer)@ == old(writer)@ + stts_bytes(self@),
            res == Ok::<u64, Error>(stts_size(self.entries@.len()) as u64),
    {
        let size = self.box_size();
        BoxHeader::new(self.box_type(), size).write(writer)?;
        write_box_header_ext(writer, self.version, self.flags)?;
        be_write_u32(writer, self.entries.len() as u32);
        write_stts_entries(writer, &self.entries);
        assert(final(writer)@ =~= old(writer)@ + stts_bytes(self@));
        Ok(size)
    }
}

/// The entries written one after another are read back, whatever follows.
#[verifier::spinoff_prover]
pub proof fn lemma_stts_entries_bytes(e: Seq<SttsEntry>, rest: Seq<u8>)
    ensures
        stts_entries_bytes(e).len() == 8 * e.len(),
        stts_entries(stts_entries_bytes(e) + rest, e.len()) == e,
    decreases e.len(),
{
    if e.len() > 0 {
        let p = e.drop_last();
        let x = e.last();
        let w = u32_bytes(x.sample_count) + u32_bytes(x.sample_delta);
        lemma_stts_entries_bytes(p, w + rest);
        let s = stts_entries_bytes(e) + rest;
        assert(s =~= stts_entries_bytes(p) + (w + rest));
        lemma_be32_at_word(stts_entries_bytes(p), x.sample_count, u32_bytes(x.sample_delta) + rest);
        assert(s =~= stts_entries_bytes(p) + (u32_bytes(x.sample_count) + (u32_bytes(x.sample_delta) + rest)));
        lemma_be32_at_word(stts_entries_bytes(p) + u32_bytes(x.sample_count), x.sample_delta, rest);
        assert(s =~= (stts_entries_bytes(p) + u32_bytes(x.sample_count)) + (u32_bytes(x.sample_delta) + rest));
        assert forall|i: int| 0 <= i < e.len() implies #[trigger] stts_entries(s, e.len())[i] == e[i] by {
            if i < p.len() {
                assert(stts_entries(stts_entries_bytes(p) + (w + rest), p.len())[i] == p[i]);
            }
        }
        assert(stts_entries(s, e.len()) =~= e);
    } else {
        assert(stts_entries(stts_entries_bytes(e) + rest, e.len()) =~= e);
    }
}

/// Decoding the body of an encoded stts box gives the box back, where the
/// box is small enough for a 32-bit size.
#[verifier::spinoff_prover]
pub proof fn lemma_stts_roundtrip(b: SttsBoxView, rest: Seq<u8>)
    requires
        b.flags < 0x1000000,
        stts_size(b.entries.len()) <= u32::MAX,
    ensures
        stts_bytes(b).len() == stts_size(b.entries.len()),
        parse_stts((stts_bytes(b) + rest).skip(8)) == Ok::<SttsBoxView, Error>(b),
{
    let n = b.entries.len();
    lemma_u24_roundtrip(b.flags);
    lemma_u32_roundtrip(n as u32);
    lemma_stts_entries_bytes(b.entries, rest);
    let h = header_bytes(BoxType::SttsBox, stts_size(n) as u64);
    assert(h.len() == 8);
    let s = (stts_bytes(b) + rest).skip(8);
    assert(s =~= ext_bytes(b.version, b.flags) + u32_bytes(n as u32) + (stts_entries_bytes(b.entries) + rest));
    assert(s.skip(8) =~= stts_entries_bytes(b.entries) + rest);
}

} // verus!
