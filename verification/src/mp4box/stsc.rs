//! The sample-to-chunk box: runs of chunks that hold the same number of
//! samples, each with the number of its first sample.
use crate::bigendian::{be_write_u32, group_take_lemmas, lemma_u24_roundtrip, lemma_u32_roundtrip, u32_bytes};
use crate::error::{Error, Result};
use crate::mp4box::{
    be24_at, be32_at, box_result, box_start, ext_bytes, header_bytes, read_box_header_ext,
    read_outcome, skip_bytes_to, write_box_header_ext, BoxHeader, Mp4Box, ReadBox, WriteBox, HEADER_EXT_SIZE,
    HEADER_SIZE,
};
use crate::reader::Reader;
use crate::types::BoxType;
use vstd::prelude::*;

verus! {

broadcast use group_take_lemmas;

#[derive(Debug, Clone, Copy, PartialEq, Eq, Default, Structural)]
pub struct StscEntry {
    pub first_chunk: u32,
    pub samples_per_chunk: u32,
    pub sample_description_index: u32,
    pub first_sample: u32,
}

#[derive(Debug, Clone, PartialEq, Eq, Default)]
pub struct StscBox {
    pub version: u8,
    pub flags: u32,
    pub entries: Vec<StscEntry>,
}

/// What an stsc box holds, as mathematical values.
pub struct StscBoxView {
    pub version: u8,
    pub flags: u32,
    pub entries: Seq<StscEntry>,
}

impl View for StscBox {
    type V = StscBoxView;

    open spec fn view(&self) -> StscBoxView {
        StscBoxView { version: self.version, flags: self.flags, entries: self.entries@ }
    }
}

/// The size of an stsc box with `n` entries.
pub open spec fn stsc_size(n: nat) -> int {
    16 + 12 * (n as int)
}

/// The entry whose three fields are stored at offset `i` of `s`, before its
/// first sample is known.
pub open spec fn stsc_raw_entry(s: Seq<u8>, i: int) -> StscEntry {
    StscEntry {
        first_chunk: be32_at(s, i),
        samples_per_chunk: be32_at(s, i + 4),
        sample_description_index: be32_at(s, i + 8),
        first_sample: 0,
    }
}

/// The `n` entries stored from the start of `s`.
pub open spec fn stsc_raw_entries(s: Seq<u8>, n: nat) -> Seq<StscEntry> {
    Seq::new(n, |i: int| stsc_raw_entry(s, 12 * i))
}

/// The number of the first sample of the chunk run that follows an entry
/// whose run starts at chunk `first_chunk`, holds `samples_per_chunk`
/// samples per chunk and starts at sample `first_sample`; `None` where the
/// next run starts before this one or the number does not fit in a `u32`.
pub open spec fn next_first_sample(first_chunk: u32, samples_per_chunk: u32, next_first_chunk: u32, first_sample: u32) -> Option<u32> {
    if next_first_chunk < first_chunk {
        None
    } else if (next_first_chunk - first_chunk) * samples_per_chunk > u32::MAX {
        None
    } else if (next_first_chunk - first_chunk) * samples_per_chunk + first_sample > u32::MAX {
        None
    } else {
        Some(((next_first_chunk - first_chunk) * samples_per_chunk + first_sample) as u32)
    }
}

/// The number of the first sample of entry `i`: samples are numbered from
/// 1, and each run of chunks adds its chunks times its samples per chunk.
pub open spec fn stsc_first_sample(e: Seq<StscEntry>, i: nat) -> Option<u32>
    decreases i,
{
    if i == 0 {
        Some(1u32)
    } else {
        match stsc_first_sample(e, (i - 1) as nat) {
            None => None,
            Some(prev) => next_first_sample(
                e[i - 1].first_chunk,
                e[i - 1].samples_per_chunk,
                e[i as int].first_chunk,
                prev,
            ),
        }
    }
}

/// Whether the first sample of every entry can be numbered.
pub open spec fn stsc_numbered(e: Seq<StscEntry>) -> bool {
    e.len() == 0 || stsc_first_sample(e, (e.len() - 1) as nat) is Some
}

/// The entries with their first samples filled in.
pub open spec fn stsc_with_first_samples(e: Seq<StscEntry>) -> Seq<StscEntry> {
    Seq::new(
        e.len(),
        |i: int| StscEntry { first_sample: stsc_first_sample(e, i as nat)->0, ..e[i] },
    )
}

/// The most entries that a box `size` bytes long has room for.
pub open spec fn stsc_capacity(size: u64) -> int {
    if size >= 16 {
        (size - 16) / 12
    } else {
        0
    }
}

/// The stsc box that the body at the start of `s` encodes, in a box that is
/// `size` bytes long.
pub open spec fn parse_stsc(s: Seq<u8>, size: u64) -> Result<StscBoxView> {
    if s.len() < 8 {
        Err(Error::IoError)
    } else {
        let n = be32_at(s, 4);
        if n > stsc_capacity(size) {
            Err(Error::InvalidData("stsc entry_count indicates more entries than could fit in the box"))
        } else if s.len() < 8 + 12 * n {
            Err(Error::IoError)
        } else {
            let raw = stsc_raw_entries(s.skip(8), n as nat);
            if stsc_numbered(raw) {
                Ok(StscBoxView { version: s[0], flags: be24_at(s, 1), entries: stsc_with_first_samples(raw) })
            } else {
                Err(Error::InvalidData("attempt to calculate stsc sample_id with overflow"))
            }
        }
    }
}

/// The bytes of the stored fields of the entries `e`.
pub open spec fn stsc_entries_bytes(e: Seq<StscEntry>) -> Seq<u8>
    decreases e.len(),
{
    if e.len() == 0 {
        Seq::empty()
    } else {
        stsc_entries_bytes(e.drop_last()) + u32_bytes(e.last().first_chunk) + u32_bytes(
            e.last().samples_per_chunk,
        ) + u32_bytes(e.last().sample_description_index)
    }
}

/// The encoding of an stsc box, header included; the first samples are not
/// stored.
pub open spec fn stsc_bytes(b: StscBoxView) -> Seq<u8> {
    header_bytes(BoxType::StscBox, stsc_size(b.entries.len()) as u64) + ext_bytes(b.version, b.flags)
        + u32_bytes(b.entries.len() as u32) + stsc_entries_bytes(b.entries)
}

/// A numbering that fails at entry `i` fails at every later entry.
#[verifier::spinoff_prover]
pub proof fn lemma_stsc_first_sample_none(e: Seq<StscEntry>, i: nat, j: nat)
    requires
        i <= j,
        stsc_first_sample(e, i) is None,
    ensures
        stsc_first_sample(e, j) is None,
    decreases j - i,
{
    if i < j {
        lemma_stsc_first_sample_none(e, i, (j - 1) as nat);
    }
}

/// A numbering that succeeds at entry `j` succeeds at every earlier entry.
#[verifier::spinoff_prover]
pub proof fn lemma_stsc_first_sample_some(e: Seq<StscEntry>, i: nat, j: nat)
    requires
        i <= j,
        stsc_first_sample(e, j) is Some,
    ensures
        stsc_first_sample(e, i) is Some,
{
    if stsc_first_sample(e, i) is None {
        lemma_stsc_first_sample_none(e, i, j);
    }
}

/// The numbering only reads the chunk fields of the entries.
#[verifier::spinoff_prover]
pub proof fn lemma_stsc_first_sample_fields(e: Seq<StscEntry>, f: Seq<StscEntry>, i: nat)
    requires
        e.len() == f.len(),
        i < e.len(),
        forall|k: int| 0 <= k < e.len() ==> #[trigger] same_run(e[k], f[k]),
    ensures
        stsc_first_sample(e, i) == stsc_first_sample(f, i),
    decreases i,
{
    if i > 0 {
        lemma_stsc_first_sample_fields(e, f, (i - 1) as nat);
        assert(same_run(e[i - 1], f[i - 1]));
        assert(same_run(e[i as int], f[i as int]));
    }
}

/// Whether two entries describe the same run of chunks.
pub open spec fn same_run(a: StscEntry, b: StscEntry) -> bool {
    a.first_chunk == b.first_chunk && a.samples_per_chunk == b.samples_per_chunk
}

/// Reads `n` entries of three big-endian `u32`s each, with first sample 0.
fn read_stsc_entries(reader: &mut Reader, n: u32) -> (res: Result<Vec<StscEntry>>)
    ensures
        final(reader).data_seq() == old(reader).data_seq(),
        match res {
            Ok(v) => old(reader).rem().len() >= 12 * n && v@ == stsc_raw_entries(old(reader).rem(), n as nat)
                && final(reader).pos() == old(reader).pos() + 12 * n,
            Err(e) => old(reader).rem().len() < 12 * n && e == Error::IoError,
        },
{
    let mut entries: Vec<StscEntry> = Vec::new();
    let mut i: u32 = 0;
    while i < n
        invariant
            i <= n,
            reader.data_seq() == old(reader).data_seq(),
            old(reader).rem().len() >= 12 * i,
            reader.rem() == old(reader).rem().skip(12 * i),
            reader.pos() == old(reader).pos() + 12 * i,
            entries@ == stsc_raw_entries(old(reader).rem(), i as nat),
        decreases n - i,
    {
        let ghost s = old(reader).rem();
        let first_chunk = reader.read_u32()?;
        let samples_per_chunk = reader.read_u32()?;
        let sample_description_index = reader.read_u32()?;
        entries.push(StscEntry { first_chunk, samples_per_chunk, sample_description_index, first_sample: 0 });
        proof {
            assert(s.skip(12 * i).skip(4).skip(4).skip(4) =~= s.skip(12 * (i + 1)));
            assert(entries@ =~= stsc_raw_entries(s, (i + 1) as nat));
        }
        i = i + 1;
    }
    Ok(entries)
}

/// Fills in the first sample of each entry.
fn number_stsc_entries(raw: &Vec<StscEntry>) -> (res: Result<Vec<StscEntry>>)
    ensures
        match res {
            Ok(v) => stsc_numbered(raw@) && v@ == stsc_with_first_samples(raw@),
            Err(e) => !stsc_numbered(raw@)
                && e == Error::InvalidData("attempt to calculate stsc sample_id with overflow"),
        },
{
    let n = raw.len();
    let mut entries: Vec<StscEntry> = Vec::new();
    let mut sample_id: u32 = 1;
    let mut i: usize = 0;
    while i < n
        invariant
            n == raw@.len(),
            i <= n,
            i < n ==> stsc_first_sample(raw@, i as nat) == Some(sample_id),
            0 < i ==> stsc_first_sample(raw@, (i - 1) as nat) is Some,
            entries@ == stsc_with_first_samples(raw@).take(i as int),
        decreases n - i,
    {
        let entry = raw[i];
        entries.push(StscEntry { first_sample: sample_id, ..entry });
        if i + 1 < n {
            let next = raw[i + 1];
            let step = match next.first_chunk.checked_sub(entry.first_chunk) {
                Some(d) => d.checked_mul(entry.samples_per_chunk),
                None => None,
            };
            let id = match step {
                Some(m) => m.checked_add(sample_id),
                None => None,
            };
            match id {
                Some(v) => {
                    sample_id = v;
                },
                None => {
                    proof {
                        assert(stsc_first_sample(raw@, (i + 1) as nat) is None);
                        lemma_stsc_first_sample_none(raw@, (i + 1) as nat, (n - 1) as nat);
                    }
                    return Err(Error::InvalidData("attempt to calculate stsc sample_id with overflow"));
                },
            }
        }
        i = i + 1;
        assert(entries@ =~= stsc_with_first_samples(raw@).take(i as int));
    }
    assert(entries@ =~= stsc_with_first_samples(raw@));
    Ok(entries)
}

/// Appends the stored fields of the entries.
fn write_stsc_entries(writer: &mut Vec<u8>, entries: &Vec<StscEntry>)
    ensures
        final(writer)@ == old(writer)@ + stsc_entries_bytes(entries@),
{
    let mut i: usize = 0;
    while i < entries.len()
        invariant
            i <= entries@.len(),
            writer@ == old(writer)@ + stsc_entries_bytes(entries@.take(i as int)),
        decreases entries@.len() - i,
    {
        let e = entries[i];
        be_write_u32(writer, e.first_chunk);
        be_write_u32(writer, e.samples_per_chunk);
        be_write_u32(writer, e.sample_description_index);
        proof {
            let t = entries@.take(i + 1);
            assert(t.drop_last() =~= entries@.take(i as int));
        }
        i = i + 1;
    }
    assert(entries@.take(entries@.len() as int) =~= entries@);
}

impl StscBox {
    pub fn get_type(&self) -> (t: BoxType)
        ensures
            t == BoxType::StscBox,
    {
        BoxType::StscBox
    }

    pub fn get_size(&self) -> (s: u64)
        requires
            stsc_size(self.entries@.len()) <= u64::MAX,
        ensures
            s == stsc_size(self.entries@.len()),
    {
        HEADER_SIZE + HEADER_EXT_SIZE + 4 + 12 * self.entries.len() as u64
    }
}

impl Mp4Box for StscBox {
    open spec fn has_size(&self) -> bool {
        stsc_size(self.entries@.len()) <= u64::MAX
    }

    fn box_type(&self) -> (t: BoxType)
        ensures
            t == BoxType::StscBox,
    {
        self.get_type()
    }

    fn box_size(&self) -> (s: u64)
        ensures
            s == stsc_size(self.entries@.len()),
    {
        self.get_size()
    }
}

impl ReadBox for StscBox {
    open spec fn size_accepted(size: u64) -> bool {
        true
    }

    #[verifier::spinoff_prover]
    fn read_box(reader: &mut Reader, size: u64) -> (res: Result<Self>)
        ensures
            res is Ok ==> final(reader).pos() == old(reader).pos() - HEADER_SIZE + size,
            read_outcome(res, box_result(parse_stsc(old(reader).rem(), size), old(reader).pos() - HEADER_SIZE, size)),
    {
        let ghost s = old(reader).rem();
        let start = box_start(reader);
        let (version, flags) = read_box_header_ext(reader)?;
        let entry_count = reader.read_u32()?;
        let avail = if size >= 16 { size - 16 } else { 0 };
        if entry_count as u64 > avail / 12 {
            return Err(Error::InvalidData("stsc entry_count indicates more entries than could fit in the box"));
        }
        let raw = read_stsc_entries(reader, entry_count)?;
        proof {
            assert(s.skip(4).skip(4) =~= s.skip(8));
        }
        let entries = number_stsc_entries(&raw)?;
        skip_bytes_to(reader, start, size)?;
        Ok(StscBox { version, flags, entries })
    }
}

impl WriteBox for StscBox {
    open spec fn writable(&self) -> bool {
        &&& self.flags < 0x1000000
        &&& self.has_size()
    }

    /// Writes the box; the entry count is stored as its low 32 bits.
    #[verifier::spinoff_prover]
    fn write_box(&self, writer: &mut Vec<u8>) -> (res: Result<u64>)
        ensures
            final(writer)@ == old(writer)@ + stsc_bytes(self@),
            res == Ok::<u64, Error>(stsc_size(self.entries@.len()) as u64),
    {
        let size = self.box_size();
        BoxHeader::new(self.box_type(), size).write(writer)?;
        write_box_header_ext(writer, self.version, self.flags)?;
        be_write_u32(writer, self.entries.len() as u32);
        write_stsc_entries(writer, &self.entries);
        assert(final(writer)@ =~= old(writer)@ + stsc_bytes(self@));
        Ok(size)
    }
}

/// The stored fields of `e` are `12 * e.len()` bytes, and entry `i` is read
/// back from offset `12 * i`.
#[verifier::spinoff_prover]
pub proof fn lemma_stsc_entries_bytes(e: Seq<StscEntry>, rest: Seq<u8>)
    ensures
        stsc_entries_bytes(e).len() == 12 * e.len(),
        forall|i: int| 0 <= i < e.len() ==> #[trigger] stsc_raw_entry(stsc_entries_bytes(e) + rest, 12 * i)
            == (StscEntry { first_sample: 0, ..e[i] }),
    decreases e.len(),
{
    if e.len() > 0 {
        let p = e.drop_last();
        let last = e.last();
        lemma_stsc_entries_bytes(p, u32_bytes(last.first_chunk) + u32_bytes(last.samples_per_chunk)
            + u32_bytes(last.sample_description_index) + rest);
        let s = stsc_entries_bytes(e) + rest;
        let n = p.len() as int;
        assert(s =~= stsc_entries_bytes(p) + (u32_bytes(last.first_chunk) + u32_bytes(
            last.samples_per_chunk,
        ) + u32_bytes(last.sample_description_index) + rest));
        lemma_u32_roundtrip(last.first_chunk);
        lemma_u32_roundtrip(last.samples_per_chunk);
        lemma_u32_roundtrip(last.sample_description_index);
        assert(stsc_raw_entry(s, 12 * n) == (StscEntry { first_sample: 0, ..last }));
        assert forall|i: int| 0 <= i < e.len() implies #[trigger] stsc_raw_entry(s, 12 * i) == (
        StscEntry { first_sample: 0, ..e[i] }) by {
            if i < n {
                assert(e[i] == p[i]);
            }
        }
    }
}

/// Decoding the body of an encoded stsc box gives the box back, where the
/// first samples are those that the chunk runs determine, every run could be
/// numbered and the box is small enough for a 32-bit size.
#[verifier::spinoff_prover]
#[verifier::rlimit(40)]
pub proof fn lemma_stsc_roundtrip(b: StscBoxView, rest: Seq<u8>)
    requires
        b.flags < 0x1000000,
        stsc_size(b.entries.len()) <= u32::MAX,
        stsc_numbered(b.entries),
        b.entries == stsc_with_first_samples(b.entries),
    ensures
        stsc_bytes(b).len() == stsc_size(b.entries.len()),
        parse_stsc((stsc_bytes(b) + rest).skip(8), stsc_size(b.entries.len()) as u64) == Ok::<
            StscBoxView,
            Error,
        >(b),
{
    let n = b.entries.len();
    lemma_u24_roundtrip(b.flags);
    lemma_u32_roundtrip(n as u32);
    lemma_stsc_entries_bytes(b.entries, rest);
    let h = header_bytes(BoxType::StscBox, stsc_size(n) as u64);
    let ext = ext_bytes(b.version, b.flags);
    let cnt = u32_bytes(n as u32);
    let body = stsc_entries_bytes(b.entries) + rest;
    assert(h.len() == 8);
    assert(stsc_bytes(b) + rest =~= h + (ext + cnt + body));
    let s = (stsc_bytes(b) + rest).skip(8);
    assert(s =~= ext + cnt + body);
    assert(s.skip(8) =~= body);
    assert(be32_at(s, 4) == n);
    assert(stsc_capacity(stsc_size(n) as u64) == n) by {
        assert((12 * (n as int)) / 12 == n as int) by (nonlinear_arith);
    }
    assert(s.len() >= 8 + 12 * n);
    lemma_stsc_raw_entries(b, body);
}

/// The entries read back from the stored fields of `b`'s entries are `b`'s
/// entries, once numbered.
#[verifier::spinoff_prover]
proof fn lemma_stsc_raw_entries(b: StscBoxView, body: Seq<u8>)
    requires
        stsc_numbered(b.entries),
        b.entries == stsc_with_first_samples(b.entries),
        forall|i: int| 0 <= i < b.entries.len() ==> #[trigger] stsc_raw_entry(body, 12 * i)
            == (StscEntry { first_sample: 0, ..b.entries[i] }),
    ensures
        stsc_numbered(stsc_raw_entries(body, b.entries.len())),
        stsc_with_first_samples(stsc_raw_entries(body, b.entries.len())) == b.entries,
{
    let n = b.entries.len();
    let raw = stsc_raw_entries(body, n);
    assert forall|k: int| 0 <= k < n implies #[trigger] same_run(raw[k], b.entries[k]) by {
        assert(raw[k] == stsc_raw_entry(body, 12 * k));
    }
    if n > 0 {
        lemma_stsc_first_sample_fields(raw, b.entries, (n - 1) as nat);
    }
    assert forall|k: int| 0 <= k < n implies #[trigger] stsc_with_first_samples(raw)[k] == b.entries[k] by {
        lemma_stsc_first_sample_fields(raw, b.entries, k as nat);
        assert(raw[k] == stsc_raw_entry(body, 12 * k));
        assert(b.entries[k] == stsc_with_first_samples(b.entries)[k]);
    }
    assert(stsc_with_first_samples(raw) =~= b.entries);
}

/// How numbered entries are numbered: the first entry starts at sample 1,
/// and each later entry starts where the run before it ends, that is, that
/// run's first sample plus its chunks (up to the next entry's first chunk)
/// times its samples per chunk. The stored fields are kept.
#[verifier::spinoff_prover]
pub proof fn lemma_stsc_first_sample_steps(e: Seq<StscEntry>)
    requires
        stsc_numbered(e),
    ensures
        stsc_with_first_samples(e).len() == e.len(),
        e.len() > 0 ==> stsc_with_first_samples(e)[0].first_sample == 1,
        forall|i: int| #![trigger e[i]] 0 < i < e.len() ==> e[i - 1].first_chunk <= e[i].first_chunk
            && stsc_with_first_samples(e)[i].first_sample == stsc_with_first_samples(e)[i - 1].first_sample
                + (e[i].first_chunk - e[i - 1].first_chunk) * e[i - 1].samples_per_chunk,
        forall|i: int| 0 <= i < e.len() ==> #[trigger] same_run(stsc_with_first_samples(e)[i], e[i])
            && stsc_with_first_samples(e)[i].sample_description_index == e[i].sample_description_index,
{
    let w = stsc_with_first_samples(e);
    assert forall|i: int| #![trigger e[i]] 0 < i < e.len() implies e[i - 1].first_chunk <= e[i].first_chunk
        && w[i].first_sample == w[i - 1].first_sample
            + (e[i].first_chunk - e[i - 1].first_chunk) * e[i - 1].samples_per_chunk by {
        lemma_stsc_first_sample_some(e, i as nat, (e.len() - 1) as nat);
        lemma_stsc_first_sample_some(e, (i - 1) as nat, (e.len() - 1) as nat);
        let prev = stsc_first_sample(e, (i - 1) as nat)->0;
        assert(stsc_first_sample(e, i as nat) == next_first_sample(
            e[i - 1].first_chunk,
            e[i - 1].samples_per_chunk,
            e[i].first_chunk,
            prev,
        ));
    }
}

/// The entries of a parsed stsc box are numbered from sample 1, each entry
/// starting after the previous run's chunks times its samples per chunk.
#[verifier::spinoff_prover]
pub proof fn lemma_parse_stsc_first_samples(s: Seq<u8>, size: u64)
    ensures
        parse_stsc(s, size) matches Ok(b) ==> {
            &&& b.entries.len() > 0 ==> b.entries[0].first_sample == 1
            &&& forall|i: int| #![trigger b.entries[i]] 0 < i < b.entries.len() ==> b.entries[i - 1].first_chunk <= b.entries[i].first_chunk
                && b.entries[i].first_sample == b.entries[i - 1].first_sample
                    + (b.entries[i].first_chunk - b.entries[i - 1].first_chunk) * b.entries[i - 1].samples_per_chunk
        },
{
    if let Ok(b) = parse_stsc(s, size) {
        let raw = stsc_raw_entries(s.skip(8), be32_at(s, 4) as nat);
        lemma_stsc_first_sample_steps(raw);
        assert forall|i: int| #![trigger b.entries[i]] 0 < i < b.entries.len() implies b.entries[i - 1].first_chunk <= b.entries[i].first_chunk
            && b.entries[i].first_sample == b.entries[i - 1].first_sample
                + (b.entries[i].first_chunk - b.entries[i - 1].first_chunk) * b.entries[i - 1].samples_per_chunk by {
            assert(same_run(stsc_with_first_samples(raw)[i], raw[i]));
            assert(same_run(stsc_with_first_samples(raw)[i - 1], raw[i - 1]));
        }
    }
}

} // verus!
