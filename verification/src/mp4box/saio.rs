//! The sample auxiliary information offsets box.
use crate::bigendian::{
    be_write_u32, be_write_u64, group_take_lemmas, lemma_u24_roundtrip, lemma_u32_roundtrip, u32_bytes,
    u64_bytes,
};
use crate::error::{Error, Result};
use crate::mp4box::{
    be24_at, be32_at, be64_at, box_result, box_start, ext_bytes, header_bytes, lemma_be32_at_word,
    lemma_be64_at_word, read_box_header_ext, read_outcome, skip_bytes_to, write_box_header_ext, BoxHeader,
    Mp4Box, ReadBox, WriteBox, HEADER_EXT_SIZE, HEADER_SIZE,
};
use crate::mp4box::saiz::aux_bytes;
use crate::reader::Reader;
use crate::types::{AuxiliaryInfoType, BoxType};
use vstd::prelude::*;
use vstd::seq_lib::lemma_concat_associative;

verus! {

broadcast use group_take_lemmas;

#[derive(Debug, Clone, PartialEq, Eq, Default)]
pub struct SaioBox {
    pub version: u8,
    pub aux_info: Option<AuxiliaryInfoType>,
    pub entry_count: u32,
    pub offsets: Vec<u64>,
}

/// What a saio box holds, as mathematical values.
pub struct SaioBoxView {
    pub version: u8,
    pub aux_info: Option<AuxiliaryInfoType>,
    pub entry_count: u32,
    pub offsets: Seq<u64>,
}

impl View for SaioBox {
    type V = SaioBoxView;

    open spec fn view(&self) -> SaioBoxView {
        SaioBoxView {
            version: self.version,
            aux_info: self.aux_info,
            entry_count: self.entry_count,
            offsets: self.offsets@,
        }
    }
}

/// The number of bytes each offset takes: 4 in version 0, else 8.
pub open spec fn offset_len(version: u8) -> int {
    if version == 0 {
        4
    } else {
        8
    }
}

/// The size of the encoding of `b`.
pub open spec fn saio_size(b: SaioBoxView) -> int {
    16 + (if b.aux_info is Some { 8int } else { 0int }) + offset_len(b.version) * b.entry_count
}

/// The `n` offsets stored from the start of `t`: 32-bit in version 0, else
/// 64-bit.
pub open spec fn saio_offsets(t: Seq<u8>, version: u8, n: nat) -> Seq<u64> {
    Seq::new(n, |i: int| if version == 0 { be32_at(t, 4 * i) as u64 } else { be64_at(t, 8 * i) })
}

/// The saio box that the body at the start of `s` encodes.
pub open spec fn parse_saio(s: Seq<u8>) -> Result<SaioBoxView> {
    if s.len() < 4 {
        Err(Error::IoError)
    } else {
        let has = 0x01 & be24_at(s, 1) != 0;
        let o = if has { 12int } else { 4int };
        if s.len() < o + 4 {
            Err(Error::IoError)
        } else {
            let n = be32_at(s, o);
            if s.len() < o + 4 + offset_len(s[0]) * n {
                Err(Error::IoError)
            } else {
                Ok(SaioBoxView {
                    version: s[0],
                    aux_info: if has {
                        Some(AuxiliaryInfoType { aux_info_type: be32_at(s, 4), aux_info_type_parameter: be32_at(s, 8) })
                    } else {
                        None
                    },
                    entry_count: n,
                    offsets: saio_offsets(s.skip(o + 4), s[0], n as nat),
                })
            }
        }
    }
}

/// Offset `i` of `v`, or 0 past its end.
pub open spec fn offset_or_zero(v: Seq<u64>, i: int) -> u64 {
    if i < v.len() {
        v[i]
    } else {
        0
    }
}

/// The bytes of the first `n` offsets of `b` (0 past those held), each cut
/// to 32 bits in version 0.
pub open spec fn saio_offsets_bytes(b: SaioBoxView, n: nat) -> Seq<u8>
    decreases n,
{
    if n == 0 {
        Seq::empty()
    } else {
        saio_offsets_bytes(b, (n - 1) as nat) + if b.version == 0 {
            u32_bytes(offset_or_zero(b.offsets, n - 1) as u32)
        } else {
            u64_bytes(offset_or_zero(b.offsets, n - 1))
        }
    }
}

/// The body of an encoded saio box.
pub open spec fn saio_body(b: SaioBoxView) -> Seq<u8> {
    ext_bytes(b.version, if b.aux_info is Some { 1 } else { 0 }) + (aux_bytes(b.aux_info) + (u32_bytes(
        b.entry_count,
    ) + saio_offsets_bytes(b, b.entry_count as nat)))
}

/// The encoding of a saio box, header included.
pub open spec fn saio_bytes(b: SaioBoxView) -> Seq<u8> {
    header_bytes(BoxType::SaioBox, saio_size(b) as u64) + saio_body(b)
}

/// Reads `n` offsets of the width of `version`.
fn read_saio_offsets(reader: &mut Reader, version: u8, n: u32) -> (res: Result<Vec<u64>>)
    ensures
        final(reader).data_seq() == old(reader).data_seq(),
        match res {
            Ok(v) => old(reader).rem().len() >= offset_len(version) * n && v@ == saio_offsets(
                old(reader).rem(),
                version,
                n as nat,
            ) && final(reader).pos() == old(reader).pos() + offset_len(version) * n,
            Err(e) => old(reader).rem().len() < offset_len(version) * n && e == Error::IoError,
        },
{
    let ghost s = old(reader).rem();
    let ghost w = offset_len(version);
    let mut v: Vec<u64> = Vec::new();
    let mut i: u32 = 0;
    while i < n
        invariant
            i <= n,
            w == offset_len(version),
            s == old(reader).rem(),
            reader.data_seq() == old(reader).data_seq(),
            s.len() >= w * i,
            reader.rem() == s.skip(w * i),
            reader.pos() == old(reader).pos() + w * i,
            v@ == saio_offsets(s, version, i as nat),
        decreases n - i,
    {
        proof {
            assert(w * (i + 1) == w * i + w) by (nonlinear_arith);
            assert(w * (i + 1) <= w * n) by (nonlinear_arith)
                requires
                    i + 1 <= n,
                    w >= 0,
            ;
        }
        let ghost r = reader.rem();
        let offset = if version == 0 {
            reader.read_u32()? as u64
        } else {
            let x = reader.read_u64()?;
            proof {
                assert(r.take(8) =~= s.subrange(8 * i, 8 * i + 8));
            }
            x
        };
        v.push(offset);
        proof {
            assert(reader.rem() =~= s.skip(w * (i + 1)));
            assert(v@ =~= saio_offsets(s, version, (i + 1) as nat));
        }
        i = i + 1;
    }
    Ok(v)
}

/// Appends the first `n` offsets of `b`.
fn write_saio_offsets(writer: &mut Vec<u8>, b: &SaioBox)
    ensures
        final(writer)@ == old(writer)@ + saio_offsets_bytes(b@, b.entry_count as nat),
{
    let n = b.entry_count;
    let mut i: u32 = 0;
    while i < n
        invariant
            i <= n,
            n == b.entry_count,
            writer@ == old(writer)@ + saio_offsets_bytes(b@, i as nat),
        decreases n - i,
    {
        let k = i as usize;
        let offset = if k < b.offsets.len() { b.offsets[k] } else { 0 };
        if b.version == 0 {
            be_write_u32(writer, offset as u32);
        } else {
            be_write_u64(writer, offset);
        }
        i = i + 1;
        assert(writer@ =~= old(writer)@ + saio_offsets_bytes(b@, i as nat));
    }
}

impl SaioBox {
    pub const FLAG_AUX_INFO_TYPE: u32 = 0x01;

    pub fn get_type(&self) -> (t: BoxType)
        ensures
            t == BoxType::SaioBox,
    {
        BoxType::SaioBox
    }

    pub fn get_size(&self) -> (s: u64)
        ensures
            s == saio_size(self@),
    {
        let mut size = HEADER_SIZE + HEADER_EXT_SIZE + 4;
        if self.aux_info.is_some() {
            size = size + 8;
        }
        if self.version == 0 {
            size = size + 4 * self.entry_count as u64;
        } else {
            size = size + 8 * self.entry_count as u64;
        }
        size
    }
}

impl Mp4Box for SaioBox {
    open spec fn has_size(&self) -> bool {
        true
    }

    fn box_type(&self) -> (t: BoxType)
        ensures
            t == BoxType::SaioBox,
    {
        self.get_type()
    }

    fn box_size(&self) -> (s: u64)
        ensures
            s == saio_size(self@),
    {
        self.get_size()
    }
}

impl ReadBox for SaioBox {
    open spec fn size_accepted(size: u64) -> bool {
        true
    }

    #[verifier::spinoff_prover]
    fn read_box(reader: &mut Reader, size: u64) -> (res: Result<Self>)
        ensures
            res is Ok ==> final(reader).pos() == old(reader).pos() - HEADER_SIZE + size,
            read_outcome(res, box_result(parse_saio(old(reader).rem()), old(reader).pos() - HEADER_SIZE, size)),
    {
        let ghost s = old(reader).rem();
        let start = box_start(reader);
        let (version, flags) = read_box_header_ext(reader)?;
        let mut aux_info = None;
        if SaioBox::FLAG_AUX_INFO_TYPE & flags != 0 {
            let aux_info_type = reader.read_u32()?;
            let aux_info_type_parameter = reader.read_u32()?;
            aux_info = Some(AuxiliaryInfoType { aux_info_type, aux_info_type_parameter });
        }
        let ghost o: int = if 0x01 & flags != 0 { 12 } else { 4 };
        assert(reader.rem() =~= s.skip(o));
        let sample_count = reader.read_u32()?;
        assert(reader.rem() =~= s.skip(o + 4));
        let offsets = read_saio_offsets(reader, version, sample_count)?;
        skip_bytes_to(reader, start, size)?;
        Ok(SaioBox { version, aux_info, entry_count: sample_count, offsets })
    }
}

impl WriteBox for SaioBox {
    open spec fn writable(&self) -> bool {
        true
    }

    /// Writes the box; offsets past those held are written as 0, and in
    /// version 0 each offset is cut to 32 bits.
    #[verifier::spinoff_prover]
    fn write_box(&self, writer: &mut Vec<u8>) -> (res: Result<u64>)
        ensures
            final(writer)@ == old(writer)@ + saio_bytes(self@),
            res == Ok::<u64, Error>(saio_size(self@) as u64),
    {
        let size = self.box_size();
        BoxHeader::new(self.box_type(), size).write(writer)?;
        let ghost w0 = writer@;
        if let Some(aux_info) = self.aux_info {
            write_box_header_ext(writer, self.version, SaioBox::FLAG_AUX_INFO_TYPE)?;
            be_write_u32(writer, aux_info.aux_info_type);
            be_write_u32(writer, aux_info.aux_info_type_parameter);
        } else {
            write_box_header_ext(writer, self.version, 0)?;
        }
        be_write_u32(writer, self.entry_count);
        write_saio_offsets(writer, self);
        assert(writer@ =~= w0 + saio_body(self@));
        assert(final(writer)@ =~= old(writer)@ + saio_bytes(self@));
        Ok(size)
    }
}

/// The offsets written one after another are read back, whatever follows,
/// where `b` holds one offset per entry, each of 32 bits in version 0.
#[verifier::spinoff_prover]
pub proof fn lemma_saio_offsets_bytes(b: SaioBoxView, n: nat, rest: Seq<u8>)
    requires
        n <= b.offsets.len(),
        b.version == 0 ==> forall|i: int| 0 <= i < b.offsets.len() ==> b.offsets[i] <= u32::MAX,
    ensures
        saio_offsets_bytes(b, n).len() == offset_len(b.version) * n,
        saio_offsets(saio_offsets_bytes(b, n) + rest, b.version, n) == b.offsets.take(n as int),
    decreases n,
{
    let w = offset_len(b.version);
    if n > 0 {
        let m = (n - 1) as nat;
        let x = b.offsets[m as int];
        let last = if b.version == 0 {
            u32_bytes(x as u32)
        } else {
            u64_bytes(x)
        };
        lemma_saio_offsets_bytes(b, m, last + rest);
        let p = saio_offsets_bytes(b, m);
        let s = saio_offsets_bytes(b, n) + rest;
        assert(s =~= p + (last + rest));
        assert(w * n == w * m + w) by (nonlinear_arith)
            requires
                n == m + 1,
        ;
        if b.version == 0 {
            lemma_be32_at_word(p, x as u32, rest);
        } else {
            lemma_be64_at_word(p, x, rest);
        }
        assert forall|i: int| 0 <= i < n implies #[trigger] saio_offsets(s, b.version, n)[i] == b.offsets[i] by {
            if i < m {
                assert(saio_offsets(p + (last + rest), b.version, m)[i] == b.offsets.take(m as int)[i]);
            }
        }
        assert(saio_offsets(s, b.version, n) =~= b.offsets.take(n as int));
    } else {
        assert(saio_offsets(saio_offsets_bytes(b, n) + rest, b.version, n) =~= b.offsets.take(0));
    }
}

/// Decoding the body of an encoded saio box gives the box back, where it
/// holds one offset per entry, each of 32 bits in version 0, and the box is
/// small enough for a 32-bit size.
#[verifier::spinoff_prover]
pub proof fn lemma_saio_roundtrip(b: SaioBoxView, rest: Seq<u8>)
    requires
        b.offsets.len() == b.entry_count,
        b.version == 0 ==> forall|i: int| 0 <= i < b.offsets.len() ==> b.offsets[i] <= u32::MAX,
        saio_size(b) <= u32::MAX,
    ensures
        saio_bytes(b).len() == saio_size(b),
        parse_saio((saio_bytes(b) + rest).skip(8)) == Ok::<SaioBoxView, Error>(b),
{
    let h = header_bytes(BoxType::SaioBox, saio_size(b) as u64);
    assert(h.len() == 8);
    assert((saio_bytes(b) + rest).skip(8) =~= saio_body(b) + rest);
    lemma_saio_offsets_bytes(b, b.entry_count as nat, rest);
    assert(b.offsets.take(b.entry_count as int) =~= b.offsets);
    if b.aux_info is Some {
        lemma_saio_body_aux(b, rest);
    } else {
        lemma_saio_body_plain(b, rest);
    }
}

#[verifier::rlimit(40)]
#[verifier::spinoff_prover]
proof fn lemma_saio_body_aux(b: SaioBoxView, rest: Seq<u8>)
    requires
        b.aux_info is Some,
        saio_offsets_bytes(b, b.entry_count as nat).len() == offset_len(b.version) * b.entry_count,
        saio_offsets(saio_offsets_bytes(b, b.entry_count as nat) + rest, b.version, b.entry_count as nat)
            == b.offsets,
    ensures
        saio_body(b).len() == saio_size(b) - 8,
        parse_saio(saio_body(b) + rest) == Ok::<SaioBoxView, Error>(b),
{
    let x = b.aux_info->0;
    lemma_u24_roundtrip(1);
    assert(0x01u32 & 1u32 != 0) by (bit_vector);
    let e = ext_bytes(b.version, 1);
    let t1 = u32_bytes(x.aux_info_type);
    let t2 = u32_bytes(x.aux_info_type_parameter);
    let c = u32_bytes(b.entry_count);
    let r = saio_offsets_bytes(b, b.entry_count as nat) + rest;
    let s = saio_body(b) + rest;
    assert(s =~= e + (t1 + (t2 + (c + r))));
    lemma_be32_at_word(e, x.aux_info_type, t2 + (c + r));
    assert(be32_at(s, 8) == x.aux_info_type_parameter) by {
        lemma_be32_at_word(e + t1, x.aux_info_type_parameter, c + r);
        assert(s =~= (e + t1) + (t2 + (c + r)));
    }
    assert(be32_at(s, 12) == b.entry_count) by {
        lemma_be32_at_word(e + t1 + t2, b.entry_count, r);
        assert(s =~= (e + t1 + t2) + (c + r));
    }
    assert(s.skip(16) =~= r);
    assert(be24_at(s, 1) == 1);
}

#[verifier::spinoff_prover]
#[verifier::rlimit(80)]
proof fn lemma_saio_body_plain(b: SaioBoxView, rest: Seq<u8>)
    requires
        b.aux_info is None,
        saio_offsets_bytes(b, b.entry_count as nat).len() == offset_len(b.version) * b.entry_count,
        saio_offsets(saio_offsets_bytes(b, b.entry_count as nat) + rest, b.version, b.entry_count as nat)
            == b.offsets,
    ensures
        saio_body(b).len() == saio_size(b) - 8,
        parse_saio(saio_body(b) + rest) == Ok::<SaioBoxView, Error>(b),
{
    lemma_u24_roundtrip(0);
    assert(0x01u32 & 0u32 == 0) by (bit_vector);
    let e = ext_bytes(b.version, 0);
    let c = u32_bytes(b.entry_count);
    let r = saio_offsets_bytes(b, b.entry_count as nat) + rest;
    let s = saio_body(b) + rest;
    assert(s =~= e + (c + r));
    lemma_be32_at_word(e, b.entry_count, r);
    assert(s.skip(8) =~= r);
    assert(be24_at(s, 1) == 0);
}


/// Whether the encoding of a saio box keeps all of it: one offset per
/// entry, each fitting in 32 bits in version 0, and a size that fits in 32
/// bits.
pub open spec fn saio_kept(b: SaioBoxView) -> bool {
    &&& b.offsets.len() == b.entry_count
    &&& b.version == 0 ==> forall|i: int| 0 <= i < b.offsets.len() ==> b.offsets[i] <= u32::MAX
    &&& saio_size(b) <= u32::MAX
}

} // verus!
