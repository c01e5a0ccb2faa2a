//! The sample auxiliary information sizes box.
use crate::bigendian::{be_write_u32, group_take_lemmas, lemma_u24_roundtrip, lemma_u32_roundtrip, u32_bytes};
use crate::error::{Error, Result};
use crate::mp4box::{
    be24_at, be32_at, box_result, box_start, ext_bytes, header_bytes, lemma_be32_at_word, read_box_header_ext, read_outcome,
    skip_bytes_to, write_box_header_ext, BoxHeader, Mp4Box, ReadBox, WriteBox, HEADER_EXT_SIZE, HEADER_SIZE,
};
use crate::reader::Reader;
use crate::types::{AuxiliaryInfoType, BoxType};
use vstd::prelude::*;
use vstd::seq_lib::lemma_concat_associative;

verus! {

broadcast use group_take_lemmas;

#[derive(Debug, Clone, PartialEq, Eq, Default)]
pub struct SaizBox {
    pub aux_info: Option<AuxiliaryInfoType>,
    pub default_sample_info_size: u8,
    pub sample_count: u32,
    pub sample_info_sizes: Vec<u8>,
}

/// What a saiz box holds, as mathematical values.
pub struct SaizBoxView {
    pub aux_info: Option<AuxiliaryInfoType>,
    pub default_sample_info_size: u8,
    pub sample_count: u32,
    pub sample_info_sizes: Seq<u8>,
}

impl View for SaizBox {
    type V = SaizBoxView;

    open spec fn view(&self) -> SaizBoxView {
        SaizBoxView {
            aux_info: self.aux_info,
            default_sample_info_size: self.default_sample_info_size,
            sample_count: self.sample_count,
            sample_info_sizes: self.sample_info_sizes@,
        }
    }
}

/// The bytes of an optional auxiliary information type.
pub open spec fn aux_bytes(a: Option<AuxiliaryInfoType>) -> Seq<u8> {
    match a {
        Some(x) => u32_bytes(x.aux_info_type) + u32_bytes(x.aux_info_type_parameter),
        None => Seq::empty(),
    }
}

/// The size of the encoding of `b`: the sizes are stored one per sample
/// where there is no default size.
pub open spec fn saiz_size(b: SaizBoxView) -> int {
    17 + (if b.aux_info is Some { 8int } else { 0int }) + if b.default_sample_info_size == 0 {
        b.sample_count as int
    } else {
        0int
    }
}

/// The first `n` values of `v`, padded with zeros where `v` is shorter.
pub open spec fn padded(v: Seq<u8>, n: nat) -> Seq<u8> {
    Seq::new(n, |i: int| if i < v.len() { v[i] } else { 0u8 })
}

/// The saiz box that the body at the start of `s` encodes; its version is
/// not kept.
pub open spec fn parse_saiz(s: Seq<u8>) -> Result<SaizBoxView> {
    if s.len() < 4 {
        Err(Error::IoError)
    } else {
        let has = 0x01 & be24_at(s, 1) != 0;
        let o = if has { 12int } else { 4int };
        if s.len() < o + 5 {
            Err(Error::IoError)
        } else {
            let d = s[o];
            let n = be32_at(s, o + 1);
            if d == 0 && s.len() < o + 5 + n {
                Err(Error::IoError)
            } else {
                Ok(SaizBoxView {
                    aux_info: if has {
                        Some(AuxiliaryInfoType { aux_info_type: be32_at(s, 4), aux_info_type_parameter: be32_at(s, 8) })
                    } else {
                        None
                    },
                    default_sample_info_size: d,
                    sample_count: n,
                    sample_info_sizes: if d == 0 {
                        s.subrange(o + 5, o + 5 + n)
                    } else {
                        Seq::empty()
                    },
                })
            }
        }
    }
}

/// The sizes stored after the sample count: one per sample (0 past the
/// sizes held) where there is no default size, else none.
pub open spec fn saiz_sizes_bytes(b: SaizBoxView) -> Seq<u8> {
    if b.default_sample_info_size == 0 {
        padded(b.sample_info_sizes, b.sample_count as nat)
    } else {
        Seq::empty()
    }
}

/// The body of an encoded saiz box: version 0, the flag that announces the
/// auxiliary information type where there is one, that type, the default
/// size, the sample count and the sizes.
pub open spec fn saiz_body(b: SaizBoxView) -> Seq<u8> {
    ext_bytes(0, if b.aux_info is Some { 1 } else { 0 }) + (aux_bytes(b.aux_info) + (seq![b.default_sample_info_size]
        + (u32_bytes(b.sample_count) + saiz_sizes_bytes(b))))
}

/// The encoding of a saiz box, header included.
pub open spec fn saiz_bytes(b: SaizBoxView) -> Seq<u8> {
    header_bytes(BoxType::SaizBox, saiz_size(b) as u64) + saiz_body(b)
}

/// Appends the first `n` values of `v`, 0 past its end.
fn write_padded(writer: &mut Vec<u8>, v: &Vec<u8>, n: u32)
    ensures
        final(writer)@ == old(writer)@ + padded(v@, n as nat),
{
    let mut i: u32 = 0;
    while i < n
        invariant
            i <= n,
            writer@ == old(writer)@ + padded(v@, i as nat),
        decreases n - i,
    {
        let k = i as usize;
        let x = if k < v.len() { v[k] } else { 0 };
        writer.push(x);
        i = i + 1;
        assert(writer@ =~= old(writer)@ + padded(v@, i as nat));
    }
}

impl SaizBox {
    pub const FLAG_AUX_INFO_TYPE: u32 = 0x01;

    pub fn get_type(&self) -> (t: BoxType)
        ensures
            t == BoxType::SaizBox,
    {
        BoxType::SaizBox
    }

    pub fn get_size(&self) -> (s: u64)
        ensures
            s == saiz_size(self@),
    {
        let mut size = HEADER_SIZE + HEADER_EXT_SIZE + 5;
        if self.aux_info.is_some() {
            size = size + 8;
        }
        if self.default_sample_info_size == 0 {
            size = size + self.sample_count as u64;
        }
        size
    }
}

impl Mp4Box for SaizBox {
    open spec fn has_size(&self) -> bool {
        true
    }

    fn box_type(&self) -> (t: BoxType)
        ensures
            t == BoxType::SaizBox,
    {
        self.get_type()
    }

    fn box_size(&self) -> (s: u64)
        ensures
            s == saiz_size(self@),
    {
        self.get_size()
    }
}

impl ReadBox for SaizBox {
    open spec fn size_accepted(size: u64) -> bool {
        true
    }

    #[verifier::spinoff_prover]
    fn read_box(reader: &mut Reader, size: u64) -> (res: Result<Self>)
        ensures
            res is Ok ==> final(reader).pos() == old(reader).pos() - HEADER_SIZE + size,
            read_outcome(res, box_result(parse_saiz(old(reader).rem()), old(reader).pos() - HEADER_SIZE, size)),
    {
        let ghost s = old(reader).rem();
        let start = box_start(reader);
        let (_version, flags) = read_box_header_ext(reader)?;
        let mut aux_info = None;
        if SaizBox::FLAG_AUX_INFO_TYPE & flags != 0 {
            let aux_info_type = reader.read_u32()?;
            let aux_info_type_parameter = reader.read_u32()?;
            aux_info = Some(AuxiliaryInfoType { aux_info_type, aux_info_type_parameter });
        }
        let ghost o: int = if 0x01 & flags != 0 { 12 } else { 4 };
        assert(reader.rem() =~= s.skip(o));
        let default_sample_info_size = reader.read_u8()?;
        let sample_count = reader.read_u32()?;
        assert(reader.rem() =~= s.skip(o + 5));
        let mut sample_info_sizes = Vec::new();
        if default_sample_info_size == 0 {
            sample_info_sizes = reader.read_bytes(sample_count as u64)?;
            assert(sample_info_sizes@ =~= s.subrange(o + 5, o + 5 + sample_count));
        }
        skip_bytes_to(reader, start, size)?;
        Ok(SaizBox { aux_info, default_sample_info_size, sample_count, sample_info_sizes })
    }
}

impl WriteBox for SaizBox {
    open spec fn writable(&self) -> bool {
        true
    }

    #[verifier::spinoff_prover]
    fn write_box(&self, writer: &mut Vec<u8>) -> (res: Result<u64>)
        ensures
            final(writer)@ == old(writer)@ + saiz_bytes(self@),
            res == Ok::<u64, Error>(saiz_size(self@) as u64),
    {
        let size = self.box_size();
        BoxHeader::new(self.box_type(), size).write(writer)?;
        if let Some(aux_info) = self.aux_info {
            write_box_header_ext(writer, 0, SaizBox::FLAG_AUX_INFO_TYPE)?;
            be_write_u32(writer, aux_info.aux_info_type);
            be_write_u32(writer, aux_info.aux_info_type_parameter);
        } else {
            write_box_header_ext(writer, 0, 0)?;
        }
        writer.push(self.default_sample_info_size);
        be_write_u32(writer, self.sample_count);
        if self.default_sample_info_size == 0 {
            write_padded(writer, &self.sample_info_sizes, self.sample_count);
        }
        assert(final(writer)@ =~= old(writer)@ + saiz_bytes(self@));
        Ok(size)
    }
}

/// Decoding the body of an encoded saiz box gives the box back, where the
/// sizes are given for each sample exactly when there is no default size
/// and the box is small enough for a 32-bit size.
#[verifier::spinoff_prover]
pub proof fn lemma_saiz_roundtrip(b: SaizBoxView, rest: Seq<u8>)
    requires
        b.sample_info_sizes.len() == if b.default_sample_info_size == 0 { b.sample_count as int } else { 0 },
        saiz_size(b) <= u32::MAX,
    ensures
        saiz_bytes(b).len() == saiz_size(b),
        parse_saiz((saiz_bytes(b) + rest).skip(8)) == Ok::<SaizBoxView, Error>(b),
{
    let h = header_bytes(BoxType::SaizBox, saiz_size(b) as u64);
    assert(h.len() == 8);
    assert((saiz_bytes(b) + rest).skip(8) =~= saiz_body(b) + rest);
    lemma_saiz_body(b, rest);
}

/// The body of an encoded saiz box decodes to the box.
/// The body of an encoded saiz box decodes to the box.
#[verifier::spinoff_prover]
proof fn lemma_saiz_body(b: SaizBoxView, rest: Seq<u8>)
    requires
        b.sample_info_sizes.len() == if b.default_sample_info_size == 0 { b.sample_count as int } else { 0 },
    ensures
        saiz_body(b).len() == saiz_size(b) - 8,
        parse_saiz(saiz_body(b) + rest) == Ok::<SaizBoxView, Error>(b),
{
    let tail = saiz_sizes_bytes(b);
    if b.default_sample_info_size == 0 {
        assert(tail =~= b.sample_info_sizes);
    }
    if b.aux_info is Some {
        lemma_saiz_body_aux(b, rest);
    } else {
        lemma_saiz_body_plain(b, rest);
    }
}

#[verifier::spinoff_prover]
#[verifier::rlimit(80)]
proof fn lemma_saiz_body_aux(b: SaizBoxView, rest: Seq<u8>)
    requires
        b.aux_info is Some,
        b.default_sample_info_size == 0 ==> saiz_sizes_bytes(b) == b.sample_info_sizes,
        b.default_sample_info_size != 0 ==> b.sample_info_sizes.len() == 0,
    ensures
        saiz_body(b).len() == saiz_size(b) - 8,
        parse_saiz(saiz_body(b) + rest) == Ok::<SaizBoxView, Error>(b),
{
    let x = b.aux_info->0;
    lemma_u24_roundtrip(1);
    assert(0x01u32 & 1u32 != 0) by (bit_vector);
    let tail = saiz_sizes_bytes(b);
    let e = ext_bytes(0, 1);
    let t1 = u32_bytes(x.aux_info_type);
    let t2 = u32_bytes(x.aux_info_type_parameter);
    let d = seq![b.default_sample_info_size];
    let c = u32_bytes(b.sample_count);
    let r = tail + rest;
    let s = saiz_body(b) + rest;
    assert(s =~= e + (t1 + (t2 + (d + (c + r)))));
    lemma_be32_at_word(e, x.aux_info_type, t2 + (d + (c + r)));
    assert(be32_at(s, 8) == x.aux_info_type_parameter) by {
        lemma_be32_at_word(e + t1, x.aux_info_type_parameter, d + (c + r));
        assert(s =~= (e + t1) + (t2 + (d + (c + r))));
    }
    assert(be32_at(s, 13) == b.sample_count) by {
        lemma_be32_at_word(e + t1 + t2 + d, b.sample_count, r);
        assert(s =~= (e + t1 + t2 + d) + (c + r));
    }
    assert(s[12] == b.default_sample_info_size);
    assert(s.subrange(17, 17 + tail.len() as int) =~= tail);
    assert(be24_at(s, 1) == 1);
    if b.default_sample_info_size != 0 {
        assert(b.sample_info_sizes =~= Seq::<u8>::empty());
    }
}

#[verifier::spinoff_prover]
proof fn lemma_saiz_body_plain(b: SaizBoxView, rest: Seq<u8>)
    requires
        b.aux_info is None,
        b.default_sample_info_size == 0 ==> saiz_sizes_bytes(b) == b.sample_info_sizes,
        b.default_sample_info_size != 0 ==> b.sample_info_sizes.len() == 0,
    ensures
        saiz_body(b).len() == saiz_size(b) - 8,
        parse_saiz(saiz_body(b) + rest) == Ok::<SaizBoxView, Error>(b),
{
    lemma_u24_roundtrip(0);
    assert(0x01u32 & 0u32 == 0) by (bit_vector);
    let tail = saiz_sizes_bytes(b);
    let e = ext_bytes(0, 0);
    let d = seq![b.default_sample_info_size];
    let c = u32_bytes(b.sample_count);
    let r = tail + rest;
    let s = saiz_body(b) + rest;
    assert(s =~= e + (d + (c + r)));
    assert(be32_at(s, 5) == b.sample_count) by {
        lemma_be32_at_word(e + d, b.sample_count, r);
        assert(s =~= (e + d) + (c + r));
    }
    assert(s[4] == b.default_sample_info_size);
    assert(s.subrange(9, 9 + tail.len() as int) =~= tail);
    assert(be24_at(s, 1) == 0);
    if b.default_sample_info_size != 0 {
        assert(b.sample_info_sizes =~= Seq::<u8>::empty());
    }
}


/// Whether the encoding of a saiz box keeps all of it: a size per sample
/// exactly where there is no default size, and a size that fits in 32 bits.
pub open spec fn saiz_kept(b: SaizBoxView) -> bool {
    &&& b.sample_info_sizes.len() == if b.default_sample_info_size == 0 { b.sample_count as int } else { 0 }
    &&& saiz_size(b) <= u32::MAX
}

} // verus!
