//! The track fragment header box: defaults for the samples of a track
//! fragment, each present or not as its flag says.
use crate::bigendian::{
    be_write_u32, be_write_u64, group_take_lemmas, lemma_u24_roundtrip, lemma_u32_roundtrip,
    lemma_u64_of_bytes, u32_bytes, u64_bytes,
};
use crate::error::{Error, Result};
use crate::mp4box::{
    be24_at, be32_at, be64_at, box_result, box_start, ext_bytes, header_bytes, read_box_header_ext,
    lemma_be32_at_word, lemma_be32_shift, lemma_be64_at_word, read_outcome, skip_bytes_to, write_box_header_ext, BoxHeader, Mp4Box, ReadBox, WriteBox,
    HEADER_EXT_SIZE, HEADER_SIZE,
};
use crate::reader::Reader;
use crate::types::BoxType;
use vstd::prelude::*;
use vstd::seq_lib::lemma_concat_associative;

verus! {

broadcast use group_take_lemmas;

#[derive(Debug, Clone, PartialEq, Eq, Structural)]
pub struct TfhdBox {
    pub version: u8,
    pub track_id: u32,
    pub base_data_offset: Option<u64>,
    pub sample_description_index: Option<u32>,
    pub default_sample_duration: Option<u32>,
    pub default_sample_size: Option<u32>,
    pub default_sample_flags: Option<u32>,
    pub duration_is_empty: bool,
    pub default_base_is_moof: bool,
}

impl View for TfhdBox {
    type V = TfhdBox;

    open spec fn view(&self) -> TfhdBox {
        *self
    }
}

impl Default for TfhdBox {
    fn default() -> (b: Self)
        ensures
            b == (TfhdBox {
                version: 0,
                track_id: 0,
                base_data_offset: Some(0),
                sample_description_index: None,
                default_sample_duration: None,
                default_sample_size: None,
                default_sample_flags: None,
                duration_is_empty: false,
                default_base_is_moof: false,
            }),
    {
        TfhdBox {
            version: 0,
            track_id: 0,
            base_data_offset: Some(0),
            sample_description_index: None,
            default_sample_duration: None,
            default_sample_size: None,
            default_sample_flags: None,
            duration_is_empty: false,
            default_base_is_moof: false,
        }
    }
}

/// Whether the flag `bit` is set in `flags`.
pub open spec fn tfhd_has(flags: u32, bit: u32) -> bool {
    flags & bit != 0
}

/// The number of bytes the field selected by `bit` takes: `n` where the
/// flag is set.
pub open spec fn opt_len(flags: u32, bit: u32, n: int) -> int {
    if tfhd_has(flags, bit) {
        n
    } else {
        0
    }
}

/// Offsets within the body of the optional fields.
pub open spec fn off_sdi(flags: u32) -> int {
    8 + opt_len(flags, 0x01, 8)
}

pub open spec fn off_duration(flags: u32) -> int {
    off_sdi(flags) + opt_len(flags, 0x02, 4)
}

pub open spec fn off_size(flags: u32) -> int {
    off_duration(flags) + opt_len(flags, 0x08, 4)
}

pub open spec fn off_flags(flags: u32) -> int {
    off_size(flags) + opt_len(flags, 0x10, 4)
}

/// The length of the body of a tfhd box with these flags.
pub open spec fn tfhd_body_len(flags: u32) -> int {
    off_flags(flags) + opt_len(flags, 0x20, 4)
}

/// The tfhd box that the body at the start of `s` encodes; the flags say
/// which fields follow the track id.
pub open spec fn parse_tfhd(s: Seq<u8>) -> Result<TfhdBox> {
    if s.len() < 8 {
        Err(Error::IoError)
    } else {
        let f = be24_at(s, 1);
        if s.len() < tfhd_body_len(f) {
            Err(Error::IoError)
        } else {
            Ok(TfhdBox {
                version: s[0],
                track_id: be32_at(s, 4),
                base_data_offset: if tfhd_has(f, 0x01) {
                    Some(be64_at(s, 8))
                } else {
                    None
                },
                sample_description_index: if tfhd_has(f, 0x02) {
                    Some(be32_at(s, off_sdi(f)))
                } else {
                    None
                },
                default_sample_duration: if tfhd_has(f, 0x08) {
                    Some(be32_at(s, off_duration(f)))
                } else {
                    None
                },
                default_sample_size: if tfhd_has(f, 0x10) {
                    Some(be32_at(s, off_size(f)))
                } else {
                    None
                },
                default_sample_flags: if tfhd_has(f, 0x20) {
                    Some(be32_at(s, off_flags(f)))
                } else {
                    None
                },
                duration_is_empty: tfhd_has(f, 0x010000),
                default_base_is_moof: tfhd_has(f, 0x020000),
            })
        }
    }
}

/// The flags that announce the fields present in `b`.
pub open spec fn tfhd_flags(b: TfhdBox) -> u32 {
    flags_of(
        b.base_data_offset is Some,
        b.sample_description_index is Some,
        b.default_sample_duration is Some,
        b.default_sample_size is Some,
        b.default_sample_flags is Some,
        b.duration_is_empty,
        b.default_base_is_moof,
    )
}

/// `flags` with `bit` set where `c` holds.
pub open spec fn set_if(flags: u32, c: bool, bit: u32) -> u32 {
    if c {
        flags | bit
    } else {
        flags
    }
}

/// The flags with the bits of the given presences set, one after another.
pub open spec fn flags_of(a: bool, b: bool, c: bool, d: bool, e: bool, f: bool, g: bool) -> u32 {
    set_if(
        set_if(
            set_if(set_if(set_if(set_if(set_if(0u32, a, 0x01u32), b, 0x02u32), c, 0x08u32), d, 0x10u32), e, 0x20u32),
            f,
            0x010000u32,
        ),
        g,
        0x020000u32,
    )
}

/// The size of the encoding of `b`.
pub open spec fn tfhd_size(b: TfhdBox) -> int {
    16 + (if b.base_data_offset is Some { 8int } else { 0int }) + (if b.sample_description_index is Some {
        4int
    } else {
        0int
    }) + (if b.default_sample_duration is Some { 4int } else { 0int }) + (if b.default_sample_size is Some {
        4int
    } else {
        0int
    }) + (if b.default_sample_flags is Some { 4int } else { 0int })
}

/// The bytes of an optional `u32`.
pub open spec fn opt_u32_bytes(v: Option<u32>) -> Seq<u8> {
    match v {
        Some(x) => u32_bytes(x),
        None => Seq::empty(),
    }
}

/// The bytes of an optional `u64`.
pub open spec fn opt_u64_bytes(v: Option<u64>) -> Seq<u8> {
    match v {
        Some(x) => u64_bytes(x),
        None => Seq::empty(),
    }
}

/// The optional fields of `b`, each written where it is present.
pub open spec fn tfhd_tail(b: TfhdBox) -> Seq<u8> {
    opt_u64_bytes(b.base_data_offset) + (opt_u32_bytes(b.sample_description_index) + (opt_u32_bytes(
        b.default_sample_duration,
    ) + (opt_u32_bytes(b.default_sample_size) + opt_u32_bytes(b.default_sample_flags))))
}

/// The encoding of a tfhd box, header included.
pub open spec fn tfhd_bytes(b: TfhdBox) -> Seq<u8> {
    header_bytes(BoxType::TfhdBox, tfhd_size(b) as u64) + (ext_bytes(b.version, tfhd_flags(b)) + (u32_bytes(
        b.track_id,
    ) + tfhd_tail(b)))
}

/// Reads a big-endian `u32` where `present`.
fn read_opt_u32(reader: &mut Reader, present: bool) -> (res: Result<Option<u32>>)
    ensures
        final(reader).data_seq() == old(reader).data_seq(),
        match res {
            Ok(o) => if present {
                old(reader).rem().len() >= 4 && o == Some(be32_at(old(reader).rem(), 0))
                    && final(reader).rem() == old(reader).rem().skip(4)
                    && final(reader).pos() == old(reader).pos() + 4
            } else {
                o is None && final(reader).rem() == old(reader).rem() && final(reader).pos()
                    == old(reader).pos()
            },
            Err(e) => present && old(reader).rem().len() < 4 && e == Error::IoError,
        },
{
    if present {
        Ok(Some(reader.read_u32()?))
    } else {
        Ok(None)
    }
}

/// Appends the optional fields of `b` that are present.
fn write_tfhd_tail(writer: &mut Vec<u8>, b: &TfhdBox)
    ensures
        final(writer)@ == old(writer)@ + tfhd_tail(*b),
{
    let ghost w0 = writer@;
    if let Some(val) = b.base_data_offset {
        be_write_u64(writer, val);
    }
    let ghost w1 = writer@;
    assert(w1 == w0 + opt_u64_bytes(b.base_data_offset));
    if let Some(val) = b.sample_description_index {
        be_write_u32(writer, val);
    }
    let ghost w2 = writer@;
    assert(w2 == w1 + opt_u32_bytes(b.sample_description_index));
    if let Some(val) = b.default_sample_duration {
        be_write_u32(writer, val);
    }
    let ghost w3 = writer@;
    assert(w3 == w2 + opt_u32_bytes(b.default_sample_duration));
    if let Some(val) = b.default_sample_size {
        be_write_u32(writer, val);
    }
    let ghost w4 = writer@;
    assert(w4 == w3 + opt_u32_bytes(b.default_sample_size));
    if let Some(val) = b.default_sample_flags {
        be_write_u32(writer, val);
    }
    assert(writer@ == w4 + opt_u32_bytes(b.default_sample_flags));
    proof {
        let a = opt_u64_bytes(b.base_data_offset);
        let p = opt_u32_bytes(b.sample_description_index);
        let q = opt_u32_bytes(b.default_sample_duration);
        let r = opt_u32_bytes(b.default_sample_size);
        let t = opt_u32_bytes(b.default_sample_flags);
        lemma_concat_associative(w0, a, p);
        lemma_concat_associative(w0, a + p, q);
        lemma_concat_associative(w0, a + p + q, r);
        lemma_concat_associative(w0, a + p + q + r, t);
        lemma_concat_associative(r, t, Seq::empty());
        assert(tfhd_tail(*b) =~= a + p + q + r + t);
    }
}

impl TfhdBox {
    pub const FLAG_BASE_DATA_OFFSET: u32 = 0x01;
    pub const FLAG_SAMPLE_DESCRIPTION_INDEX: u32 = 0x02;
    pub const FLAG_DEFAULT_SAMPLE_DURATION: u32 = 0x08;
    pub const FLAG_DEFAULT_SAMPLE_SIZE: u32 = 0x10;
    pub const FLAG_DEFAULT_SAMPLE_FLAGS: u32 = 0x20;
    pub const FLAG_DURATION_IS_EMPTY: u32 = 0x010000;
    pub const FLAG_DEFAULT_BASE_IS_MOOF: u32 = 0x020000;

    pub fn get_type(&self) -> (t: BoxType)
        ensures
            t == BoxType::TfhdBox,
    {
        BoxType::TfhdBox
    }

    pub fn get_size(&self) -> (s: u64)
        ensures
            s == tfhd_size(*self),
    {
        let mut size = HEADER_SIZE + HEADER_EXT_SIZE;
        size = size + 4;
        if self.base_data_offset.is_some() {
            size = size + 8;
        }
        if self.sample_description_index.is_some() {
            size = size + 4;
        }
        if self.default_sample_duration.is_some() {
            size = size + 4;
        }
        if self.default_sample_size.is_some() {
            size = size + 4;
        }
        if self.default_sample_flags.is_some() {
            size = size + 4;
        }
        size
    }
}

impl Mp4Box for TfhdBox {
    open spec fn has_size(&self) -> bool {
        true
    }

    fn box_type(&self) -> (t: BoxType)
        ensures
            t == BoxType::TfhdBox,
    {
        self.get_type()
    }

    fn box_size(&self) -> (s: u64)
        ensures
            s == tfhd_size(*self),
    {
        self.get_size()
    }
}

impl ReadBox for TfhdBox {
    open spec fn size_accepted(size: u64) -> bool {
        true
    }

    #[verifier::spinoff_prover]
    fn read_box(reader: &mut Reader, size: u64) -> (res: Result<Self>)
        ensures
            res is Ok ==> final(reader).pos() == old(reader).pos() - HEADER_SIZE + size,
            read_outcome(res, box_result(parse_tfhd(old(reader).rem()), old(reader).pos() - HEADER_SIZE, size)),
    {
        let ghost s = old(reader).rem();
        let start = box_start(reader);
        let (version, flags) = read_box_header_ext(reader)?;
        let base_data_offset_present = (flags & 0x000001) != 0;
        let sample_description_index_present = (flags & 0x000002) != 0;
        let default_sample_duration_present = (flags & 0x000008) != 0;
        let default_sample_size_present = (flags & 0x000010) != 0;
        let default_sample_flags_present = (flags & 0x000020) != 0;
        let duration_is_empty = (flags & 0x010000) != 0;
        let default_base_is_moof = (flags & 0x020000) != 0;
        let track_id = reader.read_u32()?;
        assert(reader.rem() =~= s.skip(8));
        let base_data_offset = if base_data_offset_present {
            let v = reader.read_u64()?;
            assert(s.skip(8).take(8) =~= s.subrange(8, 16));
            Some(v)
        } else {
            None
        };
        assert(reader.rem() =~= s.skip(off_sdi(flags)));
        let sample_description_index = read_opt_u32(reader, sample_description_index_present)?;
        assert(reader.rem() =~= s.skip(off_duration(flags)));
        let default_sample_duration = read_opt_u32(reader, default_sample_duration_present)?;
        assert(reader.rem() =~= s.skip(off_size(flags)));
        let default_sample_size = read_opt_u32(reader, default_sample_size_present)?;
        assert(reader.rem() =~= s.skip(off_flags(flags)));
        let default_sample_flags = read_opt_u32(reader, default_sample_flags_present)?;
        skip_bytes_to(reader, start, size)?;
        Ok(TfhdBox {
            version,
            track_id,
            base_data_offset,
            sample_description_index,
            default_sample_duration,
            default_sample_size,
            default_sample_flags,
            duration_is_empty,
            default_base_is_moof,
        })
    }
}

impl WriteBox for TfhdBox {
    open spec fn writable(&self) -> bool {
        true
    }

    /// Writes the box with the flags that announce the fields present.
    #[verifier::spinoff_prover]
    #[verifier::rlimit(50)]
    fn write_box(&self, writer: &mut Vec<u8>) -> (res: Result<u64>)
        ensures
            final(writer)@ == old(writer)@ + tfhd_bytes(*self),
            res == Ok::<u64, Error>(tfhd_size(*self) as u64),
    {
        let size = self.box_size();
        BoxHeader::new(self.box_type(), size).write(writer)?;
        let mut flags: u32 = 0;
        if self.base_data_offset.is_some() {
            flags = flags | 0x000001;
        }
        if self.sample_description_index.is_some() {
            flags = flags | 0x000002;
        }
        if self.default_sample_duration.is_some() {
            flags = flags | 0x000008;
        }
        if self.default_sample_size.is_some() {
            flags = flags | 0x000010;
        }
        if self.default_sample_flags.is_some() {
            flags = flags | 0x000020;
        }
        if self.duration_is_empty {
            flags = flags | 0x010000;
        }
        if self.default_base_is_moof {
            flags = flags | 0x020000;
        }
        assert(flags == tfhd_flags(*self));
        proof {
            lemma_flags_of(
                self.base_data_offset is Some,
                self.sample_description_index is Some,
                self.default_sample_duration is Some,
                self.default_sample_size is Some,
                self.default_sample_flags is Some,
                self.duration_is_empty,
                self.default_base_is_moof,
            );
        }
        write_box_header_ext(writer, self.version, flags)?;
        be_write_u32(writer, self.track_id);
        write_tfhd_tail(writer, self);
        assert(final(writer)@ =~= old(writer)@ + tfhd_bytes(*self));
        Ok(size)
    }
}

/// The flags built from the presences fit in 24 bits, and each of their
/// bits gives back its presence.
#[verifier::spinoff_prover]
proof fn lemma_flags_of(a: bool, b: bool, c: bool, d: bool, e: bool, f: bool, g: bool)
    ensures
        flags_of(a, b, c, d, e, f, g) < 0x1000000,
        tfhd_has(flags_of(a, b, c, d, e, f, g), 0x01) == a,
        tfhd_has(flags_of(a, b, c, d, e, f, g), 0x02) == b,
        tfhd_has(flags_of(a, b, c, d, e, f, g), 0x08) == c,
        tfhd_has(flags_of(a, b, c, d, e, f, g), 0x10) == d,
        tfhd_has(flags_of(a, b, c, d, e, f, g), 0x20) == e,
        tfhd_has(flags_of(a, b, c, d, e, f, g), 0x010000) == f,
        tfhd_has(flags_of(a, b, c, d, e, f, g), 0x020000) == g,
{
    let x = flags_of(a, b, c, d, e, f, g);
    assert({
        let x1: u32 = if a { 0u32 | 0x01u32 } else { 0u32 };
        let x2: u32 = if b { x1 | 0x02u32 } else { x1 };
        let x3: u32 = if c { x2 | 0x08u32 } else { x2 };
        let x4: u32 = if d { x3 | 0x10u32 } else { x3 };
        let x5: u32 = if e { x4 | 0x20u32 } else { x4 };
        let x6: u32 = if f { x5 | 0x010000u32 } else { x5 };
        let x7: u32 = if g { x6 | 0x020000u32 } else { x6 };
        &&& x7 < 0x1000000
        &&& (x7 & 0x01 != 0) == a
        &&& (x7 & 0x02 != 0) == b
        &&& (x7 & 0x08 != 0) == c
        &&& (x7 & 0x10 != 0) == d
        &&& (x7 & 0x20 != 0) == e
        &&& (x7 & 0x010000 != 0) == f
        &&& (x7 & 0x020000 != 0) == g
    }) by (bit_vector);
}

/// Decoding the body of an encoded tfhd box gives the box back.
#[verifier::rlimit(50)]
#[verifier::spinoff_prover]
pub proof fn lemma_tfhd_roundtrip(b: TfhdBox, rest: Seq<u8>)
    ensures
        tfhd_bytes(b).len() == tfhd_size(b),
        parse_tfhd((tfhd_bytes(b) + rest).skip(8)) == Ok::<TfhdBox, Error>(b),
{
    let f = tfhd_flags(b);
    lemma_flags_of(
        b.base_data_offset is Some,
        b.sample_description_index is Some,
        b.default_sample_duration is Some,
        b.default_sample_size is Some,
        b.default_sample_flags is Some,
        b.duration_is_empty,
        b.default_base_is_moof,
    );
    lemma_u24_roundtrip(f);
    let w1 = opt_u32_bytes(b.sample_description_index);
    let w2 = opt_u32_bytes(b.default_sample_duration);
    let w3 = opt_u32_bytes(b.default_sample_size);
    let w4 = opt_u32_bytes(b.default_sample_flags);
    let base = opt_u64_bytes(b.base_data_offset);
    let t5 = w4 + rest;
    let t4 = w3 + t5;
    let t3 = w2 + t4;
    let t2 = w1 + t3;
    let t1 = base + t2;
    let h = header_bytes(BoxType::TfhdBox, tfhd_size(b) as u64);
    let e = ext_bytes(b.version, f);
    let id = u32_bytes(b.track_id);
    assert(h.len() == 8);
    lemma_concat_associative(w3, w4, rest);
    lemma_concat_associative(w2, w3 + w4, rest);
    lemma_concat_associative(w1, w2 + (w3 + w4), rest);
    lemma_concat_associative(base, w1 + (w2 + (w3 + w4)), rest);
    assert(tfhd_tail(b) + rest == t1);
    lemma_concat_associative(id, tfhd_tail(b), rest);
    lemma_concat_associative(e, id + tfhd_tail(b), rest);
    lemma_concat_associative(h, e + (id + tfhd_tail(b)), rest);
    assert(tfhd_bytes(b) + rest == h + (e + (id + t1)));
    let s = (tfhd_bytes(b) + rest).skip(8);
    assert(s =~= e + (id + t1));
    assert(tfhd_bytes(b).len() == tfhd_size(b));
    lemma_be32_at_word(e, b.track_id, t1);
    if let Some(x) = b.base_data_offset {
        lemma_concat_associative(e, id, t1);
        lemma_be64_at_word(e + id, x, t2);
    }
    if let Some(x) = b.sample_description_index {
        lemma_be32_shift(e, id + t1, (4 + base.len()) as int);
        lemma_be32_shift(id, t1, base.len() as int);
        lemma_be32_shift(base, t2, 0);
        lemma_be32_at_word(Seq::empty(), x, t3);
        assert(Seq::<u8>::empty() + (u32_bytes(x) + t3) =~= t2);
    }
    if let Some(x) = b.default_sample_duration {
        lemma_be32_shift(e, id + t1, (4 + base.len() + w1.len()) as int);
        lemma_be32_shift(id, t1, (base.len() + w1.len()) as int);
        lemma_be32_shift(base, t2, w1.len() as int);
        lemma_be32_shift(w1, t3, 0);
        lemma_be32_at_word(Seq::empty(), x, t4);
        assert(Seq::<u8>::empty() + (u32_bytes(x) + t4) =~= t3);
    }
    if let Some(x) = b.default_sample_size {
        lemma_be32_shift(e, id + t1, (4 + base.len() + w1.len() + w2.len()) as int);
        lemma_be32_shift(id, t1, (base.len() + w1.len() + w2.len()) as int);
        lemma_be32_shift(base, t2, (w1.len() + w2.len()) as int);
        lemma_be32_shift(w1, t3, w2.len() as int);
        lemma_be32_shift(w2, t4, 0);
        lemma_be32_at_word(Seq::empty(), x, t5);
        assert(Seq::<u8>::empty() + (u32_bytes(x) + t5) =~= t4);
    }
    if let Some(x) = b.default_sample_flags {
        lemma_be32_shift(e, id + t1, (4 + base.len() + w1.len() + w2.len() + w3.len()) as int);
        lemma_be32_shift(id, t1, (base.len() + w1.len() + w2.len() + w3.len()) as int);
        lemma_be32_shift(base, t2, (w1.len() + w2.len() + w3.len()) as int);
        lemma_be32_shift(w1, t3, (w2.len() + w3.len()) as int);
        lemma_be32_shift(w2, t4, w3.len() as int);
        lemma_be32_shift(w3, t5, 0);
        lemma_be32_at_word(Seq::empty(), x, rest);
        assert(Seq::<u8>::empty() + (u32_bytes(x) + rest) =~= t5);
    }
}

} // verus!
