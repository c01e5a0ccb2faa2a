//! The track encryption box: the default protection of a track's samples.
use crate::bigendian::group_take_lemmas;
use crate::error::{Error, Result};
use crate::mp4box::{
    box_result, box_start, ext_bytes, header_bytes, read_box_header_ext, read_outcome, skip_bytes_to,
    write_box_header_ext, BoxHeader, Mp4Box, ReadBox, WriteBox, HEADER_EXT_SIZE, HEADER_SIZE,
};
use crate::reader::{write_all, Reader};
use crate::types::BoxType;
use vstd::prelude::*;

verus! {

broadcast use group_take_lemmas;

#[derive(Debug, Clone, PartialEq, Eq, Default)]
pub struct TencBox {
    pub version: u8,
    pub default_crypt_byte_block: u8,
    pub default_skip_byte_block: u8,
    pub default_is_protected: bool,
    pub default_per_sample_iv_size: u8,
    pub default_kid: [u8; 16],
    pub default_constant_iv: Vec<u8>,
}

/// What a tenc box holds, as mathematical values.
pub struct TencBoxView {
    pub version: u8,
    pub default_crypt_byte_block: u8,
    pub default_skip_byte_block: u8,
    pub default_is_protected: bool,
    pub default_per_sample_iv_size: u8,
    pub default_kid: Seq<u8>,
    pub default_constant_iv: Seq<u8>,
}

impl View for TencBox {
    type V = TencBoxView;

    open spec fn view(&self) -> TencBoxView {
        TencBoxView {
            version: self.version,
            default_crypt_byte_block: self.default_crypt_byte_block,
            default_skip_byte_block: self.default_skip_byte_block,
            default_is_protected: self.default_is_protected,
            default_per_sample_iv_size: self.default_per_sample_iv_size,
            default_kid: self.default_kid@,
            default_constant_iv: self.default_constant_iv@,
        }
    }
}

/// Whether a constant vector is stored: the samples are protected and
/// carry no vector of their own.
pub open spec fn has_constant_iv(b: TencBoxView) -> bool {
    b.default_is_protected && b.default_per_sample_iv_size == 0
}

/// The number of constant vector bytes stored: the low 8 bits of its
/// length.
pub open spec fn constant_iv_len(b: TencBoxView) -> u8 {
    (b.default_constant_iv.len() as usize & 0xff) as u8
}

/// The size of the encoding of `b`.
pub open spec fn tenc_size(b: TencBoxView) -> int {
    32 + if has_constant_iv(b) { 1 + constant_iv_len(b) } else { 0int }
}

/// The tenc box that the body at the start of `s` encodes; the block
/// pattern is stored from version 1 on, and the flags are not kept.
pub open spec fn parse_tenc(s: Seq<u8>) -> Result<TencBoxView> {
    if s.len() < 24 {
        Err(Error::IoError)
    } else {
        let v = s[0];
        let val = s[5];
        let protected = s[6] != 0;
        let ivs = s[7];
        if protected && ivs == 0 && s.len() < 25 {
            Err(Error::IoError)
        } else if protected && ivs == 0 && s.len() < 25 + s[24] {
            Err(Error::IoError)
        } else {
            Ok(TencBoxView {
                version: v,
                default_crypt_byte_block: if v > 0 { val >> 4u8 } else { 0 },
                default_skip_byte_block: if v > 0 { val & 0xfu8 } else { 0 },
                default_is_protected: protected,
                default_per_sample_iv_size: ivs,
                default_kid: s.subrange(8, 24),
                default_constant_iv: if protected && ivs == 0 { s.subrange(25, 25 + s[24]) } else { Seq::empty() },
            })
        }
    }
}

/// The byte that holds the block pattern of `b`.
pub open spec fn pattern_byte(b: TencBoxView) -> u8 {
    if b.version > 0 {
        ((b.default_crypt_byte_block << 4u8) | (b.default_skip_byte_block & 0xfu8)) as u8
    } else {
        0
    }
}

/// The body of an encoded tenc box.
pub open spec fn tenc_body(b: TencBoxView) -> Seq<u8> {
    ext_bytes(b.version, 0) + seq![0u8, pattern_byte(b), if b.default_is_protected { 1u8 } else { 0u8 }, b.default_per_sample_iv_size]
        + b.default_kid + if has_constant_iv(b) {
        seq![constant_iv_len(b)] + b.default_constant_iv.take(constant_iv_len(b) as int)
    } else {
        Seq::empty()
    }
}

/// The encoding of a tenc box, header included.
pub open spec fn tenc_bytes(b: TencBoxView) -> Seq<u8> {
    header_bytes(BoxType::TencBox, tenc_size(b) as u64) + tenc_body(b)
}

impl TencBox {
    pub fn get_type(&self) -> (t: BoxType)
        ensures
            t == BoxType::TencBox,
    {
        BoxType::TencBox
    }

    pub fn get_size(&self) -> (s: u64)
        ensures
            s == tenc_size(self@),
    {
        let mut size = HEADER_SIZE + HEADER_EXT_SIZE + 20;
        if self.default_is_protected && self.default_per_sample_iv_size == 0 {
            let len = self.default_constant_iv.len();
            let n = len & 0xff;
            assert(n <= 0xff) by (bit_vector)
                requires
                    n == len & 0xff,
            ;
            size = size + 1 + n as u64;
        }
        size
    }
}

impl Mp4Box for TencBox {
    open spec fn has_size(&self) -> bool {
        true
    }

    fn box_type(&self) -> (t: BoxType)
        ensures
            t == BoxType::TencBox,
    {
        self.get_type()
    }

    fn box_size(&self) -> (s: u64)
        ensures
            s == tenc_size(self@),
    {
        self.get_size()
    }
}

impl ReadBox for TencBox {
    open spec fn size_accepted(size: u64) -> bool {
        true
    }

    #[verifier::spinoff_prover]
    fn read_box(reader: &mut Reader, size: u64) -> (res: Result<Self>)
        ensures
            res is Ok ==> final(reader).pos() == old(reader).pos() - HEADER_SIZE + size,
            read_outcome(res, box_result(parse_tenc(old(reader).rem()), old(reader).pos() - HEADER_SIZE, size)),
    {
        let ghost s = old(reader).rem();
        let start = box_start(reader);
        let mut default_crypt_byte_block: u8 = 0;
        let mut default_skip_byte_block: u8 = 0;
        let (version, _flags) = read_box_header_ext(reader)?;
        let _reserved = reader.read_u8()?;
        let val = reader.read_u8()?;
        if version > 0 {
            default_crypt_byte_block = val >> 4;
            default_skip_byte_block = val & 0xf;
        }
        let default_is_protected = reader.read_u8()? != 0;
        let default_per_sample_iv_size = reader.read_u8()?;
        let default_kid = reader.read_array::<16>()?;
        assert(default_kid@ =~= s.subrange(8, 24));
        assert(reader.rem() =~= s.skip(24));
        let mut default_constant_iv: Vec<u8> = Vec::new();
        if default_is_protected && default_per_sample_iv_size == 0 {
            let default_constant_iv_size = reader.read_u8()?;
            if default_constant_iv_size > 0 {
                default_constant_iv = reader.read_bytes(default_constant_iv_size as u64)?;
            }
            assert(default_constant_iv@ =~= s.subrange(25, 25 + default_constant_iv_size));
        }
        skip_bytes_to(reader, start, size)?;
        Ok(TencBox {
            version,
            default_crypt_byte_block,
            default_skip_byte_block,
            default_is_protected,
            default_per_sample_iv_size,
            default_kid,
            default_constant_iv,
        })
    }
}

/// The first `n` bytes of `v`.
fn take_prefix(v: &Vec<u8>, n: usize) -> (r: Vec<u8>)
    requires
        n <= v@.len(),
    ensures
        r@ == v@.take(n as int),
{
    let mut r: Vec<u8> = Vec::new();
    let mut i: usize = 0;
    while i < n
        invariant
            i <= n,
            n <= v@.len(),
            r@ == v@.take(i as int),
        decreases n - i,
    {
        r.push(v[i]);
        i = i + 1;
        assert(r@ =~= v@.take(i as int));
    }
    r
}

impl WriteBox for TencBox {
    open spec fn writable(&self) -> bool {
        true
    }

    /// Writes the box; the constant vector is stored with its length cut to
    /// 8 bits and only as many of its bytes.
    #[verifier::spinoff_prover]
    fn write_box(&self, writer: &mut Vec<u8>) -> (res: Result<u64>)
        ensures
            final(writer)@ == old(writer)@ + tenc_bytes(self@),
            res == Ok::<u64, Error>(tenc_size(self@) as u64),
    {
        let size = self.box_size();
        BoxHeader::new(self.box_type(), size).write(writer)?;
        write_box_header_ext(writer, self.version, 0)?;
        writer.push(0);
        let val: u8 = if self.version > 0 {
            (self.default_crypt_byte_block << 4) | (self.default_skip_byte_block & 0xf)
        } else {
            0
        };
        writer.push(val);
        writer.push(self.default_is_protected as u8);
        writer.push(self.default_per_sample_iv_size);
        write_all(writer, &self.default_kid);
        if self.default_is_protected && self.default_per_sample_iv_size == 0 {
            let len = self.default_constant_iv.len();
            let n = len & 0xff;
            assert(n <= 0xff && n <= len) by (bit_vector)
                requires
                    n == len & 0xff,
            ;
            let default_constant_iv_size = n as u8;
            writer.push(default_constant_iv_size);
            let iv = take_prefix(&self.default_constant_iv, default_constant_iv_size as usize);
            write_all(writer, iv.as_slice());
        }
        assert(final(writer)@ =~= old(writer)@ + tenc_bytes(self@));
        Ok(size)
    }
}

/// Whether the encoding of a tenc box keeps all of it: a 16-byte key id,
/// block counts that fit in 4 bits and are 0 in version 0, and a constant
/// vector of at most 255 bytes held exactly where it is stored.
pub open spec fn tenc_kept(b: TencBoxView) -> bool {
    &&& b.default_kid.len() == 16
    &&& b.version > 0 ==> b.default_crypt_byte_block < 16 && b.default_skip_byte_block < 16
    &&& b.version == 0 ==> b.default_crypt_byte_block == 0 && b.default_skip_byte_block == 0
    &&& b.default_constant_iv.len() <= 255
    &&& !has_constant_iv(b) ==> b.default_constant_iv.len() == 0
}

/// Decoding the body of an encoded tenc box gives the box back, where the
/// block counts fit in 4 bits and are 0 in version 0, and a constant vector
/// of at most 255 bytes is held exactly where it is stored.
#[verifier::spinoff_prover]
pub proof fn lemma_tenc_roundtrip(b: TencBoxView, rest: Seq<u8>)
    requires
        b.default_kid.len() == 16,
        b.version > 0 ==> b.default_crypt_byte_block < 16 && b.default_skip_byte_block < 16,
        b.version == 0 ==> b.default_crypt_byte_block == 0 && b.default_skip_byte_block == 0,
        b.default_constant_iv.len() <= 255,
        !has_constant_iv(b) ==> b.default_constant_iv.len() == 0,
    ensures
        tenc_bytes(b).len() == tenc_size(b),
        parse_tenc((tenc_bytes(b) + rest).skip(8)) == Ok::<TencBoxView, Error>(b),
{
    let c = b.default_crypt_byte_block;
    let k = b.default_skip_byte_block;
    assert(c < 16 && k < 16 ==> (((c << 4u8) | (k & 0xfu8)) as u8) >> 4u8 == c && (((c << 4u8) | (k & 0xfu8))
        as u8) & 0xfu8 == k) by (bit_vector);
    let n = b.default_constant_iv.len() as usize;
    assert(n <= 255 ==> n & 0xff == n) by (bit_vector);
    let h = header_bytes(BoxType::TencBox, tenc_size(b) as u64);
    assert(h.len() == 8);
    let s = (tenc_bytes(b) + rest).skip(8);
    assert(s =~= tenc_body(b) + rest);
    assert(s.subrange(8, 24) =~= b.default_kid);
    if has_constant_iv(b) {
        assert(b.default_constant_iv.take(n as int) =~= b.default_constant_iv);
        assert(s.subrange(25, 25 + s[24]) =~= b.default_constant_iv);
    } else {
        assert(b.default_constant_iv =~= Seq::<u8>::empty());
    }
}

} // verus!
