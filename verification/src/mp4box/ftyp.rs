//! The file type box: the brands that a file conforms to.
use crate::bigendian::{be_write_u32, group_take_lemmas, lemma_u32_roundtrip, u32_bytes};
use crate::error::{Error, Result};
use crate::mp4box::{
    be32_at, box_result, box_start, header_bytes, read_outcome, skip_bytes_to, BoxHeader, Mp4Box, ReadBox, WriteBox,
    HEADER_SIZE,
};
use crate::reader::Reader;
use crate::types::{fourcc_code, fourcc_of, lemma_fourcc_of_code, BoxType, FourCC};
use crate::words::{be32_words, lemma_u32s_bytes, u32s_bytes};
use vstd::prelude::*;

verus! {

broadcast use group_take_lemmas;

#[derive(Debug, Clone, PartialEq, Eq, Default)]
pub struct FtypBox {
    pub major_brand: FourCC,
    pub minor_version: u32,
    pub compatible_brands: Vec<FourCC>,
}

/// What an ftyp box holds, as mathematical values.
pub struct FtypBoxView {
    pub major_brand: FourCC,
    pub minor_version: u32,
    pub compatible_brands: Seq<FourCC>,
}

impl View for FtypBox {
    type V = FtypBoxView;

    open spec fn view(&self) -> FtypBoxView {
        FtypBoxView {
            major_brand: self.major_brand,
            minor_version: self.minor_version,
            compatible_brands: self.compatible_brands@,
        }
    }
}

/// The size of an ftyp box with `n` compatible brands.
pub open spec fn ftyp_size(n: nat) -> int {
    16 + 4 * (n as int)
}

/// The codes of the brands `v`.
pub open spec fn brand_codes(v: Seq<FourCC>) -> Seq<u32> {
    Seq::new(v.len(), |i: int| fourcc_code(v[i]))
}

/// The ftyp box that the body at the start of `s` encodes, in a box that is
/// `size` bytes long: the compatible brands fill the box after the major
/// brand and minor version, so its size must be a multiple of 4.
pub open spec fn parse_ftyp(s: Seq<u8>, size: u64) -> Result<FtypBoxView> {
    if size < 16 || size % 4 != 0 {
        Err(Error::InvalidData("ftyp size too small or not aligned"))
    } else if s.len() < 8 + 4 * ((size - 16) / 4) {
        Err(Error::IoError)
    } else {
        let n = ((size - 16) / 4) as nat;
        Ok(FtypBoxView {
            major_brand: fourcc_of(be32_at(s, 0)),
            minor_version: be32_at(s, 4),
            compatible_brands: Seq::new(n, |i: int| fourcc_of(be32_at(s, 8 + 4 * i))),
        })
    }
}

/// The encoding of an ftyp box, header included.
pub open spec fn ftyp_bytes(b: FtypBoxView) -> Seq<u8> {
    header_bytes(BoxType::FtypBox, ftyp_size(b.compatible_brands.len()) as u64) + (u32_bytes(fourcc_code(b.major_brand))
        + (u32_bytes(b.minor_version) + u32s_bytes(brand_codes(b.compatible_brands))))
}

/// Reads `n` brands.
fn read_brands(reader: &mut Reader, n: u64) -> (res: Result<Vec<FourCC>>)
    ensures
        final(reader).data_seq() == old(reader).data_seq(),
        match res {
            Ok(v) => old(reader).rem().len() >= 4 * n && v@ == Seq::new(
                n as nat,
                |i: int| fourcc_of(be32_at(old(reader).rem(), 4 * i)),
            ) && final(reader).pos() == old(reader).pos() + 4 * n,
            Err(e) => old(reader).rem().len() < 4 * n && e == Error::IoError,
        },
{
    let ghost s = old(reader).rem();
    let mut brands: Vec<FourCC> = Vec::new();
    let mut i: u64 = 0;
    while i < n
        invariant
            i <= n,
            s == old(reader).rem(),
            reader.data_seq() == old(reader).data_seq(),
            s.len() >= 4 * i,
            reader.rem() == s.skip(4 * i),
            reader.pos() == old(reader).pos() + 4 * i,
            brands@ == Seq::new(i as nat, |k: int| fourcc_of(be32_at(s, 4 * k))),
        decreases n - i,
    {
        let b = reader.read_u32()?;
        brands.push(FourCC::from_u32(b));
        proof {
            assert(reader.rem() =~= s.skip(4 * (i + 1)));
            assert(brands@ =~= Seq::new((i + 1) as nat, |k: int| fourcc_of(be32_at(s, 4 * k))));
        }
        i = i + 1;
    }
    Ok(brands)
}

/// Appends the codes of the brands.
fn write_brands(writer: &mut Vec<u8>, v: &Vec<FourCC>)
    ensures
        final(writer)@ == old(writer)@ + u32s_bytes(brand_codes(v@)),
{
    let mut i: usize = 0;
    while i < v.len()
        invariant
            i <= v@.len(),
            writer@ == old(writer)@ + u32s_bytes(brand_codes(v@.take(i as int))),
        decreases v@.len() - i,
    {
        be_write_u32(writer, v[i].to_u32());
        proof {
            assert(brand_codes(v@.take(i + 1)).drop_last() =~= brand_codes(v@.take(i as int)));
        }
        i = i + 1;
    }
    assert(v@.take(v@.len() as int) =~= v@);
}

impl FtypBox {
    pub fn get_type(&self) -> (t: BoxType)
        ensures
            t == BoxType::FtypBox,
    {
        BoxType::FtypBox
    }

    pub fn get_size(&self) -> (s: u64)
        requires
            ftyp_size(self.compatible_brands@.len()) <= u64::MAX,
        ensures
            s == ftyp_size(self.compatible_brands@.len()),
    {
        HEADER_SIZE + 8 + 4 * self.compatible_brands.len() as u64
    }
}

impl Mp4Box for FtypBox {
    open spec fn has_size(&self) -> bool {
        ftyp_size(self.compatible_brands@.len()) <= u64::MAX
    }

    fn box_type(&self) -> (t: BoxType)
        ensures
            t == BoxType::FtypBox,
    {
        self.get_type()
    }

    fn box_size(&self) -> (s: u64)
        ensures
            s == ftyp_size(self.compatible_brands@.len()),
    {
        self.get_size()
    }
}

impl ReadBox for FtypBox {
    open spec fn size_accepted(size: u64) -> bool {
        true
    }

    #[verifier::spinoff_prover]
    fn read_box(reader: &mut Reader, size: u64) -> (res: Result<Self>)
        ensures
            res is Ok ==> final(reader).pos() == old(reader).pos() - HEADER_SIZE + size,
            read_outcome(res, box_result(parse_ftyp(old(reader).rem(), size), old(reader).pos() - HEADER_SIZE, size)),
    {
        let ghost s = old(reader).rem();
        let start = box_start(reader);
        if size < 16 || size % 4 != 0 {
            return Err(Error::InvalidData("ftyp size too small or not aligned"));
        }
        let brand_count = (size - 16) / 4;
        let major = reader.read_u32()?;
        let minor = reader.read_u32()?;
        assert(reader.rem() =~= s.skip(8));
        let brands = read_brands(reader, brand_count)?;
        proof {
            assert(brands@ =~= Seq::new(brand_count as nat, |i: int| fourcc_of(be32_at(s, 8 + 4 * i))));
        }
        skip_bytes_to(reader, start, size)?;
        Ok(FtypBox { major_brand: FourCC::from_u32(major), minor_version: minor, compatible_brands: brands })
    }
}

impl WriteBox for FtypBox {
    open spec fn writable(&self) -> bool {
        self.has_size()
    }

    #[verifier::spinoff_prover]
    fn write_box(&self, writer: &mut Vec<u8>) -> (res: Result<u64>)
        ensures
            final(writer)@ == old(writer)@ + ftyp_bytes(self@),
            res == Ok::<u64, Error>(ftyp_size(self.compatible_brands@.len()) as u64),
    {
        let size = self.box_size();
        BoxHeader::new(self.box_type(), size).write(writer)?;
        be_write_u32(writer, self.major_brand.to_u32());
        be_write_u32(writer, self.minor_version);
        write_brands(writer, &self.compatible_brands);
        assert(final(writer)@ =~= old(writer)@ + ftyp_bytes(self@));
        Ok(size)
    }
}

/// Decoding the body of an encoded ftyp box gives the box back, where the
/// box is small enough for a 32-bit size.
#[verifier::spinoff_prover]
pub proof fn lemma_ftyp_roundtrip(b: FtypBoxView, rest: Seq<u8>)
    requires
        ftyp_size(b.compatible_brands.len()) <= u32::MAX,
    ensures
        ftyp_bytes(b).len() == ftyp_size(b.compatible_brands.len()),
        parse_ftyp((ftyp_bytes(b) + rest).skip(8), ftyp_size(b.compatible_brands.len()) as u64) == Ok::<
            FtypBoxView,
            Error,
        >(b),
{
    let n = b.compatible_brands.len();
    let codes = brand_codes(b.compatible_brands);
    lemma_u32_roundtrip(fourcc_code(b.major_brand));
    lemma_u32_roundtrip(b.minor_version);
    lemma_fourcc_of_code(b.major_brand);
    lemma_u32s_bytes(codes, rest);
    let h = header_bytes(BoxType::FtypBox, ftyp_size(n) as u64);
    assert(h.len() == 8);
    let t = u32s_bytes(codes) + rest;
    let s = (ftyp_bytes(b) + rest).skip(8);
    assert(s =~= u32_bytes(fourcc_code(b.major_brand)) + u32_bytes(b.minor_version) + t);
    let size = ftyp_size(n) as u64;
    assert((size - 16) / 4 == n);
    assert(size % 4 == 0);
    assert forall|i: int| 0 <= i < n implies #[trigger] fourcc_of(be32_at(s, 8 + 4 * i)) == b.compatible_brands[i] by {
        assert(be32_words(t, n)[i] == codes[i]);
        assert(be32_at(s, 8 + 4 * i) == be32_at(t, 4 * i));
        lemma_fourcc_of_code(b.compatible_brands[i]);
    }
    assert(Seq::new(n, |i: int| fourcc_of(be32_at(s, 8 + 4 * i))) =~= b.compatible_brands);
}

} // verus!
