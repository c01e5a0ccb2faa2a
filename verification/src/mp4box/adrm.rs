//! The audible DRM box, of fixed layout.
use crate::bigendian::{be_write_u32, group_take_lemmas, u32_bytes};
use crate::error::{Error, Result};
use crate::mp4box::{box_start, header_bytes, read_outcome, BoxHeader, Mp4Box, ReadBox, WriteBox, HEADER_SIZE};
use crate::reader::{write_all, Reader};
use crate::types::BoxType;
use vstd::prelude::*;

verus! {

broadcast use group_take_lemmas;

#[derive(Debug, Clone, PartialEq, Eq)]
pub struct AdrmBox {
    pub drm_blob: [u8; 48],
    pub file_checksum: [u8; 20],
    pub unknown0: [u8; 60],
}

/// What an adrm box holds, as mathematical values.
pub struct AdrmBoxView {
    pub drm_blob: Seq<u8>,
    pub file_checksum: Seq<u8>,
    pub unknown0: Seq<u8>,
}

impl View for AdrmBox {
    type V = AdrmBoxView;

    open spec fn view(&self) -> AdrmBoxView {
        AdrmBoxView { drm_blob: self.drm_blob@, file_checksum: self.file_checksum@, unknown0: self.unknown0@ }
    }
}

/// What reading an adrm box `size` bytes long gives, `read` being what its
/// fields read as: the layout is fixed, so once the fields are read a box
/// of a size other than 156 is refused.
pub open spec fn adrm_result(read: Result<AdrmBoxView>, size: u64) -> Result<AdrmBoxView> {
    match read {
        Ok(v) => if size == 156 {
            Ok(v)
        } else {
            Err(Error::InvalidData("adrm box size mismatch"))
        },
        Err(e) => Err(e),
    }
}

/// The adrm box that the body at the start of `s` encodes: two words, the
/// blob, three words, the checksum and the rest; the words are not kept.
pub open spec fn parse_adrm(s: Seq<u8>) -> Result<AdrmBoxView> {
    if s.len() < 148 {
        Err(Error::IoError)
    } else {
        Ok(AdrmBoxView { drm_blob: s.subrange(8, 56), file_checksum: s.subrange(68, 88), unknown0: s.subrange(88, 148) })
    }
}

/// The encoding of an adrm box, header included.
pub open spec fn adrm_bytes(b: AdrmBoxView) -> Seq<u8> {
    header_bytes(BoxType::AdrmBox, 156) + u32_bytes(56) + u32_bytes(1) + b.drm_blob + u32_bytes(0) + u32_bytes(1)
        + u32_bytes(0) + b.file_checksum + b.unknown0
}

impl Mp4Box for AdrmBox {
    open spec fn has_size(&self) -> bool {
        true
    }

    fn box_type(&self) -> (t: BoxType)
        ensures
            t == BoxType::AdrmBox,
    {
        BoxType::AdrmBox
    }

    fn box_size(&self) -> (s: u64)
        ensures
            s == 156,
    {
        156
    }
}

impl ReadBox for AdrmBox {
    open spec fn size_accepted(size: u64) -> bool {
        true
    }

    #[verifier::spinoff_prover]
    fn read_box(reader: &mut Reader, size: u64) -> (res: Result<Self>)
        ensures
            res is Ok ==> final(reader).pos() == old(reader).pos() - HEADER_SIZE + size,
            read_outcome(res, adrm_result(parse_adrm(old(reader).rem()), size)),
    {
        let ghost s = old(reader).rem();
        let _start = box_start(reader);
        reader.read_u32()?;
        reader.read_u32()?;
        let drm_blob = reader.read_array::<48>()?;
        reader.read_u32()?;
        reader.read_u32()?;
        reader.read_u32()?;
        let file_checksum = reader.read_array::<20>()?;
        let unknown0 = reader.read_array::<60>()?;
        proof {
            assert(drm_blob@ =~= s.subrange(8, 56));
            assert(file_checksum@ =~= s.subrange(68, 88));
            assert(unknown0@ =~= s.subrange(88, 148));
        }
        if size != 156 {
            return Err(Error::InvalidData("adrm box size mismatch"));
        }
        Ok(AdrmBox { drm_blob, file_checksum, unknown0 })
    }
}

impl WriteBox for AdrmBox {
    open spec fn writable(&self) -> bool {
        true
    }

    #[verifier::spinoff_prover]
    fn write_box(&self, writer: &mut Vec<u8>) -> (res: Result<u64>)
        ensures
            final(writer)@ == old(writer)@ + adrm_bytes(self@),
            res == Ok::<u64, Error>(156),
    {
        let size = self.box_size();
        BoxHeader::new(self.box_type(), size).write(writer)?;
        be_write_u32(writer, 56);
        be_write_u32(writer, 1);
        write_all(writer, &self.drm_blob);
        be_write_u32(writer, 0);
        be_write_u32(writer, 1);
        be_write_u32(writer, 0);
        write_all(writer, &self.file_checksum);
        write_all(writer, &self.unknown0);
        assert(final(writer)@ =~= old(writer)@ + adrm_bytes(self@));
        Ok(size)
    }
}

/// Decoding the body of an encoded adrm box gives the box back.
#[verifier::spinoff_prover]
pub proof fn lemma_adrm_roundtrip(b: AdrmBox, rest: Seq<u8>)
    ensures
        adrm_bytes(b@).len() == 156,
        parse_adrm((adrm_bytes(b@) + rest).skip(8)) == Ok::<AdrmBoxView, Error>(b@),
        adrm_result(parse_adrm((adrm_bytes(b@) + rest).skip(8)), 156) == Ok::<AdrmBoxView, Error>(b@),
{
    let s = (adrm_bytes(b@) + rest).skip(8);
    assert(s.subrange(8, 56) =~= b@.drm_blob);
    assert(s.subrange(68, 88) =~= b@.file_checksum);
    assert(s.subrange(88, 148) =~= b@.unknown0);
}

} // verus!
