//! The user extension box: a 16-byte extended type and opaque data.
use crate::error::{Error, Result};
use crate::mp4box::{box_start, header_bytes, skip_bytes_to, BoxHeader, Mp4Box, ReadBox, WriteBox, HEADER_SIZE};
use crate::reader::{write_all, Reader};
use crate::types::BoxType;
use vstd::prelude::*;

verus! {

#[derive(Debug, Clone, PartialEq, Eq, Default)]
pub struct UuidBox {
    pub extended_type: [u8; 16],
    pub data: Vec<u8>,
}

/// What a uuid box holds, as mathematical values.
pub struct UuidBoxView {
    pub extended_type: Seq<u8>,
    pub data: Seq<u8>,
}

impl View for UuidBox {
    type V = UuidBoxView;

    open spec fn view(&self) -> UuidBoxView {
        UuidBoxView { extended_type: self.extended_type@, data: self.data@ }
    }
}

/// The size of a uuid box with `n` bytes of data.
pub open spec fn uuid_size(n: nat) -> int {
    24 + n as int
}

/// The uuid box that the body at the start of `s` encodes, in a box that is
/// `size` bytes long and starts at `start`: the data fills the box after
/// the extended type.
pub open spec fn parse_uuid(s: Seq<u8>, start: int, size: u64) -> Result<UuidBoxView> {
    if s.len() < 16 {
        Err(Error::IoError)
    } else if start + size > u64::MAX {
        Err(Error::InvalidData("box end out of range"))
    } else if size < 24 {
        Err(Error::InvalidData("uuid size too small"))
    } else if s.len() < 16 + (size - 24) {
        Err(Error::IoError)
    } else {
        Ok(UuidBoxView { extended_type: s.take(16), data: s.subrange(16, 16 + (size - 24)) })
    }
}

/// The encoding of a uuid box, header included.
pub open spec fn uuid_bytes(b: UuidBoxView) -> Seq<u8> {
    header_bytes(BoxType::UuidBox, uuid_size(b.data.len()) as u64) + (b.extended_type + b.data)
}

impl UuidBox {
    pub fn get_type(&self) -> (t: BoxType)
        ensures
            t == BoxType::UuidBox,
    {
        BoxType::UuidBox
    }

    pub fn get_size(&self) -> (s: u64)
        requires
            uuid_size(self.data@.len()) <= u64::MAX,
        ensures
            s == uuid_size(self.data@.len()),
    {
        HEADER_SIZE + 16 + self.data.len() as u64
    }
}

impl Mp4Box for UuidBox {
    open spec fn has_size(&self) -> bool {
        uuid_size(self.data@.len()) <= u64::MAX
    }

    fn box_type(&self) -> (t: BoxType)
        ensures
            t == BoxType::UuidBox,
    {
        self.get_type()
    }

    fn box_size(&self) -> (s: u64)
        ensures
            s == uuid_size(self.data@.len()),
    {
        self.get_size()
    }
}

impl ReadBox for UuidBox {
    open spec fn size_accepted(size: u64) -> bool {
        true
    }

    #[verifier::spinoff_prover]
    fn read_box(reader: &mut Reader, size: u64) -> (res: Result<Self>)
        ensures
            res is Ok ==> final(reader).pos() == old(reader).pos() - HEADER_SIZE + size,
            match res {
                Ok(b) => parse_uuid(old(reader).rem(), old(reader).pos() - HEADER_SIZE, size) == Ok::<UuidBoxView, Error>(b@),
                Err(e) => parse_uuid(old(reader).rem(), old(reader).pos() - HEADER_SIZE, size) == Err::<UuidBoxView, Error>(e),
            },
    {
        let ghost s = old(reader).rem();
        let start = box_start(reader);
        let extended_type = reader.read_array::<16>()?;
        if size > u64::MAX - start {
            return Err(Error::InvalidData("box end out of range"));
        }
        let end = start + size;
        let pos = reader.position();
        if end < pos {
            return Err(Error::InvalidData("uuid size too small"));
        }
        let data = reader.read_bytes(end - pos)?;
        assert(data@ =~= s.subrange(16, 16 + (size - 24)));
        skip_bytes_to(reader, start, size)?;
        Ok(UuidBox { extended_type, data })
    }
}

impl WriteBox for UuidBox {
    open spec fn writable(&self) -> bool {
        self.has_size()
    }

    #[verifier::spinoff_prover]
    fn write_box(&self, writer: &mut Vec<u8>) -> (res: Result<u64>)
        ensures
            final(writer)@ == old(writer)@ + uuid_bytes(self@),
            res == Ok::<u64, Error>(uuid_size(self.data@.len()) as u64),
    {
        let size = self.box_size();
        BoxHeader::new(self.box_type(), size).write(writer)?;
        write_all(writer, &self.extended_type);
        write_all(writer, self.data.as_slice());
        assert(final(writer)@ =~= old(writer)@ + uuid_bytes(self@));
        Ok(size)
    }
}

/// Decoding the body of an encoded uuid box gives the box back, where the
/// box is small enough for a 32-bit size and ends at a position that a
/// `u64` can hold.
#[verifier::spinoff_prover]
pub proof fn lemma_uuid_roundtrip(b: UuidBox, start: int, rest: Seq<u8>)
    requires
        uuid_size(b.data@.len()) <= u32::MAX,
        0 <= start,
        start + uuid_size(b.data@.len()) <= u64::MAX,
    ensures
        uuid_bytes(b@).len() == uuid_size(b.data@.len()),
        parse_uuid((uuid_bytes(b@) + rest).skip(8), start, uuid_size(b.data@.len()) as u64) == Ok::<
            UuidBoxView,
            Error,
        >(b@),
{
    let h = header_bytes(BoxType::UuidBox, uuid_size(b.data@.len()) as u64);
    assert(h.len() == 8);
    let s = (uuid_bytes(b@) + rest).skip(8);
    assert(s =~= b@.extended_type + (b@.data + rest));
    assert(s.take(16) =~= b@.extended_type);
    assert(s.subrange(16, 16 + b@.data.len() as int) =~= b@.data);
}

} // verus!
