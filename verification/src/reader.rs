//! A cursor over an in-memory byte buffer, from which boxes are decoded.
use crate::bigendian::{
    be_read_i16, be_read_i32, be_read_u16, be_read_u24, be_read_u32, be_read_u64, group_take_lemmas, take_bytes, take_u16,
    take_u24, take_u32, take_u64, take_u8, u64_of,
};
use crate::error::{Error, Result};
use vstd::prelude::*;

verus! {

broadcast use group_take_lemmas;

/// A copy of `data[start..end]`.
fn copy_range(data: &[u8], start: usize, end: usize) -> (v: Vec<u8>)
    requires
        start <= end <= data@.len(),
    ensures
        v@ == data@.subrange(start as int, end as int),
{
    let mut v: Vec<u8> = Vec::new();
    let mut i = start;
    while i < end
        invariant
            start <= i <= end,
            end <= data@.len(),
            v@ == data@.subrange(start as int, i as int),
        decreases end - i,
    {
        v.push(data[i]);
        i = i + 1;
        assert(v@ =~= data@.subrange(start as int, i as int));
    }
    v
}

/// The array whose elements are those of `s`.
pub open spec fn array_of<T, const N: usize>(s: Seq<T>) -> [T; N] {
    choose|a: [T; N]| a@ == s
}

/// An array is the array of its elements.
#[verifier::spinoff_prover]
pub proof fn lemma_array_of<T, const N: usize>(a: [T; N])
    ensures
        array_of::<T, N>(a@) == a,
{
    let b = array_of::<T, N>(a@);
    assert(b@ == a@);
    assert(b =~= a);
}

/// The bytes of `v` as an array of `N` bytes.
pub fn array_from_vec<const N: usize>(v: &Vec<u8>) -> (a: [u8; N])
    requires
        v@.len() == N,
    ensures
        a@ == v@,
        a == array_of::<u8, N>(v@),
{
    let mut a: [u8; N] = vstd::array::array_fill_for_copy_types(0u8);
    let mut i: usize = 0;
    while i < N
        invariant
            0 <= i <= N,
            v@.len() == N,
            a@.len() == N,
            forall|j: int| 0 <= j < i ==> a@[j] == v@[j],
        decreases N - i,
    {
        a[i] = v[i];
        i = i + 1;
    }
    assert(a@ =~= v@);
    proof { lemma_array_of(a); }
    a
}

/// Appends the bytes of `b`.
pub fn write_all(w: &mut Vec<u8>, b: &[u8])
    ensures
        final(w)@ == old(w)@ + b@,
{
    let mut i: usize = 0;
    while i < b.len()
        invariant
            0 <= i <= b@.len(),
            w@ == old(w)@ + b@.take(i as int),
        decreases b@.len() - i,
    {
        w.push(b[i]);
        i = i + 1;
        assert(w@ =~= old(w)@ + b@.take(i as int));
    }
    assert(b@.take(b@.len() as int) =~= b@);
}

/// The bytes of `d` from position `p` on (none past the end).
pub open spec fn rest_at(d: Seq<u8>, p: int) -> Seq<u8> {
    if 0 <= p <= d.len() {
        d.skip(p)
    } else {
        Seq::empty()
    }
}

/// The view of an optional value.
pub open spec fn opt_view<T: View>(o: Option<T>) -> Option<T::V> {
    match o {
        Some(x) => Some(x@),
        None => None,
    }
}

/// A read position in a byte buffer. The position may lie past the end of
/// the buffer, as after a seek; reading there fails.
pub struct Reader<'a> {
    data: &'a [u8],
    pos: u64,
}

impl<'a> Reader<'a> {
    /// The whole buffer.
    pub closed spec fn data_seq(&self) -> Seq<u8> {
        self.data@
    }

    /// The read position.
    pub closed spec fn pos(&self) -> int {
        self.pos as int
    }

    /// The bytes from the read position on (none past the end).
    pub open spec fn rem(&self) -> Seq<u8> {
        if self.pos() <= self.data_seq().len() {
            self.data_seq().skip(self.pos())
        } else {
            Seq::empty()
        }
    }

    /// The bytes from position `p` on.
    pub open spec fn rem_at(&self, p: int) -> Seq<u8> {
        if 0 <= p <= self.data_seq().len() {
            self.data_seq().skip(p)
        } else {
            Seq::empty()
        }
    }

    /// A reader at the start of `data`.
    pub fn new(data: &'a [u8]) -> (r: Self)
        ensures
            r.data_seq() == data@,
            r.pos() == 0,
    {
        Reader { data, pos: 0 }
    }

    /// The read position.
    pub fn position(&self) -> (p: u64)
        ensures
            p == self.pos(),
    {
        self.pos
    }

    /// The length of the buffer.
    pub fn data_len(&self) -> (n: u64)
        ensures
            n == self.data_seq().len(),
    {
        self.data.len() as u64
    }

    /// Moves the read position to `p`, which may lie past the end.
    pub fn seek_to(&mut self, p: u64)
        ensures
            final(self).data_seq() == old(self).data_seq(),
            final(self).pos() == p,
    {
        self.pos = p;
    }

    /// Whether `n` more bytes can be read.
    fn has(&self, n: u64) -> (b: bool)
        ensures
            b <==> n <= self.rem().len(),
            b && n > 0 ==> self.pos() + n <= self.data_seq().len(),
            self.data_seq().len() <= usize::MAX,
    {
        let len = self.data.len() as u64;
        if self.pos <= len {
            len - self.pos >= n
        } else {
            n == 0
        }
    }

    proof fn lemma_advance(&self, n: int)
        requires
            0 <= n,
            self.pos() + n <= self.data_seq().len(),
        ensures
            self.rem().skip(n) =~= self.rem_at(self.pos() + n),
            self.rem().len() == self.data_seq().len() - self.pos(),
            forall|i: int| 0 <= i < n ==> #[trigger] self.rem()[i] == self.data_seq()[self.pos() + i],
    {
    }

    /// Reads one byte.
    pub fn read_u8(&mut self) -> (res: Result<u8>)
        ensures
            final(self).data_seq() == old(self).data_seq(),
            match res {
                Ok(v) => take_u8(old(self).rem()) == Some((v, final(self).rem()))
                    && final(self).pos() == old(self).pos() + 1,
                Err(e) => take_u8(old(self).rem()) is None && e == Error::IoError
                    && *final(self) == *old(self),
            },
    {
        if self.has(1) {
            proof { self.lemma_advance(1); }
            let v = self.data[self.pos as usize];
            self.pos = self.pos + 1;
            Ok(v)
        } else {
            Err(Error::IoError)
        }
    }

    /// Reads a big-endian `u16`.
    pub fn read_u16(&mut self) -> (res: Result<u16>)
        ensures
            final(self).data_seq() == old(self).data_seq(),
            match res {
                Ok(v) => take_u16(old(self).rem()) == Some((v, final(self).rem()))
                    && final(self).pos() == old(self).pos() + 2,
                Err(e) => take_u16(old(self).rem()) is None && e == Error::IoError
                    && *final(self) == *old(self),
            },
    {
        if self.has(2) {
            proof { self.lemma_advance(2); }
            let v = be_read_u16(self.data, self.pos as usize);
            self.pos = self.pos + 2;
            Ok(v)
        } else {
            Err(Error::IoError)
        }
    }

    /// Reads a big-endian 24-bit integer.
    pub fn read_u24(&mut self) -> (res: Result<u32>)
        ensures
            final(self).data_seq() == old(self).data_seq(),
            match res {
                Ok(v) => take_u24(old(self).rem()) == Some((v, final(self).rem()))
                    && final(self).pos() == old(self).pos() + 3,
                Err(e) => take_u24(old(self).rem()) is None && e == Error::IoError
                    && *final(self) == *old(self),
            },
    {
        if self.has(3) {
            proof { self.lemma_advance(3); }
            let v = be_read_u24(self.data, self.pos as usize);
            self.pos = self.pos + 3;
            Ok(v)
        } else {
            Err(Error::IoError)
        }
    }

    /// Reads a big-endian `u32`.
    pub fn read_u32(&mut self) -> (res: Result<u32>)
        ensures
            final(self).data_seq() == old(self).data_seq(),
            match res {
                Ok(v) => take_u32(old(self).rem()) == Some((v, final(self).rem()))
                    && final(self).pos() == old(self).pos() + 4,
                Err(e) => take_u32(old(self).rem()) is None && e == Error::IoError
                    && *final(self) == *old(self),
            },
    {
        if self.has(4) {
            proof { self.lemma_advance(4); }
            let v = be_read_u32(self.data, self.pos as usize);
            self.pos = self.pos + 4;
            Ok(v)
        } else {
            Err(Error::IoError)
        }
    }

    /// Reads a big-endian `u64`.
    pub fn read_u64(&mut self) -> (res: Result<u64>)
        ensures
            final(self).data_seq() == old(self).data_seq(),
            match res {
                Ok(v) => take_u64(old(self).rem()) == Some((v, final(self).rem()))
                    && final(self).pos() == old(self).pos() + 8,
                Err(e) => take_u64(old(self).rem()) is None && e == Error::IoError
                    && *final(self) == *old(self),
            },
    {
        if self.has(8) {
            proof { self.lemma_advance(8); }
            let v = be_read_u64(self.data, self.pos as usize);
            proof {
                assert(self.data@.subrange(self.pos(), self.pos() + 8) =~= old(self).rem().take(8));
                assert(u64_of(old(self).rem()) == u64_of(old(self).rem().take(8)));
            }
            self.pos = self.pos + 8;
            Ok(v)
        } else {
            Err(Error::IoError)
        }
    }

    /// Reads a big-endian `i32`.
    pub fn read_i32(&mut self) -> (res: Result<i32>)
        ensures
            final(self).data_seq() == old(self).data_seq(),
            match res {
                Ok(v) => take_u32(old(self).rem()) matches Some((u, r)) && v == u as i32
                    && r == final(self).rem() && final(self).pos() == old(self).pos() + 4,
                Err(e) => take_u32(old(self).rem()) is None && e == Error::IoError
                    && *final(self) == *old(self),
            },
    {
        if self.has(4) {
            proof { self.lemma_advance(4); }
            let v = be_read_i32(self.data, self.pos as usize);
            self.pos = self.pos + 4;
            Ok(v)
        } else {
            Err(Error::IoError)
        }
    }

    /// Reads a big-endian `i16`.
    pub fn read_i16(&mut self) -> (res: Result<i16>)
        ensures
            final(self).data_seq() == old(self).data_seq(),
            match res {
                Ok(v) => take_u16(old(self).rem()) matches Some((u, r)) && v == u as i16
                    && r == final(self).rem() && final(self).pos() == old(self).pos() + 2,
                Err(e) => take_u16(old(self).rem()) is None && e == Error::IoError
                    && *final(self) == *old(self),
            },
    {
        if self.has(2) {
            proof { self.lemma_advance(2); }
            let v = be_read_i16(self.data, self.pos as usize);
            self.pos = self.pos + 2;
            Ok(v)
        } else {
            Err(Error::IoError)
        }
    }

    /// Reads the next `N` bytes into an array.
    pub fn read_array<const N: usize>(&mut self) -> (res: Result<[u8; N]>)
        ensures
            final(self).data_seq() == old(self).data_seq(),
            match res {
                Ok(a) => take_bytes(old(self).rem(), N as int) == Some((a@, final(self).rem()))
                    && final(self).pos() == old(self).pos() + N,
                Err(e) => take_bytes(old(self).rem(), N as int) is None && e == Error::IoError
                    && *final(self) == *old(self),
            },
    {
        let v = self.read_bytes(N as u64)?;
        Ok(array_from_vec::<N>(&v))
    }

    /// Reads up to `n` bytes: as many as remain, where fewer do.
    pub fn read_available(&mut self, n: u64) -> (v: Vec<u8>)
        ensures
            final(self).data_seq() == old(self).data_seq(),
            v@ == old(self).rem().take(if n <= old(self).rem().len() { n as int } else { old(self).rem().len() as int }),
            final(self).pos() == old(self).pos() + v@.len(),
            final(self).rem() == old(self).rem().skip(v@.len() as int),
    {
        let len = self.data_len();
        let remaining = if self.pos <= len { len - self.pos } else { 0 };
        let k = if n <= remaining { n } else { remaining };
        match self.read_bytes(k) {
            Ok(v) => v,
            Err(_) => Vec::new(),
        }
    }

    /// Reads the next `n` bytes.
    pub fn read_bytes(&mut self, n: u64) -> (res: Result<Vec<u8>>)
        ensures
            final(self).data_seq() == old(self).data_seq(),
            match res {
                Ok(v) => take_bytes(old(self).rem(), n as int) == Some((v@, final(self).rem()))
                    && final(self).pos() == old(self).pos() + n,
                Err(e) => take_bytes(old(self).rem(), n as int) is None && e == Error::IoError
                    && *final(self) == *old(self),
            },
    {
        if n == 0 {
            assert(old(self).rem().take(0) =~= Seq::<u8>::empty());
            assert(old(self).rem().skip(0) =~= old(self).rem());
            Ok(Vec::new())
        } else if self.has(n) {
            proof { self.lemma_advance(n as int); }
            let start = self.pos as usize;
            let v = copy_range(self.data, start, start + n as usize);
            proof { self.lemma_advance(n as int); }
            assert(v@ =~= old(self).rem().take(n as int));
            self.pos = self.pos + n;
            assert(self.rem() =~= old(self).rem().skip(n as int));

            Ok(v)
        } else {
            Err(Error::IoError)
        }
    }
}

} // verus!
