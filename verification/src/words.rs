//! Runs of big-endian integers: what they are read as, what they are
//! written as, and the proofs that one undoes the other.
use crate::bigendian::{be_write_u32, be_write_u64, u32_bytes, u64_bytes};
use crate::error::{Error, Result};
use crate::mp4box::{be32_at, be64_at, lemma_be32_at_word, lemma_be64_at_word};
use crate::reader::Reader;
use vstd::prelude::*;

verus! {

/// The `n` big-endian `u32`s stored from the start of `s`.
pub open spec fn be32_words(s: Seq<u8>, n: nat) -> Seq<u32> {
    Seq::new(n, |i: int| be32_at(s, 4 * i))
}

/// The `n` big-endian `u64`s stored from the start of `s`.
pub open spec fn be64_words(s: Seq<u8>, n: nat) -> Seq<u64> {
    Seq::new(n, |i: int| be64_at(s, 8 * i))
}

/// The bytes of the `u32`s of `v`, one after another.
pub open spec fn u32s_bytes(v: Seq<u32>) -> Seq<u8>
    decreases v.len(),
{
    if v.len() == 0 {
        Seq::empty()
    } else {
        u32s_bytes(v.drop_last()) + u32_bytes(v.last())
    }
}

/// The bytes of the `u64`s of `v`, one after another.
pub open spec fn u64s_bytes(v: Seq<u64>) -> Seq<u8>
    decreases v.len(),
{
    if v.len() == 0 {
        Seq::empty()
    } else {
        u64s_bytes(v.drop_last()) + u64_bytes(v.last())
    }
}

/// Reads `n` big-endian `u32`s.
pub fn read_be32_words(reader: &mut Reader, n: u32) -> (res: Result<Vec<u32>>)
    ensures
        final(reader).data_seq() == old(reader).data_seq(),
        match res {
            Ok(v) => old(reader).rem().len() >= 4 * n && v@ == be32_words(old(reader).rem(), n as nat)
                && final(reader).pos() == old(reader).pos() + 4 * n && final(reader).rem() == old(
                reader,
            ).rem().skip(4 * n),
            Err(e) => old(reader).rem().len() < 4 * n && e == Error::IoError,
        },
{
    let ghost s = old(reader).rem();
    let mut v: Vec<u32> = Vec::new();
    let mut i: u32 = 0;
    while i < n
        invariant
            i <= n,
            s == old(reader).rem(),
            reader.data_seq() == old(reader).data_seq(),
            s.len() >= 4 * i,
            reader.rem() == s.skip(4 * i),
            reader.pos() == old(reader).pos() + 4 * i,
            v@ == be32_words(s, i as nat),
        decreases n - i,
    {
        let x = reader.read_u32()?;
        v.push(x);
        proof {
            assert(reader.rem() =~= s.skip(4 * (i + 1)));
            assert(v@ =~= be32_words(s, (i + 1) as nat));
        }
        i = i + 1;
    }
    Ok(v)
}

/// Reads `n` big-endian `u64`s.
pub fn read_be64_words(reader: &mut Reader, n: u32) -> (res: Result<Vec<u64>>)
    ensures
        final(reader).data_seq() == old(reader).data_seq(),
        match res {
            Ok(v) => old(reader).rem().len() >= 8 * n && v@ == be64_words(old(reader).rem(), n as nat)
                && final(reader).pos() == old(reader).pos() + 8 * n && final(reader).rem() == old(
                reader,
            ).rem().skip(8 * n),
            Err(e) => old(reader).rem().len() < 8 * n && e == Error::IoError,
        },
{
    let ghost s = old(reader).rem();
    let mut v: Vec<u64> = Vec::new();
    let mut i: u32 = 0;
    while i < n
        invariant
            i <= n,
            s == old(reader).rem(),
            reader.data_seq() == old(reader).data_seq(),
            s.len() >= 8 * i,
            reader.rem() == s.skip(8 * i),
            reader.pos() == old(reader).pos() + 8 * i,
            v@ == be64_words(s, i as nat),
        decreases n - i,
    {
        let ghost r = reader.rem();
        let x = reader.read_u64()?;
        proof {
            assert(r.take(8) =~= s.subrange(8 * i, 8 * i + 8));
        }
        v.push(x);
        proof {
            assert(reader.rem() =~= s.skip(8 * (i + 1)));
            assert(v@ =~= be64_words(s, (i + 1) as nat));
        }
        i = i + 1;
    }
    Ok(v)
}

/// Appends the big-endian bytes of the `u32`s of `v`.
pub fn write_be32_words(writer: &mut Vec<u8>, v: &[u32])
    ensures
        final(writer)@ == old(writer)@ + u32s_bytes(v@),
{
    let mut i: usize = 0;
    while i < v.len()
        invariant
            i <= v@.len(),
            writer@ == old(writer)@ + u32s_bytes(v@.take(i as int)),
        decreases v@.len() - i,
    {
        be_write_u32(writer, v[i]);
        proof {
            assert(v@.take(i + 1).drop_last() =~= v@.take(i as int));
        }
        i = i + 1;
        assert(writer@ =~= old(writer)@ + u32s_bytes(v@.take(i as int)));
    }
    assert(v@.take(v@.len() as int) =~= v@);
}

/// Appends the big-endian bytes of the `u64`s of `v`.
pub fn write_be64_words(writer: &mut Vec<u8>, v: &[u64])
    ensures
        final(writer)@ == old(writer)@ + u64s_bytes(v@),
{
    let mut i: usize = 0;
    while i < v.len()
        invariant
            i <= v@.len(),
            writer@ == old(writer)@ + u64s_bytes(v@.take(i as int)),
        decreases v@.len() - i,
    {
        be_write_u64(writer, v[i]);
        proof {
            assert(v@.take(i + 1).drop_last() =~= v@.take(i as int));
        }
        i = i + 1;
        assert(writer@ =~= old(writer)@ + u64s_bytes(v@.take(i as int)));
    }
    assert(v@.take(v@.len() as int) =~= v@);
}

/// The `u32`s written one after another are read back, whatever follows.
#[verifier::spinoff_prover]
pub proof fn lemma_u32s_bytes(v: Seq<u32>, rest: Seq<u8>)
    ensures
        u32s_bytes(v).len() == 4 * v.len(),
        be32_words(u32s_bytes(v) + rest, v.len()) == v,
    decreases v.len(),
{
    if v.len() > 0 {
        let p = v.drop_last();
        let w = u32_bytes(v.last());
        lemma_u32s_bytes(p, w + rest);
        let s = u32s_bytes(v) + rest;
        assert(s =~= u32s_bytes(p) + (w + rest));
        lemma_be32_at_word(u32s_bytes(p), v.last(), rest);
        assert forall|i: int| 0 <= i < v.len() implies #[trigger] be32_words(s, v.len())[i] == v[i] by {
            if i < p.len() {
                assert(be32_words(u32s_bytes(p) + (w + rest), p.len())[i] == p[i]);
            }
        }
        assert(be32_words(s, v.len()) =~= v);
    } else {
        assert(be32_words(u32s_bytes(v) + rest, v.len()) =~= v);
    }
}

/// The `u64`s written one after another are read back, whatever follows.
#[verifier::spinoff_prover]
pub proof fn lemma_u64s_bytes(v: Seq<u64>, rest: Seq<u8>)
    ensures
        u64s_bytes(v).len() == 8 * v.len(),
        be64_words(u64s_bytes(v) + rest, v.len()) == v,
    decreases v.len(),
{
    if v.len() > 0 {
        let p = v.drop_last();
        let w = u64_bytes(v.last());
        lemma_u64s_bytes(p, w + rest);
        let s = u64s_bytes(v) + rest;
        assert(s =~= u64s_bytes(p) + (w + rest));
        lemma_be64_at_word(u64s_bytes(p), v.last(), rest);
        crate::bigendian::lemma_u64_of_bytes(v.last());
        assert forall|i: int| 0 <= i < v.len() implies #[trigger] be64_words(s, v.len())[i] == v[i] by {
            if i < p.len() {
                assert(be64_words(u64s_bytes(p) + (w + rest), p.len())[i] == p[i]);
            }
        }
        assert(be64_words(s, v.len()) =~= v);
    } else {
        assert(be64_words(u64s_bytes(v) + rest, v.len()) =~= v);
    }
}

} // verus!
