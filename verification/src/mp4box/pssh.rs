//! The protection system specific header box.
use crate::bigendian::{be_write_u32, group_take_lemmas, lemma_u32_roundtrip, u32_bytes};
use crate::error::{Error, Result};
use crate::mp4box::{
    be32_at, box_result, box_start, ext_bytes, header_bytes, lemma_be32_at_word, read_box_header_ext, read_outcome,
    skip_bytes_to, write_box_header_ext, BoxHeader, Mp4Box, ReadBox, WriteBox, HEADER_EXT_SIZE, HEADER_SIZE,
};
use crate::reader::{write_all, Reader};
use crate::types::BoxType;
use vstd::prelude::*;
use vstd::seq_lib::lemma_concat_associative;

verus! {

broadcast use group_take_lemmas;

#[derive(Debug, Clone, PartialEq, Eq, Default)]
pub struct PsshBox {
    pub version: u8,
    pub system_id: [u8; 16],
    pub kids: Vec<[u8; 16]>,
    pub data: Vec<u8>,
}

/// What a pssh box holds, as mathematical values.
pub struct PsshBoxView {
    pub version: u8,
    pub system_id: Seq<u8>,
    pub kids: Seq<Seq<u8>>,
    pub data: Seq<u8>,
}

/// The bytes of each of the key ids `v`.
pub open spec fn kids_view(v: Seq<[u8; 16]>) -> Seq<Seq<u8>> {
    Seq::new(v.len(), |i: int| v[i]@)
}

impl View for PsshBox {
    type V = PsshBoxView;

    open spec fn view(&self) -> PsshBoxView {
        PsshBoxView { version: self.version, system_id: self.system_id@, kids: kids_view(self.kids@), data: self.data@ }
    }
}

/// The size of the encoding of `b`.
pub open spec fn pssh_size(b: PsshBoxView) -> int {
    28 + (if b.version > 0 { 4 + 16 * (b.kids.len() as int) } else { 0int }) + 4 + b.data.len() as int
}

/// The `n` key ids stored from the start of `s`.
pub open spec fn kids_at(s: Seq<u8>, n: nat) -> Seq<Seq<u8>> {
    Seq::new(n, |i: int| s.subrange(16 * i, 16 * i + 16))
}

/// The pssh box that the body at the start of `s` encodes; key ids are
/// stored from version 1 on, and the flags are not kept.
pub open spec fn parse_pssh(s: Seq<u8>) -> Result<PsshBoxView> {
    if s.len() < 20 {
        Err(Error::IoError)
    } else {
        let v = s[0];
        if v > 0 && s.len() < 24 {
            Err(Error::IoError)
        } else {
            let kc: int = if v > 0 { be32_at(s, 20) as int } else { 0 };
            let o = if v > 0 { 24 + 16 * kc } else { 20 };
            if s.len() < o + 4 {
                Err(Error::IoError)
            } else {
                let n = be32_at(s, o);
                if s.len() < o + 4 + n {
                    Err(Error::IoError)
                } else {
                    Ok(PsshBoxView {
                        version: v,
                        system_id: s.subrange(4, 20),
                        kids: if v > 0 { kids_at(s.skip(24), kc as nat) } else { Seq::empty() },
                        data: s.subrange(o + 4, o + 4 + n),
                    })
                }
            }
        }
    }
}

/// The bytes of the key ids `v`, one after another.
pub open spec fn kids_bytes(v: Seq<Seq<u8>>) -> Seq<u8>
    decreases v.len(),
{
    if v.len() == 0 {
        Seq::empty()
    } else {
        kids_bytes(v.drop_last()) + v.last()
    }
}

/// The body of an encoded pssh box; the counts are stored as their low 32
/// bits.
pub open spec fn pssh_body(b: PsshBoxView) -> Seq<u8> {
    ext_bytes(b.version, 0) + (b.system_id + ((if b.version > 0 {
        u32_bytes(b.kids.len() as u32) + kids_bytes(b.kids)
    } else {
        Seq::empty()
    }) + (u32_bytes(b.data.len() as u32) + b.data)))
}

/// The encoding of a pssh box, header included.
pub open spec fn pssh_bytes(b: PsshBoxView) -> Seq<u8> {
    header_bytes(BoxType::PsshBox, pssh_size(b) as u64) + pssh_body(b)
}

/// Reads `n` key ids.
fn read_kids(reader: &mut Reader, n: u32) -> (res: Result<Vec<[u8; 16]>>)
    ensures
        final(reader).data_seq() == old(reader).data_seq(),
        match res {
            Ok(v) => old(reader).rem().len() >= 16 * n && kids_view(v@) == kids_at(old(reader).rem(), n as nat)
                && final(reader).pos() == old(reader).pos() + 16 * n && final(reader).rem() == old(reader).rem().skip(
                16 * n,
            ),
            Err(e) => old(reader).rem().len() < 16 * n && e == Error::IoError,
        },
{
    let ghost s = old(reader).rem();
    let mut kids: Vec<[u8; 16]> = Vec::new();
    let mut i: u32 = 0;
    while i < n
        invariant
            i <= n,
            s == old(reader).rem(),
            reader.data_seq() == old(reader).data_seq(),
            s.len() >= 16 * i,
            reader.rem() == s.skip(16 * i),
            reader.pos() == old(reader).pos() + 16 * i,
            kids_view(kids@) == kids_at(s, i as nat),
            kids@.len() == i,
        decreases n - i,
    {
        let kid = reader.read_array::<16>()?;
        let ghost before = kids@;
        kids.push(kid);
        proof {
            assert forall|j: int| 0 <= j < i implies #[trigger] kids_view(kids@)[j] == kids_view(before)[j] by {
                assert(kids@[j] == before[j]);
            }
            assert(kid@ =~= s.subrange(16 * i, 16 * i + 16));
            assert(reader.rem() =~= s.skip(16 * (i + 1)));
            assert(kids_view(kids@) =~= kids_at(s, (i + 1) as nat));
        }
        i = i + 1;
    }
    Ok(kids)
}

/// Appends the key ids.
fn write_kids(writer: &mut Vec<u8>, v: &Vec<[u8; 16]>)
    ensures
        final(writer)@ == old(writer)@ + kids_bytes(kids_view(v@)),
{
    let mut i: usize = 0;
    while i < v.len()
        invariant
            i <= v@.len(),
            writer@ == old(writer)@ + kids_bytes(kids_view(v@.take(i as int))),
        decreases v@.len() - i,
    {
        write_all(writer, &v[i]);
        proof {
            assert(kids_view(v@.take(i + 1)).drop_last() =~= kids_view(v@.take(i as int)));
        }
        i = i + 1;
        assert(writer@ =~= old(writer)@ + kids_bytes(kids_view(v@.take(i as int))));
    }
    assert(v@.take(v@.len() as int) =~= v@);
}

impl PsshBox {
    pub fn get_type(&self) -> (t: BoxType)
        ensures
            t == BoxType::PsshBox,
    {
        BoxType::PsshBox
    }

    pub fn get_size(&self) -> (s: u64)
        requires
            pssh_size(self@) <= u64::MAX,
        ensures
            s == pssh_size(self@),
    {
        let mut s = HEADER_SIZE + HEADER_EXT_SIZE + 16;
        if self.version > 0 {
            s = s + 4 + 16 * self.kids.len() as u64;
        }
        s = s + 4 + self.data.len() as u64;
        s
    }
}

impl Mp4Box for PsshBox {
    open spec fn has_size(&self) -> bool {
        pssh_size(self@) <= u64::MAX
    }

    fn box_type(&self) -> (t: BoxType)
        ensures
            t == BoxType::PsshBox,
    {
        self.get_type()
    }

    fn box_size(&self) -> (s: u64)
        ensures
            s == pssh_size(self@),
    {
        self.get_size()
    }
}

impl ReadBox for PsshBox {
    open spec fn size_accepted(size: u64) -> bool {
        true
    }

    #[verifier::spinoff_prover]
    fn read_box(reader: &mut Reader, size: u64) -> (res: Result<Self>)
        ensures
            res is Ok ==> final(reader).pos() == old(reader).pos() - HEADER_SIZE + size,
            read_outcome(res, box_result(parse_pssh(old(reader).rem()), old(reader).pos() - HEADER_SIZE, size)),
    {
        let ghost s = old(reader).rem();
        let start = box_start(reader);
        let (version, _flags) = read_box_header_ext(reader)?;
        let system_id = reader.read_array::<16>()?;
        assert(system_id@ =~= s.subrange(4, 20));
        assert(reader.rem() =~= s.skip(20));
        let mut kids: Vec<[u8; 16]> = Vec::new();
        if version > 0 {
            let kid_count = reader.read_u32()?;
            assert(reader.rem() =~= s.skip(24));
            kids = read_kids(reader, kid_count)?;
            assert(reader.rem() =~= s.skip(24 + 16 * kid_count));
        } else {
            assert(kids_view(kids@) =~= Seq::<Seq<u8>>::empty());
        }
        let ghost o = reader.pos() - old(reader).pos();
        let data_size = reader.read_u32()?;
        let data = reader.read_bytes(data_size as u64)?;
        assert(data@ =~= s.subrange(o + 4, o + 4 + data_size));
        skip_bytes_to(reader, start, size)?;
        Ok(PsshBox { version, system_id, kids, data })
    }
}

impl WriteBox for PsshBox {
    open spec fn writable(&self) -> bool {
        self.has_size()
    }

    #[verifier::spinoff_prover]
    fn write_box(&self, writer: &mut Vec<u8>) -> (res: Result<u64>)
        ensures
            final(writer)@ == old(writer)@ + pssh_bytes(self@),
            res == Ok::<u64, Error>(pssh_size(self@) as u64),
    {
        let size = self.box_size();
        BoxHeader::new(self.box_type(), size).write(writer)?;
        let ghost w0 = writer@;
        write_box_header_ext(writer, self.version, 0)?;
        write_all(writer, &self.system_id);
        let ghost w1 = writer@;
        if self.version > 0 {
            be_write_u32(writer, self.kids.len() as u32);
            write_kids(writer, &self.kids);
        }
        let ghost w2 = writer@;
        be_write_u32(writer, self.data.len() as u32);
        write_all(writer, self.data.as_slice());
        proof {
            let e = ext_bytes(self.version, 0);
            let id = self@.system_id;
            let k = if self.version > 0 {
                u32_bytes(self@.kids.len() as u32) + kids_bytes(self@.kids)
            } else {
                Seq::empty()
            };
            let d = u32_bytes(self@.data.len() as u32) + self@.data;
            assert(w1 == w0 + e + id);
            assert(w2 =~= w1 + k);
            assert(writer@ =~= w2 + d);
            lemma_concat_associative(w0 + e + id, k, d);
            lemma_concat_associative(w0 + e, id, k + d);
            lemma_concat_associative(w0, e, id + (k + d));
        }
        assert(final(writer)@ =~= old(writer)@ + pssh_bytes(self@));
        Ok(size)
    }
}

/// The key ids written one after another are read back, whatever follows.
#[verifier::spinoff_prover]
pub proof fn lemma_kids_bytes(v: Seq<Seq<u8>>, rest: Seq<u8>)
    requires
        forall|i: int| 0 <= i < v.len() ==> #[trigger] v[i].len() == 16,
    ensures
        kids_bytes(v).len() == 16 * v.len(),
        kids_at(kids_bytes(v) + rest, v.len()) == v,
    decreases v.len(),
{
    if v.len() > 0 {
        let p = v.drop_last();
        assert forall|i: int| 0 <= i < p.len() implies #[trigger] p[i].len() == 16 by {
            assert(p[i] == v[i]);
        }
        lemma_kids_bytes(p, v.last() + rest);
        let s = kids_bytes(v) + rest;
        assert(v[v.len() - 1].len() == 16);
        assert(s =~= kids_bytes(p) + (v.last() + rest));
        assert forall|i: int| 0 <= i < v.len() implies #[trigger] kids_at(s, v.len())[i] == v[i] by {
            if i < p.len() {
                assert(kids_at(kids_bytes(p) + (v.last() + rest), p.len())[i] == p[i]);
            } else {
                assert(s.subrange(16 * i, 16 * i + 16) =~= v.last());
            }
        }
        assert(kids_at(s, v.len()) =~= v);
    } else {
        assert(kids_at(kids_bytes(v) + rest, v.len()) =~= v);
    }
}

/// Decoding the body of an encoded pssh box gives the box back, where the
/// system id and each key id are 16 bytes, key ids appear only from
/// version 1 on, the counts fit in 32 bits and the box is small enough for
/// a 32-bit size.
#[verifier::spinoff_prover]
pub proof fn lemma_pssh_roundtrip(b: PsshBoxView, rest: Seq<u8>)
    requires
        b.system_id.len() == 16,
        forall|i: int| 0 <= i < b.kids.len() ==> #[trigger] b.kids[i].len() == 16,
        b.version == 0 ==> b.kids.len() == 0,
        b.kids.len() <= u32::MAX,
        b.data.len() <= u32::MAX,
        pssh_size(b) <= u32::MAX,
    ensures
        pssh_bytes(b).len() == pssh_size(b),
        parse_pssh((pssh_bytes(b) + rest).skip(8)) == Ok::<PsshBoxView, Error>(b),
{
    let h = header_bytes(BoxType::PsshBox, pssh_size(b) as u64);
    assert(h.len() == 8);
    assert((pssh_bytes(b) + rest).skip(8) =~= pssh_body(b) + rest);
    lemma_kids_bytes(b.kids, u32_bytes(b.data.len() as u32) + (b.data + rest));
    lemma_u32_roundtrip(b.data.len() as u32);
    lemma_u32_roundtrip(b.kids.len() as u32);
    if b.version > 0 {
        lemma_pssh_body_kids(b, rest);
    } else {
        lemma_pssh_body_plain(b, rest);
    }
}

#[verifier::rlimit(40)]
#[verifier::spinoff_prover]
proof fn lemma_pssh_body_kids(b: PsshBoxView, rest: Seq<u8>)
    requires
        b.version > 0,
        b.system_id.len() == 16,
        kids_bytes(b.kids).len() == 16 * b.kids.len(),
        kids_at(kids_bytes(b.kids) + (u32_bytes(b.data.len() as u32) + (b.data + rest)), b.kids.len()) == b.kids,
        b.kids.len() <= u32::MAX,
        b.data.len() <= u32::MAX,
    ensures
        pssh_body(b).len() == pssh_size(b) - 8,
        parse_pssh(pssh_body(b) + rest) == Ok::<PsshBoxView, Error>(b),
{
    lemma_u32_roundtrip(b.data.len() as u32);
    lemma_u32_roundtrip(b.kids.len() as u32);
    let e = ext_bytes(b.version, 0);
    let s = pssh_body(b) + rest;
    let kc = u32_bytes(b.kids.len() as u32);
    let kb = kids_bytes(b.kids);
    let dc = u32_bytes(b.data.len() as u32);
    let t = kb + (dc + (b.data + rest));
    assert(s =~= (e + b.system_id) + (kc + t));
    lemma_be32_at_word(e + b.system_id, b.kids.len() as u32, t);
    assert(s.skip(24) =~= t);
    let p = e + b.system_id + kc + kb;
    assert(s =~= p + (dc + (b.data + rest)));
    lemma_be32_at_word(p, b.data.len() as u32, b.data + rest);
    let o = 24 + 16 * (b.kids.len() as int);
    assert(s.subrange(o + 4, o + 4 + b.data.len() as int) =~= b.data);
    assert(s.subrange(4, 20) =~= b.system_id);
}

#[verifier::spinoff_prover]
proof fn lemma_pssh_body_plain(b: PsshBoxView, rest: Seq<u8>)
    requires
        b.version == 0,
        b.system_id.len() == 16,
        b.kids.len() == 0,
        b.data.len() <= u32::MAX,
    ensures
        pssh_body(b).len() == pssh_size(b) - 8,
        parse_pssh(pssh_body(b) + rest) == Ok::<PsshBoxView, Error>(b),
{
    lemma_u32_roundtrip(b.data.len() as u32);
    let e = ext_bytes(b.version, 0);
    let s = pssh_body(b) + rest;
    let dc = u32_bytes(b.data.len() as u32);
    assert(b.kids =~= Seq::<Seq<u8>>::empty());
    assert(s =~= (e + b.system_id) + (dc + (b.data + rest)));
    lemma_be32_at_word(e + b.system_id, b.data.len() as u32, b.data + rest);
    assert(s.subrange(24, 24 + b.data.len() as int) =~= b.data);
    assert(s.subrange(4, 20) =~= b.system_id);
}

} // verus!
