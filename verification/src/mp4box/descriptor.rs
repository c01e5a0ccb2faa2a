//! MPEG-4 elementary stream descriptors, as found in an esds box: each is a
//! tag, a length in one to four 7-bit groups, and a body.
use crate::bigendian::{be_write_u16, be_write_u24, be_write_u32, group_take_lemmas, take_u8, u24_of};
use crate::error::{Error, Result};
use crate::media::{audio_object_type_code, channel_config_code, sample_freq_index_code, AacConfig};
use crate::mp4box::{be24_at, skip_bytes};
use crate::reader::{rest_at, Reader};
use vstd::prelude::*;

verus! {

broadcast use group_take_lemmas;

/// The number of bytes that the length `size` takes: one per 7 bits, at
/// most four.
pub open spec fn length_size(size: u32) -> nat {
    if size <= 0x7F {
        1
    } else if size <= 0x3FFF {
        2
    } else if size <= 0x1FFFFF {
        3
    } else {
        4
    }
}

/// The number of bytes that a descriptor length takes.
pub fn size_of_length(size: u32) -> (n: u32)
    ensures
        n == length_size(size),
{
    if size <= 0x7F {
        1
    } else if size <= 0x3FFF {
        2
    } else if size <= 0x1FFFFF {
        3
    } else {
        4
    }
}

/// Byte `i` of the `n`-byte encoding of the length `size`: seven bits of
/// it, most significant first, with the high bit set on all but the last.
pub open spec fn length_byte(size: u32, n: nat, i: int) -> u8 {
    let b = ((size >> (((n - i - 1) * 7) as u32)) as u8) & 0x7Fu8;
    if i < n - 1 {
        b | 0x80u8
    } else {
        b
    }
}

/// The encoding of the length `size`. Beyond 28 bits the high bits are
/// lost.
pub open spec fn length_bytes(size: u32) -> Seq<u8> {
    Seq::new(length_size(size), |i: int| length_byte(size, length_size(size), i))
}

/// The encoding of a descriptor's tag and length.
pub open spec fn desc_header_bytes(tag: u8, size: u32) -> Seq<u8> {
    seq![tag] + length_bytes(size)
}

/// The length whose groups start at `s[i]`, `acc` holding the groups read
/// before, and the number of bytes that it takes: a group with the high
/// bit clear ends it, and so does the fourth.
pub open spec fn read_length(s: Seq<u8>, i: nat, acc: u32) -> Result<(u32, nat)>
    decreases 4 - i,
{
    if i >= 4 {
        Ok((acc, i))
    } else if s.len() <= i {
        Err(Error::IoError)
    } else {
        let b = s[i as int];
        let acc2 = ((acc << 7u32) | ((b & 0x7Fu8) as u32)) as u32;
        if b & 0x80u8 == 0 {
            Ok((acc2, (i + 1) as nat))
        } else {
            read_length(s, (i + 1) as nat, acc2)
        }
    }
}

/// The tag and length of the descriptor at the start of `s`, and the
/// number of bytes they take.
pub open spec fn parse_desc_header(s: Seq<u8>) -> Result<(u8, u32, int)> {
    if s.len() < 1 {
        Err(Error::IoError)
    } else {
        match read_length(s.skip(1), 0, 0) {
            Ok((size, n)) => Ok((s[0], size, 1 + n as int)),
            Err(e) => Err(e),
        }
    }
}

/// A descriptor header takes at least two bytes.
#[verifier::spinoff_prover]
pub proof fn lemma_desc_header_progress(s: Seq<u8>)
    ensures
        parse_desc_header(s) matches Ok((t, z, n)) ==> 2 <= n <= 5,
{
    lemma_read_length_progress(s.skip(1), 0, 0);
}

#[verifier::spinoff_prover]
proof fn lemma_read_length_progress(s: Seq<u8>, i: nat, acc: u32)
    ensures
        read_length(s, i, acc) matches Ok((z, n)) ==> (i < 4 ==> i < n) && n <= (if i < 4 { 4 } else { i }),
    decreases 4 - i,
{
    if i < 4 && s.len() > i {
        lemma_read_length_progress(s, (i + 1) as nat, ((acc << 7u32) | ((s[i as int] & 0x7Fu8) as u32)) as u32);
    }
}

/// Reads a descriptor's tag and length.
pub fn read_desc(reader: &mut Reader) -> (res: Result<(u8, u32)>)
    ensures
        final(reader).data_seq() == old(reader).data_seq(),
        match res {
            Ok((tag, size)) => parse_desc_header(old(reader).rem()) matches Ok((t, z, n)) && t == tag && z == size
                && final(reader).pos() == old(reader).pos() + n && final(reader).rem() == old(reader).rem().skip(n),
            Err(e) => parse_desc_header(old(reader).rem()) == Err::<(u8, u32, int), Error>(e),
        },
{
    let ghost s = old(reader).rem();
    let tag = reader.read_u8()?;
    let ghost s1 = s.skip(1);
    assert(reader.rem() == s1);
    let mut size: u32 = 0;
    let mut i: u32 = 0;
    while i < 4
        invariant_except_break
            0 <= i <= 4,
            reader.data_seq() == old(reader).data_seq(),
            reader.pos() == old(reader).pos() + 1 + i,
            reader.rem() == s1.skip(i as int),
            s1 == s.skip(1),
            s == old(reader).rem(),
            s.len() >= 1,
            i <= s1.len(),
            read_length(s1, 0, 0) == read_length(s1, i as nat, size),
        ensures
            reader.data_seq() == old(reader).data_seq(),
            i <= s1.len(),
            read_length(s1, 0, 0) == Ok::<(u32, nat), Error>((size, i as nat)),
            reader.pos() == old(reader).pos() + 1 + i,
            reader.rem() == s1.skip(i as int),
        decreases 4 - i,
    {
        let ghost r = reader.rem();
        let b = match reader.read_u8() {
            Ok(b) => b,
            Err(e) => {
                assert(s1.len() <= i);
                assert(read_length(s1, i as nat, size) == Err::<(u32, nat), Error>(Error::IoError));
                assert(parse_desc_header(s) == Err::<(u8, u32, int), Error>(Error::IoError));
                return Err(e);
            },
        };
        assert(b == r[0]);
        assert(b == s1[i as int]);
        size = (size << 7) | (b & 0x7F) as u32;
        i = i + 1;
        assert(reader.rem() =~= s1.skip(i as int));
        if b & 0x80 == 0 {
            break;
        }
    }
    assert(s.skip(1 + i) =~= s1.skip(i as int));
    Ok((tag, size))
}

/// Writes a descriptor's tag and length.
pub fn write_desc(writer: &mut Vec<u8>, tag: u8, size: u32) -> (res: Result<u64>)
    ensures
        final(writer)@ == old(writer)@ + desc_header_bytes(tag, size),
        res == Ok::<u64, Error>((1 + length_size(size)) as u64),
{
    writer.push(tag);
    let nbytes = size_of_length(size);
    let mut i: u32 = 0;
    while i < nbytes
        invariant
            1 <= nbytes <= 4,
            nbytes == length_size(size),
            0 <= i <= nbytes,
            writer@ == old(writer)@ + seq![tag] + length_bytes(size).take(i as int),
        decreases nbytes - i,
    {
        let mut b = (size >> ((nbytes - i - 1) * 7)) as u8 & 0x7F;
        if i < nbytes - 1 {
            b = b | 0x80;
        }
        assert(b == length_byte(size, nbytes as nat, i as int));
        writer.push(b);
        i = i + 1;
        assert(length_bytes(size).take(i as int) =~= length_bytes(size).take(i - 1).push(b));
        assert(writer@ =~= old(writer)@ + seq![tag] + length_bytes(size).take(i as int));
    }
    assert(length_bytes(size).take(nbytes as int) =~= length_bytes(size));
    assert(writer@ =~= old(writer)@ + desc_header_bytes(tag, size));
    Ok(1 + nbytes as u64)
}

/// Reading back the header of a descriptor whose length fits in 28 bits
/// gives its tag and length.
#[verifier::spinoff_prover]
pub proof fn lemma_desc_header_roundtrip(tag: u8, size: u32, rest: Seq<u8>)
    requires
        size < 0x10000000,
    ensures
        parse_desc_header(desc_header_bytes(tag, size) + rest) == Ok::<(u8, u32, int), Error>(
            (tag, size, 1 + length_size(size) as int),
        ),
        (desc_header_bytes(tag, size) + rest).skip(1 + length_size(size) as int) == rest,
{
    let n = length_size(size);
    let s = desc_header_bytes(tag, size) + rest;
    let s1 = s.skip(1);
    assert(s1 =~= length_bytes(size) + rest);
    assert(s.skip(1 + n as int) =~= rest);
    assert forall|i: int| 0 <= i < n implies #[trigger] s1[i] == length_byte(size, n, i) by {}
    reveal_with_fuel(read_length, 5);
    if n == 1 {
        let b0 = s1[0];
        assert(b0 == (((size >> 0u32) as u8) & 0x7Fu8));
        assert(size <= 0x7F ==> ((((size >> 0u32) as u8) & 0x7Fu8) & 0x80u8 == 0 && ((0u32 << 7u32) | (((((
        size >> 0u32) as u8) & 0x7Fu8) & 0x7Fu8) as u32)) == size)) by (bit_vector);
    } else if n == 2 {
        let b0 = s1[0];
        let b1 = s1[1];
        assert(b0 == ((((size >> 7u32) as u8) & 0x7Fu8) | 0x80u8));
        assert(b1 == (((size >> 0u32) as u8) & 0x7Fu8));
        assert(0x80 <= size <= 0x3FFF ==> {
            let c0 = (((size >> 7u32) as u8) & 0x7Fu8) | 0x80u8;
            let c1 = ((size >> 0u32) as u8) & 0x7Fu8;
            let a1 = ((0u32 << 7u32) | ((c0 & 0x7Fu8) as u32)) as u32;
            &&& c0 & 0x80u8 != 0
            &&& c1 & 0x80u8 == 0
            &&& ((a1 << 7u32) | ((c1 & 0x7Fu8) as u32)) as u32 == size
        }) by (bit_vector);
    } else if n == 3 {
        let b0 = s1[0];
        let b1 = s1[1];
        let b2 = s1[2];
        assert(b0 == ((((size >> 14u32) as u8) & 0x7Fu8) | 0x80u8));
        assert(b1 == ((((size >> 7u32) as u8) & 0x7Fu8) | 0x80u8));
        assert(b2 == (((size >> 0u32) as u8) & 0x7Fu8));
        assert(0x4000 <= size <= 0x1FFFFF ==> {
            let c0 = (((size >> 14u32) as u8) & 0x7Fu8) | 0x80u8;
            let c1 = (((size >> 7u32) as u8) & 0x7Fu8) | 0x80u8;
            let c2 = ((size >> 0u32) as u8) & 0x7Fu8;
            let a1 = ((0u32 << 7u32) | ((c0 & 0x7Fu8) as u32)) as u32;
            let a2 = ((a1 << 7u32) | ((c1 & 0x7Fu8) as u32)) as u32;
            &&& c0 & 0x80u8 != 0
            &&& c1 & 0x80u8 != 0
            &&& c2 & 0x80u8 == 0
            &&& ((a2 << 7u32) | ((c2 & 0x7Fu8) as u32)) as u32 == size
        }) by (bit_vector);
    } else {
        let b0 = s1[0];
        let b1 = s1[1];
        let b2 = s1[2];
        let b3 = s1[3];
        assert(b0 == ((((size >> 21u32) as u8) & 0x7Fu8) | 0x80u8));
        assert(b1 == ((((size >> 14u32) as u8) & 0x7Fu8) | 0x80u8));
        assert(b2 == ((((size >> 7u32) as u8) & 0x7Fu8) | 0x80u8));
        assert(b3 == (((size >> 0u32) as u8) & 0x7Fu8));
        assert(0x200000 <= size < 0x10000000 ==> {
            let c0 = (((size >> 21u32) as u8) & 0x7Fu8) | 0x80u8;
            let c1 = (((size >> 14u32) as u8) & 0x7Fu8) | 0x80u8;
            let c2 = (((size >> 7u32) as u8) & 0x7Fu8) | 0x80u8;
            let c3 = ((size >> 0u32) as u8) & 0x7Fu8;
            let a1 = ((0u32 << 7u32) | ((c0 & 0x7Fu8) as u32)) as u32;
            let a2 = ((a1 << 7u32) | ((c1 & 0x7Fu8) as u32)) as u32;
            let a3 = ((a2 << 7u32) | ((c2 & 0x7Fu8) as u32)) as u32;
            &&& c0 & 0x80u8 != 0
            &&& c1 & 0x80u8 != 0
            &&& c2 & 0x80u8 != 0
            &&& ((a3 << 7u32) | ((c3 & 0x7Fu8) as u32)) as u32 == size
        }) by (bit_vector);
    }
}

/// The audio-specific configuration of an AAC stream.
#[derive(Debug, Clone, Copy, PartialEq, Eq, Structural)]
pub struct DecoderSpecificDescriptor {
    pub profile: u8,
    pub freq_index: u8,
    pub chan_conf: u8,
}

/// The decoder-specific descriptor of a stream that has none: all zero.
pub open spec fn no_dec_specific() -> DecoderSpecificDescriptor {
    DecoderSpecificDescriptor { profile: 0, freq_index: 0, chan_conf: 0 }
}

impl Default for DecoderSpecificDescriptor {
    fn default() -> (d: Self)
        ensures
            d == no_dec_specific(),
    {
        DecoderSpecificDescriptor { profile: 0, freq_index: 0, chan_conf: 0 }
    }
}

/// The audio object type that starts with the bytes `a` and `b`: five bits,
/// or, where they are all set, 32 plus the next six bits.
pub open spec fn audio_object_type_bits(a: u8, b: u8) -> u8 {
    if a >> 3u8 == 31 {
        (32 + (((a & 7u8) << 3u8) | (b >> 5u8))) as u8
    } else {
        a >> 3u8
    }
}

/// The audio object type that starts with the bytes `a` and `b`.
pub fn get_audio_object_type(byte_a: u8, byte_b: u8) -> (profile: u8)
    ensures
        profile == audio_object_type_bits(byte_a, byte_b),
{
    let mut profile = byte_a >> 3;
    if profile == 31 {
        assert(((byte_a & 7u8) << 3u8) | (byte_b >> 5u8) < 64) by (bit_vector);
        profile = 32 + ((byte_a & 7) << 3 | (byte_b >> 5));
    }
    profile
}

/// The decoder-specific descriptor whose body starts `s`, and the number of
/// bytes read: two bytes of profile, frequency index and channels, a third
/// byte for the channels of an extended profile, and, for frequency index
/// 15, a 24-bit sample rate from which the channels are taken instead.
pub open spec fn parse_dec_specific(s: Seq<u8>) -> Result<(DecoderSpecificDescriptor, int)> {
    if s.len() < 2 {
        Err(Error::IoError)
    } else {
        let a = s[0];
        let b = s[1];
        let profile = audio_object_type_bits(a, b);
        let extended = profile > 31;
        let freq_index = if extended {
            (b >> 1u8) & 0x0Fu8
        } else {
            (((a & 0x07u8) << 1u8) + (b >> 7u8)) as u8
        };
        if freq_index == 15 {
            if s.len() < 5 {
                Err(Error::IoError)
            } else {
                let rate = be24_at(s, 2);
                Ok((DecoderSpecificDescriptor { profile, freq_index, chan_conf: ((rate >> 4u32) & 0x0Fu32) as u8 }, 5))
            }
        } else if extended {
            if s.len() < 3 {
                Err(Error::IoError)
            } else {
                let c = s[2];
                Ok((DecoderSpecificDescriptor { profile, freq_index, chan_conf: ((b & 1u8) << 3u8) | (c >> 5u8) }, 3))
            }
        } else {
            Ok((DecoderSpecificDescriptor { profile, freq_index, chan_conf: (b >> 3u8) & 0x0Fu8 }, 2))
        }
    }
}

/// The body of the encoding of a decoder-specific descriptor: a profile
/// below 31 in five bits, a larger one as 31 and six more bits.
pub open spec fn dec_specific_body(d: DecoderSpecificDescriptor) -> Seq<u8> {
    if d.profile < 31 {
        seq![((d.profile << 3u8) | (d.freq_index >> 1u8)) as u8, ((d.freq_index << 7u8) | (d.chan_conf << 3u8)) as u8]
    } else {
        let p = (d.profile - 32) as u8;
        seq![
            ((31u8 << 3u8) | (p >> 3u8)) as u8,
            ((p << 5u8) | (d.freq_index << 1u8) | (d.chan_conf >> 7u8)) as u8,
            ((d.chan_conf & 7u8) << 5u8) as u8,
        ]
    }
}

/// The length of the body of a decoder-specific descriptor.
pub open spec fn dec_specific_size(d: DecoderSpecificDescriptor) -> u32 {
    if d.profile < 31 {
        2
    } else {
        3
    }
}

/// Reads the channel configuration that follows the first two bytes `b`
/// (the second) of a decoder-specific descriptor.
pub fn get_chan_conf(reader: &mut Reader, byte_b: u8, freq_index: u8, extended_profile: bool) -> (res: Result<u8>)
    ensures
        final(reader).data_seq() == old(reader).data_seq(),
        match res {
            Ok(c) => if freq_index == 15 {
                old(reader).rem().len() >= 3 && c == ((u24_of(old(reader).rem()[0], old(reader).rem()[1], old(reader).rem()[2]) >> 4u32) & 0x0Fu32) as u8
                    && final(reader).pos() == old(reader).pos() + 3 && final(reader).rem() == old(reader).rem().skip(3)
            } else if extended_profile {
                old(reader).rem().len() >= 1 && c == ((byte_b & 1u8) << 3u8) | (old(reader).rem()[0] >> 5u8)
                    && final(reader).pos() == old(reader).pos() + 1 && final(reader).rem() == old(reader).rem().skip(1)
            } else {
                c == (byte_b >> 3u8) & 0x0Fu8 && final(reader).pos() == old(reader).pos() && final(reader).rem()
                    == old(reader).rem()
            },
            Err(e) => e == Error::IoError && if freq_index == 15 {
                old(reader).rem().len() < 3
            } else {
                extended_profile && old(reader).rem().len() < 1
            },
        },
{
    if freq_index == 15 {
        let sample_rate = reader.read_u24()?;
        Ok(((sample_rate >> 4) & 0x0F) as u8)
    } else if extended_profile {
        let byte_c = reader.read_u8()?;
        Ok((byte_b & 1) << 3 | (byte_c >> 5))
    } else {
        Ok((byte_b >> 3) & 0x0F)
    }
}

impl DecoderSpecificDescriptor {
    /// The descriptor of an AAC configuration.
    pub fn new(config: &AacConfig) -> (d: Self)
        ensures
            d == (DecoderSpecificDescriptor {
                profile: audio_object_type_code(config.profile),
                freq_index: sample_freq_index_code(config.freq_index),
                chan_conf: channel_config_code(config.chan_conf),
            }),
    {
        DecoderSpecificDescriptor {
            profile: config.profile.code(),
            freq_index: config.freq_index.code(),
            chan_conf: config.chan_conf.code(),
        }
    }

    /// The tag of the descriptor.
    pub fn desc_tag() -> (t: u8)
        ensures
            t == 0x05,
    {
        0x05
    }

    /// The length of the body.
    pub fn desc_size(&self) -> (n: u32)
        ensures
            n == dec_specific_size(*self),
    {
        if self.profile < 31 {
            2
        } else {
            3
        }
    }

    /// Reads the body of the descriptor; its length is not consulted.
    pub fn read_desc(reader: &mut Reader, size: u32) -> (res: Result<Self>)
        ensures
            final(reader).data_seq() == old(reader).data_seq(),
            match res {
                Ok(d) => parse_dec_specific(old(reader).rem()) matches Ok((d2, n)) && d == d2 && final(reader).pos()
                    == old(reader).pos() + n && final(reader).rem() == old(reader).rem().skip(n),
                Err(e) => parse_dec_specific(old(reader).rem()) == Err::<(DecoderSpecificDescriptor, int), Error>(e),
            },
    {
        let ghost s = old(reader).rem();
        let byte_a = reader.read_u8()?;
        let byte_b = reader.read_u8()?;
        assert(reader.rem() =~= s.skip(2));
        let profile = get_audio_object_type(byte_a, byte_b);
        let freq_index;
        let chan_conf;
        if profile > 31 {
            freq_index = (byte_b >> 1) & 0x0F;
            chan_conf = get_chan_conf(reader, byte_b, freq_index, true)?;
        } else {
            assert(((byte_a & 0x07u8) << 1u8) + (byte_b >> 7u8) < 256) by (bit_vector);
            freq_index = ((byte_a & 0x07) << 1) + (byte_b >> 7);
            chan_conf = get_chan_conf(reader, byte_b, freq_index, false)?;
        }
        proof {
            if freq_index == 15 {
                assert(reader.rem() =~= s.skip(5));
            } else if profile > 31 {
                assert(reader.rem() =~= s.skip(3));
            }
        }
        Ok(DecoderSpecificDescriptor { profile, freq_index, chan_conf })
    }

    /// Whether the descriptor can be written: a profile of 31 cannot.
    pub open spec fn writable(&self) -> bool {
        self.profile != 31
    }

    /// Writes the descriptor, header included.
    pub fn write_desc(&self, writer: &mut Vec<u8>) -> (res: Result<u32>)
        requires
            self.writable(),
        ensures
            final(writer)@ == old(writer)@ + desc_header_bytes(0x05, dec_specific_size(*self)) + dec_specific_body(
                *self,
            ),
            res == Ok::<u32, Error>(dec_specific_size(*self)),
    {
        let size = self.desc_size();
        write_desc(writer, Self::desc_tag(), size)?;
        if self.profile < 31 {
            writer.push((self.profile << 3) | (self.freq_index >> 1));
            writer.push((self.freq_index << 7) | (self.chan_conf << 3));
        } else {
            let profile_minus_32 = self.profile - 32;
            writer.push(31u8 << 3 | profile_minus_32 >> 3);
            writer.push(profile_minus_32 << 5 | self.freq_index << 1 | self.chan_conf >> 7);
            writer.push((self.chan_conf & 7) << 5);
        }
        assert(final(writer)@ =~= old(writer)@ + desc_header_bytes(0x05, dec_specific_size(*self)) + dec_specific_body(*self));
        Ok(size)
    }
}

/// Reading back the body of a decoder-specific descriptor gives it back,
/// where its profile is below 31 or from 32 to 95, its frequency index below
/// 15 (15 announces an explicit sample rate) and its channel configuration
/// below 16, or below 8 for a profile from 32 on.
#[verifier::spinoff_prover]
pub proof fn lemma_dec_specific_roundtrip(d: DecoderSpecificDescriptor, rest: Seq<u8>)
    requires
        d.profile < 31 || 32 <= d.profile < 96,
        d.freq_index < 15,
        d.chan_conf < 16,
        d.profile >= 32 ==> d.chan_conf < 8,
    ensures
        dec_specific_body(d).len() == dec_specific_size(d),
        parse_dec_specific(dec_specific_body(d) + rest) == Ok::<(DecoderSpecificDescriptor, int), Error>(
            (d, dec_specific_size(d) as int),
        ),
{
    let s = dec_specific_body(d) + rest;
    let p = d.profile;
    let f = d.freq_index;
    let c = d.chan_conf;
    if p < 31 {
        let a = ((p << 3u8) | (f >> 1u8)) as u8;
        let b = ((f << 7u8) | (c << 3u8)) as u8;
        assert(s[0] == a && s[1] == b);
        assert(p < 31 && f < 15 && c < 16 ==> {
            let a = ((p << 3u8) | (f >> 1u8)) as u8;
            let b = ((f << 7u8) | (c << 3u8)) as u8;
            &&& a >> 3u8 == p
            &&& (((a & 0x07u8) << 1u8) + (b >> 7u8)) as u8 == f
            &&& (b >> 3u8) & 0x0Fu8 == c
        }) by (bit_vector);
    } else {
        let q = (p - 32) as u8;
        let a = ((31u8 << 3u8) | (q >> 3u8)) as u8;
        let b = ((q << 5u8) | (f << 1u8) | (c >> 7u8)) as u8;
        let e = ((c & 7u8) << 5u8) as u8;
        assert(s[0] == a && s[1] == b && s[2] == e);
        assert(q < 64 && f < 15 && c < 8 ==> {
            let a = ((31u8 << 3u8) | (q >> 3u8)) as u8;
            let b = ((q << 5u8) | (f << 1u8) | (c >> 7u8)) as u8;
            let e = ((c & 7u8) << 5u8) as u8;
            &&& a >> 3u8 == 31
            &&& (((a & 7u8) << 3u8) | (b >> 5u8)) == q
            &&& (b >> 1u8) & 0x0Fu8 == f
            &&& ((b & 1u8) << 3u8) | (e >> 5u8) == c
        }) by (bit_vector);
    }
}

/// The sync layer configuration of a stream, which holds nothing.
#[derive(Debug, Clone, Copy, PartialEq, Eq, Structural)]
pub struct SLConfigDescriptor {}

impl Default for SLConfigDescriptor {
    fn default() -> (d: Self)
        ensures
            d == (SLConfigDescriptor {}),
    {
        SLConfigDescriptor {}
    }
}

impl SLConfigDescriptor {
    pub fn new() -> (d: Self)
        ensures
            d == (SLConfigDescriptor {}),
    {
        SLConfigDescriptor {}
    }

    /// The tag of the descriptor.
    pub fn desc_tag() -> (t: u8)
        ensures
            t == 0x06,
    {
        0x06
    }

    /// The length of the body: one byte.
    pub fn desc_size(&self) -> (n: u32)
        ensures
            n == 1,
    {
        1
    }

    /// Reads the body: one predefined byte, which is not kept.
    pub fn read_desc(reader: &mut Reader, size: u32) -> (res: Result<Self>)
        ensures
            final(reader).data_seq() == old(reader).data_seq(),
            match res {
                Ok(d) => old(reader).rem().len() >= 1 && final(reader).pos() == old(reader).pos() + 1
                    && final(reader).rem() == old(reader).rem().skip(1),
                Err(e) => old(reader).rem().len() < 1 && e == Error::IoError,
            },
    {
        reader.read_u8()?;
        Ok(SLConfigDescriptor {})
    }

    /// Writes the descriptor, header included: its body is the byte 2.
    pub fn write_desc(&self, writer: &mut Vec<u8>) -> (res: Result<u32>)
        ensures
            final(writer)@ == old(writer)@ + desc_header_bytes(0x06, 1) + seq![2u8],
            res == Ok::<u32, Error>(1),
    {
        let size = self.desc_size();
        write_desc(writer, Self::desc_tag(), size)?;
        writer.push(2);
        Ok(size)
    }
}

/// The configuration of the decoder of an elementary stream.
#[derive(Debug, Clone, Copy, PartialEq, Eq, Structural)]
pub struct DecoderConfigDescriptor {
    pub object_type_indication: u8,
    pub stream_type: u8,
    pub up_stream: u8,
    pub buffer_size_db: u32,
    pub max_bitrate: u32,
    pub avg_bitrate: u32,
    pub dec_specific: DecoderSpecificDescriptor,
}

/// The decoder configuration of a stream that has none: all zero.
pub open spec fn no_dec_config() -> DecoderConfigDescriptor {
    DecoderConfigDescriptor {
        object_type_indication: 0,
        stream_type: 0,
        up_stream: 0,
        buffer_size_db: 0,
        max_bitrate: 0,
        avg_bitrate: 0,
        dec_specific: no_dec_specific(),
    }
}

impl Default for DecoderConfigDescriptor {
    fn default() -> (d: Self)
        ensures
            d == no_dec_config(),
    {
        DecoderConfigDescriptor {
            object_type_indication: 0,
            stream_type: 0,
            up_stream: 0,
            buffer_size_db: 0,
            max_bitrate: 0,
            avg_bitrate: 0,
            dec_specific: DecoderSpecificDescriptor::default(),
        }
    }
}

/// The value held by `o`, or `d` where it holds none.
pub open spec fn or_else<T>(o: Option<T>, d: T) -> T {
    match o {
        Some(x) => x,
        None => d,
    }
}

/// Reading the descriptors inside a decoder configuration from position `p`
/// of `d` while the position is before `end`, having found `found`: what is
/// found and where the reader stops. A decoder-specific descriptor is read,
/// a later one replacing an earlier; others are skipped.
pub open spec fn dec_config_scan(d: Seq<u8>, p: int, end: int, found: Option<DecoderSpecificDescriptor>) -> Result<
    (Option<DecoderSpecificDescriptor>, int),
>
    decreases (if p < end { end - p } else { 0 }),
{
    if p >= end {
        Ok((found, p))
    } else {
        match parse_desc_header(rest_at(d, p)) {
            Err(e) => Err(e),
            Ok((tag, sz, n)) => {
                proof {
                    lemma_desc_header_progress(rest_at(d, p));
                }
                if tag == 0x05 {
                    match parse_dec_specific(rest_at(d, p + n)) {
                        Err(e) => Err(e),
                        Ok((v, m)) => {
                            proof {
                                lemma_dec_specific_progress(rest_at(d, p + n));
                            }
                            dec_config_scan(d, p + n + m, end, Some(v))
                        },
                    }
                } else if p + n + sz > u64::MAX {
                    Err(Error::InvalidData("box end out of range"))
                } else {
                    dec_config_scan(d, p + n + sz, end, found)
                }
            },
        }
    }
}

/// A decoder-specific descriptor's body takes two, three or five bytes.
#[verifier::spinoff_prover]
pub proof fn lemma_dec_specific_progress(s: Seq<u8>)
    ensures
        parse_dec_specific(s) matches Ok((v, m)) ==> 2 <= m <= 5,
{
}

/// Scanning never moves the reader back.
#[verifier::spinoff_prover]
pub proof fn lemma_dec_config_scan_progress(d: Seq<u8>, p: int, end: int, found: Option<DecoderSpecificDescriptor>)
    ensures
        dec_config_scan(d, p, end, found) matches Ok((f, q)) ==> q >= p,
    decreases (if p < end { end - p } else { 0 }),
{
    if p < end {
        let s = rest_at(d, p);
        lemma_desc_header_progress(s);
        if let Ok((tag, sz, n)) = parse_desc_header(s) {
            if tag == 0x05 {
                lemma_dec_specific_progress(rest_at(d, p + n));
                if let Ok((v, m)) = parse_dec_specific(rest_at(d, p + n)) {
                    lemma_dec_config_scan_progress(d, p + n + m, end, Some(v));
                }
            } else if p + n + sz <= u64::MAX {
                lemma_dec_config_scan_progress(d, p + n + sz, end, found);
            }
        }
    }
}

/// The decoder configuration whose body, `size` bytes long, starts at
/// position `p` of `d`, and where the reader stops: 13 bytes of fields,
/// then descriptors up to the end of the body.
pub open spec fn parse_dec_config(d: Seq<u8>, p: int, size: u32) -> Result<(DecoderConfigDescriptor, int)> {
    let s = rest_at(d, p);
    if s.len() < 13 {
        Err(Error::IoError)
    } else if p + size > u64::MAX {
        Err(Error::InvalidData("box end out of range"))
    } else {
        match dec_config_scan(d, p + 13, p + size, None) {
            Err(e) => Err(e),
            Ok((found, q)) => Ok(
                (
                    DecoderConfigDescriptor {
                        object_type_indication: s[0],
                        stream_type: (s[1] & 0xFCu8) >> 2u8,
                        up_stream: s[1] & 0x02u8,
                        buffer_size_db: be24_at(s, 2),
                        max_bitrate: crate::mp4box::be32_at(s, 5),
                        avg_bitrate: crate::mp4box::be32_at(s, 9),
                        dec_specific: or_else(found, no_dec_specific()),
                    },
                    q,
                ),
            ),
        }
    }
}

/// The length of the body of a decoder configuration.
pub open spec fn dec_config_size(c: DecoderConfigDescriptor) -> u32 {
    (14 + length_size(dec_specific_size(c.dec_specific)) + dec_specific_size(c.dec_specific)) as u32
}

/// The byte that packs the stream type, the upstream flag and a reserved 1.
pub open spec fn dec_config_packed(c: DecoderConfigDescriptor) -> u8 {
    (((c.stream_type << 2u8) as u8) + (c.up_stream & 0x02u8) + 1) as u8
}

/// The encoding of a decoder configuration, header included.
pub open spec fn dec_config_bytes(c: DecoderConfigDescriptor) -> Seq<u8> {
    desc_header_bytes(0x04, dec_config_size(c)) + seq![c.object_type_indication, dec_config_packed(c)]
        + crate::bigendian::u24_bytes(c.buffer_size_db) + crate::bigendian::u32_bytes(c.max_bitrate)
        + crate::bigendian::u32_bytes(c.avg_bitrate) + desc_header_bytes(0x05, dec_specific_size(c.dec_specific))
        + dec_specific_body(c.dec_specific)
}

impl DecoderConfigDescriptor {
    /// The decoder configuration of an AAC stream: object type 0x40, stream
    /// type 5 (audio), both bitrates set to the configured one.
    pub fn new(config: &AacConfig) -> (c: Self)
        ensures
            c == (DecoderConfigDescriptor {
                object_type_indication: 0x40,
                stream_type: 0x05,
                up_stream: 0,
                buffer_size_db: 0,
                max_bitrate: config.bitrate,
                avg_bitrate: config.bitrate,
                dec_specific: DecoderSpecificDescriptor {
                    profile: audio_object_type_code(config.profile),
                    freq_index: sample_freq_index_code(config.freq_index),
                    chan_conf: channel_config_code(config.chan_conf),
                },
            }),
    {
        DecoderConfigDescriptor {
            object_type_indication: 0x40,
            stream_type: 0x05,
            up_stream: 0,
            buffer_size_db: 0,
            max_bitrate: config.bitrate,
            avg_bitrate: config.bitrate,
            dec_specific: DecoderSpecificDescriptor::new(config),
        }
    }

    /// The tag of the descriptor.
    pub fn desc_tag() -> (t: u8)
        ensures
            t == 0x04,
    {
        0x04
    }

    /// The length of the body.
    pub fn desc_size(&self) -> (n: u32)
        ensures
            n == dec_config_size(*self),
    {
        let dec_specific_size = self.dec_specific.desc_size();
        13 + 1 + size_of_length(dec_specific_size) + dec_specific_size
    }

    /// Reads the body of the descriptor, `size` bytes long, and the
    /// descriptors inside it; the reader stops after the last of these.
    pub fn read_desc(reader: &mut Reader, size: u32) -> (res: Result<Self>)
        ensures
            final(reader).data_seq() == old(reader).data_seq(),
            match res {
                Ok(c) => parse_dec_config(old(reader).data_seq(), old(reader).pos(), size) == Ok::<
                    (DecoderConfigDescriptor, int),
                    Error,
                >((c, final(reader).pos())),
                Err(e) => parse_dec_config(old(reader).data_seq(), old(reader).pos(), size) matches Err(e2) && e
                    == e2,
            },
    {
        let ghost d = old(reader).data_seq();
        let ghost s = old(reader).rem();
        let start = reader.position();
        let object_type_indication = reader.read_u8()?;
        let byte_a = reader.read_u8()?;
        let stream_type = (byte_a & 0xFC) >> 2;
        let up_stream = byte_a & 0x02;
        let buffer_size_db = reader.read_u24()?;
        let max_bitrate = reader.read_u32()?;
        let avg_bitrate = reader.read_u32()?;
        assert(reader.rem() =~= s.skip(13));
        if size as u64 > u64::MAX - start {
            return Err(Error::InvalidData("box end out of range"));
        }
        let end = start + size as u64;
        let mut dec_specific: Option<DecoderSpecificDescriptor> = None;
        let mut current = reader.position();
        while current < end
            invariant
                reader.data_seq() == d,
                d == old(reader).data_seq(),
                start == old(reader).pos(),
                s == rest_at(d, start as int),
                s.len() >= 13,
                end == start + size,
                parse_dec_config(d, start as int, size) == match dec_config_scan(d, start + 13, end as int, None) {
                    Err(e) => Err(e),
                    Ok((found, q)) => Ok::<(DecoderConfigDescriptor, int), Error>(
                        (
                            DecoderConfigDescriptor {
                                object_type_indication: s[0],
                                stream_type: (s[1] & 0xFCu8) >> 2u8,
                                up_stream: s[1] & 0x02u8,
                                buffer_size_db: be24_at(s, 2),
                                max_bitrate: crate::mp4box::be32_at(s, 5),
                                avg_bitrate: crate::mp4box::be32_at(s, 9),
                                dec_specific: or_else(found, no_dec_specific()),
                            },
                            q,
                        ),
                    ),
                },
                object_type_indication == s[0],
                stream_type == (s[1] & 0xFCu8) >> 2u8,
                up_stream == s[1] & 0x02u8,
                buffer_size_db == be24_at(s, 2),
                max_bitrate == crate::mp4box::be32_at(s, 5),
                avg_bitrate == crate::mp4box::be32_at(s, 9),
                current == reader.pos(),
                dec_config_scan(d, start + 13, end as int, None) == dec_config_scan(
                    d,
                    current as int,
                    end as int,
                    dec_specific,
                ),
            decreases (if current < end { end - current } else { 0 }),
        {
            assert(reader.rem() == rest_at(d, current as int));
            let (desc_tag, desc_size) = read_desc(reader)?;
            proof {
                lemma_desc_header_progress(rest_at(d, current as int));
            }
            assert(reader.rem() == rest_at(d, reader.pos()));
            if desc_tag == 0x05 {
                dec_specific = Some(DecoderSpecificDescriptor::read_desc(reader, desc_size)?);
                proof {
                    lemma_dec_specific_progress(rest_at(d, current + (reader.pos() - current)));
                }
            } else {
                skip_bytes(reader, desc_size as u64)?;
            }
            current = reader.position();
        }
        let dec_specific = match dec_specific {
            Some(x) => x,
            None => DecoderSpecificDescriptor::default(),
        };
        Ok(DecoderConfigDescriptor {
            object_type_indication,
            stream_type,
            up_stream,
            buffer_size_db,
            max_bitrate,
            avg_bitrate,
            dec_specific,
        })
    }

    /// Whether the descriptor can be written: the buffer size fits in 24
    /// bits and the decoder-specific descriptor can be written.
    pub open spec fn writable(&self) -> bool {
        self.buffer_size_db < 0x1000000 && self.dec_specific.writable()
    }

    /// Writes the descriptor, header included.
    pub fn write_desc(&self, writer: &mut Vec<u8>) -> (res: Result<u32>)
        requires
            self.writable(),
        ensures
            final(writer)@ == old(writer)@ + dec_config_bytes(*self),
            res == Ok::<u32, Error>(dec_config_size(*self)),
    {
        let size = self.desc_size();
        write_desc(writer, Self::desc_tag(), size)?;
        writer.push(self.object_type_indication);
        let st = self.stream_type;
        let up = self.up_stream;
        assert(((st << 2u8) as u8) + (up & 0x02u8) + 1 <= 255) by (bit_vector);
        writer.push((self.stream_type << 2) + (self.up_stream & 0x02) + 1);
        be_write_u24(writer, self.buffer_size_db);
        be_write_u32(writer, self.max_bitrate);
        be_write_u32(writer, self.avg_bitrate);
        self.dec_specific.write_desc(writer)?;
        assert(final(writer)@ =~= old(writer)@ + dec_config_bytes(*self));
        Ok(size)
    }
}

/// Scanning a decoder configuration ends after its 13 bytes of fields.
#[verifier::spinoff_prover]
pub proof fn lemma_dec_config_progress(d: Seq<u8>, p: int, size: u32)
    ensures
        parse_dec_config(d, p, size) matches Ok((c, q)) ==> q >= p + 13,
{
    lemma_dec_config_scan_progress(d, p + 13, p + size, None);
}

/// The descriptor of an elementary stream: its id, its decoder
/// configuration and its sync layer configuration.
#[derive(Debug, Clone, Copy, PartialEq, Eq, Structural)]
pub struct ESDescriptor {
    pub es_id: u16,
    pub dec_config: DecoderConfigDescriptor,
    pub sl_config: SLConfigDescriptor,
}

impl Default for ESDescriptor {
    fn default() -> (d: Self)
        ensures
            d == (ESDescriptor { es_id: 0, dec_config: no_dec_config(), sl_config: SLConfigDescriptor {} }),
    {
        ESDescriptor { es_id: 0, dec_config: DecoderConfigDescriptor::default(), sl_config: SLConfigDescriptor {} }
    }
}

/// Reading the descriptors inside an elementary stream descriptor from
/// position `p` of `d` while the position is before `end`, having found
/// `found`: the decoder configuration found and where the reader stops. A
/// decoder configuration is read, a later one replacing an earlier; a sync
/// layer configuration is read (its one byte); others are skipped.
pub open spec fn es_scan(d: Seq<u8>, p: int, end: int, found: Option<DecoderConfigDescriptor>) -> Result<
    (Option<DecoderConfigDescriptor>, int),
>
    decreases (if p < end { end - p } else { 0 }),
{
    if p >= end {
        Ok((found, p))
    } else {
        match parse_desc_header(rest_at(d, p)) {
            Err(e) => Err(e),
            Ok((tag, sz, n)) => {
                proof {
                    lemma_desc_header_progress(rest_at(d, p));
                }
                if tag == 0x04 {
                    match parse_dec_config(d, p + n, sz) {
                        Err(e) => Err(e),
                        Ok((v, q)) => {
                            proof {
                                lemma_dec_config_progress(d, p + n, sz);
                            }
                            es_scan(d, q, end, Some(v))
                        },
                    }
                } else if tag == 0x06 {
                    if rest_at(d, p + n).len() < 1 {
                        Err(Error::IoError)
                    } else {
                        es_scan(d, p + n + 1, end, found)
                    }
                } else if p + n + sz > u64::MAX {
                    Err(Error::InvalidData("box end out of range"))
                } else {
                    es_scan(d, p + n + sz, end, found)
                }
            },
        }
    }
}

/// Scanning never moves the reader back.
#[verifier::spinoff_prover]
pub proof fn lemma_es_scan_progress(d: Seq<u8>, p: int, end: int, found: Option<DecoderConfigDescriptor>)
    ensures
        es_scan(d, p, end, found) matches Ok((f, q)) ==> q >= p,
    decreases (if p < end { end - p } else { 0 }),
{
    if p < end {
        let s = rest_at(d, p);
        lemma_desc_header_progress(s);
        if let Ok((tag, sz, n)) = parse_desc_header(s) {
            if tag == 0x04 {
                lemma_dec_config_progress(d, p + n, sz);
                if let Ok((v, q)) = parse_dec_config(d, p + n, sz) {
                    lemma_es_scan_progress(d, q, end, Some(v));
                }
            } else if tag == 0x06 {
                if rest_at(d, p + n).len() >= 1 {
                    lemma_es_scan_progress(d, p + n + 1, end, found);
                }
            } else if p + n + sz <= u64::MAX {
                lemma_es_scan_progress(d, p + n + sz, end, found);
            }
        }
    }
}

/// The elementary stream descriptor whose body, `size` bytes long, starts
/// at position `p` of `d`, and where the reader stops: the id, a flags byte
/// that is not kept, then descriptors up to the end of the body.
pub open spec fn parse_es(d: Seq<u8>, p: int, size: u32) -> Result<(ESDescriptor, int)> {
    let s = rest_at(d, p);
    if s.len() < 3 {
        Err(Error::IoError)
    } else if p + size > u64::MAX {
        Err(Error::InvalidData("box end out of range"))
    } else {
        match es_scan(d, p + 3, p + size, None) {
            Err(e) => Err(e),
            Ok((found, q)) => Ok(
                (
                    ESDescriptor {
                        es_id: crate::mp4box::be16_at(s, 0),
                        dec_config: or_else(found, no_dec_config()),
                        sl_config: SLConfigDescriptor {},
                    },
                    q,
                ),
            ),
        }
    }
}

/// Scanning an elementary stream descriptor ends after its id and flags.
#[verifier::spinoff_prover]
pub proof fn lemma_es_progress(d: Seq<u8>, p: int, size: u32)
    ensures
        parse_es(d, p, size) matches Ok((c, q)) ==> q >= p + 3,
{
    lemma_es_scan_progress(d, p + 3, p + size, None);
}

/// The length of the body of an elementary stream descriptor.
pub open spec fn es_size(e: ESDescriptor) -> u32 {
    (3 + 1 + length_size(dec_config_size(e.dec_config)) + dec_config_size(e.dec_config) + 1 + length_size(1) + 1) as u32
}

/// The encoding of an elementary stream descriptor, header included.
pub open spec fn es_bytes(e: ESDescriptor) -> Seq<u8> {
    desc_header_bytes(0x03, es_size(e)) + crate::bigendian::u16_bytes(e.es_id) + seq![0u8] + dec_config_bytes(
        e.dec_config,
    ) + desc_header_bytes(0x06, 1) + seq![2u8]
}

impl ESDescriptor {
    /// The descriptor of an AAC stream with id 1.
    pub open spec fn new_spec(config: &AacConfig) -> ESDescriptor {
        ESDescriptor {
            es_id: 1,
            dec_config: DecoderConfigDescriptor {
                object_type_indication: 0x40,
                stream_type: 0x05,
                up_stream: 0,
                buffer_size_db: 0,
                max_bitrate: config.bitrate,
                avg_bitrate: config.bitrate,
                dec_specific: DecoderSpecificDescriptor {
                    profile: audio_object_type_code(config.profile),
                    freq_index: sample_freq_index_code(config.freq_index),
                    chan_conf: channel_config_code(config.chan_conf),
                },
            },
            sl_config: SLConfigDescriptor {},
        }
    }

    /// The descriptor of an AAC stream with id 1.
    pub fn new(config: &AacConfig) -> (e: Self)
        ensures
            e.es_id == 1,
            e.dec_config == (DecoderConfigDescriptor {
                object_type_indication: 0x40,
                stream_type: 0x05,
                up_stream: 0,
                buffer_size_db: 0,
                max_bitrate: config.bitrate,
                avg_bitrate: config.bitrate,
                dec_specific: DecoderSpecificDescriptor {
                    profile: audio_object_type_code(config.profile),
                    freq_index: sample_freq_index_code(config.freq_index),
                    chan_conf: channel_config_code(config.chan_conf),
                },
            }),
            e.sl_config == (SLConfigDescriptor {}),
    {
        ESDescriptor {
            es_id: 1,
            dec_config: DecoderConfigDescriptor::new(config),
            sl_config: SLConfigDescriptor::new(),
        }
    }

    /// The tag of the descriptor.
    pub fn desc_tag() -> (t: u8)
        ensures
            t == 0x03,
    {
        0x03
    }

    /// The length of the body.
    pub fn desc_size(&self) -> (n: u32)
        ensures
            n == es_size(*self),
    {
        let dec_config_size = self.dec_config.desc_size();
        let sl_config_size = self.sl_config.desc_size();
        3 + 1 + size_of_length(dec_config_size) + dec_config_size + 1 + size_of_length(sl_config_size)
            + sl_config_size
    }

    /// Reads the body of the descriptor, `size` bytes long, and the
    /// descriptors inside it; the reader stops after the last of these.
    pub fn read_desc(reader: &mut Reader, size: u32) -> (res: Result<Self>)
        ensures
            final(reader).data_seq() == old(reader).data_seq(),
            match res {
                Ok(c) => parse_es(old(reader).data_seq(), old(reader).pos(), size) == Ok::<(ESDescriptor, int), Error>(
                    (c, final(reader).pos()),
                ),
                Err(e) => parse_es(old(reader).data_seq(), old(reader).pos(), size) matches Err(e2) && e == e2,
            },
    {
        let ghost d = old(reader).data_seq();
        let ghost s = old(reader).rem();
        let start = reader.position();
        let es_id = reader.read_u16()?;
        reader.read_u8()?;
        assert(reader.rem() =~= s.skip(3));
        if size as u64 > u64::MAX - start {
            return Err(Error::InvalidData("box end out of range"));
        }
        let end = start + size as u64;
        let mut dec_config: Option<DecoderConfigDescriptor> = None;
        let mut current = reader.position();
        while current < end
            invariant
                reader.data_seq() == d,
                d == old(reader).data_seq(),
                start == old(reader).pos(),
                s == rest_at(d, start as int),
                s.len() >= 3,
                end == start + size,
                es_id == crate::mp4box::be16_at(s, 0),
                current == reader.pos(),
                es_scan(d, start + 3, end as int, None) == es_scan(d, current as int, end as int, dec_config),
            decreases (if current < end { end - current } else { 0 }),
        {
            assert(reader.rem() == rest_at(d, current as int));
            let (desc_tag, desc_size) = read_desc(reader)?;
            proof {
                lemma_desc_header_progress(rest_at(d, current as int));
            }
            assert(reader.rem() == rest_at(d, reader.pos()));
            if desc_tag == 0x04 {
                let ghost q0 = reader.pos();
                dec_config = Some(DecoderConfigDescriptor::read_desc(reader, desc_size)?);
                proof {
                    lemma_dec_config_progress(d, q0, desc_size);
                }
            } else if desc_tag == 0x06 {
                SLConfigDescriptor::read_desc(reader, desc_size)?;
            } else {
                skip_bytes(reader, desc_size as u64)?;
            }
            current = reader.position();
        }
        let dec_config = match dec_config {
            Some(x) => x,
            None => DecoderConfigDescriptor::default(),
        };
        Ok(ESDescriptor { es_id, dec_config, sl_config: SLConfigDescriptor {} })
    }

    /// Whether the descriptor can be written.
    pub open spec fn writable(&self) -> bool {
        self.dec_config.writable()
    }

    /// Writes the descriptor, header included.
    pub fn write_desc(&self, writer: &mut Vec<u8>) -> (res: Result<u32>)
        requires
            self.writable(),
        ensures
            final(writer)@ == old(writer)@ + es_bytes(*self),
            res == Ok::<u32, Error>(es_size(*self)),
    {
        let size = self.desc_size();
        write_desc(writer, Self::desc_tag(), size)?;
        be_write_u16(writer, self.es_id);
        writer.push(0);
        self.dec_config.write_desc(writer)?;
        self.sl_config.write_desc(writer)?;
        assert(final(writer)@ =~= old(writer)@ + es_bytes(*self));
        Ok(size)
    }
}


/// Whether the encoding of a decoder-specific descriptor keeps all of it:
/// a profile below 31 or from 32 to 95, a frequency index below 15 and a
/// channel configuration below 16, or below 8 for a profile from 32 on.
pub open spec fn dec_specific_kept(x: DecoderSpecificDescriptor) -> bool {
    &&& x.profile < 31 || 32 <= x.profile < 96
    &&& x.freq_index < 15
    &&& x.chan_conf < 16
    &&& x.profile >= 32 ==> x.chan_conf < 8
}

/// Whether the encoding of a decoder configuration keeps all of it: a
/// stream type below 64, an upstream flag of 0 or 2 (the bit it is kept
/// in), a buffer size below 2^24 and a decoder-specific descriptor that is
/// kept.
pub open spec fn dec_config_kept(c: DecoderConfigDescriptor) -> bool {
    &&& c.stream_type < 64
    &&& c.up_stream == 0 || c.up_stream == 2
    &&& c.buffer_size_db < 0x1000000
    &&& dec_specific_kept(c.dec_specific)
}

/// The encoding of a decoder configuration after its header.
pub open spec fn dec_config_body(c: DecoderConfigDescriptor) -> Seq<u8> {
    seq![c.object_type_indication, dec_config_packed(c)] + (crate::bigendian::u24_bytes(c.buffer_size_db) + (
    crate::bigendian::u32_bytes(c.max_bitrate) + (crate::bigendian::u32_bytes(c.avg_bitrate) + (desc_header_bytes(
        0x05,
        dec_specific_size(c.dec_specific),
    ) + dec_specific_body(c.dec_specific)))))
}

/// Where the encoding of a descriptor stands from position `p` of `d`, the
/// bytes from any later position within it.
proof fn lemma_rest_at_skip(d: Seq<u8>, p: int, k: int)
    requires
        0 <= p,
        0 <= k,
        p + k <= d.len(),
    ensures
        rest_at(d, p + k) == rest_at(d, p).skip(k),
{
    assert(d.skip(p + k) =~= d.skip(p).skip(k));
}

/// The packed byte of a decoder configuration gives back its stream type
/// and upstream flag.
proof fn lemma_dec_config_packed(c: DecoderConfigDescriptor)
    requires
        c.stream_type < 64,
        c.up_stream == 0 || c.up_stream == 2,
    ensures
        (dec_config_packed(c) & 0xFCu8) >> 2u8 == c.stream_type,
        dec_config_packed(c) & 0x02u8 == c.up_stream,
{
    let st = c.stream_type;
    let up = c.up_stream;
    assert(st < 64 && (up == 0 || up == 2) ==> {
        let b = (((st << 2u8) as u8) + (up & 0x02u8) + 1) as u8;
        (b & 0xFCu8) >> 2u8 == st && b & 0x02u8 == up
    }) by (bit_vector);
}

/// The body of an encoded decoder configuration takes as many bytes as its
/// length, which fits in one byte of the descriptor header.
pub proof fn lemma_dec_config_len(c: DecoderConfigDescriptor)
    ensures
        dec_config_body(c).len() == dec_config_size(c),
        dec_config_size(c) < 0x80,
{
    let dss = dec_specific_size(c.dec_specific);
    assert(length_size(dss) == 1);
    assert(desc_header_bytes(0x05, dss).len() == 2);
    assert(dec_specific_body(c.dec_specific).len() == dss);
}

/// Reading back the body of an encoded decoder configuration, from
/// position `p` of `d`, gives it back and stops at its end, where its
/// encoding keeps all of it.
#[verifier::spinoff_prover]
#[verifier::rlimit(40)]
pub proof fn lemma_dec_config_roundtrip(c: DecoderConfigDescriptor, d: Seq<u8>, p: int, r: Seq<u8>)
    requires
        dec_config_kept(c),
        0 <= p <= d.len() <= u64::MAX,
        rest_at(d, p) == dec_config_body(c) + r,
    ensures
        dec_config_bytes(c) == desc_header_bytes(0x04, dec_config_size(c)) + dec_config_body(c),
        dec_config_body(c).len() == dec_config_size(c),
        dec_config_size(c) < 0x80,
        parse_dec_config(d, p, dec_config_size(c)) == Ok::<(DecoderConfigDescriptor, int), Error>(
            (c, p + dec_config_size(c)),
        ),
{
    let x = c.dec_specific;
    let dss = dec_specific_size(x);
    let body = dec_config_body(c);
    let size = dec_config_size(c);
    let s = rest_at(d, p);
    lemma_dec_specific_roundtrip(x, r);
    lemma_desc_header_roundtrip(0x05, dss, dec_specific_body(x) + r);
    assert(length_size(dss) == 1);
    assert(dec_config_bytes(c) =~= desc_header_bytes(0x04, size) + body);
    assert(body.len() == size);
    lemma_rest_at_skip(d, p, 13);
    lemma_rest_at_skip(d, p, 15);
    assert(s.skip(13) =~= desc_header_bytes(0x05, dss) + (dec_specific_body(x) + r));
    assert(s.skip(15) =~= dec_specific_body(x) + r);
    assert(parse_desc_header(rest_at(d, p + 13)) == Ok::<(u8, u32, int), Error>((0x05u8, dss, 2)));
    assert(parse_dec_specific(rest_at(d, p + 13 + 2)) == Ok::<(DecoderSpecificDescriptor, int), Error>(
        (x, dss as int),
    ));
    assert(p + 13 + 2 + dss == p + size);
    assert(dec_config_scan(d, p + size, p + size, Some(x)) == Ok::<(Option<DecoderSpecificDescriptor>, int), Error>(
        (Some(x), p + size),
    ));
    assert(dec_config_scan(d, p + 13, p + size, None) == Ok::<(Option<DecoderSpecificDescriptor>, int), Error>(
        (Some(x), p + size),
    ));
    lemma_dec_config_packed(c);
    crate::bigendian::lemma_u24_roundtrip(c.buffer_size_db);
    let u24 = crate::bigendian::u24_bytes(c.buffer_size_db);
    let m1 = crate::bigendian::u32_bytes(c.max_bitrate);
    let m2 = crate::bigendian::u32_bytes(c.avg_bitrate);
    let tail = desc_header_bytes(0x05, dss) + dec_specific_body(x) + r;
    let pre = seq![c.object_type_indication, dec_config_packed(c)];
    assert(s =~= (pre + u24) + (m1 + (m2 + tail)));
    crate::mp4box::lemma_be32_at_word(pre + u24, c.max_bitrate, m2 + tail);
    assert(s =~= (pre + u24 + m1) + (m2 + tail));
    crate::mp4box::lemma_be32_at_word(pre + u24 + m1, c.avg_bitrate, tail);
    assert(s[2] == u24[0] && s[3] == u24[1] && s[4] == u24[2]);
}

/// The encoding of an elementary stream descriptor after its header.
pub open spec fn es_body(e: ESDescriptor) -> Seq<u8> {
    crate::bigendian::u16_bytes(e.es_id) + (seq![0u8] + (dec_config_bytes(e.dec_config) + (desc_header_bytes(0x06, 1)
        + seq![2u8])))
}

/// Reading back the body of an encoded elementary stream descriptor, from
/// position `p` of `d`, gives it back and stops at its end, where the
/// encoding of its decoder configuration keeps all of it.
#[verifier::spinoff_prover]
#[verifier::rlimit(40)]
pub proof fn lemma_es_roundtrip(e: ESDescriptor, d: Seq<u8>, p: int, r: Seq<u8>)
    requires
        dec_config_kept(e.dec_config),
        0 <= p <= d.len() <= u64::MAX,
        rest_at(d, p) == es_body(e) + r,
    ensures
        es_bytes(e) == desc_header_bytes(0x03, es_size(e)) + es_body(e),
        es_body(e).len() == es_size(e),
        es_size(e) < 0x80,
        parse_es(d, p, es_size(e)) == Ok::<(ESDescriptor, int), Error>((e, p + es_size(e))),
{
    let c = e.dec_config;
    let cs = dec_config_size(c);
    let body = es_body(e);
    let size = es_size(e);
    let s = rest_at(d, p);
    let sl = desc_header_bytes(0x06, 1) + seq![2u8];
    lemma_rest_at_skip(d, p, 3);
    lemma_rest_at_skip(d, p, 5);
    assert(s.skip(5) =~= dec_config_body(c) + (sl + r)) by {
        lemma_dec_config_len(c);
        lemma_desc_header_roundtrip(0x04, cs, dec_config_body(c) + (sl + r));
        assert(s.skip(3) =~= desc_header_bytes(0x04, cs) + (dec_config_body(c) + (sl + r)));
    }
    lemma_dec_config_roundtrip(c, d, p + 5, sl + r);
    lemma_desc_header_roundtrip(0x04, cs, dec_config_body(c) + (sl + r));
    lemma_desc_header_roundtrip(0x06, 1, seq![2u8] + r);
    assert(es_bytes(e) =~= desc_header_bytes(0x03, size) + body);
    assert(s.skip(3) =~= desc_header_bytes(0x04, cs) + (dec_config_body(c) + (sl + r)));
    let q = p + 5 + cs;
    lemma_rest_at_skip(d, p, 5 + cs);
    assert(s.skip(5 + cs) =~= sl + r);
    assert(rest_at(d, q) =~= desc_header_bytes(0x06, 1) + (seq![2u8] + r));
    lemma_rest_at_skip(d, p, 5 + cs + 2);
    assert(parse_desc_header(rest_at(d, q)) == Ok::<(u8, u32, int), Error>((0x06u8, 1u32, 2)));
    assert(rest_at(d, q + 2).len() >= 1);
    assert(q + 2 + 1 == p + size);
    assert(es_scan(d, p + size, p + size, Some(c)) == Ok::<(Option<DecoderConfigDescriptor>, int), Error>(
        (Some(c), p + size),
    ));
    assert(es_scan(d, q, p + size, Some(c)) == Ok::<(Option<DecoderConfigDescriptor>, int), Error>(
        (Some(c), p + size),
    ));
    assert(parse_desc_header(rest_at(d, p + 3)) == Ok::<(u8, u32, int), Error>((0x04u8, cs, 2)));
    assert(es_scan(d, p + 3, p + size, None) == Ok::<(Option<DecoderConfigDescriptor>, int), Error>(
        (Some(c), p + size),
    ));
    crate::bigendian::lemma_u16_roundtrip(e.es_id);
}

} // verus!
