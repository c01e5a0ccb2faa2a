//! The event message box: a timed message for the application, with the
//! scheme and value that identify it.
use crate::bigendian::{be_write_u32, be_write_u64, group_take_lemmas, lemma_u24_roundtrip, u32_bytes, u64_bytes};
use crate::error::{Error, Result};
use crate::mp4box::{
    be24_at, be32_at, be64_at, box_result, box_start, ext_bytes, header_bytes, lemma_be32_at_word,
    lemma_be64_at_word, read_box_header_ext, read_outcome, skip_bytes_to, write_box_header_ext,
    BoxHeader, Mp4Box, ReadBox, WriteBox, HEADER_EXT_SIZE, HEADER_SIZE,
};
use crate::reader::{write_all, Reader};
use crate::text::{
    cstr_bytes, lemma_cstr_roundtrip, lemma_decoded_bytes, no_nul, parse_cstr, read_null_terminated_utf8_string,
    str_bytes, write_null_terminated_str,
};
use crate::types::BoxType;
use vstd::prelude::*;
use vstd::seq_lib::lemma_concat_associative;

verus! {

broadcast use group_take_lemmas;

#[derive(Debug, Clone, PartialEq, Eq, Default)]
pub struct EmsgBox {
    pub version: u8,
    pub flags: u32,
    pub timescale: u32,
    pub presentation_time: Option<u64>,
    pub presentation_time_delta: Option<u32>,
    pub event_duration: u32,
    pub id: u32,
    pub scheme_id_uri: String,
    pub value: String,
    pub message_data: Vec<u8>,
}

/// What an emsg box holds, as mathematical values.
pub struct EmsgBoxView {
    pub version: u8,
    pub flags: u32,
    pub timescale: u32,
    pub presentation_time: Option<u64>,
    pub presentation_time_delta: Option<u32>,
    pub event_duration: u32,
    pub id: u32,
    pub scheme_id_uri: Seq<char>,
    pub value: Seq<char>,
    pub message_data: Seq<u8>,
}

impl View for EmsgBox {
    type V = EmsgBoxView;

    open spec fn view(&self) -> EmsgBoxView {
        EmsgBoxView {
            version: self.version,
            flags: self.flags,
            timescale: self.timescale,
            presentation_time: self.presentation_time,
            presentation_time_delta: self.presentation_time_delta,
            event_duration: self.event_duration,
            id: self.id,
            scheme_id_uri: self.scheme_id_uri@,
            value: self.value@,
            message_data: self.message_data@,
        }
    }
}

/// The bytes that the times, duration and id take in version `v`.
pub open spec fn emsg_time_size(v: u8) -> int {
    if v == 0 {
        12
    } else {
        16
    }
}

/// The size of an emsg box of version 0 or 1 without its message.
pub open spec fn emsg_base_size(v: u8, scheme: Seq<char>, value: Seq<char>) -> int {
    16 + emsg_time_size(v) + str_bytes(scheme).len() + 1 + str_bytes(value).len() + 1
}

/// The size of the encoding of `b`.
pub open spec fn emsg_size(b: EmsgBoxView) -> int {
    emsg_base_size(b.version, b.scheme_id_uri, b.value) + b.message_data.len()
}

/// The box `head` with the message that a box `size` bytes long holds at
/// offset `p` of `s`.
pub open spec fn emsg_with_message(s: Seq<u8>, size: u64, head: EmsgBoxView, p: int) -> Result<EmsgBoxView> {
    let base = emsg_base_size(head.version, head.scheme_id_uri, head.value);
    if size < base {
        Err(Error::InvalidData("emsg box size too small"))
    } else if s.len() < p + (size - base) {
        Err(Error::IoError)
    } else {
        Ok(EmsgBoxView { message_data: s.subrange(p, p + (size - base)), ..head })
    }
}

/// The fields of a version 0 emsg box stored from the start of `t`, after
/// its version and flags, and the number of bytes they take: the two
/// strings, then the timescale, presentation time delta, duration and id.
pub open spec fn parse_emsg_v0(t: Seq<u8>, flags: u32) -> Result<(EmsgBoxView, int)> {
    match parse_cstr(t) {
        Err(e) => Err(e),
        Ok((scheme, n1)) => match parse_cstr(t.skip(n1)) {
            Err(e) => Err(e),
            Ok((value, n2)) => {
                let p = n1 + n2;
                if t.len() < p + 16 {
                    Err(Error::IoError)
                } else {
                    Ok(
                        (
                            EmsgBoxView {
                                version: 0,
                                flags,
                                timescale: be32_at(t, p),
                                presentation_time: None,
                                presentation_time_delta: Some(be32_at(t, p + 4)),
                                event_duration: be32_at(t, p + 8),
                                id: be32_at(t, p + 12),
                                scheme_id_uri: scheme,
                                value,
                                message_data: Seq::empty(),
                            },
                            p + 16,
                        ),
                    )
                }
            },
        },
    }
}

/// The fields of a version 1 emsg box stored from the start of `t`, after
/// its version and flags, and the number of bytes they take: the
/// timescale, presentation time, duration and id, then the two strings.
pub open spec fn parse_emsg_v1(t: Seq<u8>, flags: u32) -> Result<(EmsgBoxView, int)> {
    if t.len() < 20 {
        Err(Error::IoError)
    } else {
        match parse_cstr(t.skip(20)) {
            Err(e) => Err(e),
            Ok((scheme, n1)) => match parse_cstr(t.skip(20 + n1)) {
                Err(e) => Err(e),
                Ok((value, n2)) => Ok(
                    (
                        EmsgBoxView {
                            version: 1,
                            flags,
                            timescale: be32_at(t, 0),
                            presentation_time: Some(be64_at(t, 4)),
                            presentation_time_delta: None,
                            event_duration: be32_at(t, 12),
                            id: be32_at(t, 16),
                            scheme_id_uri: scheme,
                            value,
                            message_data: Seq::empty(),
                        },
                        20 + n1 + n2,
                    ),
                ),
            },
        }
    }
}

/// The fields of the emsg box whose body starts `s`, without its message,
/// and the offset at which its message starts.
pub open spec fn parse_emsg_head(s: Seq<u8>) -> Result<(EmsgBoxView, int)> {
    if s.len() < 4 {
        Err(Error::IoError)
    } else if s[0] == 0 || s[0] == 1 {
        let fields = if s[0] == 0 {
            parse_emsg_v0(s.skip(4), be24_at(s, 1))
        } else {
            parse_emsg_v1(s.skip(4), be24_at(s, 1))
        };
        match fields {
            Err(e) => Err(e),
            Ok((v, p)) => Ok((v, 4 + p)),
        }
    } else {
        Err(Error::InvalidData("version must be 0 or 1"))
    }
}

/// The emsg box that the body at the start of `s` encodes, in a box that is
/// `size` bytes long: its fields, then a message that fills the box.
pub open spec fn parse_emsg(s: Seq<u8>, size: u64) -> Result<EmsgBoxView> {
    match parse_emsg_head(s) {
        Err(e) => Err(e),
        Ok((head, p)) => emsg_with_message(s, size, head, p),
    }
}

/// The fields of `b` after its version and flags, in the order of its
/// version.
pub open spec fn emsg_payload(b: EmsgBoxView) -> Seq<u8> {
    if b.version == 0 {
        cstr_bytes(b.scheme_id_uri) + (cstr_bytes(b.value) + (u32_bytes(b.timescale) + (u32_bytes(
            b.presentation_time_delta->0,
        ) + (u32_bytes(b.event_duration) + (u32_bytes(b.id) + b.message_data)))))
    } else {
        u32_bytes(b.timescale) + (u64_bytes(b.presentation_time->0) + (u32_bytes(b.event_duration) + (
        u32_bytes(b.id) + (cstr_bytes(b.scheme_id_uri) + (cstr_bytes(b.value) + b.message_data)))))
    }
}

/// The encoding of an emsg box of version 0 or 1, header included.
pub open spec fn emsg_bytes(b: EmsgBoxView) -> Seq<u8> {
    header_bytes(BoxType::EmsgBox, emsg_size(b) as u64) + (ext_bytes(b.version, b.flags) + emsg_payload(b))
}

impl EmsgBox {
    /// The size of a box of version 0 or 1 without its message.
    fn size_without_message(version: u8, scheme_id_uri: &str, value: &str) -> (s: u64)
        requires
            version <= 1,
            emsg_base_size(version, scheme_id_uri@, value@) <= u64::MAX,
        ensures
            s == emsg_base_size(version, scheme_id_uri@, value@),
    {
        reveal(str_bytes);
        HEADER_SIZE + HEADER_EXT_SIZE + 4 + Self::time_size(version) + (scheme_id_uri.as_bytes().len() as u64
            + 1) + (value.as_bytes().len() as u64 + 1)
    }

    /// The bytes that the times, duration and id take in version 0 or 1.
    fn time_size(version: u8) -> (s: u64)
        requires
            version <= 1,
        ensures
            s == emsg_time_size(version),
    {
        if version == 0 {
            12
        } else {
            16
        }
    }

    /// The size of the message of a box `size` bytes long, or `None` where
    /// the box is smaller than its other fields.
    fn message_size(size: u64, version: u8, scheme_id_uri: &str, value: &str) -> (res: Option<u64>)
        requires
            version <= 1,
        ensures
            match res {
                Some(m) => size >= emsg_base_size(version, scheme_id_uri@, value@) && m == size
                    - emsg_base_size(version, scheme_id_uri@, value@),
                None => size < emsg_base_size(version, scheme_id_uri@, value@),
            },
    {
        reveal(str_bytes);
        let a = scheme_id_uri.as_bytes().len() as u64;
        let b = value.as_bytes().len() as u64;
        let fixed = HEADER_SIZE + HEADER_EXT_SIZE + 4 + Self::time_size(version) + 2;
        if a > size || b > size - a || fixed > size - a - b {
            None
        } else {
            Some(size - a - b - fixed)
        }
    }
}

/// Reads the fields of a version 0 emsg box after its version and flags.
fn read_emsg_v0(reader: &mut Reader, flags: u32) -> (res: Result<EmsgBox>)
    ensures
        final(reader).data_seq() == old(reader).data_seq(),
        match res {
            Ok(b) => parse_emsg_v0(old(reader).rem(), flags) matches Ok((h, p)) && b@ == h
                && final(reader).pos() == old(reader).pos() + p && final(reader).rem() == old(reader).rem().skip(p)
                && 0 <= p <= old(reader).rem().len(),
            Err(e) => parse_emsg_v0(old(reader).rem(), flags) == Err::<(EmsgBoxView, int), Error>(e),
        },
{
    let ghost t = old(reader).rem();
    let scheme_id_uri = read_null_terminated_utf8_string(reader)?;
    let ghost n1 = reader.pos() - old(reader).pos();
    let value = read_null_terminated_utf8_string(reader)?;
    let ghost n2 = reader.pos() - old(reader).pos() - n1;
    assert(reader.rem() =~= t.skip(n1 + n2));
    let timescale = reader.read_u32()?;
    let presentation_time_delta = reader.read_u32()?;
    let event_duration = reader.read_u32()?;
    let id = reader.read_u32()?;
    assert(reader.rem() =~= t.skip(n1 + n2 + 16));
    Ok(EmsgBox {
        version: 0,
        flags,
        timescale,
        presentation_time: None,
        presentation_time_delta: Some(presentation_time_delta),
        event_duration,
        id,
        scheme_id_uri,
        value,
        message_data: Vec::new(),
    })
}

/// Reads the fields of a version 1 emsg box after its version and flags.
fn read_emsg_v1(reader: &mut Reader, flags: u32) -> (res: Result<EmsgBox>)
    ensures
        final(reader).data_seq() == old(reader).data_seq(),
        match res {
            Ok(b) => parse_emsg_v1(old(reader).rem(), flags) matches Ok((h, p)) && b@ == h
                && final(reader).pos() == old(reader).pos() + p && final(reader).rem() == old(reader).rem().skip(p)
                && 0 <= p <= old(reader).rem().len(),
            Err(e) => parse_emsg_v1(old(reader).rem(), flags) == Err::<(EmsgBoxView, int), Error>(e),
        },
{
    let ghost t = old(reader).rem();
    let timescale = reader.read_u32()?;
    let presentation_time = reader.read_u64()?;
    assert(t.skip(4).take(8) =~= t.subrange(4, 12));
    let event_duration = reader.read_u32()?;
    let id = reader.read_u32()?;
    assert(reader.rem() =~= t.skip(20));
    let scheme_id_uri = read_null_terminated_utf8_string(reader)?;
    let ghost n1 = reader.pos() - old(reader).pos() - 20;
    assert(reader.rem() =~= t.skip(20 + n1));
    let value = read_null_terminated_utf8_string(reader)?;
    let ghost n2 = reader.pos() - old(reader).pos() - 20 - n1;
    assert(reader.rem() =~= t.skip(20 + n1 + n2));
    Ok(EmsgBox {
        version: 1,
        flags,
        timescale,
        presentation_time: Some(presentation_time),
        presentation_time_delta: None,
        event_duration,
        id,
        scheme_id_uri,
        value,
        message_data: Vec::new(),
    })
}

/// Reads the version and flags and the fields of an emsg box up to its
/// message.
fn read_emsg_head(reader: &mut Reader) -> (res: Result<EmsgBox>)
    ensures
        final(reader).data_seq() == old(reader).data_seq(),
        match res {
            Ok(b) => parse_emsg_head(old(reader).rem()) matches Ok((h, p)) && b@ == h
                && final(reader).pos() == old(reader).pos() + p && final(reader).rem() == old(reader).rem().skip(p)
                && b.version <= 1 && 0 <= p <= old(reader).rem().len(),
            Err(e) => parse_emsg_head(old(reader).rem()) == Err::<(EmsgBoxView, int), Error>(e),
        },
{
    let ghost s = old(reader).rem();
    let (version, flags) = read_box_header_ext(reader)?;
    let ghost t = reader.rem();
    if version == 0 {
        let b = read_emsg_v0(reader, flags)?;
        proof {
            let p = reader.pos() - old(reader).pos();
            assert(reader.rem() =~= s.skip(p));
        }
        Ok(b)
    } else if version == 1 {
        let b = read_emsg_v1(reader, flags)?;
        proof {
            let p = reader.pos() - old(reader).pos();
            assert(reader.rem() =~= s.skip(p));
        }
        Ok(b)
    } else {
        Err(Error::InvalidData("version must be 0 or 1"))
    }
}

/// Appends the fields of a version 0 box after its version and flags.
fn write_emsg_v0(writer: &mut Vec<u8>, b: &EmsgBox)
    requires
        b.version == 0,
        b.presentation_time_delta is Some,
    ensures
        final(writer)@ == old(writer)@ + emsg_payload(b@),
{
    let _ = write_null_terminated_str(writer, b.scheme_id_uri.as_str());
    let _ = write_null_terminated_str(writer, b.value.as_str());
    be_write_u32(writer, b.timescale);
    be_write_u32(writer, b.presentation_time_delta.unwrap());
    be_write_u32(writer, b.event_duration);
    be_write_u32(writer, b.id);
    write_all(writer, b.message_data.as_slice());
    assert(final(writer)@ =~= old(writer)@ + emsg_payload(b@));
}

/// Appends the fields of a version 1 box after its version and flags.
fn write_emsg_v1(writer: &mut Vec<u8>, b: &EmsgBox)
    requires
        b.version == 1,
        b.presentation_time is Some,
    ensures
        final(writer)@ == old(writer)@ + emsg_payload(b@),
{
    be_write_u32(writer, b.timescale);
    be_write_u64(writer, b.presentation_time.unwrap());
    be_write_u32(writer, b.event_duration);
    be_write_u32(writer, b.id);
    let _ = write_null_terminated_str(writer, b.scheme_id_uri.as_str());
    let _ = write_null_terminated_str(writer, b.value.as_str());
    write_all(writer, b.message_data.as_slice());
    assert(final(writer)@ =~= old(writer)@ + emsg_payload(b@));
}

impl Mp4Box for EmsgBox {
    open spec fn has_size(&self) -> bool {
        &&& self.version <= 1
        &&& emsg_size(self@) <= u64::MAX
    }

    fn box_type(&self) -> (t: BoxType)
        ensures
            t == BoxType::EmsgBox,
    {
        BoxType::EmsgBox
    }

    fn box_size(&self) -> (s: u64)
        ensures
            s == emsg_size(self@),
    {
        Self::size_without_message(self.version, self.scheme_id_uri.as_str(), self.value.as_str())
            + self.message_data.len() as u64
    }
}

impl ReadBox for EmsgBox {
    open spec fn size_accepted(size: u64) -> bool {
        true
    }

    /// Decodes the box; a box too small for its strings and times is
    /// refused as invalid data.
    #[verifier::spinoff_prover]
    fn read_box(reader: &mut Reader, size: u64) -> (res: Result<Self>)
        ensures
            res is Ok ==> final(reader).pos() == old(reader).pos() - HEADER_SIZE + size,
            read_outcome(res, box_result(parse_emsg(old(reader).rem(), size), old(reader).pos() - HEADER_SIZE, size)),
    {
        let ghost s = old(reader).rem();
        let start = box_start(reader);
        let head = read_emsg_head(reader)?;
        let ghost p = reader.pos() - old(reader).pos();
        let message_size = match Self::message_size(size, head.version, head.scheme_id_uri.as_str(), head.value.as_str()) {
            Some(m) => m,
            None => {
                return Err(Error::InvalidData("emsg box size too small"));
            },
        };
        let message_data = reader.read_bytes(message_size)?;
        proof {
            assert(message_data@ =~= s.subrange(p, p + message_size));
        }
        skip_bytes_to(reader, start, size)?;
        Ok(EmsgBox { message_data, ..head })
    }
}

impl WriteBox for EmsgBox {
    open spec fn writable(&self) -> bool {
        &&& self.flags < 0x1000000
        &&& self.has_size()
        &&& self.version == 0 ==> self.presentation_time_delta is Some
        &&& self.version == 1 ==> self.presentation_time is Some
    }

    #[verifier::spinoff_prover]
    fn write_box(&self, writer: &mut Vec<u8>) -> (res: Result<u64>)
        ensures
            final(writer)@ == old(writer)@ + emsg_bytes(self@),
            res == Ok::<u64, Error>(emsg_size(self@) as u64),
    {
        let size = self.box_size();
        BoxHeader::new(self.box_type(), size).write(writer)?;
        write_box_header_ext(writer, self.version, self.flags)?;
        if self.version == 0 {
            write_emsg_v0(writer, self);
        } else {
            write_emsg_v1(writer, self);
        }
        assert(final(writer)@ =~= old(writer)@ + emsg_bytes(self@));
        Ok(size)
    }
}

/// Decoding the body of an encoded emsg box gives the box back, for
/// version 0 with a presentation time delta or version 1 with a
/// presentation time, strings without NUL bytes and a box small enough for
/// a 32-bit size.
#[verifier::spinoff_prover]
#[verifier::rlimit(30)]
pub proof fn lemma_emsg_roundtrip(b: EmsgBoxView, rest: Seq<u8>)
    requires
        b.flags < 0x1000000,
        b.version == 0 ==> b.presentation_time is None && b.presentation_time_delta is Some,
        b.version == 1 ==> b.presentation_time is Some && b.presentation_time_delta is None,
        b.version <= 1,
        no_nul(b.scheme_id_uri),
        no_nul(b.value),
        emsg_size(b) <= u32::MAX,
    ensures
        emsg_bytes(b).len() == emsg_size(b),
        parse_emsg((emsg_bytes(b) + rest).skip(8), emsg_size(b) as u64) == Ok::<EmsgBoxView, Error>(b),
{
    lemma_u24_roundtrip(b.flags);
    let h = header_bytes(BoxType::EmsgBox, emsg_size(b) as u64);
    assert(h.len() == 8);
    let e = ext_bytes(b.version, b.flags);
    let t = emsg_payload(b) + rest;
    let cs = cstr_bytes(b.scheme_id_uri);
    let cv = cstr_bytes(b.value);
    lemma_cstr_roundtrip(b.scheme_id_uri, Seq::empty());
    lemma_cstr_roundtrip(b.value, Seq::empty());
    lemma_concat_associative(h, e + emsg_payload(b), rest);
    lemma_concat_associative(e, emsg_payload(b), rest);
    let s = (emsg_bytes(b) + rest).skip(8);
    assert(s =~= e + t);
    assert(s.skip(4) =~= t);
    assert(s[0] == b.version);
    assert(be24_at(s, 1) == b.flags);
    let m = b.message_data.len() as int;
    let p: int = if b.version == 0 {
        lemma_emsg_v0(b, rest);
        (str_bytes(b.scheme_id_uri).len() + 1 + str_bytes(b.value).len() + 1 + 16) as int
    } else {
        lemma_emsg_v1(b, rest);
        (20 + str_bytes(b.scheme_id_uri).len() + 1 + str_bytes(b.value).len() + 1) as int
    };
    assert(t.subrange(p, p + m) == b.message_data);
    assert(s.subrange(4 + p, 4 + p + m) =~= t.subrange(p, p + m));
    let head = EmsgBoxView { message_data: Seq::empty(), ..b };
    assert(parse_emsg_head(s) == Ok::<(EmsgBoxView, int), Error>((head, 4 + p)));
    assert(emsg_base_size(b.version, b.scheme_id_uri, b.value) + m == emsg_size(b));
    assert(EmsgBoxView { message_data: b.message_data, ..head } == b);
}

/// The version 1 fields of `b` are read back at their offsets.
#[verifier::spinoff_prover]
proof fn lemma_emsg_v1_words(b: EmsgBoxView, rest: Seq<u8>)
    requires
        b.version == 1,
    ensures
        be32_at(emsg_payload(b) + rest, 0) == b.timescale,
        be64_at(emsg_payload(b) + rest, 4) == b.presentation_time->0,
        be32_at(emsg_payload(b) + rest, 12) == b.event_duration,
        be32_at(emsg_payload(b) + rest, 16) == b.id,
        (emsg_payload(b) + rest).skip(20) == cstr_bytes(b.scheme_id_uri) + (cstr_bytes(b.value) + (
        b.message_data + rest)),
{
    let a = u32_bytes(b.timescale);
    let bb = u64_bytes(b.presentation_time->0);
    let c = u32_bytes(b.event_duration);
    let dd = u32_bytes(b.id);
    let tail = cstr_bytes(b.scheme_id_uri) + (cstr_bytes(b.value) + b.message_data);
    let t = emsg_payload(b) + rest;
    let r4 = tail + rest;
    lemma_concat_associative(cstr_bytes(b.scheme_id_uri), cstr_bytes(b.value) + b.message_data, rest);
    lemma_concat_associative(cstr_bytes(b.value), b.message_data, rest);
    let w = a + bb + c + dd;
    assert(emsg_payload(b) =~= w + tail);
    lemma_concat_associative(w, tail, rest);
    assert(t == w + r4);
    assert(t.skip(20) =~= r4);
    assert(be32_at(t, 0) == b.timescale) by {
        lemma_be32_at_word(Seq::empty(), b.timescale, bb + c + dd + r4);
        assert(Seq::<u8>::empty() + (a + (bb + c + dd + r4)) =~= t);
    }
    assert(be64_at(t, 4) == b.presentation_time->0) by {
        lemma_be64_at_word(a, b.presentation_time->0, c + dd + r4);
        assert(a + (bb + (c + dd + r4)) =~= t);
    }
    assert(be32_at(t, 12) == b.event_duration) by {
        lemma_be32_at_word(a + bb, b.event_duration, dd + r4);
        assert(a + bb + (c + (dd + r4)) =~= t);
    }
    assert(be32_at(t, 16) == b.id) by {
        lemma_be32_at_word(a + bb + c, b.id, r4);
        assert(a + bb + c + (dd + r4) =~= t);
    }
}

/// The version 0 fields of `b` after its strings are read back at their
/// offsets.
#[verifier::spinoff_prover]
proof fn lemma_emsg_v0_words(b: EmsgBoxView, rest: Seq<u8>)
    requires
        b.version == 0,
    ensures
        ({
            let t = emsg_payload(b) + rest;
            let p: int = (cstr_bytes(b.scheme_id_uri).len() + cstr_bytes(b.value).len()) as int;
            &&& t == cstr_bytes(b.scheme_id_uri) + (cstr_bytes(b.value) + (u32_bytes(b.timescale) + (
            u32_bytes(b.presentation_time_delta->0) + (u32_bytes(b.event_duration) + (u32_bytes(b.id) + (
            b.message_data + rest))))))
            &&& be32_at(t, p) == b.timescale
            &&& be32_at(t, p + 4) == b.presentation_time_delta->0
            &&& be32_at(t, p + 8) == b.event_duration
            &&& be32_at(t, p + 12) == b.id
            &&& t.skip(p + 16) == b.message_data + rest
        }),
{
    let cs = cstr_bytes(b.scheme_id_uri);
    let cv = cstr_bytes(b.value);
    let a = u32_bytes(b.timescale);
    let bb = u32_bytes(b.presentation_time_delta->0);
    let c = u32_bytes(b.event_duration);
    let dd = u32_bytes(b.id);
    let g = b.message_data;
    let t = emsg_payload(b) + rest;
    let pre = cs + cv;
    let m = pre.len() as int;
    let w = a + bb + c + dd;
    let r = g + rest;
    assert(emsg_payload(b) =~= pre + (w + g));
    lemma_concat_associative(pre, w + g, rest);
    lemma_concat_associative(w, g, rest);
    assert(t == pre + (w + r));
    assert(t =~= cs + (cv + (a + (bb + (c + (dd + r))))));
    assert(t.skip(m + 16) =~= r);
    assert(be32_at(t, m) == b.timescale) by {
        lemma_be32_at_word(pre, b.timescale, bb + c + dd + r);
        assert(pre + (a + (bb + c + dd + r)) =~= t);
    }
    assert(be32_at(t, m + 4) == b.presentation_time_delta->0) by {
        lemma_be32_at_word(pre + a, b.presentation_time_delta->0, c + dd + r);
        assert(pre + a + (bb + (c + dd + r)) =~= t);
    }
    assert(be32_at(t, m + 8) == b.event_duration) by {
        lemma_be32_at_word(pre + a + bb, b.event_duration, dd + r);
        assert(pre + a + bb + (c + (dd + r)) =~= t);
    }
    assert(be32_at(t, m + 12) == b.id) by {
        lemma_be32_at_word(pre + a + bb + c, b.id, r);
        assert(pre + a + bb + c + (dd + r) =~= t);
    }
}

#[verifier::spinoff_prover]
proof fn lemma_emsg_v0(b: EmsgBoxView, rest: Seq<u8>)
    requires
        b.version == 0,
        b.presentation_time is None,
        b.presentation_time_delta is Some,
        no_nul(b.scheme_id_uri),
        no_nul(b.value),
    ensures
        ({
            let t = emsg_payload(b) + rest;
            let p: int = (str_bytes(b.scheme_id_uri).len() + 1 + str_bytes(b.value).len() + 1 + 16) as int;
            &&& emsg_payload(b).len() == emsg_size(b) - 12
            &&& parse_emsg_v0(t, b.flags) == Ok::<(EmsgBoxView, int), Error>(
                (EmsgBoxView { message_data: Seq::empty(), ..b }, p),
            )
            &&& t.subrange(p, p + b.message_data.len() as int) == b.message_data
        }),
{
    let cs = cstr_bytes(b.scheme_id_uri);
    let cv = cstr_bytes(b.value);
    lemma_emsg_v0_words(b, rest);
    let t = emsg_payload(b) + rest;
    let r1 = u32_bytes(b.timescale) + (u32_bytes(b.presentation_time_delta->0) + (u32_bytes(b.event_duration)
        + (u32_bytes(b.id) + (b.message_data + rest))));
    lemma_cstr_roundtrip(b.scheme_id_uri, cv + r1);
    lemma_cstr_roundtrip(b.value, r1);
    let n1 = cs.len() as int;
    assert(t.skip(n1) =~= cv + r1);
    let q = (cs.len() + cv.len() + 16) as int;
    assert(t.subrange(q, q + b.message_data.len()) =~= b.message_data);
}

#[verifier::spinoff_prover]
proof fn lemma_emsg_v1(b: EmsgBoxView, rest: Seq<u8>)
    requires
        b.version == 1,
        b.presentation_time is Some,
        b.presentation_time_delta is None,
        no_nul(b.scheme_id_uri),
        no_nul(b.value),
    ensures
        ({
            let t = emsg_payload(b) + rest;
            let p: int = (20 + str_bytes(b.scheme_id_uri).len() + 1 + str_bytes(b.value).len() + 1) as int;
            &&& emsg_payload(b).len() == emsg_size(b) - 12
            &&& parse_emsg_v1(t, b.flags) == Ok::<(EmsgBoxView, int), Error>(
                (EmsgBoxView { message_data: Seq::empty(), ..b }, p),
            )
            &&& t.subrange(p, p + b.message_data.len() as int) == b.message_data
        }),
{
    let cs = cstr_bytes(b.scheme_id_uri);
    let cv = cstr_bytes(b.value);
    lemma_emsg_v1_words(b, rest);
    let t = emsg_payload(b) + rest;
    let r5 = cv + (b.message_data + rest);
    lemma_cstr_roundtrip(b.scheme_id_uri, r5);
    lemma_cstr_roundtrip(b.value, b.message_data + rest);
    let n1 = cs.len() as int;
    let n2 = cv.len() as int;
    assert(t.skip(20 + n1) =~= r5);
    let q = 20 + n1 + n2;
    assert(t.subrange(q, q + b.message_data.len()) =~= b.message_data);
}

} // verus!
