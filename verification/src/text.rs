//! Text fields: UTF-8 strings, and strings ended by a NUL byte.
use crate::error::{Error, Result};
use crate::reader::{write_all, Reader};
use vstd::prelude::*;
use vstd::utf8::{decode_utf8, decode_utf8_encode_utf8, encode_utf8, encode_utf8_decode_utf8, encode_utf8_valid_utf8, valid_utf8};

verus! {

/// Calls `String::from_utf8`, which succeeds exactly where the bytes are
/// valid UTF-8 and then holds the characters that they encode; the error
/// is turned into `None`.
#[verifier::external_body]
pub(crate) fn string_from_utf8(bytes: Vec<u8>) -> (res: Option<String>)
    ensures
        match res {
            Some(s) => valid_utf8(bytes@) && s@ == decode_utf8(bytes@),
            None => !valid_utf8(bytes@),
        },
{
    String::from_utf8(bytes).ok()
}

/// What `String::from_utf8_lossy` makes of the bytes `b`.
pub uninterp spec fn utf8_lossy(b: Seq<u8>) -> Seq<char>;

/// Calls `String::from_utf8_lossy`, which decodes `bytes`, each invalid
/// sequence replaced by U+FFFD; bytes that are valid UTF-8 decode to what
/// they encode.
#[verifier::external_body]
pub(crate) fn string_from_utf8_lossy(bytes: &[u8]) -> (s: String)
    ensures
        s@ == utf8_lossy(bytes@),
        valid_utf8(bytes@) ==> s@ == decode_utf8(bytes@),
{
    String::from_utf8_lossy(bytes).into_owned()
}

/// Whether `c` is an ASCII decimal digit.
pub open spec fn is_ascii_digit(c: char) -> bool {
    48 <= (c as int) <= 57
}

/// The value of the decimal digits `s`, most significant first.
pub open spec fn digits_value(s: Seq<char>) -> int
    decreases s.len(),
{
    if s.len() == 0 {
        0
    } else {
        digits_value(s.drop_last()) * 10 + ((s.last() as int) - 48)
    }
}

/// The number that the text `s` reads as: an optional `+`, then one or
/// more ASCII digits whose value fits in 32 bits; any other text reads as
/// nothing.
pub open spec fn u32_text(s: Seq<char>) -> Option<u32> {
    let t = if s.len() > 0 && s[0] == '+' {
        s.skip(1)
    } else {
        s
    };
    if t.len() > 0 && (forall|i: int| 0 <= i < t.len() ==> is_ascii_digit(#[trigger] t[i])) && digits_value(t)
        <= u32::MAX {
        Some(digits_value(t) as u32)
    } else {
        None
    }
}

/// Calls `str::parse::<u32>`, which accepts an optional `+` followed by
/// one or more ASCII digits whose value fits in a `u32`, and refuses any
/// other text (empty, a sign alone, a `-`, another character, or a value
/// too large); the error is turned into `None`.
#[verifier::external_body]
pub(crate) fn parse_u32(s: &str) -> (r: Option<u32>)
    ensures
        r == u32_text(s@),
{
    s.parse::<u32>().ok()
}

/// The UTF-8 bytes of a string.
#[verifier::opaque]
pub open spec fn str_bytes(s: Seq<char>) -> Seq<u8> {
    encode_utf8(s)
}

/// Whether a string's bytes hold no NUL byte.
pub open spec fn no_nul(s: Seq<char>) -> bool {
    forall|j: int| 0 <= j < str_bytes(s).len() ==> str_bytes(s)[j] != 0
}

/// Whether `i` is the index of the first NUL byte of `s`.
pub open spec fn is_first_nul(s: Seq<u8>, i: int) -> bool {
    &&& 0 <= i < s.len()
    &&& s[i] == 0
    &&& forall|j: int| 0 <= j < i ==> s[j] != 0
}

/// The index of the first NUL byte of `s`, if it has one.
pub open spec fn first_nul(s: Seq<u8>) -> Option<int> {
    if exists|i: int| is_first_nul(s, i) {
        Some(choose|i: int| is_first_nul(s, i))
    } else {
        None
    }
}

/// The NUL-terminated UTF-8 string at the start of `s` and the number of
/// bytes it takes with its NUL: an I/O error where no NUL follows, invalid
/// data where the bytes before it are not UTF-8.
#[verifier::opaque]
pub open spec fn parse_cstr(s: Seq<u8>) -> Result<(Seq<char>, int)> {
    match first_nul(s) {
        None => Err(Error::IoError),
        Some(i) => if valid_utf8(s.take(i)) {
            Ok((decode_utf8(s.take(i)), i + 1))
        } else {
            Err(Error::InvalidData("invalid utf8"))
        },
    }
}

/// The bytes of `s` followed by a NUL byte.
pub open spec fn cstr_bytes(s: Seq<char>) -> Seq<u8> {
    str_bytes(s) + seq![0u8]
}

/// The first NUL is unique.
#[verifier::spinoff_prover]
pub proof fn lemma_first_nul(s: Seq<u8>, i: int)
    requires
        is_first_nul(s, i),
    ensures
        first_nul(s) == Some(i),
{
    let k = choose|k: int| is_first_nul(s, k);
    assert(is_first_nul(s, k));
    if k < i {
        assert(s[k] != 0);
    } else if k > i {
        assert(s[i] != 0);
    }
}

/// Reads bytes up to and including the first NUL byte, and decodes those
/// before it as UTF-8.
pub fn read_null_terminated_utf8_string(reader: &mut Reader) -> (res: Result<String>)
    ensures
        final(reader).data_seq() == old(reader).data_seq(),
        match res {
            Ok(st) => parse_cstr(old(reader).rem()) matches Ok((c, n)) && st@ == c
                && final(reader).rem() == old(reader).rem().skip(n) && final(reader).pos() == old(reader).pos() + n
                && 0 < n <= old(reader).rem().len(),
            Err(e) => parse_cstr(old(reader).rem()) == Err::<(Seq<char>, int), Error>(e),
        },
{
    reveal(parse_cstr);
    let ghost s = old(reader).rem();
    let mut bytes: Vec<u8> = Vec::new();
    loop
        invariant
            reader.data_seq() == old(reader).data_seq(),
            s == old(reader).rem(),
            bytes@.len() <= s.len(),
            bytes@ == s.take(bytes@.len() as int),
            forall|j: int| 0 <= j < bytes@.len() ==> s[j] != 0,
            reader.rem() == s.skip(bytes@.len() as int),
            reader.pos() == old(reader).pos() + bytes@.len(),
        decreases s.len() - bytes@.len(),
    {
        proof {
            reveal(parse_cstr);
        }
        let ghost k = bytes@.len() as int;
        let byte = match reader.read_u8() {
            Ok(b) => b,
            Err(e) => {
                proof {
                    assert(k == s.len());
                    assert forall|i: int| !is_first_nul(s, i) by {
                        if 0 <= i < s.len() {
                            assert(s[i] != 0);
                        }
                    }
                }
                return Err(e);
            },
        };
        if byte == 0 {
            proof {
                assert(is_first_nul(s, k));
                lemma_first_nul(s, k);
                assert(reader.rem() =~= s.skip(k + 1));
            }
            let n = bytes.len();
            return match string_from_utf8(bytes) {
                Some(st) => Ok(st),
                None => Err(Error::InvalidData("invalid utf8")),
            };
        }
        bytes.push(byte);
        proof {
            assert(bytes@ =~= s.take(k + 1));
            assert(reader.rem() =~= s.skip(k + 1));
        }
    }
}

/// Appends the bytes of `string` and a NUL byte.
pub fn write_null_terminated_str(writer: &mut Vec<u8>, string: &str) -> (res: Result<()>)
    ensures
        final(writer)@ == old(writer)@ + cstr_bytes(string@),
        res is Ok,
{
    write_all(writer, string.as_bytes());
    writer.push(0);
    reveal(str_bytes);
    assert(final(writer)@ =~= old(writer)@ + cstr_bytes(string@));
    Ok(())
}

/// A string without NUL bytes, written with its NUL, is read back whatever
/// follows, and takes its bytes plus one.
#[verifier::spinoff_prover]
pub proof fn lemma_cstr_roundtrip(c: Seq<char>, rest: Seq<u8>)
    requires
        no_nul(c),
    ensures
        parse_cstr(cstr_bytes(c) + rest) == Ok::<(Seq<char>, int), Error>((c, str_bytes(c).len() + 1int)),
        cstr_bytes(c).len() == str_bytes(c).len() + 1,
{
    reveal(str_bytes);
    reveal(parse_cstr);
    let b = str_bytes(c);
    let s = cstr_bytes(c) + rest;
    let n = b.len() as int;
    assert(is_first_nul(s, n));
    lemma_first_nul(s, n);
    assert(s.take(n) =~= b);
    encode_utf8_valid_utf8(c);
    encode_utf8_decode_utf8(c);
}

/// The string read from valid UTF-8 bytes has those bytes.
#[verifier::spinoff_prover]
pub proof fn lemma_decoded_bytes(b: Seq<u8>)
    requires
        valid_utf8(b),
    ensures
        str_bytes(decode_utf8(b)) == b,
{
    reveal(str_bytes);
    decode_utf8_encode_utf8(b);
}

} // verus!
