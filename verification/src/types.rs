//! Box types and four-character codes.
use crate::bigendian::{u32_of, u32_bytes};
use crate::error::Error;
use vstd::prelude::*;
use vstd::string::StringSliceAdditionalSpecFns;

verus! {

/// The type of a box, as named by its four-character code.
#[derive(Clone, Copy, Debug, PartialEq, Eq, Structural)]
pub enum BoxType {
    FtypBox,
    MvhdBox,
    MfhdBox,
    FreeBox,
    MdatBox,
    MoovBox,
    MvexBox,
    MehdBox,
    TrexBox,
    EmsgBox,
    MoofBox,
    TkhdBox,
    TfhdBox,
    EdtsBox,
    MdiaBox,
    ElstBox,
    MdhdBox,
    HdlrBox,
    MinfBox,
    VmhdBox,
    StblBox,
    StsdBox,
    SttsBox,
    CttsBox,
    StssBox,
    StscBox,
    StszBox,
    StcoBox,
    Co64Box,
    TrakBox,
    TrafBox,
    TrunBox,
    UdtaBox,
    MetaBox,
    DinfBox,
    DrefBox,
    UrlBox,
    SmhdBox,
    Avc1Box,
    AvcCBox,
    Hev1Box,
    HvcCBox,
    Mp4aBox,
    EsdsBox,
    Tx3gBox,
    VpccBox,
    Vp09Box,
    DataBox,
    IlstBox,
    NameBox,
    DayBox,
    CovrBox,
    DescBox,
    AdrmBox,
    EncaBox,
    EncvBox,
    FrmaBox,
    GpsBox,
    PsshBox,
    SaioBox,
    SaizBox,
    SchiBox,
    SchmBox,
    SencBox,
    SinfBox,
    TencBox,
    TfdtBox,
    UuidBox,
    OpusBox,
    DopsBox,
    SounBox,
    WaveBox,
    UnknownBox(u32),
}

/// The box type that a four-character code, read as a big-endian number, names.
pub open spec fn box_type_of(t: u32) -> BoxType {
    match t {
        0x66747970u32 => BoxType::FtypBox,
        0x6d766864u32 => BoxType::MvhdBox,
        0x6d666864u32 => BoxType::MfhdBox,
        0x66726565u32 => BoxType::FreeBox,
        0x6d646174u32 => BoxType::MdatBox,
        0x6d6f6f76u32 => BoxType::MoovBox,
        0x6d766578u32 => BoxType::MvexBox,
        0x6d656864u32 => BoxType::MehdBox,
        0x74726578u32 => BoxType::TrexBox,
        0x656d7367u32 => BoxType::EmsgBox,
        0x6d6f6f66u32 => BoxType::MoofBox,
        0x746b6864u32 => BoxType::TkhdBox,
        0x74666864u32 => BoxType::TfhdBox,
        0x65647473u32 => BoxType::EdtsBox,
        0x6d646961u32 => BoxType::MdiaBox,
        0x656c7374u32 => BoxType::ElstBox,
        0x6d646864u32 => BoxType::MdhdBox,
        0x68646c72u32 => BoxType::HdlrBox,
        0x6d696e66u32 => BoxType::MinfBox,
        0x766d6864u32 => BoxType::VmhdBox,
        0x7374626cu32 => BoxType::StblBox,
        0x73747364u32 => BoxType::StsdBox,
        0x73747473u32 => BoxType::SttsBox,
        0x63747473u32 => BoxType::CttsBox,
        0x73747373u32 => BoxType::StssBox,
        0x73747363u32 => BoxType::StscBox,
        0x7374737au32 => BoxType::StszBox,
        0x7374636fu32 => BoxType::StcoBox,
        0x636f3634u32 => BoxType::Co64Box,
        0x7472616bu32 => BoxType::TrakBox,
        0x74726166u32 => BoxType::TrafBox,
        0x7472756eu32 => BoxType::TrunBox,
        0x75647461u32 => BoxType::UdtaBox,
        0x6d657461u32 => BoxType::MetaBox,
        0x64696e66u32 => BoxType::DinfBox,
        0x64726566u32 => BoxType::DrefBox,
        0x75726c20u32 => BoxType::UrlBox,
        0x736d6864u32 => BoxType::SmhdBox,
        0x61766331u32 => BoxType::Avc1Box,
        0x61766343u32 => BoxType::AvcCBox,
        0x68657631u32 => BoxType::Hev1Box,
        0x68766343u32 => BoxType::HvcCBox,
        0x6d703461u32 => BoxType::Mp4aBox,
        0x65736473u32 => BoxType::EsdsBox,
        0x74783367u32 => BoxType::Tx3gBox,
        0x76706343u32 => BoxType::VpccBox,
        0x76703039u32 => BoxType::Vp09Box,
        0x64617461u32 => BoxType::DataBox,
        0x696c7374u32 => BoxType::IlstBox,
        0xa96e616du32 => BoxType::NameBox,
        0xa9646179u32 => BoxType::DayBox,
        0x636f7672u32 => BoxType::CovrBox,
        0x64657363u32 => BoxType::DescBox,
        0x6164726du32 => BoxType::AdrmBox,
        0x656e6361u32 => BoxType::EncaBox,
        0x656e6376u32 => BoxType::EncvBox,
        0x66726d61u32 => BoxType::FrmaBox,
        0x67707320u32 => BoxType::GpsBox,
        0x70737368u32 => BoxType::PsshBox,
        0x7361696fu32 => BoxType::SaioBox,
        0x7361697au32 => BoxType::SaizBox,
        0x73636869u32 => BoxType::SchiBox,
        0x7363686du32 => BoxType::SchmBox,
        0x73656e63u32 => BoxType::SencBox,
        0x73696e66u32 => BoxType::SinfBox,
        0x74656e63u32 => BoxType::TencBox,
        0x74666474u32 => BoxType::TfdtBox,
        0x75756964u32 => BoxType::UuidBox,
        0x4f707573u32 => BoxType::OpusBox,
        0x644f7073u32 => BoxType::DopsBox,
        0x736f756eu32 => BoxType::SounBox,
        0x77617665u32 => BoxType::WaveBox,
        _ => BoxType::UnknownBox(t),
    }
}

/// The four-character code of a box type, as a big-endian number.
pub open spec fn box_type_code(b: BoxType) -> u32 {
    match b {
        BoxType::FtypBox => 0x66747970u32,
        BoxType::MvhdBox => 0x6d766864u32,
        BoxType::MfhdBox => 0x6d666864u32,
        BoxType::FreeBox => 0x66726565u32,
        BoxType::MdatBox => 0x6d646174u32,
        BoxType::MoovBox => 0x6d6f6f76u32,
        BoxType::MvexBox => 0x6d766578u32,
        BoxType::MehdBox => 0x6d656864u32,
        BoxType::TrexBox => 0x74726578u32,
        BoxType::EmsgBox => 0x656d7367u32,
        BoxType::MoofBox => 0x6d6f6f66u32,
        BoxType::TkhdBox => 0x746b6864u32,
        BoxType::TfhdBox => 0x74666864u32,
        BoxType::EdtsBox => 0x65647473u32,
        BoxType::MdiaBox => 0x6d646961u32,
        BoxType::ElstBox => 0x656c7374u32,
        BoxType::MdhdBox => 0x6d646864u32,
        BoxType::HdlrBox => 0x68646c72u32,
        BoxType::MinfBox => 0x6d696e66u32,
        BoxType::VmhdBox => 0x766d6864u32,
        BoxType::StblBox => 0x7374626cu32,
        BoxType::StsdBox => 0x73747364u32,
        BoxType::SttsBox => 0x73747473u32,
        BoxType::CttsBox => 0x63747473u32,
        BoxType::StssBox => 0x73747373u32,
        BoxType::StscBox => 0x73747363u32,
        BoxType::StszBox => 0x7374737au32,
        BoxType::StcoBox => 0x7374636fu32,
        BoxType::Co64Box => 0x636f3634u32,
        BoxType::TrakBox => 0x7472616bu32,
        BoxType::TrafBox => 0x74726166u32,
        BoxType::TrunBox => 0x7472756eu32,
        BoxType::UdtaBox => 0x75647461u32,
        BoxType::MetaBox => 0x6d657461u32,
        BoxType::DinfBox => 0x64696e66u32,
        BoxType::DrefBox => 0x64726566u32,
        BoxType::UrlBox => 0x75726c20u32,
        BoxType::SmhdBox => 0x736d6864u32,
        BoxType::Avc1Box => 0x61766331u32,
        BoxType::AvcCBox => 0x61766343u32,
        BoxType::Hev1Box => 0x68657631u32,
        BoxType::HvcCBox => 0x68766343u32,
        BoxType::Mp4aBox => 0x6d703461u32,
        BoxType::EsdsBox => 0x65736473u32,
        BoxType::Tx3gBox => 0x74783367u32,
        BoxType::VpccBox => 0x76706343u32,
        BoxType::Vp09Box => 0x76703039u32,
        BoxType::DataBox => 0x64617461u32,
        BoxType::IlstBox => 0x696c7374u32,
        BoxType::NameBox => 0xa96e616du32,
        BoxType::DayBox => 0xa9646179u32,
        BoxType::CovrBox => 0x636f7672u32,
        BoxType::DescBox => 0x64657363u32,
        BoxType::AdrmBox => 0x6164726du32,
        BoxType::EncaBox => 0x656e6361u32,
        BoxType::EncvBox => 0x656e6376u32,
        BoxType::FrmaBox => 0x66726d61u32,
        BoxType::GpsBox => 0x67707320u32,
        BoxType::PsshBox => 0x70737368u32,
        BoxType::SaioBox => 0x7361696fu32,
        BoxType::SaizBox => 0x7361697au32,
        BoxType::SchiBox => 0x73636869u32,
        BoxType::SchmBox => 0x7363686du32,
        BoxType::SencBox => 0x73656e63u32,
        BoxType::SinfBox => 0x73696e66u32,
        BoxType::TencBox => 0x74656e63u32,
        BoxType::TfdtBox => 0x74666474u32,
        BoxType::UuidBox => 0x75756964u32,
        BoxType::OpusBox => 0x4f707573u32,
        BoxType::DopsBox => 0x644f7073u32,
        BoxType::SounBox => 0x736f756eu32,
        BoxType::WaveBox => 0x77617665u32,
        BoxType::UnknownBox(t) => t,
    }
}

impl BoxType {
    /// The box type that the code `t` names.
    pub fn from_u32(t: u32) -> (b: BoxType)
        ensures
            b == box_type_of(t),
    {
        match t {
            0x66747970u32 => BoxType::FtypBox,
            0x6d766864u32 => BoxType::MvhdBox,
            0x6d666864u32 => BoxType::MfhdBox,
            0x66726565u32 => BoxType::FreeBox,
            0x6d646174u32 => BoxType::MdatBox,
            0x6d6f6f76u32 => BoxType::MoovBox,
            0x6d766578u32 => BoxType::MvexBox,
            0x6d656864u32 => BoxType::MehdBox,
            0x74726578u32 => BoxType::TrexBox,
            0x656d7367u32 => BoxType::EmsgBox,
            0x6d6f6f66u32 => BoxType::MoofBox,
            0x746b6864u32 => BoxType::TkhdBox,
            0x74666864u32 => BoxType::TfhdBox,
            0x65647473u32 => BoxType::EdtsBox,
            0x6d646961u32 => BoxType::MdiaBox,
            0x656c7374u32 => BoxType::ElstBox,
            0x6d646864u32 => BoxType::MdhdBox,
            0x68646c72u32 => BoxType::HdlrBox,
            0x6d696e66u32 => BoxType::MinfBox,
            0x766d6864u32 => BoxType::VmhdBox,
            0x7374626cu32 => BoxType::StblBox,
            0x73747364u32 => BoxType::StsdBox,
            0x73747473u32 => BoxType::SttsBox,
            0x63747473u32 => BoxType::CttsBox,
            0x73747373u32 => BoxType::StssBox,
            0x73747363u32 => BoxType::StscBox,
            0x7374737au32 => BoxType::StszBox,
            0x7374636fu32 => BoxType::StcoBox,
            0x636f3634u32 => BoxType::Co64Box,
            0x7472616bu32 => BoxType::TrakBox,
            0x74726166u32 => BoxType::TrafBox,
            0x7472756eu32 => BoxType::TrunBox,
            0x75647461u32 => BoxType::UdtaBox,
            0x6d657461u32 => BoxType::MetaBox,
            0x64696e66u32 => BoxType::DinfBox,
            0x64726566u32 => BoxType::DrefBox,
            0x75726c20u32 => BoxType::UrlBox,
            0x736d6864u32 => BoxType::SmhdBox,
            0x61766331u32 => BoxType::Avc1Box,
            0x61766343u32 => BoxType::AvcCBox,
            0x68657631u32 => BoxType::Hev1Box,
            0x68766343u32 => BoxType::HvcCBox,
            0x6d703461u32 => BoxType::Mp4aBox,
            0x65736473u32 => BoxType::EsdsBox,
            0x74783367u32 => BoxType::Tx3gBox,
            0x76706343u32 => BoxType::VpccBox,
            0x76703039u32 => BoxType::Vp09Box,
            0x64617461u32 => BoxType::DataBox,
            0x696c7374u32 => BoxType::IlstBox,
            0xa96e616du32 => BoxType::NameBox,
            0xa9646179u32 => BoxType::DayBox,
            0x636f7672u32 => BoxType::CovrBox,
            0x64657363u32 => BoxType::DescBox,
            0x6164726du32 => BoxType::AdrmBox,
            0x656e6361u32 => BoxType::EncaBox,
            0x656e6376u32 => BoxType::EncvBox,
            0x66726d61u32 => BoxType::FrmaBox,
            0x67707320u32 => BoxType::GpsBox,
            0x70737368u32 => BoxType::PsshBox,
            0x7361696fu32 => BoxType::SaioBox,
            0x7361697au32 => BoxType::SaizBox,
            0x73636869u32 => BoxType::SchiBox,
            0x7363686du32 => BoxType::SchmBox,
            0x73656e63u32 => BoxType::SencBox,
            0x73696e66u32 => BoxType::SinfBox,
            0x74656e63u32 => BoxType::TencBox,
            0x74666474u32 => BoxType::TfdtBox,
            0x75756964u32 => BoxType::UuidBox,
            0x4f707573u32 => BoxType::OpusBox,
            0x644f7073u32 => BoxType::DopsBox,
            0x736f756eu32 => BoxType::SounBox,
            0x77617665u32 => BoxType::WaveBox,
            _ => BoxType::UnknownBox(t),
        }
    }

    /// The code of this box type.
    pub fn to_u32(&self) -> (t: u32)
        ensures
            t == box_type_code(*self),
    {
        match *self {
            BoxType::FtypBox => 0x66747970u32,
            BoxType::MvhdBox => 0x6d766864u32,
            BoxType::MfhdBox => 0x6d666864u32,
            BoxType::FreeBox => 0x66726565u32,
            BoxType::MdatBox => 0x6d646174u32,
            BoxType::MoovBox => 0x6d6f6f76u32,
            BoxType::MvexBox => 0x6d766578u32,
            BoxType::MehdBox => 0x6d656864u32,
            BoxType::TrexBox => 0x74726578u32,
            BoxType::EmsgBox => 0x656d7367u32,
            BoxType::MoofBox => 0x6d6f6f66u32,
            BoxType::TkhdBox => 0x746b6864u32,
            BoxType::TfhdBox => 0x74666864u32,
            BoxType::EdtsBox => 0x65647473u32,
            BoxType::MdiaBox => 0x6d646961u32,
            BoxType::ElstBox => 0x656c7374u32,
            BoxType::MdhdBox => 0x6d646864u32,
            BoxType::HdlrBox => 0x68646c72u32,
            BoxType::MinfBox => 0x6d696e66u32,
            BoxType::VmhdBox => 0x766d6864u32,
            BoxType::StblBox => 0x7374626cu32,
            BoxType::StsdBox => 0x73747364u32,
            BoxType::SttsBox => 0x73747473u32,
            BoxType::CttsBox => 0x63747473u32,
            BoxType::StssBox => 0x73747373u32,
            BoxType::StscBox => 0x73747363u32,
            BoxType::StszBox => 0x7374737au32,
            BoxType::StcoBox => 0x7374636fu32,
            BoxType::Co64Box => 0x636f3634u32,
            BoxType::TrakBox => 0x7472616bu32,
            BoxType::TrafBox => 0x74726166u32,
            BoxType::TrunBox => 0x7472756eu32,
            BoxType::UdtaBox => 0x75647461u32,
            BoxType::MetaBox => 0x6d657461u32,
            BoxType::DinfBox => 0x64696e66u32,
            BoxType::DrefBox => 0x64726566u32,
            BoxType::UrlBox => 0x75726c20u32,
            BoxType::SmhdBox => 0x736d6864u32,
            BoxType::Avc1Box => 0x61766331u32,
            BoxType::AvcCBox => 0x61766343u32,
            BoxType::Hev1Box => 0x68657631u32,
            BoxType::HvcCBox => 0x68766343u32,
            BoxType::Mp4aBox => 0x6d703461u32,
            BoxType::EsdsBox => 0x65736473u32,
            BoxType::Tx3gBox => 0x74783367u32,
            BoxType::VpccBox => 0x76706343u32,
            BoxType::Vp09Box => 0x76703039u32,
            BoxType::DataBox => 0x64617461u32,
            BoxType::IlstBox => 0x696c7374u32,
            BoxType::NameBox => 0xa96e616du32,
            BoxType::DayBox => 0xa9646179u32,
            BoxType::CovrBox => 0x636f7672u32,
            BoxType::DescBox => 0x64657363u32,
            BoxType::AdrmBox => 0x6164726du32,
            BoxType::EncaBox => 0x656e6361u32,
            BoxType::EncvBox => 0x656e6376u32,
            BoxType::FrmaBox => 0x66726d61u32,
            BoxType::GpsBox => 0x67707320u32,
            BoxType::PsshBox => 0x70737368u32,
            BoxType::SaioBox => 0x7361696fu32,
            BoxType::SaizBox => 0x7361697au32,
            BoxType::SchiBox => 0x73636869u32,
            BoxType::SchmBox => 0x7363686du32,
            BoxType::SencBox => 0x73656e63u32,
            BoxType::SinfBox => 0x73696e66u32,
            BoxType::TencBox => 0x74656e63u32,
            BoxType::TfdtBox => 0x74666474u32,
            BoxType::UuidBox => 0x75756964u32,
            BoxType::OpusBox => 0x4f707573u32,
            BoxType::DopsBox => 0x644f7073u32,
            BoxType::SounBox => 0x736f756eu32,
            BoxType::WaveBox => 0x77617665u32,
            BoxType::UnknownBox(t) => t,
        }
    }
}

/// A four-character code.
#[derive(Clone, Copy, Debug, Default, PartialEq, Eq)]
pub struct FourCC {
    pub value: [u8; 4],
}

/// The code of `f` read as a big-endian number.
pub open spec fn fourcc_code(f: FourCC) -> u32 {
    u32_of(f.value@[0], f.value@[1], f.value@[2], f.value@[3])
}

/// The code whose big-endian bytes are those of `number`.
pub open spec fn fourcc_of(number: u32) -> FourCC {
    FourCC { value: choose|a: [u8; 4]| a@ == u32_bytes(number) }
}

/// Two codes with the same number are the same code.
#[verifier::spinoff_prover]
pub proof fn lemma_fourcc_eq(f: FourCC, number: u32)
    requires
        f.value@ == u32_bytes(number),
    ensures
        f == fourcc_of(number),
{
    let a = choose|a: [u8; 4]| a@ == u32_bytes(number);
    assert(a@ == u32_bytes(number));
    assert(a =~= f.value);
}

/// The code of a four-character code determines it.
#[verifier::spinoff_prover]
pub proof fn lemma_fourcc_of_code(f: FourCC)
    ensures
        fourcc_of(fourcc_code(f)) == f,
{
    let n = fourcc_code(f);
    let v = f.value@;
    assert(u32_bytes(n) =~= v) by {
        assert(v.len() == 4);
        let (b0, b1, b2, b3) = (v[0], v[1], v[2], v[3]);
        assert(((u32_of(b0, b1, b2, b3) >> 24u32) as u8 == b0) && ((u32_of(b0, b1, b2, b3) >> 16u32) as u8 == b1)
            && ((u32_of(b0, b1, b2, b3) >> 8u32) as u8 == b2) && (u32_of(b0, b1, b2, b3) as u8 == b3)) by (bit_vector);
    }
    lemma_fourcc_eq(f, n);
}

impl FourCC {
    /// The code whose big-endian bytes are those of `number`.
    pub fn from_u32(number: u32) -> (f: FourCC)
        ensures
            f.value@ == u32_bytes(number),
            fourcc_code(f) == number,
            f == fourcc_of(number),
    {
        let value = [(number >> 24u32) as u8, (number >> 16u32) as u8, (number >> 8u32) as u8, number as u8];
        let f = FourCC { value };
        proof {
            crate::bigendian::lemma_u32_roundtrip(number);
            assert(f.value@ =~= u32_bytes(number));
            lemma_fourcc_eq(f, number);
        }
        f
    }

    /// The code as a big-endian number.
    pub fn to_u32(&self) -> (n: u32)
        ensures
            n == fourcc_code(*self),
    {
        let v = self.value;
        ((v[0] as u32) << 24u32) | ((v[1] as u32) << 16u32) | ((v[2] as u32) << 8u32) | (v[3] as u32)
    }

    /// The code made of these four bytes.
    pub fn from_bytes(value: [u8; 4]) -> (f: FourCC)
        ensures
            f.value == value,
    {
        FourCC { value }
    }

    /// The code of a box type.
    pub fn from_box_type(t: BoxType) -> (f: FourCC)
        ensures
            fourcc_code(f) == box_type_code(t),
    {
        FourCC::from_u32(t.to_u32())
    }

    /// The code made of the bytes of `s`, which must be exactly four.
    pub fn parse_str(s: &str) -> (res: Result<FourCC, Error>)
        ensures
            match res {
                Ok(f) => s.spec_bytes().len() == 4 && f.value@ == s.spec_bytes(),
                Err(e) => s.spec_bytes().len() != 4
                    && e == Error::InvalidData("expected exactly four bytes in string"),
            },
    {
        let b = s.as_bytes();
        if b.len() == 4 {
            let f = FourCC { value: [b[0], b[1], b[2], b[3]] };
            assert(f.value@ =~= b@);
            Ok(f)
        } else {
            Err(Error::InvalidData("expected exactly four bytes in string"))
        }
    }
}

/// Reading back the code of `FourCC::from_u32(n)` gives `n`, and the box
/// type of the code of a named box type is that box type.
#[verifier::spinoff_prover]
pub proof fn lemma_fourcc_roundtrip(n: u32)
    ensures
        fourcc_code(FourCC { value: [(n >> 24u32) as u8, (n >> 16u32) as u8, (n >> 8u32) as u8, n as u8] }) == n,
{
    crate::bigendian::lemma_u32_roundtrip(n);
}

impl core::str::FromStr for FourCC {
    type Err = Error;

    fn from_str(s: &str) -> Result<FourCC, Error> {
        FourCC::parse_str(s)
    }
}

impl From<u32> for FourCC {
    fn from(number: u32) -> (f: FourCC) {
        FourCC::from_u32(number)
    }
}

impl vstd::std_specs::convert::FromSpecImpl<u32> for FourCC {
    open spec fn obeys_from_spec() -> bool {
        true
    }

    open spec fn from_spec(number: u32) -> FourCC {
        fourcc_of(number)
    }
}

impl From<FourCC> for u32 {
    fn from(f: FourCC) -> (n: u32) {
        f.to_u32()
    }
}

impl vstd::std_specs::convert::FromSpecImpl<FourCC> for u32 {
    open spec fn obeys_from_spec() -> bool {
        true
    }

    open spec fn from_spec(f: FourCC) -> u32 {
        fourcc_code(f)
    }
}

impl From<[u8; 4]> for FourCC {
    fn from(value: [u8; 4]) -> (f: FourCC) {
        FourCC::from_bytes(value)
    }
}

impl vstd::std_specs::convert::FromSpecImpl<[u8; 4]> for FourCC {
    open spec fn obeys_from_spec() -> bool {
        true
    }

    open spec fn from_spec(value: [u8; 4]) -> FourCC {
        FourCC { value }
    }
}

impl From<BoxType> for FourCC {
    fn from(t: BoxType) -> (f: FourCC) {
        let f = FourCC::from_box_type(t);
        proof {
            lemma_fourcc_of_code(f);
        }
        f
    }
}

impl vstd::std_specs::convert::FromSpecImpl<BoxType> for FourCC {
    open spec fn obeys_from_spec() -> bool {
        true
    }

    open spec fn from_spec(t: BoxType) -> FourCC {
        fourcc_of(box_type_code(t))
    }
}

impl From<u32> for BoxType {
    fn from(t: u32) -> (b: BoxType) {
        BoxType::from_u32(t)
    }
}

impl vstd::std_specs::convert::FromSpecImpl<u32> for BoxType {
    open spec fn obeys_from_spec() -> bool {
        true
    }

    open spec fn from_spec(t: u32) -> BoxType {
        box_type_of(t)
    }
}

impl From<BoxType> for u32 {
    fn from(b: BoxType) -> (t: u32) {
        b.to_u32()
    }
}

impl vstd::std_specs::convert::FromSpecImpl<BoxType> for u32 {
    open spec fn obeys_from_spec() -> bool {
        true
    }

    open spec fn from_spec(b: BoxType) -> u32 {
        box_type_code(b)
    }
}

/// Converting a code to its box type and back gives the code.
#[verifier::spinoff_prover]
pub proof fn lemma_box_type_code_roundtrip(t: u32)
    ensures
        box_type_code(box_type_of(t)) == t,
{
}

/// Converting a box type to its code and back gives the box type, except for
/// an unknown box type whose number is the code of a named one.
#[verifier::spinoff_prover]
pub proof fn lemma_box_type_roundtrip(b: BoxType)
    requires
        b matches BoxType::UnknownBox(t) ==> box_type_of(t) == BoxType::UnknownBox(t),
    ensures
        box_type_of(box_type_code(b)) == b,
{
}

} // verus!

verus! {

/// The type of auxiliary sample information and its parameter.
#[derive(Debug, Clone, Copy, PartialEq, Eq, Default, Structural)]
pub struct AuxiliaryInfoType {
    pub aux_info_type: u32,
    pub aux_info_type_parameter: u32,
}

/// The dimensions of a VP9 track.
#[derive(Debug, PartialEq, Eq, Clone, Copy, Default, Structural)]
pub struct Vp9Config {
    pub width: u16,
    pub height: u16,
}

/// An unsigned 8.8 fixed-point number, held as its raw 16 bits.
#[derive(Debug, Clone, Copy, PartialEq, Eq, Default, Structural)]
pub struct FixedPointU8 {
    raw: u16,
}

impl View for FixedPointU8 {
    type V = u16;

    closed spec fn view(&self) -> u16 {
        self.raw
    }
}

impl FixedPointU8 {
    /// The number with integer part `val` and no fraction.
    pub fn new(val: u8) -> (f: Self)
        ensures
            f@ == val * 0x100,
    {
        FixedPointU8 { raw: val as u16 * 0x100 }
    }

    /// The number whose raw 16 bits are `val`.
    pub fn new_raw(val: u16) -> (f: Self)
        ensures
            f@ == val,
    {
        FixedPointU8 { raw: val }
    }

    /// The integer part.
    pub fn value(&self) -> (v: u8)
        ensures
            v == self@ / 0x100,
    {
        (self.raw / 0x100) as u8
    }

    /// The raw 16 bits.
    pub fn raw_value(&self) -> (v: u16)
        ensures
            v == self@,
    {
        self.raw
    }
}

/// `n / d` rounded toward zero.
pub open spec fn trunc_div(n: int, d: int) -> int {
    if n >= 0 {
        n / d
    } else {
        -((-n) / d)
    }
}

/// A signed 8.8 fixed-point number, held as its raw 16 bits.
#[derive(Debug, Clone, Copy, PartialEq, Eq, Default, Structural)]
pub struct FixedPointI8 {
    raw: i16,
}

impl View for FixedPointI8 {
    type V = i16;

    closed spec fn view(&self) -> i16 {
        self.raw
    }
}

impl FixedPointI8 {
    /// The number with integer part `val` and no fraction.
    pub fn new(val: i8) -> (f: Self)
        ensures
            f@ == val * 0x100,
    {
        FixedPointI8 { raw: val as i16 * 0x100 }
    }

    /// The number whose raw 16 bits are `val`.
    pub fn new_raw(val: i16) -> (f: Self)
        ensures
            f@ == val,
    {
        FixedPointI8 { raw: val }
    }

    /// The integer part, rounded toward zero.
    pub fn value(&self) -> (v: i8)
        ensures
            v == trunc_div(self@ as int, 0x100),
    {
        let r = self.raw as i32;
        let q: i32 = if r >= 0 {
            r / 0x100
        } else {
            -((-r) / 0x100)
        };
        q as i8
    }

    /// The raw 16 bits.
    pub fn raw_value(&self) -> (v: i16)
        ensures
            v == self@,
    {
        self.raw
    }
}

/// An unsigned 16.16 fixed-point number, held as its raw 32 bits.
#[derive(Debug, Clone, Copy, PartialEq, Eq, Default, Structural)]
pub struct FixedPointU16 {
    raw: u32,
}

impl View for FixedPointU16 {
    type V = u32;

    closed spec fn view(&self) -> u32 {
        self.raw
    }
}

impl FixedPointU16 {
    /// The number with integer part `val` and no fraction.
    pub fn new(val: u16) -> (f: Self)
        ensures
            f@ == val * 0x10000,
    {
        FixedPointU16 { raw: val as u32 * 0x10000 }
    }

    /// The number whose raw 32 bits are `val`.
    pub fn new_raw(val: u32) -> (f: Self)
        ensures
            f@ == val,
    {
        FixedPointU16 { raw: val }
    }

    /// The integer part.
    pub fn value(&self) -> (v: u16)
        ensures
            v == self@ / 0x10000,
    {
        (self.raw / 0x10000) as u16
    }

    /// The raw 32 bits.
    pub fn raw_value(&self) -> (v: u32)
        ensures
            v == self@,
    {
        self.raw
    }
}

/// The integer part of a fixed-point number made from an integer is that
/// integer.
#[verifier::spinoff_prover]
pub proof fn lemma_fixed_point_value(a: u8, b: i8, c: u16)
    ensures
        (a * 0x100) / 0x100 == a,
        trunc_div(b * 0x100, 0x100) == b,
        (c * 0x10000) / 0x10000 == c,
{
    assert((a * 0x100) / 0x100 == a) by (nonlinear_arith);
    assert((c * 0x10000) / 0x10000 == c) by (nonlinear_arith);
    if b >= 0 {
        assert((b * 0x100) / 0x100 == b) by (nonlinear_arith) requires b >= 0;
    } else {
        assert((-(b * 0x100)) / 0x100 == -b) by (nonlinear_arith) requires b < 0;
    }
}

} // verus!
