//! Reading and writing of ISO base media file format (MP4) boxes.
//!
//! Boxes are decoded from an in-memory byte buffer through a [`Reader`] and
//! encoded by appending to a `Vec<u8>`. Every decoder states exactly which
//! value it produces from which bytes, every encoder states exactly which
//! bytes it appends, and the laws in each box module prove that decoding
//! what an encoder produced gives back the encoded value.

pub mod bigendian;
pub mod error;
pub mod media;
pub mod mp4box;
pub mod reader;
pub mod sample;
pub mod sample_flags;
pub mod text;
pub mod track;
pub mod types;
pub mod words;

pub use error::{Error, Result};
pub use media::{
    creation_time, AacConfig, AudioObjectType, AvcConfig, AvcProfile, ChannelConfig, DataType, HevcConfig,
    MediaConfig, MediaType, Metadata, MetadataKey, SampleFreqIndex, TrackType, TtxtConfig,
};
pub use mp4box::adrm::AdrmBox;
pub use mp4box::avc1::{Avc1Box, AvcCBox, NalUnit};
pub use mp4box::co64::Co64Box;
pub use mp4box::dinf::{DinfBox, DrefBox, UrlBox};
pub use mp4box::emsg::EmsgBox;
pub use mp4box::enca::EncaBox;
pub use mp4box::encv::EncvBox;
pub use mp4box::frma::FrmaBox;
pub use mp4box::ftyp::FtypBox;
pub use mp4box::gps::{GpsBox, GpsDataBlockInfo};
pub use mp4box::hdlr::HdlrBox;
pub use mp4box::ilst::{DataBox, IlstBox, IlstItemBox};
pub use mp4box::meta::MetaBox;
pub use mp4box::mehd::MehdBox;
pub use mp4box::mfhd::MfhdBox;
pub use mp4box::moof::MoofBox;
pub use mp4box::mp4a::{EsdsBox, Mp4aBox};
pub use mp4box::mvex::MvexBox;
pub use mp4box::descriptor::{
    DecoderConfigDescriptor, DecoderSpecificDescriptor, ESDescriptor, SLConfigDescriptor,
};
pub use mp4box::mvhd::MvhdBox;
pub use mp4box::opus::{ChannelMappingFamily, DopsBox, OpusBox, SounBox};
pub use mp4box::pssh::PsshBox;
pub use mp4box::saio::SaioBox;
pub use mp4box::saiz::SaizBox;
pub use mp4box::schi::SchiBox;
pub use mp4box::schm::SchmBox;
pub use mp4box::sinf::SinfBox;
pub use mp4box::senc::{SampleInfo, SencBox, SubSampleInfo};
pub use mp4box::smhd::SmhdBox;
pub use mp4box::stsc::{StscBox, StscEntry};
pub use mp4box::stsd::StsdBox;
pub use mp4box::stts::{SttsBox, SttsEntry};
pub use mp4box::tenc::TencBox;
pub use mp4box::tfdt::TfdtBox;
pub use mp4box::tfhd::TfhdBox;
pub use mp4box::tkhd::{Matrix, TkhdBox, TrackFlag};
pub use mp4box::traf::TrafBox;
pub use mp4box::trex::TrexBox;
pub use mp4box::trun::TrunBox;
pub use mp4box::tx3g::{RgbaColor, Tx3gBox};
pub use mp4box::uuid::UuidBox;
pub use mp4box::vmhd::{RgbColor, VmhdBox};
pub use mp4box::vp09::Vp09Box;
pub use mp4box::vpcc::VpccBox;
pub use mp4box::{BoxHeader, Mp4Box, ReadBox, WriteBox, HEADER_EXT_SIZE, HEADER_SIZE};
pub use reader::Reader;
pub use sample::Mp4Sample;
pub use track::{Mp4Config, TrackConfig};
pub use sample_flags::{DependedOn, DependsOn, HasRedundancy, IsLeading, SampleFlags};
pub use types::{AuxiliaryInfoType, BoxType, FixedPointI8, FixedPointU16, FixedPointU8, FourCC, Vp9Config};
