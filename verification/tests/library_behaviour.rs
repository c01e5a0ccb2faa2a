use mp4::mp4box::descriptor::{read_desc, size_of_length, write_desc};
use mp4::{
    AdrmBox, Mp4Sample,
    creation_time, AudioObjectType, AvcProfile, BoxHeader, BoxType, ChannelConfig, DataType,
    DecoderSpecificDescriptor, EncaBox, Error, FixedPointI8, FixedPointU16, FixedPointU8, FourCC,
    FrmaBox, MediaType, MehdBox, MfhdBox, MoofBox, Mp4Box, Mp4aBox, MvexBox, MvhdBox, ReadBox,
    Reader, SampleFreqIndex, SchiBox, SchmBox, SinfBox, TencBox, TfhdBox, TkhdBox, TrackType,
    TrafBox, TrexBox, VpccBox, WriteBox,
};

fn sinf_box() -> SinfBox {
    SinfBox {
        frma: FrmaBox {
            original_format: FourCC::from(*b"mp4a"),
        },
        schm: Some(SchmBox {
            version: 0,
            scheme_type: FourCC::from(*b"cenc"),
            scheme_version: 0x10000,
        }),
        schi: Some(SchiBox {
            tenc: Some(TencBox {
                version: 0,
                default_crypt_byte_block: 0,
                default_skip_byte_block: 0,
                default_is_protected: true,
                default_per_sample_iv_size: 8,
                default_kid: [7u8; 16],
                default_constant_iv: vec![],
            }),
        }),
    }
}

#[test]
fn track_type_from_handler() {
    assert_eq!(TrackType::try_from_str("vide"), Ok(TrackType::Video));
    assert_eq!(TrackType::try_from_str("soun"), Ok(TrackType::Audio));
    assert_eq!(TrackType::try_from_str("sbtl"), Ok(TrackType::Subtitle));
    assert_eq!(
        TrackType::try_from_str("hint"),
        Err(Error::InvalidData("unsupported handler type"))
    );
    for t in [TrackType::Video, TrackType::Audio, TrackType::Subtitle] {
        assert_eq!(TrackType::try_from_fourcc(&t.to_fourcc()), Ok(t));
    }
    assert_eq!(TrackType::Audio.to_fourcc(), FourCC::from(*b"soun"));
    assert_eq!(TrackType::Subtitle.as_str(), "Subtitle");
}

#[test]
fn media_type_names() {
    for t in [MediaType::H264, MediaType::H265, MediaType::VP9, MediaType::AAC, MediaType::TTXT] {
        assert_eq!(MediaType::try_from_str(t.as_str()), Ok(t));
    }
    assert_eq!(MediaType::VP9.as_str(), "vp9");
    assert_eq!(
        MediaType::try_from_str("mp3"),
        Err(Error::InvalidData("unsupported media type"))
    );
}

#[test]
fn avc_profile_numbers() {
    assert_eq!(AvcProfile::try_from_pair((66, 0x40)), Ok(AvcProfile::AvcBaseline));
    assert_eq!(AvcProfile::try_from_pair((66, 0xff)), Ok(AvcProfile::AvcBaseline));
    assert_eq!(AvcProfile::try_from_pair((77, 0)), Ok(AvcProfile::AvcMain));
    assert_eq!(AvcProfile::try_from_pair((88, 0)), Ok(AvcProfile::AvcExtended));
    assert_eq!(AvcProfile::try_from_pair((100, 0)), Ok(AvcProfile::AvcHigh));
    assert_eq!(
        AvcProfile::try_from_pair((101, 0)),
        Err(Error::InvalidData("unsupported avc profile"))
    );
    assert_eq!(AvcProfile::AvcHigh.as_str(), "High");
}

#[test]
fn audio_codes() {
    for v in 0u8..=255 {
        match AudioObjectType::try_from_u8(v) {
            Ok(t) => assert_eq!(t.code(), v),
            Err(e) => assert_eq!(e, Error::InvalidData("invalid audio object type")),
        }
    }
    assert_eq!(AudioObjectType::try_from_u8(2), Ok(AudioObjectType::AacLowComplexity));
    assert!(AudioObjectType::try_from_u8(10).is_err());
    assert_eq!(AudioObjectType::AacLowComplexity.as_str(), "LC");
    assert_eq!(SampleFreqIndex::try_from_u8(3), Ok(SampleFreqIndex::Freq48000));
    assert_eq!(SampleFreqIndex::Freq44100.freq(), 44100);
    assert_eq!(SampleFreqIndex::Freq7350.code(), 12);
    assert_eq!(
        SampleFreqIndex::try_from_u8(13),
        Err(Error::InvalidData("invalid sampling frequency index"))
    );
    assert_eq!(ChannelConfig::try_from_u8(6), Ok(ChannelConfig::FiveOne));
    assert_eq!(ChannelConfig::FiveOne.as_str(), "five.one");
    assert!(ChannelConfig::try_from_u8(0).is_err());
    assert_eq!(DataType::try_from_u32(0x0D), Ok(DataType::Image));
    assert_eq!(DataType::TempoCpil.code(), 0x15);
    assert_eq!(DataType::try_from_u32(2), Err(Error::InvalidData("invalid data type")));
}

#[test]
fn creation_time_epochs() {
    assert_eq!(creation_time(2082844800 + 5), 5);
    assert_eq!(creation_time(2082844800), 0);
    assert_eq!(creation_time(100), 100);
}

#[test]
fn fixed_point_values() {
    assert_eq!(FixedPointU8::new(1).raw_value(), 0x100);
    assert_eq!(FixedPointU8::new_raw(0x1ff).value(), 1);
    assert_eq!(FixedPointI8::new_raw(-1).value(), 0);
    assert_eq!(FixedPointI8::new_raw(-256).value(), -1);
    assert_eq!(FixedPointI8::new(-3).raw_value(), -768);
    assert_eq!(FixedPointU16::new(512).raw_value(), 512 * 0x10000);
    assert_eq!(FixedPointU16::new_raw(0x48_8000).value(), 0x48);
}

#[test]
fn descriptor_lengths() {
    for size in [0u32, 0x7F, 0x80, 0x3FFF, 0x4000, 0x1FFFFF, 0x200000, 0x0FFF_FFFF] {
        let mut buf = Vec::new();
        let n = write_desc(&mut buf, 4, size).unwrap();
        assert_eq!(n as usize, buf.len());
        assert_eq!(n, 1 + size_of_length(size) as u64);
        let mut reader = Reader::new(&buf);
        assert_eq!(read_desc(&mut reader).unwrap(), (4, size));
    }
    assert_eq!(size_of_length(0x80), 2);
    let buf = vec![4u8, 0x80];
    let mut reader = Reader::new(&buf);
    assert_eq!(read_desc(&mut reader), Err(Error::IoError));
}

#[test]
fn decoder_specific_with_explicit_rate() {
    // frequency index 15 announces a 24-bit sample rate, from whose bits
    // the channel configuration is taken
    let buf = vec![0x17u8, 0x80, 0x00, 0x00, 0x50];
    let mut reader = Reader::new(&buf);
    let d = DecoderSpecificDescriptor::read_desc(&mut reader, 5).unwrap();
    assert_eq!(
        d,
        DecoderSpecificDescriptor {
            profile: 2,
            freq_index: 15,
            chan_conf: 5,
        }
    );
}

fn roundtrip<B: Mp4Box + WriteBox + ReadBox + PartialEq + std::fmt::Debug>(b: &B, name: BoxType) {
    let mut buf = Vec::new();
    b.write_box(&mut buf).unwrap();
    assert_eq!(buf.len(), b.box_size() as usize);
    let mut reader = Reader::new(&buf);
    let header = BoxHeader::read(&mut reader).unwrap();
    assert_eq!(header.name, name);
    let c = B::read_box(&mut reader, header.size).unwrap();
    assert_eq!(&c, b);
}

#[test]
fn sinf_roundtrip() {
    roundtrip(&sinf_box(), BoxType::SinfBox);
}

#[test]
fn enca_roundtrip() {
    let enca = EncaBox {
        mp4a: Some(Mp4aBox {
            data_reference_index: 1,
            channelcount: 2,
            samplesize: 16,
            samplerate: FixedPointU16::new(44100),
            esds: None,
        }),
        sinf: sinf_box(),
    };
    roundtrip(&enca, BoxType::EncaBox);
}

#[test]
fn moof_roundtrip_reports_no_size() {
    let moof = MoofBox {
        mfhd: MfhdBox {
            version: 0,
            flags: 0,
            sequence_number: 7,
        },
        trafs: vec![TrafBox {
            tfhd: TfhdBox {
                version: 0,
                track_id: 1,
                base_data_offset: None,
                sample_description_index: Some(1),
                default_sample_duration: None,
                default_sample_size: None,
                default_sample_flags: None,
                duration_is_empty: false,
                default_base_is_moof: true,
            },
            tfdt: None,
            trun: None,
            saiz: None,
            saio: None,
            senc: None,
        }],
    };
    let mut buf = Vec::new();
    assert_eq!(moof.write_box(&mut buf), Ok(0));
    assert_eq!(buf.len(), moof.box_size() as usize);
    let mut reader = Reader::new(&buf);
    let header = BoxHeader::read(&mut reader).unwrap();
    assert_eq!(header.name, BoxType::MoofBox);
    assert_eq!(MoofBox::read_box(&mut reader, header.size).unwrap(), moof);
}

#[test]
fn mvex_roundtrip_and_missing_trex() {
    let mvex = MvexBox {
        mehd: Some(MehdBox {
            version: 1,
            flags: 0,
            fragment_duration: 1 << 40,
        }),
        trexs: vec![TrexBox {
            version: 0,
            flags: 0,
            track_id: 1,
            default_sample_description_index: 1,
            default_sample_duration: 1000,
            default_sample_size: 0,
            default_sample_flags: 65536,
        }],
    };
    let mut buf = Vec::new();
    mvex.write_box(&mut buf).unwrap();
    assert_eq!(buf.len(), mvex.box_size() as usize);
    let mut reader = Reader::new(&buf);
    let header = BoxHeader::read(&mut reader).unwrap();
    assert_eq!(header.name, BoxType::MvexBox);
    assert_eq!(mvex.box_type(), BoxType::MvexBox);
    assert_eq!(u32::from(MvexBox::default().get_type()), 0x6d766578);
    assert_eq!(MvexBox::read_box(&mut reader, header.size).unwrap(), mvex);

    let empty = MvexBox { mehd: None, trexs: vec![] };
    let mut buf = Vec::new();
    empty.write_box(&mut buf).unwrap();
    let mut reader = Reader::new(&buf);
    let header = BoxHeader::read(&mut reader).unwrap();
    assert_eq!(
        MvexBox::read_box(&mut reader, header.size),
        Err(Error::BoxNotFound(BoxType::TrexBox))
    );
}

#[test]
fn header_versions_refused() {
    let mut tkhd = TkhdBox::default();
    tkhd.version = 2;
    let mut buf = Vec::new();
    assert_eq!(
        tkhd.write_box(&mut buf),
        Err(Error::InvalidData("version must be 0 or 1"))
    );
    assert_eq!(buf.len(), 12);

    let mvhd = MvhdBox::default();
    let mut buf = Vec::new();
    mvhd.write_box(&mut buf).unwrap();
    buf[8] = 2;
    let mut reader = Reader::new(&buf);
    let header = BoxHeader::read(&mut reader).unwrap();
    assert_eq!(
        MvhdBox::read_box(&mut reader, header.size),
        Err(Error::InvalidData("version must be 0 or 1"))
    );
}

#[test]
fn tkhd_dimensions() {
    let mut tkhd = TkhdBox::default();
    tkhd.set_width(1920);
    tkhd.set_height(1080);
    assert_eq!(tkhd.width.value(), 1920);
    assert_eq!(tkhd.height.raw_value(), 1080 << 16);
    assert_eq!(tkhd.volume.value(), 1);
    assert_eq!(tkhd.box_size(), 92);
}

#[test]
fn zero_sized_child_refused() {
    // an mvex box whose only child claims a size of zero
    let buf = vec![0u8, 0, 0, 16, b'm', b'v', b'e', b'x', 0, 0, 0, 0, b'f', b'r', b'e', b'e'];
    let mut reader = Reader::new(&buf);
    let header = BoxHeader::read(&mut reader).unwrap();
    assert_eq!(
        MvexBox::read_box(&mut reader, header.size),
        Err(Error::InvalidData("box size too small"))
    );
}

#[test]
fn vpcc_reads_without_color_primaries() {
    let b = VpccBox {
        version: 1,
        flags: 0,
        profile: 0,
        level: 0x1F,
        bit_depth: 8,
        chroma_subsampling: 0,
        video_full_range_flag: false,
        color_primaries: 1,
        transfer_characteristics: 0,
        matrix_coefficients: 0,
        codec_initialization_data_size: 0,
    };
    let mut buf = Vec::new();
    b.write_box(&mut buf).unwrap();
    let mut reader = Reader::new(&buf);
    let header = BoxHeader::read(&mut reader).unwrap();
    let c = VpccBox::read_box(&mut reader, header.size).unwrap();
    assert_eq!(c.color_primaries, 0);
    assert_eq!(c.transfer_characteristics, 1);
}

#[test]
fn samples_compare_by_timing_and_length() {
    let a = Mp4Sample {
        start_time: 1024,
        duration: 512,
        rendering_offset: -2,
        is_sync: true,
        bytes: vec![1, 2, 3],
    };
    let b = Mp4Sample {
        start_time: 1024,
        duration: 512,
        rendering_offset: -2,
        is_sync: true,
        bytes: vec![9, 9, 9],
    };
    assert!(a == b);
    let c = Mp4Sample {
        bytes: vec![1, 2],
        ..b
    };
    assert!(a != c);
    let d = Mp4Sample {
        start_time: 0,
        duration: 512,
        rendering_offset: -2,
        is_sync: true,
        bytes: vec![1, 2, 3],
    };
    assert!(a != d);
}

#[test]
fn adrm_of_another_size_refused_after_reading() {
    let adrm = AdrmBox {
        drm_blob: [1u8; 48],
        file_checksum: [2u8; 20],
        unknown0: [3u8; 60],
    };
    let mut buf = Vec::new();
    adrm.write_box(&mut buf).unwrap();
    let mut reader = Reader::new(&buf);
    let header = BoxHeader::read(&mut reader).unwrap();
    assert_eq!(header.size, 156);
    assert_eq!(
        AdrmBox::read_box(&mut reader, 160),
        Err(Error::InvalidData("adrm box size mismatch"))
    );
    let short = &buf[..40];
    let mut reader = Reader::new(short);
    BoxHeader::read(&mut reader).unwrap();
    assert_eq!(AdrmBox::read_box(&mut reader, 40), Err(Error::IoError));
}
