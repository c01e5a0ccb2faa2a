use mp4::{
    FixedPointI8, FixedPointU16, FixedPointU8, Matrix, MvhdBox, SmhdBox, TkhdBox, TrackFlag,
    AdrmBox, BoxHeader, BoxType, Co64Box, EmsgBox, FourCC, FtypBox, HdlrBox, MehdBox, Mp4Box,
    ReadBox, Reader, RgbColor, RgbaColor, StscBox, StscEntry, SttsBox, SttsEntry, TfhdBox,
    TrunBox, Tx3gBox, VmhdBox, Vp09Box, Vp9Config, VpccBox, WriteBox,
};

#[test]
fn test_adrm() {
    let src_box = AdrmBox {
        drm_blob: [29u8; 48],
        file_checksum: [244u8; 20],
        unknown0: [113u8; 60],
    };
    let mut buf = Vec::new();
    src_box.write_box(&mut buf).unwrap();
    assert_eq!(buf.len(), src_box.box_size() as usize);

    let mut reader = Reader::new(&buf);
    let header = BoxHeader::read(&mut reader).unwrap();
    assert_eq!(header.name, BoxType::AdrmBox);
    assert_eq!(src_box.box_size(), header.size);

    let dst_box = AdrmBox::read_box(&mut reader, header.size).unwrap();
    assert_eq!(src_box, dst_box);
}

#[test]
fn test_co64() {
    let src_box = Co64Box {
        version: 0,
        flags: 0,
        entries: vec![267, 1970, 2535, 2803, 11843, 22223, 33584],
    };
    let mut buf = Vec::new();
    src_box.write_box(&mut buf).unwrap();
    assert_eq!(buf.len(), src_box.box_size() as usize);

    let mut reader = Reader::new(&buf);
    let header = BoxHeader::read(&mut reader).unwrap();
    assert_eq!(header.name, BoxType::Co64Box);
    assert_eq!(src_box.box_size(), header.size);

    let dst_box = Co64Box::read_box(&mut reader, header.size).unwrap();
    assert_eq!(src_box, dst_box);
}

#[test]
fn test_emsg_version0() {
    let src_box = EmsgBox {
        version: 0,
        flags: 0,
        timescale: 48000,
        presentation_time: None,
        presentation_time_delta: Some(100),
        event_duration: 200,
        id: 8,
        scheme_id_uri: String::from("foo"),
        value: String::from("foo"),
        message_data: vec![1, 2, 3],
    };
    let mut buf = Vec::new();
    src_box.write_box(&mut buf).unwrap();
    assert_eq!(buf.len(), src_box.box_size() as usize);

    let mut reader = Reader::new(&buf);
    let header = BoxHeader::read(&mut reader).unwrap();
    assert_eq!(header.name, BoxType::EmsgBox);
    assert_eq!(src_box.box_size(), header.size);

    let dst_box = EmsgBox::read_box(&mut reader, header.size).unwrap();
    assert_eq!(src_box, dst_box);
}

#[test]
fn test_emsg_version1() {
    let src_box = EmsgBox {
        version: 1,
        flags: 0,
        timescale: 48000,
        presentation_time: Some(50000),
        presentation_time_delta: None,
        event_duration: 200,
        id: 8,
        scheme_id_uri: String::from("foo"),
        value: String::from("foo"),
        message_data: vec![3, 2, 1],
    };
    let mut buf = Vec::new();
    src_box.write_box(&mut buf).unwrap();
    assert_eq!(buf.len(), src_box.box_size() as usize);

    let mut reader = Reader::new(&buf);
    let header = BoxHeader::read(&mut reader).unwrap();
    assert_eq!(header.name, BoxType::EmsgBox);
    assert_eq!(src_box.box_size(), header.size);

    let dst_box = EmsgBox::read_box(&mut reader, header.size).unwrap();
    assert_eq!(src_box, dst_box);
}

#[test]
fn test_ftyp() {
    let src_box = FtypBox {
        major_brand: str::parse("isom").unwrap(),
        minor_version: 0,
        compatible_brands: vec![
            str::parse("isom").unwrap(),
            str::parse("iso2").unwrap(),
            str::parse("avc1").unwrap(),
            str::parse("mp41").unwrap(),
        ],
    };
    let mut buf = Vec::new();
    src_box.write_box(&mut buf).unwrap();
    assert_eq!(buf.len(), src_box.box_size() as usize);

    let mut reader = Reader::new(&buf);
    let header = BoxHeader::read(&mut reader).unwrap();
    assert_eq!(header.name, BoxType::FtypBox);
    assert_eq!(src_box.box_size(), header.size);

    let dst_box = FtypBox::read_box(&mut reader, header.size).unwrap();
    assert_eq!(src_box, dst_box);
}

#[test]
fn test_hdlr() {
    let src_box = HdlrBox {
        version: 0,
        flags: 0,
        handler_type: str::parse::<FourCC>("vide").unwrap(),
        name: String::from("VideoHandler"),
    };
    let mut buf = Vec::new();
    src_box.write_box(&mut buf).unwrap();
    assert_eq!(buf.len(), src_box.box_size() as usize);

    let mut reader = Reader::new(&buf);
    let header = BoxHeader::read(&mut reader).unwrap();
    assert_eq!(header.name, BoxType::HdlrBox);
    assert_eq!(src_box.box_size(), header.size);

    let dst_box = HdlrBox::read_box(&mut reader, header.size).unwrap();
    assert_eq!(src_box, dst_box);
}

#[test]
fn test_mehd32() {
    let src_box = MehdBox {
        version: 0,
        flags: 0,
        fragment_duration: 32,
    };
    let mut buf = Vec::new();
    src_box.write_box(&mut buf).unwrap();
    assert_eq!(buf.len(), src_box.box_size() as usize);

    let mut reader = Reader::new(&buf);
    let header = BoxHeader::read(&mut reader).unwrap();
    assert_eq!(header.name, BoxType::MehdBox);
    assert_eq!(src_box.box_size(), header.size);

    let dst_box = MehdBox::read_box(&mut reader, header.size).unwrap();
    assert_eq!(src_box, dst_box);
}

#[test]
fn test_mehd64() {
    let src_box = MehdBox {
        version: 0,
        flags: 0,
        fragment_duration: 30439936,
    };
    let mut buf = Vec::new();
    src_box.write_box(&mut buf).unwrap();
    assert_eq!(buf.len(), src_box.box_size() as usize);

    let mut reader = Reader::new(&buf);
    let header = BoxHeader::read(&mut reader).unwrap();
    assert_eq!(header.name, BoxType::MehdBox);
    assert_eq!(src_box.box_size(), header.size);

    let dst_box = MehdBox::read_box(&mut reader, header.size).unwrap();
    assert_eq!(src_box, dst_box);
}

#[test]
fn test_stsc() {
    let src_box = StscBox {
        version: 0,
        flags: 0,
        entries: vec![
            StscEntry {
                first_chunk: 1,
                samples_per_chunk: 1,
                sample_description_index: 1,
                first_sample: 1,
            },
            StscEntry {
                first_chunk: 19026,
                samples_per_chunk: 14,
                sample_description_index: 1,
                first_sample: 19026,
            },
        ],
    };
    let mut buf = Vec::new();
    src_box.write_box(&mut buf).unwrap();
    assert_eq!(buf.len(), src_box.box_size() as usize);

    let mut reader = Reader::new(&buf);
    let header = BoxHeader::read(&mut reader).unwrap();
    assert_eq!(header.name, BoxType::StscBox);
    assert_eq!(src_box.box_size(), header.size);

    let dst_box = StscBox::read_box(&mut reader, header.size).unwrap();
    assert_eq!(src_box, dst_box);
}

#[test]
fn test_stts() {
    let src_box = SttsBox {
        version: 0,
        flags: 0,
        entries: vec![
            SttsEntry {
                sample_count: 29726,
                sample_delta: 1024,
            },
            SttsEntry {
                sample_count: 1,
                sample_delta: 512,
            },
        ],
    };
    let mut buf = Vec::new();
    src_box.write_box(&mut buf).unwrap();
    assert_eq!(buf.len(), src_box.box_size() as usize);

    let mut reader = Reader::new(&buf);
    let header = BoxHeader::read(&mut reader).unwrap();
    assert_eq!(header.name, BoxType::SttsBox);
    assert_eq!(src_box.box_size(), header.size);

    let dst_box = SttsBox::read_box(&mut reader, header.size).unwrap();
    assert_eq!(src_box, dst_box);
}

#[test]
fn test_tfhd() {
    let src_box = TfhdBox {
        version: 0,
        track_id: 1,
        base_data_offset: Some(0),
        sample_description_index: None,
        default_sample_duration: None,
        default_sample_size: None,
        default_sample_flags: None,
        duration_is_empty: false,
        default_base_is_moof: false,
    };
    let mut buf = Vec::new();
    src_box.write_box(&mut buf).unwrap();
    assert_eq!(buf.len(), src_box.box_size() as usize);

    let mut reader = Reader::new(&buf);
    let header = BoxHeader::read(&mut reader).unwrap();
    assert_eq!(header.name, BoxType::TfhdBox);
    assert_eq!(src_box.box_size(), header.size);

    let dst_box = TfhdBox::read_box(&mut reader, header.size).unwrap();
    assert_eq!(src_box, dst_box);
}

#[test]
fn test_trun_same_size() {
    let src_box = TrunBox {
        version: 0,
        flags: 0,
        data_offset: None,
        sample_count: 0,
        sample_sizes: vec![],
        sample_flags: vec![],
        first_sample_flags: None,
        sample_durations: vec![],
        sample_cts: vec![],
    };
    let mut buf = Vec::new();
    src_box.write_box(&mut buf).unwrap();
    assert_eq!(buf.len(), src_box.box_size() as usize);

    let mut reader = Reader::new(&buf);
    let header = BoxHeader::read(&mut reader).unwrap();
    assert_eq!(header.name, BoxType::TrunBox);
    assert_eq!(src_box.box_size(), header.size);

    let dst_box = TrunBox::read_box(&mut reader, header.size).unwrap();
    assert_eq!(src_box, dst_box);
}

#[test]
fn test_trun_many_sizes() {
    let src_box = TrunBox {
        version: 0,
        flags: TrunBox::FLAG_SAMPLE_DURATION
            | TrunBox::FLAG_SAMPLE_SIZE
            | TrunBox::FLAG_SAMPLE_FLAGS
            | TrunBox::FLAG_SAMPLE_CTS,
        data_offset: None,
        sample_count: 9,
        sample_sizes: vec![1165, 11, 11, 8545, 10126, 10866, 9643, 9351, 7730],
        sample_flags: vec![1165, 11, 11, 8545, 10126, 10866, 9643, 9351, 7730],
        first_sample_flags: None,
        sample_durations: vec![1165, 11, 11, 8545, 10126, 10866, 9643, 9351, 7730],
        sample_cts: vec![1165, 11, 11, 8545, 10126, 10866, 9643, 9351, 7730],
    };
    let mut buf = Vec::new();
    src_box.write_box(&mut buf).unwrap();
    assert_eq!(buf.len(), src_box.box_size() as usize);

    let mut reader = Reader::new(&buf);
    let header = BoxHeader::read(&mut reader).unwrap();
    assert_eq!(header.name, BoxType::TrunBox);
    assert_eq!(src_box.box_size(), header.size);

    let dst_box = TrunBox::read_box(&mut reader, header.size).unwrap();
    assert_eq!(src_box, dst_box);
}

#[test]
fn test_tx3g() {
    let src_box = Tx3gBox {
        data_reference_index: 1,
        display_flags: 0,
        horizontal_justification: 1,
        vertical_justification: -1,
        bg_color_rgba: RgbaColor {
            red: 0,
            green: 0,
            blue: 0,
            alpha: 255,
        },
        box_record: [0, 0, 0, 0],
        style_record: [0, 0, 0, 0, 0, 1, 0, 16, 255, 255, 255, 255],
    };
    let mut buf = Vec::new();
    src_box.write_box(&mut buf).unwrap();
    assert_eq!(buf.len(), src_box.box_size() as usize);

    let mut reader = Reader::new(&buf);
    let header = BoxHeader::read(&mut reader).unwrap();
    assert_eq!(header.name, BoxType::Tx3gBox);
    assert_eq!(src_box.box_size(), header.size);

    let dst_box = Tx3gBox::read_box(&mut reader, header.size).unwrap();
    assert_eq!(src_box, dst_box);
}

#[test]
fn test_vmhd() {
    let src_box = VmhdBox {
        version: 0,
        flags: 1,
        graphics_mode: 0,
        op_color: RgbColor {
            red: 0,
            green: 0,
            blue: 0,
        },
    };
    let mut buf = Vec::new();
    src_box.write_box(&mut buf).unwrap();
    assert_eq!(buf.len(), src_box.box_size() as usize);

    let mut reader = Reader::new(&buf);
    let header = BoxHeader::read(&mut reader).unwrap();
    assert_eq!(header.name, BoxType::VmhdBox);
    assert_eq!(src_box.box_size(), header.size);

    let dst_box = VmhdBox::read_box(&mut reader, header.size).unwrap();
    assert_eq!(src_box, dst_box);
}

#[test]
fn vpcc_test_vpcc() {
    let src_box = VpccBox {
        version: VpccBox::DEFAULT_VERSION,
        flags: 0,
        profile: 0,
        level: 0x1F,
        bit_depth: VpccBox::DEFAULT_BIT_DEPTH,
        chroma_subsampling: 0,
        video_full_range_flag: false,
        color_primaries: 0,
        transfer_characteristics: 0,
        matrix_coefficients: 0,
        codec_initialization_data_size: 0,
    };
    let mut buf = Vec::new();
    src_box.write_box(&mut buf).unwrap();
    assert_eq!(buf.len(), src_box.box_size() as usize);

    let mut reader = Reader::new(&buf);
    let header = BoxHeader::read(&mut reader).unwrap();
    assert_eq!(header.name, BoxType::VpccBox);
    assert_eq!(src_box.box_size(), header.size);

    let dst_box = VpccBox::read_box(&mut reader, header.size).unwrap();
    assert_eq!(src_box, dst_box);
}

#[test]
fn test_fourcc() {
    let ftyp_fcc = 0x66747970;
    let ftyp_value = FourCC::from(ftyp_fcc);
    assert_eq!(&ftyp_value.value[..], b"ftyp");
    let ftyp_fcc2: u32 = ftyp_value.into();
    assert_eq!(ftyp_fcc, ftyp_fcc2);
}

#[test]
fn vp09_test_vpcc() {
    let src_box = Vp09Box::new(&Vp9Config {
        width: 1920,
        height: 1080,
    });
    let mut buf = Vec::new();
    src_box.write_box(&mut buf).unwrap();
    assert_eq!(buf.len(), src_box.box_size() as usize);

    let mut reader = Reader::new(&buf);
    let header = BoxHeader::read(&mut reader).unwrap();
    assert_eq!(header.name, BoxType::Vp09Box);
    assert_eq!(src_box.box_size(), header.size);

    let dst_box = Vp09Box::read_box(&mut reader, header.size).unwrap();
    assert_eq!(src_box, dst_box);
}

#[test]
fn test_tkhd32() {
    let src_box = TkhdBox {
        version: 0,
        flags: TrackFlag::TrackEnabled.value(),
        creation_time: 100,
        modification_time: 200,
        track_id: 1,
        duration: 634634,
        layer: 0,
        alternate_group: 0,
        volume: FixedPointU8::new(1),
        matrix: Matrix::default(),
        width: FixedPointU16::new(512),
        height: FixedPointU16::new(288),
    };
    let mut buf = Vec::new();
    src_box.write_box(&mut buf).unwrap();
    assert_eq!(buf.len(), src_box.box_size() as usize);

    let mut reader = Reader::new(&buf);
    let header = BoxHeader::read(&mut reader).unwrap();
    assert_eq!(header.name, BoxType::TkhdBox);
    assert_eq!(src_box.box_size(), header.size);

    let dst_box = TkhdBox::read_box(&mut reader, header.size).unwrap();
    assert_eq!(src_box, dst_box);
}

#[test]
fn test_tkhd64() {
    let src_box = TkhdBox {
        version: 1,
        flags: TrackFlag::TrackEnabled.value(),
        creation_time: 100,
        modification_time: 200,
        track_id: 1,
        duration: 634634,
        layer: 0,
        alternate_group: 0,
        volume: FixedPointU8::new(1),
        matrix: Matrix::default(),
        width: FixedPointU16::new(512),
        height: FixedPointU16::new(288),
    };
    let mut buf = Vec::new();
    src_box.write_box(&mut buf).unwrap();
    assert_eq!(buf.len(), src_box.box_size() as usize);

    let mut reader = Reader::new(&buf);
    let header = BoxHeader::read(&mut reader).unwrap();
    assert_eq!(header.name, BoxType::TkhdBox);
    assert_eq!(src_box.box_size(), header.size);

    let dst_box = TkhdBox::read_box(&mut reader, header.size).unwrap();
    assert_eq!(src_box, dst_box);
}

#[test]
fn test_mvhd32() {
    let src_box = MvhdBox {
        version: 0,
        flags: 0,
        creation_time: 100,
        modification_time: 200,
        timescale: 1000,
        duration: 634634,
        rate: FixedPointU16::new(1),
    };
    let mut buf = Vec::new();
    src_box.write_box(&mut buf).unwrap();
    assert_eq!(buf.len(), src_box.box_size() as usize);

    let mut reader = Reader::new(&buf);
    let header = BoxHeader::read(&mut reader).unwrap();
    assert_eq!(header.name, BoxType::MvhdBox);
    assert_eq!(src_box.box_size(), header.size);

    let dst_box = MvhdBox::read_box(&mut reader, header.size).unwrap();
    assert_eq!(src_box, dst_box);
}

#[test]
fn test_mvhd64() {
    let src_box = MvhdBox {
        version: 1,
        flags: 0,
        creation_time: 100,
        modification_time: 200,
        timescale: 1000,
        duration: 634634,
        rate: FixedPointU16::new(1),
    };
    let mut buf = Vec::new();
    src_box.write_box(&mut buf).unwrap();
    assert_eq!(buf.len(), src_box.box_size() as usize);

    let mut reader = Reader::new(&buf);
    let header = BoxHeader::read(&mut reader).unwrap();
    assert_eq!(header.name, BoxType::MvhdBox);
    assert_eq!(src_box.box_size(), header.size);

    let dst_box = MvhdBox::read_box(&mut reader, header.size).unwrap();
    assert_eq!(src_box, dst_box);
}

#[test]
fn test_smhd() {
    let src_box = SmhdBox {
        version: 0,
        flags: 0,
        balance: FixedPointI8::new_raw(-1),
    };
    let mut buf = Vec::new();
    src_box.write_box(&mut buf).unwrap();
    assert_eq!(buf.len(), src_box.box_size() as usize);

    let mut reader = Reader::new(&buf);
    let header = BoxHeader::read(&mut reader).unwrap();
    assert_eq!(header.name, BoxType::SmhdBox);
    assert_eq!(src_box.box_size(), header.size);

    let dst_box = SmhdBox::read_box(&mut reader, header.size).unwrap();
    assert_eq!(src_box, dst_box);
}
