use mp4::{
    AuxiliaryInfoType, AvcConfig, Avc1Box, BoxHeader, BoxType, EncvBox, FourCC, FrmaBox, MfhdBox, MoofBox, Mp4Box,
    ReadBox, Reader, SaioBox, SaizBox, SchmBox, SencBox, SinfBox, TfdtBox, TfhdBox, TrafBox, TrunBox, Vp09Box,
    Vp9Config, WriteBox,
};

fn write_then_read<B: Mp4Box + WriteBox + ReadBox>(b: &B, name: BoxType) -> B {
    let mut buf = Vec::new();
    b.write_box(&mut buf).unwrap();
    assert_eq!(buf.len(), b.box_size() as usize);
    let mut reader = Reader::new(&buf);
    let header = BoxHeader::read(&mut reader).unwrap();
    assert_eq!(header.name, name);
    assert_eq!(header.size, b.box_size());
    B::read_box(&mut reader, header.size).unwrap()
}

fn full_traf() -> TrafBox {
    TrafBox {
        tfhd: TfhdBox {
            version: 0,
            track_id: 2,
            base_data_offset: Some(1000),
            sample_description_index: None,
            default_sample_duration: Some(512),
            default_sample_size: None,
            default_sample_flags: Some(0x0101_0000),
            duration_is_empty: false,
            default_base_is_moof: false,
        },
        tfdt: Some(TfdtBox {
            version: 1,
            base_media_decode_time: 0x1_0000_0000,
        }),
        trun: Some(TrunBox {
            version: 0,
            flags: 0x01 | 0x200,
            sample_count: 3,
            data_offset: Some(-8),
            first_sample_flags: None,
            sample_durations: vec![],
            sample_sizes: vec![10, 20, 30],
            sample_flags: vec![],
            sample_cts: vec![],
        }),
        saiz: Some(SaizBox {
            aux_info: Some(AuxiliaryInfoType {
                aux_info_type: 0x63656e63,
                aux_info_type_parameter: 0,
            }),
            default_sample_info_size: 0,
            sample_count: 3,
            sample_info_sizes: vec![8, 8, 16],
        }),
        saio: Some(SaioBox {
            version: 1,
            aux_info: None,
            entry_count: 2,
            offsets: vec![64, 0x1_0000_0000],
        }),
        senc: Some(SencBox {
            version: 0,
            flags: 0,
            sample_count: 3,
            sample_data: vec![1, 2, 3, 4, 5, 6, 7, 8],
        }),
    }
}

#[test]
fn traf_roundtrip_every_child() {
    let traf = full_traf();
    assert_eq!(write_then_read(&traf, BoxType::TrafBox), traf);
}

#[test]
fn traf_roundtrip_header_only() {
    let mut traf = full_traf();
    traf.tfdt = None;
    traf.trun = None;
    traf.saiz = None;
    traf.saio = None;
    traf.senc = None;
    assert_eq!(write_then_read(&traf, BoxType::TrafBox), traf);
}

#[test]
fn moof_roundtrip_two_fragments() {
    let mut second = full_traf();
    second.tfhd.track_id = 3;
    second.saio = None;
    let moof = MoofBox {
        mfhd: MfhdBox {
            version: 0,
            flags: 0,
            sequence_number: 9,
        },
        trafs: vec![full_traf(), second],
    };
    let mut buf = Vec::new();
    moof.write_box(&mut buf).unwrap();
    assert_eq!(buf.len(), moof.box_size() as usize);
    let mut reader = Reader::new(&buf);
    let header = BoxHeader::read(&mut reader).unwrap();
    assert_eq!(header.name, BoxType::MoofBox);
    assert_eq!(MoofBox::read_box(&mut reader, header.size).unwrap(), moof);
}

fn protection(format: &[u8; 4]) -> SinfBox {
    SinfBox {
        frma: FrmaBox {
            original_format: FourCC::from(*format),
        },
        schm: Some(SchmBox {
            version: 0,
            scheme_type: FourCC::from(*b"cbcs"),
            scheme_version: 0x10000,
        }),
        schi: None,
    }
}

#[test]
fn encv_roundtrip_vp09() {
    let encv = EncvBox {
        avc1: None,
        vp09: Some(Vp09Box::new(&Vp9Config {
            width: 640,
            height: 360,
        })),
        sinf: protection(b"vp09"),
    };
    assert_eq!(write_then_read(&encv, BoxType::EncvBox), encv);
}

#[test]
fn encv_roundtrip_avc1() {
    let mut avc1 = Avc1Box::new(&AvcConfig {
        width: 320,
        height: 240,
        seq_param_set: vec![0x67, 0x64, 0x00, 0x0D, 0xAC],
        pic_param_set: vec![0x68, 0xEB, 0xE3],
    });
    avc1.avcc.length_size_minus_one = 3;
    let encv = EncvBox {
        avc1: Some(avc1),
        vp09: None,
        sinf: protection(b"avc1"),
    };
    assert_eq!(write_then_read(&encv, BoxType::EncvBox), encv);
}

#[test]
fn encv_roundtrip_other_format() {
    let encv = EncvBox {
        avc1: None,
        vp09: None,
        sinf: protection(b"hev1"),
    };
    assert_eq!(write_then_read(&encv, BoxType::EncvBox), encv);
}
