use mp4::{
    AacConfig, AudioObjectType, AvcConfig, Avc1Box, BoxHeader, BoxType, ChannelConfig, Mp4Box, Mp4aBox, ReadBox,
    Reader, RgbaColor, SampleFreqIndex, StsdBox, Tx3gBox, WriteBox,
};

fn write_then_read(b: &StsdBox) -> StsdBox {
    let mut buf = Vec::new();
    assert_eq!(b.write_box(&mut buf).unwrap(), b.box_size());
    assert_eq!(buf.len(), b.box_size() as usize);
    let mut reader = Reader::new(&buf);
    let header = BoxHeader::read(&mut reader).unwrap();
    assert_eq!(header.name, BoxType::StsdBox);
    assert_eq!(header.size, b.box_size());
    StsdBox::read_box(&mut reader, header.size).unwrap()
}

#[test]
fn stsd_roundtrip_mp4a() {
    let stsd = StsdBox {
        version: 0,
        flags: 0,
        avc1: None,
        mp4a: Some(Mp4aBox::new(&AacConfig {
            bitrate: 128000,
            profile: AudioObjectType::AacLowComplexity,
            freq_index: SampleFreqIndex::Freq44100,
            chan_conf: ChannelConfig::Stereo,
        })),
        tx3g: None,
    };
    assert_eq!(write_then_read(&stsd), stsd);
}

#[test]
fn stsd_roundtrip_avc1() {
    let mut avc1 = Avc1Box::new(&AvcConfig {
        width: 1280,
        height: 720,
        seq_param_set: vec![0x67, 0x64, 0x00, 0x1F, 0xAC],
        pic_param_set: vec![0x68, 0xEE, 0x3C, 0x80],
    });
    avc1.avcc.length_size_minus_one = 3;
    let stsd = StsdBox {
        version: 0,
        flags: 0,
        avc1: Some(avc1),
        mp4a: None,
        tx3g: None,
    };
    assert_eq!(write_then_read(&stsd), stsd);
}

#[test]
fn avcc_length_size_keeps_two_bits() {
    let avc1 = Avc1Box::new(&AvcConfig {
        width: 1280,
        height: 720,
        seq_param_set: vec![0x67, 0x64, 0x00, 0x1F, 0xAC],
        pic_param_set: vec![0x68, 0xEE, 0x3C, 0x80],
    });
    assert_eq!(avc1.avcc.length_size_minus_one, 0xff);
    let stsd = StsdBox {
        version: 0,
        flags: 0,
        avc1: Some(avc1),
        mp4a: None,
        tx3g: None,
    };
    let read = write_then_read(&stsd);
    assert_eq!(read.avc1.unwrap().avcc.length_size_minus_one, 3);
}

#[test]
fn stsd_roundtrip_tx3g() {
    let stsd = StsdBox {
        version: 0,
        flags: 0,
        avc1: None,
        mp4a: None,
        tx3g: Some(Tx3gBox {
            data_reference_index: 1,
            display_flags: 0,
            horizontal_justification: 1,
            vertical_justification: -1,
            bg_color_rgba: RgbaColor {
                red: 0,
                green: 0,
                blue: 0,
                alpha: 255,
            },
            box_record: [0, 0, 0, 0],
            style_record: [0, 0, 0, 0, 0, 1, 0, 16, 255, 255, 255, 255],
        }),
    };
    assert_eq!(write_then_read(&stsd), stsd);
}

#[test]
fn stsd_writes_first_entry_only() {
    let audio = Mp4aBox::new(&AacConfig::default());
    let mut video = Avc1Box::new(&AvcConfig {
        width: 16,
        height: 16,
        seq_param_set: vec![0x67, 0x42, 0x00, 0x0A],
        pic_param_set: vec![0x68],
    });
    video.avcc.length_size_minus_one = 3;
    let stsd = StsdBox {
        version: 0,
        flags: 0,
        avc1: Some(video.clone()),
        mp4a: Some(audio),
        tx3g: None,
    };
    let read = write_then_read(&stsd);
    assert_eq!(read.avc1, Some(video));
    assert_eq!(read.mp4a, None);
}
