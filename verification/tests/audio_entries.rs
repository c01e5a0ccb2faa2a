use mp4::mp4box::descriptor::read_desc;
use mp4::{
    BoxHeader, BoxType, DecoderConfigDescriptor, DecoderSpecificDescriptor, ESDescriptor, EsdsBox,
    FixedPointU16, Mp4Box, Mp4aBox, ReadBox, Reader, SLConfigDescriptor, WriteBox,
};

#[test]
fn test_mp4a() {
    let src_box = Mp4aBox {
        data_reference_index: 1,
        channelcount: 2,
        samplesize: 16,
        samplerate: FixedPointU16::new(48000),
        esds: Some(EsdsBox {
            version: 0,
            flags: 0,
            es_desc: ESDescriptor {
                es_id: 2,
                dec_config: DecoderConfigDescriptor {
                    object_type_indication: 0x40,
                    stream_type: 0x05,
                    up_stream: 0,
                    buffer_size_db: 0,
                    max_bitrate: 67695,
                    avg_bitrate: 67695,
                    dec_specific: DecoderSpecificDescriptor {
                        profile: 2,
                        freq_index: 3,
                        chan_conf: 1,
                    },
                },
                sl_config: SLConfigDescriptor::default(),
            },
        }),
    };
    let mut buf = Vec::new();
    src_box.write_box(&mut buf).unwrap();
    assert_eq!(buf.len(), src_box.box_size() as usize);

    let mut reader = Reader::new(&buf);
    let header = BoxHeader::read(&mut reader).unwrap();
    assert_eq!(header.name, BoxType::Mp4aBox);
    assert_eq!(src_box.box_size(), header.size);

    let dst_box = Mp4aBox::read_box(&mut reader, header.size).unwrap();
    assert_eq!(src_box, dst_box);
}

#[test]
fn test_mp4a_no_esds() {
    let src_box = Mp4aBox {
        data_reference_index: 1,
        channelcount: 2,
        samplesize: 16,
        samplerate: FixedPointU16::new(48000),
        esds: None,
    };
    let mut buf = Vec::new();
    src_box.write_box(&mut buf).unwrap();
    assert_eq!(buf.len(), src_box.box_size() as usize);

    let mut reader = Reader::new(&buf);
    let header = BoxHeader::read(&mut reader).unwrap();
    assert_eq!(header.name, BoxType::Mp4aBox);
    assert_eq!(src_box.box_size(), header.size);

    let dst_box = Mp4aBox::read_box(&mut reader, header.size).unwrap();
    assert_eq!(src_box, dst_box);
}

#[test]
fn test_decoder_specific_descriptor() {
    let test_dec_spec = |src_dec_spec: DecoderSpecificDescriptor| {
        let mut buf = Vec::new();
        let written = src_dec_spec.write_desc(&mut buf).unwrap();
        // expect two extra bytes for the tag and size fields
        assert_eq!(buf.len(), written as usize + 2);

        let mut reader = Reader::new(&buf);
        let (tag, size) = read_desc(&mut reader).unwrap();
        assert_eq!(5, tag);
        assert_eq!(size, written);

        let dst_dec_spec = DecoderSpecificDescriptor::read_desc(&mut reader, written).unwrap();
        assert_eq!(src_dec_spec, dst_dec_spec);
    };

    test_dec_spec(DecoderSpecificDescriptor {
        profile: 2,    // LC
        freq_index: 4, // 44100
        chan_conf: 2,  // Stereo
    });
    test_dec_spec(DecoderSpecificDescriptor {
        profile: 5,    // SpectralBandReplication (HEv1)
        freq_index: 3, // 48000
        chan_conf: 1,  // Mono
    });
    test_dec_spec(DecoderSpecificDescriptor {
        profile: 29,   // ParametricStereo (HEv2)
        freq_index: 2, // 64000
        chan_conf: 7,  // SevenOne
    });
    test_dec_spec(DecoderSpecificDescriptor {
        profile: 34,   // MpegLayer3
        freq_index: 4, // 44100
        chan_conf: 2,  // Stereo
    });
    test_dec_spec(DecoderSpecificDescriptor {
        profile: 42,    // UnifiedSpeechAudioCoding (xHE)
        freq_index: 11, // 8000
        chan_conf: 6,   // FiveOne
    });
}

#[test]
fn test_opus_writer() {
    let dops = mp4::DopsBox {
        version: 0,
        pre_skip: 1,
        input_sample_rate: 2,
        output_gain: 3,
        channel_mapping_family: mp4::ChannelMappingFamily::Family0 { stereo: false },
    };
    let opus = mp4::OpusBox {
        data_reference_index: 1,
        channelcount: 1,
        samplesize: 2,
        samplerate: FixedPointU16::new(48000),
        dops,
    };
    let mut buffer = Vec::<u8>::new();
    opus.write_box(&mut buffer).expect("write_box failed");
}
