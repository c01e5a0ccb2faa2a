use mp4::{Avc1Box, AvcCBox, BoxHeader, BoxType, FixedPointU16, Mp4Box, NalUnit, ReadBox, Reader, WriteBox};

#[test]
fn test_avc1() {
    let src_box = Avc1Box {
        data_reference_index: 1,
        width: 320,
        height: 240,
        horizresolution: FixedPointU16::new(0x48),
        vertresolution: FixedPointU16::new(0x48),
        frame_count: 1,
        depth: 24,
        avcc: AvcCBox {
            configuration_version: 1,
            avc_profile_indication: 100,
            profile_compatibility: 0,
            avc_level_indication: 13,
            length_size_minus_one: 3,
            sequence_parameter_sets: vec![NalUnit {
                bytes: vec![
                    0x67, 0x64, 0x00, 0x0D, 0xAC, 0xD9, 0x41, 0x41, 0xFA, 0x10, 0x00, 0x00, 0x03, 0x00,
                    0x10, 0x00, 0x00, 0x03, 0x03, 0x20, 0xF1, 0x42, 0x99, 0x60,
                ],
            }],
            picture_parameter_sets: vec![NalUnit {
                bytes: vec![0x68, 0xEB, 0xE3, 0xCB, 0x22, 0xC0],
            }],
        },
    };
    let mut buf = Vec::new();
    src_box.write_box(&mut buf).unwrap();
    assert_eq!(buf.len(), src_box.box_size() as usize);

    let mut reader = Reader::new(&buf);
    let header = BoxHeader::read(&mut reader).unwrap();
    assert_eq!(header.name, BoxType::Avc1Box);
    assert_eq!(src_box.box_size(), header.size);

    let dst_box = Avc1Box::read_box(&mut reader, header.size).unwrap();
    assert_eq!(src_box, dst_box);
}
