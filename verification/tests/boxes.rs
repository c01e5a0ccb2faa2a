use mp4::{BoxHeader, BoxType, MfhdBox, Mp4Box, ReadBox, Reader, TrexBox, WriteBox};

#[test]
fn test_mfhd() {
    let src_box = MfhdBox {
        version: 0,
        flags: 0,
        sequence_number: 1,
    };
    let mut buf = Vec::new();
    src_box.write_box(&mut buf).unwrap();
    assert_eq!(buf.len(), src_box.box_size() as usize);

    let mut reader = Reader::new(&buf);
    let header = BoxHeader::read(&mut reader).unwrap();
    assert_eq!(header.name, BoxType::MfhdBox);
    assert_eq!(src_box.box_size(), header.size);

    let dst_box = MfhdBox::read_box(&mut reader, header.size).unwrap();
    assert_eq!(src_box, dst_box);
}

#[test]
fn test_trex() {
    let src_box = TrexBox {
        version: 0,
        flags: 0,
        track_id: 1,
        default_sample_description_index: 1,
        default_sample_duration: 1000,
        default_sample_size: 0,
        default_sample_flags: 65536,
    };
    let mut buf = Vec::new();
    src_box.write_box(&mut buf).unwrap();
    assert_eq!(buf.len(), src_box.box_size() as usize);

    let mut reader = Reader::new(&buf);
    let header = BoxHeader::read(&mut reader).unwrap();
    assert_eq!(header.name, BoxType::TrexBox);
    assert_eq!(src_box.box_size(), header.size);

    let dst_box = TrexBox::read_box(&mut reader, header.size).unwrap();
    assert_eq!(src_box, dst_box);
}
