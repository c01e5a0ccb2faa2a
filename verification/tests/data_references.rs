use mp4::{BoxHeader, BoxType, DinfBox, DrefBox, Mp4Box, ReadBox, Reader, UrlBox, WriteBox};

#[test]
fn dref_roundtrip_with_location() {
    let dref = DrefBox {
        version: 0,
        flags: 0,
        url: UrlBox {
            version: 0,
            flags: 0,
            location: String::from("http://example.com/media"),
        },
    };
    let mut buf = Vec::new();
    dref.write_box(&mut buf).unwrap();
    assert_eq!(buf.len(), dref.box_size() as usize);
    let mut reader = Reader::new(&buf);
    let header = BoxHeader::read(&mut reader).unwrap();
    assert_eq!(header.name, BoxType::DrefBox);
    assert_eq!(DrefBox::read_box(&mut reader, header.size).unwrap(), dref);
}

#[test]
fn dinf_default_roundtrip() {
    let dinf = DinfBox::default();
    let mut buf = Vec::new();
    dinf.write_box(&mut buf).unwrap();
    assert_eq!(buf.len(), dinf.box_size() as usize);
    assert_eq!(buf.len(), 36);
    let mut reader = Reader::new(&buf);
    let header = BoxHeader::read(&mut reader).unwrap();
    assert_eq!(header.name, BoxType::DinfBox);
    assert_eq!(DinfBox::read_box(&mut reader, header.size).unwrap(), dinf);
}
