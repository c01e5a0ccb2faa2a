use mp4::{
    BoxHeader, BoxType, DataBox, DataType, FourCC, HdlrBox, IlstBox, IlstItemBox, MetaBox, MetadataKey, Metadata,
    Mp4Box, ReadBox, Reader, WriteBox,
};

#[test]
fn test_ilst() {
    let src_year = IlstItemBox {
        data: DataBox {
            data_type: DataType::Text,
            data: b"test_year".to_vec(),
        },
    };
    let src_box = IlstBox {
        items: [
            (MetadataKey::Title, IlstItemBox::default()),
            (MetadataKey::Year, src_year),
            (MetadataKey::Poster, IlstItemBox::default()),
            (MetadataKey::Summary, IlstItemBox::default()),
        ]
        .into(),
    };
    let mut buf = Vec::new();
    src_box.write_box(&mut buf).unwrap();
    assert_eq!(buf.len(), src_box.box_size() as usize);

    let mut reader = Reader::new(&buf);
    let header = BoxHeader::read(&mut reader).unwrap();
    assert_eq!(header.name, BoxType::IlstBox);
    assert_eq!(src_box.box_size(), header.size);

    let dst_box = IlstBox::read_box(&mut reader, header.size).unwrap();
    assert_eq!(src_box, dst_box);
}

#[test]
fn test_ilst_empty() {
    let src_box = IlstBox::default();
    let mut buf = Vec::new();
    src_box.write_box(&mut buf).unwrap();
    assert_eq!(buf.len(), src_box.box_size() as usize);

    let mut reader = Reader::new(&buf);
    let header = BoxHeader::read(&mut reader).unwrap();
    assert_eq!(header.name, BoxType::IlstBox);
    assert_eq!(src_box.box_size(), header.size);

    let dst_box = IlstBox::read_box(&mut reader, header.size).unwrap();
    assert_eq!(src_box, dst_box);
}

#[test]
fn test_meta_mdir_empty() {
    let src_box = MetaBox::Mdir { ilst: None };

    let mut buf = Vec::new();
    src_box.write_box(&mut buf).unwrap();
    assert_eq!(buf.len(), src_box.box_size() as usize);

    let mut reader = Reader::new(&buf);
    let header = BoxHeader::read(&mut reader).unwrap();
    assert_eq!(header.name, BoxType::MetaBox);
    assert_eq!(header.size, src_box.box_size());

    let dst_box = MetaBox::read_box(&mut reader, header.size).unwrap();
    assert_eq!(dst_box, src_box);
}

#[test]
fn test_meta_mdir() {
    let src_box = MetaBox::Mdir {
        ilst: Some(IlstBox::default()),
    };

    let mut buf = Vec::new();
    src_box.write_box(&mut buf).unwrap();
    assert_eq!(buf.len(), src_box.box_size() as usize);

    let mut reader = Reader::new(&buf);
    let header = BoxHeader::read(&mut reader).unwrap();
    assert_eq!(header.name, BoxType::MetaBox);
    assert_eq!(header.size, src_box.box_size());

    let dst_box = MetaBox::read_box(&mut reader, header.size).unwrap();
    assert_eq!(dst_box, src_box);
}

#[test]
fn test_meta_unknown() {
    let src_hdlr = HdlrBox {
        handler_type: FourCC::from(*b"test"),
        ..Default::default()
    };
    let src_data = b"123";
    let src_box = MetaBox::Unknown {
        hdlr: src_hdlr,
        data: src_data.to_vec(),
    };

    let mut buf = Vec::new();
    src_box.write_box(&mut buf).unwrap();
    assert_eq!(buf.len(), src_box.box_size() as usize);

    let mut reader = Reader::new(&buf);
    let header = BoxHeader::read(&mut reader).unwrap();
    assert_eq!(header.name, BoxType::MetaBox);
    assert_eq!(header.size, src_box.box_size());

    let dst_box = MetaBox::read_box(&mut reader, header.size).unwrap();
    assert_eq!(dst_box, src_box);
}

#[test]
fn ilst_metadata_values() {
    let item = |data_type: DataType, data: &[u8]| IlstItemBox {
        data: DataBox {
            data_type,
            data: data.to_vec(),
        },
    };
    let ilst = IlstBox {
        items: vec![
            (MetadataKey::Title, item(DataType::Text, b"A title")),
            (MetadataKey::Year, item(DataType::Text, b"2020")),
            (MetadataKey::Poster, item(DataType::Image, &[1, 2, 3])),
        ],
    };
    assert_eq!(ilst.title(), Some(String::from("A title")));
    assert_eq!(ilst.year(), Some(2020));
    assert_eq!(ilst.poster(), Some(&[1u8, 2, 3][..]));
    assert_eq!(ilst.summary(), None);

    let binary_year = IlstBox {
        items: vec![(MetadataKey::Year, item(DataType::Binary, &[0, 0, 7, 228]))],
    };
    assert_eq!(binary_year.year(), Some(2020));
    let bad_year = IlstBox {
        items: vec![(MetadataKey::Year, item(DataType::Text, b"20x0"))],
    };
    assert_eq!(bad_year.year(), None);
    let lossy = IlstBox {
        items: vec![(MetadataKey::Summary, item(DataType::Text, &[b'a', 0xff]))],
    };
    assert_eq!(lossy.summary(), Some(String::from("a\u{fffd}")));
}

#[test]
fn ilst_keeps_last_of_a_kind() {
    // two title items: the second replaces the first, in the first's place
    let item = |data: &[u8]| IlstItemBox {
        data: DataBox {
            data_type: DataType::Text,
            data: data.to_vec(),
        },
    };
    let mut buf = Vec::new();
    let first = IlstBox {
        items: vec![(MetadataKey::Title, item(b"one")), (MetadataKey::Summary, item(b"s"))],
    };
    first.write_box(&mut buf).unwrap();
    let second = IlstBox {
        items: vec![(MetadataKey::Title, item(b"two"))],
    };
    let mut more = Vec::new();
    second.write_box(&mut more).unwrap();
    // splice the items of the second list into the first
    let mut joined = buf.clone();
    joined.extend_from_slice(&more[8..]);
    let total = joined.len() as u32;
    joined[0..4].copy_from_slice(&total.to_be_bytes());
    let mut reader = Reader::new(&joined);
    let header = BoxHeader::read(&mut reader).unwrap();
    let read = IlstBox::read_box(&mut reader, header.size).unwrap();
    assert_eq!(
        read.items,
        vec![(MetadataKey::Title, item(b"two")), (MetadataKey::Summary, item(b"s"))]
    );
}

#[test]
fn ilst_equality_ignores_order() {
    let item = |data: &[u8]| IlstItemBox {
        data: DataBox {
            data_type: DataType::Text,
            data: data.to_vec(),
        },
    };
    let a = IlstBox {
        items: vec![(MetadataKey::Title, item(b"t")), (MetadataKey::Year, item(b"2000"))],
    };
    let b = IlstBox {
        items: vec![(MetadataKey::Year, item(b"2000")), (MetadataKey::Title, item(b"t"))],
    };
    assert_eq!(a, b);
    let c = IlstBox {
        items: vec![(MetadataKey::Year, item(b"2001")), (MetadataKey::Title, item(b"t"))],
    };
    assert_ne!(a, c);
    let d = IlstBox {
        items: vec![(MetadataKey::Title, item(b"t"))],
    };
    assert_ne!(a, d);
}
