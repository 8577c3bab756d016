use sqlite_reader::{
    Cell, DbHeader, Error, Page, PageType, Record, SerialType, SerialValue,
};

fn record_payload(columns: &[(u8, Vec<u8>)]) -> Vec<u8> {
    // Single-byte serial-type varints only.
    let hlen = 1 + columns.len();
    assert!(hlen < 128);
    let mut payload = vec![hlen as u8];
    for (code, _) in columns {
        assert!(*code < 128);
        payload.push(*code);
    }
    for (_, body) in columns {
        payload.extend_from_slice(body);
    }
    payload
}

#[test]
fn record_round_trip() {
    // Columns: NULL, 42 as a one-byte integer, the text "hello", 3.14 as a
    // double.  Header: length varint (1) + one type varint each.
    let cols: Vec<(u8, Vec<u8>)> = vec![
        (0, vec![]),
        (1, vec![42]),
        (13 + 2 * 5, b"hello".to_vec()),
        (7, 3.14f64.to_be_bytes().to_vec()),
    ];
    let payload = record_payload(&cols);
    assert_eq!(payload[0], 5); // 1 + 1 + 1 + 1 + 1 header bytes
    let rec = Record::new(&payload).unwrap();
    assert_eq!(rec.columns.len(), 4);
    assert_eq!(*rec.columns[0].data(), SerialValue::Null);
    assert_eq!(*rec.columns[1].data(), SerialValue::Integer(42));
    assert_eq!(
        *rec.columns[2].data(),
        SerialValue::Text(b"hello".to_vec())
    );
    assert_eq!(
        *rec.columns[3].data(),
        SerialValue::Float64(3.14f64.to_bits())
    );
    assert_eq!(rec.columns[1].key(), SerialType::I8);
    assert_eq!(rec.columns[2].key(), SerialType::Text(5));
}

#[test]
fn record_wide_integers_sign_extend() {
    let cols: Vec<(u8, Vec<u8>)> = vec![
        (2, vec![0xff, 0xfe]),                                     // -2 in 2 bytes
        (3, vec![0x80, 0x00, 0x00]),                               // -2^23
        (4, vec![0x00, 0x00, 0x01, 0x00]),                         // 256
        (5, vec![0xff, 0xff, 0xff, 0xff, 0xff, 0xff]),             // -1 in 6 bytes
        (6, vec![0x7f, 0xff, 0xff, 0xff, 0xff, 0xff, 0xff, 0xff]), // i64::MAX
        (8, vec![]),                                               // literal 0
        (9, vec![]),                                               // literal 1
    ];
    let rec = Record::new(&record_payload(&cols)).unwrap();
    assert_eq!(*rec.columns[0].data(), SerialValue::Integer(-2));
    assert_eq!(*rec.columns[1].data(), SerialValue::Integer(-(1 << 23)));
    assert_eq!(*rec.columns[2].data(), SerialValue::Integer(256));
    assert_eq!(*rec.columns[3].data(), SerialValue::Integer(-1));
    assert_eq!(*rec.columns[4].data(), SerialValue::Integer(i64::MAX));
    assert_eq!(*rec.columns[5].data(), SerialValue::Integer(0));
    assert_eq!(*rec.columns[6].data(), SerialValue::Integer(1));
}

#[test]
fn record_invalid_serial_type() {
    // Serial type 10 is reserved.
    let payload = vec![2u8, 10];
    assert_eq!(Record::new(&payload), Err(Error::InvalidSerialType));
}

#[test]
fn record_truncated_body() {
    // One text column of 5 bytes, but only 2 bytes of body.
    let payload = vec![2u8, 23, b'h', b'i'];
    assert_eq!(Record::new(&payload), Err(Error::TruncatedRecord));
}

#[test]
fn serial_type_table() {
    assert_eq!(SerialType::read(0), Ok(SerialType::Null));
    assert_eq!(SerialType::read(6), Ok(SerialType::I64));
    assert_eq!(SerialType::read(7), Ok(SerialType::Float64));
    assert_eq!(SerialType::read(10), Err(Error::InvalidSerialType));
    assert_eq!(SerialType::read(11), Err(Error::InvalidSerialType));
    assert_eq!(SerialType::read(-3), Err(Error::InvalidSerialType));
    assert_eq!(SerialType::read(12), Ok(SerialType::Blob(0)));
    assert_eq!(SerialType::read(13), Ok(SerialType::Text(0)));
    assert_eq!(SerialType::read(23), Ok(SerialType::Text(5)));
    assert_eq!(SerialType::read(0).unwrap().length(), 0);
    assert_eq!(SerialType::read(5).unwrap().length(), 6);
    assert_eq!(SerialType::read(6).unwrap().length(), 8);
    assert_eq!(SerialType::read(7).unwrap().length(), 8);
    assert_eq!(SerialType::read(8).unwrap().length(), 0);
    assert_eq!(SerialType::read(9).unwrap().length(), 0);
    assert_eq!(SerialType::read(23).unwrap().length(), 5);
}

fn plain_header() -> DbHeader {
    DbHeader {
        magic: b"SQLite format 3\0".to_vec(),
        page_size: 512,
    }
}

#[test]
fn page_parsing_leaf_table() {
    // Type 13, freeblock 0, cell count 3, then the offset table.
    let mut page = vec![13u8, 0, 0, 0, 3, 0, 0, 0];
    page.extend_from_slice(&[0, 20, 0, 24, 0, 28]);
    page.resize(64, 0);
    let parsed = Page::new(1, plain_header(), &page).unwrap();
    assert_eq!(parsed.page_type(), PageType::LeafTable);
    assert_eq!(parsed.cell_offsets, vec![20u16, 24, 28]);
    assert_eq!(parsed.btree_header.ncells(), 3);
    assert_eq!(parsed.btree_header.right_most_pointer, None);
}

#[test]
fn page_unknown_type() {
    let mut page = vec![7u8, 0, 0, 0, 0, 0, 0, 0];
    page.resize(64, 0);
    assert_eq!(
        Page::new(1, plain_header(), &page).err(),
        Some(Error::UnknownPageType)
    );
}

#[test]
fn page_offset_out_of_range() {
    let mut page = vec![13u8, 0, 0, 0, 1, 0, 0, 0];
    page.extend_from_slice(&[0xff, 0xff]);
    page.resize(64, 0);
    assert_eq!(
        Page::new(1, plain_header(), &page).err(),
        Some(Error::PagePointerOutOfRange)
    );
}

#[test]
fn page_interior_reads_right_most_pointer() {
    let mut page = vec![5u8, 0, 0, 0, 0, 0, 0, 0, 0, 0, 0, 9];
    page.resize(64, 0);
    let parsed = Page::new(1, plain_header(), &page).unwrap();
    assert_eq!(parsed.page_type(), PageType::InteriorTable);
    assert_eq!(parsed.btree_header.right_most_pointer, Some(9));
}

#[test]
fn cell_index_out_of_range() {
    let mut page = vec![13u8, 0, 0, 0, 0, 0, 0, 0];
    page.resize(64, 0);
    let parsed = Page::new(1, plain_header(), &page).unwrap();
    assert_eq!(parsed.read_cell(0).err(), Some(Error::CellIndexOutOfRange));
}

#[test]
fn leaf_cell_from_bytes() {
    let payload = record_payload(&[(1, vec![7])]);
    let mut cell = vec![payload.len() as u8, 5]; // payload length, rowid 5
    cell.extend_from_slice(&payload);
    let c = Cell::from_bytes(&cell).unwrap();
    assert_eq!(c.rowid, 5);
    assert_eq!(c.npayload, payload.len() as i64);
    assert_eq!(*c.record.columns[0].data(), SerialValue::Integer(7));
}

#[test]
fn display_rendering() {
    assert_eq!(SerialValue::Null.display(), "");
    assert_eq!(SerialValue::Integer(-42).display(), "-42");
    assert_eq!(SerialValue::Text(b"Alice".to_vec()).display(), "Alice");
    // Multi-byte UTF-8 survives the decoding, so the conversion is not a
    // byte-for-byte identity.
    assert_eq!(
        SerialValue::Text("caf\u{e9}".as_bytes().to_vec()).display(),
        "caf\u{e9}"
    );
    // Invalid UTF-8 decodes lossily to the replacement character.
    assert_eq!(
        SerialValue::Text(vec![0xff]).display(),
        "\u{fffd}"
    );
    assert_eq!(SerialValue::Blob(b"raw".to_vec()).display(), "raw");
}

#[test]
fn db_header_fields() {
    let mut h = b"SQLite format 3\0".to_vec();
    h.extend_from_slice(&[2, 0]); // page size 512
    h.resize(100, 0);
    let dh = DbHeader::new(&h).unwrap();
    assert!(dh.magic_ok());
    assert_eq!(dh.page_size, 512);

    let mut h2 = h.clone();
    h2[16] = 0;
    h2[17] = 1; // stored 1 means 65536
    let dh2 = DbHeader::new(&h2).unwrap();
    assert_eq!(dh2.page_size, 65536);

    let mut h3 = h.clone();
    h3[0] = b'X';
    assert!(!DbHeader::new(&h3).unwrap().magic_ok());
}

#[test]
fn error_descriptions_distinct() {
    let kinds = [
        Error::MalformedVarint,
        Error::TruncatedRecord,
        Error::InvalidSerialType,
        Error::UnknownPageType,
        Error::PagePointerOutOfRange,
        Error::CellIndexOutOfRange,
        Error::PageTypeError,
    ];
    for (i, a) in kinds.iter().enumerate() {
        assert!(!a.describe().is_empty());
        for (j, b) in kinds.iter().enumerate() {
            if i != j {
                assert_ne!(a.describe(), b.describe());
            }
        }
    }
}
