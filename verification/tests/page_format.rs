use storage::catalog::TableMetadata;
use storage::engine::{PageError, Storage};
use storage::page::{
    read_u16, read_u32, read_u64, write_u16, write_u32, write_u64, PageHeader, HEADER_SIZE,
    PAGE_SIZE,
};

#[test]
fn fresh_page_is_empty() {
    let storage = Storage::new();
    let page = storage.create_page();
    assert_eq!(page.len(), PAGE_SIZE);
    let header = PageHeader::decode(&page);
    assert_eq!(header.lower, 18);
    assert_eq!(header.higher, 8192);
    let tables = storage.read_postgres_class(&page).unwrap();
    assert!(tables.is_empty());
    // everything past the header is zero-filled
    assert!(page[HEADER_SIZE..].iter().all(|b| *b == 0));
}

#[test]
fn fresh_page_header_sentinels() {
    let storage = Storage::new();
    let page = storage.create_page();
    let header = PageHeader::decode(&page);
    assert_eq!(header.lsn, 12345678);
    assert_eq!(header.checksum, 42);
    assert_eq!(header.flags, 40);
    assert_eq!(header.special_space, 8192);
}

#[test]
fn header_fields_round_trip() {
    let storage = Storage::new();
    let mut page = storage.create_page();
    let header = PageHeader {
        lsn: 0x0102030405060708,
        checksum: 0xfffe,
        flags: 7,
        lower: 24,
        higher: 8000,
        special_space: 8192,
    };
    header.encode(&mut page);
    let read_back = PageHeader::decode(&page);
    assert_eq!(read_back.lsn, 0x0102030405060708);
    assert_eq!(read_back.checksum, 0xfffe);
    assert_eq!(read_back.flags, 7);
    assert_eq!(read_back.lower, 24);
    assert_eq!(read_back.higher, 8000);
    assert_eq!(read_back.special_space, 8192);
    // little-endian layout: the lsn's lowest byte comes first
    assert_eq!(page[0], 0x08);
    assert_eq!(page[7], 0x01);
}

#[test]
fn little_endian_field_codecs() {
    let mut buffer = vec![0u8; 16];
    write_u16(&mut buffer, 0, 0xbeef);
    assert_eq!(buffer[0], 0xef);
    assert_eq!(buffer[1], 0xbe);
    assert_eq!(read_u16(&buffer, 0), 0xbeef);
    write_u32(&mut buffer, 2, 0xdeadbeef);
    assert_eq!(buffer[2], 0xef);
    assert_eq!(buffer[5], 0xde);
    assert_eq!(read_u32(&buffer, 2), 0xdeadbeef);
    write_u64(&mut buffer, 6, 0x1122334455667788);
    assert_eq!(buffer[6], 0x88);
    assert_eq!(buffer[13], 0x11);
    assert_eq!(read_u64(&buffer, 6), 0x1122334455667788);
}

#[test]
fn directory_offsets_in_insertion_order() {
    let storage = Storage::new();
    let mut page = storage.create_page();
    let tables = vec![
        TableMetadata {
            table_id: 1,
            table_name: "accounts".to_string(),
        },
        TableMetadata {
            table_id: 2,
            table_name: "users".to_string(),
        },
    ];
    storage.write_postgres_class(&mut page, &tables).unwrap();
    let offsets = storage.scan_directory(&page).unwrap();
    // "accounts" takes 14 bytes at the top of the tuple area, "users" the
    // next 11 below it
    assert_eq!(offsets, vec![8178u16, 8167u16]);
}

#[test]
fn zeroed_buffer_is_malformed() {
    let storage = Storage::new();
    let page = vec![0u8; PAGE_SIZE];
    let result = storage.read_postgres_class(&page);
    assert_eq!(result, Err(PageError::MalformedRecord));
}

#[test]
fn truncated_record_is_malformed() {
    let storage = Storage::new();
    let mut page = storage.create_page();
    // hand-craft a directory entry pointing two bytes before the page's end:
    // too little room for even the fixed fields of a table descriptor
    write_u16(&mut page, 12, 20); // lower: one directory entry
    write_u16(&mut page, 18, (PAGE_SIZE - 2) as u16);
    let result = storage.read_postgres_class(&page);
    assert_eq!(result, Err(PageError::MalformedRecord));
}

#[test]
fn invalid_utf8_name_is_malformed() {
    let storage = Storage::new();
    let mut page = storage.create_page();
    // hand-craft a record at offset 8180: table_id 1, name length 2, but the
    // name bytes are not valid UTF-8
    write_u16(&mut page, 12, 20); // lower: one directory entry
    write_u16(&mut page, 14, 8180); // higher
    write_u16(&mut page, 18, 8180); // the entry
    write_u32(&mut page, 8180, 1); // table_id
    write_u16(&mut page, 8184, 2); // name length
    page[8186] = 0xff;
    page[8187] = 0xfe;
    let result = storage.read_postgres_class(&page);
    assert_eq!(result, Err(PageError::MalformedRecord));
}
