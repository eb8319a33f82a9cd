use storage::catalog::TableMetadata;
use storage::engine::{PageError, Storage};
use storage::page::PageHeader;

fn table_with_name_bytes(table_id: u32, len: usize) -> TableMetadata {
    TableMetadata {
        table_id,
        table_name: "x".repeat(len),
    }
}

#[test]
fn record_filling_free_space_exactly_succeeds() {
    let storage = Storage::new();
    let mut page = storage.create_page();
    // free space is 8192 - 18 = 8174 bytes; one record costs two directory
    // bytes plus its encoding, so the largest encoding is 8172 bytes, which
    // means a name of 8172 - 6 = 8166 bytes
    let tables = vec![table_with_name_bytes(1, 8166)];
    storage.write_postgres_class(&mut page, &tables).unwrap();
    let header = PageHeader::decode(&page);
    assert_eq!(header.lower, 20);
    assert_eq!(header.higher, 20);
    let read_back = storage.read_postgres_class(&page).unwrap();
    assert_eq!(read_back, tables);
}

#[test]
fn record_one_byte_larger_is_space_exhausted() {
    let storage = Storage::new();
    let mut page = storage.create_page();
    let before = page.clone();
    let tables = vec![table_with_name_bytes(1, 8167)];
    let result = storage.write_postgres_class(&mut page, &tables);
    assert_eq!(result, Err(PageError::SpaceExhausted));
    assert_eq!(page, before);
}

#[test]
fn failed_batch_leaves_prior_records_readable() {
    let storage = Storage::new();
    let mut page = storage.create_page();
    let first = vec![table_with_name_bytes(1, 100)];
    storage.write_postgres_class(&mut page, &first).unwrap();
    let before = page.clone();
    // each of these encodes to 4506 bytes; together with their directory
    // entries the batch overflows what is left, so nothing of it may land
    let batch = vec![table_with_name_bytes(2, 4500), table_with_name_bytes(3, 4500)];
    let result = storage.write_postgres_class(&mut page, &batch);
    assert_eq!(result, Err(PageError::SpaceExhausted));
    assert_eq!(page, before);
    let read_back = storage.read_postgres_class(&page).unwrap();
    assert_eq!(read_back, first);
}

#[test]
fn directory_grows_and_tuple_area_shrinks() {
    let storage = Storage::new();
    let mut page = storage.create_page();
    let tables = vec![
        table_with_name_bytes(1, 10),
        table_with_name_bytes(2, 20),
        table_with_name_bytes(3, 30),
    ];
    storage.write_postgres_class(&mut page, &tables).unwrap();
    let header = PageHeader::decode(&page);
    // three entries of two bytes each past the 18-byte header
    assert_eq!(header.lower, 18 + 2 * 3);
    // each record encodes to 6 bytes of fixed fields plus its name
    assert_eq!(header.higher, 8192 - (16 + 26 + 36));
}

#[test]
fn append_to_full_page_fails() {
    let storage = Storage::new();
    let mut page = storage.create_page();
    let filler = vec![table_with_name_bytes(1, 8166)];
    storage.write_postgres_class(&mut page, &filler).unwrap();
    let before = page.clone();
    let more = vec![table_with_name_bytes(2, 0)];
    let result = storage.write_postgres_class(&mut page, &more);
    assert_eq!(result, Err(PageError::SpaceExhausted));
    assert_eq!(page, before);
}
