use storage::catalog::{ColumnMetadata, TableMetadata};
use storage::engine::{PageError, Storage};
use storage::page::PageHeader;

#[test]
fn test_write_postgres_class() {
    let storage = Storage::new();
    let columns_metadata = vec![
        ColumnMetadata {
            column_id: 1,
            table_id: 42,
            column_name: "user_id".to_string(),
            data_type: "INTEGER".to_string(),
            is_nullable: false,
        },
        ColumnMetadata {
            column_id: 2,
            table_id: 42,
            column_name: "username".to_string(),
            data_type: "VARCHAR".to_string(),
            is_nullable: false,
        },
        ColumnMetadata {
            column_id: 3,
            table_id: 42,
            column_name: "email".to_string(),
            data_type: "VARCHAR".to_string(),
            is_nullable: true,
        },
        ColumnMetadata {
            column_id: 4,
            table_id: 42,
            column_name: "created_at".to_string(),
            data_type: "TIMESTAMP".to_string(),
            is_nullable: false,
        },
    ];
    let tables_metadata = vec![
        TableMetadata {
            table_id: 1,
            table_name: "accounts".to_string(),
        },
        TableMetadata {
            table_id: 2,
            table_name: "users".to_string(),
        },
        TableMetadata {
            table_id: 3,
            table_name: "orders".to_string(),
        },
        TableMetadata {
            table_id: 4,
            table_name: "products".to_string(),
        },
        TableMetadata {
            table_id: 5,
            table_name: "transactions".to_string(),
        },
    ];
    let mut table_page = storage.create_page();
    storage
        .write_postgres_class(&mut table_page, &tables_metadata)
        .unwrap();
    let read_tables_metadata = storage.read_postgres_class(&table_page).unwrap();
    assert_eq!(read_tables_metadata, tables_metadata);
    let mut column_page = storage.create_page();
    let _ = storage.write_postgres_attribute(&mut column_page, &columns_metadata);
    let read_columns_metadata = storage.read_postgres_attribute(&column_page).unwrap();
    assert_eq!(read_columns_metadata, columns_metadata);
}

#[test]
fn two_tables_scenario() {
    let storage = Storage::new();
    let mut page = storage.create_page();
    let tables = vec![
        TableMetadata {
            table_id: 1,
            table_name: "accounts".to_string(),
        },
        TableMetadata {
            table_id: 2,
            table_name: "users".to_string(),
        },
    ];
    storage.write_postgres_class(&mut page, &tables).unwrap();
    let read_back = storage.read_postgres_class(&page).unwrap();
    assert_eq!(read_back, tables);
    let header = PageHeader::decode(&page);
    // two directory entries of two bytes each
    assert_eq!(header.lower, 22);
    // "accounts" encodes to 4 + 2 + 8 = 14 bytes, "users" to 4 + 2 + 5 = 11
    assert_eq!(header.higher, 8192 - 14 - 11);
}

#[test]
fn column_descriptor_scenario() {
    let storage = Storage::new();
    let mut page = storage.create_page();
    let columns = vec![ColumnMetadata {
        column_id: 1,
        table_id: 42,
        column_name: "user_id".to_string(),
        data_type: "INTEGER".to_string(),
        is_nullable: false,
    }];
    storage.write_postgres_attribute(&mut page, &columns).unwrap();
    let read_back = storage.read_postgres_attribute(&page).unwrap();
    assert_eq!(read_back.len(), 1);
    assert_eq!(read_back[0].column_id, 1);
    assert_eq!(read_back[0].table_id, 42);
    assert_eq!(read_back[0].column_name, "user_id");
    assert_eq!(read_back[0].data_type, "INTEGER");
    assert_eq!(read_back[0].is_nullable, false);
    // 4 + 4 + (2 + 7) + (2 + 7) + 1 = 27 encoded bytes
    let header = PageHeader::decode(&page);
    assert_eq!(header.lower, 20);
    assert_eq!(header.higher, 8192 - 27);
}

#[test]
fn nullable_column_round_trips() {
    let storage = Storage::new();
    let mut page = storage.create_page();
    let columns = vec![ColumnMetadata {
        column_id: 9,
        table_id: 7,
        column_name: "note".to_string(),
        data_type: "VARCHAR".to_string(),
        is_nullable: true,
    }];
    storage.write_postgres_attribute(&mut page, &columns).unwrap();
    let read_back = storage.read_postgres_attribute(&page).unwrap();
    assert_eq!(read_back, columns);
    assert!(read_back[0].is_nullable);
}

#[test]
fn non_ascii_names_round_trip() {
    let storage = Storage::new();
    let mut page = storage.create_page();
    let tables = vec![TableMetadata {
        table_id: 11,
        table_name: "naïve—日本語".to_string(),
    }];
    storage.write_postgres_class(&mut page, &tables).unwrap();
    let read_back = storage.read_postgres_class(&page).unwrap();
    assert_eq!(read_back, tables);
    assert_eq!(read_back[0].table_name, "naïve—日本語");
}

#[test]
fn appends_accumulate_in_order() {
    let storage = Storage::new();
    let mut page = storage.create_page();
    let first = vec![TableMetadata {
        table_id: 1,
        table_name: "alpha".to_string(),
    }];
    let second = vec![TableMetadata {
        table_id: 2,
        table_name: "beta".to_string(),
    }];
    storage.write_postgres_class(&mut page, &first).unwrap();
    storage.write_postgres_class(&mut page, &second).unwrap();
    let read_back = storage.read_postgres_class(&page).unwrap();
    assert_eq!(read_back.len(), 2);
    assert_eq!(read_back[0], first[0]);
    assert_eq!(read_back[1], second[0]);
}

#[test]
fn oversized_name_is_an_encoding_error() {
    let storage = Storage::new();
    let mut page = storage.create_page();
    let before = page.clone();
    let tables = vec![TableMetadata {
        table_id: 1,
        table_name: "x".repeat(0x10000),
    }];
    let result = storage.write_postgres_class(&mut page, &tables);
    assert_eq!(result, Err(PageError::EncodingError));
    assert_eq!(page, before);
}
